//! Response encoding: a reply becomes its wire form, `NNN text CR LF`.

use vstd::prelude::*;

use crate::framer::CR;
use crate::framer::LF;
use crate::session::Reply;

verus! {

impl Reply {
    /// The three-digit numeric status code of this reply.
    pub open spec fn code_spec(self) -> int {
        match self {
            Reply::Banner => 220,
            Reply::GreetingAck => 250,
            Reply::SenderOk => 250,
            Reply::RecipientOk => 250,
            Reply::StartInput => 354,
            Reply::Accepted => 250,
            Reply::Bye => 221,
            Reply::BadSequence => 503,
            Reply::UnknownCmd => 500,
            Reply::MalformedArg => 501,
            Reply::LineTooLong => 500,
        }
    }

    /// The human-readable text that follows the code on the wire.
    pub open spec fn text_spec(self) -> Seq<u8> {
        match self {
            Reply::Banner => seq![83u8, 105u8, 109u8, 112u8, 108u8, 101u8, 83u8, 77u8, 84u8, 80u8, 32u8, 83u8, 101u8, 
                114u8, 118u8, 101u8, 114u8, 32u8, 82u8, 101u8, 97u8, 100u8, 121u8],
            Reply::GreetingAck => seq![72u8, 101u8, 108u8, 108u8, 111u8, 44u8, 32u8, 112u8, 108u8, 101u8, 97u8, 115u8, 
                101u8, 100u8, 32u8, 116u8, 111u8, 32u8, 109u8, 101u8, 101u8, 116u8, 32u8, 
                121u8, 111u8, 117u8],
            Reply::SenderOk => seq![83u8, 101u8, 110u8, 100u8, 101u8, 114u8, 32u8, 79u8, 75u8],
            Reply::RecipientOk => seq![82u8, 101u8, 99u8, 105u8, 112u8, 105u8, 101u8, 110u8, 116u8, 32u8, 79u8, 75u8],
            Reply::StartInput => seq![83u8, 116u8, 97u8, 114u8, 116u8, 32u8, 109u8, 97u8, 105u8, 108u8, 32u8, 105u8, 
                110u8, 112u8, 117u8, 116u8, 59u8, 32u8, 101u8, 110u8, 100u8, 32u8, 119u8, 
                105u8, 116u8, 104u8, 32u8, 60u8, 67u8, 82u8, 76u8, 70u8, 62u8, 46u8, 
                60u8, 67u8, 82u8, 76u8, 70u8, 62u8],
            Reply::Accepted => seq![77u8, 101u8, 115u8, 115u8, 97u8, 103u8, 101u8, 32u8, 97u8, 99u8, 99u8, 101u8, 112u8, 
                116u8, 101u8, 100u8],
            Reply::Bye => seq![66u8, 121u8, 101u8],
            Reply::BadSequence => seq![66u8, 97u8, 100u8, 32u8, 115u8, 101u8, 113u8, 117u8, 101u8, 110u8, 99u8, 101u8, 
                32u8, 111u8, 102u8, 32u8, 99u8, 111u8, 109u8, 109u8, 97u8, 110u8, 100u8, 
                115u8],
            Reply::UnknownCmd => seq![67u8, 111u8, 109u8, 109u8, 97u8, 110u8, 100u8, 32u8, 110u8, 111u8, 116u8, 32u8, 
                114u8, 101u8, 99u8, 111u8, 103u8, 110u8, 105u8, 122u8, 101u8, 100u8],
            Reply::MalformedArg => seq![77u8, 97u8, 108u8, 102u8, 111u8, 114u8, 109u8, 101u8, 100u8, 32u8, 97u8, 114u8, 
                103u8, 117u8, 109u8, 101u8, 110u8, 116u8],
            Reply::LineTooLong => seq![76u8, 105u8, 110u8, 101u8, 32u8, 116u8, 111u8, 111u8, 32u8, 108u8, 111u8, 110u8, 
                103u8],
        }
    }

    /// The numeric status code of this reply.
    pub fn code(&self) -> (c: u16)
        ensures
            c as int == self.code_spec(),
    {
        match self {
            Reply::Banner => 220,
            Reply::GreetingAck => 250,
            Reply::SenderOk => 250,
            Reply::RecipientOk => 250,
            Reply::StartInput => 354,
            Reply::Accepted => 250,
            Reply::Bye => 221,
            Reply::BadSequence => 503,
            Reply::UnknownCmd => 500,
            Reply::MalformedArg => 501,
            Reply::LineTooLong => 500,
        }
    }
}

/// The decimal digits of a three-digit status code.
pub open spec fn digits3(n: int) -> Seq<u8> {
    seq![(48 + (n / 100) % 10) as u8, (48 + (n / 10) % 10) as u8, (48 + n % 10) as u8]
}

/// The wire form of one reply: code, space, text, terminator.
pub open spec fn reply_bytes(r: Reply) -> Seq<u8> {
    digits3(r.code_spec()) + seq![32u8] + r.text_spec() + seq![CR, LF]
}

/// Appends the reply text to `out`.
#[verifier::rlimit(30)]
fn push_text(out: &mut Vec<u8>, r: &Reply)
    ensures
        final(out)@ == old(out)@ + r.text_spec(),
{
    let ghost pre = out@;
    match r {
            Reply::Banner => {
                out.push(83);
                out.push(105);
                out.push(109);
                out.push(112);
                out.push(108);
                out.push(101);
                out.push(83);
                out.push(77);
                out.push(84);
                out.push(80);
                out.push(32);
                out.push(83);
                out.push(101);
                out.push(114);
                out.push(118);
                out.push(101);
                out.push(114);
                out.push(32);
                out.push(82);
                out.push(101);
                out.push(97);
                out.push(100);
                out.push(121);
            },
            Reply::GreetingAck => {
                out.push(72);
                out.push(101);
                out.push(108);
                out.push(108);
                out.push(111);
                out.push(44);
                out.push(32);
                out.push(112);
                out.push(108);
                out.push(101);
                out.push(97);
                out.push(115);
                out.push(101);
                out.push(100);
                out.push(32);
                out.push(116);
                out.push(111);
                out.push(32);
                out.push(109);
                out.push(101);
                out.push(101);
                out.push(116);
                out.push(32);
                out.push(121);
                out.push(111);
                out.push(117);
            },
            Reply::SenderOk => {
                out.push(83);
                out.push(101);
                out.push(110);
                out.push(100);
                out.push(101);
                out.push(114);
                out.push(32);
                out.push(79);
                out.push(75);
            },
            Reply::RecipientOk => {
                out.push(82);
                out.push(101);
                out.push(99);
                out.push(105);
                out.push(112);
                out.push(105);
                out.push(101);
                out.push(110);
                out.push(116);
                out.push(32);
                out.push(79);
                out.push(75);
            },
            Reply::StartInput => {
                out.push(83);
                out.push(116);
                out.push(97);
                out.push(114);
                out.push(116);
                out.push(32);
                out.push(109);
                out.push(97);
                out.push(105);
                out.push(108);
                out.push(32);
                out.push(105);
                out.push(110);
                out.push(112);
                out.push(117);
                out.push(116);
                out.push(59);
                out.push(32);
                out.push(101);
                out.push(110);
                out.push(100);
                out.push(32);
                out.push(119);
                out.push(105);
                out.push(116);
                out.push(104);
                out.push(32);
                out.push(60);
                out.push(67);
                out.push(82);
                out.push(76);
                out.push(70);
                out.push(62);
                out.push(46);
                out.push(60);
                out.push(67);
                out.push(82);
                out.push(76);
                out.push(70);
                out.push(62);
            },
            Reply::Accepted => {
                out.push(77);
                out.push(101);
                out.push(115);
                out.push(115);
                out.push(97);
                out.push(103);
                out.push(101);
                out.push(32);
                out.push(97);
                out.push(99);
                out.push(99);
                out.push(101);
                out.push(112);
                out.push(116);
                out.push(101);
                out.push(100);
            },
            Reply::Bye => {
                out.push(66);
                out.push(121);
                out.push(101);
            },
            Reply::BadSequence => {
                out.push(66);
                out.push(97);
                out.push(100);
                out.push(32);
                out.push(115);
                out.push(101);
                out.push(113);
                out.push(117);
                out.push(101);
                out.push(110);
                out.push(99);
                out.push(101);
                out.push(32);
                out.push(111);
                out.push(102);
                out.push(32);
                out.push(99);
                out.push(111);
                out.push(109);
                out.push(109);
                out.push(97);
                out.push(110);
                out.push(100);
                out.push(115);
            },
            Reply::UnknownCmd => {
                out.push(67);
                out.push(111);
                out.push(109);
                out.push(109);
                out.push(97);
                out.push(110);
                out.push(100);
                out.push(32);
                out.push(110);
                out.push(111);
                out.push(116);
                out.push(32);
                out.push(114);
                out.push(101);
                out.push(99);
                out.push(111);
                out.push(103);
                out.push(110);
                out.push(105);
                out.push(122);
                out.push(101);
                out.push(100);
            },
            Reply::MalformedArg => {
                out.push(77);
                out.push(97);
                out.push(108);
                out.push(102);
                out.push(111);
                out.push(114);
                out.push(109);
                out.push(101);
                out.push(100);
                out.push(32);
                out.push(97);
                out.push(114);
                out.push(103);
                out.push(117);
                out.push(109);
                out.push(101);
                out.push(110);
                out.push(116);
            },
            Reply::LineTooLong => {
                out.push(76);
                out.push(105);
                out.push(110);
                out.push(101);
                out.push(32);
                out.push(116);
                out.push(111);
                out.push(111);
                out.push(32);
                out.push(108);
                out.push(111);
                out.push(110);
                out.push(103);
            },
    }
    proof {
        assert(out@ =~= pre + r.text_spec());
    }
}

/// Encodes one reply into its wire bytes.
pub fn encode_reply(r: &Reply) -> (out: Vec<u8>)
    ensures
        out@ == reply_bytes(*r),
{
    let mut out: Vec<u8> = Vec::new();
    let c = r.code();
    out.push(48 + (c / 100 % 10) as u8);
    out.push(48 + (c / 10 % 10) as u8);
    out.push(48 + (c % 10) as u8);
    out.push(32);
    push_text(&mut out, r);
    out.push(CR);
    out.push(LF);
    proof {
        assert(out@ =~= reply_bytes(*r));
    }
    out
}

/// The wire form of a sequence of replies, in order.
pub open spec fn replies_bytes(rs: Seq<Reply>) -> Seq<u8>
    decreases rs.len(),
{
    if rs.len() == 0 {
        Seq::empty()
    } else {
        reply_bytes(rs[0]) + replies_bytes(rs.skip(1))
    }
}

/// Encodes a sequence of replies into one outbound buffer.
pub fn encode_replies(rs: &Vec<Reply>) -> (out: Vec<u8>)
    ensures
        out@ == replies_bytes(rs@),
{
    let mut out: Vec<u8> = Vec::new();
    let mut i: usize = 0;
    proof {
        assert(rs@.skip(0) =~= rs@);
        assert(out@ + replies_bytes(rs@) =~= replies_bytes(rs@));
    }
    while i < rs.len()
        invariant
            i <= rs@.len(),
            replies_bytes(rs@) == out@ + replies_bytes(rs@.skip(i as int)),
        decreases rs@.len() - i,
    {
        let ghost pre = out@;
        let ghost sufi = rs@.skip(i as int);
        let enc = encode_reply(&rs[i]);
        crate::bytes::push_all(&mut out, enc.as_slice());
        proof {
            assert(sufi[0] == rs@[i as int]);
            assert(replies_bytes(sufi) == reply_bytes(sufi[0]) + replies_bytes(sufi.skip(1)));
            assert(sufi.skip(1) =~= rs@.skip(i as int + 1));
            assert(pre + (reply_bytes(sufi[0]) + replies_bytes(sufi.skip(1))) =~= (pre
                + reply_bytes(sufi[0])) + replies_bytes(sufi.skip(1)));
        }
        i += 1;
    }
    proof {
        assert(rs@.skip(rs@.len() as int) =~= Seq::<Reply>::empty());
        assert(out@ + Seq::<u8>::empty() =~= out@);
    }
    out
}

} // verus!

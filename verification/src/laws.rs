//! The properties the protocol core guarantees, stated and proved over
//! the specification functions of the other modules: chunk-boundary
//! independence, command sequencing, transaction reset, dot-stuffing
//! transparency, terminal behavior after quit, and the oversized-line
//! guard.

use vstd::prelude::*;

use crate::framer::frame_lines;
use crate::framer::frame_rest;
use crate::framer::is_crlf_at;
use crate::framer::lemma_frame_append;
use crate::framer::lemma_rest_bounded;
use crate::framer::lemma_rest_no_crlf;
use crate::framer::lemma_split_decomposition;
use crate::framer::no_crlf;
use crate::framer::pending_len;
use crate::framer::split_first_line;
use crate::framer::CR;
use crate::framer::LF;
use crate::machine::consume_spec;
use crate::machine::opt_seq;
use crate::machine::run_lines;
use crate::machine::ConnectionModel;
use crate::parser::parse_spec;
use crate::parser::CommandModel;
use crate::parser::ParseError;
use crate::session::dot_line;
use crate::session::step_spec;
use crate::session::unstuff;
use crate::session::EventModel;
use crate::session::Phase;
use crate::session::Reply;
use crate::session::SessionModel;

verus! {

/// Running the state machine over two sequences of lines in turn is the
/// same as running it over their concatenation.
pub proof fn lemma_run_lines_append(s: SessionModel, l1: Seq<Seq<u8>>, l2: Seq<Seq<u8>>)
    ensures
        ({
            let a = run_lines(s, l1);
            let b = run_lines(a.session, l2);
            &&& run_lines(s, l1 + l2).session == b.session
            &&& run_lines(s, l1 + l2).replies == a.replies + b.replies
            &&& run_lines(s, l1 + l2).events == a.events + b.events
        }),
    decreases l1.len(),
{
    if l1.len() == 0 {
        assert(l1 + l2 =~= l2);
        let b = run_lines(s, l2);
        assert(Seq::<Reply>::empty() + b.replies =~= b.replies);
        assert(Seq::<EventModel>::empty() + b.events =~= b.events);
    } else {
        assert((l1 + l2)[0] == l1[0]);
        assert((l1 + l2).skip(1) =~= l1.skip(1) + l2);
        assert((l1 + l2).len() > 0);
        let st = step_spec(s, l1[0]);
        lemma_run_lines_append(st.session, l1.skip(1), l2);
        let a1 = run_lines(st.session, l1.skip(1));
        let b = run_lines(a1.session, l2);
        assert(opt_seq(st.reply) + (a1.replies + b.replies) =~= (opt_seq(st.reply) + a1.replies)
            + b.replies);
        assert(opt_seq(st.event) + (a1.events + b.events) =~= (opt_seq(st.event) + a1.events)
            + b.events);
    }
}

/// Chunk-boundary independence: a stream whose lines and final tail stay
/// within the configured bound produces the same connection state, the
/// same ordered replies and the same events whether its bytes arrive as
/// one chunk or split at an arbitrary offset — including splits in the
/// middle of a line or of its two-byte terminator.
pub proof fn lemma_chunk_boundary_independence(m: ConnectionModel, a: Seq<u8>, b: Seq<u8>)
    requires
        !m.normalize,
        forall|i: int|
            0 <= i < frame_lines(m.buf + (a + b)).len() ==> #[trigger] frame_lines(
                m.buf + (a + b),
            )[i].len() <= m.max_line,
        pending_len(frame_rest(m.buf + (a + b))) <= m.max_line,
    ensures
        ({
            let once = consume_spec(m, a + b);
            let first = consume_spec(m, a);
            let second = consume_spec(first.conn, b);
            &&& once.conn == second.conn
            &&& once.replies == first.replies + second.replies
            &&& once.events == first.events + second.events
        }),
{
    let total = m.buf + (a + b);
    let s1 = m.buf + a;
    assert(total =~= s1 + b);
    lemma_frame_append(s1, b);
    let r1 = frame_rest(s1);
    let l1 = frame_lines(s1);
    let l2 = frame_lines(r1 + b);
    assert(frame_lines(total) == l1 + l2);
    assert(frame_rest(total) == frame_rest(r1 + b));
    lemma_rest_no_crlf(s1);
    lemma_rest_bounded(r1, b);
    assert(pending_len(r1) <= m.max_line) by {
        if l2.len() > 0 {
            assert((l1 + l2)[l1.len() as int] == l2[0]);
            assert(frame_lines(total)[l1.len() as int].len() <= m.max_line);
        } else {
            assert(pending_len(r1) <= pending_len(frame_rest(r1 + b)));
        }
    }
    let once = consume_spec(m, a + b);
    let first = consume_spec(m, a);
    let second = consume_spec(first.conn, b);
    assert(first.conn.buf == r1);
    assert(first.conn.buf + b =~= r1 + b);
    lemma_run_lines_append(m.session, l1, l2);
    assert(once.conn =~= second.conn);
    assert(once.replies =~= first.replies + second.replies);
    assert(once.events =~= first.events + second.events);
}

/// Sequencing: before any sender was accepted in the current transaction,
/// `RCPT TO:` always answers 503 and never 250, and changes nothing.
pub proof fn lemma_rcpt_before_mail_rejected(s: SessionModel, line: Seq<u8>, a: Seq<u8>)
    requires
        s.wf(),
        s.sender is None,
        s.phase != Phase::Closed,
        parse_spec(line) == Ok::<CommandModel, ParseError>(CommandModel::Rcpt(a)),
    ensures
        step_spec(s, line).reply == Some(Reply::BadSequence),
        step_spec(s, line).session == s,
{
    assert(s.phase != Phase::HaveSender && s.phase != Phase::HaveRecipients && s.phase
        != Phase::ReceivingBody);
    assert(line.len() != 0) by {
        if line.len() == 0 {
            assert(!crate::parser::verb_is(
                line.take(crate::parser::token_len(line)),
                crate::parser::verb_rcpt(),
            ));
        }
    }
}

/// Transaction reset: accepting a message (the terminating dot) clears the
/// whole transaction, and the next `MAIL FROM:` therefore starts with an
/// empty recipient list and an empty body.
pub proof fn lemma_transaction_reset(s: SessionModel, line: Seq<u8>, a: Seq<u8>)
    requires
        s.phase == Phase::ReceivingBody,
        parse_spec(line) == Ok::<CommandModel, ParseError>(CommandModel::Mail(a)),
    ensures
        step_spec(s, dot_line()).session == s.reset(Phase::Ready),
        step_spec(step_spec(s, dot_line()).session, line).session == (SessionModel {
            phase: Phase::HaveSender,
            sender: Some(a),
            recipients: Seq::empty(),
            body: Seq::empty(),
        }),
{
    let s1 = step_spec(s, dot_line()).session;
    assert(s1 =~= s.reset(Phase::Ready));
    assert(line.len() != 0) by {
        if line.len() == 0 {
            assert(!crate::parser::verb_is(
                line.take(crate::parser::token_len(line)),
                crate::parser::verb_mail(),
            ));
        }
    }
    assert(step_spec(s1, line).session =~= (SessionModel {
        phase: Phase::HaveSender,
        sender: Some(a),
        recipients: Seq::empty(),
        body: Seq::empty(),
    }));
}

/// Dot-stuffing transparency: in the body phase the literal line `..` is
/// stored as `.` followed by the line terminator and does not end the
/// body, while the single-character line `.` ends the body instead and
/// hands the completed transaction out.
pub proof fn lemma_dot_stuffing(s: SessionModel)
    requires
        s.phase == Phase::ReceivingBody,
    ensures
        step_spec(s, seq![46u8, 46u8]).session.body == s.body + seq![46u8] + seq![CR, LF],
        step_spec(s, seq![46u8, 46u8]).session.phase == Phase::ReceivingBody,
        step_spec(s, seq![46u8, 46u8]).reply is None,
        step_spec(s, seq![46u8]).reply == Some(Reply::Accepted),
        step_spec(s, seq![46u8]).session == s.reset(Phase::Ready),
        step_spec(s, seq![46u8]).event == Some(EventModel::TransactionCompleted(s.record())),
{
    assert(seq![46u8] =~= dot_line());
    assert(seq![46u8, 46u8].len() != dot_line().len());
    assert(unstuff(seq![46u8, 46u8]) =~= seq![46u8]);
    assert(step_spec(s, seq![46u8]).session =~= s.reset(Phase::Ready));
}

/// Terminal behavior: a closed session answers no line with any reply,
/// emits no event, and never changes again.
pub proof fn lemma_closed_is_terminal(s: SessionModel, lines: Seq<Seq<u8>>)
    requires
        s.phase == Phase::Closed,
    ensures
        run_lines(s, lines).session == s,
        run_lines(s, lines).replies == Seq::<Reply>::empty(),
        run_lines(s, lines).events == Seq::<EventModel>::empty(),
    decreases lines.len(),
{
    if lines.len() > 0 {
        assert(step_spec(s, lines[0]).session == s);
        lemma_closed_is_terminal(s, lines.skip(1));
        assert(opt_seq(step_spec(s, lines[0]).reply) + Seq::<Reply>::empty() =~= Seq::<
            Reply,
        >::empty());
        assert(opt_seq(step_spec(s, lines[0]).event) + Seq::<EventModel>::empty() =~= Seq::<
            EventModel,
        >::empty());
    }
}

/// Terminal behavior at the connection: once the session is closed, no
/// arriving chunk yields a reply or an event, and the session stays
/// closed.
pub proof fn lemma_closed_connection_silent(m: ConnectionModel, chunk: Seq<u8>)
    requires
        m.session.phase == Phase::Closed,
    ensures
        consume_spec(m, chunk).replies == Seq::<Reply>::empty(),
        consume_spec(m, chunk).events == Seq::<EventModel>::empty(),
        consume_spec(m, chunk).conn.session == m.session,
{
    let c = if m.normalize {
        crate::framer::unescape(m.buf + chunk)
    } else {
        m.buf + chunk
    };
    lemma_closed_is_terminal(m.session, frame_lines(c));
}

/// The oversized-line guard: a terminator-free stream whose committed
/// length exceeds the bound yields exactly one 500-class reply, the
/// buffered tail is discarded (memory stays bounded), and the session is
/// untouched.
pub proof fn lemma_oversized_guard(m: ConnectionModel, chunk: Seq<u8>)
    requires
        !m.normalize,
        no_crlf(m.buf + chunk),
        pending_len(m.buf + chunk) > m.max_line,
        m.session.phase != Phase::Closed,
    ensures
        consume_spec(m, chunk).replies == seq![Reply::LineTooLong],
        consume_spec(m, chunk).events == Seq::<EventModel>::empty(),
        consume_spec(m, chunk).conn.buf == Seq::<u8>::empty(),
        consume_spec(m, chunk).conn.session == m.session,
{
    let c = m.buf + chunk;
    assert(split_first_line(c) is None) by {
        if split_first_line(c) is Some {
            lemma_split_decomposition(c);
            let p = split_first_line(c)->Some_0;
            assert(is_crlf_at(c, p.0.len() as int)) by {
                assert(c[p.0.len() as int] == (p.0 + seq![CR, LF] + p.1)[p.0.len() as int]);
                assert(c[p.0.len() as int + 1] == (p.0 + seq![CR, LF] + p.1)[p.0.len() as int + 1]);
            }
        }
    }
    assert(frame_lines(c) == Seq::<Seq<u8>>::empty());
    assert(frame_rest(c) == c);
    assert(Seq::<Reply>::empty() + seq![Reply::LineTooLong] =~= seq![Reply::LineTooLong]);
}

} // verus!

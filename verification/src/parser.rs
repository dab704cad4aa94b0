//! Command parsing: one complete protocol line becomes a structured
//! command, or a parse error that distinguishes an unknown verb from a
//! malformed argument.
//!
//! The verb is the token before the first whitespace run, matched
//! case-insensitively against the known verb set.  `MAIL` requires its
//! remainder to begin with the fixed prefix `FROM:` and `RCPT` with `TO:`;
//! the argument is what follows, trimmed of surrounding whitespace and of
//! one wrapping angle-bracket pair.

use vstd::prelude::*;

use crate::bytes::copy_range;

verus! {

/// Space and horizontal tab are the whitespace of the command grammar.
pub open spec fn is_ws(b: u8) -> bool {
    b == 32 || b == 9
}

/// ASCII upper-casing of one byte; bytes outside `a..z` are unchanged.
pub open spec fn upper(b: u8) -> u8 {
    if 97 <= b && b <= 122 {
        (b - 32) as u8
    } else {
        b
    }
}

/// Length of the leading whitespace-free token of `s`.
pub open spec fn token_len(s: Seq<u8>) -> int
    decreases s.len(),
{
    if s.len() == 0 || is_ws(s[0]) {
        0
    } else {
        1 + token_len(s.skip(1))
    }
}

/// Length of the leading whitespace run of `s`.
pub open spec fn ws_len(s: Seq<u8>) -> int
    decreases s.len(),
{
    if s.len() == 0 || !is_ws(s[0]) {
        0
    } else {
        1 + ws_len(s.skip(1))
    }
}

/// Length of the trailing whitespace run of `s`.
pub open spec fn ws_suffix_len(s: Seq<u8>) -> int
    decreases s.len(),
{
    if s.len() == 0 || !is_ws(s[s.len() - 1]) {
        0
    } else {
        1 + ws_suffix_len(s.take(s.len() - 1))
    }
}

pub proof fn lemma_token_len_at(s: Seq<u8>, i: int)
    requires
        0 <= i <= s.len(),
        forall|k: int| 0 <= k < i ==> !is_ws(s[k]),
        i == s.len() || is_ws(s[i]),
    ensures
        token_len(s) == i,
    decreases i,
{
    if i > 0 {
        assert(!is_ws(s[0]));
        assert forall|k: int| 0 <= k < i - 1 implies !is_ws(s.skip(1)[k]) by {
            assert(s.skip(1)[k] == s[k + 1]);
        }
        if i < s.len() {
            assert(s.skip(1)[i - 1] == s[i]);
        }
        lemma_token_len_at(s.skip(1), i - 1);
    }
}

pub proof fn lemma_ws_len_at(s: Seq<u8>, i: int)
    requires
        0 <= i <= s.len(),
        forall|k: int| 0 <= k < i ==> is_ws(s[k]),
        i == s.len() || !is_ws(s[i]),
    ensures
        ws_len(s) == i,
    decreases i,
{
    if i > 0 {
        assert(is_ws(s[0]));
        assert forall|k: int| 0 <= k < i - 1 implies is_ws(s.skip(1)[k]) by {
            assert(s.skip(1)[k] == s[k + 1]);
        }
        if i < s.len() {
            assert(s.skip(1)[i - 1] == s[i]);
        }
        lemma_ws_len_at(s.skip(1), i - 1);
    }
}

pub proof fn lemma_ws_suffix_at(s: Seq<u8>, hi: int)
    requires
        0 <= hi <= s.len(),
        forall|k: int| hi <= k < s.len() ==> is_ws(s[k]),
        hi == 0 || !is_ws(s[hi - 1]),
    ensures
        ws_suffix_len(s) == s.len() - hi,
    decreases s.len(),
{
    if hi == s.len() {
    } else {
        assert(is_ws(s[s.len() - 1]));
        let t = s.take(s.len() - 1);
        assert forall|k: int| hi <= k < t.len() implies is_ws(t[k]) by {
            assert(t[k] == s[k]);
        }
        if hi > 0 {
            assert(t[hi - 1] == s[hi - 1]);
        }
        lemma_ws_suffix_at(t, hi);
    }
}

/// `s` with surrounding whitespace removed.
pub open spec fn trim_bytes(s: Seq<u8>) -> Seq<u8> {
    let a = s.skip(ws_len(s));
    a.take(a.len() - ws_suffix_len(a))
}

/// Opening angle bracket `<`.
pub const LT: u8 = 60;

/// Closing angle bracket `>`.
pub const GT: u8 = 62;

/// `s` with one wrapping `<`…`>` pair removed, when both are present.
pub open spec fn strip_angles(s: Seq<u8>) -> Seq<u8> {
    if s.len() >= 2 && s[0] == LT && s[s.len() - 1] == GT {
        s.subrange(1, s.len() - 1)
    } else {
        s
    }
}

/// The address argument of `MAIL`/`RCPT`: the text after the fixed prefix,
/// trimmed of whitespace and of one wrapping angle-bracket pair.
pub open spec fn parse_arg(s: Seq<u8>) -> Seq<u8> {
    strip_angles(trim_bytes(s))
}

pub open spec fn verb_helo() -> Seq<u8> {
    seq![72u8, 69u8, 76u8, 79u8]
}

pub open spec fn verb_ehlo() -> Seq<u8> {
    seq![69u8, 72u8, 76u8, 79u8]
}

pub open spec fn verb_mail() -> Seq<u8> {
    seq![77u8, 65u8, 73u8, 76u8]
}

pub open spec fn verb_rcpt() -> Seq<u8> {
    seq![82u8, 67u8, 80u8, 84u8]
}

pub open spec fn verb_data() -> Seq<u8> {
    seq![68u8, 65u8, 84u8, 65u8]
}

pub open spec fn verb_quit() -> Seq<u8> {
    seq![81u8, 85u8, 73u8, 84u8]
}

/// Case-insensitive match of a scanned verb `v` against an upper-case
/// verb `w` of the known set.
pub open spec fn verb_is(v: Seq<u8>, w: Seq<u8>) -> bool {
    v.len() == w.len() && forall|i: int| 0 <= i < v.len() ==> upper(v[i]) == w[i]
}

/// The fixed prefix `FROM:` required after the `MAIL` verb.
pub open spec fn prefix_from() -> Seq<u8> {
    seq![70u8, 82u8, 79u8, 77u8, 58u8]
}

/// The fixed prefix `TO:` required after the `RCPT` verb.
pub open spec fn prefix_to() -> Seq<u8> {
    seq![84u8, 79u8, 58u8]
}

pub open spec fn has_prefix(s: Seq<u8>, p: Seq<u8>) -> bool {
    p.len() <= s.len() && forall|i: int| 0 <= i < p.len() ==> s[i] == p[i]
}

/// The remainder of a line after its verb token and the whitespace run
/// that follows the verb.
pub open spec fn after_verb(line: Seq<u8>) -> Seq<u8> {
    let r0 = line.skip(token_len(line));
    r0.skip(ws_len(r0))
}

/// A parsed protocol command.
#[derive(Debug, PartialEq, Eq)]
pub enum Command {
    /// `HELO` or `EHLO`; the domain argument carries no meaning here.
    Helo,
    /// `MAIL FROM:` with the envelope sender address.
    Mail(Vec<u8>),
    /// `RCPT TO:` with one envelope recipient address.
    Rcpt(Vec<u8>),
    /// `DATA`.
    Data,
    /// `QUIT`.
    Quit,
}

/// The mathematical value of a [`Command`].
#[verifier::ext_equal]
pub enum CommandModel {
    Helo,
    Mail(Seq<u8>),
    Rcpt(Seq<u8>),
    Data,
    Quit,
}

impl View for Command {
    type V = CommandModel;

    open spec fn view(&self) -> CommandModel {
        match self {
            Command::Helo => CommandModel::Helo,
            Command::Mail(a) => CommandModel::Mail(a@),
            Command::Rcpt(a) => CommandModel::Rcpt(a@),
            Command::Data => CommandModel::Data,
            Command::Quit => CommandModel::Quit,
        }
    }
}

/// Why a line failed to parse: the reply code differs for the two.
#[derive(Clone, Copy, PartialEq, Eq, Structural, Debug)]
pub enum ParseError {
    /// The verb is outside the known set: replied with code 500.
    UnknownCommand,
    /// A `MAIL`/`RCPT` remainder misses its required prefix: code 501.
    MalformedArgument,
}

/// What [`parse`] returns, as a function of the line's bytes.
pub open spec fn parse_spec(line: Seq<u8>) -> Result<CommandModel, ParseError> {
    let verb = line.take(token_len(line));
    let rest = after_verb(line);
    if verb_is(verb, verb_helo()) || verb_is(verb, verb_ehlo()) {
        Ok(CommandModel::Helo)
    } else if verb_is(verb, verb_mail()) {
        if has_prefix(rest, prefix_from()) {
            Ok(CommandModel::Mail(parse_arg(rest.skip(5))))
        } else {
            Err(ParseError::MalformedArgument)
        }
    } else if verb_is(verb, verb_rcpt()) {
        if has_prefix(rest, prefix_to()) {
            Ok(CommandModel::Rcpt(parse_arg(rest.skip(3))))
        } else {
            Err(ParseError::MalformedArgument)
        }
    } else if verb_is(verb, verb_data()) {
        Ok(CommandModel::Data)
    } else if verb_is(verb, verb_quit()) {
        Ok(CommandModel::Quit)
    } else {
        Err(ParseError::UnknownCommand)
    }
}

/// ASCII upper-casing of one byte.
fn up_byte(b: u8) -> (r: u8)
    ensures
        r == upper(b),
{
    if b >= 97 && b <= 122 {
        b - 32
    } else {
        b
    }
}

/// Case-insensitive comparison of a scanned verb with a four-byte
/// upper-case verb of the known set.
fn verb_matches(v: &Vec<u8>, w0: u8, w1: u8, w2: u8, w3: u8) -> (r: bool)
    ensures
        r == verb_is(v@, seq![w0, w1, w2, w3]),
{
    let ghost w = seq![w0, w1, w2, w3];
    if v.len() != 4 {
        return false;
    }
    let m = up_byte(v[0]) == w0 && up_byte(v[1]) == w1 && up_byte(v[2]) == w2 && up_byte(v[3])
        == w3;
    proof {
        if m {
            assert forall|i: int| 0 <= i < 4 implies upper(v@[i]) == w[i] by {
                if i == 0 {
                } else if i == 1 {
                } else if i == 2 {
                }
            }
        } else {
            if verb_is(v@, w) {
                assert(upper(v@[0]) == w[0]);
                assert(upper(v@[1]) == w[1]);
                assert(upper(v@[2]) == w[2]);
                assert(upper(v@[3]) == w[3]);
            }
        }
    }
    m
}

fn starts_with_from(s: &Vec<u8>) -> (r: bool)
    ensures
        r == has_prefix(s@, prefix_from()),
{
    let m = s.len() >= 5 && s[0] == 70 && s[1] == 82 && s[2] == 79 && s[3] == 77 && s[4] == 58;
    proof {
        let p = prefix_from();
        if m {
            assert forall|i: int| 0 <= i < p.len() implies s@[i] == p[i] by {
                if i == 0 {
                } else if i == 1 {
                } else if i == 2 {
                } else if i == 3 {
                }
            }
        } else {
            if has_prefix(s@, p) {
                assert(s@[0] == p[0]);
                assert(s@[1] == p[1]);
                assert(s@[2] == p[2]);
                assert(s@[3] == p[3]);
                assert(s@[4] == p[4]);
            }
        }
    }
    m
}

fn starts_with_to(s: &Vec<u8>) -> (r: bool)
    ensures
        r == has_prefix(s@, prefix_to()),
{
    let m = s.len() >= 3 && s[0] == 84 && s[1] == 79 && s[2] == 58;
    proof {
        let p = prefix_to();
        if m {
            assert forall|i: int| 0 <= i < p.len() implies s@[i] == p[i] by {
                if i == 0 {
                } else if i == 1 {
                }
            }
        } else {
            if has_prefix(s@, p) {
                assert(s@[0] == p[0]);
                assert(s@[1] == p[1]);
                assert(s@[2] == p[2]);
            }
        }
    }
    m
}

/// Extracts the address argument: trims surrounding whitespace and strips
/// one wrapping angle-bracket pair.
fn extract_arg(s: &Vec<u8>) -> (out: Vec<u8>)
    ensures
        out@ == parse_arg(s@),
{
    let n = s.len();
    let mut lo: usize = 0;
    while lo < n && (s[lo] == 32 || s[lo] == 9)
        invariant
            lo <= n,
            n == s@.len(),
            forall|k: int| 0 <= k < lo ==> is_ws(s@[k]),
        decreases n - lo,
    {
        lo += 1;
    }
    proof {
        lemma_ws_len_at(s@, lo as int);
    }
    if lo == n {
        proof {
            assert(s@.skip(lo as int) =~= Seq::<u8>::empty());
            assert(ws_suffix_len(Seq::<u8>::empty()) == 0);
            assert(trim_bytes(s@) =~= Seq::<u8>::empty());
        }
        let out: Vec<u8> = Vec::new();
        return out;
    }
    let mut hi: usize = n;
    while hi > lo && (s[hi - 1] == 32 || s[hi - 1] == 9)
        invariant
            lo <= hi <= n,
            n == s@.len(),
            forall|k: int| hi <= k < n ==> is_ws(s@[k]),
        decreases hi,
    {
        hi -= 1;
    }
    proof {
        assert(hi > lo) by {
            if hi == lo {
                assert(is_ws(s@[lo as int]));
            }
        }
        assert(!is_ws(s@[hi - 1]));
        let a = s@.skip(lo as int);
        assert forall|k: int| hi - lo <= k < a.len() implies is_ws(a[k]) by {
            assert(a[k] == s@[k + lo]);
        }
        assert(a[hi - lo - 1] == s@[hi - 1]);
        lemma_ws_suffix_at(a, hi - lo as int);
        assert(trim_bytes(s@) =~= s@.subrange(lo as int, hi as int));
    }
    let ghost t = trim_bytes(s@);
    if hi - lo >= 2 && s[lo] == LT && s[hi - 1] == GT {
        proof {
            assert(t[0] == s@[lo as int]);
            assert(t[t.len() - 1] == s@[hi - 1]);
            assert(strip_angles(t) =~= s@.subrange(lo as int + 1, hi - 1));
        }
        copy_range(s, lo + 1, hi - 1)
    } else {
        proof {
            if t.len() >= 2 {
                assert(t[0] == s@[lo as int]);
                assert(t[t.len() - 1] == s@[hi - 1]);
            }
            assert(strip_angles(t) == t);
        }
        copy_range(s, lo, hi)
    }
}

/// Parses one terminator-free line as a protocol command, exactly as
/// [`parse_spec`] describes.
pub fn parse(line: &Vec<u8>) -> (r: Result<Command, ParseError>)
    ensures
        r matches Ok(c) ==> parse_spec(line@) == Ok::<CommandModel, ParseError>(c@),
        r matches Err(e) ==> parse_spec(line@) == Err::<CommandModel, ParseError>(e),
{
    let n = line.len();
    let mut i: usize = 0;
    while i < n && !(line[i] == 32 || line[i] == 9)
        invariant
            i <= n,
            n == line@.len(),
            forall|k: int| 0 <= k < i ==> !is_ws(line@[k]),
        decreases n - i,
    {
        i += 1;
    }
    proof {
        lemma_token_len_at(line@, i as int);
    }
    let verb = copy_range(line, 0, i);
    proof {
        assert(verb@ =~= line@.take(token_len(line@)));
    }
    let mut j: usize = i;
    while j < n && (line[j] == 32 || line[j] == 9)
        invariant
            i <= j <= n,
            n == line@.len(),
            forall|k: int| i <= k < j ==> is_ws(line@[k]),
        decreases n - j,
    {
        j += 1;
    }
    proof {
        let r0 = line@.skip(i as int);
        assert forall|k: int| 0 <= k < j - i implies is_ws(r0[k]) by {
            assert(r0[k] == line@[k + i]);
        }
        if j < n {
            assert(r0[j - i as int] == line@[j as int]);
        }
        lemma_ws_len_at(r0, j - i as int);
        assert(r0.skip(j - i as int) =~= line@.subrange(j as int, n as int));
    }
    let rest = copy_range(line, j, n);
    proof {
        assert(rest@ == after_verb(line@));
    }
    if verb_matches(&verb, 72, 69, 76, 79) || verb_matches(&verb, 69, 72, 76, 79) {
        proof {
            assert(seq![72u8, 69u8, 76u8, 79u8] =~= verb_helo());
            assert(seq![69u8, 72u8, 76u8, 79u8] =~= verb_ehlo());
        }
        Ok(Command::Helo)
    } else if verb_matches(&verb, 77, 65, 73, 76) {
        proof {
            assert(seq![72u8, 69u8, 76u8, 79u8] =~= verb_helo());
            assert(seq![69u8, 72u8, 76u8, 79u8] =~= verb_ehlo());
            assert(seq![77u8, 65u8, 73u8, 76u8] =~= verb_mail());
        }
        if starts_with_from(&rest) {
            let tail = copy_range(&rest, 5, rest.len());
            proof {
                assert(tail@ =~= rest@.skip(5));
            }
            let arg = extract_arg(&tail);
            Ok(Command::Mail(arg))
        } else {
            Err(ParseError::MalformedArgument)
        }
    } else if verb_matches(&verb, 82, 67, 80, 84) {
        proof {
            assert(seq![72u8, 69u8, 76u8, 79u8] =~= verb_helo());
            assert(seq![69u8, 72u8, 76u8, 79u8] =~= verb_ehlo());
            assert(seq![77u8, 65u8, 73u8, 76u8] =~= verb_mail());
            assert(seq![82u8, 67u8, 80u8, 84u8] =~= verb_rcpt());
        }
        if starts_with_to(&rest) {
            let tail = copy_range(&rest, 3, rest.len());
            proof {
                assert(tail@ =~= rest@.skip(3));
            }
            let arg = extract_arg(&tail);
            Ok(Command::Rcpt(arg))
        } else {
            Err(ParseError::MalformedArgument)
        }
    } else if verb_matches(&verb, 68, 65, 84, 65) {
        proof {
            assert(seq![72u8, 69u8, 76u8, 79u8] =~= verb_helo());
            assert(seq![69u8, 72u8, 76u8, 79u8] =~= verb_ehlo());
            assert(seq![77u8, 65u8, 73u8, 76u8] =~= verb_mail());
            assert(seq![82u8, 67u8, 80u8, 84u8] =~= verb_rcpt());
            assert(seq![68u8, 65u8, 84u8, 65u8] =~= verb_data());
        }
        Ok(Command::Data)
    } else if verb_matches(&verb, 81, 85, 73, 84) {
        proof {
            assert(seq![72u8, 69u8, 76u8, 79u8] =~= verb_helo());
            assert(seq![69u8, 72u8, 76u8, 79u8] =~= verb_ehlo());
            assert(seq![77u8, 65u8, 73u8, 76u8] =~= verb_mail());
            assert(seq![82u8, 67u8, 80u8, 84u8] =~= verb_rcpt());
            assert(seq![68u8, 65u8, 84u8, 65u8] =~= verb_data());
            assert(seq![81u8, 85u8, 73u8, 84u8] =~= verb_quit());
        }
        Ok(Command::Quit)
    } else {
        proof {
            assert(seq![72u8, 69u8, 76u8, 79u8] =~= verb_helo());
            assert(seq![69u8, 72u8, 76u8, 79u8] =~= verb_ehlo());
            assert(seq![77u8, 65u8, 73u8, 76u8] =~= verb_mail());
            assert(seq![82u8, 67u8, 80u8, 84u8] =~= verb_rcpt());
            assert(seq![68u8, 65u8, 84u8, 65u8] =~= verb_data());
            assert(seq![81u8, 85u8, 73u8, 84u8] =~= verb_quit());
        }
        Err(ParseError::UnknownCommand)
    }
}

} // verus!

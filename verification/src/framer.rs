//! Line framing: turning a stream of byte chunks into complete protocol
//! lines, each terminated on the wire by the two-byte sequence CR LF.
//!
//! The framer keeps the unterminated tail of the stream in a buffer, so a
//! line split across any number of chunks is reassembled exactly as if it
//! had arrived whole.  A configurable bound on the buffered line length
//! keeps memory use finite: when the tail grows past the bound without a
//! terminator appearing, the tail is discarded and the caller is told.

use vstd::prelude::*;

use crate::bytes::copy_range;
use crate::bytes::push_all;

verus! {

/// Carriage return, the first byte of the line terminator.
pub const CR: u8 = 13;

/// Line feed, the second byte of the line terminator.
pub const LF: u8 = 10;

/// True when the two-byte line terminator CR LF sits at index `i` of `s`.
pub open spec fn is_crlf_at(s: Seq<u8>, i: int) -> bool {
    0 <= i && i + 2 <= s.len() && s[i] == CR && s[i + 1] == LF
}

/// True when `s` contains no complete CR LF terminator anywhere.
pub open spec fn no_crlf(s: Seq<u8>) -> bool {
    forall|i: int| !is_crlf_at(s, i)
}

/// Splits off the first terminated line of `s`: `Some((line, rest))` when a
/// CR LF occurs in `s`, where `line` holds the bytes before the first CR LF
/// and `rest` the bytes after it; `None` when no terminator occurs.
pub open spec fn split_first_line(s: Seq<u8>) -> Option<(Seq<u8>, Seq<u8>)>
    decreases s.len(),
{
    if s.len() < 2 {
        None
    } else if s[0] == CR && s[1] == LF {
        Some((Seq::empty(), s.skip(2)))
    } else {
        match split_first_line(s.skip(1)) {
            None => None,
            Some((l, r)) => Some((seq![s[0]] + l, r)),
        }
    }
}

/// Splitting off a line consumes that line and its two-byte terminator.
pub proof fn lemma_split_shrinks(s: Seq<u8>)
    ensures
        split_first_line(s) matches Some(p) ==> p.1.len() + 2 <= s.len(),
    decreases s.len(),
{
    if s.len() >= 2 && !(s[0] == CR && s[1] == LF) {
        lemma_split_shrinks(s.skip(1));
    }
}

/// All complete lines of `s`, in arrival order, terminators stripped.
pub open spec fn frame_lines(s: Seq<u8>) -> Seq<Seq<u8>>
    decreases s.len(),
    via frame_lines_decreases
{
    match split_first_line(s) {
        None => Seq::empty(),
        Some((l, r)) => seq![l] + frame_lines(r),
    }
}

#[via_fn]
proof fn frame_lines_decreases(s: Seq<u8>) {
    lemma_split_shrinks(s);
}

/// The bytes of `s` after its last terminator: the unterminated tail that
/// must wait for more input.
pub open spec fn frame_rest(s: Seq<u8>) -> Seq<u8>
    decreases s.len(),
    via frame_rest_decreases
{
    match split_first_line(s) {
        None => s,
        Some((l, r)) => frame_rest(r),
    }
}

#[via_fn]
proof fn frame_rest_decreases(s: Seq<u8>) {
    lemma_split_shrinks(s);
}

/// A stream that no line splits off holds no terminator at all.
pub proof fn lemma_split_none_no_crlf(s: Seq<u8>)
    requires
        split_first_line(s) is None,
    ensures
        no_crlf(s),
    decreases s.len(),
{
    if s.len() < 2 {
        assert forall|i: int| !is_crlf_at(s, i) by {}
    } else {
        assert(!(s[0] == CR && s[1] == LF));
        assert(split_first_line(s.skip(1)) is None);
        lemma_split_none_no_crlf(s.skip(1));
        assert forall|i: int| !is_crlf_at(s, i) by {
            if i >= 1 && i + 2 <= s.len() {
                assert(s.skip(1)[i - 1] == s[i]);
                assert(s.skip(1)[i] == s[i + 1]);
                assert(!is_crlf_at(s.skip(1), i - 1));
            }
        }
    }
}

/// When a first line splits off, the input is exactly that line, one
/// terminator, and the rest, and the line itself holds no terminator.
pub proof fn lemma_split_decomposition(s: Seq<u8>)
    ensures
        split_first_line(s) matches Some(p) ==> {
            &&& s == p.0 + seq![CR, LF] + p.1
            &&& no_crlf(p.0)
            &&& p.0.len() + 2 + p.1.len() == s.len()
        },
    decreases s.len(),
{
    if s.len() < 2 {
    } else if s[0] == CR && s[1] == LF {
        let p = split_first_line(s)->Some_0;
        assert(s =~= p.0 + seq![CR, LF] + p.1);
        assert forall|i: int| !is_crlf_at(p.0, i) by {}
    } else {
        lemma_split_decomposition(s.skip(1));
        if split_first_line(s.skip(1)) is Some {
            let (l, r) = split_first_line(s.skip(1))->Some_0;
            let p = split_first_line(s)->Some_0;
            assert(p.0 == seq![s[0]] + l);
            assert(p.1 == r);
            assert(s.skip(1) == l + seq![CR, LF] + r);
            assert(s =~= seq![s[0]] + s.skip(1));
            assert(s =~= p.0 + seq![CR, LF] + p.1);
            assert forall|i: int| !is_crlf_at(p.0, i) by {
                if 0 <= i && i + 2 <= p.0.len() {
                    if i == 0 {
                        assert(p.0[0] == s[0]);
                        assert(p.0[1] == l[0]);
                        assert(l[0] == s.skip(1)[0]);
                    } else {
                        assert(p.0[i] == l[i - 1]);
                        assert(p.0[i + 1] == l[i]);
                        assert(!is_crlf_at(l, i - 1));
                    }
                }
            }
        }
    }
}


/// The first terminator of `s` at index `i` (none earlier) fixes the split:
/// the first line is `s.take(i)` and the rest begins at `i + 2`.
pub proof fn lemma_split_first_at(s: Seq<u8>, i: int)
    requires
        is_crlf_at(s, i),
        forall|k: int| 0 <= k < i ==> !is_crlf_at(s, k),
    ensures
        split_first_line(s) == Some((s.take(i), s.skip(i + 2))),
    decreases i,
{
    if i == 0 {
        assert(s.take(0) =~= Seq::<u8>::empty());
        assert(split_first_line(s) == Some((s.take(0), s.skip(2))));
    } else {
        assert(!is_crlf_at(s, 0));
        assert(is_crlf_at(s.skip(1), i - 1)) by {
            assert(s.skip(1)[i - 1] == s[i]);
            assert(s.skip(1)[i] == s[i + 1]);
        }
        assert forall|k: int| 0 <= k < i - 1 implies !is_crlf_at(s.skip(1), k) by {
            assert(!is_crlf_at(s, k + 1));
            assert(s.skip(1)[k] == s[k + 1]);
            assert(s.skip(1)[k + 1] == s[k + 2]);
        }
        lemma_split_first_at(s.skip(1), i - 1);
        assert(seq![s[0]] + s.skip(1).take(i - 1) =~= s.take(i));
        assert(s.skip(1).skip(i + 1) =~= s.skip(i + 2));
        assert(!(s[0] == CR && s[1] == LF)) by {
            assert(!is_crlf_at(s, 0));
        }
    }
}

/// Appending more bytes on the right cannot change the first line of a
/// stream that already holds a terminator.
pub proof fn lemma_split_append(s: Seq<u8>, t: Seq<u8>)
    ensures
        split_first_line(s) matches Some(p) ==> split_first_line(s + t) == Some(
            (p.0, p.1 + t),
        ),
    decreases s.len(),
{
    if s.len() < 2 {
    } else if s[0] == CR && s[1] == LF {
        assert((s + t)[0] == CR && (s + t)[1] == LF);
        assert((s + t).skip(2) =~= s.skip(2) + t);
    } else {
        lemma_split_append(s.skip(1), t);
        if split_first_line(s.skip(1)) is Some {
            let (l, r) = split_first_line(s.skip(1))->Some_0;
            assert((s + t).skip(1) =~= s.skip(1) + t);
            assert((s + t)[0] == s[0] && (s + t)[1] == s[1]);
            assert(split_first_line((s + t).skip(1)) == Some((l, r + t)));
            assert(seq![(s + t)[0]] + l == seq![s[0]] + l);
        }
    }
}

/// Chunk-boundary independence of framing: splitting the stream after `s`
/// changes neither the lines nor the final unterminated tail, provided the
/// tail kept after `s` is carried over in front of `t`.
pub proof fn lemma_frame_append(s: Seq<u8>, t: Seq<u8>)
    ensures
        frame_lines(s + t) == frame_lines(s) + frame_lines(frame_rest(s) + t),
        frame_rest(s + t) == frame_rest(frame_rest(s) + t),
    decreases s.len(),
{
    lemma_split_append(s, t);
    match split_first_line(s) {
        None => {
            assert(frame_rest(s) == s);
            assert(frame_lines(s) + frame_lines(s + t) =~= frame_lines(s + t));
        },
        Some((l, r)) => {
            lemma_split_shrinks(s);
            assert(split_first_line(s + t) == Some((l, r + t)));
            assert(frame_lines(s + t) == seq![l] + frame_lines(r + t));
            lemma_frame_append(r, t);
            assert(frame_rest(s) == frame_rest(r));
            let mid = frame_lines(r);
            let tail = frame_lines(frame_rest(r) + t);
            assert(seq![l] + (mid + tail) =~= (seq![l] + mid) + tail);
        },
    }
}

/// The tail kept by the framer never holds a terminator.
pub proof fn lemma_rest_no_crlf(s: Seq<u8>)
    ensures
        split_first_line(frame_rest(s)) is None,
        no_crlf(frame_rest(s)),
    decreases s.len(),
{
    match split_first_line(s) {
        None => {
            lemma_split_none_no_crlf(s);
        },
        Some((l, r)) => {
            lemma_split_shrinks(s);
            lemma_rest_no_crlf(r);
        },
    }
}

/// The framed lines and the tail, joined back with one terminator after
/// each line.
pub open spec fn rejoin(lines: Seq<Seq<u8>>, rest: Seq<u8>) -> Seq<u8>
    decreases lines.len(),
{
    if lines.len() == 0 {
        rest
    } else {
        lines[0] + seq![CR, LF] + rejoin(lines.skip(1), rest)
    }
}

/// Framing drops no byte and emits no line twice: joining the emitted
/// lines and the kept tail back together reconstructs the input exactly.
pub proof fn lemma_no_bytes_lost(s: Seq<u8>)
    ensures
        rejoin(frame_lines(s), frame_rest(s)) == s,
    decreases s.len(),
{
    lemma_split_shrinks(s);
    lemma_split_decomposition(s);
    match split_first_line(s) {
        None => {},
        Some((l, r)) => {
            lemma_no_bytes_lost(r);
            assert(frame_lines(s)[0] == l);
            assert(frame_lines(s).skip(1) =~= frame_lines(r));
            assert(frame_rest(s) == frame_rest(r));
            assert(rejoin(frame_lines(s), frame_rest(s)) == l + seq![CR, LF] + rejoin(
                frame_lines(r),
                frame_rest(r),
            ));
        },
    }
}

/// How many buffered bytes already commit to the next line's content: all
/// of them, except a trailing CR that may yet pair with a following LF.
pub open spec fn pending_len(s: Seq<u8>) -> int {
    if s.len() > 0 && s[s.len() - 1] == CR {
        s.len() - 1
    } else {
        s.len() as int
    }
}

/// Committed length only grows as a terminator-free tail grows.
pub proof fn lemma_pending_prefix(p: Seq<u8>, q: Seq<u8>)
    requires
        p.len() <= q.len(),
        p == q.take(p.len() as int),
    ensures
        pending_len(p) <= pending_len(q),
{
    if p.len() > 0 {
        assert(p[p.len() - 1] == q[p.len() - 1]);
    }
}

/// A terminator-free tail carried in front of later input is bounded by
/// the line it starts, or by the final tail when no line ever completes.
pub proof fn lemma_rest_bounded(s: Seq<u8>, t: Seq<u8>)
    requires
        no_crlf(s),
    ensures
        frame_lines(s + t).len() > 0 ==> pending_len(s) <= frame_lines(s + t)[0].len(),
        frame_lines(s + t).len() == 0 ==> pending_len(s) <= pending_len(frame_rest(s + t)),
{
    let u = s + t;
    match split_first_line(u) {
        None => {
            assert(frame_rest(u) == u);
            assert(s == u.take(s.len() as int)) by {
                assert(s =~= u.take(s.len() as int));
            }
            lemma_pending_prefix(s, u);
        },
        Some((l, r)) => {
            lemma_split_decomposition(u);
            assert(frame_lines(u)[0] == l);
            if s.len() <= l.len() {
                assert(pending_len(s) <= s.len());
            } else if s.len() == l.len() + 1 {
                assert(s[s.len() - 1] == u[l.len() as int]);
                assert(u[l.len() as int] == (l + seq![CR, LF] + r)[l.len() as int]);
                assert(u[l.len() as int] == CR);
            } else {
                assert(is_crlf_at(s, l.len() as int)) by {
                    assert(s[l.len() as int] == u[l.len() as int]);
                    assert(s[l.len() as int + 1] == u[l.len() as int + 1]);
                    assert(u[l.len() as int] == CR && u[l.len() as int + 1] == LF);
                }
                assert(false);
            }
        },
    }
}

/// Backslash, first byte of the textual escape `\r\n`.
pub const BSL: u8 = 92;

/// The letter `r` of the textual escape.
pub const LOW_R: u8 = 114;

/// The letter `n` of the textual escape.
pub const LOW_N: u8 = 110;

/// The opt-in compatibility transform: every occurrence of the four-byte
/// text `\r\n` (backslash, r, backslash, n) becomes a real CR LF
/// terminator; all other bytes pass through unchanged.
pub open spec fn unescape(s: Seq<u8>) -> Seq<u8>
    decreases s.len(),
{
    if s.len() == 0 {
        Seq::empty()
    } else if s.len() >= 4 && s[0] == BSL && s[1] == LOW_R && s[2] == BSL && s[3] == LOW_N {
        seq![CR, LF] + unescape(s.skip(4))
    } else {
        seq![s[0]] + unescape(s.skip(1))
    }
}

/// Applies [`unescape`] to a byte vector.
pub fn unescape_bytes(s: &Vec<u8>) -> (out: Vec<u8>)
    ensures
        out@ == unescape(s@),
{
    let mut out: Vec<u8> = Vec::new();
    let mut i: usize = 0;
    proof {
        assert(s@.skip(0) =~= s@);
        assert(out@ + unescape(s@) =~= unescape(s@));
    }
    while i < s.len()
        invariant
            i <= s@.len(),
            unescape(s@) == out@ + unescape(s@.skip(i as int)),
        decreases s@.len() - i,
    {
        let ghost pre = out@;
        let ghost sufi = s@.skip(i as int);
        if s.len() - i >= 4 && s[i] == BSL && s[i + 1] == LOW_R && s[i + 2] == BSL && s[i + 3]
            == LOW_N {
            out.push(CR);
            out.push(LF);
            proof {
                assert(sufi[0] == s@[i as int]);
                assert(sufi[1] == s@[i as int + 1]);
                assert(sufi[2] == s@[i as int + 2]);
                assert(sufi[3] == s@[i as int + 3]);
                assert(unescape(sufi) == seq![CR, LF] + unescape(sufi.skip(4)));
                assert(sufi.skip(4) =~= s@.skip(i as int + 4));
                assert(pre + seq![CR, LF] =~= out@);
                assert(pre + (seq![CR, LF] + unescape(sufi.skip(4))) =~= (pre + seq![CR, LF])
                    + unescape(sufi.skip(4)));
            }
            i += 4;
        } else {
            out.push(s[i]);
            proof {
                assert(sufi[0] == s@[i as int]);
                if sufi.len() >= 4 {
                    assert(sufi[1] == s@[i as int + 1]);
                    assert(sufi[2] == s@[i as int + 2]);
                    assert(sufi[3] == s@[i as int + 3]);
                }
                assert(unescape(sufi) == seq![sufi[0]] + unescape(sufi.skip(1)));
                assert(sufi.skip(1) =~= s@.skip(i as int + 1));
                assert(pre + seq![sufi[0]] =~= out@);
                assert(pre + (seq![sufi[0]] + unescape(sufi.skip(1))) =~= (pre + seq![sufi[0]])
                    + unescape(sufi.skip(1)));
            }
            i += 1;
        }
    }
    proof {
        assert(s@.skip(s@.len() as int) =~= Seq::<u8>::empty());
        assert(out@ + Seq::<u8>::empty() =~= out@);
    }
    out
}

/// Finds the index of the first line terminator in `v`, if any.
pub fn find_crlf(v: &Vec<u8>) -> (r: Option<usize>)
    ensures
        match r {
            Some(j) => is_crlf_at(v@, j as int) && forall|k: int| 0 <= k < j ==> !is_crlf_at(v@, k),
            None => no_crlf(v@),
        },
{
    let n = v.len();
    if n < 2 {
        return None;
    }
    let mut j: usize = 0;
    while j + 1 < n
        invariant
            n == v@.len(),
            j + 1 <= n,
            forall|k: int| 0 <= k < j ==> !is_crlf_at(v@, k),
        decreases n - j,
    {
        if v[j] == CR && v[j + 1] == LF {
            return Some(j);
        }
        j += 1;
    }
    None
}

/// What one call to [`LineFramer::feed`] hands back: the complete lines
/// that the newly arrived bytes finished, and whether the unterminated
/// tail overflowed the configured bound (in which case it was discarded).
pub struct FeedResult {
    pub lines: Vec<Vec<u8>>,
    pub oversized: bool,
}

/// The views of a sequence of byte vectors.
pub open spec fn lines_view(v: Vec<Vec<u8>>) -> Seq<Seq<u8>> {
    v@.map_values(|l: Vec<u8>| l@)
}

/// Reassembles newline-delimited protocol lines out of arbitrarily split
/// byte chunks, holding the trailing unterminated fragment between calls.
pub struct LineFramer {
    /// The unterminated tail of the stream seen so far.
    pub buf: Vec<u8>,
    /// Bound on the buffered line length; a longer terminator-free tail is
    /// discarded.
    pub max_line: usize,
    /// Opt-in: treat the textual escape `\r\n` as a real terminator.
    pub normalize: bool,
}

impl LineFramer {
    /// The stream the framer works on after `chunk` arrives: the kept tail
    /// followed by the chunk, with the opt-in escape transform applied.
    pub open spec fn combined(self, chunk: Seq<u8>) -> Seq<u8> {
        if self.normalize {
            unescape(self.buf@ + chunk)
        } else {
            self.buf@ + chunk
        }
    }

    pub fn new(max_line: usize, normalize: bool) -> (f: LineFramer)
        ensures
            f.buf@ == Seq::<u8>::empty(),
            f.max_line == max_line,
            f.normalize == normalize,
    {
        LineFramer { buf: Vec::new(), max_line, normalize }
    }

    /// Feeds one chunk of the stream: every line the combined bytes
    /// complete comes back in order with its terminator stripped, and the
    /// remainder after the last terminator is kept for the next call —
    /// unless its committed length exceeds `max_line`, in which case it is
    /// discarded and `oversized` reports the overflow.
    pub fn feed(&mut self, chunk: &[u8]) -> (r: FeedResult)
        ensures
            ({
                let c = old(self).combined(chunk@);
                &&& lines_view(r.lines) == frame_lines(c)
                &&& r.oversized == (pending_len(frame_rest(c)) > old(self).max_line)
                &&& final(self).buf@ == if r.oversized {
                    Seq::<u8>::empty()
                } else {
                    frame_rest(c)
                }
                &&& final(self).max_line == old(self).max_line
                &&& final(self).normalize == old(self).normalize
            }),
    {
        push_all(&mut self.buf, chunk);
        if self.normalize {
            let u = unescape_bytes(&self.buf);
            self.buf = u;
        }
        let ghost c: Seq<u8> = self.buf@;
        assert(c == old(self).combined(chunk@));
        let mut lines: Vec<Vec<u8>> = Vec::new();
        loop
            invariant
                frame_lines(c) == lines_view(lines) + frame_lines(self.buf@),
                frame_rest(c) == frame_rest(self.buf@),
                self.max_line == old(self).max_line,
                self.normalize == old(self).normalize,
            ensures
                frame_lines(c) == lines_view(lines) + frame_lines(self.buf@),
                frame_rest(c) == frame_rest(self.buf@),
                self.max_line == old(self).max_line,
                self.normalize == old(self).normalize,
                split_first_line(self.buf@) is None,
            decreases self.buf@.len(),
        {
            let ghost prev = self.buf@;
            match find_crlf(&self.buf) {
                None => {
                    proof {
                        assert(split_first_line(prev) is None) by {
                            if split_first_line(prev) is Some {
                                lemma_split_decomposition(prev);
                                let p = split_first_line(prev)->Some_0;
                                assert(is_crlf_at(prev, p.0.len() as int)) by {
                                    assert(prev[p.0.len() as int] == CR);
                                    assert(prev[p.0.len() as int + 1] == LF);
                                }
                            }
                        }
                    }
                    break ;
                },
                Some(j) => {
                    proof {
                        lemma_split_first_at(prev, j as int);
                    }
                    let n = self.buf.len();
                    assert(j + 2 <= n);
                    let line = copy_range(&self.buf, 0, j);
                    let rest = copy_range(&self.buf, j + 2, n);
                    self.buf = rest;
                    proof {
                        assert(line@ =~= prev.take(j as int));
                        assert(self.buf@ =~= prev.skip(j as int + 2));
                        assert(frame_lines(prev) == seq![line@] + frame_lines(self.buf@));
                        assert(frame_rest(prev) == frame_rest(self.buf@));
                    }
                    let ghost lv = lines_view(lines);
                    lines.push(line);
                    proof {
                        assert(lines_view(lines) =~= lv.push(line@));
                        assert(lv.push(line@) + frame_lines(self.buf@) =~= lv + (seq![line@]
                            + frame_lines(self.buf@)));
                    }
                },
            }
        }
        proof {
            assert(lines_view(lines) + Seq::<Seq<u8>>::empty() =~= lines_view(lines));
        }
        let blen = self.buf.len();
        let pend = if blen > 0 && self.buf[blen - 1] == CR {
            blen - 1
        } else {
            blen
        };
        assert(pend as int == pending_len(self.buf@));
        let oversized = pend > self.max_line;
        if oversized {
            self.buf = Vec::new();
        }
        FeedResult { lines, oversized }
    }
}

} // verus!

//! Lines within a run of bytes.
//!
//! A line ends with a line feed. What a provider delivers may hold several
//! lines, and the last of them may lack its line feed.

use vstd::prelude::*;
use crate::text::push_bytes;

verus! {

/// The line feed that ends a line.
pub open spec fn line_feed() -> u8 {
    '\n' as u8
}

/// The carriage return that may precede a line feed.
pub open spec fn carriage_return() -> u8 {
    '\r' as u8
}

/// The position of the first byte `b` in `s`, or the length of `s` if it holds none.
pub open spec fn first_byte(s: Seq<u8>, b: u8) -> int
    decreases s.len(),
{
    if s.len() == 0 || s[0] == b {
        0
    } else {
        1 + first_byte(s.skip(1), b)
    }
}

/// The position of the first line feed in `s`, or the length of `s` if it holds none.
pub open spec fn first_newline(s: Seq<u8>) -> int {
    first_byte(s, line_feed())
}

/// The first `b` lies within the bytes or just behind them, and no `b`
/// comes before it.
pub proof fn lemma_first_byte(s: Seq<u8>, b: u8)
    ensures
        0 <= first_byte(s, b) <= s.len(),
        forall|j: int| 0 <= j < first_byte(s, b) ==> s[j] != b,
        first_byte(s, b) < s.len() ==> s[first_byte(s, b)] == b,
    decreases s.len(),
{
    if s.len() == 0 || s[0] == b {
    } else {
        let t = s.skip(1);
        lemma_first_byte(t, b);
        assert forall|j: int| 0 <= j < first_byte(s, b) implies s[j] != b by {
            if j > 0 {
                assert(t[j - 1] == s[j]);
            }
        }
        if first_byte(s, b) < s.len() {
            assert(t[first_byte(t, b)] == s[first_byte(s, b)]);
        }
    }
}

/// A position with a `b` (or the end) that no `b` precedes is the first
/// one.
pub proof fn lemma_first_byte_is(s: Seq<u8>, b: u8, k: int)
    requires
        0 <= k <= s.len(),
        forall|j: int| 0 <= j < k ==> s[j] != b,
        k < s.len() ==> s[k] == b,
    ensures
        first_byte(s, b) == k,
    decreases s.len(),
{
    if s.len() == 0 || s[0] == b {
    } else {
        let t = s.skip(1);
        assert forall|j: int| 0 <= j < k - 1 implies t[j] != b by {
            assert(t[j] == s[j + 1]);
        }
        if k < s.len() {
            assert(t[k - 1] == s[k]);
        }
        lemma_first_byte_is(t, b, k - 1);
    }
}

/// `s` without the carriage return at its end, if it has one.
pub open spec fn strip_cr(s: Seq<u8>) -> Seq<u8> {
    if s.len() > 0 && s.last() == carriage_return() {
        s.drop_last()
    } else {
        s
    }
}

/// The lines of `s`, without their line endings.
///
/// A line ends at a line feed; a carriage return just before the line feed
/// belongs to the line ending. The last line need not be ended, and then
/// keeps a carriage return at its end. No line follows the last line feed.
pub open spec fn lines_of(s: Seq<u8>) -> Seq<Seq<u8>>
    decreases s.len(),
{
    let k = first_newline(s);
    if s.len() == 0 {
        Seq::empty()
    } else if 0 <= k < s.len() {
        seq![strip_cr(s.subrange(0, k))] + lines_of(s.subrange(k + 1, s.len() as int))
    } else {
        seq![s]
    }
}

/// What each of the vectors holds.
pub open spec fn views(v: Seq<Vec<u8>>) -> Seq<Seq<u8>> {
    v.map_values(|x: Vec<u8>| x@)
}

/// The position of the first byte `b` at or after `from`.
pub fn find_byte(bytes: &[u8], from: usize, b: u8) -> (k: usize)
    requires
        from <= bytes@.len(),
    ensures
        from <= k <= bytes@.len(),
        k - from == first_byte(bytes@.subrange(from as int, bytes@.len() as int), b),
{
    let mut k: usize = from;
    while k < bytes.len() && bytes[k] != b
        invariant
            from <= k <= bytes@.len(),
            forall|j: int| from <= j < k ==> bytes@[j] != b,
        decreases bytes@.len() - k,
    {
        k = k + 1;
    }
    proof {
        let t = bytes@.subrange(from as int, bytes@.len() as int);
        assert forall|j: int| 0 <= j < k - from implies t[j] != b by {
            assert(t[j] == bytes@[from + j]);
        }
        lemma_first_byte_is(t, b, k - from);
    }
    k
}

/// The position of the first line feed at or after `from`.
pub fn find_newline(bytes: &[u8], from: usize) -> (k: usize)
    requires
        from <= bytes@.len(),
    ensures
        from <= k <= bytes@.len(),
        k - from == first_newline(bytes@.subrange(from as int, bytes@.len() as int)),
{
    find_byte(bytes, from, '\n' as u8)
}

/// Splits what a provider delivered into its lines.
pub fn split_lines(message: &[u8]) -> (lines: Vec<Vec<u8>>)
    ensures
        views(lines@) == lines_of(message@),
{
    let n = message.len();
    let mut lines: Vec<Vec<u8>> = Vec::new();
    let mut pos: usize = 0;
    assert(message@.subrange(0, n as int) =~= message@);
    assert(views(lines@) =~= Seq::<Seq<u8>>::empty());
    while pos < n
        invariant
            n == message@.len(),
            pos <= n,
            views(lines@) + lines_of(message@.subrange(pos as int, n as int)) == lines_of(message@),
        decreases n - pos,
    {
        let ghost rest = message@.subrange(pos as int, n as int);
        let ghost before = views(lines@);
        let k = find_newline(message, pos);
        let mut end: usize = k;
        if k < n && end > pos && message[end - 1] == '\r' as u8 {
            end = end - 1;
        }
        let mut line: Vec<u8> = Vec::new();
        push_bytes(&mut line, vstd::slice::slice_subrange(message, pos, end));
        proof {
            lemma_first_byte(rest, line_feed());
            assert(message@.subrange(pos as int, end as int) =~= if k < n {
                strip_cr(rest.subrange(0, k - pos))
            } else {
                rest
            }) by {
                if k < n {
                    let head = rest.subrange(0, k - pos);
                    if head.len() > 0 {
                        assert(head.last() == message@[k - 1]);
                    }
                }
            }
            assert(line@ =~= message@.subrange(pos as int, end as int));
        }
        lines.push(line);
        proof {
            assert(views(lines@) =~= before.push(line@));
            if k < n {
                assert(rest.subrange(k - pos + 1, rest.len() as int) =~= message@.subrange(
                    k + 1,
                    n as int,
                ));
                assert(before.push(line@) + lines_of(message@.subrange(k + 1, n as int)) =~= before
                    + lines_of(rest));
            } else {
                assert(lines_of(message@.subrange(n as int, n as int)) =~= Seq::<Seq<u8>>::empty());
                assert(before.push(line@) + Seq::<Seq<u8>>::empty() =~= before + lines_of(rest));
            }
        }
        pos = if k < n { k + 1 } else { n };
    }
    proof {
        assert(lines_of(message@.subrange(n as int, n as int)) =~= Seq::<Seq<u8>>::empty());
        assert(views(lines@) + Seq::<Seq<u8>>::empty() =~= views(lines@));
    }
    lines
}

} // verus!

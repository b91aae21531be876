//! Sources of byte ranges to try removing: lines, and the contents of
//! balanced brackets.

use crate::lines::{lemma_line_start_bound, line_ranges, line_start_before, newline_terminated_lines, NEWLINE};
use crate::range_order::{all_nonempty, nonempty};
use crate::range_order::RemovalOrder;
use crate::ranges::RemoveRanges;
use std::marker::PhantomData;
use std::ops::Range;
use vstd::prelude::*;

verus! {

/// A `RemoveRanges` implementation that removes chunks of lines from the seed
/// file: its ranges are the seed's newline-terminated lines.
#[derive(Clone, Copy, Debug, PartialEq, Eq)]
pub struct Chunks;

impl RemoveRanges for Chunks {
    type Order = RemovalOrder;

    fn remove_ranges(seed: &[u8]) -> (ranges: Vec<Range<u64>>)
        ensures
            ranges@ == line_ranges(seed@, seed.len() as int),
    {
        let ranges = newline_terminated_lines(seed);
        proof {
            assert forall|j: int| 0 <= j < ranges.len() implies nonempty(#[trigger] ranges@[j]) by {
                assert(ranges@[j].start < ranges@[j].end);
            }
        }
        ranges
    }
}

/// The open and close bytes of a kind of balanced brackets, for reducer
/// scripts that remove the contents within them.
pub trait RemoveBalanced {
    /// The open and closing bytes.
    ///
    /// Verified implementations define it. Implementations written in plain
    /// Rust cannot, and keep this default; verified code only ever sees the
    /// bytes through a type parameter, for which the default body is not
    /// unfolded.
    closed spec fn brackets() -> (u8, u8) {
        arbitrary()
    }

    /// Return the open and closing bytes.
    fn remove_balanced() -> (b: (u8, u8))
        ensures
            b == Self::brackets(),
    ;
}

/// The scan over the first `p` bytes of `b` that matches `close` bytes with
/// the latest unmatched `open` byte: the offsets of the still unmatched open
/// bytes, and the ranges found so far. Each match of an open byte at `s` with
/// a close byte at `e` yields the range `s..e + 1` spanning both brackets,
/// then the range `s + 1..e` of their contents when it is not empty. A close
/// byte with no unmatched open byte is ignored.
pub open spec fn balanced_scan(b: Seq<u8>, open: u8, close: u8, p: int) -> (Seq<u64>, Seq<
    Range<u64>,
>)
    decreases p,
{
    if p <= 0 {
        (Seq::empty(), Seq::empty())
    } else {
        let (stack, ranges) = balanced_scan(b, open, close, p - 1);
        let off = (p - 1) as u64;
        if b[p - 1] == open {
            (stack.push(off), ranges)
        } else if b[p - 1] == close && stack.len() > 0 {
            let start = stack.last();
            let with_outer = ranges.push(Range { start, end: (off + 1) as u64 });
            (
                stack.drop_last(),
                if start + 1 < off {
                    with_outer.push(Range { start: (start + 1) as u64, end: off })
                } else {
                    with_outer
                },
            )
        } else {
            (stack, ranges)
        }
    }
}

/// The ranges of the balanced brackets `open`/`close` in `seed`, and of
/// their non-empty contents.
pub fn balanced_ranges(seed: &[u8], open: u8, close: u8) -> (ranges: Vec<Range<u64>>)
    ensures
        ranges@ == balanced_scan(seed@, open, close, seed.len() as int).1,
        all_nonempty(ranges@),
{
    let mut ranges: Vec<Range<u64>> = Vec::new();
    let mut stack: Vec<u64> = Vec::new();
    let mut i: usize = 0;
    while i < seed.len()
        invariant
            i <= seed.len(),
            (stack@, ranges@) == balanced_scan(seed@, open, close, i as int),
            forall|j: int| 0 <= j < stack.len() ==> (#[trigger] stack@[j]) < i,
            all_nonempty(ranges@),
        decreases seed.len() - i,
    {
        let b = seed[i];
        let offset = i as u64;
        if b == open {
            stack.push(offset);
        } else if b == close && stack.len() > 0 {
            let ghost old_stack = stack@;
            let start = stack.pop().unwrap();
            proof {
                assert(start == old_stack.last());
                assert(stack@ == old_stack.drop_last());
                assert(start < offset);
            }
            ranges.push(Range { start, end: offset + 1 });
            if start + 1 < offset {
                ranges.push(Range { start: start + 1, end: offset });
            }
        }
        i = i + 1;
    }
    ranges
}

/// The number of `open` bytes minus the number of `close` bytes among
/// `b[lo..hi]`.
pub open spec fn bracket_depth(b: Seq<u8>, open: u8, close: u8, lo: int, hi: int) -> int
    decreases hi - lo,
{
    if hi <= lo {
        0
    } else {
        bracket_depth(b, open, close, lo, hi - 1) + if b[hi - 1] == open {
            1int
        } else if b[hi - 1] == close {
            -1int
        } else {
            0int
        }
    }
}

/// The brackets among `b[lo..hi]` are balanced: every `open` byte is matched
/// by a later `close` byte, and no `close` byte comes before its `open`.
pub open spec fn balanced_between(b: Seq<u8>, open: u8, close: u8, lo: int, hi: int) -> bool {
    &&& bracket_depth(b, open, close, lo, hi) == 0
    &&& forall|k: int| lo <= k <= hi ==> #[trigger] bracket_depth(b, open, close, lo, k) >= 0
}

/// While no prefix of `b[lo..k]` closes more brackets than it opens, the
/// scan keeps the unmatched open brackets it had at `lo` below the ones
/// opened since, of which there are `bracket_depth(.., lo, k)`.
proof fn lemma_scan_keeps_outer(b: Seq<u8>, open: u8, close: u8, lo: int, k: int)
    requires
        open != close,
        0 <= lo <= k <= b.len(),
        forall|j: int| lo <= j <= k ==> #[trigger] bracket_depth(b, open, close, lo, j) >= 0,
    ensures
        ({
            let outer = balanced_scan(b, open, close, lo).0;
            let now = balanced_scan(b, open, close, k).0;
            &&& now.len() == outer.len() + bracket_depth(b, open, close, lo, k)
            &&& now.subrange(0, outer.len() as int) == outer
        }),
    decreases k - lo,
{
    let outer = balanced_scan(b, open, close, lo).0;
    if k == lo {
        assert(balanced_scan(b, open, close, k).0.subrange(0, outer.len() as int) =~= outer);
    } else {
        assert(bracket_depth(b, open, close, lo, k - 1) >= 0);
        lemma_scan_keeps_outer(b, open, close, lo, k - 1);
        let before = balanced_scan(b, open, close, k - 1).0;
        let now = balanced_scan(b, open, close, k).0;
        assert(bracket_depth(b, open, close, lo, k) >= 0);
        if b[k - 1] == open {
            assert(now == before.push((k - 1) as u64));
            assert(now.subrange(0, outer.len() as int) =~= before.subrange(0, outer.len() as int));
        } else if b[k - 1] == close {
            assert(before.len() > outer.len());
            assert(now == before.drop_last());
            assert(now.subrange(0, outer.len() as int) =~= before.subrange(0, outer.len() as int));
        } else {
            assert(now == before);
        }
    }
}

/// The scan never forgets a range it found.
proof fn lemma_scan_keeps_ranges(b: Seq<u8>, open: u8, close: u8, p: int, q: int, r: Range<u64>)
    requires
        0 <= p <= q <= b.len(),
        balanced_scan(b, open, close, p).1.contains(r),
    ensures
        balanced_scan(b, open, close, q).1.contains(r),
    decreases q - p,
{
    if p < q {
        lemma_scan_keeps_ranges(b, open, close, p, q - 1, r);
        let before = balanced_scan(b, open, close, q - 1).1;
        let now = balanced_scan(b, open, close, q).1;
        let i = choose|i: int| 0 <= i < before.len() && #[trigger] before[i] == r;
        assert(now[i] == r);
    }
}

/// Every pair of brackets with balanced brackets between them is found,
/// whatever else lies between them, newlines included: an `open` byte at `s`
/// and a `close` byte at `e` give the range `s..e + 1` of both brackets and
/// their contents, and, when the contents are not empty, the range
/// `s + 1..e` of the contents.
pub proof fn lemma_balanced_pair_found(b: Seq<u8>, open: u8, close: u8, s: int, e: int)
    requires
        open != close,
        0 <= s < e < b.len(),
        b.len() <= u64::MAX,
        b[s] == open,
        b[e] == close,
        balanced_between(b, open, close, s + 1, e),
    ensures
        balanced_scan(b, open, close, b.len() as int).1.contains(
            Range { start: s as u64, end: (e + 1) as u64 },
        ),
        s + 1 < e ==> balanced_scan(b, open, close, b.len() as int).1.contains(
            Range { start: (s + 1) as u64, end: e as u64 },
        ),
{
    let opened = balanced_scan(b, open, close, s + 1).0;
    assert(opened == balanced_scan(b, open, close, s).0.push(s as u64));
    lemma_scan_keeps_outer(b, open, close, s + 1, e);
    let at_close = balanced_scan(b, open, close, e).0;
    assert(at_close =~= opened) by {
        assert(at_close.subrange(0, opened.len() as int) =~= at_close);
    }
    assert(at_close.last() == s as u64);
    let found = balanced_scan(b, open, close, e + 1).1;
    let before = balanced_scan(b, open, close, e).1;
    let outer = Range { start: s as u64, end: (e + 1) as u64 };
    assert(found[before.len() as int] == outer);
    lemma_scan_keeps_ranges(b, open, close, e + 1, b.len() as int, outer);
    if s + 1 < e {
        let inner = Range { start: (s + 1) as u64, end: e as u64 };
        assert(found[before.len() as int + 1] == inner);
        lemma_scan_keeps_ranges(b, open, close, e + 1, b.len() as int, inner);
    }
}

/// An `open` byte at `s` and a `close` byte at `e` with balanced brackets
/// between them.
pub open spec fn bracket_pair(b: Seq<u8>, open: u8, close: u8, s: int, e: int) -> bool {
    &&& 0 <= s < e < b.len()
    &&& b[s] == open
    &&& b[e] == close
    &&& balanced_between(b, open, close, s + 1, e)
}

/// What the scan over the first `p` bytes holds: each unmatched open
/// bracket is an `open` byte before `p`, with as many brackets still open
/// after it as stand above it, and none closed more than opened since; and
/// each range found so far spans a bracket pair, or the contents of one.
spec fn scan_inv(b: Seq<u8>, open: u8, close: u8, p: int) -> bool {
    let (stack, ranges) = balanced_scan(b, open, close, p);
    &&& forall|j: int| 0 <= j < stack.len() ==> {
        &&& (#[trigger] stack[j]) < p
        &&& b[stack[j] as int] == open
        &&& bracket_depth(b, open, close, stack[j] + 1, p) == stack.len() - 1 - j
        &&& forall|k: int|
            stack[j] + 1 <= k <= p ==> #[trigger] bracket_depth(b, open, close, stack[j] + 1, k) >= 0
    }
    &&& forall|i: int| 0 <= i < ranges.len() ==> {
        ||| bracket_pair(b, open, close, (#[trigger] ranges[i]).start as int, ranges[i].end - 1)
        ||| (ranges[i].start >= 1 && bracket_pair(b, open, close, ranges[i].start - 1, ranges[i].end as int))
    }
}

proof fn lemma_scan_inv(b: Seq<u8>, open: u8, close: u8, p: int)
    requires
        open != close,
        0 <= p <= b.len(),
        b.len() <= u64::MAX,
    ensures
        scan_inv(b, open, close, p),
    decreases p,
{
    if p > 0 {
        lemma_scan_inv(b, open, close, p - 1);
        let (st, rs) = balanced_scan(b, open, close, p - 1);
        let (st2, rs2) = balanced_scan(b, open, close, p);
        let off = (p - 1) as u64;
        assert forall|j: int| 0 <= j < st.len() implies bracket_depth(b, open, close, st[j] + 1, p)
            == bracket_depth(b, open, close, st[j] + 1, p - 1) + (if b[p - 1] == open {
            1int
        } else if b[p - 1] == close {
            -1int
        } else {
            0int
        }) by {
            assert(st[j] < p - 1);
        }
        if b[p - 1] == open {
            assert(st2 == st.push(off));
            assert(rs2 == rs);
            assert forall|j: int| 0 <= j < st2.len() implies {
                &&& (#[trigger] st2[j]) < p
                &&& b[st2[j] as int] == open
                &&& bracket_depth(b, open, close, st2[j] + 1, p) == st2.len() - 1 - j
                &&& forall|k: int|
                    st2[j] + 1 <= k <= p ==> #[trigger] bracket_depth(b, open, close, st2[j] + 1, k) >= 0
            } by {
                if j < st.len() {
                    assert(st2[j] == st[j]);
                } else {
                    assert(st2[j] == off);
                    assert forall|k: int| st2[j] + 1 <= k <= p implies #[trigger] bracket_depth(
                        b,
                        open,
                        close,
                        st2[j] + 1,
                        k,
                    ) >= 0 by {
                        assert(k == p);
                    }
                }
            }
        } else if b[p - 1] == close && st.len() > 0 {
            let start = st.last();
            let top = st.len() - 1;
            assert(start == st[top]);
            assert(st2 == st.drop_last());
            assert(bracket_depth(b, open, close, start + 1, p - 1) == 0);
            assert(balanced_between(b, open, close, start + 1, p - 1));
            assert(bracket_pair(b, open, close, start as int, p - 1));
            assert forall|j: int| 0 <= j < st2.len() implies {
                &&& (#[trigger] st2[j]) < p
                &&& b[st2[j] as int] == open
                &&& bracket_depth(b, open, close, st2[j] + 1, p) == st2.len() - 1 - j
                &&& forall|k: int|
                    st2[j] + 1 <= k <= p ==> #[trigger] bracket_depth(b, open, close, st2[j] + 1, k) >= 0
            } by {
                assert(st2[j] == st[j]);
            }
            let with_outer = rs.push(Range { start, end: (off + 1) as u64 });
            assert forall|i: int| 0 <= i < rs2.len() implies {
                ||| bracket_pair(b, open, close, (#[trigger] rs2[i]).start as int, rs2[i].end - 1)
                ||| (rs2[i].start >= 1 && bracket_pair(b, open, close, rs2[i].start - 1, rs2[i].end as int))
            } by {
                if i < rs.len() {
                    assert(rs2[i] == rs[i]);
                } else if i == rs.len() {
                    assert(rs2[i] == with_outer[i]);
                } else {
                    assert(rs2[i] == Range { start: (start + 1) as u64, end: off });
                }
            }
        } else {
            assert(st2 == st);
            assert(rs2 == rs);
            assert forall|j: int| 0 <= j < st2.len() implies {
                &&& (#[trigger] st2[j]) < p
                &&& b[st2[j] as int] == open
                &&& bracket_depth(b, open, close, st2[j] + 1, p) == st2.len() - 1 - j
                &&& forall|k: int|
                    st2[j] + 1 <= k <= p ==> #[trigger] bracket_depth(b, open, close, st2[j] + 1, k) >= 0
            } by {
                assert(st2[j] == st[j]);
            }
        }
    }
}

/// Only bracket pairs are found: each range spans an `open` byte, a
/// `close` byte, and balanced brackets between them, or just what lies
/// between such a pair.
pub proof fn lemma_found_ranges_are_pairs(b: Seq<u8>, open: u8, close: u8, r: Range<u64>)
    requires
        open != close,
        b.len() <= u64::MAX,
        balanced_scan(b, open, close, b.len() as int).1.contains(r),
    ensures
        bracket_pair(b, open, close, r.start as int, r.end - 1) || (r.start >= 1 && bracket_pair(
            b,
            open,
            close,
            r.start - 1,
            r.end as int,
        )),
{
    lemma_scan_inv(b, open, close, b.len() as int);
    let rs = balanced_scan(b, open, close, b.len() as int).1;
    let i = choose|i: int| 0 <= i < rs.len() && rs[i] == r;
    assert(rs[i] == r);
}

/// The `RemoveRanges` implementation for the balanced brackets of `R`.
pub struct RemoveBalancedReducer<R: RemoveBalanced>(pub PhantomData<R>);

impl<R: RemoveBalanced> RemoveRanges for RemoveBalancedReducer<R> {
    type Order = RemovalOrder;

    /// The ranges of the brackets of `R`, and of their contents: see
    /// `balanced_scan`.
    fn remove_ranges(seed: &[u8]) -> (ranges: Vec<Range<u64>>)
        ensures
            ranges@ == balanced_scan(seed@, R::brackets().0, R::brackets().1, seed.len() as int).1,
    {
        let (open, close) = R::remove_balanced();
        balanced_ranges(seed, open, close)
    }
}

/// The length of the UTF-8 encoding of a white space character (Unicode's
/// `White_Space`, as `char::is_whitespace` has it) that starts at offset `i`
/// and ends by `hi`, or zero when there is none there.
pub open spec fn white_space_width(b: Seq<u8>, i: int, hi: int) -> int {
    let c = b[i];
    if c == 0x09 || c == 0x0A || c == 0x0B || c == 0x0C || c == 0x0D || c == 0x20 {
        1
    } else if c == 0xC2 && i + 1 < hi && (b[i + 1] == 0x85 || b[i + 1] == 0xA0) {
        // U+0085, U+00A0
        2
    } else if c == 0xE1 && i + 2 < hi && b[i + 1] == 0x9A && b[i + 2] == 0x80 {
        // U+1680
        3
    } else if c == 0xE2 && i + 2 < hi && b[i + 1] == 0x80 && ((0x80 <= b[i + 2] && b[i + 2] <= 0x8A)
        || b[i + 2] == 0xA8 || b[i + 2] == 0xA9 || b[i + 2] == 0xAF) {
        // U+2000 to U+200A, U+2028, U+2029, U+202F
        3
    } else if c == 0xE2 && i + 2 < hi && b[i + 1] == 0x81 && b[i + 2] == 0x9F {
        // U+205F
        3
    } else if c == 0xE3 && i + 2 < hi && b[i + 1] == 0x80 && b[i + 2] == 0x80 {
        // U+3000
        3
    } else {
        0
    }
}

/// The bytes from `lo` to `hi` encode white space characters only.
pub open spec fn all_white(b: Seq<u8>, lo: int, hi: int) -> bool
    decreases hi - lo,
{
    if lo >= hi {
        true
    } else {
        let w = white_space_width(b, lo, hi);
        w > 0 && all_white(b, lo + w, hi)
    }
}

/// The ranges of the blank newline-terminated lines among the first `p`
/// bytes of `b`, newline included, in order.
pub open spec fn blank_line_ranges(b: Seq<u8>, p: int) -> Seq<Range<u64>>
    decreases p,
{
    if p <= 0 {
        Seq::empty()
    } else if b[p - 1] == NEWLINE {
        let start = line_start_before(b, p - 1);
        let before = blank_line_ranges(b, p - 1);
        if all_white(b, start, p) {
            before.push(Range { start: start as u64, end: p as u64 })
        } else {
            before
        }
    } else {
        blank_line_ranges(b, p - 1)
    }
}

/// The ranges of the blank lines of `b`: the lines, newline included, that
/// hold white space only, the last line counting even without a newline.
pub open spec fn blank_lines(b: Seq<u8>) -> Seq<Range<u64>> {
    let n = b.len() as int;
    let start = line_start_before(b, n);
    if n > 0 && b.last() != NEWLINE && all_white(b, start, n) {
        blank_line_ranges(b, n).push(Range { start: start as u64, end: n as u64 })
    } else {
        blank_line_ranges(b, n)
    }
}

/// The code points of Unicode's `White_Space` property, the characters for
/// which `char::is_whitespace` holds.
pub open spec fn white_space_code_point(cp: int) -> bool {
    ||| 0x09 <= cp <= 0x0D
    ||| cp == 0x20
    ||| cp == 0x85
    ||| cp == 0xA0
    ||| cp == 0x1680
    ||| 0x2000 <= cp <= 0x200A
    ||| cp == 0x2028
    ||| cp == 0x2029
    ||| cp == 0x202F
    ||| cp == 0x205F
    ||| cp == 0x3000
}

/// The number of bytes of the UTF-8 encoding of the code point `cp`.
pub open spec fn utf8_len(cp: int) -> int {
    if cp < 0x80 {
        1
    } else if cp < 0x800 {
        2
    } else if cp < 0x10000 {
        3
    } else {
        4
    }
}

/// The bytes of `b` from offset `i` on are the UTF-8 encoding of the code
/// point `cp`.
pub open spec fn utf8_encodes_at(b: Seq<u8>, i: int, cp: int) -> bool {
    &&& 0 <= cp <= 0x10FFFF
    &&& 0 <= i
    &&& i + utf8_len(cp) <= b.len()
    &&& if cp < 0x80 {
        b[i] == cp
    } else if cp < 0x800 {
        b[i] == 0xC0 + cp / 64 && b[i + 1] == 0x80 + cp % 64
    } else if cp < 0x10000 {
        &&& b[i] == 0xE0 + cp / 4096
        &&& b[i + 1] == 0x80 + (cp / 64) % 64
        &&& b[i + 2] == 0x80 + cp % 64
    } else {
        &&& b[i] == 0xF0 + cp / 262144
        &&& b[i + 1] == 0x80 + (cp / 4096) % 64
        &&& b[i + 2] == 0x80 + (cp / 64) % 64
        &&& b[i + 3] == 0x80 + cp % 64
    }
}

/// A character of UTF-8 text is white space to `white_space_width` exactly
/// when it is one of Unicode's `White_Space` characters, and then its whole
/// encoding is taken: carriage returns, tabs, form feeds, no-break spaces and
/// the rest are all white space, and no other character is.
pub proof fn lemma_white_space_width(b: Seq<u8>, i: int, hi: int, cp: int)
    requires
        utf8_encodes_at(b, i, cp),
        i + utf8_len(cp) <= hi <= b.len(),
    ensures
        white_space_width(b, i, hi) == if white_space_code_point(cp) {
            utf8_len(cp)
        } else {
            0
        },
{
    if 0x800 <= cp < 0x10000 {
        assert(cp == 4096 * (cp / 4096) + 64 * ((cp / 64) % 64) + cp % 64);
    } else if 0x80 <= cp < 0x800 {
        assert(cp == 64 * (cp / 64) + cp % 64);
    }
}

/// Bytes that are all ASCII white space (tab, line feed, vertical tab, form
/// feed, carriage return, space) are white space only: a line ending in
/// `"\r\n"` with nothing else on it is blank.
pub proof fn lemma_ascii_white_is_white(b: Seq<u8>, lo: int, hi: int)
    requires
        0 <= lo <= hi <= b.len(),
        forall|k: int| lo <= k < hi ==> (0x09 <= #[trigger] b[k] <= 0x0D || b[k] == 0x20),
    ensures
        all_white(b, lo, hi),
    decreases hi - lo,
{
    if lo < hi {
        assert(0x09 <= b[lo] <= 0x0D || b[lo] == 0x20);
        lemma_ascii_white_is_white(b, lo + 1, hi);
    }
}

/// A byte that is ASCII but not white space ends any run of white space:
/// the bytes from `lo` to `hi` are not white space only when one of them is
/// such a byte (a letter, a digit, punctuation, ...).
pub proof fn lemma_ascii_non_white_is_not_white(b: Seq<u8>, lo: int, hi: int, k: int)
    requires
        0 <= lo <= k < hi <= b.len(),
        b[k] < 0x80,
        !(0x09 <= b[k] <= 0x0D || b[k] == 0x20),
    ensures
        !all_white(b, lo, hi),
    decreases hi - lo,
{
    let w = white_space_width(b, lo, hi);
    if k > lo && w > 0 {
        if k >= lo + w {
            lemma_ascii_non_white_is_not_white(b, lo + w, hi, k);
        } else {
            assert(w >= 2);
            assert(b[k] >= 0x80);
        }
    }
}

/// `b[start..end]` is a whole line: it starts the file or follows a
/// newline, ends with a newline or with the file, and holds no other
/// newline.
pub open spec fn is_line(b: Seq<u8>, start: int, end: int) -> bool {
    &&& 0 <= start < end <= b.len()
    &&& (start == 0 || b[start - 1] == NEWLINE)
    &&& (b[end - 1] == NEWLINE || end == b.len())
    &&& forall|k: int| start <= k < end - 1 ==> #[trigger] b[k] != NEWLINE
}

/// Where the line holding offset `q` starts: after the last newline before
/// `q`, or at the start of the file.
proof fn lemma_line_start_facts(b: Seq<u8>, q: int)
    requires
        0 <= q <= b.len(),
    ensures
        ({
            let ls = line_start_before(b, q);
            &&& 0 <= ls <= q
            &&& (ls == 0 || b[ls - 1] == NEWLINE)
            &&& forall|k: int| ls <= k < q ==> #[trigger] b[k] != NEWLINE
        }),
    decreases q,
{
    if q > 0 && b[q - 1] != NEWLINE {
        lemma_line_start_facts(b, q - 1);
    }
}

/// A line that starts at `s` and has no newline before `q` still starts
/// at `s` at offset `q`.
proof fn lemma_line_start_is(b: Seq<u8>, s: int, q: int)
    requires
        0 <= s <= q <= b.len(),
        s == 0 || b[s - 1] == NEWLINE,
        forall|k: int| s <= k < q ==> #[trigger] b[k] != NEWLINE,
    ensures
        line_start_before(b, q) == s,
    decreases q,
{
    if q > s {
        assert(b[q - 1] != NEWLINE);
        lemma_line_start_is(b, s, q - 1);
    }
}

/// The blank lines found among the first `p` bytes stay found.
proof fn lemma_blank_ranges_grow(b: Seq<u8>, p: int, q: int, r: Range<u64>)
    requires
        0 <= p <= q <= b.len(),
        blank_line_ranges(b, p).contains(r),
    ensures
        blank_line_ranges(b, q).contains(r),
    decreases q - p,
{
    if p < q {
        lemma_blank_ranges_grow(b, p, q - 1, r);
        let before = blank_line_ranges(b, q - 1);
        let i = choose|i: int| 0 <= i < before.len() && #[trigger] before[i] == r;
        assert(blank_line_ranges(b, q)[i] == r);
    }
}

/// Every whole line of white space only is reported as blank, its newline
/// included: a line of `"\r\n"`, of spaces and tabs, or of nothing but its
/// newline.
pub proof fn lemma_white_lines_are_blank(b: Seq<u8>, s: int, e: int)
    requires
        b.len() <= u64::MAX,
        is_line(b, s, e),
        all_white(b, s, e),
    ensures
        blank_lines(b).contains(Range { start: s as u64, end: e as u64 }),
{
    let n = b.len() as int;
    let r = Range { start: s as u64, end: e as u64 };
    if b[e - 1] == NEWLINE {
        lemma_line_start_is(b, s, e - 1);
        let found = blank_line_ranges(b, e);
        assert(found.last() == r);
        assert(found.contains(r));
        lemma_blank_ranges_grow(b, e, n, r);
        let all = blank_line_ranges(b, n);
        let i = choose|i: int| 0 <= i < all.len() && #[trigger] all[i] == r;
        assert(blank_lines(b)[i] == r);
    } else {
        assert(e == n);
        lemma_line_start_is(b, s, n);
        assert(blank_lines(b).last() == r);
    }
}

/// Every range reported blank is a whole line, its newline included, that
/// holds white space only.
pub proof fn lemma_blank_lines_are_white_lines(b: Seq<u8>, r: Range<u64>)
    requires
        b.len() <= u64::MAX,
        blank_lines(b).contains(r),
    ensures
        is_line(b, r.start as int, r.end as int),
        all_white(b, r.start as int, r.end as int),
{
    let n = b.len() as int;
    lemma_blank_ranges_are_white_lines(b, n);
    let found = blank_line_ranges(b, n);
    let i = choose|i: int| 0 <= i < blank_lines(b).len() && #[trigger] blank_lines(b)[i] == r;
    if i < found.len() {
        assert(found[i] == r);
    } else {
        lemma_line_start_facts(b, n);
        lemma_line_start_facts(b, n - 1);
    }
}

proof fn lemma_blank_ranges_are_white_lines(b: Seq<u8>, p: int)
    requires
        0 <= p <= b.len(),
        b.len() <= u64::MAX,
    ensures
        forall|i: int| 0 <= i < blank_line_ranges(b, p).len() ==> {
            let r = #[trigger] blank_line_ranges(b, p)[i];
            &&& is_line(b, r.start as int, r.end as int)
            &&& all_white(b, r.start as int, r.end as int)
        },
    decreases p,
{
    if p > 0 {
        lemma_blank_ranges_are_white_lines(b, p - 1);
        let before = blank_line_ranges(b, p - 1);
        let now = blank_line_ranges(b, p);
        if b[p - 1] == NEWLINE {
            lemma_line_start_facts(b, p - 1);
            assert forall|i: int| 0 <= i < now.len() implies {
                let r = #[trigger] now[i];
                &&& is_line(b, r.start as int, r.end as int)
                &&& all_white(b, r.start as int, r.end as int)
            } by {
                if i < before.len() {
                    assert(now[i] == before[i]);
                }
            }
        } else {
            assert(now == before);
        }
    }
}

/// The length of the white space character at offset `i`, ending by `hi`.
fn white_space_at(b: &[u8], i: usize, hi: usize) -> (w: usize)
    requires
        i < hi <= b@.len(),
    ensures
        w == white_space_width(b@, i as int, hi as int),
{
    let c = b[i];
    if c == 0x09 || c == 0x0A || c == 0x0B || c == 0x0C || c == 0x0D || c == 0x20 {
        1
    } else if c == 0xC2 && hi - i > 1 && (b[i + 1] == 0x85 || b[i + 1] == 0xA0) {
        2
    } else if c == 0xE1 && hi - i > 2 && b[i + 1] == 0x9A && b[i + 2] == 0x80 {
        3
    } else if c == 0xE2 && hi - i > 2 && b[i + 1] == 0x80 && ((0x80 <= b[i + 2] && b[i + 2] <= 0x8A)
        || b[i + 2] == 0xA8 || b[i + 2] == 0xA9 || b[i + 2] == 0xAF) {
        3
    } else if c == 0xE2 && hi - i > 2 && b[i + 1] == 0x81 && b[i + 2] == 0x9F {
        3
    } else if c == 0xE3 && hi - i > 2 && b[i + 1] == 0x80 && b[i + 2] == 0x80 {
        3
    } else {
        0
    }
}

/// Whether the bytes from `lo` to `hi` encode white space characters only.
fn is_white(b: &[u8], lo: usize, hi: usize) -> (r: bool)
    requires
        lo <= hi <= b@.len(),
    ensures
        r == all_white(b@, lo as int, hi as int),
{
    let mut i = lo;
    while i < hi
        invariant
            lo <= i <= hi <= b@.len(),
            all_white(b@, lo as int, hi as int) == all_white(b@, i as int, hi as int),
        decreases hi - i,
    {
        let w = white_space_at(b, i, hi);
        if w == 0 {
            return false;
        }
        i = i + w;
    }
    true
}

/// A `RemoveRanges` implementation that removes blank lines: lines of white
/// space only.
///
/// The seed is UTF-8 text.
#[derive(Clone, Copy, Debug, PartialEq, Eq)]
pub struct Blank;

impl RemoveRanges for Blank {
    type Order = RemovalOrder;

    fn remove_ranges(seed: &[u8]) -> (ranges: Vec<Range<u64>>)
        ensures
            ranges@ == blank_lines(seed@),
    {
        let mut ranges: Vec<Range<u64>> = Vec::new();
        let mut start: usize = 0;
        let mut i: usize = 0;
        while i < seed.len()
            invariant
                start <= i <= seed@.len(),
                start == line_start_before(seed@, i as int),
                ranges@ == blank_line_ranges(seed@, i as int),
                all_nonempty(ranges@),
            decreases seed.len() - i,
        {
            if seed[i] == NEWLINE {
                if is_white(seed, start, i + 1) {
                    ranges.push(Range { start: start as u64, end: (i + 1) as u64 });
                }
                start = i + 1;
            }
            i = i + 1;
        }
        proof {
            lemma_line_start_bound(seed@, seed@.len() as int);
            if seed@.len() > 0 {
                if seed@.last() != NEWLINE {
                    lemma_line_start_bound(seed@, seed@.len() - 1);
                    assert(start < seed@.len());
                } else {
                    assert(start == seed@.len());
                }
            }
        }
        if start < seed.len() && is_white(seed, start, seed.len()) {
            ranges.push(Range { start: start as u64, end: seed.len() as u64 });
        }
        ranges
    }
}

/// For each match of the regex `pattern` in `haystack`, in order, the byte
/// offsets of each of its capture groups, the whole match first, or `None`
/// for a group that did not take part in the match; `None` altogether when
/// `pattern` is not a valid regex.
pub uninterp spec fn regex_captures(pattern: Seq<char>, haystack: Seq<u8>) -> Option<Seq<Seq<Option<(u64, u64)>>>>;

/// `regex::bytes::Regex::new` then `captures_iter`: the capture groups of
/// each match of `pattern` in `haystack`. Each group that took part in a
/// match starts no later than it ends, and ends within the haystack.
#[verifier::external_body]
fn captures(pattern: &str, haystack: &[u8]) -> (r: Option<Vec<Vec<Option<(u64, u64)>>>>)
    ensures
        r matches Some(v) ==> regex_captures(pattern@, haystack@) == Some(v@.map_values(|m: Vec<Option<(u64, u64)>>| m@)),
        r is None ==> regex_captures(pattern@, haystack@) is None,
        r matches Some(v) ==> forall|i: int, j: int| 0 <= i < v@.len() && 0 <= j < v@[i]@.len() ==>
            (#[trigger] v@[i]@[j] matches Some(g) ==> g.0 <= g.1 <= haystack@.len()),
{
    match regex::bytes::Regex::new(pattern) {
        Err(_) => None,
        Ok(re) => Some(
            re.captures_iter(haystack).map(
                |caps| caps.iter().map(|g| g.map(|m| (m.start() as u64, m.end() as u64))).collect(),
            ).collect(),
        ),
    }
}

/// The non-empty ranges of the capture groups `1..k` of one match.
pub open spec fn group_ranges(groups: Seq<Option<(u64, u64)>>, k: int) -> Seq<Range<u64>>
    decreases k,
{
    if k <= 1 {
        Seq::empty()
    } else {
        let before = group_ranges(groups, k - 1);
        match groups[k - 1] {
            Some(g) => if g.0 < g.1 {
                before.push(Range { start: g.0, end: g.1 })
            } else {
                before
            },
            None => before,
        }
    }
}

/// The non-empty ranges of the capture groups, but the whole match, of the
/// first `n` matches, in order.
pub open spec fn capture_ranges(matches: Seq<Seq<Option<(u64, u64)>>>, n: int) -> Seq<Range<u64>>
    decreases n,
{
    if n <= 0 {
        Seq::empty()
    } else {
        capture_ranges(matches, n - 1) + group_ranges(matches[n - 1], matches[n - 1].len() as int)
    }
}

/// The ranges of `seed` that the capture groups of the matches of the regex
/// `pattern` span, the whole matches aside, in order, leaving out empty ones;
/// none when `pattern` is not a valid regex.
pub fn regex_ranges(pattern: &str, seed: &[u8]) -> (ranges: Vec<Range<u64>>)
    ensures
        ranges@ == match regex_captures(pattern@, seed@) {
            Some(m) => capture_ranges(m, m.len() as int),
            None => Seq::empty(),
        },
        all_nonempty(ranges@),
{
    let matches = match captures(pattern, seed) {
        None => {
            return Vec::new();
        },
        Some(m) => m,
    };
    let ghost all = matches@.map_values(|m: Vec<Option<(u64, u64)>>| m@);
    let mut ranges: Vec<Range<u64>> = Vec::new();
    let mut i: usize = 0;
    while i < matches.len()
        invariant
            i <= matches@.len() == all.len(),
            all == matches@.map_values(|m: Vec<Option<(u64, u64)>>| m@),
            ranges@ == capture_ranges(all, i as int),
            all_nonempty(ranges@),
        decreases matches.len() - i,
    {
        let groups = &matches[i];
        let ghost before = ranges@;
        let mut j: usize = 1;
        while j < groups.len()
            invariant
                1 <= j <= groups@.len() || (j == 1 && groups@.len() == 0),
                groups@ == all[i as int],
                ranges@ == before + group_ranges(groups@, j as int),
                all_nonempty(ranges@),
            decreases groups.len() - j,
        {
            match groups[j] {
                Some(g) => {
                    if g.0 < g.1 {
                        ranges.push(Range { start: g.0, end: g.1 });
                        proof {
                            assert(ranges@ =~= before + group_ranges(groups@, j + 1));
                        }
                    }
                },
                None => {},
            }
            j = j + 1;
        }
        proof {
            if groups@.len() == 0 {
                assert(group_ranges(groups@, 0) =~= group_ranges(groups@, 1));
            }
            assert(ranges@ =~= capture_ranges(all, i + 1));
        }
        i = i + 1;
    }
    ranges
}

/// A regex whose matches' capture groups are ranges to try removing from the
/// seed test case; the whole matches themselves are not.
pub trait RemoveRegex {
    /// The regex's pattern.
    ///
    /// Verified implementations define it. Implementations written in plain
    /// Rust cannot, and keep this default; verified code only ever sees the
    /// pattern through a type parameter, for which the default body is not
    /// unfolded.
    closed spec fn pattern() -> Seq<char> {
        arbitrary()
    }

    /// The regex.
    fn remove_regex() -> (re: &'static str)
        ensures
            re@ == Self::pattern(),
    ;
}

/// The `RemoveRanges` implementation for the regex of `R`: see
/// `regex_ranges`.
pub struct RemoveRegexReducer<R: RemoveRegex>(pub PhantomData<R>);

impl<R: RemoveRegex> RemoveRanges for RemoveRegexReducer<R> {
    type Order = RemovalOrder;

    /// The ranges of the capture groups of `R`'s regex: see `regex_ranges`.
    fn remove_ranges(seed: &[u8]) -> (ranges: Vec<Range<u64>>)
        ensures
            ranges@ == match regex_captures(R::pattern(), seed@) {
                Some(m) => capture_ranges(m, m.len() as int),
                None => Seq::empty(),
            },
    {
        regex_ranges(R::remove_regex(), seed)
    }
}

} // verus!

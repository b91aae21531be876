//! Lines of a test case: counting them, and the byte ranges they span.

use std::ops::Range;
use vstd::prelude::*;

verus! {

/// The byte value of `'\n'`.
pub const NEWLINE: u8 = 10u8;

/// The number of newline bytes among the first `p` bytes of `b`.
pub open spec fn newlines(b: Seq<u8>, p: int) -> int
    decreases p,
{
    if p <= 0 {
        0
    } else {
        newlines(b, p - 1) + if b[p - 1] == NEWLINE {
            1int
        } else {
            0int
        }
    }
}

/// The number of lines of `b`: one per newline, and one more for trailing
/// bytes after the last newline.
pub open spec fn line_count(b: Seq<u8>) -> int {
    newlines(b, b.len() as int) + if b.len() > 0 && b.last() != NEWLINE {
        1int
    } else {
        0int
    }
}

/// The offset at which the line containing offset `p` starts: just after the
/// last newline before `p`, or zero.
pub open spec fn line_start_before(b: Seq<u8>, p: int) -> int
    decreases p,
{
    if p <= 0 {
        0
    } else if b[p - 1] == NEWLINE {
        p
    } else {
        line_start_before(b, p - 1)
    }
}

/// The byte ranges of the newline-terminated lines among the first `p` bytes
/// of `b`, newline included, in order.
pub open spec fn line_ranges(b: Seq<u8>, p: int) -> Seq<Range<u64>>
    decreases p,
{
    if p <= 0 {
        Seq::empty()
    } else if b[p - 1] == NEWLINE {
        line_ranges(b, p - 1).push(Range { start: line_start_before(b, p - 1) as u64, end: p as u64 })
    } else {
        line_ranges(b, p - 1)
    }
}

proof fn lemma_newlines_bound(b: Seq<u8>, p: int)
    requires
        0 <= p <= b.len(),
    ensures
        0 <= newlines(b, p) <= p,
    decreases p,
{
    if p > 0 {
        lemma_newlines_bound(b, p - 1);
    }
}

pub proof fn lemma_line_start_bound(b: Seq<u8>, p: int)
    requires
        0 <= p <= b.len(),
    ensures
        0 <= line_start_before(b, p) <= p,
    decreases p,
{
    if p > 0 {
        lemma_line_start_bound(b, p - 1);
    }
}

/// Count the lines of a test case's contents.
pub fn count_lines(contents: &[u8]) -> (n: u64)
    ensures
        n == line_count(contents@),
{
    let mut n: u64 = 0;
    let mut i: usize = 0;
    while i < contents.len()
        invariant
            i <= contents.len(),
            n == newlines(contents@, i as int),
        decreases contents.len() - i,
    {
        proof {
            lemma_newlines_bound(contents@, i as int);
        }
        if contents[i] == NEWLINE {
            n = n + 1;
        }
        i = i + 1;
    }
    proof {
        lemma_newlines_bound(contents@, contents.len() as int);
    }
    if contents.len() > 0 && contents[contents.len() - 1] != NEWLINE {
        proof {
            lemma_newlines_bound(contents@, contents.len() - 1);
        }
        n = n + 1;
    }
    n
}

/// The byte ranges of the newline-terminated lines of `contents`.
pub fn newline_terminated_lines(contents: &[u8]) -> (ranges: Vec<Range<u64>>)
    ensures
        ranges@ == line_ranges(contents@, contents.len() as int),
        forall|j: int| 0 <= j < ranges.len() ==> (#[trigger] ranges@[j]).start < ranges@[j].end,
{
    let mut ranges: Vec<Range<u64>> = Vec::new();
    let mut start_of_line: u64 = 0;
    let mut i: usize = 0;
    while i < contents.len()
        invariant
            i <= contents.len(),
            start_of_line == line_start_before(contents@, i as int),
            ranges@ == line_ranges(contents@, i as int),
            forall|j: int| 0 <= j < ranges.len() ==> (#[trigger] ranges@[j]).start < ranges@[j].end,
        decreases contents.len() - i,
    {
        proof {
            lemma_line_start_bound(contents@, i as int);
        }
        if contents[i] == NEWLINE {
            ranges.push(Range { start: start_of_line, end: (i + 1) as u64 });
            start_of_line = (i + 1) as u64;
        }
        i = i + 1;
    }
    ranges
}

/// The bytes among the first `p` bytes of `b` whose line number (the number
/// of newlines before them) lies outside `lo..hi`.
pub open spec fn bytes_outside_lines(b: Seq<u8>, lo: int, hi: int, p: int) -> Seq<u8>
    decreases p,
{
    if p <= 0 {
        Seq::empty()
    } else if lo <= newlines(b, p - 1) < hi {
        bytes_outside_lines(b, lo, hi, p - 1)
    } else {
        bytes_outside_lines(b, lo, hi, p - 1).push(b[p - 1])
    }
}

/// The contents without the lines numbered `lo..hi` (counting from zero).
pub fn remove_lines(contents: &[u8], lo: u64, hi: u64) -> (out: Vec<u8>)
    ensures
        out@ == bytes_outside_lines(contents@, lo as int, hi as int, contents.len() as int),
{
    let mut out: Vec<u8> = Vec::new();
    let mut line: u64 = 0;
    let mut i: usize = 0;
    while i < contents.len()
        invariant
            i <= contents.len(),
            line == newlines(contents@, i as int),
            out@ == bytes_outside_lines(contents@, lo as int, hi as int, i as int),
        decreases contents.len() - i,
    {
        proof {
            lemma_newlines_bound(contents@, i as int);
        }
        if !(lo <= line && line < hi) {
            out.push(contents[i]);
        }
        if contents[i] == NEWLINE {
            line = line + 1;
        }
        i = i + 1;
    }
    out
}

} // verus!

//! A reducer script state that removes chunks of consecutive lines: first
//! all the lines, then halves, quarters, ..., and finally single lines.

use crate::lines::{bytes_outside_lines, count_lines, line_count};
use crate::ranges::windows;
use crate::script::Reducer;
use vstd::prelude::*;

verus! {

/// The window of `chunk_size` consecutive lines starting at line `index`, of
/// a seed with `num_lines` lines.
#[derive(Clone, Copy, Debug, PartialEq, Eq)]
pub struct Chunks {
    pub num_lines: u64,
    pub chunk_size: u64,
    pub index: u64,
}

impl Chunks {
    /// The initial state for a seed: a window spanning all of its lines.
    pub fn new(seed: &[u8]) -> (r: Self)
        ensures
            r.num_lines == line_count(seed@),
            r.chunk_size == r.num_lines,
            r.index == 0,
    {
        let num_lines = count_lines(seed);
        Chunks { num_lines, chunk_size: num_lines, index: 0 }
    }

    /// Generate the reduction of the current window: the seed without the
    /// lines of the window. There is none when the window starts past the
    /// last line.
    pub fn reduce(&self, seed: &[u8]) -> (r: Option<Vec<u8>>)
        requires
            self.valid(),
        ensures
            self.index >= self.num_lines <==> r is None,
            r matches Some(out) ==> out@ == bytes_outside_lines(
                seed@,
                self.index as int,
                self.index + self.chunk_size,
                seed.len() as int,
            ),
    {
        if self.index >= self.num_lines {
            return None;
        }
        Some(crate::lines::remove_lines(seed, self.index, self.index + self.chunk_size))
    }
}

impl Reducer for Chunks {
    /// The window is non-empty and lies within the lines.
    open spec fn valid(&self) -> bool {
        &&& 0 < self.chunk_size <= self.num_lines
        &&& self.index + self.chunk_size <= self.num_lines
    }

    /// Slide the window one line further; when it has reached the last line,
    /// halve it and start over from the first line. After the window of a
    /// single line has reached the last line, the reductions are exhausted.
    open spec fn spec_next(self) -> Option<Self> {
        if self.index + self.chunk_size < self.num_lines {
            Some(Chunks { index: (self.index + 1) as u64, ..self })
        } else if self.chunk_size == 1 {
            None
        } else {
            Some(Chunks { chunk_size: self.chunk_size / 2, index: 0, ..self })
        }
    }

    fn next(self) -> (r: Option<Self>) {
        let ghost expected = self.spec_next();
        let mut s = self;
        s.index = s.index + 1;
        if s.index == s.num_lines - (s.chunk_size - 1) {
            if s.chunk_size == 1 {
                None
            } else {
                s.chunk_size = s.chunk_size / 2;
                s.index = 0;
                Some(s)
            }
        } else {
            Some(s)
        }
    }

    /// The window's lines are gone from the new seed: the seed has
    /// `chunk_size` fewer lines, and the window stays where it is unless it
    /// no longer fits, in which case it starts over from the first line.
    /// When no line is left, or fewer lines than the window spans, the
    /// reductions are exhausted.
    fn next_on_interesting(self, new_seed_len: u64) -> (r: Option<Self>)
        ensures
            self.num_lines - self.chunk_size < self.chunk_size ==> r is None,
            self.num_lines - self.chunk_size >= self.chunk_size ==> r == Some(
                Chunks {
                    num_lines: (self.num_lines - self.chunk_size) as u64,
                    index: if self.index >= self.num_lines - self.chunk_size - (self.chunk_size
                        - 1) {
                        0
                    } else {
                        self.index
                    },
                    ..self
                },
            ),
    {
        let mut s = self;
        s.num_lines = s.num_lines - s.chunk_size;
        if s.num_lines == 0 || s.chunk_size > s.num_lines {
            return None;
        }
        if s.index >= s.num_lines - (s.chunk_size - 1) {
            s.index = 0;
        }
        Some(s)
    }
}

/// The state after `k` calls of `next`, or `None` when an earlier call gave
/// `None`.
pub open spec fn chunk_steps(s: Chunks, k: nat) -> Option<Chunks>
    decreases k,
{
    if k == 0 {
        Some(s)
    } else {
        match s.spec_next() {
            None => None,
            Some(t) => chunk_steps(t, (k - 1) as nat),
        }
    }
}

/// One step of `next`: the window slides one line while it has not reached
/// the last line; once it has, a window of more than one line halves and
/// starts over from the first line; and only a single-line window on the
/// last line has no next state. Every next state is valid again.
pub proof fn lemma_chunks_next(s: Chunks)
    requires
        s.valid(),
    ensures
        s.spec_next() is None <==> (s.chunk_size == 1 && s.index + 1 == s.num_lines),
        s.index + s.chunk_size < s.num_lines ==> s.spec_next() == Some(
            Chunks { index: (s.index + 1) as u64, ..s },
        ),
        s.index + s.chunk_size == s.num_lines && s.chunk_size > 1 ==> s.spec_next() == Some(
            Chunks { chunk_size: s.chunk_size / 2, index: 0, ..s },
        ),
        s.spec_next() matches Some(t) ==> t.valid() && t.num_lines == s.num_lines,
{
}

/// Successive calls of `next` visit exactly the windows of `windows`: from
/// the initial state over `n` lines, all of them at once, then each half,
/// each quarter, ..., and finally each single line, every window sliding
/// over the lines in order; then they give `None`.
pub proof fn lemma_chunks_visit_windows(s: Chunks, k: nat)
    requires
        s.valid(),
    ensures
        ({
            let w = windows(s.num_lines as int, s.chunk_size as int, s.index as int);
            &&& k < w.len() ==> (chunk_steps(s, k) matches Some(t) && t.num_lines == s.num_lines && (
                t.chunk_size as int,
                t.index as int,
            ) == w[k as int])
            &&& k >= w.len() ==> chunk_steps(s, k) is None
        }),
    decreases k,
{
    let n = s.num_lines as int;
    let c = s.chunk_size as int;
    let i = s.index as int;
    let w = windows(n, c, i);
    lemma_chunks_next(s);
    if k > 0 {
        match s.spec_next() {
            None => {
                assert(w =~= seq![(c, i)]);
            },
            Some(t) => {
                lemma_chunks_visit_windows(t, (k - 1) as nat);
                let w2 = windows(n, t.chunk_size as int, t.index as int);
                assert(w =~= seq![(c, i)] + w2);
            },
        }
    }
}

} // verus!

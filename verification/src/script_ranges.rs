//! The range-removing state of the reducer-script library: like `ranges`,
//! but shifting the ranges left after an interesting reduction one removed
//! range at a time.

use crate::range_order::{
    all_nonempty, lemma_order_total, lemma_orders_total, nonempty, order, sort_by_start, sort_ranges, start_order,
    strictly_sorted,
};
use crate::ranges::{windows, copy_ranges, copy_slice, kept_bytes, outside_window, remove_ranges_from, window, RemoveRanges, RemoveRangesReducer as Initial};
use crate::script::Reducer;
use std::marker::PhantomData;
use std::ops::Range;
use vstd::prelude::*;

verus! {

/// The reduction state of a `RemoveRanges` implementation: the distinct
/// ranges in the order `R::Order`, and the window of `chunk_size` consecutive ranges
/// starting at `index` that is removed next.
#[derive(Debug, PartialEq, Eq)]
pub struct RemoveRangesReducer<R> where R: RemoveRanges {
    pub remove_ranges: PhantomData<R>,
    pub ranges: Vec<Range<u64>>,
    pub chunk_size: usize,
    pub index: usize,
}

impl<R: RemoveRanges> Clone for RemoveRangesReducer<R> {
    fn clone(&self) -> (c: Self)
        ensures
            c.ranges@ == self.ranges@,
            c.chunk_size == self.chunk_size,
            c.index == self.index,
    {
        RemoveRangesReducer {
            remove_ranges: PhantomData,
            ranges: copy_ranges(&self.ranges),
            chunk_size: self.chunk_size,
            index: self.index,
        }
    }
}

/// What becomes of a range that was outside the removed window, after the
/// window's ranges `removed[i..]` are considered, in window order, with
/// `ds` and `de` bytes removed so far before its start and its end.
pub enum Shift {
    /// The range moves to `start..end`.
    Moved(int, int),
    /// The range overlapped a removed range without containing it, and is
    /// dropped.
    Dropped,
    /// The range equals a removed range, or shifting it leaves it empty or
    /// before the file's start: there is no next state.
    Broken,
}

/// Shift `r` past the removed ranges `removed[i..]`, in window order: a
/// removed range at or after `r`'s end stops the shifting; one ending at or
/// before `r`'s start shifts both of `r`'s ends; one strictly inside `r`
/// (it may share `r`'s start, not its end) shifts `r`'s end; any other
/// overlap drops `r`. A removed range equal to `r` breaks the step.
pub open spec fn shift_past(r: Range<u64>, removed: Seq<Range<u64>>, i: int, ds: int, de: int) -> Shift
    decreases removed.len() - i,
{
    if i >= removed.len() || i < 0 {
        if ds <= r.start && de <= r.end && r.start - ds < r.end - de {
            Shift::Moved(r.start - ds, r.end - de)
        } else {
            Shift::Broken
        }
    } else {
        let s = removed[i];
        if r == s {
            Shift::Broken
        } else if r.end <= s.start {
            shift_past(r, removed, removed.len() as int, ds, de)
        } else if s.end <= r.start {
            shift_past(r, removed, i + 1, ds + (s.end - s.start), de + (s.end - s.start))
        } else if r.start <= s.start && s.end < r.end {
            shift_past(r, removed, i + 1, ds, de + (s.end - s.start))
        } else {
            Shift::Dropped
        }
    }
}

/// The first `k` of the `kept` ranges shifted past the removed ones, in
/// order, dropped ones left out; `None` when one of them breaks the step.
pub open spec fn shift_all(kept: Seq<Range<u64>>, removed: Seq<Range<u64>>, k: int) -> Option<Seq<Range<u64>>>
    decreases k,
{
    if k <= 0 {
        Some(Seq::empty())
    } else {
        match shift_all(kept, removed, k - 1) {
            None => None,
            Some(before) => match shift_past(kept[k - 1], removed, 0, 0, 0) {
                Shift::Moved(start, end) => Some(before.push(Range { start: start as u64, end: end as u64 })),
                Shift::Dropped => Some(before),
                Shift::Broken => None,
            },
        }
    }
}

impl<R: RemoveRanges> RemoveRangesReducer<R> {
    /// The initial state for a seed: the distinct ranges that `R` finds in
    /// it, in the order `R::Order`, with a window spanning all of them. With no
    /// ranges, there is no valid state.
    pub fn new(seed: &[u8]) -> (r: Self)
        ensures
            strictly_sorted(r.ranges@, order::<R::Order>()),
            all_nonempty(r.ranges@),
            r.chunk_size == r.ranges.len(),
            r.index == 0,
            r.ranges.len() > 0 ==> r.valid(),
    {
        let initial = Initial::<R>::new(seed);
        RemoveRangesReducer {
            remove_ranges: PhantomData,
            ranges: initial.ranges,
            chunk_size: initial.chunk_size,
            index: initial.index,
        }
    }

    /// Generate the reduction of the current window: the seed without every
    /// byte of the window's ranges, the rest kept in order. Every range of the
    /// window must end within the seed.
    pub fn reduce(&self, seed: &[u8]) -> (out: Vec<u8>)
        requires
            self.valid(),
            forall|j: int| self.index <= j < self.index + self.chunk_size ==> #[trigger] self.ranges@[j].end <= seed.len(),
        ensures
            out@ == kept_bytes(seed@, window(self.ranges@, self.index as int, self.chunk_size as int), seed.len() as int),
    {
        let chunk = copy_slice(&self.ranges, self.index, self.index + self.chunk_size);
        proof {
            assert forall|j: int| 0 <= j < chunk.len() implies #[trigger] chunk@[j].start < seed.len()
                && chunk@[j].end <= seed.len() && chunk@[j].start < chunk@[j].end by {
                assert(chunk@[j] == self.ranges@[self.index + j]);
                assert(nonempty(self.ranges@[self.index + j]));
            }
        }
        remove_ranges_from(seed, &chunk)
    }
}

/// Shift `r` past the removed ranges, in their order: its new range; `None`
/// inside `Some` when it is dropped; `None` when it breaks the step (see
/// `shift_past`).
fn shift_one(r: &Range<u64>, removed: &Vec<Range<u64>>) -> (out: Option<Option<Range<u64>>>)
    requires
        all_nonempty(removed@),
    ensures
        match shift_past(*r, removed@, 0, 0, 0) {
            Shift::Moved(start, end) => out == Some(Some(Range { start: start as u64, end: end as u64 })),
            Shift::Dropped => out == Some(None::<Range<u64>>),
            Shift::Broken => out is None,
        },
{
    // Bytes removed before the start and the end, capped past any offset.
    let cap: u128 = 0x1_0000_0000_0000_0000;
    let mut ds: u128 = 0;
    let mut de: u128 = 0;
    let ghost mut exact_ds: int = 0;
    let ghost mut exact_de: int = 0;
    let mut i: usize = 0;
    while i < removed.len()
        invariant_except_break
            i <= removed@.len(),
            all_nonempty(removed@),
            cap == 0x1_0000_0000_0000_0000u128,
            shift_past(*r, removed@, 0, 0, 0) == shift_past(*r, removed@, i as int, exact_ds, exact_de),
            0 <= exact_ds <= exact_de,
            ds == (if exact_ds < cap { exact_ds } else { cap as int }),
            de == (if exact_de < cap { exact_de } else { cap as int }),
        ensures
            cap == 0x1_0000_0000_0000_0000u128,
            shift_past(*r, removed@, 0, 0, 0) == shift_past(*r, removed@, removed@.len() as int, exact_ds, exact_de),
            0 <= exact_ds <= exact_de,
            ds == (if exact_ds < cap { exact_ds } else { cap as int }),
            de == (if exact_de < cap { exact_de } else { cap as int }),
        decreases removed.len() - i,
    {
        let s = &removed[i];
        if r.start == s.start && r.end == s.end {
            return None;
        }
        if r.end <= s.start {
            break;
        }
        proof {
            assert(nonempty(removed@[i as int]));
            assert(ds <= cap && de <= cap);
        }
        if s.end <= r.start {
            let len = (s.end - s.start) as u128;
            ds = if ds + len < cap { ds + len } else { cap };
            de = if de + len < cap { de + len } else { cap };
            proof {
                exact_ds = exact_ds + len;
                exact_de = exact_de + len;
            }
        } else if r.start <= s.start && s.end < r.end {
            let len = (s.end - s.start) as u128;
            de = if de + len < cap { de + len } else { cap };
            proof {
                exact_de = exact_de + len;
            }
        } else {
            return Some(None);
        }
        i = i + 1;
    }
    if ds <= r.start as u128 && de <= r.end as u128 && (r.start as u128) - ds < (r.end as u128) - de {
        let start = ((r.start as u128) - ds) as u64;
        let end = ((r.end as u128) - de) as u64;
        Some(Some(Range { start, end }))
    } else {
        None
    }
}

/// A shifted range ends no later than it did before the shift, and is not
/// empty.
proof fn lemma_shift_bounds(r: Range<u64>, removed: Seq<Range<u64>>, i: int, ds: int, de: int)
    requires
        0 <= ds,
        0 <= de,
        all_nonempty(removed),
    ensures
        shift_past(r, removed, i, ds, de) matches Shift::Moved(start, end) ==> 0 <= start < end <= r.end,
    decreases removed.len() - i,
{
    if i < removed.len() && i >= 0 {
        let s = removed[i];
        if r == s {
        } else if r.end <= s.start {
            lemma_shift_bounds(r, removed, removed.len() as int, ds, de);
        } else if s.end <= r.start {
            lemma_shift_bounds(r, removed, i + 1, ds + (s.end - s.start), de + (s.end - s.start));
        } else if r.start <= s.start && s.end < r.end {
            lemma_shift_bounds(r, removed, i + 1, ds, de + (s.end - s.start));
        }
    }
}

/// Once a range breaks the step, shifting more ranges cannot mend it.
proof fn lemma_broken_stays_broken(kept: Seq<Range<u64>>, removed: Seq<Range<u64>>, k: int, n: int)
    requires
        0 < k <= n,
        shift_all(kept, removed, k) is None,
    ensures
        shift_all(kept, removed, n) is None,
    decreases n - k,
{
    if k < n {
        lemma_broken_stays_broken(kept, removed, k + 1, n);
    }
}

impl<R: RemoveRanges> Reducer for RemoveRangesReducer<R> {
    /// The window is not empty and lies within the ranges, which are not
    /// empty.
    open spec fn valid(&self) -> bool {
        &&& 0 < self.chunk_size
        &&& self.index + self.chunk_size <= self.ranges.len()
        &&& all_nonempty(self.ranges@)
    }

    /// Slide the window one range further; when it has reached the last
    /// range, halve the window and start over from the first range. After the
    /// window of a single range has reached the last range, the reductions
    /// are exhausted.
    open spec fn spec_next(self) -> Option<Self> {
        if self.index + self.chunk_size < self.ranges.len() {
            Some(Self { index: (self.index + 1) as usize, ..self })
        } else if self.chunk_size == 1 {
            None
        } else {
            Some(Self { chunk_size: self.chunk_size / 2, index: 0, ..self })
        }
    }

    fn next(self) -> (r: Option<Self>) {
        let ghost expected = self.spec_next();
        let mut s = self;
        s.index = s.index + 1;
        if s.index == s.ranges.len() - (s.chunk_size - 1) {
            if s.chunk_size == 1 {
                None
            } else {
                s.chunk_size = s.chunk_size / 2;
                s.index = 0;
                Some(s)
            }
        } else {
            Some(s)
        }
    }

    /// Advance to the next state, given that removing the current window
    /// produced a new interesting seed.
    ///
    /// The ranges outside the window, sorted by start, are each shifted past
    /// the removed ranges (see `shift_past`); the survivors are sorted in
    /// the order `R::Order`, the window shrinks to fit them, and it restarts from
    /// the first range if it no longer fits at the current index. When no
    /// range survives, or one breaks the step, the reductions are exhausted.
    fn next_on_interesting(self, new_seed_len: u64) -> (r: Option<Self>)
        ensures
            ({
                let idx = self.index as int;
                let cs = self.chunk_size as int;
                let kept = outside_window(self.ranges@, idx, cs).sort_by(start_order());
                match shift_all(kept, window(self.ranges@, idx, cs), kept.len() as int) {
                    Some(shifted) if shifted.len() > 0 => {
                        let new_cs = vstd::math::min(cs, shifted.len() as int);
                        &&& r is Some
                        &&& r->Some_0.ranges@ == shifted.sort_by(order::<R::Order>())
                        &&& r->Some_0.chunk_size == new_cs
                        &&& r->Some_0.index == (if idx >= shifted.len() - (new_cs - 1) {
                            0
                        } else {
                            idx
                        })
                        &&& r->Some_0.valid()
                    },
                    _ => r is None,
                }
            }),
    {
        let removed = copy_slice(&self.ranges, self.index, self.index + self.chunk_size);
        let mut outside = copy_slice(&self.ranges, 0, self.index);
        let mut after = copy_slice(&self.ranges, self.index + self.chunk_size, self.ranges.len());
        outside.append(&mut after);
        proof {
            lemma_orders_total();
            assert(outside@ =~= outside_window(self.ranges@, self.index as int, self.chunk_size as int));
        }
        let kept = sort_by_start(&outside);
        let ghost kk = kept@;
        proof {
            assert(removed@ == window(self.ranges@, self.index as int, self.chunk_size as int));
            assert forall|j: int| 0 <= j < removed@.len() implies nonempty(#[trigger] removed@[j]) by {
                assert(removed@[j] == self.ranges@[self.index + j]);
            }
        }
        let mut shifted: Vec<Range<u64>> = Vec::new();
        let mut k: usize = 0;
        while k < kept.len()
            invariant
                k <= kept.len(),
                kk == kept@,
                kk == outside_window(self.ranges@, self.index as int, self.chunk_size as int).sort_by(start_order()),
                removed@ == window(self.ranges@, self.index as int, self.chunk_size as int),
                all_nonempty(removed@),
                shift_all(kk, removed@, k as int) == Some(shifted@),
                all_nonempty(shifted@),
            decreases kept.len() - k,
        {
            proof {
                lemma_shift_bounds(kk[k as int], removed@, 0, 0, 0);
            }
            match shift_one(&kept[k], &removed) {
                None => {
                    proof {
                        assert(shift_all(kk, removed@, k as int + 1) is None);
                        lemma_broken_stays_broken(kk, removed@, k as int + 1, kk.len() as int);
                    }
                    return None;
                },
                Some(None) => {},
                Some(Some(moved)) => {
                    shifted.push(moved);
                },
            }
            k = k + 1;
        }
        if shifted.len() == 0 {
            return None;
        }
        let new_ranges = sort_ranges::<R::Order>(&shifted);
        proof {
            lemma_order_total::<R::Order>();
            shifted@.lemma_sort_by_ensures(order::<R::Order>());
            broadcast use vstd::seq_lib::group_to_multiset_ensures;
            let nr = new_ranges@;
            assert forall|j: int| 0 <= j < nr.len() implies nonempty(#[trigger] nr[j]) by {
                assert(nr.to_multiset().count(nr[j]) > 0);
                assert(shifted@.to_multiset().count(nr[j]) > 0);
                assert(shifted@.contains(nr[j]));
            }
            assert(nr.len() == shifted@.len()) by {
                assert(nr.to_multiset().len() == shifted@.to_multiset().len());
            }
        }
        let mut s = self;
        s.ranges = new_ranges;
        if s.chunk_size > s.ranges.len() {
            s.chunk_size = s.ranges.len();
        }
        if s.index >= s.ranges.len() - (s.chunk_size - 1) {
            s.index = 0;
        }
        Some(s)
    }
}

/// The state after `k` calls of `next`, or `None` when an earlier call gave
/// `None`.
pub open spec fn script_steps<R: RemoveRanges>(s: RemoveRangesReducer<R>, k: nat) -> Option<RemoveRangesReducer<R>>
    decreases k,
{
    if k == 0 {
        Some(s)
    } else {
        match s.spec_next() {
            None => None,
            Some(t) => script_steps(t, (k - 1) as nat),
        }
    }
}

/// Successive calls of `next` visit exactly the windows of `windows`, with
/// the ranges unchanged, and then give `None`: all the ranges at once, then
/// each half, each quarter, ..., and finally each single range, every
/// window sliding over the ranges in order. Only a single-range window on
/// the last range has no next state.
pub proof fn lemma_script_next_visits_windows<R: RemoveRanges>(s: RemoveRangesReducer<R>, k: nat)
    requires
        s.valid(),
    ensures
        s.spec_next() is None <==> (s.chunk_size == 1 && s.index + 1 == s.ranges.len()),
        ({
            let w = windows(s.ranges.len() as int, s.chunk_size as int, s.index as int);
            &&& k < w.len() ==> (script_steps(s, k) matches Some(t) && t.ranges@ == s.ranges@ && (
                t.chunk_size as int,
                t.index as int,
            ) == w[k as int])
            &&& k >= w.len() ==> script_steps(s, k) is None
        }),
    decreases k,
{
    let n = s.ranges.len() as int;
    let c = s.chunk_size as int;
    let i = s.index as int;
    let w = windows(n, c, i);
    if k > 0 {
        match s.spec_next() {
            None => {
                assert(w =~= seq![(c, i)]);
            },
            Some(t) => {
                lemma_script_next_visits_windows(t, (k - 1) as nat);
                let w2 = windows(n, t.chunk_size as int, t.index as int);
                assert(w =~= seq![(c, i)] + w2);
            },
        }
    }
}

} // verus!

//! A reducer that removes byte ranges of the seed test case: first all of the
//! ranges at once, then half of them at a time, then a quarter at a time, ...,
//! and finally one range at a time.

use crate::script::Reducer;
use crate::range_order::{
    all_nonempty, copy_range, lemma_orders_total, nonempty, order, sort_by_start, sort_ranges,
    sort_ranges_dedup, start_order, strictly_sorted, lemma_order_total, RangeOrder,
};
use std::marker::PhantomData;
use std::ops::Range;
use vstd::prelude::*;
use vstd::relations::*;

verus! {

/// A source of byte ranges of a seed test case to try removing.
///
/// Implementations compute the ranges from the seed's contents, and choose
/// the order in which the ranges are tried. `RemovalOrder` tries the largest
/// ranges first, breaking ties by trying ranges nearer the end of the seed
/// first: it removes the most it can as quickly as possible, and removing
/// from the back first is less likely to break what the front defines.
pub trait RemoveRanges {
    /// The order in which the ranges are tried: `RemovalOrder`, unless the
    /// implementation needs another.
    type Order: RangeOrder;

    /// Generate a set of ranges to try removing from the given seed test case.
    ///
    /// For all ranges, `range.start < range.end` must hold.
    fn remove_ranges(seed: &[u8]) -> (ranges: Vec<Range<u64>>)
        ensures
            all_nonempty(ranges@),
    ;
}

/// The reduction state of a `RemoveRanges` implementation: the distinct
/// ranges in the order `R::Order`, and the window of `chunk_size` consecutive ranges
/// starting at `index` that is removed next.
#[derive(Debug, PartialEq, Eq)]
pub struct RemoveRangesReducer<R> where R: RemoveRanges {
    pub remove_ranges: PhantomData<R>,
    pub ranges: Vec<Range<u64>>,
    pub chunk_size: usize,
    pub index: usize,
}

/// The ranges removed by a window, in their current order.
pub open spec fn window(ranges: Seq<Range<u64>>, index: int, chunk_size: int) -> Seq<
    Range<u64>,
> {
    ranges.subrange(index, index + chunk_size)
}

/// The ranges outside a window, in their current order.
pub open spec fn outside_window(ranges: Seq<Range<u64>>, index: int, chunk_size: int) -> Seq<
    Range<u64>,
> {
    ranges.subrange(0, index) + ranges.subrange(index + chunk_size, ranges.len() as int)
}

/// A copy of a sequence of ranges.
pub fn copy_ranges(v: &Vec<Range<u64>>) -> (c: Vec<Range<u64>>)
    ensures
        c@ == v@,
{
    let mut c: Vec<Range<u64>> = Vec::new();
    let mut i: usize = 0;
    while i < v.len()
        invariant
            i <= v.len(),
            c@ == v@.take(i as int),
        decreases v.len() - i,
    {
        c.push(copy_range(&v[i]));
        proof {
            assert(v@.take(i + 1) =~= v@.take(i as int).push(v@[i as int]));
        }
        i = i + 1;
    }
    proof {
        assert(v@.take(v.len() as int) =~= v@);
    }
    c
}

/// A copy of the ranges `v[a..b]`.
pub fn copy_slice(v: &Vec<Range<u64>>, a: usize, b: usize) -> (c: Vec<Range<u64>>)
    requires
        a <= b <= v.len(),
    ensures
        c@ == v@.subrange(a as int, b as int),
{
    let mut c: Vec<Range<u64>> = Vec::new();
    let mut i = a;
    while i < b
        invariant
            a <= i <= b,
            b <= v.len(),
            c@ == v@.subrange(a as int, i as int),
        decreases b - i,
    {
        c.push(copy_range(&v[i]));
        proof {
            assert(v@.subrange(a as int, i + 1) =~= v@.subrange(a as int, i as int).push(
                v@[i as int],
            ));
        }
        i = i + 1;
    }
    c
}

impl<R: RemoveRanges> Clone for RemoveRangesReducer<R> {
    fn clone(&self) -> (c: Self)
        ensures
            c.ranges@ == self.ranges@,
            c.chunk_size == self.chunk_size,
            c.index == self.index,
    {
        RemoveRangesReducer {
            remove_ranges: PhantomData,
            ranges: copy_ranges(&self.ranges),
            chunk_size: self.chunk_size,
            index: self.index,
        }
    }
}

impl<R: RemoveRanges> RemoveRangesReducer<R> {
    /// The state is consistent: the window lies within the ranges, it is
    /// empty only when there are no ranges, and every range is non-empty.
    pub open spec fn wf(&self) -> bool {
        &&& self.index + self.chunk_size <= self.ranges.len()
        &&& (self.chunk_size == 0 <==> self.ranges.len() == 0)
        &&& all_nonempty(self.ranges@)
    }

    /// The initial state for a seed: the distinct ranges that `R` finds in
    /// it, in the order `R::Order`, with a window spanning all of them.
    pub fn new(seed: &[u8]) -> (r: Self)
        ensures
            r.wf(),
            strictly_sorted(r.ranges@, order::<R::Order>()),
            r.chunk_size == r.ranges.len(),
            r.index == 0,
    {
        let found = R::remove_ranges(seed);
        Self::from_ranges(found)
    }

    /// The initial state for the given ranges: the distinct ranges in the
    /// order `R::Order`, with a window spanning all of them.
    pub fn from_ranges(found: Vec<Range<u64>>) -> (r: Self)
        requires
            all_nonempty(found@),
        ensures
            r.wf(),
            strictly_sorted(r.ranges@, order::<R::Order>()),
            forall|x: Range<u64>| r.ranges@.contains(x) <==> found@.contains(x),
            r.chunk_size == r.ranges.len(),
            r.index == 0,
    {
        let ranges = sort_ranges_dedup::<R::Order>(&found);
        proof {
            assert forall|i: int| 0 <= i < ranges.len() implies nonempty(#[trigger] ranges@[i]) by {
                assert(ranges@.contains(ranges@[i]));
                let j = choose|j: int| 0 <= j < found.len() && found@[j] == ranges@[i];
            }
        }
        let chunk_size = ranges.len();
        RemoveRangesReducer { remove_ranges: PhantomData, ranges, chunk_size, index: 0 }
    }

    /// The ranges in the current window.
    fn get_ranges_in_chunk(&self) -> (chunk: Vec<Range<u64>>)
        requires
            self.wf(),
        ensures
            chunk@ == window(self.ranges@, self.index as int, self.chunk_size as int),
    {
        copy_slice(&self.ranges, self.index, self.index + self.chunk_size)
    }
}


/// The removed ranges, sorted by start, merged the way the reducer merges
/// them: a range that starts at or before the end of the last merged range
/// replaces that merged range's end with its own end; any other range starts
/// a new merged range.
pub open spec fn merge_sorted(s: Seq<Range<u64>>) -> Seq<Range<u64>>
    decreases s.len(),
{
    if s.len() == 0 {
        Seq::empty()
    } else {
        let rs = merge_sorted(s.drop_last());
        let r = s.last();
        if rs.len() > 0 && r.start <= rs.last().end {
            rs.update(rs.len() - 1, Range { start: rs.last().start, end: r.end })
        } else {
            rs.push(r)
        }
    }
}

/// Non-empty ranges in increasing order, each ending strictly before the
/// next one starts.
pub open spec fn gap_sorted(ms: Seq<Range<u64>>) -> bool {
    &&& all_nonempty(ms)
    &&& forall|i: int, j: int| #![trigger ms[i], ms[j]] 0 <= i < j < ms.len() ==> ms[i].end < ms[j].start
}

/// The number of bytes of the ranges `ms` that lie before offset `x`.
pub open spec fn removed_before(ms: Seq<Range<u64>>, x: int) -> int
    decreases ms.len(),
{
    if ms.len() == 0 {
        0
    } else {
        removed_before(ms.drop_last(), x) + vstd::math::max(
            0,
            vstd::math::min(x, ms.last().end as int) - ms.last().start,
        )
    }
}

/// Where a range that was not removed lands in the new seed, of length
/// `new_seed_len`, once the bytes of the merged removed ranges are gone:
/// each end moves back by the number of removed bytes before it. Ranges
/// reaching the end of the new seed, and ranges that become empty, are
/// dropped.
pub open spec fn shift_range(r: Range<u64>, merged: Seq<Range<u64>>, new_seed_len: u64) -> Option<
    Range<u64>,
> {
    if r.start >= new_seed_len || r.end >= new_seed_len {
        None
    } else {
        let new_start = r.start - removed_before(merged, r.start as int);
        let new_end = r.end - removed_before(merged, r.end as int);
        if new_start < new_end && new_end <= new_seed_len {
            Some(Range { start: new_start as u64, end: new_end as u64 })
        } else {
            None
        }
    }
}

/// The ranges outside the window of `ranges`, shifted into the new seed.
pub open spec fn shifted_outside(
    ranges: Seq<Range<u64>>,
    index: int,
    chunk_size: int,
    new_seed_len: u64,
) -> Seq<Range<u64>> {
    let merged = merge_sorted(window(ranges, index, chunk_size).sort_by(start_order()));
    outside_window(ranges, index, chunk_size).filter_map(
        |r: Range<u64>| shift_range(r, merged, new_seed_len),
    )
}

proof fn lemma_merge_sorted(s: Seq<Range<u64>>)
    requires
        sorted_by(s, start_order()),
        all_nonempty(s),
    ensures
        gap_sorted(merge_sorted(s)),
        s.len() > 0 ==> merge_sorted(s).len() > 0 && merge_sorted(s).last().start <= s.last().start,
    decreases s.len(),
{
    if s.len() > 0 {
        let sp = s.drop_last();
        assert(sorted_by(sp, start_order()));
        assert(all_nonempty(sp));
        lemma_merge_sorted(sp);
        let rs = merge_sorted(sp);
        let r = s.last();
        assert(nonempty(r));
        if sp.len() > 0 {
            assert(start_order()(s[sp.len() - 1], s[s.len() - 1]));
        }
        let m = merge_sorted(s);
        if rs.len() > 0 && r.start <= rs.last().end {
            assert forall|i: int, j: int| #![trigger m[i], m[j]] 0 <= i < j < m.len() implies m[i].end
                < m[j].start by {
                if j == m.len() - 1 {
                    assert(rs[i].end < rs[j].start);
                }
            }
        } else {
            assert forall|i: int, j: int| #![trigger m[i], m[j]] 0 <= i < j < m.len() implies m[i].end
                < m[j].start by {
                if j == m.len() - 1 && i < j - 1 {
                    assert(rs[i].end < rs[j - 1].start);
                    assert(nonempty(rs[j - 1]));
                }
            }
        }
    }
}

proof fn lemma_removed_before_bounds(ms: Seq<Range<u64>>, x: int, y: int)
    requires
        gap_sorted(ms),
        x <= y,
    ensures
        removed_before(ms, x) <= removed_before(ms, y),
        ms.len() > 0 ==> removed_before(ms, y) - removed_before(ms, x) <= vstd::math::max(
            0,
            vstd::math::min(y, ms.last().end as int) - x,
        ),
        removed_before(ms, y) - removed_before(ms, x) <= y - x,
    decreases ms.len(),
{
    if ms.len() > 0 {
        let mp = ms.drop_last();
        assert(gap_sorted(mp)) by {
            assert forall|i: int, j: int| #![trigger mp[i], mp[j]] 0 <= i < j < mp.len() implies mp[i].end
                < mp[j].start by {
                assert(ms[i].end < ms[j].start);
            }
        }
        lemma_removed_before_bounds(mp, x, y);
        let s = ms.last();
        assert(nonempty(s));
        if mp.len() > 0 {
            assert(mp.last().end < s.start) by {
                assert(ms[mp.len() - 1].end < ms[ms.len() - 1].start);
            }
        }
    }
}

proof fn lemma_removed_before_at_zero(ms: Seq<Range<u64>>)
    ensures
        removed_before(ms, 0) == 0,
    decreases ms.len(),
{
    if ms.len() > 0 {
        lemma_removed_before_at_zero(ms.drop_last());
    }
}

proof fn lemma_removed_before_prefix(ms: Seq<Range<u64>>, k: int, x: int)
    requires
        gap_sorted(ms),
        0 <= k < ms.len(),
        ms[k].start >= x,
    ensures
        removed_before(ms, x) == removed_before(ms.subrange(0, k), x),
    decreases ms.len() - k,
{
    if k == ms.len() - 1 {
        assert(ms.drop_last() =~= ms.subrange(0, k));
    } else {
        let mp = ms.drop_last();
        assert(gap_sorted(mp)) by {
            assert forall|i: int, j: int| #![trigger mp[i], mp[j]] 0 <= i < j < mp.len() implies mp[i].end
                < mp[j].start by {
                assert(ms[i].end < ms[j].start);
            }
        }
        assert(mp[k] == ms[k]);
        lemma_removed_before_prefix(mp, k, x);
        assert(mp.subrange(0, k) =~= ms.subrange(0, k));
        assert(ms[k].end < ms.last().start) by {
            assert(ms[k].end < ms[ms.len() - 1].start);
        }
    }
}

/// The number of bytes of the gap-sorted ranges `merged` that lie before `x`.
fn count_removed_before(merged: &Vec<Range<u64>>, x: u64) -> (n: u64)
    requires
        gap_sorted(merged@),
    ensures
        n == removed_before(merged@, x as int),
{
    let mut acc: u64 = 0;
    let mut k: usize = 0;
    while k < merged.len()
        invariant
            k <= merged.len(),
            gap_sorted(merged@),
            acc == removed_before(merged@.subrange(0, k as int), x as int),
        decreases merged.len() - k,
    {
        let s = &merged[k];
        if s.start >= x {
            proof {
                lemma_removed_before_prefix(merged@, k as int, x as int);
            }
            return acc;
        }
        let ghost sub = merged@.subrange(0, k as int + 1);
        proof {
            assert(sub.drop_last() =~= merged@.subrange(0, k as int));
            assert(gap_sorted(sub)) by {
                assert forall|i: int, j: int| #![trigger sub[i], sub[j]] 0 <= i < j < sub.len() implies sub[i].end
                    < sub[j].start by {
                    assert(merged@[i].end < merged@[j].start);
                }
            }
            lemma_removed_before_bounds(sub, 0, x as int);
            lemma_removed_before_at_zero(sub);
            assert(nonempty(merged@[k as int]));
        }
        let s_len = s.end - s.start;
        let d = x - s.start;
        if d < s_len {
            acc = acc + d;
        } else {
            acc = acc + s_len;
        }
        k = k + 1;
    }
    proof {
        assert(merged@.subrange(0, merged.len() as int) =~= merged@);
    }
    acc
}

/// Merge the ranges of `sorted`, sorted by start, the way the reducer merges
/// removed ranges.
fn merge_removed(sorted: &Vec<Range<u64>>) -> (merged: Vec<Range<u64>>)
    requires
        sorted_by(sorted@, start_order()),
        all_nonempty(sorted@),
    ensures
        merged@ == merge_sorted(sorted@),
{
    let mut merged: Vec<Range<u64>> = Vec::new();
    let mut k: usize = 0;
    proof {
        assert(sorted@.subrange(0, 0) =~= Seq::<Range<u64>>::empty());
    }
    while k < sorted.len()
        invariant
            k <= sorted.len(),
            merged@ == merge_sorted(sorted@.subrange(0, k as int)),
        decreases sorted.len() - k,
    {
        let r = &sorted[k];
        proof {
            assert(sorted@.subrange(0, k as int + 1).drop_last() =~= sorted@.subrange(0, k as int));
            assert(sorted@.subrange(0, k as int + 1).last() == sorted@[k as int]);
        }
        let n = merged.len();
        if n > 0 && r.start <= merged[n - 1].end {
            let last_start = merged[n - 1].start;
            merged.set(n - 1, Range { start: last_start, end: r.end });
        } else {
            merged.push(copy_range(r));
        }
        k = k + 1;
    }
    proof {
        assert(sorted@.subrange(0, sorted.len() as int) =~= sorted@);
    }
    merged
}

/// What `next_on_interesting` gives for the state `s` and a new seed of
/// `new_seed_len` bytes: the ranges outside the window, shifted past the
/// removed bytes (see `shifted_outside`), in the order `R::Order`, with the window
/// shrunk to fit them and restarted when it no longer fits; `None` when no
/// range survives.
pub open spec fn next_on_interesting_result<R: RemoveRanges>(
    s: RemoveRangesReducer<R>,
    new_seed_len: u64,
    r: Option<RemoveRangesReducer<R>>,
) -> bool {
    ({
        let n = s.ranges.len() as int;
        let cs = s.chunk_size as int;
        let idx = s.index as int;
        let shifted = shifted_outside(s.ranges@, idx, cs, new_seed_len);
        if cs == 0 || outside_window(s.ranges@, idx, cs).len() == 0 || shifted.len()
            == 0 {
            r is None
        } else {
            let new_cs = vstd::math::min(cs, shifted.len() as int);
            &&& r is Some
            &&& r->Some_0.ranges@ == shifted.sort_by(order::<R::Order>())
            &&& r->Some_0.chunk_size == new_cs
            &&& r->Some_0.index == (if idx >= shifted.len() - (new_cs - 1) {
                0
            } else {
                idx
            })
            &&& r->Some_0.wf()
        }
    })
}

impl<R: RemoveRanges> Reducer for RemoveRangesReducer<R> {
    open spec fn valid(&self) -> bool {
        self.wf()
    }

    /// Slide the window one range further; when it has reached the last
    /// range, halve the window and start over from the first range. After the
    /// window of a single range has reached the last range, the reductions
    /// are exhausted.
    open spec fn spec_next(self) -> Option<Self> {
        if self.chunk_size == 0 {
            None
        } else if self.index + self.chunk_size < self.ranges.len() {
            Some(Self { index: (self.index + 1) as usize, ..self })
        } else if self.chunk_size == 1 {
            None
        } else {
            Some(Self { chunk_size: self.chunk_size / 2, index: 0, ..self })
        }
    }

    fn next(self) -> (r: Option<Self>) {
        let ghost expected = self.spec_next();
        let mut s = self;
        if s.chunk_size == 0 {
            return None;
        }
        s.index = s.index + 1;
        if s.index == s.ranges.len() - (s.chunk_size - 1) {
            if s.chunk_size == 1 {
                None
            } else {
                s.chunk_size = s.chunk_size / 2;
                s.index = 0;
                Some(s)
            }
        } else {
            Some(s)
        }
    }

    /// Advance to the next state, given that removing the current window
    /// produced a new interesting seed of `new_seed_len` bytes.
    ///
    /// The removed ranges are merged, and every range outside the window is
    /// shifted back by the number of removed bytes before each of its ends;
    /// ranges that reach the end of the new seed or become empty are dropped.
    /// The survivors are sorted in the order `R::Order`, the window shrinks to fit
    /// them, and it restarts from the first range if it no longer fits at
    /// the current index. When no range survives, the reductions are
    /// exhausted.
    fn next_on_interesting(self, new_seed_len: u64) -> (r: Option<Self>)
        ensures
            next_on_interesting_result(self, new_seed_len, r),
    {
        let ghost n = self.ranges.len() as int;
        let ghost cs = self.chunk_size as int;
        let ghost idx = self.index as int;
        if self.chunk_size == 0 {
            return None;
        }
        let removed = self.get_ranges_in_chunk();
        let mut kept = copy_slice(&self.ranges, 0, self.index);
        let mut after = copy_slice(&self.ranges, self.index + self.chunk_size, self.ranges.len());
        kept.append(&mut after);
        if kept.len() == 0 {
            return None;
        }
        let ghost win = window(self.ranges@, idx, cs);
        proof {
            lemma_orders_total();
            win.lemma_sort_by_ensures(start_order());
            assert(all_nonempty(win));
            assert forall|j: int| 0 <= j < win.len() implies (#[trigger] win[j]).start
                <= win[j].end by {
                assert(nonempty(win[j]));
            }
        }
        let sorted_removed = sort_by_start(&removed);
        proof {
            broadcast use vstd::seq_lib::group_to_multiset_ensures;
            let sr = sorted_removed@;
            assert forall|j: int| 0 <= j < sr.len() implies nonempty(#[trigger] sr[j]) by {
                assert(sr.to_multiset().count(sr[j]) > 0);
                assert(win.to_multiset().count(sr[j]) > 0);
                assert(win.contains(sr[j]));
            }
        }
        let merged = merge_removed(&sorted_removed);
        proof {
            lemma_merge_sorted(sorted_removed@);
        }
        let ghost f = |r: Range<u64>| shift_range(r, merged@, new_seed_len);
        let mut shifted: Vec<Range<u64>> = Vec::new();
        let mut k: usize = 0;
        while k < kept.len()
            invariant
                k <= kept.len(),
                gap_sorted(merged@),
                f == (|r: Range<u64>| shift_range(r, merged@, new_seed_len)),
                all_nonempty(kept@),
                shifted@ == kept@.take(k as int).filter_map(f),
                all_nonempty(shifted@),
            decreases kept.len() - k,
        {
            let r = &kept[k];
            proof {
                assert(kept@.take(k as int + 1).drop_last() =~= kept@.take(k as int));
                assert(kept@.take(k as int + 1).last() == kept@[k as int]);
                assert(nonempty(kept@[k as int]));
            }
            if r.start < new_seed_len && r.end < new_seed_len {
                let delta_start = count_removed_before(&merged, r.start);
                let delta_end = count_removed_before(&merged, r.end);
                proof {
                    lemma_removed_before_bounds(merged@, 0, r.start as int);
                    lemma_removed_before_bounds(merged@, r.start as int, r.end as int);
                    lemma_removed_before_at_zero(merged@);
                }
                let new_start = r.start - delta_start;
                let new_end = r.end - delta_end;
                if new_start < new_end && new_end <= new_seed_len {
                    shifted.push(Range { start: new_start, end: new_end });
                }
            }
            k = k + 1;
        }
        proof {
            assert(kept@.take(kept.len() as int) =~= kept@);
            assert(shifted@ == shifted_outside(self.ranges@, idx, cs, new_seed_len));
        }
        if shifted.len() == 0 {
            return None;
        }
        let new_ranges = sort_ranges::<R::Order>(&shifted);
        proof {
            lemma_order_total::<R::Order>();
            shifted@.lemma_sort_by_ensures(order::<R::Order>());
            broadcast use vstd::seq_lib::group_to_multiset_ensures;
            let nr = new_ranges@;
            assert forall|j: int| 0 <= j < nr.len() implies nonempty(#[trigger] nr[j]) by {
                assert(nr.to_multiset().count(nr[j]) > 0);
                assert(shifted@.to_multiset().count(nr[j]) > 0);
                assert(shifted@.contains(nr[j]));
            }
            assert(nr.len() == shifted@.len()) by {
                assert(nr.to_multiset().len() == shifted@.to_multiset().len());
            }
        }
        let mut s = self;
        s.ranges = new_ranges;
        if s.chunk_size > s.ranges.len() {
            s.chunk_size = s.ranges.len();
        }
        if s.index >= s.ranges.len() - (s.chunk_size - 1) {
            s.index = 0;
        }
        Some(s)
    }
}


/// Some range of `rs` contains the byte offset `i`.
pub open spec fn covered(rs: Seq<Range<u64>>, i: int) -> bool {
    exists|j: int| 0 <= j < rs.len() && #[trigger] rs[j].start <= i && i < rs[j].end
}

/// The bytes of `seed` before offset `p` that no range of `rs` contains, in
/// order.
pub open spec fn kept_bytes(seed: Seq<u8>, rs: Seq<Range<u64>>, p: int) -> Seq<u8>
    decreases p,
{
    if p <= 0 {
        Seq::empty()
    } else if covered(rs, p - 1) {
        kept_bytes(seed, rs, p - 1)
    } else {
        kept_bytes(seed, rs, p - 1).push(seed[p - 1])
    }
}

proof fn lemma_kept_uncovered(seed: Seq<u8>, rs: Seq<Range<u64>>, a: int, b: int)
    requires
        0 <= a <= b <= seed.len(),
        forall|i: int| a <= i < b ==> !covered(rs, i),
    ensures
        kept_bytes(seed, rs, b) == kept_bytes(seed, rs, a) + seed.subrange(a, b),
    decreases b - a,
{
    if b > a {
        lemma_kept_uncovered(seed, rs, a, b - 1);
        assert(seed.subrange(a, b) =~= seed.subrange(a, b - 1).push(seed[b - 1]));
    } else {
        assert(seed.subrange(a, b) =~= Seq::<u8>::empty());
    }
}

proof fn lemma_kept_covered(seed: Seq<u8>, rs: Seq<Range<u64>>, a: int, b: int)
    requires
        0 <= a <= b,
        forall|i: int| a <= i < b ==> covered(rs, i),
    ensures
        kept_bytes(seed, rs, b) == kept_bytes(seed, rs, a),
    decreases b - a,
{
    if b > a {
        lemma_kept_covered(seed, rs, a, b - 1);
    }
}

/// Append the bytes `seed[a..b]` to `out`.
pub fn copy_bytes(out: &mut Vec<u8>, seed: &[u8], a: u64, b: u64)
    requires
        a <= b <= seed.len(),
    ensures
        final(out)@ == old(out)@ + seed@.subrange(a as int, b as int),
{
    let mut i = a as usize;
    while i < b as usize
        invariant
            a <= i <= b,
            b <= seed.len(),
            out@ == old(out)@ + seed@.subrange(a as int, i as int),
        decreases b - i,
    {
        out.push(seed[i]);
        proof {
            assert(seed@.subrange(a as int, i + 1) =~= seed@.subrange(a as int, i as int).push(
                seed@[i as int],
            ));
        }
        i = i + 1;
    }
    proof {
        assert(out@ =~= old(out)@ + seed@.subrange(a as int, b as int));
    }
}

/// The bytes of `seed` left once the ranges `rs` are cut out of it. Every
/// range must lie within the seed.
pub fn remove_ranges_from(seed: &[u8], rs: &Vec<Range<u64>>) -> (out: Vec<u8>)
    requires
        forall|j: int|
            #![trigger rs@[j]]
            0 <= j < rs.len() ==> rs@[j].start < seed.len() && rs@[j].end <= seed.len() && rs@[j].start
                < rs@[j].end,
    ensures
        out@ == kept_bytes(seed@, rs@, seed.len() as int),
{
    proof {
        lemma_orders_total();
        rs@.lemma_sort_by_ensures(start_order());
    }
    let sorted = sort_by_start(rs);
    let ghost c = sorted@;
    proof {
        broadcast use vstd::seq_lib::group_to_multiset_ensures;

        assert forall|j: int| 0 <= j < c.len() implies #[trigger] c[j].end <= seed.len() && c[j].start
            < c[j].end by {
            assert(c.to_multiset().count(c[j]) > 0);
            assert(rs@.to_multiset().count(c[j]) > 0);
            assert(rs@.contains(c[j]));
            let k = choose|k: int| 0 <= k < rs.len() && rs@[k] == c[j];
            assert(rs@[k].end <= seed@.len());
        }
        assert forall|i: int| covered(c, i) <==> covered(rs@, i) by {
            if covered(c, i) {
                let j = choose|j: int| 0 <= j < c.len() && #[trigger] c[j].start <= i && i < c[j].end;
                assert(c.to_multiset().count(c[j]) > 0);
                assert(rs@.to_multiset().count(c[j]) > 0);
                assert(rs@.contains(c[j]));
                let k = choose|k: int| 0 <= k < rs.len() && rs@[k] == c[j];
                assert(rs@[k].start <= i && i < rs@[k].end);
            }
            if covered(rs@, i) {
                let j = choose|j: int| 0 <= j < rs.len() && #[trigger] rs@[j].start <= i && i < rs@[j].end;
                assert(rs@.to_multiset().count(rs@[j]) > 0);
                assert(c.to_multiset().count(rs@[j]) > 0);
                assert(c.contains(rs@[j]));
                let k = choose|k: int| 0 <= k < c.len() && c[k] == rs@[j];
                assert(c[k].start <= i && i < c[k].end);
            }
        }
        assert forall|p: int| kept_bytes(seed@, c, p) == kept_bytes(seed@, rs@, p) by {
            lemma_kept_same_cover(seed@, c, rs@, p);
        }
    }
    let mut out: Vec<u8> = Vec::new();
    let mut offset: u64 = 0;
    let mut k: usize = 0;
    while k < sorted.len()
        invariant
            k <= sorted.len(),
            c == sorted@,
            sorted_by(c, start_order()),
            forall|j: int| 0 <= j < c.len() ==> #[trigger] c[j].end <= seed.len() && c[j].start < c[j].end,
            offset <= seed.len(),
            forall|j: int| 0 <= j < k ==> #[trigger] c[j].end <= offset,
            out@ == kept_bytes(seed@, c, offset as int),
        decreases sorted.len() - k,
    {
        let r = &sorted[k];
        if offset < r.start {
            proof {
                assert forall|i: int| offset <= i < r.start implies !covered(c, i) by {
                    if covered(c, i) {
                        let j = choose|j: int| 0 <= j < c.len() && #[trigger] c[j].start <= i && i < c[j].end;
                        if j < k {
                        } else if j > k {
                            assert(start_order()(c[k as int], c[j]));
                        }
                    }
                }
                lemma_kept_uncovered(seed@, c, offset as int, r.start as int);
                assert forall|i: int| r.start <= i < r.end implies covered(c, i) by {
                    assert(c[k as int].start <= i && i < c[k as int].end);
                }
                lemma_kept_covered(seed@, c, r.start as int, r.end as int);
            }
            copy_bytes(&mut out, seed, offset, r.start);
            offset = r.end;
        } else if offset < r.end {
            proof {
                assert forall|i: int| offset <= i < r.end implies covered(c, i) by {
                    assert(c[k as int].start <= i && i < c[k as int].end);
                }
                lemma_kept_covered(seed@, c, offset as int, r.end as int);
            }
            offset = r.end;
        }
        k = k + 1;
    }
    proof {
        assert forall|i: int| offset <= i < seed.len() implies !covered(c, i) by {
            if covered(c, i) {
                let j = choose|j: int| 0 <= j < c.len() && #[trigger] c[j].start <= i && i < c[j].end;
            }
        }
        lemma_kept_uncovered(seed@, c, offset as int, seed.len() as int);
    }
    copy_bytes(&mut out, seed, offset, seed.len() as u64);
    out
}

proof fn lemma_kept_same_cover(seed: Seq<u8>, a: Seq<Range<u64>>, b: Seq<Range<u64>>, p: int)
    requires
        forall|i: int| covered(a, i) <==> covered(b, i),
    ensures
        kept_bytes(seed, a, p) == kept_bytes(seed, b, p),
    decreases p,
{
    if p > 0 {
        lemma_kept_same_cover(seed, a, b, p - 1);
    }
}

impl<R: RemoveRanges> RemoveRangesReducer<R> {
    /// Generate the reduction of the current window: the seed without the
    /// bytes of the ranges in the window. There is none when there are no
    /// ranges. Every range of the window must lie within the seed.
    pub fn reduce(&self, seed: &[u8]) -> (r: Option<Vec<u8>>)
        requires
            self.wf(),
            forall|j: int|
                self.index <= j < self.index + self.chunk_size ==> #[trigger] self.ranges@[j].start
                    < seed.len() && self.ranges@[j].end <= seed.len(),
        ensures
            self.chunk_size == 0 <==> r is None,
            r matches Some(out) ==> out@ == kept_bytes(
                seed@,
                window(self.ranges@, self.index as int, self.chunk_size as int),
                seed.len() as int,
            ),
    {
        if self.chunk_size == 0 {
            return None;
        }
        let chunk = self.get_ranges_in_chunk();
        proof {
            assert forall|j: int| 0 <= j < chunk.len() implies #[trigger] chunk@[j].start < seed.len()
                && chunk@[j].end <= seed.len() && chunk@[j].start < chunk@[j].end by {
                assert(chunk@[j] == self.ranges@[self.index + j]);
                assert(nonempty(self.ranges@[self.index + j]));
            }
        }
        Some(remove_ranges_from(seed, &chunk))
    }
}

/// The windows `(chunk_size, index)` visited from the window `(c, i)` over
/// `n` ranges: the window slides one range at a time to the last range, then
/// halves and starts over from the first range, until a single range has
/// slid to the last one.
pub open spec fn windows(n: int, c: int, i: int) -> Seq<(int, int)>
    decreases c, n - i,
{
    if c <= 0 || i < 0 || i + c > n {
        Seq::empty()
    } else if i + c < n {
        seq![(c, i)] + windows(n, c, i + 1)
    } else if c == 1 {
        seq![(c, i)]
    } else {
        seq![(c, i)] + windows(n, c / 2, 0)
    }
}

/// The state after `k` calls of `next`, or `None` when an earlier call gave
/// `None`.
pub open spec fn steps<R: RemoveRanges>(s: RemoveRangesReducer<R>, k: nat) -> Option<RemoveRangesReducer<R>>
    decreases k,
{
    if k == 0 {
        Some(s)
    } else {
        match s.spec_next() {
            None => None,
            Some(t) => steps(t, (k - 1) as nat),
        }
    }
}

/// Successive calls of `next` visit exactly the windows of `windows`, with
/// the ranges unchanged, and then give `None`: from the initial state over
/// `n` ranges, all of them at once, then each half, each quarter, ..., and
/// finally each single range, every window sliding over the ranges in
/// order.
pub proof fn lemma_next_visits_windows<R: RemoveRanges>(s: RemoveRangesReducer<R>, k: nat)
    requires
        s.wf(),
        s.chunk_size > 0,
    ensures
        ({
            let w = windows(s.ranges.len() as int, s.chunk_size as int, s.index as int);
            &&& k < w.len() ==> (steps(s, k) matches Some(t) && t.ranges@ == s.ranges@ && (
                t.chunk_size as int,
                t.index as int,
            ) == w[k as int])
            &&& k >= w.len() ==> steps(s, k) is None
        }),
    decreases k,
{
    let n = s.ranges.len() as int;
    let c = s.chunk_size as int;
    let i = s.index as int;
    let w = windows(n, c, i);
    if k > 0 {
        match s.spec_next() {
            None => {
                assert(c == 1 && i + c == n);
                assert(w =~= seq![(c, i)]);
            },
            Some(t) => {
                lemma_next_visits_windows(t, (k - 1) as nat);
                let w2 = windows(n, t.chunk_size as int, t.index as int);
                assert(w =~= seq![(c, i)] + w2);
            },
        }
    }
}

} // verus!

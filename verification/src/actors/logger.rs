//! The tally that the logger keeps of how each reducer's reductions were
//! judged, and the report it makes of that tally when the search is over.

use crate::actors::supervisor::str_equal;
use vstd::prelude::*;
use vstd::utf8::{encode_utf8, encode_utf8_decode_utf8};

verus! {

/// How many of one reducer's reductions were judged the new smallest
/// interesting test case, interesting but not the smallest, and not
/// interesting.
#[derive(Debug)]
pub struct ReducerTally {
    pub reducer: String,
    pub smallest: u64,
    pub not_smallest: u64,
    pub not_interesting: u64,
}

/// The three counts of a reducer's tally.
pub open spec fn counts(t: ReducerTally) -> (u64, u64, u64) {
    (t.smallest, t.not_smallest, t.not_interesting)
}

/// How a reduction was judged.
#[derive(Clone, Copy, Debug, PartialEq, Eq)]
pub enum Judgment {
    /// It is the new smallest interesting test case.
    Smallest,
    /// It is interesting, but not the smallest.
    NotSmallest,
    /// It is not interesting.
    NotInteresting,
}

/// One more, unless the count is at the machine's limit.
pub open spec fn one_more(x: u64) -> u64 {
    if x < u64::MAX {
        (x + 1) as u64
    } else {
        x
    }
}

/// The counts after one more reduction judged `j`.
pub open spec fn bumped(c: (u64, u64, u64), j: Judgment) -> (u64, u64, u64) {
    match j {
        Judgment::Smallest => (one_more(c.0), c.1, c.2),
        Judgment::NotSmallest => (c.0, one_more(c.1), c.2),
        Judgment::NotInteresting => (c.0, c.1, one_more(c.2)),
    }
}

/// The counts of a reducer in a tally: none when it has no entry yet.
pub open spec fn counts_in(m: Map<Seq<char>, (u64, u64, u64)>, reducer: Seq<char>) -> (u64, u64, u64) {
    if m.dom().contains(reducer) {
        m[reducer]
    } else {
        (0, 0, 0)
    }
}

/// The counts of each reducer of a sequence of tallies.
pub open spec fn tally_map(s: Seq<ReducerTally>) -> Map<Seq<char>, (u64, u64, u64)>
    decreases s.len(),
{
    if s.len() == 0 {
        Map::empty()
    } else {
        tally_map(s.drop_last()).insert(s.last().reducer@, counts(s.last()))
    }
}

/// No reducer has two tallies.
pub open spec fn distinct_reducers(s: Seq<ReducerTally>) -> bool {
    forall|i: int, j: int| 0 <= i < j < s.len() ==> s[i].reducer@ != s[j].reducer@
}

/// In a sequence of tallies without repeated reducers, the map holds exactly
/// the reducers of the sequence, each with its counts.
pub proof fn lemma_tally_map(s: Seq<ReducerTally>)
    requires
        distinct_reducers(s),
    ensures
        tally_map(s).dom().finite(),
        tally_map(s).dom().len() == s.len(),
        forall|i: int| 0 <= i < s.len() ==> #[trigger] tally_map(s).dom().contains(s[i].reducer@)
            && tally_map(s)[s[i].reducer@] == counts(s[i]),
        forall|r: Seq<char>| #[trigger] tally_map(s).dom().contains(r) ==> exists|i: int|
            0 <= i < s.len() && s[i].reducer@ == r,
    decreases s.len(),
{
    if s.len() > 0 {
        let init = s.drop_last();
        assert(distinct_reducers(init));
        lemma_tally_map(init);
        assert(!tally_map(init).dom().contains(s.last().reducer@)) by {
            if tally_map(init).dom().contains(s.last().reducer@) {
                let i = choose|i: int| 0 <= i < init.len() && init[i].reducer@ == s.last().reducer@;
                assert(s[i].reducer@ == s[s.len() - 1].reducer@);
            }
        }
        assert forall|i: int| 0 <= i < s.len() implies #[trigger] tally_map(s).dom().contains(
            s[i].reducer@,
        ) && tally_map(s)[s[i].reducer@] == counts(s[i]) by {
            if i < s.len() - 1 {
                assert(s[i] == init[i]);
                assert(s[i].reducer@ != s[s.len() - 1].reducer@);
            }
        }
        assert forall|r: Seq<char>| #[trigger] tally_map(s).dom().contains(r) implies exists|i: int|
            0 <= i < s.len() && s[i].reducer@ == r by {
            if r != s.last().reducer@ {
                assert(tally_map(init).dom().contains(r));
                let i = choose|i: int| 0 <= i < init.len() && init[i].reducer@ == r;
                assert(s[i] == init[i]);
            } else {
                assert(s[s.len() - 1].reducer@ == r);
            }
        }
    }
}

/// Replacing the tally of a reducer by another of the same reducer replaces
/// its counts in the map.
proof fn lemma_tally_map_update(s: Seq<ReducerTally>, i: int, t: ReducerTally)
    requires
        distinct_reducers(s),
        0 <= i < s.len(),
        t.reducer@ == s[i].reducer@,
    ensures
        distinct_reducers(s.update(i, t)),
        tally_map(s.update(i, t)) == tally_map(s).insert(t.reducer@, counts(t)),
{
    let u = s.update(i, t);
    assert(distinct_reducers(u)) by {
        assert forall|a: int, b: int| 0 <= a < b < u.len() implies u[a].reducer@ != u[b].reducer@ by {
            assert(u[a].reducer@ == s[a].reducer@ && u[b].reducer@ == s[b].reducer@);
        }
    }
    lemma_tally_map(s);
    lemma_tally_map(u);
    let m = tally_map(s).insert(t.reducer@, counts(t));
    assert forall|r: Seq<char>| #[trigger] tally_map(u).dom().contains(r) <==> m.dom().contains(r) by {
        if tally_map(u).dom().contains(r) {
            let a = choose|a: int| 0 <= a < u.len() && u[a].reducer@ == r;
            assert(s[a].reducer@ == r);
        }
        if m.dom().contains(r) && r != t.reducer@ {
            let a = choose|a: int| 0 <= a < s.len() && s[a].reducer@ == r;
            assert(u[a].reducer@ == r);
        }
        if r == t.reducer@ {
            assert(u[i].reducer@ == r);
        }
    }
    assert forall|r: Seq<char>| #[trigger] tally_map(u).dom().contains(r) implies tally_map(u)[r]
        == m[r] by {
        let a = choose|a: int| 0 <= a < u.len() && u[a].reducer@ == r;
        if a == i {
            assert(u[a] == t);
        } else {
            assert(u[a] == s[a]);
            assert(s[a].reducer@ != s[i].reducer@);
        }
    }
    assert(tally_map(u) =~= m);
}

/// Adding the tally of a new reducer adds its counts to the map.
proof fn lemma_tally_map_push(s: Seq<ReducerTally>, t: ReducerTally)
    requires
        distinct_reducers(s),
        !tally_map(s).dom().contains(t.reducer@),
    ensures
        distinct_reducers(s.push(t)),
        tally_map(s.push(t)) == tally_map(s).insert(t.reducer@, counts(t)),
{
    lemma_tally_map(s);
    let u = s.push(t);
    assert(u.drop_last() =~= s);
    assert forall|a: int, b: int| 0 <= a < b < u.len() implies u[a].reducer@ != u[b].reducer@ by {
        if b == s.len() {
            assert(u[a] == s[a]);
            assert(tally_map(s).dom().contains(s[a].reducer@));
        } else {
            assert(u[a] == s[a] && u[b] == s[b]);
        }
    }
}

/// The tally of the judged reductions of every reducer, by name, and the
/// size of the smallest interesting test case found so far.
pub struct LogTally {
    smallest_size: u64,
    tallies: Vec<ReducerTally>,
}

/// What a `LogTally` holds: the size of the smallest interesting test case
/// found so far (zero until one is found), and the counts of each reducer
/// that has a tally, by name.
pub ghost struct TallyView {
    pub smallest_size: u64,
    pub counts: Map<Seq<char>, (u64, u64, u64)>,
}

impl View for LogTally {
    type V = TallyView;

    closed spec fn view(&self) -> TallyView {
        TallyView { smallest_size: self.smallest_size, counts: tally_map(self.tallies@) }
    }
}

impl LogTally {
    #[verifier::type_invariant]
    spec fn inv(self) -> bool {
        distinct_reducers(self.tallies@)
    }

    /// An empty tally.
    pub fn new() -> (t: LogTally)
        ensures
            t@.counts == Map::<Seq<char>, (u64, u64, u64)>::empty(),
            t@.smallest_size == 0,
    {
        LogTally { smallest_size: 0, tallies: Vec::new() }
    }

    /// The size of the smallest interesting test case found so far.
    pub fn smallest_size(&self) -> (s: u64)
        ensures
            s == self@.smallest_size,
    {
        self.smallest_size
    }

    /// Count one more reduction of `reducer`, judged `judgment`.
    fn record(&mut self, reducer: &str, judgment: Judgment)
        ensures
            final(self)@.counts == old(self)@.counts.insert(reducer@, bumped(counts_in(old(self)@.counts, reducer@), judgment)),
            final(self)@.smallest_size == old(self)@.smallest_size,
    {
        proof {
            use_type_invariant(&*self);
        }
        let ghost before = self.tallies@;
        let mut tallies: Vec<ReducerTally> = Vec::new();
        std::mem::swap(&mut tallies, &mut self.tallies);
        proof {
            lemma_tally_map(before);
        }
        let mut i: usize = 0;
        while i < tallies.len() && !str_equal(tallies[i].reducer.as_str(), reducer)
            invariant
                i <= tallies.len(),
                tallies@ == before,
                forall|k: int| 0 <= k < i ==> (#[trigger] tallies@[k]).reducer@ != reducer@,
            decreases tallies.len() - i,
        {
            i = i + 1;
        }
        if i < tallies.len() {
            let old_t = &tallies[i];
            let c = (old_t.smallest, old_t.not_smallest, old_t.not_interesting);
            let t = match judgment {
                Judgment::Smallest => ReducerTally {
                    reducer: old_t.reducer.clone(),
                    smallest: c.0.saturating_add(1),
                    not_smallest: c.1,
                    not_interesting: c.2,
                },
                Judgment::NotSmallest => ReducerTally {
                    reducer: old_t.reducer.clone(),
                    smallest: c.0,
                    not_smallest: c.1.saturating_add(1),
                    not_interesting: c.2,
                },
                Judgment::NotInteresting => ReducerTally {
                    reducer: old_t.reducer.clone(),
                    smallest: c.0,
                    not_smallest: c.1,
                    not_interesting: c.2.saturating_add(1),
                },
            };
            proof {
                assert(tally_map(before).dom().contains(before[i as int].reducer@));
                assert(tally_map(before)[before[i as int].reducer@] == c);
                lemma_tally_map_update(before, i as int, t);
            }
            tallies.set(i, t);
        } else {
            let t = match judgment {
                Judgment::Smallest => ReducerTally {
                    reducer: reducer.to_owned(),
                    smallest: 1,
                    not_smallest: 0,
                    not_interesting: 0,
                },
                Judgment::NotSmallest => ReducerTally {
                    reducer: reducer.to_owned(),
                    smallest: 0,
                    not_smallest: 1,
                    not_interesting: 0,
                },
                Judgment::NotInteresting => ReducerTally {
                    reducer: reducer.to_owned(),
                    smallest: 0,
                    not_smallest: 0,
                    not_interesting: 1,
                },
            };
            proof {
                assert(!tally_map(before).dom().contains(reducer@)) by {
                    if tally_map(before).dom().contains(reducer@) {
                        let k = choose|k: int| 0 <= k < before.len() && before[k].reducer@ == reducer@;
                        assert(tallies@[k].reducer@ != reducer@);
                    }
                }
                lemma_tally_map_push(before, t);
            }
            tallies.push(t);
        }
        self.tallies = tallies;
    }

    /// A reducer's reduction became the new smallest interesting test case,
    /// of `new_size` bytes.
    pub fn new_smallest(&mut self, reducer: &str, new_size: u64)
        ensures
            final(self)@.counts == old(self)@.counts.insert(
                reducer@,
                bumped(counts_in(old(self)@.counts, reducer@), Judgment::Smallest),
            ),
            final(self)@.smallest_size == new_size,
    {
        proof {
            use_type_invariant(&*self);
        }
        self.smallest_size = new_size;
        self.record(reducer, Judgment::Smallest);
    }

    /// A reducer's reduction was interesting, but not the new smallest.
    pub fn is_not_smaller(&mut self, reducer: &str)
        ensures
            final(self)@.counts == old(self)@.counts.insert(
                reducer@,
                bumped(counts_in(old(self)@.counts, reducer@), Judgment::NotSmallest),
            ),
            final(self)@.smallest_size == old(self)@.smallest_size,
    {
        self.record(reducer, Judgment::NotSmallest);
    }

    /// A reducer's reduction was judged not interesting.
    pub fn judged_not_interesting(&mut self, reducer: &str)
        ensures
            final(self)@.counts == old(self)@.counts.insert(
                reducer@,
                bumped(counts_in(old(self)@.counts, reducer@), Judgment::NotInteresting),
            ),
            final(self)@.smallest_size == old(self)@.smallest_size,
    {
        self.record(reducer, Judgment::NotInteresting);
    }

    /// A merge finished, of `merged_size` bytes against the upstream's
    /// `upstream_size`: a merge that is no smaller than the upstream counts
    /// as a reduction of the reducer `merge` that was not interesting.
    /// Returns whether it was counted.
    pub fn finished_merging(&mut self, merged_size: u64, upstream_size: u64) -> (counted: bool)
        ensures
            counted == (merged_size >= upstream_size),
            counted ==> final(self)@.counts == old(self)@.counts.insert(
                merge_reducer(),
                bumped(counts_in(old(self)@.counts, merge_reducer()), Judgment::NotInteresting),
            ),
            !counted ==> final(self)@.counts == old(self)@.counts,
            final(self)@.smallest_size == old(self)@.smallest_size,
    {
        if merged_size >= upstream_size {
            let merge = "merge";
            proof {
                reveal_strlit("merge");
                assert(merge@ =~= merge_reducer());
            }
            self.record(merge, Judgment::NotInteresting);
            true
        } else {
            false
        }
    }

    /// The tallies of all reducers, in report order: see `reported_before`.
    pub fn report(&self) -> (rows: Vec<ReducerTally>)
        ensures
            distinct_reducers(rows@),
            rows.len() == self@.counts.dom().len(),
            forall|i: int| 0 <= i < rows.len() ==> #[trigger] self@.counts.dom().contains(rows@[i].reducer@)
                && self@.counts[rows@[i].reducer@] == counts(rows@[i]),
            forall|i: int, j: int| 0 <= i < j < rows.len() ==> reported_before(
                #[trigger] rows@[i],
                #[trigger] rows@[j],
            ),
    {
        proof {
            use_type_invariant(self);
            lemma_tally_map(self.tallies@);
        }
        let tallies = &self.tallies;
        let mut out: Vec<ReducerTally> = Vec::new();
        let mut k: usize = 0;
        while k < tallies.len()
            invariant
                k <= tallies.len(),
                distinct_reducers(tallies@),
                out.len() == k,
                distinct_reducers(out@),
                forall|i: int| 0 <= i < out.len() ==> exists|j: int|
                    0 <= j < k && #[trigger] out@[i] == tallies@[j],
                forall|i: int, j: int| 0 <= i < j < out.len() ==> reported_before(
                    #[trigger] out@[i],
                    #[trigger] out@[j],
                ),
            decreases tallies.len() - k,
        {
            let x = ReducerTally {
                reducer: tallies[k].reducer.clone(),
                smallest: tallies[k].smallest,
                not_smallest: tallies[k].not_smallest,
                not_interesting: tallies[k].not_interesting,
            };
            assert(x == tallies@[k as int]);
            proof {
                assert forall|i: int| 0 <= i < out.len() implies out@[i].reducer@ != x.reducer@ by {
                    let j = choose|j: int| 0 <= j < k && out@[i] == tallies@[j];
                }
            }
            let mut p: usize = 0;
            while p < out.len() && is_reported_before(&out[p], &x)
                invariant
                    p <= out.len(),
                    forall|i: int| 0 <= i < p ==> reported_before(#[trigger] out@[i], x),
                decreases out.len() - p,
            {
                p = p + 1;
            }
            let ghost old_out = out@;
            proof {
                if p < old_out.len() {
                    lemma_report_order_total(old_out[p as int], x);
                }
            }
            out.insert(p, x);
            proof {
                assert forall|i: int, j: int| 0 <= i < j < out.len() implies reported_before(
                    #[trigger] out@[i],
                    #[trigger] out@[j],
                ) by {
                    if j < p {
                        assert(out@[i] == old_out[i] && out@[j] == old_out[j]);
                    } else if j == p {
                        assert(out@[i] == old_out[i]);
                    } else if i == p {
                        assert(out@[j] == old_out[j - 1]);
                        if p < j - 1 {
                            lemma_report_order_transitive(x, old_out[p as int], old_out[j - 1]);
                        }
                    } else if i < p {
                        assert(out@[i] == old_out[i] && out@[j] == old_out[j - 1]);
                    } else {
                        assert(out@[i] == old_out[i - 1] && out@[j] == old_out[j - 1]);
                    }
                }
                assert forall|a: int, b: int| 0 <= a < b < out.len() implies out@[a].reducer@
                    != out@[b].reducer@ by {
                    if b < p {
                        assert(out@[a] == old_out[a] && out@[b] == old_out[b]);
                    } else if b == p {
                        assert(out@[a] == old_out[a]);
                    } else if a == p {
                        assert(out@[b] == old_out[b - 1]);
                    } else if a < p {
                        assert(out@[a] == old_out[a] && out@[b] == old_out[b - 1]);
                    } else {
                        assert(out@[a] == old_out[a - 1] && out@[b] == old_out[b - 1]);
                    }
                }
                assert forall|i: int| 0 <= i < out.len() implies exists|j: int|
                    0 <= j < k + 1 && #[trigger] out@[i] == tallies@[j] by {
                    if i == p {
                        assert(out@[i] == tallies@[k as int]);
                    } else {
                        let oi = if i < p {
                            i
                        } else {
                            i - 1
                        };
                        assert(out@[i] == old_out[oi]);
                        let j = choose|j: int| 0 <= j < k && old_out[oi] == tallies@[j];
                        assert(out@[i] == tallies@[j]);
                    }
                }
            }
            k = k + 1;
        }
        proof {
            lemma_tally_map(tallies@);
            assert forall|i: int| 0 <= i < out.len() implies #[trigger] self@.counts.dom().contains(
                out@[i].reducer@,
            ) && self@.counts[out@[i].reducer@] == counts(out@[i]) by {
                let j = choose|j: int| 0 <= j < k && out@[i] == tallies@[j];
                assert(tally_map(tallies@).dom().contains(tallies@[j].reducer@));
                assert(out@[i].reducer@ == tallies@[j].reducer@);
            }
        }
        out
    }
}

/// The name of the reducer that merges are counted under.
pub open spec fn merge_reducer() -> Seq<char> {
    seq!['m', 'e', 'r', 'g', 'e']
}

/// Whether `x` comes before `y` byte by byte, from offset `i` on: the first
/// byte where they differ is smaller in `x`, or `x` ends first.
pub open spec fn bytes_less_from(x: Seq<u8>, y: Seq<u8>, i: int) -> bool
    decreases x.len() - i,
{
    if i >= x.len() {
        i < y.len()
    } else if i >= y.len() {
        false
    } else if x[i] != y[i] {
        x[i] < y[i]
    } else {
        bytes_less_from(x, y, i + 1)
    }
}

/// Whether the name `a` sorts before the name `b`, as strings sort: by their
/// UTF-8 bytes, lexicographically.
pub open spec fn name_less(a: Seq<char>, b: Seq<char>) -> bool {
    bytes_less_from(encode_utf8(a), encode_utf8(b), 0)
}

/// The order of the report: the reducers with the most new smallest
/// interesting test cases first; among equals, those with the most
/// interesting but not smallest ones; then those with the fewest
/// uninteresting ones; and last, by name, from the last name to the first.
pub open spec fn reported_before(a: ReducerTally, b: ReducerTally) -> bool {
    a.smallest > b.smallest || (a.smallest == b.smallest && (a.not_smallest > b.not_smallest || (
    a.not_smallest == b.not_smallest && (a.not_interesting < b.not_interesting || (
    a.not_interesting == b.not_interesting && name_less(b.reducer@, a.reducer@))))))
}

proof fn lemma_bytes_less_transitive(x: Seq<u8>, y: Seq<u8>, z: Seq<u8>, i: int)
    requires
        0 <= i,
        bytes_less_from(x, y, i),
        bytes_less_from(y, z, i),
    ensures
        bytes_less_from(x, z, i),
    decreases x.len() - i,
{
    if i < x.len() && i < y.len() && i < z.len() && x[i] == y[i] && y[i] == z[i] {
        lemma_bytes_less_transitive(x, y, z, i + 1);
    }
}

proof fn lemma_bytes_less_total(x: Seq<u8>, y: Seq<u8>, i: int)
    requires
        0 <= i <= x.len(),
        i <= y.len(),
        x.subrange(0, i) == y.subrange(0, i),
        x != y,
    ensures
        bytes_less_from(x, y, i) || bytes_less_from(y, x, i),
    decreases x.len() - i,
{
    if i == x.len() && i == y.len() {
        assert(x =~= x.subrange(0, i));
        assert(y =~= y.subrange(0, i));
    } else if i < x.len() && i < y.len() && x[i] == y[i] {
        assert(x.subrange(0, i + 1) =~= x.subrange(0, i).push(x[i]));
        assert(y.subrange(0, i + 1) =~= y.subrange(0, i).push(y[i]));
        lemma_bytes_less_total(x, y, i + 1);
    }
}

/// The report order is transitive.
pub proof fn lemma_report_order_transitive(a: ReducerTally, b: ReducerTally, c: ReducerTally)
    requires
        reported_before(a, b),
        reported_before(b, c),
    ensures
        reported_before(a, c),
{
    if a.smallest == c.smallest && a.not_smallest == c.not_smallest && a.not_interesting
        == c.not_interesting {
        lemma_bytes_less_transitive(encode_utf8(c.reducer@), encode_utf8(b.reducer@), encode_utf8(a.reducer@), 0);
    }
}

/// Of two tallies of different reducers, one comes before the other in the
/// report.
pub proof fn lemma_report_order_total(a: ReducerTally, b: ReducerTally)
    requires
        a.reducer@ != b.reducer@,
    ensures
        reported_before(a, b) || reported_before(b, a),
{
    encode_utf8_decode_utf8(a.reducer@);
    encode_utf8_decode_utf8(b.reducer@);
    assert(encode_utf8(a.reducer@) != encode_utf8(b.reducer@));
    assert(encode_utf8(a.reducer@).subrange(0, 0) =~= encode_utf8(b.reducer@).subrange(0, 0));
    lemma_bytes_less_total(encode_utf8(a.reducer@), encode_utf8(b.reducer@), 0);
}

/// Whether `a` comes before `b` in the report: see `reported_before`.
pub fn is_reported_before(a: &ReducerTally, b: &ReducerTally) -> (r: bool)
    ensures
        r == reported_before(*a, *b),
{
    if a.smallest != b.smallest {
        a.smallest > b.smallest
    } else if a.not_smallest != b.not_smallest {
        a.not_smallest > b.not_smallest
    } else if a.not_interesting != b.not_interesting {
        a.not_interesting < b.not_interesting
    } else {
        let x = b.reducer.as_str().as_bytes();
        let y = a.reducer.as_str().as_bytes();
        let mut i: usize = 0;
        while i < x.len() && i < y.len() && x[i] == y[i]
            invariant
                i <= x.len(),
                i <= y.len(),
                bytes_less_from(x@, y@, 0) == bytes_less_from(x@, y@, i as int),
            decreases x.len() - i,
        {
            i = i + 1;
        }
        if i >= x.len() {
            i < y.len()
        } else if i >= y.len() {
            false
        } else {
            x[i] < y[i]
        }
    }
}

/// The count of a tally for one judgment.
pub open spec fn count_of(t: ReducerTally, j: Judgment) -> u64 {
    match j {
        Judgment::Smallest => t.smallest,
        Judgment::NotSmallest => t.not_smallest,
        Judgment::NotInteresting => t.not_interesting,
    }
}

/// The sum of the counts of all the tallies for one judgment.
pub open spec fn total_of(rows: Seq<ReducerTally>, j: Judgment) -> int
    decreases rows.len(),
{
    if rows.len() == 0 {
        0
    } else {
        total_of(rows.drop_last(), j) + count_of(rows.last(), j)
    }
}

/// A sum, up to the machine's limit.
pub open spec fn capped(x: int) -> u64 {
    if x < u64::MAX {
        x as u64
    } else {
        u64::MAX
    }
}

/// The totals of the report's rows, for each judgment, each up to the
/// machine's limit.
pub fn totals(rows: &[ReducerTally]) -> (t: (u64, u64, u64))
    ensures
        t == (
            capped(total_of(rows@, Judgment::Smallest)),
            capped(total_of(rows@, Judgment::NotSmallest)),
            capped(total_of(rows@, Judgment::NotInteresting)),
        ),
{
    let mut smallest: u64 = 0;
    let mut not_smallest: u64 = 0;
    let mut not_interesting: u64 = 0;
    let mut i: usize = 0;
    proof {
        assert(rows@.take(0) =~= Seq::<ReducerTally>::empty());
    }
    while i < rows.len()
        invariant
            i <= rows.len(),
            smallest == capped(total_of(rows@.take(i as int), Judgment::Smallest)),
            not_smallest == capped(total_of(rows@.take(i as int), Judgment::NotSmallest)),
            not_interesting == capped(total_of(rows@.take(i as int), Judgment::NotInteresting)),
        decreases rows.len() - i,
    {
        proof {
            let next = rows@.take(i + 1);
            assert(next.drop_last() =~= rows@.take(i as int));
            assert(next.last() == rows@[i as int]);
            lemma_total_nonnegative(rows@.take(i as int), Judgment::Smallest);
            lemma_total_nonnegative(rows@.take(i as int), Judgment::NotSmallest);
            lemma_total_nonnegative(rows@.take(i as int), Judgment::NotInteresting);
        }
        smallest = smallest.saturating_add(rows[i].smallest);
        not_smallest = not_smallest.saturating_add(rows[i].not_smallest);
        not_interesting = not_interesting.saturating_add(rows[i].not_interesting);
        i = i + 1;
    }
    proof {
        assert(rows@.take(rows.len() as int) =~= rows@);
    }
    (smallest, not_smallest, not_interesting)
}

proof fn lemma_total_nonnegative(rows: Seq<ReducerTally>, j: Judgment)
    ensures
        total_of(rows, j) >= 0,
    decreases rows.len(),
{
    if rows.len() > 0 {
        lemma_total_nonnegative(rows.drop_last(), j);
    }
}

/// The number of characters at the end of `name` after its last `/`.
pub open spec fn last_component_len(name: Seq<char>) -> int
    decreases name.len(),
{
    if name.len() == 0 || name.last() == '/' {
        0
    } else {
        1 + last_component_len(name.drop_last())
    }
}

/// What the report shows of a reducer's name: the last path component of
/// it, or the last 50 characters of that when it is longer.
pub open spec fn shown_name(name: Seq<char>) -> Seq<char> {
    let n = vstd::math::min(last_component_len(name), 50);
    name.subrange(name.len() - n, name.len() as int)
}

/// When the last `k` characters of `name` are no `/`, the last path
/// component is those `k` characters and the last component of the rest.
proof fn lemma_last_component(name: Seq<char>, k: int)
    requires
        0 <= k <= name.len(),
        forall|i: int| name.len() - k <= i < name.len() ==> name[i] != '/',
    ensures
        last_component_len(name) == k + last_component_len(name.subrange(0, name.len() - k)),
    decreases k,
{
    if k > 0 {
        let init = name.drop_last();
        assert(init =~= name.subrange(0, name.len() - 1));
        assert(init.subrange(0, init.len() - (k - 1)) =~= name.subrange(0, name.len() - k));
        lemma_last_component(init, k - 1);
    } else {
        assert(name.subrange(0, name.len() as int) =~= name);
    }
}

proof fn lemma_last_component_nonnegative(name: Seq<char>)
    ensures
        last_component_len(name) >= 0,
    decreases name.len(),
{
    if name.len() > 0 {
        lemma_last_component_nonnegative(name.drop_last());
    }
}

/// What the report shows of a reducer's name: see `shown_name`.
pub fn shown_name_of(name: &[char]) -> (shown: Vec<char>)
    ensures
        shown@ == shown_name(name@),
{
    let len = name.len();
    let mut k: usize = 0;
    while k < 50 && k < len && name[len - 1 - k] != '/'
        invariant
            len == name.len(),
            k <= 50,
            k <= len,
            forall|i: int| len - k <= i < len ==> name@[i] != '/',
        decreases len - k,
    {
        k = k + 1;
    }
    proof {
        lemma_last_component(name@, k as int);
        let rest = name@.subrange(0, len - k);
        if k < 50 && k < len {
            assert(rest.last() == '/');
        }
        if k == len {
            assert(rest.len() == 0);
        }
        lemma_last_component_nonnegative(rest);
        assert(vstd::math::min(last_component_len(name@), 50) == k);
    }
    let mut shown: Vec<char> = Vec::new();
    let mut i: usize = len - k;
    while i < len
        invariant
            len == name.len(),
            k <= len,
            len - k <= i <= len,
            shown@ == name@.subrange(len - k, i as int),
        decreases len - i,
    {
        shown.push(name[i]);
        proof {
            assert(name@.subrange(len - k, i + 1) =~= name@.subrange(len - k, i as int).push(name@[i as int]));
        }
        i = i + 1;
    }
    shown
}

} // verus!

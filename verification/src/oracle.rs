//! Determining the priority of potential reductions.

use crate::score::Score;
use crate::test_case::{Candidate, Interesting};
use crate::traits::Oracle;
use fixedbitset::FixedBitSet;
use vstd::hash_map::StringHashMap;
use vstd::prelude::*;
use vstd::set_lib::{lemma_int_range, lemma_len_subset, lemma_subset_equality, set_int_range};

verus! {

/// How many reductions of one provenance were found to be the new smallest
/// interesting test case, interesting but not the smallest, and not
/// interesting.
#[derive(Clone, Copy, Debug, Default, PartialEq, Eq)]
pub struct Observed {
    pub smallest_interesting_count: u32,
    pub not_smallest_interesting_count: u32,
    pub not_interesting_count: u32,
}

/// No observations yet.
pub open spec fn no_observations() -> Observed {
    Observed { smallest_interesting_count: 0, not_smallest_interesting_count: 0, not_interesting_count: 0 }
}

/// A counter after counting one more observation; it stays at its maximum
/// once there.
pub open spec fn count_one_more(c: u32) -> u32 {
    if c < u32::MAX {
        (c + 1) as u32
    } else {
        c
    }
}

/// The observations of a provenance, or none.
pub open spec fn observations_of(m: Map<Seq<char>, Observed>, provenance: Seq<char>) -> Observed {
    if m.contains_key(provenance) {
        m[provenance]
    } else {
        no_observations()
    }
}

/// The kinds of observations.
pub enum Observation {
    SmallestInteresting,
    NotSmallestInteresting,
    NotInteresting,
}

/// The observations after one more of the given kind.
pub open spec fn observe_one(o: Observed, kind: Observation) -> Observed {
    match kind {
        Observation::SmallestInteresting => Observed {
            smallest_interesting_count: count_one_more(o.smallest_interesting_count),
            ..o
        },
        Observation::NotSmallestInteresting => Observed {
            not_smallest_interesting_count: count_one_more(o.not_smallest_interesting_count),
            ..o
        },
        Observation::NotInteresting => Observed {
            not_interesting_count: count_one_more(o.not_interesting_count),
            ..o
        },
    }
}

/// The historical rate of interesting reductions: the share of the observed
/// reductions that were interesting, or zero when none were observed.
pub open spec fn interesting_rate(o: Observed) -> Score {
    let total = o.smallest_interesting_count + o.not_smallest_interesting_count + o.not_interesting_count;
    if total == 0 {
        Score::TryIt { numerator: 0, denominator: 1 }
    } else {
        Score::TryIt {
            numerator: (o.smallest_interesting_count + o.not_smallest_interesting_count) as u64,
            denominator: total as u64,
        }
    }
}

impl Observed {
    /// The number of observed reductions.
    pub fn total(&self) -> (n: u64)
        ensures
            n == self.smallest_interesting_count + self.not_smallest_interesting_count
                + self.not_interesting_count,
    {
        self.smallest_interesting_count as u64 + self.not_smallest_interesting_count as u64
            + self.not_interesting_count as u64
    }

    /// The number of observed reductions that were interesting.
    pub fn interesting(&self) -> (n: u64)
        ensures
            n == self.smallest_interesting_count + self.not_smallest_interesting_count,
    {
        self.smallest_interesting_count as u64 + self.not_smallest_interesting_count as u64
    }

    fn count(&mut self, kind: Observation)
        ensures
            *final(self) == observe_one(*old(self), kind),
    {
        match kind {
            Observation::SmallestInteresting => {
                self.smallest_interesting_count = self.smallest_interesting_count.saturating_add(1);
            },
            Observation::NotSmallestInteresting => {
                self.not_smallest_interesting_count = self.not_smallest_interesting_count.saturating_add(1);
            },
            Observation::NotInteresting => {
                self.not_interesting_count = self.not_interesting_count.saturating_add(1);
            },
        }
    }
}

/// An `Oracle` that scores reductions by their provenance's historical rate
/// of producing interesting test cases.
pub struct InterestingRate {
    observations: StringHashMap<Observed>,
}

impl View for InterestingRate {
    type V = Map<Seq<char>, Observed>;

    closed spec fn view(&self) -> Map<Seq<char>, Observed> {
        self.observations@
    }
}

impl Default for InterestingRate {
    fn default() -> (r: InterestingRate)
        ensures
            r@ == Map::<Seq<char>, Observed>::empty(),
    {
        InterestingRate { observations: StringHashMap::new() }
    }
}

impl InterestingRate {
    /// The observations of a provenance, recorded as none if there were none.
    fn entry(&mut self, provenance: &str) -> (o: Observed)
        ensures
            o == observations_of(old(self)@, provenance@),
            final(self)@ == old(self)@.insert(provenance@, o),
    {
        let o = match self.observations.get(provenance) {
            Some(o) => *o,
            None => Observed { smallest_interesting_count: 0, not_smallest_interesting_count: 0, not_interesting_count: 0 },
        };
        self.observations.insert(provenance.to_owned(), o);
        o
    }

    /// Count one more observation of the given kind for a provenance.
    fn observe(&mut self, provenance: &str, kind: Observation)
        ensures
            final(self)@ == old(self)@.insert(
                provenance@,
                observe_one(observations_of(old(self)@, provenance@), kind),
            ),
    {
        let mut o = self.entry(provenance);
        o.count(kind);
        self.observations.insert(provenance.to_owned(), o);
    }
}

impl Oracle for InterestingRate {
    fn observe_smallest_interesting(&mut self, interesting: &Interesting)
        ensures
            final(self)@ == old(self)@.insert(
                interesting@.provenance,
                observe_one(observations_of(old(self)@, interesting@.provenance), Observation::SmallestInteresting),
            ),
    {
        self.observe(interesting.provenance(), Observation::SmallestInteresting);
    }

    fn observe_not_smallest_interesting(&mut self, interesting: &Interesting)
        ensures
            final(self)@ == old(self)@.insert(
                interesting@.provenance,
                observe_one(observations_of(old(self)@, interesting@.provenance), Observation::NotSmallestInteresting),
            ),
    {
        self.observe(interesting.provenance(), Observation::NotSmallestInteresting);
    }

    fn observe_not_interesting(&mut self, reduction: &Candidate)
        ensures
            final(self)@ == old(self)@.insert(
                reduction@.provenance,
                observe_one(observations_of(old(self)@, reduction@.provenance), Observation::NotInteresting),
            ),
    {
        self.observe(reduction.provenance(), Observation::NotInteresting);
    }

    /// Exhaustion is not taken into account.
    fn observe_exhausted(&mut self, reducer_name: &str)
        ensures
            final(self)@ == old(self)@,
    {
    }

    /// The interesting rate of the reduction's provenance. The provenance is
    /// recorded, with no observations, if it was not yet.
    fn predict(&mut self, reduction: &Candidate) -> (s: Score)
        ensures
            s == interesting_rate(observations_of(old(self)@, reduction@.provenance)),
            final(self)@ == old(self)@.insert(
                reduction@.provenance,
                observations_of(old(self)@, reduction@.provenance),
            ),
    {
        let o = self.entry(reduction.provenance());
        let total = o.total();
        if total == 0 {
            Score::ratio(0, 1)
        } else {
            Score::ratio(o.interesting(), total)
        }
    }
}

/// The score by how much a reduction of `size` bytes shaves off the smallest
/// interesting test case, of `smallest` bytes: the share it removes.
pub open spec fn percent_reduced(smallest: Option<u64>, size: u64) -> Score {
    match smallest {
        Some(s) if size <= s && s > 0 => Score::TryIt { numerator: (s - size) as u64, denominator: s },
        _ => Score::TryIt { numerator: 0, denominator: 1 },
    }
}

/// An `Oracle` that scores potential reductions by how much they were able
/// to shave off of the current smallest test case.
#[derive(Debug)]
pub struct PercentReduced {
    smallest: Option<u64>,
}

impl View for PercentReduced {
    type V = Option<u64>;

    /// The size of the smallest interesting test case observed.
    closed spec fn view(&self) -> Option<u64> {
        self.smallest
    }
}

impl PercentReduced {
    /// An oracle that has observed no smallest interesting test case yet.
    pub fn new() -> (p: PercentReduced)
        ensures
            p@ is None,
    {
        PercentReduced { smallest: None }
    }
}

impl Oracle for PercentReduced {
    fn observe_smallest_interesting(&mut self, interesting: &Interesting)
        ensures
            final(self)@ == Some(interesting@.size),
    {
        self.smallest = Some(interesting.size());
    }

    fn observe_not_smallest_interesting(&mut self, interesting: &Interesting)
        ensures
            final(self)@ == old(self)@,
    {
    }

    fn observe_not_interesting(&mut self, reduction: &Candidate)
        ensures
            final(self)@ == old(self)@,
    {
    }

    fn observe_exhausted(&mut self, reducer_name: &str)
        ensures
            final(self)@ == old(self)@,
    {
    }

    /// The share of the smallest interesting test case that the reduction
    /// removes, or zero.
    fn predict(&mut self, reduction: &Candidate) -> (s: Score)
        ensures
            s == percent_reduced(old(self)@, reduction@.size),
            final(self)@ == old(self)@,
    {
        match self.smallest {
            Some(smallest) => {
                let size = reduction.size();
                if size <= smallest && smallest > 0 {
                    Score::ratio(smallest - size, smallest)
                } else {
                    Score::ratio(0, 1)
                }
            },
            None => Score::ratio(0, 1),
        }
    }
}

#[verifier::external_type_specification]
#[verifier::external_body]
pub struct ExFixedBitSet(FixedBitSet);

/// The bits that are set in a `FixedBitSet`.
pub uninterp spec fn bitset_ones(s: FixedBitSet) -> Set<int>;

/// The number of bits a `FixedBitSet` was made with.
pub uninterp spec fn bitset_len(s: FixedBitSet) -> nat;

/// `FixedBitSet::with_capacity`: `bits` bits, none of them set.
#[verifier::external_body]
fn bitset_with_capacity(bits: usize) -> (s: FixedBitSet)
    ensures
        bitset_ones(s) == Set::<int>::empty(),
        bitset_len(s) == bits,
{
    FixedBitSet::with_capacity(bits)
}

/// `FixedBitSet::clear`: unset every bit.
#[verifier::external_body]
fn bitset_clear(s: &mut FixedBitSet)
    ensures
        bitset_ones(*final(s)) == Set::<int>::empty(),
        bitset_len(*final(s)) == bitset_len(*old(s)),
    no_unwind
{
    s.clear()
}

/// `FixedBitSet::insert`: set the bit `bit`, which must be within the set.
#[verifier::external_body]
fn bitset_insert(s: &mut FixedBitSet, bit: usize)
    requires
        bit < bitset_len(*old(s)),
    ensures
        bitset_ones(*final(s)) == bitset_ones(*old(s)).insert(bit as int),
        bitset_len(*final(s)) == bitset_len(*old(s)),
    no_unwind
{
    s.insert(bit)
}

/// `FixedBitSet::contains`: whether `bit` is within the set and set.
#[verifier::external_body]
fn bitset_contains(s: &FixedBitSet, bit: usize) -> (b: bool)
    ensures
        b == (bit < bitset_len(*s) && bitset_ones(*s).contains(bit as int)),
{
    s.contains(bit)
}

/// `FixedBitSet::ones`, counted: the number of set bits.
#[verifier::external_body]
fn bitset_count_ones(s: &FixedBitSet) -> (n: usize)
    ensures
        n == bitset_ones(*s).len(),
{
    s.ones().count()
}

/// The first position of `name` among the passes.
pub open spec fn first_position(passes: Seq<Seq<char>>, name: Seq<char>) -> Option<int> {
    if exists|i: int| 0 <= i < passes.len() && passes[i] == name {
        let i = choose|i: int| 0 <= i < passes.len() && passes[i] == name && forall|j: int| 0 <= j < i ==> passes[j] != name;
        Some(i)
    } else {
        None
    }
}

/// The first position of `name` among the passes, if it is among them.
fn position(passes: &Vec<String>, name: &str) -> (p: Option<usize>)
    ensures
        p matches Some(i) ==> i < passes@.len() && passes@[i as int]@ == name@
            && forall|j: int| 0 <= j < i ==> passes@[j]@ != name@,
        p is None ==> forall|j: int| 0 <= j < passes@.len() ==> passes@[j]@ != name@,
{
    let owned = name.to_owned();
    let mut i: usize = 0;
    while i < passes.len()
        invariant
            i <= passes@.len(),
            owned@ == name@,
            forall|j: int| 0 <= j < i ==> passes@[j]@ != name@,
        decreases passes.len() - i,
    {
        if passes[i] == owned {
            return Some(i);
        }
        i = i + 1;
    }
    None
}

/// The position `m` steps forward from `cur`, cyclically over `len`
/// positions.
pub open spec fn cyclic_step(cur: int, m: int, len: int) -> int {
    (cur + m) % len
}

/// How many steps forward, cyclically over `len` positions, lead from `from`
/// to `to`.
pub open spec fn cyclic_distance(from: int, to: int, len: int) -> int {
    if to > from {
        to - from
    } else {
        to + len - from
    }
}

/// The score of a reduction from the pass at position `p`, when the pass at
/// `current` has priority: the closer after `current`, cyclically, the
/// higher.
pub open spec fn pass_priority(p: Option<int>, current: int, len: int) -> Score {
    match p {
        Some(p) => {
            let delta = if p < current { p + len - current } else { p - current };
            Score::TryIt { numerator: 1, denominator: (delta + 1) as u64 }
        },
        None => Score::TryIt { numerator: 0, denominator: 1 },
    }
}

/// An oracle that uses C-Reduce's pass ordering to give priority to
/// reductions generated by a reducer that implements a C-Reduce pass.
///
/// The pass with priority moves on, in C-Reduce's order, as passes are
/// exhausted.
#[derive(Debug)]
pub struct CreducePassPriorities {
    passes: Vec<String>,
    current_idx: usize,
    exhausted: FixedBitSet,
}

impl CreducePassPriorities {
    #[verifier::type_invariant]
    spec fn inv(&self) -> bool {
        &&& bitset_len(self.exhausted) == self.passes@.len()
        &&& bitset_ones(self.exhausted).subset_of(set_int_range(0, self.passes@.len() as int))
        &&& (self.passes@.len() == 0 ==> self.current_idx == 0)
        &&& (self.passes@.len() > 0 ==> self.current_idx < self.passes@.len())
    }

    /// The passes, in C-Reduce's order.
    pub closed spec fn spec_passes(&self) -> Seq<Seq<char>> {
        self.passes@.map_values(|p: String| p@)
    }

    /// The position of the pass with priority.
    pub closed spec fn spec_current(&self) -> int {
        self.current_idx as int
    }

    /// The positions of the exhausted passes.
    pub closed spec fn spec_exhausted(&self) -> Set<int> {
        bitset_ones(self.exhausted)
    }

    /// An oracle over the given passes, in C-Reduce's order, none of them
    /// exhausted, with the first one having priority.
    pub fn new(passes: Vec<String>) -> (o: CreducePassPriorities)
        ensures
            o.spec_passes() == passes@.map_values(|p: String| p@),
            o.spec_current() == 0,
            o.spec_exhausted() == Set::<int>::empty(),
    {
        let exhausted = bitset_with_capacity(passes.len());
        CreducePassPriorities { passes, current_idx: 0, exhausted }
    }
}

/// The passes at the given positions are all the passes.
proof fn lemma_all_exhausted(ones: Set<int>, len: int)
    requires
        0 <= len,
        ones.subset_of(set_int_range(0, len)),
    ensures
        ones.finite(),
        ones.len() <= len,
        (ones.len() == len) <==> (forall|j: int| 0 <= j < len ==> ones.contains(j)),
{
    lemma_int_range(0, len);
    lemma_len_subset(ones, set_int_range(0, len));
    if ones.len() == len {
        lemma_subset_equality(ones, set_int_range(0, len));
        assert forall|j: int| 0 <= j < len implies ones.contains(j) by {
            assert(set_int_range(0, len).contains(j));
        }
    }
    if forall|j: int| 0 <= j < len ==> ones.contains(j) {
        assert(ones =~= set_int_range(0, len));
    }
}

impl Oracle for CreducePassPriorities {
    /// A new smallest test case makes every pass worth running again.
    fn observe_smallest_interesting(&mut self, interesting: &Interesting)
        ensures
            final(self).spec_passes() == old(self).spec_passes(),
            final(self).spec_current() == old(self).spec_current(),
            final(self).spec_exhausted() == Set::<int>::empty(),
    {
        proof {
            use_type_invariant(&*self);
        }
        bitset_clear(&mut self.exhausted);
    }

    fn observe_not_smallest_interesting(&mut self, interesting: &Interesting)
        ensures
            final(self).spec_passes() == old(self).spec_passes(),
            final(self).spec_current() == old(self).spec_current(),
            final(self).spec_exhausted() == old(self).spec_exhausted(),
    {
    }

    fn observe_not_interesting(&mut self, reduction: &Candidate)
        ensures
            final(self).spec_passes() == old(self).spec_passes(),
            final(self).spec_current() == old(self).spec_current(),
            final(self).spec_exhausted() == old(self).spec_exhausted(),
    {
    }

    /// Mark the named pass exhausted. If it had priority, priority moves on
    /// to the next pass, cyclically, that is not exhausted, or back to the
    /// first pass when all of them are exhausted.
    fn observe_exhausted(&mut self, reducer_name: &str)
        ensures
            final(self).spec_passes() == old(self).spec_passes(),
            ({
                let len = old(self).spec_passes().len() as int;
                let cur = old(self).spec_current();
                let next = final(self).spec_current();
                match first_position(old(self).spec_passes(), reducer_name@) {
                    None => final(self).spec_exhausted() == old(self).spec_exhausted() && next == cur,
                    Some(i) => {
                        &&& final(self).spec_exhausted() == old(self).spec_exhausted().insert(i)
                        &&& i != cur ==> next == cur
                        &&& i == cur && (forall|j: int| 0 <= j < len ==> final(self).spec_exhausted().contains(j)) ==> next == 0
                        &&& i == cur && !(forall|j: int| 0 <= j < len ==> final(self).spec_exhausted().contains(j)) ==> {
                            &&& 0 <= next < len
                            &&& !final(self).spec_exhausted().contains(next)
                            &&& forall|m: int| 1 <= m < cyclic_distance(cur, next, len) ==> final(self).spec_exhausted().contains(cyclic_step(cur, m, len))
                        }
                    },
                }
            }),
    {
        proof {
            use_type_invariant(&*self);
        }
        let ghost names = self.passes@.map_values(|p: String| p@);
        let idx = position(&self.passes, reducer_name);
        proof {
            match idx {
                Some(i) => {
                    assert(names[i as int] == reducer_name@);
                    let w = choose|k: int| 0 <= k < names.len() && names[k] == reducer_name@ && forall|j: int| 0 <= j < k ==> names[j] != reducer_name@;
                    assert(w == i);
                },
                None => {
                    assert forall|k: int| 0 <= k < names.len() implies names[k] != reducer_name@ by {
                        assert(names[k] == self.passes@[k]@);
                    }
                },
            }
        }
        match idx {
            None => {},
            Some(idx) => {
                bitset_insert(&mut self.exhausted, idx);
                if idx == self.current_idx {
                    let len = self.passes.len();
                    let ghost ones = bitset_ones(self.exhausted);
                    let ghost cur = self.current_idx as int;
                    proof {
                        lemma_all_exhausted(ones, len as int);
                    }
                    if bitset_count_ones(&self.exhausted) == len {
                        self.current_idx = 0;
                    } else {
                        let mut steps: usize = 0;
                        proof {
                            vstd::arithmetic::div_mod::lemma_small_mod(cur as nat, len as nat);
                        }
                        loop
                            invariant_except_break
                                steps < len,
                                self.current_idx as int == cyclic_step(cur, steps as int, len as int),
                                forall|m: int| 1 <= m <= steps ==> ones.contains(cyclic_step(cur, m, len as int)),
                            invariant
                                0 < len == self.passes@.len(),
                                0 <= cur < len,
                                bitset_ones(self.exhausted) == ones,
                                bitset_len(self.exhausted) == len,
                                ones.subset_of(set_int_range(0, len as int)),
                                ones.contains(cur),
                                !(forall|j: int| 0 <= j < len ==> ones.contains(j)),
                                self.passes@.map_values(|p: String| p@) == names,
                            ensures
                                !ones.contains(self.current_idx as int),
                                self.current_idx < len,
                                1 <= cyclic_distance(cur, self.current_idx as int, len as int) <= len,
                                forall|m: int| 1 <= m < cyclic_distance(cur, self.current_idx as int, len as int) ==> ones.contains(cyclic_step(cur, m, len as int)),
                            decreases len - steps,
                        {
                            proof {
                                lemma_cyclic_distance(cur, steps as int + 1, len as int);
                                assert(cyclic_step(cur, steps as int + 1, len as int) == (self.current_idx + 1) % (len as int)) by {
                                    vstd::arithmetic::div_mod::lemma_add_mod_noop(cur + steps, 1, len as int);
                                    vstd::arithmetic::div_mod::lemma_add_mod_noop_right((cur + steps) % (len as int), 1, len as int);
                                }
                                vstd::arithmetic::div_mod::lemma_mod_bound(self.current_idx + 1, len as int);
                            }
                            let next = (self.current_idx + 1) % len;
                            self.current_idx = next;
                            steps = steps + 1;
                            if !bitset_contains(&self.exhausted, self.current_idx) {
                                break;
                            }
                            proof {
                                if steps == len {
                                    lemma_cover_all(ones, cur, len as int);
                                }
                            }
                        }
                    }
                }
            },
        }
    }

    /// The priority of the reduction's pass, or zero for a reduction that is
    /// not from a C-Reduce pass.
    fn predict(&mut self, reduction: &Candidate) -> (s: Score)
        ensures
            s == pass_priority(
                first_position(old(self).spec_passes(), reduction@.provenance),
                old(self).spec_current(),
                old(self).spec_passes().len() as int,
            ),
            final(self).spec_passes() == old(self).spec_passes(),
            final(self).spec_current() == old(self).spec_current(),
            final(self).spec_exhausted() == old(self).spec_exhausted(),
    {
        proof {
            use_type_invariant(&*self);
        }
        let ghost names = self.passes@.map_values(|p: String| p@);
        let idx = position(&self.passes, reduction.provenance());
        proof {
            match idx {
                Some(i) => {
                    assert(names[i as int] == reduction@.provenance);
                    let w = choose|k: int| 0 <= k < names.len() && names[k] == reduction@.provenance && forall|j: int| 0 <= j < k ==> names[j] != reduction@.provenance;
                    assert(w == i);
                },
                None => {
                    assert forall|k: int| 0 <= k < names.len() implies names[k] != reduction@.provenance by {
                        assert(names[k] == self.passes@[k]@);
                    }
                },
            }
        }
        match idx {
            Some(p) => {
                let delta = if p < self.current_idx {
                    p + (self.passes.len() - self.current_idx)
                } else {
                    p - self.current_idx
                };
                assert(delta < self.passes.len());
                Score::ratio(1, delta as u64 + 1)
            },
            None => Score::ratio(0, 1),
        }
    }
}

/// Taking `steps` steps forward from `cur`, cyclically, reaches a position
/// `steps` away.
proof fn lemma_cyclic_distance(cur: int, steps: int, len: int)
    requires
        0 <= cur < len,
        1 <= steps <= len,
    ensures
        cyclic_distance(cur, (cur + steps) % len, len) == steps,
        0 <= (cur + steps) % len < len,
{
    if cur + steps < len {
        vstd::arithmetic::div_mod::lemma_small_mod((cur + steps) as nat, len as nat);
    } else {
        vstd::arithmetic::div_mod::lemma_small_mod((cur + steps - len) as nat, len as nat);
        vstd::arithmetic::div_mod::lemma_mod_sub_multiples_vanish(cur + steps, len);
    }
}

/// Visiting `len` positions forward from `cur`, cyclically, visits them all.
proof fn lemma_cover_all(ones: Set<int>, cur: int, len: int)
    requires
        0 <= cur < len,
        forall|m: int| 1 <= m <= len ==> ones.contains(cyclic_step(cur, m, len)),
    ensures
        forall|j: int| 0 <= j < len ==> ones.contains(j),
{
    assert forall|j: int| 0 <= j < len implies ones.contains(j) by {
        let m = if j > cur { j - cur } else { j + len - cur };
        lemma_cyclic_distance(cur, m, len);
        assert(ones.contains(cyclic_step(cur, m, len)));
    }
}

} // verus!

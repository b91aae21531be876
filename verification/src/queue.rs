//! The queue for candidates that haven't been tested yet.

use crate::actors::ReducerId;
use crate::score::{lemma_ranks_below_asymmetric, lemma_ranks_below_transitive, ranks_below, Score};
use crate::test_case::Candidate;
use vstd::prelude::*;

verus! {

/// A queued candidate, the reducer actor that produced it, and its priority.
#[derive(Debug)]
pub struct QueuedCandidate(pub Candidate, pub ReducerId, pub Score);

/// No queued candidate ranks above the one at position `i`.
pub open spec fn is_highest(q: Seq<QueuedCandidate>, i: int) -> bool {
    &&& 0 <= i < q.len()
    &&& forall|j: int| 0 <= j < q.len() ==> !ranks_below(#[trigger] q[i].2, q[j].2)
}

/// The queue for candidates that haven't been tested for interesting-ness
/// yet. Candidates leave it highest priority first; among candidates of
/// equal priority, in no particular order.
pub struct CandidateQueue {
    candidates: Vec<QueuedCandidate>,
}

impl View for CandidateQueue {
    type V = Seq<QueuedCandidate>;

    closed spec fn view(&self) -> Seq<QueuedCandidate> {
        self.candidates@
    }
}

impl CandidateQueue {
    /// Construct a new, empty queue with capacity for `n` candidates.
    pub fn with_capacity(n: usize) -> (q: CandidateQueue)
        ensures
            q@ == Seq::<QueuedCandidate>::empty(),
    {
        CandidateQueue { candidates: Vec::with_capacity(n) }
    }

    /// Is the queue empty?
    pub fn is_empty(&self) -> (b: bool)
        ensures
            b == (self@.len() == 0),
    {
        self.candidates.len() == 0
    }

    /// Get the number of candidates that are queued.
    pub fn len(&self) -> (n: usize)
        ensures
            n == self@.len(),
    {
        self.candidates.len()
    }

    /// Clear the candidate queue, leaving it empty.
    pub fn clear(&mut self)
        ensures
            final(self)@ == Seq::<QueuedCandidate>::empty(),
    {
        self.candidates.clear();
    }

    /// Insert a new candidate into the queue, that was produced by the
    /// reducer actor with the given id.
    pub fn insert(&mut self, candidate: Candidate, by: ReducerId, priority: Score)
        ensures
            final(self)@ == old(self)@.push(QueuedCandidate(candidate, by, priority)),
    {
        self.candidates.push(QueuedCandidate(candidate, by, priority));
    }

    /// Retain only the queued candidates for which the predicate returns
    /// `true` and remove all other queued candidates. The predicate is asked
    /// about each queued candidate once.
    pub fn retain<F: Fn(&Candidate, ReducerId) -> bool>(&mut self, predicate: F)
        requires
            forall|c: &Candidate, by: ReducerId| call_requires(predicate, (c, by)),
        ensures
            exists|keep: Seq<bool>| {
                &&& final_kept(old(self)@, keep, final(self)@)
                &&& forall|i: int| 0 <= i < keep.len() ==> call_ensures(predicate, (&old(self)@[i].0, old(self)@[i].1), #[trigger] keep[i])
            },
    {
        let mut old_candidates: Vec<QueuedCandidate> = Vec::new();
        std::mem::swap(&mut old_candidates, &mut self.candidates);
        let ghost all = old_candidates@;
        let ghost mut keep: Seq<bool> = Seq::empty();
        let mut rest: Vec<QueuedCandidate> = Vec::new();
        let mut remaining = old_candidates;
        while remaining.len() > 0
            invariant
                keep.len() + remaining@.len() == all.len(),
                remaining@ == all.subrange(keep.len() as int, all.len() as int),
                forall|i: int| 0 <= i < keep.len() ==> call_ensures(predicate, (&all[i].0, all[i].1), #[trigger] keep[i]),
                rest@ == kept(all.subrange(0, keep.len() as int), keep),
                forall|c: &Candidate, by: ReducerId| call_requires(predicate, (c, by)),
            decreases remaining.len(),
        {
            let q = remaining.remove(0);
            let k = predicate(&q.0, q.1);
            proof {
                assert(q == all[keep.len() as int]);
                lemma_kept_push(all.subrange(0, keep.len() as int), keep, q, k);
                assert(all.subrange(0, keep.len() as int + 1) =~= all.subrange(0, keep.len() as int).push(q));
                keep = keep.push(k);
            }
            if k {
                rest.push(q);
            }
        }
        proof {
            assert(all.subrange(0, keep.len() as int) =~= all);
            assert(all == old(self)@);
        }
        self.candidates = rest;
        proof {
            assert(final_kept(old(self)@, keep, self@));
        }
    }

    /// Remove and return a highest-priority candidate, if any.
    pub fn pop(&mut self) -> (r: Option<(Candidate, ReducerId)>)
        ensures
            old(self)@.len() == 0 ==> r is None && final(self)@ == old(self)@,
            old(self)@.len() > 0 ==> exists|i: int| {
                &&& is_highest(old(self)@, i)
                &&& r == Some((old(self)@[i].0, old(self)@[i].1))
                &&& final(self)@ == old(self)@.remove(i)
            },
    {
        if self.candidates.len() == 0 {
            return None;
        }
        let mut best: usize = 0;
        let mut i: usize = 1;
        while i < self.candidates.len()
            invariant
                0 < self.candidates@.len(),
                best < i <= self.candidates@.len(),
                forall|j: int| 0 <= j < i ==> !ranks_below(#[trigger] self.candidates@[best as int].2, self.candidates@[j].2),
            decreases self.candidates.len() - i,
        {
            if self.candidates[best].2.is_below(&self.candidates[i].2) {
                proof {
                    let c = self.candidates@;
                    assert forall|j: int| 0 <= j < i implies !ranks_below(#[trigger] c[i as int].2, c[j].2) by {
                        if ranks_below(c[i as int].2, c[j].2) {
                            lemma_ranks_below_transitive(c[best as int].2, c[i as int].2, c[j].2);
                        }
                    }
                }
                best = i;
            }
            proof {
                lemma_ranks_below_asymmetric(self.candidates@[best as int].2, self.candidates@[i as int].2);
            }
            i = i + 1;
        }
        let q = self.candidates.remove(best);
        proof {
            assert(is_highest(old(self)@, best as int));
        }
        Some((q.0, q.1))
    }

    /// Drain the next `..n` candidates from the front of the queue: the
    /// returned `Drain` hands out, highest priority first, at most `n` of
    /// them.
    pub fn drain<'a>(&'a mut self, n: usize) -> (d: Drain<'a>)
        ensures
            d.remaining() == n,
            d.spec_queue()@ == old(self)@,
    {
        Drain { queue: self, n }
    }
}

/// The queue `after` holds the entries of `before` whose flag in `keep` is
/// set, in their order.
pub open spec fn final_kept(before: Seq<QueuedCandidate>, keep: Seq<bool>, after: Seq<QueuedCandidate>) -> bool {
    keep.len() == before.len() && after == kept(before, keep)
}

/// The entries whose flag in `keep` is set, in their order.
pub open spec fn kept(q: Seq<QueuedCandidate>, keep: Seq<bool>) -> Seq<QueuedCandidate>
    decreases q.len(),
{
    if q.len() == 0 || keep.len() < q.len() {
        Seq::empty()
    } else {
        let rest = kept(q.drop_last(), keep.subrange(0, q.len() - 1));
        if keep[q.len() - 1] {
            rest.push(q.last())
        } else {
            rest
        }
    }
}

proof fn lemma_kept_push(q: Seq<QueuedCandidate>, keep: Seq<bool>, x: QueuedCandidate, k: bool)
    requires
        keep.len() == q.len(),
    ensures
        kept(q.push(x), keep.push(k)) == if k { kept(q, keep).push(x) } else { kept(q, keep) },
{
    assert(q.push(x).drop_last() =~= q);
    assert(keep.push(k).subrange(0, q.len() as int) =~= keep);
}

/// An iterator-like handle for draining candidates from the front of the
/// candidate queue. See `CandidateQueue::drain`.
pub struct Drain<'a> {
    queue: &'a mut CandidateQueue,
    n: usize,
}

impl<'a> Drain<'a> {
    /// How many more candidates this drain may still hand out.
    pub closed spec fn remaining(&self) -> nat {
        self.n as nat
    }

    /// The queue being drained.
    pub closed spec fn spec_queue(&self) -> CandidateQueue {
        *self.queue
    }

    /// The next highest-priority candidate and the reducer actor that
    /// produced it, or `None` when the drain has handed out its number of
    /// candidates or the queue is empty.
    pub fn next(&mut self) -> (r: Option<(Candidate, ReducerId)>)
        ensures
            old(self).remaining() == 0 ==> r is None && final(self).remaining() == 0
                && old(self).spec_queue()@ == final(self).spec_queue()@,
            old(self).remaining() > 0 ==> final(self).remaining() == old(self).remaining() - 1,
            old(self).remaining() > 0 && old(self).spec_queue()@.len() == 0 ==> r is None,
            old(self).remaining() > 0 && old(self).spec_queue()@.len() > 0 ==> exists|i: int| {
                &&& is_highest(old(self).spec_queue()@, i)
                &&& r == Some((old(self).spec_queue()@[i].0, old(self).spec_queue()@[i].1))
                &&& final(self).spec_queue()@ == old(self).spec_queue()@.remove(i)
            },
    {
        if self.n == 0 {
            None
        } else {
            self.n = self.n - 1;
            self.queue.pop()
        }
    }
}

/// A drain hands candidates out in order of non-increasing priority: once a
/// highest candidate `i` is taken out of `q`, no candidate that is highest
/// in what is left ranks above it.
pub proof fn lemma_drain_order(q: Seq<QueuedCandidate>, i: int, j: int)
    requires
        is_highest(q, i),
        is_highest(q.remove(i), j),
    ensures
        !ranks_below(q[i].2, q.remove(i)[j].2),
{
    let k = if j < i {
        j
    } else {
        j + 1
    };
    assert(q.remove(i)[j] == q[k]);
    assert(!ranks_below(q[i].2, q[k].2));
}

/// The queue left after taking out, one after the other, the candidates at
/// the positions of `picks`, each position counted in the queue left at
/// that point.
pub open spec fn take_all(q: Seq<QueuedCandidate>, picks: Seq<int>) -> Seq<QueuedCandidate>
    decreases picks.len(),
{
    if picks.len() == 0 {
        q
    } else {
        take_all(q, picks.drop_last()).remove(picks.last())
    }
}

/// Every pick takes out a highest candidate of the queue left at that
/// point, as each call of `Drain::next` that hands one out does.
pub open spec fn highest_picks(q: Seq<QueuedCandidate>, picks: Seq<int>) -> bool {
    forall|k: int| 0 <= k < picks.len() ==> is_highest(#[trigger] take_all(q, picks.take(k)), picks[k])
}

/// The candidates taken out by `picks`, in the order they were taken.
pub open spec fn taken(q: Seq<QueuedCandidate>, picks: Seq<int>) -> Seq<QueuedCandidate> {
    Seq::new(picks.len(), |k: int| take_all(q, picks.take(k))[picks[k]])
}

proof fn lemma_take_all_step(q: Seq<QueuedCandidate>, picks: Seq<int>, k: int)
    requires
        0 <= k < picks.len(),
    ensures
        take_all(q, picks.take(k + 1)) == take_all(q, picks.take(k)).remove(picks[k]),
{
    assert(picks.take(k + 1).drop_last() =~= picks.take(k));
}

/// What is left after `m` picks was already there after `a <= m` picks.
proof fn lemma_take_all_shrinks(q: Seq<QueuedCandidate>, picks: Seq<int>, a: int, m: int, x: QueuedCandidate)
    requires
        highest_picks(q, picks),
        0 <= a <= m <= picks.len(),
        take_all(q, picks.take(m)).contains(x),
    ensures
        take_all(q, picks.take(a)).contains(x),
    decreases m - a,
{
    if a < m {
        let prev = take_all(q, picks.take(m - 1));
        assert(is_highest(take_all(q, picks.take(m - 1)), picks[m - 1]));
        lemma_take_all_step(q, picks, m - 1);
        let cur = prev.remove(picks[m - 1]);
        let j = choose|j: int| 0 <= j < cur.len() && #[trigger] cur[j] == x;
        if j < picks[m - 1] {
            assert(prev[j] == x);
        } else {
            assert(prev[j + 1] == x);
        }
        lemma_take_all_shrinks(q, picks, a, m - 1, x);
    }
}

/// A whole drain: the candidates that successive highest picks take out of
/// `q` come out in order of non-increasing priority, each pick leaves one
/// candidate fewer, and what was taken together with what is left is exactly
/// what the queue held.
pub proof fn lemma_full_drain(q: Seq<QueuedCandidate>, picks: Seq<int>)
    requires
        highest_picks(q, picks),
    ensures
        forall|a: int, b: int|
            0 <= a < b < picks.len() ==> !ranks_below(
                #[trigger] taken(q, picks)[a].2,
                #[trigger] taken(q, picks)[b].2,
            ),
        take_all(q, picks).len() == q.len() - picks.len(),
        taken(q, picks).to_multiset().add(take_all(q, picks).to_multiset()) == q.to_multiset(),
    decreases picks.len(),
{
    broadcast use vstd::multiset::group_multiset_axioms;
    let t = taken(q, picks);
    assert forall|a: int, b: int| 0 <= a < b < picks.len() implies !ranks_below(
        #[trigger] t[a].2,
        #[trigger] t[b].2,
    ) by {
        let sb = take_all(q, picks.take(b));
        assert(is_highest(sb, picks[b]));
        assert(sb.contains(t[b]));
        lemma_take_all_shrinks(q, picks, a, b, t[b]);
        let sa = take_all(q, picks.take(a));
        assert(is_highest(sa, picks[a]));
        let j = choose|j: int| 0 <= j < sa.len() && #[trigger] sa[j] == t[b];
        assert(!ranks_below(sa[picks[a]].2, sa[j].2));
    }
    if picks.len() == 0 {
        assert(t =~= Seq::<QueuedCandidate>::empty());
        assert forall|x: QueuedCandidate| #[trigger] t.to_multiset().count(x) == 0 by {
            vstd::seq_lib::to_multiset_contains(t, x);
        }
        assert(t.to_multiset().add(q.to_multiset()) =~= q.to_multiset());
    } else {
        let n = picks.len() - 1;
        let p = picks.drop_last();
        assert(picks.take(n) =~= p);
        assert forall|k: int| 0 <= k < p.len() implies is_highest(
            #[trigger] take_all(q, p.take(k)),
            p[k],
        ) by {
            assert(p.take(k) =~= picks.take(k));
            assert(is_highest(take_all(q, picks.take(k)), picks[k]));
        }
        lemma_full_drain(q, p);
        let r = take_all(q, p);
        let i = picks[n];
        assert(is_highest(take_all(q, picks.take(n)), picks[n]));
        assert(take_all(q, picks) == r.remove(i));
        let tp = taken(q, p);
        assert forall|k: int| 0 <= k < p.len() implies #[trigger] t[k] == tp[k] by {
            assert(p.take(k) =~= picks.take(k));
        }
        assert(t =~= tp.push(r[i]));
        vstd::seq_lib::to_multiset_build(tp, r[i]);
        vstd::seq_lib::to_multiset_remove(r, i);
        vstd::seq_lib::to_multiset_contains(r, r[i]);
        assert(t.to_multiset().add(r.remove(i).to_multiset()) =~= tp.to_multiset().add(
            r.to_multiset(),
        ));
    }
}

} // verus!

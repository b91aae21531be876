//! A client handle to the supervisor actor, which manages workers and
//! brokers their access to new reductions.

use super::channel::send;
use super::reducer::{Reducer, ReducerId};
use super::worker::{Worker, WorkerId};
use crate::error::Error;
use crate::test_case::{Candidate, Interesting};
use std::sync::mpsc::Sender;
use vstd::prelude::*;

verus! {

/// The messages that can be sent to the supervisor actor.
#[derive(Debug)]
pub enum SupervisorMessage {
    /// A worker panicked, with the given message.
    WorkerPanicked(WorkerId, String),
    /// A worker failed.
    WorkerErrored(WorkerId, Error),
    /// A worker is ready for the next reduction.
    RequestNextReduction(Worker),
    /// A worker found an interesting test case; it also holds the path to
    /// the worker's repository.
    ReportInteresting(Worker, String, Interesting),
    /// A reducer actor panicked, with the given message.
    ReducerPanicked(ReducerId, String),
    /// A reducer actor's next reduction, or `None` when it is exhausted.
    ReplyNextReduction(Reducer, Option<Candidate>),
}

impl SupervisorMessage {
    /// The message that a worker is ready for the next reduction.
    pub fn request_next_reduction(who: Worker) -> (m: SupervisorMessage)
        ensures
            m == SupervisorMessage::RequestNextReduction(who),
    {
        SupervisorMessage::RequestNextReduction(who)
    }

    /// The message that a worker panicked.
    pub fn worker_panicked(id: WorkerId, panic: String) -> (m: SupervisorMessage)
        ensures
            m == SupervisorMessage::WorkerPanicked(id, panic),
    {
        SupervisorMessage::WorkerPanicked(id, panic)
    }

    /// The message that a worker failed.
    pub fn worker_errored(id: WorkerId, err: Error) -> (m: SupervisorMessage)
        ensures
            m == SupervisorMessage::WorkerErrored(id, err),
    {
        SupervisorMessage::WorkerErrored(id, err)
    }

    /// The message that a worker found an interesting test case.
    pub fn report_interesting(who: Worker, downstream: String, interesting: Interesting) -> (m: SupervisorMessage)
        ensures
            m == SupervisorMessage::ReportInteresting(who, downstream, interesting),
    {
        SupervisorMessage::ReportInteresting(who, downstream, interesting)
    }

    /// The message that a reducer actor panicked.
    pub fn reducer_panicked(id: ReducerId, panic: String) -> (m: SupervisorMessage)
        ensures
            m == SupervisorMessage::ReducerPanicked(id, panic),
    {
        SupervisorMessage::ReducerPanicked(id, panic)
    }

    /// The message that a reducer actor is exhausted.
    pub fn no_more_reductions(reducer: Reducer) -> (m: SupervisorMessage)
        ensures
            m == SupervisorMessage::ReplyNextReduction(reducer, None),
    {
        SupervisorMessage::ReplyNextReduction(reducer, None)
    }

    /// The message carrying a reducer actor's next reduction.
    pub fn reply_next_reduction(reducer: Reducer, reduction: Candidate) -> (m: SupervisorMessage)
        ensures
            m == SupervisorMessage::ReplyNextReduction(reducer, Some(reduction)),
    {
        SupervisorMessage::ReplyNextReduction(reducer, Some(reduction))
    }
}

/// A client handle to the supervisor actor.
///
/// Each call sends the message that the `SupervisorMessage` function of the
/// same name makes, and reports whether it was delivered: it is not only
/// when the supervisor has stopped listening, where a panic would leave the
/// caller without the chance to clean up.
#[derive(Clone, Debug)]
pub struct Supervisor {
    pub sender: Sender<SupervisorMessage>,
}

impl Supervisor {
    /// Request the next potentially-interesting test case reduction. The
    /// response will be sent back to the `who` worker.
    pub fn request_next_reduction(&self, who: Worker) -> (delivered: bool) {
        send(&self.sender, SupervisorMessage::request_next_reduction(who))
    }

    /// Notify the supervisor that the worker with the given id panicked.
    pub fn worker_panicked(&self, id: WorkerId, panic: String) -> (delivered: bool) {
        send(&self.sender, SupervisorMessage::worker_panicked(id, panic))
    }

    /// Notify the supervisor that the worker with the given id errored out.
    pub fn worker_errored(&self, id: WorkerId, err: Error) -> (delivered: bool) {
        send(&self.sender, SupervisorMessage::worker_errored(id, err))
    }

    /// Notify the supervisor that the given test case has been found to be
    /// interesting.
    pub fn report_interesting(&self, who: Worker, downstream: String, interesting: Interesting) -> (delivered: bool) {
        send(&self.sender, SupervisorMessage::report_interesting(who, downstream, interesting))
    }

    /// Notify the supervisor that the reducer with the given id panicked.
    pub fn reducer_panicked(&self, id: ReducerId, panic: String) -> (delivered: bool) {
        send(&self.sender, SupervisorMessage::reducer_panicked(id, panic))
    }

    /// Tell the supervisor that there are no more reductions of the current
    /// test case.
    pub fn no_more_reductions(&self, reducer: Reducer) -> (delivered: bool) {
        send(&self.sender, SupervisorMessage::no_more_reductions(reducer))
    }

    /// Give the supervisor the requested next reduction of the current test
    /// case.
    pub fn reply_next_reduction(&self, reducer: Reducer, reduction: Candidate) -> (delivered: bool) {
        send(&self.sender, SupervisorMessage::reply_next_reduction(reducer, reduction))
    }
}

/// A reduction waiting for an idle worker, and the reducer actor that
/// produced it.
#[derive(Debug)]
pub struct QueuedReduction {
    pub candidate: Candidate,
    pub reducer: ReducerId,
}

/// What the supervisor does in response to an event.
#[derive(Debug, PartialEq, Eq)]
pub enum SupervisorAction {
    /// Send the worker this candidate to test.
    SendCandidate(WorkerId, Candidate),
    /// Ask the reducer actor for its next reduction.
    RequestNextReduction(ReducerId),
    /// Shut the worker down.
    ShutdownWorker(WorkerId),
    /// Spawn a worker with this id.
    SpawnWorker(WorkerId),
    /// The supervisor's smallest test case is a new globally smallest
    /// interesting test case: save it over the original test case file and
    /// record it.
    NewSmallest,
    /// Reseed the reducer actor with the supervisor's smallest test case.
    ReseedReducer(ReducerId),
    /// Ask the worker to merge its interesting test case, which is not
    /// smaller than the smallest one, of the given size, with it.
    TryMerge(WorkerId, u64),
}

/// The actions of pairing the first `k` idle workers with the first `k`
/// queued reductions: each worker is sent its reduction, and the reducer
/// actor that produced it, unless exhausted, is asked for its next one.
pub open spec fn drain_actions(idle: Seq<WorkerId>, queue: Seq<QueuedReduction>, exhausted: Seq<bool>, k: int) -> Seq<SupervisorAction>
    decreases k,
{
    if k <= 0 {
        Seq::empty()
    } else {
        let sent = drain_actions(idle, queue, exhausted, k - 1).push(
            SupervisorAction::SendCandidate(idle[k - 1], queue[k - 1].candidate),
        );
        if queue[k - 1].reducer.0 < exhausted.len() && !exhausted[queue[k - 1].reducer.0 as int] {
            sent.push(SupervisorAction::RequestNextReduction(queue[k - 1].reducer))
        } else {
            sent
        }
    }
}

/// The smaller of two numbers.
pub open spec fn min(a: int, b: int) -> int {
    if a <= b {
        a
    } else {
        b
    }
}

/// The supervisor's bookkeeping, and its decisions.
///
/// Reducer actors are numbered from zero; `exhausted` says which of them
/// have no more reductions of the current seed.
pub struct SupervisorCore {
    /// The globally smallest interesting test case.
    pub smallest: Interesting,
    /// Whether to try merging interesting test cases that are not smaller.
    pub try_merging: bool,
    /// How many workers to keep.
    pub num_workers: usize,
    /// The id of the next worker to spawn.
    pub next_worker_id: usize,
    /// The live workers.
    pub workers: Vec<WorkerId>,
    /// The workers waiting for a reduction, in the order they became idle.
    pub idle_workers: Vec<WorkerId>,
    /// For each reducer actor, whether it is exhausted.
    pub exhausted: Vec<bool>,
    /// The reductions waiting for a worker, in the order they came.
    pub queue: Vec<QueuedReduction>,
}

impl SupervisorCore {
    /// The bookkeeping is consistent: every queued reduction is smaller than
    /// the smallest interesting test case and comes from a known reducer
    /// actor, idle workers are live, and there are never both idle workers
    /// and queued reductions.
    pub open spec fn wf(&self) -> bool {
        &&& forall|i: int| 0 <= i < self.queue@.len() ==> (#[trigger] self.queue@[i]).candidate@.size < self.smallest@.size
        &&& forall|i: int| 0 <= i < self.queue@.len() ==> (#[trigger] self.queue@[i]).reducer.0 < self.exhausted@.len()
        &&& forall|i: int| 0 <= i < self.idle_workers@.len() ==> self.workers@.contains(#[trigger] self.idle_workers@[i])
        &&& (self.idle_workers@.len() == 0 || self.queue@.len() == 0)
        &&& self.workers@.len() <= self.num_workers
    }

    /// Pair idle workers with queued reductions, as many as possible, in
    /// the order they are waiting.
    fn drain_queues(&mut self, actions: &mut Vec<SupervisorAction>)
        ensures
            ({
                let k = min(old(self).idle_workers@.len() as int, old(self).queue@.len() as int);
                &&& final(self).idle_workers@ == old(self).idle_workers@.skip(k)
                &&& final(self).queue@ == old(self).queue@.skip(k)
                &&& final(actions)@ == old(actions)@ + drain_actions(old(self).idle_workers@, old(self).queue@, old(self).exhausted@, k)
            }),
            final(self).smallest == old(self).smallest,
            final(self).try_merging == old(self).try_merging,
            final(self).num_workers == old(self).num_workers,
            final(self).next_worker_id == old(self).next_worker_id,
            final(self).workers@ == old(self).workers@,
            final(self).exhausted@ == old(self).exhausted@,
    {
        let ghost idle = self.idle_workers@;
        let ghost queue = self.queue@;
        let ghost acts = actions@;
        let ghost before = *self;
        let k = if self.idle_workers.len() <= self.queue.len() {
            self.idle_workers.len()
        } else {
            self.queue.len()
        };
        let mut i: usize = 0;
        while i < k
            invariant
                k == min(idle.len() as int, queue.len() as int),
                i <= k,
                self.idle_workers@ == idle.skip(i as int),
                self.queue@ == queue.skip(i as int),
                actions@ == acts + drain_actions(idle, queue, self.exhausted@, i as int),
                self.smallest == before.smallest,
                self.try_merging == before.try_merging,
                self.num_workers == before.num_workers,
                self.next_worker_id == before.next_worker_id,
                self.workers@ == before.workers@,
                self.exhausted@ == before.exhausted@,
                idle == before.idle_workers@,
                queue == before.queue@,
            decreases k - i,
        {
            let worker = self.idle_workers.remove(0);
            let queued = self.queue.remove(0);
            proof {
                assert(worker == idle[i as int]);
                assert(queued == queue[i as int]);
                assert(idle.skip(i as int).remove(0) =~= idle.skip(i + 1));
                assert(queue.skip(i as int).remove(0) =~= queue.skip(i + 1));
            }
            let reducer = queued.reducer;
            actions.push(SupervisorAction::SendCandidate(worker, queued.candidate));
            if reducer.0 < self.exhausted.len() && !self.exhausted[reducer.0] {
                actions.push(SupervisorAction::RequestNextReduction(reducer));
            }
            i = i + 1;
        }
    }

    /// Spawn workers until there are `num_workers` of them, with fresh ids,
    /// as long as ids last.
    fn spawn_workers(&mut self, actions: &mut Vec<SupervisorAction>)
        requires
            old(self).workers@.len() <= old(self).num_workers,
        ensures
            ({
                let count = spawn_count(old(self).workers@.len() as int, old(self).num_workers as int, old(self).next_worker_id as int);
                &&& final(self).workers@ == old(self).workers@ + spawned_ids(old(self).next_worker_id as int, count)
                &&& final(self).next_worker_id == old(self).next_worker_id + count
                &&& final(actions)@ == old(actions)@ + spawn_actions(old(self).next_worker_id as int, count)
            }),
            final(self).workers@.len() <= final(self).num_workers,
            final(self).smallest == old(self).smallest,
            final(self).try_merging == old(self).try_merging,
            final(self).num_workers == old(self).num_workers,
            final(self).idle_workers@ == old(self).idle_workers@,
            final(self).exhausted@ == old(self).exhausted@,
            final(self).queue@ == old(self).queue@,
    {
        let ghost before = *self;
        let ghost acts = actions@;
        let ghost count = spawn_count(before.workers@.len() as int, before.num_workers as int, before.next_worker_id as int);
        while self.workers.len() < self.num_workers && self.next_worker_id < usize::MAX
            invariant
                before.workers@.len() <= self.workers@.len() <= self.num_workers,
                before.next_worker_id <= self.next_worker_id,
                self.next_worker_id - before.next_worker_id == self.workers@.len() - before.workers@.len(),
                self.workers@ == before.workers@ + spawned_ids(before.next_worker_id as int, self.next_worker_id - before.next_worker_id),
                actions@ == acts + spawn_actions(before.next_worker_id as int, self.next_worker_id - before.next_worker_id),
                self.smallest == before.smallest,
                self.try_merging == before.try_merging,
                self.num_workers == before.num_workers,
                self.idle_workers@ == before.idle_workers@,
                self.exhausted@ == before.exhausted@,
                self.queue@ == before.queue@,
            decreases self.num_workers - self.workers@.len(),
        {
            let id = WorkerId(self.next_worker_id);
            actions.push(SupervisorAction::SpawnWorker(id));
            self.workers.push(id);
            self.next_worker_id = self.next_worker_id + 1;
            proof {
                let n = self.next_worker_id - before.next_worker_id;
                assert(spawned_ids(before.next_worker_id as int, n) =~= spawned_ids(before.next_worker_id as int, n - 1).push(id));
                assert(before.workers@ + spawned_ids(before.next_worker_id as int, n) =~= (before.workers@ + spawned_ids(before.next_worker_id as int, n - 1)).push(id));
                assert(acts + spawn_actions(before.next_worker_id as int, n) =~= (acts + spawn_actions(before.next_worker_id as int, n - 1)).push(SupervisorAction::SpawnWorker(id)));
            }
        }
        proof {
            assert(self.next_worker_id - before.next_worker_id == count);
        }
    }

    /// Queue the worker as idle, and hand out work.
    fn enqueue_worker_for_reduction(&mut self, who: WorkerId, actions: &mut Vec<SupervisorAction>)
        ensures
            ({
                let idle = old(self).idle_workers@.push(who);
                let k = min(idle.len() as int, old(self).queue@.len() as int);
                &&& final(self).idle_workers@ == idle.skip(k)
                &&& final(self).queue@ == old(self).queue@.skip(k)
                &&& final(actions)@ == old(actions)@ + drain_actions(idle, old(self).queue@, old(self).exhausted@, k)
            }),
            final(self).smallest == old(self).smallest,
            final(self).try_merging == old(self).try_merging,
            final(self).num_workers == old(self).num_workers,
            final(self).next_worker_id == old(self).next_worker_id,
            final(self).workers@ == old(self).workers@,
            final(self).exhausted@ == old(self).exhausted@,
    {
        self.idle_workers.push(who);
        self.drain_queues(actions);
    }

    /// Start supervising: reducer actors `0..num_reducers` start out
    /// exhausted; the workers are spawned, and each reducer actor is seeded
    /// with the initial interesting test case and asked for its first
    /// reduction.
    pub fn new(initial: Interesting, num_reducers: usize, num_workers: usize, try_merging: bool) -> (r: (SupervisorCore, Vec<SupervisorAction>))
        ensures
            r.0.wf(),
            r.0.smallest == initial,
            r.0.try_merging == try_merging,
            r.0.num_workers == num_workers,
            r.0.next_worker_id == num_workers,
            r.0.workers@ == spawned_ids(0, num_workers as int),
            r.0.idle_workers@.len() == 0,
            r.0.queue@.len() == 0,
            r.0.exhausted@ == Seq::new(num_reducers as nat, |i: int| false),
            r.1@ == spawn_actions(0, num_workers as int) + reseed_actions(
                Seq::new(num_reducers as nat, |i: int| true),
                num_reducers as int,
            ),
    {
        let mut exhausted: Vec<bool> = Vec::new();
        let mut i: usize = 0;
        while i < num_reducers
            invariant
                i <= num_reducers,
                exhausted@ == Seq::new(i as nat, |j: int| true),
            decreases num_reducers - i,
        {
            exhausted.push(true);
            i = i + 1;
            proof {
                assert(exhausted@ =~= Seq::new(i as nat, |j: int| true));
            }
        }
        let mut core = SupervisorCore {
            smallest: initial,
            try_merging,
            num_workers,
            next_worker_id: 0,
            workers: Vec::new(),
            idle_workers: Vec::new(),
            exhausted,
            queue: Vec::new(),
        };
        let mut actions: Vec<SupervisorAction> = Vec::new();
        core.spawn_workers(&mut actions);
        proof {
            assert(actions@ =~= spawn_actions(0, num_workers as int));
            assert(core.workers@ =~= spawned_ids(0, num_workers as int));
        }
        core.reseed_reducers(&mut actions);
        proof {
            assert(core.exhausted@ =~= Seq::new(num_reducers as nat, |i: int| false));
        }
        (core, actions)
    }

    /// Reseed each reducer actor with the smallest test case, and ask each
    /// exhausted one for its next reduction, which makes none of them
    /// exhausted.
    fn reseed_reducers(&mut self, actions: &mut Vec<SupervisorAction>)
        ensures
            final(actions)@ == old(actions)@ + reseed_actions(old(self).exhausted@, old(self).exhausted@.len() as int),
            final(self).exhausted@ == Seq::new(old(self).exhausted@.len(), |i: int| false),
            final(self).smallest == old(self).smallest,
            final(self).try_merging == old(self).try_merging,
            final(self).num_workers == old(self).num_workers,
            final(self).next_worker_id == old(self).next_worker_id,
            final(self).workers@ == old(self).workers@,
            final(self).idle_workers@ == old(self).idle_workers@,
            final(self).queue@ == old(self).queue@,
    {
        let ghost before = *self;
        let ghost acts = actions@;
        let mut r: usize = 0;
        while r < self.exhausted.len()
            invariant
                r <= self.exhausted@.len() == before.exhausted@.len(),
                forall|j: int| 0 <= j < r ==> !(#[trigger] self.exhausted@[j]),
                forall|j: int| r <= j < self.exhausted@.len() ==> #[trigger] self.exhausted@[j] == before.exhausted@[j],
                actions@ == acts + reseed_actions(before.exhausted@, r as int),
                self.smallest == before.smallest,
                self.try_merging == before.try_merging,
                self.num_workers == before.num_workers,
                self.next_worker_id == before.next_worker_id,
                self.workers@ == before.workers@,
                self.idle_workers@ == before.idle_workers@,
                self.queue@ == before.queue@,
            decreases before.exhausted@.len() - r,
        {
            actions.push(SupervisorAction::ReseedReducer(ReducerId(r)));
            if self.exhausted[r] {
                actions.push(SupervisorAction::RequestNextReduction(ReducerId(r)));
                self.exhausted.set(r, false);
            }
            r = r + 1;
        }
        proof {
            assert(self.exhausted@ =~= Seq::new(before.exhausted@.len(), |i: int| false));
        }
    }

    /// Forget the queued reductions that are not smaller than `size`, asking
    /// their reducer actors for their next reductions instead.
    fn retain_smaller(&mut self, size: u64, actions: &mut Vec<SupervisorAction>)
        ensures
            final(self).queue@ == retained(old(self).queue@, size),
            final(actions)@ == old(actions)@ + dropped_requests(old(self).queue@, size),
            final(self).smallest == old(self).smallest,
            final(self).try_merging == old(self).try_merging,
            final(self).num_workers == old(self).num_workers,
            final(self).next_worker_id == old(self).next_worker_id,
            final(self).workers@ == old(self).workers@,
            final(self).idle_workers@ == old(self).idle_workers@,
            final(self).exhausted@ == old(self).exhausted@,
    {
        let ghost before = *self;
        let ghost acts = actions@;
        let mut remaining: Vec<QueuedReduction> = Vec::new();
        std::mem::swap(&mut remaining, &mut self.queue);
        let ghost all = remaining@;
        let _total = remaining.len();
        let mut done: usize = 0;
        while remaining.len() > 0
            invariant
                done + remaining@.len() == all.len() <= usize::MAX,
                remaining@ == all.skip(done as int),
                self.queue@ == retained(all.take(done as int), size),
                actions@ == acts + dropped_requests(all.take(done as int), size),
                all == before.queue@,
                self.smallest == before.smallest,
                self.try_merging == before.try_merging,
                self.num_workers == before.num_workers,
                self.next_worker_id == before.next_worker_id,
                self.workers@ == before.workers@,
                self.idle_workers@ == before.idle_workers@,
                self.exhausted@ == before.exhausted@,
            decreases remaining.len(),
        {
            let q = remaining.remove(0);
            proof {
                assert(q == all[done as int]);
                assert(all.take(done + 1) =~= all.take(done as int).push(q));
                assert(all.take(done + 1).drop_last() =~= all.take(done as int));
                assert(all.skip(done as int).remove(0) =~= all.skip(done + 1));
            }
            if q.candidate.size() < size {
                self.queue.push(q);
            } else {
                actions.push(SupervisorAction::RequestNextReduction(q.reducer));
            }
            done = done + 1;
        }
        proof {
            assert(all.take(done as int) =~= all);
        }
    }

    /// A reducer actor has no more reductions of the current seed.
    pub fn reducer_exhausted(&mut self, reducer: ReducerId)
        requires
            old(self).wf(),
            reducer.0 < old(self).exhausted@.len(),
        ensures
            final(self).wf(),
            final(self).exhausted@ == old(self).exhausted@.update(reducer.0 as int, true),
            final(self).smallest == old(self).smallest,
            final(self).next_worker_id == old(self).next_worker_id,
            final(self).workers@ == old(self).workers@,
            final(self).idle_workers@ == old(self).idle_workers@,
            final(self).queue@ == old(self).queue@,
    {
        self.exhausted.set(reducer.0, true);
    }

    /// A reducer actor's next reduction: if it is smaller than the smallest
    /// interesting test case, queue it and hand out work; otherwise, drop it
    /// and ask the reducer actor for its next reduction.
    pub fn reduction(&mut self, reducer: ReducerId, reduction: Candidate) -> (actions: Vec<SupervisorAction>)
        requires
            old(self).wf(),
            reducer.0 < old(self).exhausted@.len(),
        ensures
            final(self).wf(),
            reduction@.size < old(self).smallest@.size ==> {
                let queue = old(self).queue@.push(QueuedReduction { candidate: reduction, reducer });
                let k = min(old(self).idle_workers@.len() as int, queue.len() as int);
                &&& final(self).idle_workers@ == old(self).idle_workers@.skip(k)
                &&& final(self).queue@ == queue.skip(k)
                &&& actions@ == drain_actions(old(self).idle_workers@, queue, old(self).exhausted@, k)
            },
            reduction@.size >= old(self).smallest@.size ==> {
                &&& final(self).idle_workers@ == old(self).idle_workers@
                &&& final(self).queue@ == old(self).queue@
                &&& actions@ == seq![SupervisorAction::RequestNextReduction(reducer)]
            },
            final(self).smallest == old(self).smallest,
            final(self).next_worker_id == old(self).next_worker_id,
            final(self).workers@ == old(self).workers@,
            final(self).exhausted@ == old(self).exhausted@,
    {
        let mut actions: Vec<SupervisorAction> = Vec::new();
        if reduction.size() < self.smallest.size() {
            self.queue.push(QueuedReduction { candidate: reduction, reducer });
            self.drain_queues(&mut actions);
            proof {
                assert(actions@ =~= drain_actions(old(self).idle_workers@, old(self).queue@.push(QueuedReduction { candidate: reduction, reducer }), old(self).exhausted@, min(old(self).idle_workers@.len() as int, old(self).queue@.len() as int + 1)));
                lemma_drained_apart(old(self).idle_workers@.len() as int, old(self).queue@.len() as int + 1);
            }
        } else {
            actions.push(SupervisorAction::RequestNextReduction(reducer));
            proof {
                assert(actions@ =~= seq![SupervisorAction::RequestNextReduction(reducer)]);
            }
        }
        actions
    }

    /// A worker is ready for the next reduction: queue it as idle and hand
    /// out work.
    pub fn worker_ready(&mut self, who: WorkerId) -> (actions: Vec<SupervisorAction>)
        requires
            old(self).wf(),
            old(self).workers@.contains(who),
        ensures
            final(self).wf(),
            ({
                let idle = old(self).idle_workers@.push(who);
                let k = min(idle.len() as int, old(self).queue@.len() as int);
                &&& final(self).idle_workers@ == idle.skip(k)
                &&& final(self).queue@ == old(self).queue@.skip(k)
                &&& actions@ == drain_actions(idle, old(self).queue@, old(self).exhausted@, k)
            }),
            final(self).smallest == old(self).smallest,
            final(self).next_worker_id == old(self).next_worker_id,
            final(self).workers@ == old(self).workers@,
            final(self).exhausted@ == old(self).exhausted@,
    {
        let mut actions: Vec<SupervisorAction> = Vec::new();
        self.enqueue_worker_for_reduction(who, &mut actions);
        proof {
            assert(actions@ =~= drain_actions(old(self).idle_workers@.push(who), old(self).queue@, old(self).exhausted@, min(old(self).idle_workers@.len() as int + 1, old(self).queue@.len() as int)));
            lemma_drained_apart(old(self).idle_workers@.len() as int + 1, old(self).queue@.len() as int);
            assert forall|i: int| 0 <= i < self.idle_workers@.len() implies self.workers@.contains(#[trigger] self.idle_workers@[i]) by {
                let k = min(old(self).idle_workers@.len() as int + 1, old(self).queue@.len() as int);
                let j = i + k;
                assert(self.idle_workers@[i] == old(self).idle_workers@.push(who)[j]);
                if j < old(self).idle_workers@.len() {
                    assert(old(self).idle_workers@.push(who)[j] == old(self).idle_workers@[j]);
                }
            }
        }
        actions
    }

    /// A worker errored or panicked: forget it, and spawn a replacement.
    pub fn worker_failed(&mut self, who: WorkerId) -> (actions: Vec<SupervisorAction>)
        requires
            old(self).wf(),
            old(self).workers@.contains(who),
        ensures
            final(self).wf(),
            ({
                let live = without(old(self).workers@, who);
                let count = spawn_count(live.len() as int, old(self).num_workers as int, old(self).next_worker_id as int);
                &&& final(self).workers@ == live + spawned_ids(old(self).next_worker_id as int, count)
                &&& final(self).next_worker_id == old(self).next_worker_id + count
                &&& actions@ == spawn_actions(old(self).next_worker_id as int, count)
            }),
            final(self).idle_workers@ == without(old(self).idle_workers@, who),
            final(self).smallest == old(self).smallest,
            final(self).queue@ == old(self).queue@,
            final(self).exhausted@ == old(self).exhausted@,
    {
        let ghost before = *self;
        remove_worker(&mut self.workers, who);
        remove_worker(&mut self.idle_workers, who);
        proof {
            lemma_without(before.workers@, who);
            lemma_without(before.idle_workers@, who);
        }
        let mut actions: Vec<SupervisorAction> = Vec::new();
        self.spawn_workers(&mut actions);
        proof {
            assert(actions@ =~= spawn_actions(before.next_worker_id as int, self.next_worker_id - before.next_worker_id));
            assert forall|i: int| 0 <= i < self.idle_workers@.len() implies self.workers@.contains(#[trigger] self.idle_workers@[i]) by {
                let w = self.idle_workers@[i];
                assert(self.idle_workers@.contains(w));
                assert(without(before.idle_workers@, who).contains(w));
                lemma_without_contains(before.idle_workers@, who, w);
                assert(before.idle_workers@.contains(w) && w != who);
                let m = choose|m: int| 0 <= m < before.idle_workers@.len() && before.idle_workers@[m] == w;
                assert(before.workers@.contains(before.idle_workers@[m]));
                lemma_without_contains(before.workers@, who, w);
                assert(without(before.workers@, who).contains(w));
                let j = choose|j: int| 0 <= j < without(before.workers@, who).len() && without(before.workers@, who)[j] == w;
                assert(self.workers@[j] == w);
            }
        }
        actions
    }

    /// A worker found an interesting test case.
    ///
    /// If it is smaller than the smallest one, it becomes the new smallest
    /// one: the reducer actors are reseeded with it, workers are respawned,
    /// the queued reductions that are not smaller than it are dropped, and
    /// the worker is queued as idle. Otherwise, the worker is asked to try
    /// merging it with the smallest one, unless merging is off or it already
    /// is a merge, in which case the worker is queued as idle.
    pub fn found_interesting(&mut self, who: WorkerId, interesting: Interesting) -> (actions: Vec<SupervisorAction>)
        requires
            old(self).wf(),
            old(self).workers@.contains(who),
        ensures
            final(self).wf(),
            final(self).smallest@.size <= old(self).smallest@.size,
            interesting@.size < old(self).smallest@.size ==> {
                let n = old(self).exhausted@.len();
                let count = spawn_count(old(self).workers@.len() as int, old(self).num_workers as int, old(self).next_worker_id as int);
                let kept = retained(old(self).queue@, interesting@.size);
                let idle = old(self).idle_workers@.push(who);
                let exhausted = Seq::new(n, |i: int| false);
                let k = min(idle.len() as int, kept.len() as int);
                &&& final(self).smallest == interesting
                &&& final(self).exhausted@ == exhausted
                &&& final(self).workers@ == old(self).workers@ + spawned_ids(old(self).next_worker_id as int, count)
                &&& final(self).next_worker_id == old(self).next_worker_id + count
                &&& final(self).idle_workers@ == idle.skip(k)
                &&& final(self).queue@ == kept.skip(k)
                &&& actions@ == seq![SupervisorAction::NewSmallest] + reseed_actions(old(self).exhausted@, n as int)
                    + spawn_actions(old(self).next_worker_id as int, count)
                    + dropped_requests(old(self).queue@, interesting@.size)
                    + drain_actions(idle, kept, exhausted, k)
            },
            interesting@.size >= old(self).smallest@.size ==> {
                &&& final(self).smallest == old(self).smallest
                &&& final(self).exhausted@ == old(self).exhausted@
                &&& final(self).workers@ == old(self).workers@
                &&& final(self).next_worker_id == old(self).next_worker_id
                &&& if !old(self).try_merging || interesting@.provenance == "merge"@ {
                    let idle = old(self).idle_workers@.push(who);
                    let k = min(idle.len() as int, old(self).queue@.len() as int);
                    &&& final(self).idle_workers@ == idle.skip(k)
                    &&& final(self).queue@ == old(self).queue@.skip(k)
                    &&& actions@ == drain_actions(idle, old(self).queue@, old(self).exhausted@, k)
                } else {
                    &&& final(self).idle_workers@ == old(self).idle_workers@
                    &&& final(self).queue@ == old(self).queue@
                    &&& actions@ == seq![SupervisorAction::TryMerge(who, old(self).smallest@.size)]
                }
            },
    {
        let ghost before = *self;
        let mut actions: Vec<SupervisorAction> = Vec::new();
        let new_size = interesting.size();
        let old_size = self.smallest.size();
        if new_size < old_size {
            actions.push(SupervisorAction::NewSmallest);
            self.smallest = interesting;
            self.reseed_reducers(&mut actions);
            let ghost after_reseed = actions@;
            self.spawn_workers(&mut actions);
            let ghost after_spawn = actions@;
            self.retain_smaller(new_size, &mut actions);
            let ghost after_retain = actions@;
            proof {
                lemma_retained_smaller(before.queue@, new_size);
                lemma_retained_subset(before.queue@, new_size);
            }
            self.enqueue_worker_for_reduction(who, &mut actions);
            proof {
                let count = self.next_worker_id - before.next_worker_id;
                let n = before.exhausted@.len();
                let kept = retained(before.queue@, new_size);
                let idle = before.idle_workers@.push(who);
                let k = min(idle.len() as int, kept.len() as int);
                assert(actions@ =~= seq![SupervisorAction::NewSmallest] + reseed_actions(before.exhausted@, n as int)
                    + spawn_actions(before.next_worker_id as int, count)
                    + dropped_requests(before.queue@, new_size)
                    + drain_actions(idle, kept, Seq::new(n, |i: int| false), k));
                lemma_drained_apart(idle.len() as int, kept.len() as int);
                self.lemma_idle_live_after_spawn_and_drain(before, who, k);
            }
        } else {
            let merge = "merge";
            if !self.try_merging || str_equal(interesting.provenance(), merge) {
                proof {
                    reveal_strlit("merge");
                }
                self.enqueue_worker_for_reduction(who, &mut actions);
                proof {
                    let idle = before.idle_workers@.push(who);
                    let k = min(idle.len() as int, before.queue@.len() as int);
                    assert(actions@ =~= drain_actions(idle, before.queue@, before.exhausted@, k));
                    lemma_drained_apart(idle.len() as int, before.queue@.len() as int);
                    self.lemma_idle_live_after_spawn_and_drain(before, who, k);
                }
            } else {
                proof {
                    reveal_strlit("merge");
                }
                actions.push(SupervisorAction::TryMerge(who, old_size));
                proof {
                    assert(actions@ =~= seq![SupervisorAction::TryMerge(who, before.smallest@.size)]);
                }
            }
        }
        actions
    }

    /// Idle workers stay live: the workers only grew, and the idle ones are
    /// those that were idle, then `who`, less the first `k`.
    proof fn lemma_idle_live_after_spawn_and_drain(&self, before: SupervisorCore, who: WorkerId, k: int)
        requires
            before.wf(),
            before.workers@.contains(who),
            0 <= k <= before.idle_workers@.len() + 1,
            self.idle_workers@ == before.idle_workers@.push(who).skip(k),
            forall|i: int| 0 <= i < before.workers@.len() ==> #[trigger] self.workers@[i] == before.workers@[i],
            before.workers@.len() <= self.workers@.len(),
        ensures
            forall|i: int| 0 <= i < self.idle_workers@.len() ==> self.workers@.contains(#[trigger] self.idle_workers@[i]),
    {
        assert forall|i: int| 0 <= i < self.idle_workers@.len() implies self.workers@.contains(#[trigger] self.idle_workers@[i]) by {
            let w = self.idle_workers@[i];
            let j = i + k;
            assert(w == before.idle_workers@.push(who)[j]);
            assert(before.workers@.contains(w)) by {
                if j < before.idle_workers@.len() {
                    assert(before.idle_workers@.push(who)[j] == before.idle_workers@[j]);
                }
            }
            let m = choose|m: int| 0 <= m < before.workers@.len() && before.workers@[m] == w;
            assert(self.workers@[m] == w);
        }
    }

    /// Once every reducer actor is exhausted and no reduction is queued,
    /// there is no work for the idle workers: shut them down.
    pub fn retire_idle_workers(&mut self) -> (actions: Vec<SupervisorAction>)
        requires
            old(self).wf(),
        ensures
            final(self).wf(),
            (forall|i: int| 0 <= i < old(self).exhausted@.len() ==> old(self).exhausted@[i])
                && old(self).queue@.len() == 0 ==> {
                &&& final(self).idle_workers@.len() == 0
                &&& final(self).workers@ == without_all(old(self).workers@, old(self).idle_workers@)
                &&& actions@ == old(self).idle_workers@.map_values(|w: WorkerId| SupervisorAction::ShutdownWorker(w))
            },
            !((forall|i: int| 0 <= i < old(self).exhausted@.len() ==> old(self).exhausted@[i])
                && old(self).queue@.len() == 0) ==> {
                &&& final(self).idle_workers@ == old(self).idle_workers@
                &&& final(self).workers@ == old(self).workers@
                &&& actions@.len() == 0
            },
            final(self).smallest == old(self).smallest,
            final(self).queue@ == old(self).queue@,
            final(self).exhausted@ == old(self).exhausted@,
            final(self).next_worker_id == old(self).next_worker_id,
    {
        let ghost before = *self;
        let mut actions: Vec<SupervisorAction> = Vec::new();
        let mut all_exhausted = true;
        let mut r: usize = 0;
        while r < self.exhausted.len()
            invariant
                r <= self.exhausted@.len(),
                all_exhausted == (forall|j: int| 0 <= j < r ==> self.exhausted@[j]),
                *self == before,
            decreases self.exhausted.len() - r,
        {
            if !self.exhausted[r] {
                all_exhausted = false;
            }
            r = r + 1;
        }
        if all_exhausted && self.queue.len() == 0 {
            let mut i: usize = 0;
            while i < self.idle_workers.len()
                invariant
                    i <= self.idle_workers@.len(),
                    self.idle_workers@ == before.idle_workers@,
                    self.workers@ == without_all(before.workers@, before.idle_workers@.take(i as int)),
                    actions@ == before.idle_workers@.take(i as int).map_values(|w: WorkerId| SupervisorAction::ShutdownWorker(w)),
                    self.smallest == before.smallest,
                    self.try_merging == before.try_merging,
                    self.num_workers == before.num_workers,
                    self.next_worker_id == before.next_worker_id,
                    self.exhausted@ == before.exhausted@,
                    self.queue@ == before.queue@,
                decreases self.idle_workers.len() - i,
            {
                let w = self.idle_workers[i];
                actions.push(SupervisorAction::ShutdownWorker(w));
                remove_worker(&mut self.workers, w);
                proof {
                    let t = before.idle_workers@.take(i as int);
                    assert(before.idle_workers@.take(i + 1) =~= t.push(w));
                    lemma_without_all_push(before.workers@, t, w);
                    assert(t.push(w).map_values(|w: WorkerId| SupervisorAction::ShutdownWorker(w)) =~= t.map_values(|w: WorkerId| SupervisorAction::ShutdownWorker(w)).push(SupervisorAction::ShutdownWorker(w)));
                }
                i = i + 1;
            }
            self.idle_workers.clear();
            proof {
                assert(before.idle_workers@.take(i as int) =~= before.idle_workers@);
                lemma_without_all_len(before.workers@, before.idle_workers@);
            }
        }
        actions
    }

    /// Whether every worker has been shut down, so that the reduction is
    /// over.
    pub fn is_finished(&self) -> (b: bool)
        ensures
            b == (self.workers@.len() == 0),
    {
        self.workers.len() == 0
    }
}

/// Whether two strings are equal.
pub(crate) fn str_equal(a: &str, b: &str) -> (eq: bool)
    ensures
        eq == (a@ == b@),
{
    let a = a.to_owned();
    let b = b.to_owned();
    a == b
}

/// The workers of `s` other than `id`, in their order.
pub open spec fn without(s: Seq<WorkerId>, id: WorkerId) -> Seq<WorkerId>
    decreases s.len(),
{
    if s.len() == 0 {
        s
    } else {
        let rest = without(s.drop_last(), id);
        if s.last() == id {
            rest
        } else {
            rest.push(s.last())
        }
    }
}

/// The workers of `s` that are not among `gone`, in their order.
pub open spec fn without_all(s: Seq<WorkerId>, gone: Seq<WorkerId>) -> Seq<WorkerId>
    decreases gone.len(),
{
    if gone.len() == 0 {
        s
    } else {
        without(without_all(s, gone.drop_last()), gone.last())
    }
}

proof fn lemma_without_all_push(s: Seq<WorkerId>, gone: Seq<WorkerId>, w: WorkerId)
    ensures
        without_all(s, gone.push(w)) == without(without_all(s, gone), w),
{
    assert(gone.push(w).drop_last() =~= gone);
}

proof fn lemma_without_all_len(s: Seq<WorkerId>, gone: Seq<WorkerId>)
    ensures
        without_all(s, gone).len() <= s.len(),
    decreases gone.len(),
{
    if gone.len() > 0 {
        lemma_without_all_len(s, gone.drop_last());
        lemma_without(without_all(s, gone.drop_last()), gone.last());
    }
}

/// A sequence holds a value when its prefix without the last element, or
/// its last element, does.
proof fn lemma_contains_last(s: Seq<WorkerId>, w: WorkerId)
    requires
        s.len() > 0,
    ensures
        s.contains(w) == (s.drop_last().contains(w) || s.last() == w),
{
    if s.contains(w) {
        let j = choose|j: int| 0 <= j < s.len() && s[j] == w;
        if j < s.len() - 1 {
            assert(s.drop_last()[j] == w);
        }
    }
    if s.drop_last().contains(w) {
        let j = choose|j: int| 0 <= j < s.drop_last().len() && s.drop_last()[j] == w;
        assert(s[j] == w);
    }
    if s.last() == w {
        assert(s[s.len() - 1] == w);
    }
}

/// Removing `id` keeps exactly the other workers.
proof fn lemma_without_contains(s: Seq<WorkerId>, id: WorkerId, w: WorkerId)
    ensures
        without(s, id).contains(w) == (s.contains(w) && w != id),
    decreases s.len(),
{
    if s.len() > 0 {
        lemma_without_contains(s.drop_last(), id, w);
        lemma_contains_last(s, w);
        let r = without(s.drop_last(), id);
        if s.last() != id {
            lemma_contains_last(r.push(s.last()), w);
            assert(r.push(s.last()).drop_last() =~= r);
        }
    }
}

/// Removing `id` does not grow the list of workers.
proof fn lemma_without(s: Seq<WorkerId>, id: WorkerId)
    ensures
        without(s, id).len() <= s.len(),
    decreases s.len(),
{
    if s.len() > 0 {
        lemma_without(s.drop_last(), id);
    }
}

/// Remove the given worker from the list.
fn remove_worker(v: &mut Vec<WorkerId>, id: WorkerId)
    ensures
        final(v)@ == without(old(v)@, id),
{
    let ghost all = v@;
    let mut kept: Vec<WorkerId> = Vec::new();
    let mut i: usize = 0;
    while i < v.len()
        invariant
            v@ == all,
            i <= all.len(),
            kept@ == without(all.take(i as int), id),
        decreases v.len() - i,
    {
        let w = v[i];
        proof {
            assert(all.take(i + 1).drop_last() =~= all.take(i as int));
            assert(all.take(i + 1).last() == w);
        }
        if w != id {
            kept.push(w);
        }
        i = i + 1;
    }
    proof {
        assert(all.take(i as int) =~= all);
    }
    *v = kept;
}

/// The retained reductions are smaller than the given size.
proof fn lemma_retained_smaller(q: Seq<QueuedReduction>, size: u64)
    ensures
        forall|i: int| 0 <= i < retained(q, size).len() ==> (#[trigger] retained(q, size)[i]).candidate@.size < size,
    decreases q.len(),
{
    if q.len() > 0 {
        lemma_retained_smaller(q.drop_last(), size);
        let rest = retained(q.drop_last(), size);
        assert forall|i: int| 0 <= i < retained(q, size).len() implies (#[trigger] retained(q, size)[i]).candidate@.size < size by {
            if i < rest.len() {
                assert(retained(q, size)[i] == rest[i]);
            }
        }
    }
}

/// The retained reductions are among the queued ones.
proof fn lemma_retained_subset(q: Seq<QueuedReduction>, size: u64)
    ensures
        forall|i: int| 0 <= i < retained(q, size).len() ==> q.contains(#[trigger] retained(q, size)[i]),
    decreases q.len(),
{
    if q.len() > 0 {
        lemma_retained_subset(q.drop_last(), size);
        assert forall|i: int| 0 <= i < retained(q, size).len() implies q.contains(#[trigger] retained(q, size)[i]) by {
            let x = retained(q, size)[i];
            if i < retained(q.drop_last(), size).len() {
                assert(q.drop_last().contains(x));
                let j = choose|j: int| 0 <= j < q.drop_last().len() && q.drop_last()[j] == x;
                assert(q[j] == x);
            } else {
                assert(x == q.last());
                assert(q[q.len() - 1] == x);
            }
        }
    }
}

/// After pairing `min(a, b)` of `a` idle workers and `b` queued reductions,
/// one of the two is used up.
proof fn lemma_drained_apart(a: int, b: int)
    ensures
        a - min(a, b) == 0 || b - min(a, b) == 0,
{
}

/// The actions of reseeding the first `k` reducer actors: each is reseeded,
/// and each exhausted one is asked for its next reduction.
pub open spec fn reseed_actions(exhausted: Seq<bool>, k: int) -> Seq<SupervisorAction>
    decreases k,
{
    if k <= 0 {
        Seq::empty()
    } else {
        let reseeded = reseed_actions(exhausted, k - 1).push(SupervisorAction::ReseedReducer(ReducerId((k - 1) as usize)));
        if exhausted[k - 1] {
            reseeded.push(SupervisorAction::RequestNextReduction(ReducerId((k - 1) as usize)))
        } else {
            reseeded
        }
    }
}

/// The queued reductions that are smaller than `size`, in their order.
pub open spec fn retained(q: Seq<QueuedReduction>, size: u64) -> Seq<QueuedReduction>
    decreases q.len(),
{
    if q.len() == 0 {
        q
    } else {
        let rest = retained(q.drop_last(), size);
        if q.last().candidate@.size < size {
            rest.push(q.last())
        } else {
            rest
        }
    }
}

/// The requests for the next reduction of the reducer actors whose queued
/// reductions are not smaller than `size`, in their order.
pub open spec fn dropped_requests(q: Seq<QueuedReduction>, size: u64) -> Seq<SupervisorAction>
    decreases q.len(),
{
    if q.len() == 0 {
        Seq::empty()
    } else {
        let rest = dropped_requests(q.drop_last(), size);
        if q.last().candidate@.size < size {
            rest
        } else {
            rest.push(SupervisorAction::RequestNextReduction(q.last().reducer))
        }
    }
}

/// How many workers are spawned to go from `live` to `wanted` workers when
/// the next id is `next`: as many as are missing, as long as ids last.
pub open spec fn spawn_count(live: int, wanted: int, next: int) -> int {
    min(wanted - live, usize::MAX - next)
}

/// The ids `first`, `first + 1`, ... of `count` spawned workers.
pub open spec fn spawned_ids(first: int, count: int) -> Seq<WorkerId> {
    Seq::new(count as nat, |j: int| WorkerId((first + j) as usize))
}

/// The actions that spawn `count` workers with ids from `first` on.
pub open spec fn spawn_actions(first: int, count: int) -> Seq<SupervisorAction> {
    Seq::new(count as nat, |j: int| SupervisorAction::SpawnWorker(WorkerId((first + j) as usize)))
}

} // verus!

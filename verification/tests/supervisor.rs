use preduce::actors::supervisor::{SupervisorAction, SupervisorCore};
use preduce::actors::{ReducerId, WorkerId};
use preduce::error::Error;
use preduce::test_case::{Candidate, Interesting, Judged};
use preduce::traits::IsInteresting;

use SupervisorAction::{
    NewSmallest, ReseedReducer, RequestNextReduction, SendCandidate, ShutdownWorker, SpawnWorker, TryMerge,
};

struct Yes;

impl IsInteresting for Yes {
    fn is_interesting(&self, _potential_reduction: &str) -> Result<bool, Error> {
        Ok(true)
    }
}

fn initial(size: usize) -> Interesting {
    Interesting::initial("seed".to_string(), &vec![b'x'; size], &Yes).unwrap().unwrap()
}

fn candidate(provenance: &str, size: usize) -> Candidate {
    Candidate::new(&initial(100), provenance.to_string(), "candidate".to_string(), &vec![b'y'; size], b"")
}

fn interesting(provenance: &str, size: usize) -> Interesting {
    match candidate(provenance, size).into_interesting(&Yes) {
        Ok(Judged::Interesting(i)) => i,
        _ => panic!("the candidate should be interesting"),
    }
}

const R0: ReducerId = ReducerId(0);
const R1: ReducerId = ReducerId(1);
const W0: WorkerId = WorkerId(0);
const W1: WorkerId = WorkerId(1);

fn started() -> SupervisorCore {
    let (core, actions) = SupervisorCore::new(initial(100), 2, 2, true);
    assert_eq!(
        actions,
        vec![
            SpawnWorker(W0),
            SpawnWorker(W1),
            ReseedReducer(R0),
            RequestNextReduction(R0),
            ReseedReducer(R1),
            RequestNextReduction(R1),
        ]
    );
    assert_eq!(core.workers, vec![W0, W1]);
    assert_eq!(core.exhausted, vec![false, false]);
    core
}

#[test]
fn reductions_go_to_idle_workers() {
    let mut core = started();
    assert_eq!(core.worker_ready(W0), vec![]);
    assert_eq!(core.idle_workers, vec![W0]);
    let c = candidate("lines", 50);
    assert_eq!(core.reduction(R0, c.duplicate()), vec![SendCandidate(W0, c), RequestNextReduction(R0)]);
    assert!(core.idle_workers.is_empty());
    assert!(core.queue.is_empty());
}

#[test]
fn reductions_not_smaller_are_dropped() {
    let mut core = started();
    assert_eq!(core.reduction(R1, candidate("lines", 100)), vec![RequestNextReduction(R1)]);
    assert!(core.queue.is_empty());
    // Smaller ones wait for an idle worker.
    assert_eq!(core.reduction(R1, candidate("lines", 60)), vec![]);
    assert_eq!(core.queue.len(), 1);
    let waiting = core.queue[0].candidate.duplicate();
    // An exhausted reducer is not asked for more when its reduction goes out.
    core.reducer_exhausted(R1);
    assert_eq!(core.worker_ready(W1), vec![SendCandidate(W1, waiting)]);
}

#[test]
fn a_smaller_interesting_test_case_becomes_the_smallest() {
    let mut core = started();
    core.reducer_exhausted(R1);
    assert_eq!(core.reduction(R0, candidate("lines", 60)), vec![]);
    assert_eq!(core.reduction(R0, candidate("lines", 40)), vec![]);
    let kept = core.queue[1].candidate.duplicate();
    let actions = core.found_interesting(W0, interesting("lines", 50));
    assert_eq!(core.smallest.size(), 50);
    assert_eq!(
        actions,
        vec![
            NewSmallest,
            ReseedReducer(R0),
            ReseedReducer(R1),
            RequestNextReduction(R1),
            RequestNextReduction(R0),
            SendCandidate(W0, kept),
            RequestNextReduction(R0),
        ]
    );
    assert_eq!(core.exhausted, vec![false, false]);
    assert!(core.queue.is_empty());
    assert!(core.idle_workers.is_empty());
}

#[test]
fn an_interesting_test_case_that_is_not_smaller_is_merged() {
    let mut core = started();
    assert_eq!(core.found_interesting(W1, interesting("lines", 100)), vec![TryMerge(W1, 100)]);
    assert_eq!(core.smallest.size(), 100);
    // A merge is not merged again.
    assert_eq!(core.found_interesting(W1, interesting("merge", 120)), vec![]);
    assert_eq!(core.idle_workers, vec![W1]);

    let (mut core, _) = SupervisorCore::new(initial(100), 1, 1, false);
    assert_eq!(core.found_interesting(W0, interesting("lines", 100)), vec![]);
    assert_eq!(core.idle_workers, vec![W0]);
}

#[test]
fn idle_workers_retire_once_everything_is_exhausted() {
    let mut core = started();
    core.worker_ready(W0);
    assert_eq!(core.retire_idle_workers(), vec![]);
    core.reducer_exhausted(R0);
    core.reducer_exhausted(R1);
    assert_eq!(core.retire_idle_workers(), vec![ShutdownWorker(W0)]);
    assert_eq!(core.workers, vec![W1]);
    assert!(core.idle_workers.is_empty());
    assert!(!core.is_finished());
    assert_eq!(core.worker_failed(W1), vec![SpawnWorker(WorkerId(2)), SpawnWorker(WorkerId(3))]);
    assert_eq!(core.workers, vec![WorkerId(2), WorkerId(3)]);
}

#[test]
fn a_failed_worker_is_replaced() {
    let mut core = started();
    core.worker_ready(W0);
    assert_eq!(core.worker_failed(W0), vec![SpawnWorker(WorkerId(2))]);
    assert_eq!(core.workers, vec![W1, WorkerId(2)]);
    assert!(core.idle_workers.is_empty());
}

#[test]
fn finished_without_workers() {
    let (mut core, actions) = SupervisorCore::new(initial(10), 0, 1, true);
    assert_eq!(actions, vec![SpawnWorker(W0)]);
    core.worker_ready(W0);
    assert_eq!(core.retire_idle_workers(), vec![ShutdownWorker(W0)]);
    assert!(core.is_finished());
}

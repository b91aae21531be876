use preduce::actors::{Supervisor, SupervisorMessage, Worker};
use std::sync::mpsc;
use preduce::actors::reducer::{after_next_state, reply_to_reduction, NextStep};
use preduce::actors::reducer::{ReducerActorState, ReducerReply};
use preduce::actors::worker::{on_message, WorkerStep};
use preduce::actors::{ReducerId, ReducerMessage, WorkerId, WorkerMessage};
use preduce::error::Error;
use preduce::test_case::{Candidate, Interesting, Judged};
use preduce::traits::{IsInteresting, Reducer, ReducerState};

struct Verdict(bool);

impl IsInteresting for Verdict {
    fn is_interesting(&self, _potential_reduction: &str) -> Result<bool, Error> {
        Ok(self.0)
    }
}

fn initial() -> Interesting {
    Interesting::initial("seed".to_string(), b"0123456789", &Verdict(true)).unwrap().unwrap()
}

/// A reducer whose states count the reductions made, and that removes a
/// growing prefix of the seed, up to `limit` reductions.
struct Prefixes {
    limit: u8,
}

fn count(state: &ReducerState) -> u8 {
    match state {
        ReducerState::Encoded(v) => v[0],
        _ => panic!("unexpected state"),
    }
}

impl Reducer for Prefixes {
    fn name(&self) -> String {
        "prefixes".to_string()
    }

    fn new_state(&mut self, _seed: &Interesting) -> Result<ReducerState, Error> {
        Ok(ReducerState::Encoded(vec![0]))
    }

    fn clone_state(&self, state: &ReducerState) -> ReducerState {
        ReducerState::Encoded(vec![count(state)])
    }

    fn next_state(&mut self, _seed: &Interesting, prev_state: &mut ReducerState) -> Result<Option<ReducerState>, Error> {
        let n = count(prev_state) + 1;
        Ok(if n < self.limit { Some(ReducerState::Encoded(vec![n])) } else { None })
    }

    fn next_state_on_interesting(
        &mut self,
        _new_seed: &Interesting,
        _old_seed: &Interesting,
        prev_state: &mut ReducerState,
    ) -> Result<Option<ReducerState>, Error> {
        Ok(Some(ReducerState::Encoded(vec![count(prev_state)])))
    }

    fn reduce(&mut self, seed: &Interesting, state: &mut ReducerState) -> Result<Option<Candidate>, Error> {
        let n = count(state) as usize;
        let contents = vec![b'x'; 9 - n];
        Ok(Some(Candidate::new(seed, "prefixes".to_string(), format!("candidate{}", n), &contents, b"")))
    }
}

#[test]
fn a_reducer_actor_hands_out_reductions_until_exhausted() {
    let mut reducer = Prefixes { limit: 2 };
    let mut actor = ReducerActorState::new();
    assert!(matches!(actor.handle(&mut reducer, ReducerMessage::SetNewSeed(initial())), Ok(ReducerReply::Nothing)));
    assert!(actor.current_seed.is_some());

    let first = match actor.handle(&mut reducer, ReducerMessage::RequestNextReduction(None)) {
        Ok(ReducerReply::Reduction(c)) => c,
        other => panic!("expected a reduction, got {:?}", other),
    };
    assert_eq!(first.path(), "candidate1");
    assert!(actor.is_active(&first));

    match actor.handle(&mut reducer, ReducerMessage::RequestNextReduction(None)) {
        Ok(ReducerReply::Exhausted) => {}
        other => panic!("expected exhaustion, got {:?}", other),
    }
    assert!(actor.current_state.is_none());
    match actor.handle(&mut reducer, ReducerMessage::RequestNextReduction(None)) {
        Ok(ReducerReply::Exhausted) => {}
        other => panic!("expected exhaustion, got {:?}", other),
    }

    assert!(matches!(actor.handle(&mut reducer, ReducerMessage::NotInteresting(first.duplicate())), Ok(ReducerReply::Nothing)));
    assert!(!actor.is_active(&first));
    assert!(matches!(actor.handle(&mut reducer, ReducerMessage::Shutdown), Ok(ReducerReply::Stop)));
}

#[test]
fn a_reducer_actor_continues_from_an_interesting_reduction() {
    let mut reducer = Prefixes { limit: 5 };
    let mut actor = ReducerActorState::new();
    actor.handle(&mut reducer, ReducerMessage::SetNewSeed(initial())).unwrap();
    let first = match actor.handle(&mut reducer, ReducerMessage::RequestNextReduction(None)) {
        Ok(ReducerReply::Reduction(c)) => c,
        other => panic!("expected a reduction, got {:?}", other),
    };
    let new_seed = match first.into_interesting(&Verdict(true)) {
        Ok(Judged::Interesting(i)) => i,
        _ => panic!("should be interesting"),
    };
    match actor.handle(&mut reducer, ReducerMessage::RequestNextReduction(Some(new_seed))) {
        Ok(ReducerReply::Reduction(c)) => assert_eq!(c.path(), "candidate1"),
        other => panic!("expected a reduction, got {:?}", other),
    }
    assert_eq!(actor.current_seed.as_ref().map(|s| s.size()), Some(8));
    assert_eq!(actor.active_states.len(), 1);
}

#[test]
fn a_worker_judges_its_candidates() {
    let seed = initial();
    let c = Candidate::new(&seed, "r".to_string(), "c".to_string(), b"abc", b"");
    match on_message(&Verdict(true), WorkerMessage::NextCandidate(c.duplicate())) {
        Ok(WorkerStep::Report(i)) => assert!(i.as_candidate().unwrap().same_as(&c)),
        other => panic!("expected a report, got {:?}", other),
    }
    match on_message(&Verdict(false), WorkerMessage::NextCandidate(c.duplicate())) {
        Ok(WorkerStep::RequestNext(back)) => assert!(back.same_as(&c)),
        other => panic!("expected a request, got {:?}", other),
    }
    assert!(matches!(on_message(&Verdict(true), WorkerMessage::Shutdown), Ok(WorkerStep::Stop)));
}

#[test]
fn ids_keep_their_numbers() {
    assert_eq!(ReducerId::new(3).0, 3);
    assert_eq!(WorkerId::new(7), WorkerId(7));
}

#[test]
fn a_request_gets_one_reply_from_the_reduction() {
    assert!(matches!(after_next_state(Ok(None)), NextStep::Exhausted));
    assert!(matches!(after_next_state(Err(Error::Io("e".into()))), NextStep::Failed(_)));
    assert!(matches!(after_next_state(Ok(Some(ReducerState::Encoded(vec![])))), NextStep::Reduce(_)));
    assert!(matches!(reply_to_reduction(Ok(None)), ReducerReply::Exhausted));
    assert!(matches!(reply_to_reduction(Err(Error::Io("e".into()))), ReducerReply::Errored(_)));
}

#[test]
fn clients_send_the_messages_they_name() {
    let (sender, receiver) = mpsc::channel();
    let worker = Worker { id: WorkerId::new(1), sender };
    worker.next_candidate(Candidate::new(&initial(), "p".to_string(), "c".to_string(), b"x", b""));
    worker.clone().shutdown();
    assert!(matches!(receiver.recv().unwrap(), WorkerMessage::NextCandidate(c) if c.path() == "c"));
    assert!(matches!(receiver.recv().unwrap(), WorkerMessage::Shutdown));

    let (sender, receiver) = mpsc::channel();
    let supervisor = Supervisor { sender };
    assert!(supervisor.request_next_reduction(worker.clone()));
    assert!(supervisor.worker_panicked(WorkerId::new(2), "boom".to_string()));
    assert!(matches!(receiver.recv().unwrap(), SupervisorMessage::RequestNextReduction(w) if w.id == WorkerId::new(1)));
    assert!(matches!(receiver.recv().unwrap(), SupervisorMessage::WorkerPanicked(id, p) if id == WorkerId::new(2) && p == "boom"));
    drop(receiver);
    assert!(!supervisor.worker_panicked(WorkerId::new(2), "boom".to_string()));

    let (sender, receiver) = mpsc::channel();
    let reducer = preduce::actors::Reducer { id: ReducerId::new(0), sender };
    reducer.request_next_reduction(None);
    reducer.shutdown();
    assert!(matches!(receiver.recv().unwrap(), ReducerMessage::RequestNextReduction(None)));
    assert!(matches!(receiver.recv().unwrap(), ReducerMessage::Shutdown));
}

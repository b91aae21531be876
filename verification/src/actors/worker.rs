//! Client handles to worker actors, which test potential reductions for
//! interestingness.

use super::channel::send;
use crate::error::Error;
use crate::test_case::{Candidate, Interesting, Judged};
use crate::traits::IsInteresting;
use std::sync::mpsc::Sender;
use vstd::prelude::*;

verus! {

/// An identifier for a worker actor.
#[derive(Clone, Copy, Debug, PartialEq, Eq, Structural, Hash)]
pub struct WorkerId(pub usize);

impl WorkerId {
    /// The identifier with the given number.
    pub fn new(id: usize) -> (w: WorkerId)
        ensures
            w.0 == id,
    {
        WorkerId(id)
    }
}

/// Messages that can be sent to worker actors.
#[derive(Debug)]
pub enum WorkerMessage {
    /// Test this candidate.
    NextCandidate(Candidate),
    /// Stop the actor.
    Shutdown,
}

impl WorkerMessage {
    /// The message to stop.
    pub fn shutdown() -> (m: WorkerMessage)
        ensures
            m == WorkerMessage::Shutdown,
    {
        WorkerMessage::Shutdown
    }

    /// The message to test the candidate.
    pub fn next_candidate(candidate: Candidate) -> (m: WorkerMessage)
        ensures
            m == WorkerMessage::NextCandidate(candidate),
    {
        WorkerMessage::NextCandidate(candidate)
    }
}

/// A client handle to a worker actor. Each call sends the message that the
/// `WorkerMessage` function of the same name makes.
#[derive(Clone, Debug)]
pub struct Worker {
    pub id: WorkerId,
    pub sender: Sender<WorkerMessage>,
}

impl Worker {
    /// Get the id of this worker.
    pub fn id(&self) -> (id: WorkerId)
        ensures
            id == self.id,
    {
        self.id
    }

    // The supervisor does not learn whether these messages were delivered: a
    // worker actor that died reports its demise itself.

    /// Tell this worker to shutdown.
    pub fn shutdown(self) {
        let _ = send(&self.sender, WorkerMessage::shutdown());
    }

    /// Send the worker the next candidate to test.
    pub fn next_candidate(&self, candidate: Candidate) {
        let _ = send(&self.sender, WorkerMessage::next_candidate(candidate));
    }
}

/// What a worker does after handling a message.
#[derive(Debug)]
pub enum WorkerStep {
    /// Stop the actor.
    Stop,
    /// Report this interesting test case to the supervisor, then wait for
    /// the next message.
    Report(Interesting),
    /// Ask the supervisor for the next candidate, telling it about this one,
    /// which was not interesting.
    RequestNext(Candidate),
}

/// Handle a message to a worker: stop, or judge the candidate with the
/// predicate.
pub fn on_message<I: IsInteresting + ?Sized>(predicate: &I, message: WorkerMessage) -> (r: Result<WorkerStep, Error>)
    ensures
        message is Shutdown ==> r == Ok::<WorkerStep, Error>(WorkerStep::Stop),
        message matches WorkerMessage::NextCandidate(c) ==> (predicate.obeys_judges() && r is Ok ==> r == Ok::<WorkerStep, Error>(
            if predicate.judges(c@.path) {
                WorkerStep::Report(Interesting::from_candidate(c))
            } else {
                WorkerStep::RequestNext(c)
            },
        )),
{
    match message {
        WorkerMessage::Shutdown => Ok(WorkerStep::Stop),
        WorkerMessage::NextCandidate(candidate) => {
            match candidate.into_interesting(predicate) {
                Err(e) => Err(e),
                Ok(Judged::Interesting(interesting)) => Ok(WorkerStep::Report(interesting)),
                Ok(Judged::NotInteresting(candidate)) => Ok(WorkerStep::RequestNext(candidate)),
            }
        },
    }
}

} // verus!

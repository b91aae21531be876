//! Client handles to reducer actors, which generate potential reductions
//! from `traits::Reducer`s, in parallel with the workers testing them.

use super::channel::send;
use crate::error::Error;
use crate::test_case::{Candidate, Interesting};
use crate::traits::{Reducer as Reduce, ReducerState};
use std::sync::mpsc::Sender;
use vstd::prelude::*;

verus! {

/// An identifier for a reducer actor.
#[derive(Clone, Copy, Debug, PartialEq, Eq, Structural, Hash)]
pub struct ReducerId(pub usize);

impl ReducerId {
    /// The identifier with the given number.
    pub fn new(id: usize) -> (r: ReducerId)
        ensures
            r.0 == id,
    {
        ReducerId(id)
    }
}

/// Messages that can be sent to reducer actors.
#[derive(Debug)]
pub enum ReducerMessage {
    /// Stop the actor.
    Shutdown,
    /// Generate the next reduction; with the test case that the previous
    /// reduction turned out to be, when it was interesting.
    RequestNextReduction(Option<Interesting>),
    /// One of the actor's reductions was not interesting.
    NotInteresting(Candidate),
    /// Start over from a new seed.
    SetNewSeed(Interesting),
}

impl ReducerMessage {
    /// The message to stop.
    pub fn shutdown() -> (m: ReducerMessage)
        ensures
            m == ReducerMessage::Shutdown,
    {
        ReducerMessage::Shutdown
    }

    /// The message that a reduction was not interesting.
    pub fn not_interesting(test: Candidate) -> (m: ReducerMessage)
        ensures
            m == ReducerMessage::NotInteresting(test),
    {
        ReducerMessage::NotInteresting(test)
    }

    /// The message to generate the next reduction.
    pub fn request_next_reduction(interesting: Option<Interesting>) -> (m: ReducerMessage)
        ensures
            m == ReducerMessage::RequestNextReduction(interesting),
    {
        ReducerMessage::RequestNextReduction(interesting)
    }

    /// The message to start over from a new seed.
    pub fn set_new_seed(new_seed: Interesting) -> (m: ReducerMessage)
        ensures
            m == ReducerMessage::SetNewSeed(new_seed),
    {
        ReducerMessage::SetNewSeed(new_seed)
    }
}

/// A client handle to a reducer actor. Each call sends the message that the
/// `ReducerMessage` function of the same name makes.
#[derive(Clone, Debug)]
pub struct Reducer {
    pub id: ReducerId,
    pub sender: Sender<ReducerMessage>,
}

impl Reducer {
    /// Get this reducer's ID.
    pub fn id(&self) -> (id: ReducerId)
        ensures
            id == self.id,
    {
        self.id
    }

    // The supervisor does not learn whether these messages were delivered: a
    // reducer actor that died reports its demise itself.

    /// Tell this reducer to shutdown.
    pub fn shutdown(self) {
        let _ = send(&self.sender, ReducerMessage::shutdown());
    }

    /// Tell the reducer that this test case was not interesting, and
    /// therefore it can forget about the state that generated it.
    pub fn not_interesting(&self, test: Candidate) {
        let _ = send(&self.sender, ReducerMessage::not_interesting(test));
    }

    /// Ask the reducer for its next reduction, telling it which test case
    /// its previous reduction became if that one was interesting.
    pub fn request_next_reduction(&self, interesting: Option<Interesting>) {
        let _ = send(&self.sender, ReducerMessage::request_next_reduction(interesting));
    }

    /// Reseed this reducer actor with the given test case.
    pub fn set_new_seed(&self, new_seed: Interesting) {
        let _ = send(&self.sender, ReducerMessage::set_new_seed(new_seed));
    }
}

/// A reduction being tested, with the seed it was generated from and the
/// state that generated it.
#[derive(Debug)]
pub struct ActiveState {
    pub reduction: Candidate,
    pub seed: Interesting,
    pub state: ReducerState,
}

/// What a reducer actor does after handling a message.
#[derive(Debug)]
pub enum ReducerReply {
    /// Nothing is owed to anyone.
    Nothing,
    /// Stop the actor.
    Stop,
    /// Tell the supervisor that there are no more reductions of the seed.
    Exhausted,
    /// The reducer failed to reduce: log the error and tell the supervisor
    /// that there are no more reductions of the seed.
    Errored(Error),
    /// Give the supervisor the next reduction.
    Reduction(Candidate),
}

/// The entries of `active` whose reduction is not `reduction`.
pub open spec fn forget(active: Seq<ActiveState>, reduction: Candidate) -> Seq<ActiveState>
    decreases active.len(),
{
    if active.len() == 0 {
        active
    } else {
        let rest = forget(active.drop_last(), reduction);
        if active.last().reduction@ == reduction@ {
            rest
        } else {
            rest.push(active.last())
        }
    }
}

/// The last entry of `active` for `reduction`.
pub open spec fn entry_for(active: Seq<ActiveState>, reduction: Candidate) -> ActiveState
    decreases active.len(),
{
    if active.len() == 0 {
        arbitrary()
    } else if active.last().reduction@ == reduction@ {
        active.last()
    } else {
        entry_for(active.drop_last(), reduction)
    }
}

/// Whether some entry of `active` is for `reduction`.
pub open spec fn tracks(active: Seq<ActiveState>, reduction: Candidate) -> bool {
    exists|i: int| 0 <= i < active.len() && (#[trigger] active[i]).reduction@ == reduction@
}

/// A reducer actor's bookkeeping: its current seed, the state from which it
/// generates its next reduction, and the reductions it generated that are
/// being tested.
pub struct ReducerActorState {
    pub current_seed: Option<Interesting>,
    pub current_state: Option<ReducerState>,
    pub active_states: Vec<ActiveState>,
}

/// Where a request for the next reduction goes once the reducer advanced its
/// state.
#[derive(Debug)]
pub enum NextStep {
    /// Advancing failed: the request is not answered, and the error is
    /// returned.
    Failed(Error),
    /// The reducer is exhausted: the answer is that there are no more
    /// reductions.
    Exhausted,
    /// Reduce with this next state.
    Reduce(ReducerState),
}

/// Where a request for the next reduction goes once advancing the state gave
/// `outcome`: the error, exhaustion on `Ok(None)`, and reducing with the next
/// state.
pub fn after_next_state(outcome: Result<Option<ReducerState>, Error>) -> (step: NextStep)
    ensures
        match outcome {
            Err(e) => step == NextStep::Failed(e),
            Ok(None) => step == NextStep::Exhausted,
            Ok(Some(s)) => step == NextStep::Reduce(s),
        },
{
    match outcome {
        Err(e) => NextStep::Failed(e),
        Ok(None) => NextStep::Exhausted,
        Ok(Some(s)) => NextStep::Reduce(s),
    }
}

/// The reply for the outcome of reducing: see `reply_to_reduction`.
pub open spec fn reply_for(outcome: Result<Option<Candidate>, Error>) -> ReducerReply {
    match outcome {
        Ok(Some(c)) => ReducerReply::Reduction(c),
        Ok(None) => ReducerReply::Exhausted,
        Err(e) => ReducerReply::Errored(e),
    }
}

/// The one reply to a request for the next reduction, once reducing gave
/// `outcome`: the reduction, no more reductions on `Ok(None)`, and the
/// reducer's error, after which there are no more reductions either.
pub fn reply_to_reduction(outcome: Result<Option<Candidate>, Error>) -> (reply: ReducerReply)
    ensures
        reply == reply_for(outcome),
{
    match outcome {
        Ok(Some(c)) => ReducerReply::Reduction(c),
        Ok(None) => ReducerReply::Exhausted,
        Err(e) => ReducerReply::Errored(e),
    }
}

impl ReducerActorState {
    /// A reducer actor that has not been seeded yet.
    pub fn new() -> (a: ReducerActorState)
        ensures
            a.current_seed is None,
            a.current_state is None,
            a.active_states@.len() == 0,
    {
        ReducerActorState { current_seed: None, current_state: None, active_states: Vec::new() }
    }

    /// Whether the reduction is one of those being tested.
    pub fn is_active(&self, reduction: &Candidate) -> (b: bool)
        ensures
            b == tracks(self.active_states@, *reduction),
    {
        let mut i: usize = 0;
        while i < self.active_states.len()
            invariant
                i <= self.active_states@.len(),
                forall|j: int| 0 <= j < i ==> (#[trigger] self.active_states@[j]).reduction@ != reduction@,
            decreases self.active_states.len() - i,
        {
            if self.active_states[i].reduction.same_as(reduction) {
                return true;
            }
            i = i + 1;
        }
        false
    }

    /// Remove and return the entry for the reduction, which must be tracked.
    fn take_active(&mut self, reduction: &Candidate) -> (entry: ActiveState)
        requires
            tracks(old(self).active_states@, *reduction),
        ensures
            entry.reduction@ == reduction@,
            entry == entry_for(old(self).active_states@, *reduction),
            old(self).active_states@.contains(entry),
            final(self).active_states@ == forget(old(self).active_states@, *reduction),
            final(self).current_seed == old(self).current_seed,
            final(self).current_state == old(self).current_state,
    {
        let ghost before = self.active_states@;
        let ghost seed = self.current_seed;
        let ghost state = self.current_state;
        let mut remaining: Vec<ActiveState> = Vec::new();
        std::mem::swap(&mut remaining, &mut self.active_states);
        let _total = remaining.len();
        let mut found: Option<ActiveState> = None;
        let mut done: usize = 0;
        while remaining.len() > 0
            invariant
                done + remaining@.len() == before.len() <= usize::MAX,
                remaining@ == before.skip(done as int),
                self.active_states@ == forget(before.take(done as int), *reduction),
                found matches Some(e) ==> e.reduction@ == reduction@ && before.contains(e)
                    && e == entry_for(before.take(done as int), *reduction),
                found is None ==> !tracks(before.take(done as int), *reduction),
                self.current_seed == seed,
                self.current_state == state,
            decreases remaining.len(),
        {
            let e = remaining.remove(0);
            proof {
                assert(e == before[done as int]);
                assert(before.take(done + 1).drop_last() =~= before.take(done as int));
                assert(before.take(done + 1).last() == e);
                assert(before.skip(done as int).remove(0) =~= before.skip(done + 1));
            }
            if e.reduction.same_as(reduction) {
                found = Some(e);
            } else {
                proof {
                    if found is None {
                        assert forall|j: int| 0 <= j < done + 1 implies (#[trigger] before.take(done + 1)[j]).reduction@ != reduction@ by {
                            if j < done {
                                assert(before.take(done + 1)[j] == before.take(done as int)[j]);
                            }
                        }
                    }
                }
                self.active_states.push(e);
            }
            done = done + 1;
        }
        proof {
            assert(before.take(done as int) =~= before);
        }
        found.unwrap()
    }

    /// Handle a message: reseed, forget a reduction that was not
    /// interesting, or generate the next reduction with `reducer`.
    ///
    /// A request for the next reduction is answered with exactly one reply,
    /// unless advancing the state fails: what advancing gives decides as
    /// `after_next_state` says, and what reducing gives as
    /// `reply_to_reduction` says. For a reducer that obeys its spec
    /// functions, the reply is stated in full: the current state (or, after
    /// an interesting reduction, the state that generated it, with its seed)
    /// is advanced, and the current seed is reduced with the next state.
    ///
    /// A message to generate the next reduction may only come after a seed,
    /// and with an interesting test case only if that test case is one of
    /// this actor's reductions being tested.
    pub fn handle<R: Reduce + ?Sized>(&mut self, reducer: &mut R, message: ReducerMessage) -> (r: Result<ReducerReply, Error>)
        requires
            message matches ReducerMessage::NotInteresting(c) ==> tracks(old(self).active_states@, c),
            message matches ReducerMessage::RequestNextReduction(i) ==> old(self).current_seed is Some,
            message matches ReducerMessage::RequestNextReduction(Some(i)) ==> (
                i.spec_candidate() matches Some(c) && tracks(old(self).active_states@, c)),
        ensures
            message is Shutdown ==> r == Ok::<ReducerReply, Error>(ReducerReply::Stop) && *final(self) == *old(self),
            message matches ReducerMessage::SetNewSeed(seed) ==> {
                &&& r is Ok ==> r == Ok::<ReducerReply, Error>(ReducerReply::Nothing)
                    && final(self).current_seed == Some(seed) && final(self).current_state is Some
                &&& final(self).active_states@ == old(self).active_states@
            },
            message matches ReducerMessage::NotInteresting(c) ==> {
                &&& r == Ok::<ReducerReply, Error>(ReducerReply::Nothing)
                &&& final(self).active_states@ == forget(old(self).active_states@, c)
                &&& final(self).current_seed == old(self).current_seed
                &&& final(self).current_state == old(self).current_state
            },
            message matches ReducerMessage::RequestNextReduction(None) && old(self).current_state is None ==> {
                &&& r == Ok::<ReducerReply, Error>(ReducerReply::Exhausted)
                &&& *final(self) == *old(self)
            },
            message is RequestNextReduction ==> {
                &&& r matches Ok(ReducerReply::Reduction(c)) ==> final(self).current_state is Some
                    && final(self).active_states@.len() > 0
                    && final(self).active_states@.last().reduction@ == c@
                    && final(self).active_states@.last().seed@ == old(self).current_seed->Some_0@
                &&& r matches Ok(ReducerReply::Exhausted) ==> final(self).current_state is None
                &&& r matches Ok(ReducerReply::Errored(_)) ==> final(self).current_state is None
                &&& r is Ok ==> !(r matches Ok(ReducerReply::Nothing)) && !(r matches Ok(ReducerReply::Stop))
            },
            message matches ReducerMessage::SetNewSeed(seed) ==> (old(reducer).obeys_reducer_spec() ==> match old(
                reducer,
            ).spec_new_state(seed@) {
                Ok(s) => r == Ok::<ReducerReply, Error>(ReducerReply::Nothing) && final(self).current_state == Some(s),
                Err(e) => r == Err::<ReducerReply, Error>(e),
            }),
            message matches ReducerMessage::RequestNextReduction(interesting) ==> (old(self).current_state is Some
                && old(reducer).obeys_reducer_spec() ==> {
                let seed = old(self).current_seed->Some_0;
                let advanced = match interesting {
                    None => old(reducer).spec_next_state(seed@, old(self).current_state->Some_0).0,
                    Some(i) => {
                        let e = entry_for(old(self).active_states@, i.spec_candidate()->Some_0);
                        old(reducer).spec_next_state_on_interesting(i@, e.seed@, e.state).0
                    },
                };
                match advanced {
                    Err(e) => r == Err::<ReducerReply, Error>(e),
                    Ok(None) => r == Ok::<ReducerReply, Error>(ReducerReply::Exhausted),
                    Ok(Some(s)) => r == Ok::<ReducerReply, Error>(reply_for(old(reducer).spec_reduce(seed@, s).0)),
                }
            }),
    {
        match message {
            ReducerMessage::Shutdown => Ok(ReducerReply::Stop),
            ReducerMessage::SetNewSeed(new_seed) => {
                match reducer.new_state(&new_seed) {
                    Err(e) => Err(e),
                    Ok(state) => {
                        self.current_state = Some(state);
                        self.current_seed = Some(new_seed);
                        Ok(ReducerReply::Nothing)
                    },
                }
            },
            ReducerMessage::NotInteresting(reduction) => {
                let _ = self.take_active(&reduction);
                Ok(ReducerReply::Nothing)
            },
            ReducerMessage::RequestNextReduction(interesting) => {
                let seed = match &self.current_seed {
                    Some(s) => s.duplicate(),
                    None => {
                        return Ok(ReducerReply::Exhausted);
                    },
                };
                let mut state = match self.current_state.take() {
                    Some(s) => s,
                    None => {
                        return Ok(ReducerReply::Exhausted);
                    },
                };
                let next_state = match interesting {
                    None => reducer.next_state(&seed, &mut state),
                    Some(new_seed) => {
                        let entry = match new_seed.as_candidate() {
                            Some(c) => self.take_active(c),
                            None => {
                                return Ok(ReducerReply::Exhausted);
                            },
                        };
                        let mut old_state = entry.state;
                        let next = reducer.next_state_on_interesting(&new_seed, &entry.seed, &mut old_state);
                        self.current_seed = Some(new_seed);
                        next
                    },
                };
                let mut next_state = match after_next_state(next_state) {
                    NextStep::Failed(e) => {
                        return Err(e);
                    },
                    NextStep::Exhausted => {
                        return Ok(ReducerReply::Exhausted);
                    },
                    NextStep::Reduce(s) => s,
                };
                match reducer.reduce(&seed, &mut next_state) {
                    Ok(Some(reduction)) => {
                        let cloned_state = reducer.clone_state(&next_state);
                        if self.is_active(&reduction) {
                            let _ = self.take_active(&reduction);
                        }
                        self.active_states.push(ActiveState { reduction: reduction.duplicate(), seed, state: cloned_state });
                        self.current_state = Some(next_state);
                        Ok(reply_to_reduction(Ok(Some(reduction))))
                    },
                    outcome => Ok(reply_to_reduction(outcome)),
                }
            },
        }
    }
}

} // verus!

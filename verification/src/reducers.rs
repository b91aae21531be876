//! Reducer combinators.

use crate::error::Error;
use crate::test_case::{Candidate, Interesting, TestCaseView};
use crate::traits::{FuseState, Reducer, ReducerState};
use vstd::prelude::*;

verus! {

/// A `Fuse`d state whose reducer has errored or been exhausted.
pub open spec fn is_finished(s: ReducerState) -> bool {
    s == ReducerState::Fused(FuseState::Finished)
}

/// A `Fuse`d state whose reducer may still go on.
pub open spec fn is_running(s: ReducerState) -> bool {
    s matches ReducerState::Fused(FuseState::NotFinished(_))
}

/// What a `Fuse` guarantees of a call that advanced, or reduced with, the
/// state `old` into `new` and returned `outcome`: a state that is not
/// running gives `Ok(None)` and stays as it is; a running state stays
/// running when the call produced something, and is finished otherwise.
pub open spec fn fuse_step<T>(old: ReducerState, new: ReducerState, outcome: Result<Option<T>, Error>) -> bool {
    if is_running(old) {
        match outcome {
            Ok(Some(_)) => is_running(new),
            _ => is_finished(new),
        }
    } else {
        outcome == Ok::<Option<T>, Error>(None) && new == old
    }
}

/// A reducer which ends after the first `Ok(None)` or `Err`.
///
/// Analogous to `std::iter::Iterator::fuse`: once the inner reducer has
/// either yielded an error or signaled exhaustion on a state, the fused
/// reducer returns `Ok(None)` for that state forever after, until it is
/// given a new state.
#[derive(Clone, Debug, PartialEq, Eq)]
pub struct Fuse<R> {
    inner: R,
}

impl<R> Fuse<R> {
    /// The fused reducer.
    pub closed spec fn spec_inner(&self) -> R {
        self.inner
    }

    /// Wrap the given reducer in a `Fuse`.
    pub fn new(inner: R) -> (f: Fuse<R>)
        ensures
            f.spec_inner() == inner,
    {
        Fuse { inner }
    }
}

impl<R: Reducer> Reducer for Fuse<R> {
    open spec fn obeys_reducer_spec(&self) -> bool {
        self.spec_inner().obeys_reducer_spec()
    }

    open spec fn spec_new_state(&self, seed: TestCaseView) -> Result<ReducerState, Error> {
        fused_new_state(self.spec_inner().spec_new_state(seed))
    }

    open spec fn spec_clone_state(&self, state: ReducerState) -> ReducerState {
        match state {
            ReducerState::Fused(FuseState::NotFinished(inner)) => ReducerState::Fused(
                FuseState::NotFinished(Box::new(self.spec_inner().spec_clone_state(*inner))),
            ),
            _ => ReducerState::Fused(FuseState::Finished),
        }
    }

    open spec fn spec_next_state(&self, seed: TestCaseView, prev: ReducerState) -> (Result<Option<ReducerState>, Error>, ReducerState) {
        match prev {
            ReducerState::Fused(FuseState::NotFinished(inner)) => {
                let (outcome, kept) = self.spec_inner().spec_next_state(seed, *inner);
                fused_advance(kept, outcome)
            },
            other => (Ok(None), other),
        }
    }

    open spec fn spec_next_state_on_interesting(
        &self,
        new_seed: TestCaseView,
        old_seed: TestCaseView,
        prev: ReducerState,
    ) -> (Result<Option<ReducerState>, Error>, ReducerState) {
        match prev {
            ReducerState::Fused(FuseState::NotFinished(inner)) => {
                let (outcome, kept) = self.spec_inner().spec_next_state_on_interesting(new_seed, old_seed, *inner);
                fused_advance(kept, outcome)
            },
            other => (Ok(None), other),
        }
    }

    open spec fn spec_reduce(&self, seed: TestCaseView, state: ReducerState) -> (Result<Option<Candidate>, Error>, ReducerState) {
        match state {
            ReducerState::Fused(FuseState::NotFinished(inner)) => {
                let (outcome, kept) = self.spec_inner().spec_reduce(seed, *inner);
                fused_reduction(kept, outcome)
            },
            other => (Ok(None), other),
        }
    }

    open spec fn spec_name(&self) -> Seq<char> {
        self.spec_inner().spec_name()
    }

    /// The name of the fused reducer.
    fn name(&self) -> (n: String)
        ensures
            n@ == self.spec_inner().spec_name(),
    {
        self.inner.name()
    }

    /// A running state around the inner reducer's new state.
    fn new_state(&mut self, seed: &Interesting) -> (r: Result<ReducerState, Error>)
        ensures
            r matches Ok(s) ==> is_running(s),
    {
        fuse_new_state(self.inner.new_state(seed))
    }

    /// A finished state clones to a finished state, and a running one to a
    /// running one.
    fn clone_state(&self, state: &ReducerState) -> (c: ReducerState)
        ensures
            is_running(*state) ==> is_running(c),
            !is_running(*state) ==> is_finished(c),
    {
        match state {
            ReducerState::Fused(FuseState::NotFinished(inner)) => {
                ReducerState::Fused(FuseState::NotFinished(Box::new(self.inner.clone_state(&**inner))))
            },
            _ => ReducerState::Fused(FuseState::Finished),
        }
    }

    fn next_state(&mut self, seed: &Interesting, prev_state: &mut ReducerState) -> (r: Result<Option<ReducerState>, Error>)
        ensures
            fuse_step(*old(prev_state), *final(prev_state), r),
            r matches Ok(Some(s)) ==> is_running(s),
    {
        let mut state = ReducerState::Fused(FuseState::Finished);
        std::mem::swap(&mut state, prev_state);
        match state {
            ReducerState::Fused(FuseState::NotFinished(boxed)) => {
                let mut inner = *boxed;
                let outcome = self.inner.next_state(seed, &mut inner);
                let (r, kept) = fuse_advance(inner, outcome);
                *prev_state = kept;
                r
            },
            other => {
                *prev_state = other;
                Ok(None)
            },
        }
    }

    fn next_state_on_interesting(
        &mut self,
        new_seed: &Interesting,
        old_seed: &Interesting,
        prev_state: &mut ReducerState,
    ) -> (r: Result<Option<ReducerState>, Error>)
        ensures
            fuse_step(*old(prev_state), *final(prev_state), r),
            r matches Ok(Some(s)) ==> is_running(s),
    {
        let mut state = ReducerState::Fused(FuseState::Finished);
        std::mem::swap(&mut state, prev_state);
        match state {
            ReducerState::Fused(FuseState::NotFinished(boxed)) => {
                let mut inner = *boxed;
                let outcome = self.inner.next_state_on_interesting(new_seed, old_seed, &mut inner);
                let (r, kept) = fuse_advance(inner, outcome);
                *prev_state = kept;
                r
            },
            other => {
                *prev_state = other;
                Ok(None)
            },
        }
    }

    fn fast_forward_states(&mut self, seed: &Interesting, n: usize, prev_state: &mut ReducerState) -> (r: Result<Option<ReducerState>, Error>)
        ensures
            fuse_step(*old(prev_state), *final(prev_state), r),
            r matches Ok(Some(s)) ==> is_running(s),
    {
        let mut state = ReducerState::Fused(FuseState::Finished);
        std::mem::swap(&mut state, prev_state);
        match state {
            ReducerState::Fused(FuseState::NotFinished(boxed)) => {
                let mut inner = *boxed;
                let outcome = self.inner.fast_forward_states(seed, n, &mut inner);
                let (r, kept) = fuse_advance(inner, outcome);
                *prev_state = kept;
                r
            },
            other => {
                *prev_state = other;
                Ok(None)
            },
        }
    }

    fn reduce(&mut self, seed: &Interesting, state: &mut ReducerState) -> (r: Result<Option<Candidate>, Error>)
        ensures
            fuse_step(*old(state), *final(state), r),
    {
        let mut current = ReducerState::Fused(FuseState::Finished);
        std::mem::swap(&mut current, state);
        match current {
            ReducerState::Fused(FuseState::NotFinished(boxed)) => {
                let mut inner = *boxed;
                let outcome = self.inner.reduce(seed, &mut inner);
                let (r, kept) = fuse_reduction(inner, outcome);
                *state = kept;
                r
            },
            other => {
                *state = other;
                Ok(None)
            },
        }
    }
}

/// What a `Fuse` makes of the inner reducer's new state: it is wrapped as a
/// running state, and an error is kept as it is.
pub open spec fn fused_new_state(outcome: Result<ReducerState, Error>) -> Result<ReducerState, Error> {
    match outcome {
        Ok(inner) => Ok(ReducerState::Fused(FuseState::NotFinished(Box::new(inner)))),
        Err(e) => Err(e),
    }
}

/// What a `Fuse` returns, and the state it keeps, once the inner reducer
/// advanced and left its state as `inner`, with `outcome`: a next state is
/// returned wrapped as running, and `inner` is kept running; `Ok(None)` or
/// an error is returned as it is, and the state is finished.
pub open spec fn fused_advance(inner: ReducerState, outcome: Result<Option<ReducerState>, Error>) -> (Result<Option<ReducerState>, Error>, ReducerState) {
    match outcome {
        Ok(Some(next)) => (
            Ok(Some(ReducerState::Fused(FuseState::NotFinished(Box::new(next))))),
            ReducerState::Fused(FuseState::NotFinished(Box::new(inner))),
        ),
        Ok(None) => (Ok(None), ReducerState::Fused(FuseState::Finished)),
        Err(e) => (Err(e), ReducerState::Fused(FuseState::Finished)),
    }
}

/// What a `Fuse` returns, and the state it keeps, once the inner reducer
/// reduced and left its state as `inner`, with `outcome`: the outcome is
/// returned as it is; after a reduction `inner` is kept running, and after
/// `Ok(None)` or an error the state is finished.
pub open spec fn fused_reduction(inner: ReducerState, outcome: Result<Option<Candidate>, Error>) -> (Result<Option<Candidate>, Error>, ReducerState) {
    match outcome {
        Ok(Some(c)) => (Ok(Some(c)), ReducerState::Fused(FuseState::NotFinished(Box::new(inner)))),
        Ok(None) => (Ok(None), ReducerState::Fused(FuseState::Finished)),
        Err(e) => (Err(e), ReducerState::Fused(FuseState::Finished)),
    }
}

/// What a `Fuse` makes of the inner reducer's new state: it is wrapped as a
/// running state, and an error is returned as it is.
pub fn fuse_new_state(outcome: Result<ReducerState, Error>) -> (r: Result<ReducerState, Error>)
    ensures
        r == fused_new_state(outcome),
{
    match outcome {
        Err(e) => Err(e),
        Ok(inner) => Ok(ReducerState::Fused(FuseState::NotFinished(Box::new(inner)))),
    }
}

/// What a `Fuse` returns, and the state it keeps, once the inner reducer
/// advanced from the inner state `inner` and returned `outcome`: a next
/// state is returned wrapped as running, and `inner` is kept running;
/// `Ok(None)` or an error is returned as it is, and the state is finished.
pub fn fuse_advance(inner: ReducerState, outcome: Result<Option<ReducerState>, Error>) -> (r: (Result<Option<ReducerState>, Error>, ReducerState))
    ensures
        r == fused_advance(inner, outcome),
{
    match outcome {
        Ok(Some(next)) => (
            Ok(Some(ReducerState::Fused(FuseState::NotFinished(Box::new(next))))),
            ReducerState::Fused(FuseState::NotFinished(Box::new(inner))),
        ),
        Ok(None) => (Ok(None), ReducerState::Fused(FuseState::Finished)),
        Err(e) => (Err(e), ReducerState::Fused(FuseState::Finished)),
    }
}

/// What a `Fuse` returns, and the state it keeps, once the inner reducer
/// reduced with the inner state `inner` and returned `outcome`: the outcome
/// is returned as it is; after a reduction `inner` is kept running, and
/// after `Ok(None)` or an error the state is finished.
pub fn fuse_reduction(inner: ReducerState, outcome: Result<Option<Candidate>, Error>) -> (r: (Result<Option<Candidate>, Error>, ReducerState))
    ensures
        r == fused_reduction(inner, outcome),
{
    match outcome {
        Ok(Some(candidate)) => (Ok(Some(candidate)), ReducerState::Fused(FuseState::NotFinished(Box::new(inner)))),
        Ok(None) => (Ok(None), ReducerState::Fused(FuseState::Finished)),
        Err(e) => (Err(e), ReducerState::Fused(FuseState::Finished)),
    }
}

/// Once a fused state is finished, advancing or reducing with it gives
/// `Ok(None)` and leaves it finished.
pub proof fn lemma_finished_stays_finished<T>(old: ReducerState, new: ReducerState, outcome: Result<Option<T>, Error>)
    requires
        is_finished(old),
        fuse_step(old, new, outcome),
    ensures
        outcome == Ok::<Option<T>, Error>(None),
        is_finished(new),
{
}

} // verus!

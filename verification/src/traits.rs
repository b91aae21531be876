//! Interfaces and common behaviors.

use crate::error::Error;
use crate::score::Score;
use crate::test_case::{Candidate, Interesting, TestCaseView};
use vstd::prelude::*;

verus! {

/// The state of a reducer, from which it generates one potential reduction.
///
/// A reducer is only ever given back states that it created itself.
#[derive(Debug, PartialEq, Eq)]
pub enum ReducerState {
    /// A reducer's own state, encoded in a form of its choosing (for example
    /// the JSON value that a reducer script handed out).
    Encoded(Vec<u8>),
    /// The state of a `Fuse`d reducer.
    Fused(FuseState),
}

/// The state of a `Fuse`d reducer.
#[derive(Debug, PartialEq, Eq)]
pub enum FuseState {
    /// The reducer has errored or has been exhausted.
    Finished,
    /// The state of the inner reducer.
    NotFinished(Box<ReducerState>),
}

/// A reducer generates potentially-interesting reductions from a
/// known-interesting initial seed test case.
///
/// Reducers should produce potentially-interesting reductions that are
/// smaller in size than the given known-interesting seed, and that are,
/// generally speaking, likely to be found interesting. This is analogous to a
/// "pass" in C-Reduce.
///
/// `preduce` tests many reductions concurrently, even reductions generated
/// from the same reducer. When a reduction is found to be interesting, the
/// `ReducerState` that generated it says which way the search continues.
pub trait Reducer: Send {
    /// Whether this reducer's results are the ones its spec functions give
    /// (`spec_new_state`, `spec_clone_state`, `spec_next_state`,
    /// `spec_next_state_on_interesting`, `spec_reduce`), and its calls leave
    /// it as it is.
    ///
    /// Verified implementations define these. Implementations written in
    /// plain Rust cannot, and keep the defaults, which claim nothing of them.
    closed spec fn obeys_reducer_spec(&self) -> bool {
        false
    }

    /// The initial state for a seed.
    closed spec fn spec_new_state(&self, seed: TestCaseView) -> Result<ReducerState, Error> {
        arbitrary()
    }

    /// A clone of a state.
    closed spec fn spec_clone_state(&self, state: ReducerState) -> ReducerState {
        arbitrary()
    }

    /// The outcome of advancing from `prev` with `seed`, and what becomes of
    /// `prev`.
    closed spec fn spec_next_state(&self, seed: TestCaseView, prev: ReducerState) -> (Result<Option<ReducerState>, Error>, ReducerState) {
        arbitrary()
    }

    /// The outcome of advancing from `prev` after it produced `new_seed` from
    /// `old_seed`, and what becomes of `prev`.
    closed spec fn spec_next_state_on_interesting(
        &self,
        new_seed: TestCaseView,
        old_seed: TestCaseView,
        prev: ReducerState,
    ) -> (Result<Option<ReducerState>, Error>, ReducerState) {
        arbitrary()
    }

    /// The outcome of reducing `seed` with `state`, and what becomes of
    /// `state`.
    closed spec fn spec_reduce(&self, seed: TestCaseView, state: ReducerState) -> (Result<Option<Candidate>, Error>, ReducerState) {
        arbitrary()
    }

    /// This reducer's unique name.
    ///
    /// Verified implementations define it. Implementations written in plain
    /// Rust cannot, and keep this default; verified code only ever sees the
    /// name through a type parameter, for which the default body is not
    /// unfolded.
    closed spec fn spec_name(&self) -> Seq<char> {
        arbitrary()
    }

    /// This reducer's unique name.
    fn name(&self) -> (n: String)
        ensures
            n@ == self.spec_name(),
    ;

    /// Create the initial state for this known-interesting seed test case.
    fn new_state(&mut self, seed: &Interesting) -> (r: Result<ReducerState, Error>)
        ensures
            old(self).obeys_reducer_spec() ==> r == old(self).spec_new_state(seed@),
            old(self).obeys_reducer_spec() ==> final(self).obeys_reducer_spec()
                && (forall|x: TestCaseView| #[trigger] final(self).spec_new_state(x) == old(self).spec_new_state(x))
                && (forall|x: ReducerState| #[trigger] final(self).spec_clone_state(x) == old(self).spec_clone_state(x))
                && (forall|x: TestCaseView, y: ReducerState| #[trigger] final(self).spec_next_state(x, y)
                    == old(self).spec_next_state(x, y))
                && (forall|x: TestCaseView, y: TestCaseView, z: ReducerState|
                    #[trigger] final(self).spec_next_state_on_interesting(x, y, z)
                    == old(self).spec_next_state_on_interesting(x, y, z))
                && (forall|x: TestCaseView, y: ReducerState| #[trigger] final(self).spec_reduce(x, y)
                    == old(self).spec_reduce(x, y)),
    ;

    /// Clone some state previously returned by this reducer.
    fn clone_state(&self, state: &ReducerState) -> (c: ReducerState)
        ensures
            self.obeys_reducer_spec() ==> c == self.spec_clone_state(*state),
    ;

    /// Advance to the next state.
    ///
    /// We don't know whether the reduction produced with `prev_state` was
    /// interesting or not. If the reducer has exhausted all reductions, and
    /// there is no next state, then it returns `None`.
    fn next_state(&mut self, seed: &Interesting, prev_state: &mut ReducerState) -> (r: Result<Option<ReducerState>, Error>)
        ensures
            old(self).obeys_reducer_spec() ==> (r, *final(prev_state)) == old(self).spec_next_state(
                seed@,
                *old(prev_state),
            ),
            old(self).obeys_reducer_spec() ==> final(self).obeys_reducer_spec()
                && (forall|x: TestCaseView| #[trigger] final(self).spec_new_state(x) == old(self).spec_new_state(x))
                && (forall|x: ReducerState| #[trigger] final(self).spec_clone_state(x) == old(self).spec_clone_state(x))
                && (forall|x: TestCaseView, y: ReducerState| #[trigger] final(self).spec_next_state(x, y)
                    == old(self).spec_next_state(x, y))
                && (forall|x: TestCaseView, y: TestCaseView, z: ReducerState|
                    #[trigger] final(self).spec_next_state_on_interesting(x, y, z)
                    == old(self).spec_next_state_on_interesting(x, y, z))
                && (forall|x: TestCaseView, y: ReducerState| #[trigger] final(self).spec_reduce(x, y)
                    == old(self).spec_reduce(x, y)),
    ;

    /// Advance to the next state, given that the previous state produced the
    /// known-interesting `new_seed` from `old_seed`.
    fn next_state_on_interesting(
        &mut self,
        new_seed: &Interesting,
        old_seed: &Interesting,
        prev_state: &mut ReducerState,
    ) -> (r: Result<Option<ReducerState>, Error>)
        ensures
            old(self).obeys_reducer_spec() ==> (r, *final(prev_state)) == old(self).spec_next_state_on_interesting(
                new_seed@,
                old_seed@,
                *old(prev_state),
            ),
            old(self).obeys_reducer_spec() ==> final(self).obeys_reducer_spec()
                && (forall|x: TestCaseView| #[trigger] final(self).spec_new_state(x) == old(self).spec_new_state(x))
                && (forall|x: ReducerState| #[trigger] final(self).spec_clone_state(x) == old(self).spec_clone_state(x))
                && (forall|x: TestCaseView, y: ReducerState| #[trigger] final(self).spec_next_state(x, y)
                    == old(self).spec_next_state(x, y))
                && (forall|x: TestCaseView, y: TestCaseView, z: ReducerState|
                    #[trigger] final(self).spec_next_state_on_interesting(x, y, z)
                    == old(self).spec_next_state_on_interesting(x, y, z))
                && (forall|x: TestCaseView, y: ReducerState| #[trigger] final(self).spec_reduce(x, y)
                    == old(self).spec_reduce(x, y)),
    ;

    /// Skip over the next `n` states, returning an eagerly advanced state, or
    /// `None` if the reducer is exhausted within `n` steps.
    ///
    /// By default, this calls `next_state` `n` times, each time on the state
    /// the previous call gave, and stops at the first `Ok(None)` or error,
    /// which it returns (see `advance_step`). With `n == 0`, it returns a
    /// clone of `prev_state`.
    fn fast_forward_states(&mut self, seed: &Interesting, n: usize, prev_state: &mut ReducerState) -> (r: Result<Option<ReducerState>, Error>)
        default_ensures
            n == 0 ==> r is Ok && r->Ok_0 is Some,
            old(self).obeys_reducer_spec() ==> final(self).obeys_reducer_spec()
                && (forall|x: TestCaseView| #[trigger] final(self).spec_new_state(x) == old(self).spec_new_state(x))
                && (forall|x: ReducerState| #[trigger] final(self).spec_clone_state(x) == old(self).spec_clone_state(x))
                && (forall|x: TestCaseView, y: ReducerState| #[trigger] final(self).spec_next_state(x, y)
                    == old(self).spec_next_state(x, y))
                && (forall|x: TestCaseView, y: TestCaseView, z: ReducerState|
                    #[trigger] final(self).spec_next_state_on_interesting(x, y, z)
                    == old(self).spec_next_state_on_interesting(x, y, z))
                && (forall|x: TestCaseView, y: ReducerState| #[trigger] final(self).spec_reduce(x, y)
                    == old(self).spec_reduce(x, y)),
            old(self).obeys_reducer_spec() && n == 0 ==> r == Ok::<Option<ReducerState>, Error>(
                Some(old(self).spec_clone_state(*old(prev_state))),
            ) && *final(prev_state) == *old(prev_state),
            old(self).obeys_reducer_spec() && n > 0 ==> *final(prev_state) == old(self).spec_next_state(
                seed@,
                *old(prev_state),
            ).1,
            old(self).obeys_reducer_spec() && n > 0 ==> exists|c: Seq<ReducerState>|
                #![trigger c.last()]
                1 <= c.len() <= n + 1 && c[0] == *old(prev_state) && (forall|k: int|
                    0 <= k < c.len() - 1 ==> #[trigger] old(self).spec_next_state(seed@, c[k]).0
                        == Ok::<Option<ReducerState>, Error>(Some(c[k + 1]))) && (if c.len() == n + 1 {
                    r == Ok::<Option<ReducerState>, Error>(Some(c.last()))
                } else {
                    r == old(self).spec_next_state(seed@, c.last()).0 && !(r is Ok && r->Ok_0 is Some)
                }),
    {
        let ghost p0 = *prev_state;
        let ghost obeys = old(self).obeys_reducer_spec();
        if n == 0 {
            return Ok(Some(self.clone_state(prev_state)));
        }
        let first = self.next_state(seed, prev_state);
        let ghost mut c: Seq<ReducerState> = seq![p0];
        let mut state = match advance_step(first) {
            Advance::Continue(s) => s,
            Advance::Stop(r) => {
                proof {
                    if obeys {
                        assert(c.last() == p0);
                    }
                }
                return r;
            },
        };
        proof {
            c = c.push(state);
            if obeys {
                assert(old(self).spec_next_state(seed@, c[0]).0 == Ok::<Option<ReducerState>, Error>(Some(c[1])));
            }
        }
        let mut i: usize = 1;
        while i < n
            invariant
                1 <= i <= n,
                c.len() == i + 1,
                c[0] == p0,
                p0 == *old(prev_state),
                c[i as int] == state,
                obeys == old(self).obeys_reducer_spec(),
obeys ==> self.obeys_reducer_spec()
                    && (forall|x: TestCaseView| #[trigger] self.spec_new_state(x) == old(self).spec_new_state(x))
                    && (forall|x: ReducerState| #[trigger] self.spec_clone_state(x) == old(self).spec_clone_state(x))
                    && (forall|x: TestCaseView, y: ReducerState| #[trigger] self.spec_next_state(x, y)
                        == old(self).spec_next_state(x, y))
                    && (forall|x: TestCaseView, y: TestCaseView, z: ReducerState|
                        #[trigger] self.spec_next_state_on_interesting(x, y, z)
                        == old(self).spec_next_state_on_interesting(x, y, z))
                    && (forall|x: TestCaseView, y: ReducerState| #[trigger] self.spec_reduce(x, y)
                        == old(self).spec_reduce(x, y)),
                obeys ==> *prev_state == old(self).spec_next_state(seed@, p0).1,
                obeys ==> forall|k: int|
                    0 <= k < i ==> #[trigger] old(self).spec_next_state(seed@, c[k]).0 == Ok::<Option<ReducerState>, Error>(Some(c[k + 1])),
            decreases n - i,
        {
            let ghost before = state;
            let outcome = self.next_state(seed, &mut state);
            match advance_step(outcome) {
                Advance::Continue(s) => {
                    proof {
                        let old_c = c;
                        c = c.push(s);
                        if obeys {
                            assert forall|k: int| 0 <= k < i + 1 implies #[trigger] old(self).spec_next_state(seed@, c[k]).0
                                == Ok::<Option<ReducerState>, Error>(Some(c[k + 1])) by {
                                if k < i {
                                    assert(c[k] == old_c[k] && c[k + 1] == old_c[k + 1]);
                                } else {
                                    assert(c[k] == before);
                                }
                            }
                        }
                    }
                    state = s;
                },
                Advance::Stop(r) => {
                    proof {
                        if obeys {
                            assert(r == old(self).spec_next_state(seed@, before).0);
                            assert(c.last() == before);
                            assert(forall|k: int| 0 <= k < c.len() - 1 ==> #[trigger] old(self).spec_next_state(seed@, c[k]).0
                                == Ok::<Option<ReducerState>, Error>(Some(c[k + 1])));
                        }
                    }
                    return r;
                },
            }
            i = i + 1;
        }
        proof {
            assert(c.last() == state);
        }
        Ok(Some(state))
    }

    /// Generate a potentially-interesting reduction of the known-interesting
    /// seed test case with the given state, or `None` if the reducer has
    /// exhausted all of its reductions.
    fn reduce(&mut self, seed: &Interesting, state: &mut ReducerState) -> (r: Result<Option<Candidate>, Error>)
        ensures
            old(self).obeys_reducer_spec() ==> (r, *final(state)) == old(self).spec_reduce(seed@, *old(state)),
            old(self).obeys_reducer_spec() ==> final(self).obeys_reducer_spec()
                && (forall|x: TestCaseView| #[trigger] final(self).spec_new_state(x) == old(self).spec_new_state(x))
                && (forall|x: ReducerState| #[trigger] final(self).spec_clone_state(x) == old(self).spec_clone_state(x))
                && (forall|x: TestCaseView, y: ReducerState| #[trigger] final(self).spec_next_state(x, y)
                    == old(self).spec_next_state(x, y))
                && (forall|x: TestCaseView, y: TestCaseView, z: ReducerState|
                    #[trigger] final(self).spec_next_state_on_interesting(x, y, z)
                    == old(self).spec_next_state_on_interesting(x, y, z))
                && (forall|x: TestCaseView, y: ReducerState| #[trigger] final(self).spec_reduce(x, y)
                    == old(self).spec_reduce(x, y)),
    ;
}

/// What to do with the outcome of one `next_state` call while skipping over
/// states.
#[derive(Debug)]
pub enum Advance {
    /// Go on from this next state.
    Continue(ReducerState),
    /// Stop, and return this outcome.
    Stop(Result<Option<ReducerState>, Error>),
}

/// The step that skipping over states takes after one `next_state` call
/// gave `outcome`: go on from a next state; stop with `Ok(None)` when the
/// reducer is exhausted, and with the error when it failed.
pub fn advance_step(outcome: Result<Option<ReducerState>, Error>) -> (a: Advance)
    ensures
        match outcome {
            Ok(Some(s)) => a == Advance::Continue(s),
            Ok(None) => a == Advance::Stop(Ok(None)),
            Err(e) => a == Advance::Stop(Err(e)),
        },
{
    match outcome {
        Ok(Some(s)) => Advance::Continue(s),
        Ok(None) => Advance::Stop(Ok(None)),
        Err(e) => Advance::Stop(Err(e)),
    }
}

/// Is a potential reduction interesting?
///
/// If a potential reduction is not interesting, then it is abandoned, along
/// with further potential reductions of it. If it is interesting, then it is
/// a candidate for the current most-reduced test case.
///
/// An is-interesting test should be deterministic and idempotent: `judges`
/// is the verdict it gives on each test case, for a test that
/// `obeys_judges`.
pub trait IsInteresting: Send {
    /// Whether this test's verdicts are the ones `judges` gives.
    ///
    /// Verified implementations define it. Implementations written in plain
    /// Rust cannot, and keep this default, which claims nothing of them.
    closed spec fn obeys_judges(&self) -> bool {
        false
    }

    /// Whether this test finds the test case at the given path interesting.
    ///
    /// Verified implementations define it; for other implementations it
    /// describes nothing, as they do not `obey_judges`.
    closed spec fn judges(&self, path: Seq<char>) -> bool {
        arbitrary()
    }

    /// Return `true` if the test case at the given path is interesting,
    /// `false` otherwise.
    fn is_interesting(&self, potential_reduction: &str) -> (r: Result<bool, Error>)
        ensures
            self.obeys_judges() ==> (r matches Ok(b) ==> b == self.judges(potential_reduction@)),
    ;
}

/// An oracle observes the results of interesting-ness judgements of
/// reductions and then predicts the interesting-ness of future reductions by
/// scoring them. The scores are used to prioritize and schedule work.
pub trait Oracle: Send {
    /// Tell the oracle that we found a new smallest interesting test case.
    fn observe_smallest_interesting(&mut self, interesting: &Interesting);

    /// Tell the oracle that we found a new interesting test case, but that it
    /// is not the smallest.
    fn observe_not_smallest_interesting(&mut self, interesting: &Interesting);

    /// Tell the oracle that we found the given reduction uninteresting.
    fn observe_not_interesting(&mut self, reduction: &Candidate);

    /// Tell the oracle that the reducer with the given name has been
    /// exhausted.
    fn observe_exhausted(&mut self, reducer_name: &str);

    /// Score the given potential reduction, so we know how to prioritize
    /// testing it.
    fn predict(&mut self, reduction: &Candidate) -> Score;
}

} // verus!

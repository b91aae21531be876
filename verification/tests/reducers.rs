use preduce::traits::{advance_step, Advance};
use preduce::reducers::{fuse_advance, fuse_new_state, fuse_reduction};
use preduce::error::Error;
use preduce::reducers::Fuse;
use preduce::test_case::{Candidate, Interesting};
use preduce::traits::{FuseState, IsInteresting, Reducer, ReducerState};

struct Yes;

impl IsInteresting for Yes {
    fn is_interesting(&self, _potential_reduction: &str) -> Result<bool, Error> {
        Ok(true)
    }
}

fn seed() -> Interesting {
    Interesting::initial("seed".to_string(), b"", &Yes).unwrap().unwrap()
}

/// A reducer that produces a reduction, then none, then an error, and so on.
#[derive(Clone, Debug)]
struct Erratic(usize);

impl Reducer for Erratic {
    fn name(&self) -> String {
        "Erratic".to_string()
    }

    fn new_state(&mut self, _: &Interesting) -> Result<ReducerState, Error> {
        Ok(ReducerState::Encoded(vec![]))
    }

    fn clone_state(&self, _: &ReducerState) -> ReducerState {
        ReducerState::Encoded(vec![])
    }

    fn next_state(&mut self, _seed: &Interesting, _prev_state: &mut ReducerState) -> Result<Option<ReducerState>, Error> {
        Ok(Some(ReducerState::Encoded(vec![])))
    }

    fn next_state_on_interesting(
        &mut self,
        _new_seed: &Interesting,
        _old_seed: &Interesting,
        _prev_state: &mut ReducerState,
    ) -> Result<Option<ReducerState>, Error> {
        Ok(Some(ReducerState::Encoded(vec![])))
    }

    fn reduce(&mut self, seed: &Interesting, _state: &mut ReducerState) -> Result<Option<Candidate>, Error> {
        let result = match self.0 % 3 {
            0 => Ok(Some(Candidate::new(seed, "Candidate::testing_only_new".to_string(), "c".to_string(), b"", b""))),
            1 => Ok(None),
            _ => Err(Error::MisbehavingReducerScript("TEST".into())),
        };
        self.0 += 1;
        result
    }
}

#[test]
fn fuse() {
    let seed = seed();

    let mut reducer = Erratic(0);
    let mut state = reducer.new_state(&seed).unwrap();
    assert!(reducer.reduce(&seed, &mut state).unwrap().is_some());
    assert!(reducer.reduce(&seed, &mut state).unwrap().is_none());
    assert!(reducer.reduce(&seed, &mut state).is_err());
    assert!(reducer.reduce(&seed, &mut state).unwrap().is_some());

    let mut reducer = Fuse::new(Erratic(0));
    let mut state = reducer.new_state(&seed).unwrap();
    assert!(reducer.reduce(&seed, &mut state).unwrap().is_some());
    assert!(reducer.reduce(&seed, &mut state).unwrap().is_none());
    assert!(reducer.reduce(&seed, &mut state).unwrap().is_none());
    assert!(reducer.reduce(&seed, &mut state).unwrap().is_none());
    assert_eq!(state, ReducerState::Fused(FuseState::Finished));
}

#[test]
fn fuse_stops_after_an_error() {
    let seed = seed();
    let mut reducer = Fuse::new(Erratic(2));
    let mut state = reducer.new_state(&seed).unwrap();
    assert!(reducer.reduce(&seed, &mut state).is_err());
    assert!(reducer.reduce(&seed, &mut state).unwrap().is_none());
    assert!(reducer.next_state(&seed, &mut state).unwrap().is_none());
    assert!(reducer.fast_forward_states(&seed, 3, &mut state).unwrap().is_none());
    assert!(reducer.next_state_on_interesting(&seed, &seed, &mut state).unwrap().is_none());
    assert_eq!(reducer.clone_state(&state), ReducerState::Fused(FuseState::Finished));
}

#[test]
fn fuse_keeps_running_states() {
    let seed = seed();
    let mut reducer = Fuse::new(Erratic(0));
    assert_eq!(reducer.name(), "Erratic");
    let mut state = reducer.new_state(&seed).unwrap();
    let next = reducer.next_state(&seed, &mut state).unwrap().unwrap();
    let running = ReducerState::Fused(FuseState::NotFinished(Box::new(ReducerState::Encoded(vec![]))));
    assert_eq!(next, running);
    assert_eq!(state, running);
    assert_eq!(reducer.fast_forward_states(&seed, 4, &mut state).unwrap(), Some(running));
}

#[test]
fn fuse_treats_foreign_states_as_finished() {
    let seed = seed();
    let mut reducer = Fuse::new(Erratic(0));
    let mut state = ReducerState::Encoded(vec![1, 2, 3]);
    assert!(reducer.reduce(&seed, &mut state).unwrap().is_none());
    assert_eq!(state, ReducerState::Encoded(vec![1, 2, 3]));
}

#[test]
fn fuse_helpers_pass_the_inner_outcome_on() {
    let inner = || ReducerState::Encoded(vec![1]);
    let next = ReducerState::Encoded(vec![2]);
    let (r, kept) = fuse_advance(inner(), Ok(Some(next)));
    assert_eq!(r, Ok(Some(ReducerState::Fused(FuseState::NotFinished(Box::new(ReducerState::Encoded(vec![2])))))));
    assert_eq!(kept, ReducerState::Fused(FuseState::NotFinished(Box::new(inner()))));
    let (r, kept) = fuse_advance(inner(), Ok(None));
    assert_eq!(r, Ok(None));
    assert_eq!(kept, ReducerState::Fused(FuseState::Finished));
    let (r, kept) = fuse_advance(inner(), Err(Error::Io("e".into())));
    assert_eq!(r, Err(Error::Io("e".into())));
    assert_eq!(kept, ReducerState::Fused(FuseState::Finished));
    let (r, kept) = fuse_reduction(inner(), Ok(None));
    assert_eq!(r, Ok(None));
    assert_eq!(kept, ReducerState::Fused(FuseState::Finished));
    assert_eq!(
        fuse_new_state(Ok(inner())),
        Ok(ReducerState::Fused(FuseState::NotFinished(Box::new(inner()))))
    );
}

#[test]
fn fast_forwarding_zero_states_calls_nothing() {
    let mut reducer = Erratic(0);
    let mut state = ReducerState::Encoded(vec![7]);
    let r = reducer.fast_forward_states(&seed(), 0, &mut state);
    assert_eq!(r, Ok(Some(ReducerState::Encoded(vec![]))));
    assert!(reducer.fast_forward_states(&seed(), 3, &mut state).unwrap().is_some());
}

#[test]
fn advancing_stops_at_exhaustion_or_error() {
    assert!(matches!(advance_step(Ok(None)), Advance::Stop(Ok(None))));
    assert!(matches!(advance_step(Err(Error::Io("e".into()))), Advance::Stop(Err(_))));
    assert!(matches!(advance_step(Ok(Some(ReducerState::Encoded(vec![])))), Advance::Continue(_)));
}

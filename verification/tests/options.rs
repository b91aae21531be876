use preduce::error::Error;
use preduce::reducers::Fuse;
use preduce::test_case::{Candidate, Interesting};
use preduce::traits::{IsInteresting, Reducer, ReducerState};
use preduce::Options;

struct Yes;

impl IsInteresting for Yes {
    fn is_interesting(&self, _potential_reduction: &str) -> Result<bool, Error> {
        Ok(true)
    }
}

struct Nothing;

impl Reducer for Nothing {
    fn name(&self) -> String {
        "nothing".to_string()
    }

    fn new_state(&mut self, _seed: &Interesting) -> Result<ReducerState, Error> {
        Ok(ReducerState::Encoded(vec![]))
    }

    fn clone_state(&self, _state: &ReducerState) -> ReducerState {
        ReducerState::Encoded(vec![])
    }

    fn next_state(&mut self, _seed: &Interesting, _prev_state: &mut ReducerState) -> Result<Option<ReducerState>, Error> {
        Ok(None)
    }

    fn next_state_on_interesting(
        &mut self,
        _new_seed: &Interesting,
        _old_seed: &Interesting,
        _prev_state: &mut ReducerState,
    ) -> Result<Option<ReducerState>, Error> {
        Ok(None)
    }

    fn reduce(&mut self, _seed: &Interesting, _state: &mut ReducerState) -> Result<Option<Candidate>, Error> {
        Ok(None)
    }
}

fn options() -> Options<Yes> {
    Options::new(Yes, vec![Box::new(Nothing), Box::new(Fuse::new(Nothing))], "path/to/test-case".to_string())
}

#[test]
fn options_default_to_all_cpus_and_merging() {
    let opts = options();
    assert!(opts.num_workers() >= 1);
    assert!(opts.should_try_merging());
    assert_eq!(opts.reducers().len(), 2);
    assert_eq!(opts.reducers()[1].name(), "nothing");
    assert_eq!(opts.test_case(), "path/to/test-case");
    assert!(opts.predicate().is_interesting("x").unwrap());
}

#[test]
fn options_can_be_tweaked() {
    let opts = options().workers(4).try_merging(false);
    assert_eq!(opts.num_workers(), 4);
    assert!(!opts.should_try_merging());
    let mut opts = opts;
    let taken = opts.take_reducers();
    assert_eq!(taken.len(), 2);
    assert!(opts.reducers().is_empty());
}

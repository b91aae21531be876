use preduce::traits::{IsInteresting, Reducer};

fn take_reducer_by_trait_object(_: &dyn Reducer) {}

fn take_is_interesting_by_trait_object(_: &dyn IsInteresting) {}

#[test]
fn reducer_is_object_safe() {
    let _ = take_reducer_by_trait_object as fn(&dyn Reducer);
}

#[test]
fn is_interesting_is_object_safe() {
    let _ = take_is_interesting_by_trait_object as fn(&dyn IsInteresting);
}

//! The reduction state of the reducer script that reformats the seed with
//! `clang-format`: a single reduction.

use crate::script::Reducer;
use vstd::prelude::*;

verus! {

/// The single state of the `clang-format` reducer script.
#[derive(Clone, Copy, Debug, PartialEq, Eq)]
pub struct ClangFormat;

impl Reducer for ClangFormat {
    open spec fn valid(&self) -> bool {
        true
    }

    open spec fn spec_next(self) -> Option<Self> {
        None
    }

    /// There is only one reduction.
    fn next(self) -> (r: Option<Self>) {
        None
    }

    /// Reformatting can be tried again on the new seed.
    fn next_on_interesting(self, new_seed_len: u64) -> (r: Option<Self>)
        ensures
            r == Some(self),
    {
        Some(self)
    }

    /// Skipping keeps the single state.
    fn fast_forward(self, n: usize) -> (r: Option<Self>)
        ensures
            r == Some(self),
    {
        Some(self)
    }
}

} // verus!

//! The reduction state of reducer scripts that use `clex`.

use crate::script::{counter_after, lemma_counter_after, next_counter, Reducer};
use std::marker::PhantomData;
use vstd::prelude::*;

verus! {

/// A trait for defining reducers that use `clex`.
pub trait Clex {
    /// The `clex` command to invoke.
    fn clex_command() -> &'static str;
}

/// The state of a `clex` reducer script: the index of the token instance to
/// act on next, starting at zero.
#[derive(Debug, PartialEq, Eq)]
pub struct ClexReducer<C: Clex> {
    pub clex: PhantomData<C>,
    pub index: usize,
}

impl<C: Clex> ClexReducer<C> {
    /// The initial state: the first token instance.
    pub fn new() -> (r: Self)
        ensures
            r.index == 0,
    {
        ClexReducer { clex: PhantomData, index: 0 }
    }

    /// Whether `clex` generated a reduction, given its exit status code:
    /// `clex` signals a generated reduction by exiting with code 51.
    pub fn reduced(exit_code: Option<i32>) -> (r: bool)
        ensures
            r == (exit_code == Some(51i32)),
    {
        match exit_code {
            Some(code) => code == 51,
            None => false,
        }
    }
}

impl<C: Clex> Reducer for ClexReducer<C> {
    open spec fn valid(&self) -> bool {
        self.index < usize::MAX
    }

    open spec fn spec_next(self) -> Option<Self> {
        match next_counter(self.index as int) {
            Some(i) => Some(ClexReducer { index: i as usize, ..self }),
            None => None,
        }
    }

    /// The next token instance; the index never runs out short of the
    /// machine's limit.
    fn next(self) -> (r: Option<Self>) {
        if self.index + 1 < usize::MAX {
            Some(ClexReducer { clex: self.clex, index: self.index + 1 })
        } else {
            None
        }
    }

    /// After an interesting reduction, the same index applies to the new
    /// seed.
    fn next_on_interesting(self, new_seed_len: u64) -> (r: Option<Self>)
        ensures
            r == Some(self),
    {
        Some(self)
    }

    /// Skip `n` token instances at once: the same as advancing `n` times.
    fn fast_forward(self, n: usize) -> (r: Option<Self>)
        ensures
            r == (match counter_after(self.index as int, n as nat) {
                Some(i) => Some(ClexReducer { index: i as usize, ..self }),
                None => None,
            }),
    {
        proof {
            lemma_counter_after(self.index as int, n as nat);
        }
        if n < usize::MAX - self.index {
            Some(ClexReducer { clex: self.clex, index: self.index + n })
        } else {
            None
        }
    }
}

} // verus!

//! Combinators of `IsInteresting` tests.

use crate::error::Error;
use crate::traits::IsInteresting;
use vstd::prelude::*;

verus! {

/// An is-interesting test that rejects empty test cases, and accepts all
/// others.
///
/// The test only needs the size of the test case: reading it is left to the
/// caller.
#[derive(Clone, Copy, Debug, PartialEq, Eq)]
pub struct NonEmpty;

impl NonEmpty {
    /// The verdict on a test case of `len` bytes: interesting unless it is
    /// empty.
    pub fn judge_len(&self, len: u64) -> (interesting: bool)
        ensures
            interesting == (len != 0),
    {
        len != 0
    }
}

/// Given two is-interesting tests, combine them into a single is-interesting
/// test that returns `true` if both sub-tests return `true`, and `false`
/// otherwise.
///
/// `And` short-circuits: the second test only runs when the first one found
/// the test case interesting, which helps when the first test is much faster
/// than the second.
#[derive(Clone, Copy, Debug, PartialEq, Eq)]
pub struct And<T, U> {
    first: T,
    second: U,
}

impl<T, U> And<T, U> {
    /// The first test.
    pub closed spec fn spec_first(&self) -> T {
        self.first
    }

    /// The second test.
    pub closed spec fn spec_second(&self) -> U {
        self.second
    }

    /// Combine `T` and `U` into a single `T && U` is-interesting test.
    pub fn new(first: T, second: U) -> (a: And<T, U>)
        ensures
            a.spec_first() == first,
            a.spec_second() == second,
    {
        And { first, second }
    }
}

impl<T: IsInteresting, U: IsInteresting> IsInteresting for And<T, U> {
    open spec fn obeys_judges(&self) -> bool {
        self.spec_first().obeys_judges() && self.spec_second().obeys_judges()
    }

    open spec fn judges(&self, path: Seq<char>) -> bool {
        self.spec_first().judges(path) && self.spec_second().judges(path)
    }

    /// Runs the first test, and the second one only if the first found the
    /// test case interesting: see `and_after_first`.
    fn is_interesting(&self, potential_reduction: &str) -> (r: Result<bool, Error>)
        ensures
            self.obeys_judges() ==> (r matches Ok(b) ==> b == (self.spec_first().judges(potential_reduction@)
                && self.spec_second().judges(potential_reduction@))),
    {
        match and_after_first(self.first.is_interesting(potential_reduction)) {
            Some(decided) => decided,
            None => self.second.is_interesting(potential_reduction),
        }
    }
}

/// Given two is-interesting tests, combine them into a single is-interesting
/// test that returns `true` if either sub-test returns `true`.
///
/// `Or` short-circuits: the second test only runs when the first one found
/// the test case not interesting.
#[derive(Clone, Copy, Debug, PartialEq, Eq)]
pub struct Or<T, U> {
    first: T,
    second: U,
}

impl<T, U> Or<T, U> {
    /// The first test.
    pub closed spec fn spec_first(&self) -> T {
        self.first
    }

    /// The second test.
    pub closed spec fn spec_second(&self) -> U {
        self.second
    }

    /// Combine `T` and `U` into a single `T || U` is-interesting test.
    pub fn new(first: T, second: U) -> (o: Or<T, U>)
        ensures
            o.spec_first() == first,
            o.spec_second() == second,
    {
        Or { first, second }
    }
}

impl<T: IsInteresting, U: IsInteresting> IsInteresting for Or<T, U> {
    open spec fn obeys_judges(&self) -> bool {
        self.spec_first().obeys_judges() && self.spec_second().obeys_judges()
    }

    open spec fn judges(&self, path: Seq<char>) -> bool {
        self.spec_first().judges(path) || self.spec_second().judges(path)
    }

    /// Runs the first test, and the second one only if the first found the
    /// test case not interesting: see `or_after_first`.
    fn is_interesting(&self, potential_reduction: &str) -> (r: Result<bool, Error>)
        ensures
            self.obeys_judges() ==> (r matches Ok(b) ==> b == (self.spec_first().judges(potential_reduction@)
                || self.spec_second().judges(potential_reduction@))),
    {
        match or_after_first(self.first.is_interesting(potential_reduction)) {
            Some(decided) => decided,
            None => self.second.is_interesting(potential_reduction),
        }
    }
}

/// What `And` answers once its first test gave `first`: the first test's
/// error, `false` when the first test found the test case not interesting,
/// and `None` when the second test decides: `And` then answers what the
/// second test answers.
pub fn and_after_first(first: Result<bool, Error>) -> (decided: Option<Result<bool, Error>>)
    ensures
        match first {
            Err(e) => decided == Some(Err::<bool, Error>(e)),
            Ok(false) => decided == Some(Ok::<bool, Error>(false)),
            Ok(true) => decided is None,
        },
{
    match first {
        Err(e) => Some(Err(e)),
        Ok(false) => Some(Ok(false)),
        Ok(true) => None,
    }
}

/// What `Or` answers once its first test gave `first`: the first test's
/// error, `true` when the first test found the test case interesting, and
/// `None` when the second test decides: `Or` then answers what the second
/// test answers.
pub fn or_after_first(first: Result<bool, Error>) -> (decided: Option<Result<bool, Error>>)
    ensures
        match first {
            Err(e) => decided == Some(Err::<bool, Error>(e)),
            Ok(true) => decided == Some(Ok::<bool, Error>(true)),
            Ok(false) => decided is None,
        },
{
    match first {
        Err(e) => Some(Err(e)),
        Ok(true) => Some(Ok(true)),
        Ok(false) => None,
    }
}

/// An is-interesting test made of a function of the test case's path: what
/// the function answers is the verdict.
pub struct IsInterestingFn<F> where F: Fn(&str) -> Result<bool, Error> {
    f: F,
}

impl<F> IsInterestingFn<F> where F: Fn(&str) -> Result<bool, Error> {
    #[verifier::type_invariant]
    spec fn callable(self) -> bool {
        forall|p: &str| #[trigger] call_requires(self.f, (p,))
    }

    /// The function that judges test cases.
    pub closed spec fn function(self) -> F {
        self.f
    }

    /// Construct a test from a function that can be called on any path.
    pub fn new(f: F) -> (t: Self)
        requires
            forall|p: &str| #[trigger] call_requires(f, (p,)),
        ensures
            t.function() == f,
    {
        IsInterestingFn { f }
    }
}

impl<F> IsInteresting for IsInterestingFn<F> where F: Fn(&str) -> Result<bool, Error> + Send {
    /// The function need not give the same answer twice: its answers are
    /// stated by what it ensures, not by `judges`.
    open spec fn obeys_judges(&self) -> bool {
        false
    }

    /// Call the function on the path, and answer what it answers.
    fn is_interesting(&self, potential_reduction: &str) -> (r: Result<bool, Error>)
        ensures
            call_ensures(self.function(), (potential_reduction,), r),
    {
        proof {
            use_type_invariant(self);
        }
        (self.f)(potential_reduction)
    }
}

} // verus!

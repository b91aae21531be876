//! The options of a reduction run.

use crate::traits::{IsInteresting, Reducer};
use vstd::prelude::*;

verus! {

/// `num_cpus::get`: the number of logical CPUs available to this process,
/// at least 1.
#[verifier::external_body]
fn available_cpus() -> (n: usize)
    ensures
        n >= 1,
{
    num_cpus::get()
}

/// A builder to configure a `preduce` run's options: the is-interesting
/// predicate, the test case reduction generators, the initial test case, how
/// many workers test reductions in parallel, and whether merging is tried.
pub struct Options<I> where I: IsInteresting {
    test_case: String,
    is_interesting: I,
    reducers: Vec<Box<dyn Reducer>>,
    workers: usize,
    try_merging: bool,
    /// The number of logical CPUs that were reported when the options were
    /// made.
    logical_cpus: Ghost<nat>,
}

impl<I: IsInteresting> Options<I> {
    #[verifier::type_invariant]
    spec fn inv(&self) -> bool {
        self.workers > 0
    }

    /// The path of the initial test case.
    pub closed spec fn spec_test_case(&self) -> Seq<char> {
        self.test_case@
    }

    /// The is-interesting predicate.
    pub closed spec fn spec_predicate(&self) -> I {
        self.is_interesting
    }

    /// The reducers.
    pub closed spec fn spec_reducers(&self) -> Seq<Box<dyn Reducer>> {
        self.reducers@
    }

    /// The number of workers.
    pub closed spec fn spec_workers(&self) -> usize {
        self.workers
    }

    /// Whether merging is tried.
    pub closed spec fn spec_try_merging(&self) -> bool {
        self.try_merging
    }

    /// The number of logical CPUs that were reported when the options were
    /// made: what `num_cpus::get` answered then.
    pub closed spec fn spec_logical_cpus(&self) -> nat {
        self.logical_cpus@
    }

    /// Construct a new `Options` builder from the is-interesting predicate,
    /// the test case reduction generators, which must not be empty, and the
    /// initial test case. It uses one worker per logical CPU, as many as
    /// `num_cpus::get` reports (at least one), and tries merging.
    pub fn new(is_interesting: I, reducers: Vec<Box<dyn Reducer>>, test_case: String) -> (o: Options<I>)
        requires
            reducers@.len() > 0,
        ensures
            o.spec_test_case() == test_case@,
            o.spec_predicate() == is_interesting,
            o.spec_reducers() == reducers@,
            o.spec_logical_cpus() >= 1,
            o.spec_workers() == o.spec_logical_cpus(),
            o.spec_try_merging(),
    {
        let cpus = available_cpus();
        Options {
            test_case,
            is_interesting,
            reducers,
            workers: cpus,
            try_merging: true,
            logical_cpus: Ghost(cpus as nat),
        }
    }

    /// Specify how many workers should be testing reductions of the initial
    /// test case for interesting-ness in parallel; there must be at least one.
    pub fn workers(self, num_workers: usize) -> (o: Options<I>)
        requires
            num_workers != 0,
        ensures
            o.spec_workers() == num_workers,
            o.spec_test_case() == self.spec_test_case(),
            o.spec_predicate() == self.spec_predicate(),
            o.spec_reducers() == self.spec_reducers(),
            o.spec_try_merging() == self.spec_try_merging(),
            o.spec_logical_cpus() == self.spec_logical_cpus(),
    {
        Options {
            test_case: self.test_case,
            is_interesting: self.is_interesting,
            reducers: self.reducers,
            workers: num_workers,
            try_merging: self.try_merging,
            logical_cpus: self.logical_cpus,
        }
    }

    /// Whether we should try merging the globally smallest interesting test
    /// case with an interesting but not smallest test case, to see if that
    /// merge is smaller and also interesting.
    pub fn try_merging(self, should_try_merging: bool) -> (o: Options<I>)
        ensures
            o.spec_try_merging() == should_try_merging,
            o.spec_test_case() == self.spec_test_case(),
            o.spec_predicate() == self.spec_predicate(),
            o.spec_reducers() == self.spec_reducers(),
            o.spec_workers() == self.spec_workers(),
            o.spec_logical_cpus() == self.spec_logical_cpus(),
    {
        proof {
            use_type_invariant(&self);
        }
        Options {
            test_case: self.test_case,
            is_interesting: self.is_interesting,
            reducers: self.reducers,
            workers: self.workers,
            try_merging: should_try_merging,
            logical_cpus: self.logical_cpus,
        }
    }

    /// Get the number of workers this `Options` is configured to use, at
    /// least one.
    pub fn num_workers(&self) -> (n: usize)
        ensures
            n == self.spec_workers(),
            n > 0,
    {
        proof {
            use_type_invariant(self);
        }
        self.workers
    }

    /// Get whether this `Options` is configured to try merging or not.
    pub fn should_try_merging(&self) -> (b: bool)
        ensures
            b == self.spec_try_merging(),
    {
        self.try_merging
    }

    /// Get this `Options`' `IsInteresting` predicate.
    pub fn predicate(&self) -> (p: &I)
        ensures
            *p == self.spec_predicate(),
    {
        &self.is_interesting
    }

    /// Get this `Options`' `Reducer`s.
    pub fn reducers(&self) -> (r: &[Box<dyn Reducer>])
        ensures
            r@ == self.spec_reducers(),
    {
        self.reducers.as_slice()
    }

    /// Get the path of the initial test case.
    pub fn test_case(&self) -> (p: &str)
        ensures
            p@ == self.spec_test_case(),
    {
        self.test_case.as_str()
    }

    /// Take ownership of this `Options`' `Reducer`s, which must not have
    /// been taken already, leaving none.
    pub fn take_reducers(&mut self) -> (r: Vec<Box<dyn Reducer>>)
        requires
            old(self).spec_reducers().len() > 0,
        ensures
            r@ == old(self).spec_reducers(),
            final(self).spec_reducers() == Seq::<Box<dyn Reducer>>::empty(),
            final(self).spec_test_case() == old(self).spec_test_case(),
            final(self).spec_predicate() == old(self).spec_predicate(),
            final(self).spec_workers() == old(self).spec_workers(),
            final(self).spec_try_merging() == old(self).spec_try_merging(),
            final(self).spec_logical_cpus() == old(self).spec_logical_cpus(),
    {
        proof {
            use_type_invariant(&*self);
        }
        let mut taken: Vec<Box<dyn Reducer>> = Vec::new();
        std::mem::swap(&mut taken, &mut self.reducers);
        taken
    }
}

} // verus!

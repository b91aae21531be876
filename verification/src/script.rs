//! The reduction states of reducer scripts: how a reducer script advances
//! from one potential reduction to the next.

use vstd::prelude::*;

verus! {

/// The state of a reducer script, advanced one potential reduction at a
/// time.
///
/// Note that a reduction is not necessarily generated after every call to
/// `next`: see `fast_forward`.
pub trait Reducer: Sized {
    /// The state is consistent.
    spec fn valid(&self) -> bool;

    /// The state after `next`.
    spec fn spec_next(self) -> Option<Self>;

    /// Advance to the next reduction state, assuming that the potential
    /// reduction generated from the current state was not interesting.
    fn next(self) -> (r: Option<Self>)
        requires
            self.valid(),
        ensures
            r == self.spec_next(),
            r matches Some(s) ==> s.valid(),
    ;

    /// Advance to the next reduction state, given that the reduction
    /// generated from the current state was judged to be interesting and
    /// became the new seed, of `new_seed_len` bytes.
    fn next_on_interesting(self, new_seed_len: u64) -> (r: Option<Self>)
        requires
            self.valid(),
    ;

    /// Skip over the next `n` reduction states.
    ///
    /// By default, this calls `next` `n` times, stopping early when the
    /// states are exhausted: it follows `spec_next` from `self` for `n`
    /// steps, and gives `None` when a state before the `n`th has no next one.
    fn fast_forward(self, n: usize) -> (r: Option<Self>)
        requires
            self.valid(),
        ensures
            r matches Some(s) ==> s.valid(),
        default_ensures
            r matches Some(s) ==> exists|c: Seq<Self>|
                #![trigger c.last()]
                c.len() == n + 1 && c[0] == self && c[n as int] == s && (forall|i: int|
                    0 <= i < n ==> #[trigger] c[i].spec_next() == Some(c[i + 1])),
            r is None ==> exists|c: Seq<Self>|
                #![trigger c.last()]
                1 <= c.len() <= n && c[0] == self && c.last().spec_next() is None && (forall|i: int|
                    0 <= i < c.len() - 1 ==> #[trigger] c[i].spec_next() == Some(c[i + 1])),
    {
        let ghost start = self;
        let mut s = self;
        let ghost mut c: Seq<Self> = seq![self];
        let mut i: usize = 0;
        while i < n
            invariant
                i <= n,
                s.valid(),
                c.len() == i + 1,
                c[0] == start,
                start == self,
                c[i as int] == s,
                forall|k: int| 0 <= k < i ==> #[trigger] c[k].spec_next() == Some(c[k + 1]),
            decreases n - i,
        {
            match s.next() {
                None => {
                    proof {
                        assert(c.last() == s);
                        assert(forall|k: int| 0 <= k < c.len() - 1 ==> #[trigger] c[k].spec_next() == Some(c[k + 1]));
                        assert(1 <= c.len() <= n && c[0] == start && c.last().spec_next() is None);
                    }
                    return None;
                },
                Some(t) => {
                    proof {
                        let old_c = c;
                        c = c.push(t);
                        assert forall|k: int| 0 <= k < i + 1 implies #[trigger] c[k].spec_next() == Some(c[k + 1]) by {
                            if k < i {
                                assert(c[k] == old_c[k] && c[k + 1] == old_c[k + 1]);
                            }
                        }
                    }
                    s = t;
                },
            }
            i = i + 1;
        }
        assert(c.last() == s);
        Some(s)
    }
}

/// The counter after advancing a counter-based reducer once: the next
/// counter, up to the machine's limit.
pub open spec fn next_counter(index: int) -> Option<int> {
    if index + 1 < usize::MAX {
        Some(index + 1)
    } else {
        None
    }
}

/// The counter after advancing a counter-based reducer `n` times, or `None`
/// when the counter runs out first.
pub open spec fn counter_after(index: int, n: nat) -> Option<int>
    decreases n,
{
    if n == 0 {
        Some(index)
    } else {
        match next_counter(index) {
            None => None,
            Some(i) => counter_after(i, (n - 1) as nat),
        }
    }
}

/// Advancing a counter `n` times at once is the same as advancing it one
/// step at a time, `n` times.
pub proof fn lemma_counter_after(index: int, n: nat)
    requires
        0 <= index < usize::MAX,
    ensures
        counter_after(index, n) == (if index + n < usize::MAX {
            Some(index + n)
        } else {
            None
        }),
    decreases n,
{
    if n > 0 && index + 1 < usize::MAX {
        lemma_counter_after(index + 1, (n - 1) as nat);
    }
}

/// `is_executable::is_executable`: whether there is a file at `path` that
/// is executable. The answer depends on the file system, so nothing is
/// claimed of it.
#[verifier::external_body]
fn path_is_executable(path: &str) -> bool {
    is_executable::is_executable(path)
}

/// Return the first path which has an executable file located at it.
///
/// The paths are checked in order until one is executable; what the checks
/// found decides the result, as `first_executable` says.
pub fn get_executable(paths: &[&str]) -> (found: Option<String>)
    ensures
        found matches Some(p) ==> exists|i: int| 0 <= i < paths.len() && p@ == paths@[i]@,
        paths.len() == 0 ==> found is None,
{
    let mut flags: Vec<bool> = Vec::new();
    let mut i: usize = 0;
    while i < paths.len()
        invariant_except_break
            flags.len() == i,
        invariant
            i <= paths.len(),
            flags.len() <= paths.len(),
        ensures
            flags.len() <= paths.len(),
        decreases paths.len() - i,
    {
        let executable = path_is_executable(paths[i]);
        flags.push(executable);
        if executable {
            break;
        }
        i = i + 1;
    }
    first_executable(paths, &flags)
}

/// The first of the `paths` whose flag says it is executable, among the
/// paths that have a flag; `None` when no flag says so.
pub fn first_executable(paths: &[&str], executable: &Vec<bool>) -> (found: Option<String>)
    requires
        executable.len() <= paths.len(),
    ensures
        found is None <==> forall|k: int| 0 <= k < executable.len() ==> !executable@[k],
        found matches Some(p) ==> exists|i: int|
            0 <= i < executable.len() && executable@[i] && p@ == paths@[i]@ && forall|k: int|
                0 <= k < i ==> !executable@[k],
{
    let mut i: usize = 0;
    while i < executable.len()
        invariant
            i <= executable.len() <= paths.len(),
            forall|k: int| 0 <= k < i ==> !executable@[k],
        decreases executable.len() - i,
    {
        if executable[i] {
            let found = paths[i].to_owned();
            return Some(found);
        }
        i = i + 1;
    }
    None
}

/// A `clang_delta` transformation, that we can implement a reducer script
/// with.
pub trait ClangDelta {
    /// Which `clang_delta` transformation?
    ///
    /// See `clang_delta --verbose-transformations` for details.
    fn transformation() -> &'static str;
}

/// The state of a `clang_delta` reducer script: the counter of the
/// transformation instance to apply next, starting at one.
#[derive(Debug, PartialEq, Eq)]
pub struct ClangDeltaReducer<C: ClangDelta> {
    pub clang_delta: std::marker::PhantomData<C>,
    pub index: usize,
}

impl<C: ClangDelta> ClangDeltaReducer<C> {
    /// The initial state: the first transformation instance.
    pub fn new() -> (r: Self)
        ensures
            r.index == 1,
    {
        ClangDeltaReducer { clang_delta: std::marker::PhantomData, index: 1 }
    }
}

impl<C: ClangDelta> Reducer for ClangDeltaReducer<C> {
    open spec fn valid(&self) -> bool {
        self.index < usize::MAX
    }

    open spec fn spec_next(self) -> Option<Self> {
        match next_counter(self.index as int) {
            Some(i) => Some(ClangDeltaReducer { index: i as usize, ..self }),
            None => None,
        }
    }

    /// The next transformation instance; the counter never runs out short of
    /// the machine's limit.
    fn next(self) -> (r: Option<Self>) {
        if self.index + 1 < usize::MAX {
            Some(ClangDeltaReducer { clang_delta: self.clang_delta, index: self.index + 1 })
        } else {
            None
        }
    }

    /// After an interesting reduction, the same counter applies to the new
    /// seed.
    fn next_on_interesting(self, new_seed_len: u64) -> (r: Option<Self>)
        ensures
            r == Some(self),
    {
        Some(self)
    }

    /// Skip `n` transformation instances at once: the same as advancing `n`
    /// times.
    fn fast_forward(self, n: usize) -> (r: Option<Self>)
        ensures
            r == (match counter_after(self.index as int, n as nat) {
                Some(i) => Some(ClangDeltaReducer { index: i as usize, ..self }),
                None => None,
            }),
    {
        proof {
            lemma_counter_after(self.index as int, n as nat);
        }
        if n < usize::MAX - self.index {
            Some(ClangDeltaReducer { clang_delta: self.clang_delta, index: self.index + n })
        } else {
            None
        }
    }
}

} // verus!

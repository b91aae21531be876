//! Types related to test cases, their interestingness, and candidates of them.
//!
//! A test case lives in a file. Reading and writing that file happens outside
//! of this module: here a test case is its path, its size, its provenance and
//! the hashes of its contents and of its diff with the seed it came from.

use crate::error::Error;
use crate::traits::IsInteresting;
use blake2::Digest;
use vstd::prelude::*;

verus! {

/// The 64-byte BLAKE2b-512 digest of the given bytes.
pub uninterp spec fn blake2b(data: Seq<u8>) -> Seq<u8>;

/// `blake2::Blake2b512::digest`: the BLAKE2b digest of `data`, 64 bytes long.
#[verifier::external_body]
fn blake2b_digest(data: &[u8]) -> (h: Vec<u8>)
    ensures
        h@ == blake2b(data@),
        h@.len() == 64,
{
    blake2::Blake2b512::digest(data).to_vec()
}

/// The provenance of the initial test case.
pub open spec fn initial_provenance() -> Seq<char> {
    "<initial>"@
}

/// A copy of some bytes.
fn copy_bytes(v: &Vec<u8>) -> (c: Vec<u8>)
    ensures
        c@ == v@,
{
    let mut c: Vec<u8> = Vec::new();
    let mut i: usize = 0;
    while i < v.len()
        invariant
            i <= v.len(),
            c@ == v@.subrange(0, i as int),
        decreases v.len() - i,
    {
        c.push(v[i]);
        i = i + 1;
    }
    c
}

/// Whether two byte strings are equal.
fn bytes_equal(a: &Vec<u8>, b: &Vec<u8>) -> (eq: bool)
    ensures
        eq == (a@ == b@),
{
    if a.len() != b.len() {
        return false;
    }
    let mut i: usize = 0;
    while i < a.len()
        invariant
            a@.len() == b@.len(),
            i <= a@.len(),
            forall|j: int| 0 <= j < i ==> a@[j] == b@[j],
        decreases a.len() - i,
    {
        if a[i] != b[i] {
            return false;
        }
        i = i + 1;
    }
    proof {
        assert(a@ =~= b@);
    }
    true
}

/// What is known of a test case.
pub struct TestCaseView {
    /// The path of the test case's file.
    pub path: Seq<char>,
    /// The size of the test case, in bytes.
    pub size: u64,
    /// How much smaller than its seed the test case is, in bytes.
    pub delta: u64,
    /// The reducer that produced the test case.
    pub provenance: Seq<char>,
    /// The hash of the test case's contents.
    pub full_hash: Seq<u8>,
    /// The hash of the diff with the seed.
    pub diff_hash: Seq<u8>,
}

/// A test case with potential: it may or may not be smaller than our smallest
/// interesting test case, and it may or may not be interesting.
#[derive(Debug, PartialEq, Eq)]
pub struct Candidate {
    provenance: String,
    path: String,
    size: u64,
    delta: u64,
    full_hash: Vec<u8>,
    diff_hash: Vec<u8>,
}

impl View for Candidate {
    type V = TestCaseView;

    closed spec fn view(&self) -> TestCaseView {
        TestCaseView {
            path: self.path@,
            size: self.size,
            delta: self.delta,
            provenance: self.provenance@,
            full_hash: self.full_hash@,
            diff_hash: self.diff_hash@,
        }
    }
}

impl Candidate {
    /// Construct a new candidate.
    ///
    /// The `seed` is the interesting test case from which a reducer produced
    /// this candidate, the `provenance` describes that reducer, `path` is the
    /// candidate's file, holding `contents`, and `diff` is the output of
    /// `diff` between the seed and the candidate.
    pub fn new(seed: &Interesting, provenance: String, path: String, contents: &[u8], diff: &[u8]) -> (c: Candidate)
        requires
            provenance@.len() > 0,
        ensures
            c@ == (TestCaseView {
                path: path@,
                size: contents@.len() as u64,
                delta: if seed@.size >= contents@.len() {
                    (seed@.size - contents@.len()) as u64
                } else {
                    0
                },
                provenance: provenance@,
                full_hash: blake2b(contents@),
                diff_hash: blake2b(diff@),
            }),
    {
        let size = contents.len() as u64;
        let full_hash = blake2b_digest(contents);
        let diff_hash = blake2b_digest(diff);
        Candidate {
            provenance,
            path,
            size,
            delta: seed.size().saturating_sub(size),
            full_hash,
            diff_hash,
        }
    }

    /// A copy of this candidate.
    pub fn duplicate(&self) -> (c: Candidate)
        ensures
            c@ == self@,
    {
        Candidate {
            provenance: self.provenance.clone(),
            path: self.path.clone(),
            size: self.size,
            delta: self.delta,
            full_hash: copy_bytes(&self.full_hash),
            diff_hash: copy_bytes(&self.diff_hash),
        }
    }

    /// Whether this candidate is the same test case as `other`: the same
    /// file, provenance, size, delta and hashes.
    pub fn same_as(&self, other: &Candidate) -> (b: bool)
        ensures
            b == (self@ == other@),
    {
        let same = self.path == other.path && self.provenance == other.provenance && self.size == other.size
            && self.delta == other.delta && bytes_equal(&self.full_hash, &other.full_hash)
            && bytes_equal(&self.diff_hash, &other.diff_hash);
        proof {
            if same {
                assert(self@ =~= other@);
            }
        }
        same
    }

    /// The path to this candidate's file.
    pub fn path(&self) -> (p: &str)
        ensures
            p@ == self@.path,
    {
        self.path.as_str()
    }

    /// The size of this candidate, in bytes.
    pub fn size(&self) -> (s: u64)
        ensures
            s == self@.size,
    {
        self.size
    }

    /// How much smaller than its seed this candidate is, in bytes.
    pub fn delta(&self) -> (d: u64)
        ensures
            d == self@.delta,
    {
        self.delta
    }

    /// The reducer that produced this candidate.
    pub fn provenance(&self) -> (p: &str)
        ensures
            p@ == self@.provenance,
    {
        self.provenance.as_str()
    }

    /// The hash of this candidate's contents.
    pub fn full_hash(&self) -> (h: Vec<u8>)
        ensures
            h@ == self@.full_hash,
    {
        copy_bytes(&self.full_hash)
    }

    /// The hash of the diff between this candidate and its seed.
    pub fn diff_hash(&self) -> (h: Vec<u8>)
        ensures
            h@ == self@.diff_hash,
    {
        copy_bytes(&self.diff_hash)
    }

    /// Try and convert this candidate into a known interesting test case by
    /// asking the given `judge` whether it is interesting.
    pub fn into_interesting<I: IsInteresting + ?Sized>(self, judge: &I) -> (r: Result<Judged, Error>)
        ensures
            judge.obeys_judges() ==> (r is Ok ==> r == judged(self, Ok(judge.judges(self@.path)))),
    {
        let verdict = judge.is_interesting(self.path.as_str());
        judge_candidate(self, verdict)
    }
}

/// The outcome of judging a candidate: either it is interesting, or the
/// candidate is handed back.
#[derive(Debug)]
pub enum Judged {
    /// The candidate was judged interesting.
    Interesting(Interesting),
    /// The candidate was judged not interesting.
    NotInteresting(Candidate),
}

/// What judging a candidate gives, from the judge's verdict.
pub open spec fn judged(candidate: Candidate, verdict: Result<bool, Error>) -> Result<Judged, Error> {
    match verdict {
        Err(e) => Err(e),
        Ok(true) => Ok(Judged::Interesting(Interesting::from_candidate(candidate))),
        Ok(false) => Ok(Judged::NotInteresting(candidate)),
    }
}

/// Turn a judge's verdict on a candidate into the outcome of judging it.
pub fn judge_candidate(candidate: Candidate, verdict: Result<bool, Error>) -> (r: Result<Judged, Error>)
    ensures
        r == judged(candidate, verdict),
{
    match verdict {
        Err(e) => Err(e),
        Ok(true) => Ok(Judged::Interesting(Interesting { kind: InterestingKind::Candidate(candidate) })),
        Ok(false) => Ok(Judged::NotInteresting(candidate)),
    }
}

/// The initial test case, after it has been judged interesting.
#[derive(Debug, PartialEq, Eq)]
struct InitialInteresting {
    path: String,
    size: u64,
    full_hash: Vec<u8>,
}

/// The kinds of interesting test cases.
#[derive(Debug, PartialEq, Eq)]
enum InterestingKind {
    /// The initial interesting test case.
    Initial(InitialInteresting),
    /// A candidate that has been found to be interesting.
    Candidate(Candidate),
}

/// A test case that has been verified to be interesting.
#[derive(Debug, PartialEq, Eq)]
pub struct Interesting {
    kind: InterestingKind,
}

impl View for Interesting {
    type V = TestCaseView;

    closed spec fn view(&self) -> TestCaseView {
        match self.kind {
            InterestingKind::Initial(i) => TestCaseView {
                path: i.path@,
                size: i.size,
                delta: 0,
                provenance: initial_provenance(),
                full_hash: i.full_hash@,
                diff_hash: blake2b(Seq::empty()),
            },
            InterestingKind::Candidate(c) => c@,
        }
    }
}

impl Interesting {
    /// The interesting test case that an interesting candidate becomes.
    pub closed spec fn from_candidate(c: Candidate) -> Interesting {
        Interesting { kind: InterestingKind::Candidate(c) }
    }

    /// The candidate this test case was, if it was not the initial one.
    pub closed spec fn spec_candidate(&self) -> Option<Candidate> {
        match self.kind {
            InterestingKind::Initial(_) => None,
            InterestingKind::Candidate(c) => Some(c),
        }
    }

    /// An interesting candidate keeps everything that is known of it.
    pub proof fn lemma_from_candidate(c: Candidate)
        ensures
            Self::from_candidate(c)@ == c@,
            Self::from_candidate(c).spec_candidate() == Some(c),
    {
    }

    /// Construct the initial interesting test case from the test case file
    /// copied to `path` with the given `contents`, if the `judge` finds it
    /// interesting.
    pub fn initial<I: IsInteresting + ?Sized>(path: String, contents: &[u8], judge: &I) -> (r: Result<Option<Interesting>, Error>)
        ensures
            r matches Ok(Some(i)) ==> (judge.obeys_judges() ==> judge.judges(path@)) && i@ == (TestCaseView {
                path: path@,
                size: contents@.len() as u64,
                delta: 0,
                provenance: initial_provenance(),
                full_hash: blake2b(contents@),
                diff_hash: blake2b(Seq::empty()),
            }) && i.spec_candidate() is None,
            r matches Ok(None) ==> (judge.obeys_judges() ==> !judge.judges(path@)),
    {
        let verdict = judge.is_interesting(path.as_str());
        Self::initial_from_verdict(path, contents, verdict)
    }

    /// The initial interesting test case for the test case file copied to
    /// `path` with the given `contents`, from the judge's verdict on it: the
    /// judge's error, `None` when it is not interesting, and the initial
    /// interesting test case when it is.
    pub fn initial_from_verdict(path: String, contents: &[u8], verdict: Result<bool, Error>) -> (r: Result<Option<Interesting>, Error>)
        ensures
            match verdict {
                Err(e) => r == Err::<Option<Interesting>, Error>(e),
                Ok(false) => r == Ok::<Option<Interesting>, Error>(None),
                Ok(true) => r matches Ok(Some(i)) && i@ == (TestCaseView {
                    path: path@,
                    size: contents@.len() as u64,
                    delta: 0,
                    provenance: initial_provenance(),
                    full_hash: blake2b(contents@),
                    diff_hash: blake2b(Seq::empty()),
                }) && i.spec_candidate() is None,
            },
    {
        match verdict {
            Err(e) => Err(e),
            Ok(false) => Ok(None),
            Ok(true) => {
                let size = contents.len() as u64;
                let full_hash = blake2b_digest(contents);
                Ok(Some(Interesting { kind: InterestingKind::Initial(InitialInteresting { path, size, full_hash }) }))
            },
        }
    }

    /// If this interesting test case was created from a candidate, rather
    /// than being the initial test case, that candidate.
    pub fn as_candidate(&self) -> (c: Option<&Candidate>)
        ensures
            c matches Some(x) ==> self.spec_candidate() == Some(*x),
            c is None <==> self.spec_candidate() is None,
    {
        match &self.kind {
            InterestingKind::Initial(_) => None,
            InterestingKind::Candidate(c) => Some(c),
        }
    }

    /// A copy of this test case.
    pub fn duplicate(&self) -> (c: Interesting)
        ensures
            c@ == self@,
            c.spec_candidate() is None <==> self.spec_candidate() is None,
    {
        match &self.kind {
            InterestingKind::Initial(i) => Interesting {
                kind: InterestingKind::Initial(InitialInteresting {
                    path: i.path.clone(),
                    size: i.size,
                    full_hash: copy_bytes(&i.full_hash),
                }),
            },
            InterestingKind::Candidate(c) => Interesting { kind: InterestingKind::Candidate(c.duplicate()) },
        }
    }

    /// The path to this test case's file.
    pub fn path(&self) -> (p: &str)
        ensures
            p@ == self@.path,
    {
        match &self.kind {
            InterestingKind::Initial(i) => i.path.as_str(),
            InterestingKind::Candidate(c) => c.path(),
        }
    }

    /// The size of this test case, in bytes.
    pub fn size(&self) -> (s: u64)
        ensures
            s == self@.size,
    {
        match &self.kind {
            InterestingKind::Initial(i) => i.size,
            InterestingKind::Candidate(c) => c.size(),
        }
    }

    /// How much smaller than its seed this test case is, in bytes; 0 for the
    /// initial test case.
    pub fn delta(&self) -> (d: u64)
        ensures
            d == self@.delta,
    {
        match &self.kind {
            InterestingKind::Initial(_) => 0,
            InterestingKind::Candidate(c) => c.delta(),
        }
    }

    /// The reducer that produced this test case, or `<initial>`.
    pub fn provenance(&self) -> (p: &str)
        ensures
            p@ == self@.provenance,
    {
        match &self.kind {
            InterestingKind::Initial(_) => "<initial>",
            InterestingKind::Candidate(c) => c.provenance(),
        }
    }

    /// The hash of this test case's contents.
    pub fn full_hash(&self) -> (h: Vec<u8>)
        ensures
            h@ == self@.full_hash,
    {
        match &self.kind {
            InterestingKind::Initial(i) => copy_bytes(&i.full_hash),
            InterestingKind::Candidate(c) => c.full_hash(),
        }
    }

    /// The hash of the diff between this test case and its seed; for the
    /// initial test case, the hash of an empty diff.
    pub fn diff_hash(&self) -> (h: Vec<u8>)
        ensures
            h@ == self@.diff_hash,
    {
        match &self.kind {
            InterestingKind::Initial(_) => {
                let empty: Vec<u8> = Vec::new();
                let h = blake2b_digest(empty.as_slice());
                proof {
                    assert(empty@ =~= Seq::<u8>::empty());
                }
                h
            },
            InterestingKind::Candidate(c) => c.diff_hash(),
        }
    }
}

} // verus!

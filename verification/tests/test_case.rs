use preduce::error::Error;
use preduce::test_case::{judge_candidate, Candidate, Interesting, Judged};
use preduce::traits::IsInteresting;

/// An is-interesting test with a fixed verdict.
struct Verdict(bool);

impl IsInteresting for Verdict {
    fn is_interesting(&self, _potential_reduction: &str) -> Result<bool, Error> {
        Ok(self.0)
    }
}

/// An is-interesting test that fails.
struct Failing;

impl IsInteresting for Failing {
    fn is_interesting(&self, _potential_reduction: &str) -> Result<bool, Error> {
        Err(Error::Io("no such file".to_string()))
    }
}

/// The BLAKE2b-512 digest of no bytes.
const EMPTY_DIGEST: &str = "786a02f742015903c6c6fd852552d272912f4740e15847618a86e217f71f5419d25e1031afee585313896444934eb04b903a685b1448b755d56f701afe9be2ce";

/// The BLAKE2b-512 digest of `abc`.
const ABC_DIGEST: &str = "ba80a53f981c4d0d6a2797b69f12f6e94c212f14685ac4b74b12bb6fdbffa2d17d87c5392aab792dc252d5de4533cc9518d38aa8dbf1925ab92386edd4009923";

fn hex(bytes: &[u8]) -> String {
    bytes.iter().map(|b| format!("{:02x}", b)).collect()
}

fn initial(contents: &[u8]) -> Interesting {
    Interesting::initial("seed.c".to_string(), contents, &Verdict(true))
        .expect("should not error")
        .expect("and should find the initial test case interesting")
}

#[test]
fn interesting_initial_true() {
    let i = initial(b"la la la la la\n");
    assert_eq!(i.path(), "seed.c");
    assert_eq!(i.size(), 15);
    assert_eq!(i.delta(), 0);
    assert_eq!(i.provenance(), "<initial>");
    assert!(i.as_candidate().is_none());
    assert_eq!(hex(&i.diff_hash()), EMPTY_DIGEST);
}

#[test]
fn interesting_initial_false() {
    let i = Interesting::initial("seed.c".to_string(), b"la", &Verdict(false)).expect("should not error");
    assert!(i.is_none());
}

#[test]
fn interesting_initial_error() {
    assert!(Interesting::initial("seed.c".to_string(), b"la", &Failing).is_err());
}

#[test]
fn candidates_hash_their_contents_and_diff() {
    let seed = initial(b"abcdef");
    let c = Candidate::new(&seed, "reducer".to_string(), "candidate0".to_string(), b"abc", b"");
    assert_eq!(c.size(), 3);
    assert_eq!(c.delta(), 3);
    assert_eq!(c.provenance(), "reducer");
    assert_eq!(c.path(), "candidate0");
    assert_eq!(hex(&c.full_hash()), ABC_DIGEST);
    assert_eq!(hex(&c.diff_hash()), EMPTY_DIGEST);
    // A candidate bigger than its seed has no delta.
    let big = Candidate::new(&seed, "reducer".to_string(), "candidate1".to_string(), b"abcdefgh", b"abc");
    assert_eq!(big.delta(), 0);
    assert_eq!(hex(&big.diff_hash()), ABC_DIGEST);
    assert!(c.same_as(&c.duplicate()));
    assert!(!c.same_as(&big));
}

#[test]
fn into_interesting() {
    let seed = initial(b"la la la la la\n");
    let candidate = Candidate::new(&seed, "test".to_string(), "la".to_string(), b"la\n", b"");
    let interesting = match candidate.duplicate().into_interesting(&Verdict(true)) {
        Ok(Judged::Interesting(i)) => i,
        _ => panic!("interesting candidate should be ok and interesting"),
    };
    assert_eq!(interesting.path(), candidate.path());
    assert_eq!(interesting.size(), 3);
    assert_eq!(interesting.delta(), 12);
    assert_eq!(interesting.provenance(), "test");
    assert!(interesting.as_candidate().expect("made from a candidate").same_as(&candidate));

    match candidate.duplicate().into_interesting(&Verdict(false)) {
        Ok(Judged::NotInteresting(c)) => assert!(c.same_as(&candidate)),
        _ => panic!("the candidate should come back"),
    }
    assert!(candidate.into_interesting(&Failing).is_err());
}

#[test]
fn judging_from_a_verdict() {
    let seed = initial(b"abc");
    let c = Candidate::new(&seed, "r".to_string(), "p".to_string(), b"a", b"");
    match judge_candidate(c.duplicate(), Err(Error::InitialTestCaseNotInteresting)) {
        Err(Error::InitialTestCaseNotInteresting) => {}
        _ => panic!("the error should come back"),
    }
    assert!(matches!(judge_candidate(c.duplicate(), Ok(true)), Ok(Judged::Interesting(_))));
    assert!(matches!(judge_candidate(c, Ok(false)), Ok(Judged::NotInteresting(_))));
}

#[test]
fn the_initial_test_case_from_a_verdict() {
    assert_eq!(Interesting::initial_from_verdict("t".into(), b"la", Ok(false)), Ok(None));
    assert_eq!(
        Interesting::initial_from_verdict("t".into(), b"la", Err(Error::Io("e".into()))),
        Err(Error::Io("e".into()))
    );
    let i = Interesting::initial_from_verdict("t".into(), b"la la la la la\n", Ok(true)).unwrap().unwrap();
    assert_eq!(i.size(), 15);
    assert_eq!(i.delta(), 0);
    assert_eq!(i.provenance(), "<initial>");
}

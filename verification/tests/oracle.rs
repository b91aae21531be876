use preduce::error::Error;
use preduce::oracle::{CreducePassPriorities, InterestingRate, PercentReduced};
use preduce::score::Score;
use preduce::test_case::{Candidate, Interesting, Judged};
use preduce::traits::{IsInteresting, Oracle};

struct Yes;

impl IsInteresting for Yes {
    fn is_interesting(&self, _potential_reduction: &str) -> Result<bool, Error> {
        Ok(true)
    }
}

fn seed(size: usize) -> Interesting {
    Interesting::initial("seed".to_string(), &vec![b'x'; size], &Yes).unwrap().unwrap()
}

fn candidate(provenance: &str, size: usize) -> Candidate {
    Candidate::new(&seed(100), provenance.to_string(), "candidate".to_string(), &vec![b'y'; size], b"")
}

fn interesting(provenance: &str, size: usize) -> Interesting {
    match candidate(provenance, size).into_interesting(&Yes) {
        Ok(Judged::Interesting(i)) => i,
        _ => panic!("the candidate should be interesting"),
    }
}

#[test]
fn interesting_rate_is_the_share_of_interesting_reductions() {
    let mut oracle = InterestingRate::default();
    assert_eq!(oracle.predict(&candidate("lines", 1)), Score::ratio(0, 1));
    oracle.observe_smallest_interesting(&interesting("lines", 1));
    oracle.observe_not_smallest_interesting(&interesting("lines", 1));
    oracle.observe_not_interesting(&candidate("lines", 1));
    oracle.observe_not_interesting(&candidate("blank", 1));
    oracle.observe_exhausted("lines");
    assert_eq!(oracle.predict(&candidate("lines", 1)), Score::ratio(2, 3));
    assert_eq!(oracle.predict(&candidate("blank", 1)), Score::ratio(0, 1));
    assert_eq!(oracle.predict(&candidate("chunks", 1)), Score::ratio(0, 1));
}

#[test]
fn percent_reduced_is_the_share_removed() {
    let mut oracle = PercentReduced::new();
    assert_eq!(oracle.predict(&candidate("lines", 10)), Score::ratio(0, 1));
    oracle.observe_smallest_interesting(&interesting("lines", 40));
    assert_eq!(oracle.predict(&candidate("lines", 10)), Score::ratio(30, 40));
    assert_eq!(oracle.predict(&candidate("lines", 40)), Score::ratio(0, 40));
    assert_eq!(oracle.predict(&candidate("lines", 50)), Score::ratio(0, 1));
    oracle.observe_not_smallest_interesting(&interesting("lines", 20));
    assert_eq!(oracle.predict(&candidate("lines", 10)), Score::ratio(30, 40));
}

fn passes() -> Vec<String> {
    vec!["blank".to_string(), "lines".to_string(), "clang-format".to_string(), "clex".to_string()]
}

#[test]
fn creduce_pass_priorities_favour_the_current_pass() {
    let mut oracle = CreducePassPriorities::new(passes());
    assert_eq!(oracle.predict(&candidate("blank", 1)), Score::ratio(1, 1));
    assert_eq!(oracle.predict(&candidate("clang-format", 1)), Score::ratio(1, 3));
    assert_eq!(oracle.predict(&candidate("not-a-pass", 1)), Score::ratio(0, 1));

    // Exhausting a pass that does not have priority changes nothing.
    oracle.observe_exhausted("lines");
    assert_eq!(oracle.predict(&candidate("blank", 1)), Score::ratio(1, 1));

    // Exhausting the pass with priority moves it past the exhausted ones.
    oracle.observe_exhausted("blank");
    assert_eq!(oracle.predict(&candidate("clang-format", 1)), Score::ratio(1, 1));
    assert_eq!(oracle.predict(&candidate("blank", 1)), Score::ratio(1, 3));
    assert_eq!(oracle.predict(&candidate("lines", 1)), Score::ratio(1, 4));

    // Once all of them are exhausted, the first pass has priority again.
    oracle.observe_exhausted("clex");
    oracle.observe_exhausted("clang-format");
    assert_eq!(oracle.predict(&candidate("blank", 1)), Score::ratio(1, 1));
    assert_eq!(oracle.predict(&candidate("clang-format", 1)), Score::ratio(1, 3));

    // A new smallest test case makes every pass worth running again.
    oracle.observe_smallest_interesting(&interesting("lines", 1));
    oracle.observe_exhausted("blank");
    assert_eq!(oracle.predict(&candidate("lines", 1)), Score::ratio(1, 1));
    assert_eq!(oracle.predict(&candidate("blank", 1)), Score::ratio(1, 4));
}

#[test]
fn creduce_pass_priorities_start_over_when_all_are_exhausted() {
    let mut oracle = CreducePassPriorities::new(passes());
    oracle.observe_exhausted("lines");
    oracle.observe_exhausted("clang-format");
    oracle.observe_exhausted("clex");
    oracle.observe_exhausted("clex");
    oracle.observe_exhausted("blank");
    assert_eq!(oracle.predict(&candidate("blank", 1)), Score::ratio(1, 1));
    oracle.observe_not_interesting(&candidate("blank", 1));
    oracle.observe_not_smallest_interesting(&interesting("blank", 1));
    assert_eq!(oracle.predict(&candidate("clex", 1)), Score::ratio(1, 4));
}

#[test]
fn scores_rank_by_value() {
    assert!(Score::ratio(1, 3).is_below(&Score::ratio(1, 2)));
    assert!(!Score::ratio(2, 4).is_below(&Score::ratio(1, 2)));
    assert!(Score::skip().is_below(&Score::ratio(0, 1)));
    assert!(!Score::ratio(0, 1).is_below(&Score::skip()));
    assert!(!Score::skip().is_below(&Score::skip()));
}

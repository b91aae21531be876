use preduce::actors::ReducerId;
use preduce::error::Error;
use preduce::queue::CandidateQueue;
use preduce::score::Score;
use preduce::test_case::{Candidate, Interesting};
use preduce::traits::IsInteresting;

struct Yes;

impl IsInteresting for Yes {
    fn is_interesting(&self, _potential_reduction: &str) -> Result<bool, Error> {
        Ok(true)
    }
}

fn candidate(path: &str) -> Candidate {
    let seed = Interesting::initial("seed".to_string(), b"seed", &Yes).unwrap().unwrap();
    Candidate::new(&seed, "test".to_string(), path.to_string(), b"s", b"")
}

fn queue() -> CandidateQueue {
    let mut q = CandidateQueue::with_capacity(4);
    q.insert(candidate("low"), ReducerId::new(0), Score::ratio(1, 4));
    q.insert(candidate("skip"), ReducerId::new(1), Score::skip());
    q.insert(candidate("high"), ReducerId::new(2), Score::ratio(3, 4));
    q.insert(candidate("middle"), ReducerId::new(3), Score::ratio(1, 2));
    q
}

#[test]
fn candidates_leave_highest_priority_first() {
    let mut q = queue();
    assert_eq!(q.len(), 4);
    assert!(!q.is_empty());
    let order: Vec<(String, ReducerId)> = {
        let mut out = vec![];
        while let Some((c, by)) = q.pop() {
            out.push((c.path().to_string(), by));
        }
        out
    };
    assert_eq!(
        order,
        vec![
            ("high".to_string(), ReducerId(2)),
            ("middle".to_string(), ReducerId(3)),
            ("low".to_string(), ReducerId(0)),
            ("skip".to_string(), ReducerId(1)),
        ]
    );
    assert!(q.is_empty());
}

#[test]
fn draining_takes_at_most_n() {
    let mut q = queue();
    {
        let mut drain = q.drain(2);
        assert_eq!(drain.next().map(|(c, _)| c.path().to_string()), Some("high".to_string()));
        assert_eq!(drain.next().map(|(c, _)| c.path().to_string()), Some("middle".to_string()));
        assert!(drain.next().is_none());
    }
    assert_eq!(q.len(), 2);
    {
        let mut drain = q.drain(5);
        assert!(drain.next().is_some());
        assert!(drain.next().is_some());
        assert!(drain.next().is_none());
    }
    assert!(q.is_empty());
}

#[test]
fn retaining_and_clearing() {
    let mut q = queue();
    q.retain(|c: &Candidate, by: ReducerId| c.path() != "skip" && by != ReducerId(0));
    assert_eq!(q.len(), 2);
    assert_eq!(q.pop().map(|(c, _)| c.path().to_string()), Some("high".to_string()));
    assert_eq!(q.pop().map(|(c, _)| c.path().to_string()), Some("middle".to_string()));
    let mut q = queue();
    q.clear();
    assert!(q.is_empty());
    assert!(q.pop().is_none());
}

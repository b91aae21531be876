use preduce::interesting::{and_after_first, or_after_first};
use preduce::error::Error;
use preduce::interesting::{And, IsInterestingFn, Or};
use preduce::traits::IsInteresting;
use std::sync::atomic::{AtomicUsize, Ordering};

/// An is-interesting test that stands for a script exiting with 0 (`true`)
/// or 1 (`false`), and counts how often it ran.
struct Exits {
    verdict: bool,
    runs: AtomicUsize,
}

fn exits(verdict: bool) -> Exits {
    Exits { verdict, runs: AtomicUsize::new(0) }
}

impl IsInteresting for Exits {
    fn is_interesting(&self, _potential_reduction: &str) -> Result<bool, Error> {
        self.runs.fetch_add(1, Ordering::SeqCst);
        Ok(self.verdict)
    }
}

impl IsInteresting for &Exits {
    fn is_interesting(&self, potential_reduction: &str) -> Result<bool, Error> {
        (**self).is_interesting(potential_reduction)
    }
}

struct Failing;

impl IsInteresting for Failing {
    fn is_interesting(&self, _potential_reduction: &str) -> Result<bool, Error> {
        Err(Error::Io("failed".to_string()))
    }
}

#[test]
fn and_both_true() {
    let test = And::new(exits(true), exits(true));
    assert!(test.is_interesting("test-case").expect("is interesting should return Ok"));
}

#[test]
fn and_one_false() {
    let test = And::new(exits(true), exits(false));
    assert!(!test.is_interesting("test-case").unwrap());
}

#[test]
fn or_first_true() {
    let test = Or::new(exits(true), exits(false));
    assert!(test.is_interesting("test-case").unwrap());
}

#[test]
fn or_second_true() {
    let test = Or::new(exits(false), exits(true));
    assert!(test.is_interesting("test-case").unwrap());
}

#[test]
fn or_both_false() {
    let test = Or::new(exits(false), exits(false));
    assert!(!test.is_interesting("test-case").unwrap());
}

#[test]
fn and_or_short_circuit() {
    let first = exits(false);
    let second = exits(true);
    assert!(!And::new(&first, &second).is_interesting("t").unwrap());
    assert_eq!(second.runs.load(Ordering::SeqCst), 0);

    let first = exits(true);
    let second = exits(false);
    assert!(Or::new(&first, &second).is_interesting("t").unwrap());
    assert_eq!(second.runs.load(Ordering::SeqCst), 0);
}

#[test]
fn and_or_pass_errors_on() {
    assert!(And::new(Failing, exits(true)).is_interesting("t").is_err());
    assert!(Or::new(Failing, exits(true)).is_interesting("t").is_err());
    assert!(And::new(exits(true), Failing).is_interesting("t").is_err());
    assert!(Or::new(exits(false), Failing).is_interesting("t").is_err());
}

#[test]
fn non_empty_file_is_interesting() {
    // A file holding "z": one byte.
    let is_interesting = preduce::interesting::NonEmpty.judge_len(1);
    assert!(is_interesting);
}

#[test]
fn empty_file_is_not_interesting() {
    let is_interesting = preduce::interesting::NonEmpty.judge_len(0);
    assert!(!is_interesting);
}

#[test]
fn and_or_decide_after_the_first_test() {
    assert_eq!(and_after_first(Ok(false)), Some(Ok(false)));
    assert_eq!(and_after_first(Ok(true)), None);
    assert_eq!(and_after_first(Err(Error::Io("e".into()))), Some(Err(Error::Io("e".into()))));
    assert_eq!(or_after_first(Ok(true)), Some(Ok(true)));
    assert_eq!(or_after_first(Ok(false)), None);
    assert_eq!(or_after_first(Err(Error::Io("e".into()))), Some(Err(Error::Io("e".into()))));
}

#[test]
fn func_returns_true() {
    let test = IsInterestingFn::new(|_: &str| Ok(true));
    let test = &test;
    assert!(test.is_interesting("test-case").unwrap());
}

#[test]
fn func_returns_false() {
    let test = IsInterestingFn::new(|_: &str| Ok(false));
    let test = &test;
    assert!(!test.is_interesting("test-case").unwrap());
}

#[test]
fn func_errors_are_returned() {
    let test = IsInterestingFn::new(|_: &str| Err(Error::Io("no such file".to_string())));
    assert!(test.is_interesting("test-case").is_err());
}

#[test]
fn func_sees_the_path() {
    let test = IsInterestingFn::new(|path: &str| Ok(path.ends_with(".c")));
    assert!(test.is_interesting("reduced.c").unwrap());
    assert!(!test.is_interesting("reduced.rs").unwrap());
}

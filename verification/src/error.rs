//! Custom errors and results.

use vstd::prelude::*;

verus! {

/// The kinds of errors that can happen when running `preduce`.
///
/// Errors that come from the operating system or from other libraries carry
/// their message.
#[derive(Debug, PartialEq, Eq)]
pub enum Error {
    /// An IO error.
    Io(String),
    /// A JSON encoding/decoding error.
    Json(String),
    /// A panicked thread's failure value.
    Thread(String),
    /// An error related to a misbehaving reducer script.
    MisbehavingReducerScript(String),
    /// An error that occurred when attempting to backup the original test case.
    TestCaseBackupFailure(String),
    /// The initial test case did not pass the is-interesting predicate.
    InitialTestCaseNotInteresting,
    /// An "is interesting?" predicate script was not executable.
    IsNotExecutable(String),
    /// There is no file at the given path, when we expected one.
    DoesNotExist(String),
    /// A reducer actor panicked.
    ReducerActorPanicked,
}

/// The short description of each kind of error.
pub open spec fn spec_description(e: Error) -> Seq<char> {
    match e {
        Error::Io(_) => "An IO error"@,
        Error::Json(_) => "A JSON encoding or decoding error"@,
        Error::Thread(_) => "A panicked thread"@,
        Error::MisbehavingReducerScript(_) => "Misbehaving reducer script"@,
        Error::TestCaseBackupFailure(_) => "Could not backup initial test case"@,
        Error::InitialTestCaseNotInteresting => "The initial test case did not pass the is-interesting predicate"@,
        Error::IsNotExecutable(_) => "The script is not executable"@,
        Error::DoesNotExist(_) => "There is no file at the given path, but we expected one"@,
        Error::ReducerActorPanicked => "A reducer actor panicked"@,
    }
}

impl Error {
    /// A short description of this kind of error.
    pub fn description(&self) -> (d: &'static str)
        ensures
            d@ == spec_description(*self),
    {
        match self {
            Error::Io(_) => "An IO error",
            Error::Json(_) => "A JSON encoding or decoding error",
            Error::Thread(_) => "A panicked thread",
            Error::MisbehavingReducerScript(_) => "Misbehaving reducer script",
            Error::TestCaseBackupFailure(_) => "Could not backup initial test case",
            Error::InitialTestCaseNotInteresting => {
                "The initial test case did not pass the is-interesting predicate"
            },
            Error::IsNotExecutable(_) => "The script is not executable",
            Error::DoesNotExist(_) => "There is no file at the given path, but we expected one",
            Error::ReducerActorPanicked => "A reducer actor panicked",
        }
    }
}

} // verus!

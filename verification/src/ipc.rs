//! The requests and responses of the protocol between `preduce` and reducer
//! scripts.
//!
//! Each request and response travels as one line of JSON. A reducer state is
//! a JSON value; here it is held as its JSON text.

use vstd::prelude::*;

verus! {

/// A request from `preduce` to a reducer script.
///
/// The reducer script's response must match the request: `Request::New` is
/// answered with `Response::New`, `Request::Next` with `Response::Next`, and
/// so on. The exception is `Request::Shutdown`: reducer scripts exit without
/// responding to it.
///
/// The states will only ever be states returned in earlier responses.
#[derive(Debug, PartialEq, Eq)]
pub enum Request {
    /// `{ "Shutdown": null }`
    Shutdown,
    /// `{ "New": { "seed": "path/to/seed" } }`
    New(NewRequest),
    /// `{ "Next": { "seed": "path/to/seed", "state": <JSON value> } }`
    Next(NextRequest),
    /// `{ "NextOnInteresting": { "old_seed": "path/to/old/seed", "new_seed": "path/to/new/seed", "state": <JSON value> } }`
    NextOnInteresting(NextOnInterestingRequest),
    /// `{ "FastForward": { "seed": "path/to/seed", "state": <JSON value>, "n": <unsigned integer> } }`
    FastForward(FastForwardRequest),
    /// `{ "Reduce": { "seed": "path/to/seed", "state": <JSON value>, "dest": "path/to/dest" } }`
    Reduce(ReduceRequest),
}

/// Construct a new reducer state.
#[derive(Debug, PartialEq, Eq)]
pub struct NewRequest {
    /// The known-interesting seed test case the new reducer state should be
    /// created from.
    pub seed: String,
}

/// Get the next state.
#[derive(Debug, PartialEq, Eq)]
pub struct NextRequest {
    /// The known-interesting seed test case that the given state was created
    /// for.
    pub seed: String,
    /// The current state.
    pub state: String,
}

/// Get the next state when it is known that the given state produced a new
/// interesting test case from the old test case.
#[derive(Debug, PartialEq, Eq)]
pub struct NextOnInterestingRequest {
    /// The known-interesting seed test case that the given state was created
    /// for.
    pub old_seed: String,
    /// The new known-interesting test case that was generated with the given
    /// state in a `Request::Reduce` request.
    pub new_seed: String,
    /// The current state.
    pub state: String,
}

/// Get the n^th state after the given state for the given known-interesting
/// seed test case.
#[derive(Debug, PartialEq, Eq)]
pub struct FastForwardRequest {
    /// The known-interesting seed test case that the given state was created
    /// for.
    pub seed: String,
    /// The number of states to skip forward.
    pub n: usize,
    /// The current state.
    pub state: String,
}

/// Create a reduction of the given known-interesting seed test case at the
/// given destination path and with the given reduction state.
#[derive(Debug, PartialEq, Eq)]
pub struct ReduceRequest {
    /// The known-interesting seed test case that the given state was created
    /// for.
    pub seed: String,
    /// The current state.
    pub state: String,
    /// The path where the reduction should be created.
    pub dest: String,
}

/// A response from a reducer script to a `Request` sent by `preduce`.
#[derive(Debug, PartialEq, Eq)]
pub enum Response {
    /// `{ "New": { "state": <JSON value> } }`
    New(NewResponse),
    /// `{ "Next": { "next_state": <JSON value> } }`
    Next(NextResponse),
    /// `{ "NextOnInteresting": { "next_state": <JSON value> } }`
    NextOnInteresting(NextOnInterestingResponse),
    /// `{ "FastForward": { "next_state": <JSON value> } }`
    FastForward(FastForwardResponse),
    /// `{ "Reduce": { "reduced": <bool> } }`
    Reduce(ReduceResponse),
}

/// A response to `Request::New` with the new reduction state.
#[derive(Debug, PartialEq, Eq)]
pub struct NewResponse {
    /// The new state.
    pub state: String,
}

/// A response to `Request::Next` with the next reduction state.
#[derive(Debug, PartialEq, Eq)]
pub struct NextResponse {
    /// The next state.
    pub next_state: Option<String>,
}

/// A response to `Request::NextOnInteresting` with the next reduction state.
#[derive(Debug, PartialEq, Eq)]
pub struct NextOnInterestingResponse {
    /// The next state.
    pub next_state: Option<String>,
}

/// A response to `Request::FastForward` with the next reduction state.
#[derive(Debug, PartialEq, Eq)]
pub struct FastForwardResponse {
    /// The next state.
    pub next_state: Option<String>,
}

/// A response to `Request::Reduce`: whether a potential reduction was
/// created at the request's destination path.
#[derive(Debug, PartialEq, Eq)]
pub struct ReduceResponse {
    /// Whether a potential reduction was created at the request's
    /// destination path.
    pub reduced: bool,
}

/// Whether `response` is of the kind that answers `request`.
pub open spec fn spec_answers(request: Request, response: Response) -> bool {
    match (request, response) {
        (Request::New(_), Response::New(_)) => true,
        (Request::Next(_), Response::Next(_)) => true,
        (Request::NextOnInteresting(_), Response::NextOnInteresting(_)) => true,
        (Request::FastForward(_), Response::FastForward(_)) => true,
        (Request::Reduce(_), Response::Reduce(_)) => true,
        _ => false,
    }
}

/// Whether `response` is of the kind that answers `request`; nothing
/// answers `Request::Shutdown`.
pub fn answers(request: &Request, response: &Response) -> (b: bool)
    ensures
        b == spec_answers(*request, *response),
{
    match (request, response) {
        (Request::New(_), Response::New(_)) => true,
        (Request::Next(_), Response::Next(_)) => true,
        (Request::NextOnInteresting(_), Response::NextOnInteresting(_)) => true,
        (Request::FastForward(_), Response::FastForward(_)) => true,
        (Request::Reduce(_), Response::Reduce(_)) => true,
        _ => false,
    }
}


} // verus!

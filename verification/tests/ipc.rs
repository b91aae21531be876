use preduce::error::Error;
use preduce::ipc::{
    answers, FastForwardRequest, FastForwardResponse, NewRequest, NewResponse, NextOnInterestingRequest,
    NextOnInterestingResponse, NextRequest, NextResponse, ReduceRequest, ReduceResponse, Request, Response,
};

#[test]
fn responses_answer_their_requests() {
    let new = Request::New(NewRequest { seed: "/path/to/seed".to_string() });
    let next = Request::Next(NextRequest { seed: "s".to_string(), state: "[120,0]".to_string() });
    let on_interesting = Request::NextOnInteresting(NextOnInterestingRequest {
        old_seed: "a".to_string(),
        new_seed: "b".to_string(),
        state: "1".to_string(),
    });
    let fast_forward = Request::FastForward(FastForwardRequest { seed: "s".to_string(), n: 3, state: "1".to_string() });
    let reduce = Request::Reduce(ReduceRequest { seed: "s".to_string(), state: "1".to_string(), dest: "d".to_string() });

    assert!(answers(&new, &Response::New(NewResponse { state: "[120,0]".to_string() })));
    assert!(answers(&next, &Response::Next(NextResponse { next_state: None })));
    assert!(answers(&on_interesting, &Response::NextOnInteresting(NextOnInterestingResponse { next_state: None })));
    assert!(answers(&fast_forward, &Response::FastForward(FastForwardResponse { next_state: Some("2".to_string()) })));
    assert!(answers(&reduce, &Response::Reduce(ReduceResponse { reduced: true })));

    assert!(!answers(&next, &Response::Reduce(ReduceResponse { reduced: false })));
    assert!(!answers(&reduce, &Response::Next(NextResponse { next_state: None })));
    assert!(!answers(&Request::Shutdown, &Response::New(NewResponse { state: "0".to_string() })));
}

#[test]
fn errors_describe_themselves() {
    assert_eq!(Error::MisbehavingReducerScript("x".to_string()).description(), "Misbehaving reducer script");
    assert_eq!(
        Error::InitialTestCaseNotInteresting.description(),
        "The initial test case did not pass the is-interesting predicate"
    );
    assert_eq!(Error::IsNotExecutable("a".to_string()).description(), "The script is not executable");
}

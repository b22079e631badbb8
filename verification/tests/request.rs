use cookie_actor::cookie::{ClewdrCookie, CookieStatus};
use cookie_actor::error::ClewdrError;
use cookie_actor::request::{Notice, PendingRequest, RequestAction, RETRY_INTERVAL_MILLIS};

const SECOND: u128 = 1_000_000_000;

fn busy() -> Result<CookieStatus, ClewdrError> {
    Err(ClewdrError::AllCookiesBusy)
}

fn found() -> Result<CookieStatus, ClewdrError> {
    Ok(CookieStatus::new(ClewdrCookie::new("a".to_string()), None))
}

#[test]
fn waits_until_the_timeout() {
    let mut request = PendingRequest::new(2);
    assert!(matches!(request.next(busy(), 0), RequestAction::Wait { announce: true }));
    assert!(matches!(
        request.next(busy(), 2 * SECOND - 1),
        RequestAction::Wait { announce: false }
    ));
    assert!(matches!(
        request.next(busy(), 2 * SECOND),
        RequestAction::Finish {
            answer: Err(ClewdrError::AllCookiesBusy),
            notice: Notice::Nothing
        }
    ));
}

#[test]
fn no_timeout_means_no_wait() {
    let mut request = PendingRequest::new(0);
    assert!(matches!(request.next(busy(), 0), RequestAction::Finish { .. }));
    assert!(!request.logged_waiting);
}

#[test]
fn cookie_is_announced_only_after_a_wait() {
    let mut request = PendingRequest::new(5);
    assert!(matches!(
        request.next(found(), 0),
        RequestAction::Finish { answer: Ok(_), notice: Notice::Nothing }
    ));
    request.next(busy(), 0);
    assert!(matches!(
        request.next(found(), SECOND),
        RequestAction::Finish { answer: Ok(_), notice: Notice::BecameAvailable }
    ));
}

#[test]
fn lack_of_cookies_ends_the_request() {
    let mut request = PendingRequest::new(5);
    assert!(matches!(
        request.next(Err(ClewdrError::NoCookieAvailable), 0),
        RequestAction::Finish {
            answer: Err(ClewdrError::NoCookieAvailable),
            notice: Notice::NoneAvailable
        }
    ));
}

#[test]
fn other_errors_are_passed_on() {
    let mut request = PendingRequest::new(5);
    let error = ClewdrError::UnexpectedNone { msg: "missing" };
    match request.next(Err(error), 0) {
        RequestAction::Finish { answer, notice } => {
            assert_eq!(answer.err(), Some(error));
            assert_eq!(notice, Notice::Nothing);
        },
        RequestAction::Wait { .. } => panic!("waited"),
    }
}

#[test]
fn longest_timeout_does_not_overflow() {
    let mut request = PendingRequest::new(u64::MAX);
    assert!(matches!(request.next(busy(), u64::MAX as u128), RequestAction::Wait { .. }));
    assert_eq!(RETRY_INTERVAL_MILLIS, 500);
}

#[test]
fn whole_request_waits_then_ends() {
    let mut request = PendingRequest::new(3);
    for i in 0..4u128 {
        match request.next(busy(), i * SECOND / 2) {
            RequestAction::Wait { announce } => assert_eq!(announce, i == 0),
            other => panic!("ended: {:?}", other),
        }
    }
    match request.next(found(), 10 * SECOND) {
        RequestAction::Finish { answer, notice } => {
            assert_eq!(answer.unwrap().cookie.to_string(), "a");
            assert_eq!(notice, Notice::BecameAvailable);
        },
        RequestAction::Wait { .. } => panic!("waited"),
    }
}

//! Asking for a cookie again and again while all of them are busy.

use crate::cookie::CookieStatus;
use crate::error::ClewdrError;
use vstd::prelude::*;

verus! {

/// How long to wait before asking again, in milliseconds.
pub const RETRY_INTERVAL_MILLIS: u64 = 500;

/// The number of nanoseconds in a second.
pub const NANOS_PER_SEC: u128 = 1_000_000_000;

/// Something worth telling an operator.
#[derive(Debug, Clone, Copy, PartialEq, Eq, Structural)]
pub enum Notice {
    Nothing,
    /// A cookie came free after a wait.
    BecameAvailable,
    /// There is no cookie that could come free.
    NoneAvailable,
}

/// What to do about an answer of the pool.
#[derive(Debug)]
pub enum RequestAction {
    /// Wait, then ask again. The wait is to be announced if it is the first.
    Wait { announce: bool },
    /// Pass the answer on.
    Finish { answer: Result<CookieStatus, ClewdrError>, notice: Notice },
}

/// A request that may have to wait for a cookie.
#[derive(Debug, Clone, Copy, PartialEq, Eq, Structural)]
pub struct PendingRequest {
    /// For how many seconds the request may wait.
    pub timeout_secs: u64,
    /// The wait has been announced.
    pub logged_waiting: bool,
}

impl PendingRequest {
    /// There is time left for another wait.
    pub open spec fn may_wait(self, elapsed_nanos: u128) -> bool {
        elapsed_nanos < self.timeout_secs * NANOS_PER_SEC
    }

    /// What to do about `answer` when `elapsed_nanos` have passed since the request was made.
    pub open spec fn action(
        self,
        answer: Result<CookieStatus, ClewdrError>,
        elapsed_nanos: u128,
    ) -> RequestAction {
        match answer {
            Ok(_) => RequestAction::Finish {
                answer,
                notice: if self.logged_waiting {
                    Notice::BecameAvailable
                } else {
                    Notice::Nothing
                },
            },
            Err(ClewdrError::AllCookiesBusy) => if self.may_wait(elapsed_nanos) {
                RequestAction::Wait { announce: !self.logged_waiting }
            } else {
                RequestAction::Finish { answer, notice: Notice::Nothing }
            },
            Err(ClewdrError::NoCookieAvailable) => RequestAction::Finish {
                answer,
                notice: Notice::NoneAvailable,
            },
            Err(_) => RequestAction::Finish { answer, notice: Notice::Nothing },
        }
    }

    /// The request after that action.
    pub open spec fn after(self, action: RequestAction) -> Self {
        PendingRequest {
            logged_waiting: self.logged_waiting || action is Wait,
            ..self
        }
    }

    pub fn new(timeout_secs: u64) -> (request: Self)
        ensures
            request == (PendingRequest { timeout_secs, logged_waiting: false }),
    {
        PendingRequest { timeout_secs, logged_waiting: false }
    }

    /// Decides what to do about an answer of the pool.
    pub fn next(
        &mut self,
        answer: Result<CookieStatus, ClewdrError>,
        elapsed_nanos: u128,
    ) -> (action: RequestAction)
        ensures
            action == old(self).action(answer, elapsed_nanos),
            *final(self) == old(self).after(action),
    {
        match answer {
            Ok(status) => {
                let notice = if self.logged_waiting {
                    Notice::BecameAvailable
                } else {
                    Notice::Nothing
                };
                RequestAction::Finish { answer: Ok(status), notice }
            },
            Err(ClewdrError::AllCookiesBusy) => {
                assert(self.timeout_secs * NANOS_PER_SEC <= u64::MAX * 1_000_000_000);
                if elapsed_nanos < self.timeout_secs as u128 * NANOS_PER_SEC {
                    let announce = !self.logged_waiting;
                    self.logged_waiting = true;
                    RequestAction::Wait { announce }
                } else {
                    RequestAction::Finish {
                        answer: Err(ClewdrError::AllCookiesBusy),
                        notice: Notice::Nothing,
                    }
                }
            },
            Err(ClewdrError::NoCookieAvailable) => RequestAction::Finish {
                answer: Err(ClewdrError::NoCookieAvailable),
                notice: Notice::NoneAvailable,
            },
            Err(error) => RequestAction::Finish { answer: Err(error), notice: Notice::Nothing },
        }
    }
}

/// A busy pool is asked again exactly as long as there is time left, and any other answer ends
/// the request. The answer that ends it is passed on as it came.
pub proof fn law_waits_only_while_busy_and_in_time(
    request: PendingRequest,
    answer: Result<CookieStatus, ClewdrError>,
    elapsed_nanos: u128,
)
    ensures
        request.action(answer, elapsed_nanos) is Wait <==> answer == Err::<
            CookieStatus,
            ClewdrError,
        >(ClewdrError::AllCookiesBusy) && elapsed_nanos < request.timeout_secs * NANOS_PER_SEC,
        request.action(answer, elapsed_nanos) matches RequestAction::Finish {
            answer: passed_on,
            ..
        } ==> passed_on == answer,
{
}

/// A request that waits announces it once: after a wait no later wait is announced, and a cookie
/// that comes then is announced as having become available.
pub proof fn law_announces_once(
    request: PendingRequest,
    first: Result<CookieStatus, ClewdrError>,
    first_nanos: u128,
    second: Result<CookieStatus, ClewdrError>,
    second_nanos: u128,
)
    requires
        request.action(first, first_nanos) is Wait,
    ensures
        ({
            let later = request.after(request.action(first, first_nanos));
            let action = later.action(second, second_nanos);
            &&& !(action matches RequestAction::Wait { announce } && announce)
            &&& second is Ok ==> action == (RequestAction::Finish {
                answer: second,
                notice: Notice::BecameAvailable,
            })
        }),
{
}

/// An answer of the pool, and the nanoseconds that had passed since the request was made.
pub type TimedAnswer = (Result<CookieStatus, ClewdrError>, u128);

/// The request after it has dealt with these answers, one after the other.
pub open spec fn after_answers(request: PendingRequest, answers: Seq<TimedAnswer>) -> PendingRequest
    decreases answers.len(),
{
    if answers.len() == 0 {
        request
    } else {
        let before = after_answers(request, answers.drop_last());
        before.after(before.action(answers.last().0, answers.last().1))
    }
}

/// What the request does about the answer at `i`, after it has dealt with those before.
pub open spec fn action_at(
    request: PendingRequest,
    answers: Seq<TimedAnswer>,
    i: int,
) -> RequestAction {
    after_answers(request, answers.take(i)).action(answers[i].0, answers[i].1)
}

/// The pool is busy, and there is time left to wait.
pub open spec fn busy_in_time(request: PendingRequest, answer: TimedAnswer) -> bool {
    answer.0 == Err::<CookieStatus, ClewdrError>(ClewdrError::AllCookiesBusy) && request.may_wait(
        answer.1,
    )
}

/// A whole request: as long as the pool is busy and there is time left, it waits, and announces
/// the first wait alone; at the first answer of another kind, or out of time, it ends with that
/// answer as it came, and a cookie is announced if and only if there was a wait.
pub proof fn law_whole_request(timeout_secs: u64, answers: Seq<TimedAnswer>, n: int)
    requires
        0 <= n < answers.len(),
        ({
            let request = PendingRequest { timeout_secs, logged_waiting: false };
            &&& forall|i: int| 0 <= i < n ==> busy_in_time(request, #[trigger] answers[i])
            &&& !busy_in_time(request, answers[n])
        }),
    ensures
        ({
            let request = PendingRequest { timeout_secs, logged_waiting: false };
            &&& forall|i: int|
                0 <= i < n ==> #[trigger] action_at(request, answers, i) == (RequestAction::Wait {
                    announce: i == 0,
                })
            &&& action_at(request, answers, n) == (RequestAction::Finish {
                answer: answers[n].0,
                notice: match answers[n].0 {
                    Ok(_) => if n > 0 {
                        Notice::BecameAvailable
                    } else {
                        Notice::Nothing
                    },
                    Err(ClewdrError::NoCookieAvailable) => Notice::NoneAvailable,
                    Err(_) => Notice::Nothing,
                },
            })
        }),
{
    let request = PendingRequest { timeout_secs, logged_waiting: false };
    lemma_waiting(request, answers, n);
    assert forall|i: int| 0 <= i < n implies #[trigger] action_at(request, answers, i) == (
    RequestAction::Wait { announce: i == 0 }) by {
        lemma_waiting(request, answers, i);
        assert(busy_in_time(request, answers[i]));
    }
}

/// A request that has only waited so far is as it was, but for the announcement.
proof fn lemma_waiting(request: PendingRequest, answers: Seq<TimedAnswer>, n: int)
    requires
        0 <= n <= answers.len(),
        forall|i: int| 0 <= i < n ==> busy_in_time(request, #[trigger] answers[i]),
    ensures
        after_answers(request, answers.take(n)) == (PendingRequest {
            logged_waiting: request.logged_waiting || n > 0,
            ..request
        }),
    decreases n,
{
    if n > 0 {
        lemma_waiting(request, answers, n - 1);
        assert(answers.take(n).drop_last() =~= answers.take(n - 1));
        assert(answers.take(n).last() == answers[n - 1]);
        assert(busy_in_time(request, answers[n - 1]));
    }
}

} // verus!

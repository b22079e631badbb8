//! The messages that the pool answers, and what each does to it.

use crate::clock::{clock_can_show, clock_showed};
use crate::config::Config;
use crate::cookie::{ClewdrCookie, CookieStatus, Reason, UselessCookie};
use crate::error::ClewdrError;
use crate::pool::{Change, Pool, Report};
use crate::slots::{counts_listed, listed_once};
use vstd::prelude::*;

verus! {

/// Everything there is to tell of a pool.
#[derive(Debug, Clone)]
pub struct CookieStatusInfo {
    pub valid: Vec<CookieStatus>,
    pub exhausted: Vec<CookieStatus>,
    pub invalid: Vec<UselessCookie>,
    /// The number of requests that are using each cookie, each cookie listed once.
    pub in_use_counts: Vec<(String, usize)>,
}

impl View for CookieStatusInfo {
    type V = Report;

    open spec fn view(&self) -> Report {
        Report {
            valid: self.valid@,
            exhausted: self.exhausted@,
            invalid: self.invalid@,
            in_use: counts_listed(self.in_use_counts@),
        }
    }
}

impl CookieStatusInfo {
    /// No cookie is listed twice among those in use.
    pub open spec fn wf(self) -> bool {
        listed_once(self.in_use_counts@)
    }

    /// Every cookie of the pool is listed where it is, with the record that the pool has of it,
    /// and every cookie that is being used with the number of requests that use it.
    pub open spec fn tells(self, pool: Pool) -> bool {
        &&& self.valid@ == pool.valid
        &&& self.exhausted@ == pool.exhausted
        &&& self.invalid@ == pool.invalid
        &&& forall|i: int|
            0 <= i < self.in_use_counts@.len() ==> pool.in_use.contains_key(
                (#[trigger] self.in_use_counts@[i]).0@,
            ) && pool.in_use[self.in_use_counts@[i].0@] == self.in_use_counts@[i].1
        &&& forall|key: Seq<char>| #[trigger]
            pool.in_use.contains_key(key) ==> exists|i: int|
                0 <= i < self.in_use_counts@.len() && #[trigger] self.in_use_counts@[i].0@ == key
    }
}

/// What the pool can be told or asked.
#[derive(Debug)]
pub enum CookieActorMessage {
    /// Take a cookie back. Without a reason only its record is brought up to date.
    Return(CookieStatus, Option<Reason>),
    /// Take a new cookie in.
    Submit(CookieStatus),
    /// Put cookies back that have rested, and start finished usage windows anew.
    CheckReset,
    /// Hand out a cookie, for the conversation that the hash stands for if there is one.
    Request(Option<u64>),
    /// Tell everything.
    GetStatus,
    /// Delete a cookie.
    Delete(CookieStatus),
    /// Note what is known of a cookie's support for long contexts.
    Update1mSupport(CookieStatus),
    /// A request no longer uses this cookie.
    ReleaseSlot(ClewdrCookie),
}

/// What the sender of a message is told.
#[derive(Debug)]
pub enum Reply {
    /// Nothing: the message asks for no answer.
    Nothing,
    /// A cookie, or why there is none.
    Cookie(Result<CookieStatus, ClewdrError>),
    /// Everything there is to tell.
    Status(CookieStatusInfo),
    /// That it was done, or why not.
    Done(Result<(), ClewdrError>),
}

/// What a [`Reply`] says.
#[verifier::ext_equal]
pub enum Told {
    Nothing,
    Cookie(Result<CookieStatus, ClewdrError>),
    Status(Report),
    Done(Result<(), ClewdrError>),
}

impl View for Reply {
    type V = Told;

    open spec fn view(&self) -> Told {
        match *self {
            Reply::Nothing => Told::Nothing,
            Reply::Cookie(answer) => Told::Cookie(answer),
            Reply::Status(info) => Told::Status(info@),
            Reply::Done(answer) => Told::Done(answer),
        }
    }
}

/// What came of a message.
#[derive(Debug)]
pub struct Outcome {
    pub reply: Reply,
    /// The cookies were saved to the configuration, which is now to be made to last.
    pub saved: bool,
}

/// What is read from outside while a message is handled.
pub struct Readings {
    /// The time by which usage windows are over or not.
    pub refreshed_at: i64,
    /// The time by which cookies have rested or not.
    pub reset_at: i64,
    /// The cookie that the cache remembers for the conversation.
    pub cached: Option<Seq<char>>,
}

/// The pool and the configuration after a message, and what came of it.
pub struct Step {
    pub pool: Pool,
    pub config: Config,
    pub reply: Told,
    pub saved: bool,
}

/// The hash of the conversation that a message is about.
pub open spec fn hash_asked(message: CookieActorMessage) -> Option<u64> {
    match message {
        CookieActorMessage::Request(hash) => hash,
        _ => None,
    }
}

/// The message has usage windows looked at, for which the clock is read.
pub open spec fn looks_at_windows(message: CookieActorMessage) -> bool {
    message is CheckReset || message is GetStatus
}

/// The message has cookies put back that have rested, for which the clock is read.
pub open spec fn puts_back(message: CookieActorMessage) -> bool {
    message is CheckReset || message is Request
}

impl Readings {
    /// The clock and the cache can have answered like this; and where the message has the clock
    /// read or a conversation looked up, this is what the clock showed and the lookup answered.
    pub open spec fn possible(self, pool: Pool, message: CookieActorMessage) -> bool {
        &&& clock_can_show(self.refreshed_at)
        &&& clock_can_show(self.reset_at)
        &&& pool.affinity.may_answer(hash_asked(message), self.cached)
        &&& looks_at_windows(message) ==> clock_showed(self.refreshed_at)
        &&& puts_back(message) ==> clock_showed(self.reset_at)
        &&& hash_asked(message) matches Some(hash) ==> pool.affinity.answered(hash, self.cached)
    }
}

impl Change {
    /// A step that does this and tells nothing.
    pub open spec fn silent(self) -> Step {
        Step { pool: self.pool, config: self.config, reply: Told::Nothing, saved: self.saved }
    }

    /// A step that does this and tells whether it was done.
    pub open spec fn answered(self) -> Step {
        Step {
            pool: self.pool,
            config: self.config,
            reply: Told::Done(self.answer),
            saved: self.saved,
        }
    }
}

impl Pool {
    /// Starting finished usage windows anew, which is saved if there was one.
    pub open spec fn refresh(self, config: Config, now: i64) -> Change {
        if self.any_window_due(now) {
            self.rolled(now).saved_to(config)
        } else {
            self.rolled(now).kept(config)
        }
    }

    /// What a message does.
    pub open spec fn step(
        self,
        config: Config,
        message: CookieActorMessage,
        readings: Readings,
    ) -> Step {
        match message {
            CookieActorMessage::Return(status, reason) => self.collect(
                config,
                status,
                reason,
            ).silent(),
            CookieActorMessage::Submit(status) => self.accept(config, status).silent(),
            CookieActorMessage::CheckReset => {
                let refreshed = self.refresh(config, readings.refreshed_at);
                Step {
                    pool: refreshed.pool.after_reset(readings.reset_at),
                    ..refreshed.silent()
                }
            },
            CookieActorMessage::Request(hash) => {
                let dispatch = self.after_reset(readings.reset_at).dispatch(
                    hash,
                    readings.cached,
                    config.limit(),
                );
                Step {
                    pool: dispatch.pool,
                    config,
                    reply: Told::Cookie(dispatch.answer),
                    saved: false,
                }
            },
            CookieActorMessage::GetStatus => {
                let refreshed = self.refresh(config, readings.refreshed_at);
                Step { reply: Told::Status(refreshed.pool.report()), ..refreshed.silent() }
            },
            CookieActorMessage::Delete(status) => self.delete(config, status).answered(),
            CookieActorMessage::Update1mSupport(status) => self.update_1m_support(
                config,
                status,
            ).answered(),
            CookieActorMessage::ReleaseSlot(cookie) => self.released(cookie@).kept(
                config,
            ).silent(),
        }
    }
}

} // verus!

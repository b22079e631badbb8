//! What a pool of cookies is, and what each operation makes of it.

use crate::affinity::Affinity;
use crate::config::Config;
use crate::cookie::{CookieStatus, Reason, UselessCookie};
use crate::error::ClewdrError;
use crate::keyed::{distinct, first_index, holds, keep_first, without};
use crate::slots::{acquired, all_positive, count_of, released};
use vstd::prelude::*;

verus! {

/// How many conversations are remembered with the cookie that served them.
pub const AFFINITY_CAPACITY: u64 = 1000;

/// For how many seconds without use a conversation is remembered.
pub const AFFINITY_IDLE_SECS: u64 = 60 * 60;

/// What `delete` answers for a cookie that the pool does not hold.
pub open spec fn delete_missed() -> ClewdrError {
    ClewdrError::UnexpectedNone { msg: "Delete operation did not find the cookie" }
}

/// What `update_1m_support` answers for a cookie that the pool does not hold.
pub open spec fn update_missed() -> ClewdrError {
    ClewdrError::UnexpectedNone { msg: "Update operation did not find the cookie" }
}

/// The cookies, who is using them, and which conversations they served.
#[verifier::ext_equal]
pub struct Pool {
    /// The cookies that can be handed out, the next one first.
    pub valid: Seq<CookieStatus>,
    /// The cookies that have to rest.
    pub exhausted: Seq<CookieStatus>,
    /// The cookies that were given up.
    pub invalid: Seq<UselessCookie>,
    /// Which cookie served which conversation last.
    pub affinity: Affinity,
    /// How many requests are using each cookie.
    pub in_use: Map<Seq<char>, nat>,
}

/// The answer to a request for a cookie, and the pool after it.
pub struct Dispatch {
    pub pool: Pool,
    pub answer: Result<CookieStatus, ClewdrError>,
}

/// An answer without a value, the pool and the configuration after it, and whether the
/// configuration was saved to.
pub struct Change {
    pub pool: Pool,
    pub config: Config,
    pub answer: Result<(), ClewdrError>,
    pub saved: bool,
}

/// What a pool tells of itself.
#[verifier::ext_equal]
pub struct Report {
    pub valid: Seq<CookieStatus>,
    pub exhausted: Seq<CookieStatus>,
    pub invalid: Seq<UselessCookie>,
    pub in_use: Map<Seq<char>, nat>,
}

/// Tells a cookie that may be used again at `now`.
pub open spec fn is_rested(now: i64) -> spec_fn(CookieStatus) -> bool {
    |status: CookieStatus| status.rested(now)
}

/// Tells a cookie that still has to rest at `now`.
pub open spec fn is_resting(now: i64) -> spec_fn(CookieStatus) -> bool {
    |status: CookieStatus| !status.rested(now)
}

/// Tells a cookie that does not have to rest, whatever the time.
pub open spec fn is_ready() -> spec_fn(CookieStatus) -> bool {
    |status: CookieStatus| status.reset_time is None
}

/// Tells a cookie that has to rest until some time.
pub open spec fn is_cooling() -> spec_fn(CookieStatus) -> bool {
    |status: CookieStatus| status.reset_time is Some
}

/// The records, each with its resting time taken away if that has passed.
pub open spec fn all_after_reset(items: Seq<CookieStatus>, now: i64) -> Seq<CookieStatus> {
    items.map_values(|status: CookieStatus| status.after_reset(now))
}

/// The records, each with its finished usage windows started anew.
pub open spec fn all_rolled(items: Seq<CookieStatus>, now: i64) -> Seq<CookieStatus> {
    items.map_values(|status: CookieStatus| status.rolled(now))
}

/// The records, each with what is taken for granted of long contexts.
pub open spec fn all_with_1m_defaults(items: Seq<CookieStatus>) -> Seq<CookieStatus> {
    items.map_values(|status: CookieStatus| status.with_1m_defaults())
}

/// Some record has a usage window that is over.
pub open spec fn any_due(items: Seq<CookieStatus>, now: i64) -> bool {
    exists|i: int| 0 <= i < items.len() && #[trigger] items[i].any_window_due(now)
}

impl Pool {
    /// No cookie rests twice, none was given up twice, and one that nobody uses is not counted.
    pub open spec fn wf(self) -> bool {
        &&& distinct(self.exhausted)
        &&& distinct(self.invalid)
        &&& all_positive(self.in_use)
    }

    /// The pool that a configuration describes.
    pub open spec fn starting_from(config: Config) -> Self {
        Pool {
            valid: all_with_1m_defaults(config.cookie_array.filter(is_ready())),
            exhausted: keep_first(all_with_1m_defaults(config.cookie_array.filter(is_cooling()))),
            invalid: keep_first(config.wasted_cookie),
            affinity: Affinity {
                last: Map::empty(),
                capacity: AFFINITY_CAPACITY,
                idle_secs: AFFINITY_IDLE_SECS,
            },
            in_use: Map::empty(),
        }
    }

    /// The pool after the cookies that have rested enough at `now` have been put back.
    pub open spec fn after_reset(self, now: i64) -> Self {
        Pool {
            valid: self.valid + all_after_reset(self.exhausted.filter(is_rested(now)), now),
            exhausted: self.exhausted.filter(is_resting(now)),
            ..self
        }
    }

    /// Some cookie has a usage window that is over at `now`.
    pub open spec fn any_window_due(self, now: i64) -> bool {
        any_due(self.valid, now) || any_due(self.exhausted, now)
    }

    /// The pool with every usage window that is over at `now` started anew.
    pub open spec fn rolled(self, now: i64) -> Self {
        Pool {
            valid: all_rolled(self.valid, now),
            exhausted: all_rolled(self.exhausted, now),
            ..self
        }
    }

    /// The cookie at `i` can take one more request.
    pub open spec fn is_free(self, i: int, limit: nat) -> bool {
        0 <= i < self.valid.len() && count_of(self.in_use, self.valid[i].cookie@) < limit
    }

    /// Some cookie can take one more request.
    pub open spec fn any_free(self, limit: nat) -> bool {
        exists|i: int| #[trigger] self.is_free(i, limit)
    }

    /// The cookie at `i` is the first that can take one more request.
    pub open spec fn is_first_free(self, i: int, limit: nat) -> bool {
        self.is_free(i, limit) && forall|j: int| 0 <= j < i ==> !#[trigger] self.is_free(j, limit)
    }

    /// Where the first cookie that can take one more request stands.
    pub open spec fn first_free(self, limit: nat) -> int
        recommends
            self.any_free(limit),
    {
        choose|i: int| self.is_first_free(i, limit)
    }

    /// The cookie that the cache remembers for the conversation can take one more request.
    pub open spec fn affinity_hit(
        self,
        hash: Option<u64>,
        cached: Option<Seq<char>>,
        limit: nat,
    ) -> bool {
        &&& hash is Some
        &&& cached is Some
        &&& holds(self.valid, cached->0)
        &&& count_of(self.in_use, cached->0) < limit
    }

    /// The affinity after `cookie` has served a conversation, if that is known by a hash.
    pub open spec fn tied(self, hash: Option<u64>, cookie: Seq<char>) -> Affinity {
        if hash is Some {
            self.affinity.tied(hash->0, cookie)
        } else {
            self.affinity
        }
    }

    /// Handing out a cookie: the one remembered for the conversation if it can take a request,
    /// else the first that can, which then goes to the back.
    pub open spec fn dispatch(
        self,
        hash: Option<u64>,
        cached: Option<Seq<char>>,
        limit: nat,
    ) -> Dispatch {
        if self.affinity_hit(hash, cached, limit) {
            Dispatch {
                pool: Pool {
                    affinity: self.tied(hash, cached->0),
                    in_use: acquired(self.in_use, cached->0),
                    ..self
                },
                answer: Ok(self.valid[first_index(self.valid, cached->0)]),
            }
        } else if self.valid.len() == 0 {
            Dispatch { pool: self, answer: Err(ClewdrError::NoCookieAvailable) }
        } else if self.any_free(limit) {
            let i = self.first_free(limit);
            let status = self.valid[i];
            Dispatch {
                pool: Pool {
                    valid: self.valid.remove(i).push(status),
                    affinity: self.tied(hash, status.cookie@),
                    in_use: acquired(self.in_use, status.cookie@),
                    ..self
                },
                answer: Ok(status),
            }
        } else {
            Dispatch { pool: self, answer: Err(ClewdrError::AllCookiesBusy) }
        }
    }

    /// The pool after a request has stopped using the cookie `key`.
    pub open spec fn released(self, key: Seq<char>) -> Self {
        Pool { in_use: released(self.in_use, key), ..self }
    }

    /// The pool with the cookie `key` no longer handed out.
    pub open spec fn withdrawn(self, key: Seq<char>) -> Self {
        Pool { valid: without(self.valid, key), ..self }
    }

    /// The pool with this record of a cookie that is handed out, in place of the first one.
    pub open spec fn replaced(self, status: CookieStatus) -> Self {
        Pool {
            valid: self.valid.update(first_index(self.valid, status.cookie@), status),
            ..self
        }
    }

    /// The pool with one more cookie at rest.
    pub open spec fn resting(self, status: CookieStatus) -> Self {
        Pool { exhausted: self.exhausted.push(status), ..self }
    }

    /// The pool with one more cookie given up.
    pub open spec fn given_up(self, useless: UselessCookie) -> Self {
        Pool { invalid: self.invalid.push(useless), ..self }
    }

    /// The pool as it is, with nothing saved.
    pub open spec fn kept(self, config: Config) -> Change {
        Change { pool: self, config, answer: Ok(()), saved: false }
    }

    /// The pool as it is, saved to the configuration.
    pub open spec fn saved_to(self, config: Config) -> Change {
        Change { pool: self, config: config.saving(self), answer: Ok(()), saved: true }
    }

    /// Taking back a cookie. Without a reason this only brings its record up to date. With one
    /// the request is done with the cookie, and the reason says what becomes of it.
    pub open spec fn collect(
        self,
        config: Config,
        status: CookieStatus,
        reason: Option<Reason>,
    ) -> Change {
        let key = status.cookie@;
        let apart = self.released(key).withdrawn(key);
        match reason {
            None => if holds(self.valid, key) {
                self.replaced(status).saved_to(config)
            } else {
                self.kept(config)
            },
            Some(Reason::NormalPro) => self.released(key).kept(config),
            Some(Reason::TooManyRequest(until)) => apart.rest(config, status.cooling(until)),
            Some(Reason::Restricted(until)) => apart.rest(config, status.cooling(until)),
            Some(why) => apart.give_up(config, UselessCookie { cookie: status.cookie, reason: why }),
        }
    }

    /// Laying a cookie to rest, unless it rests already.
    pub open spec fn rest(self, config: Config, status: CookieStatus) -> Change {
        if holds(self.exhausted, status.cookie@) {
            self.kept(config)
        } else {
            self.resting(status).saved_to(config)
        }
    }

    /// Giving a cookie up, unless it was given up already.
    pub open spec fn give_up(self, config: Config, useless: UselessCookie) -> Change {
        if holds(self.invalid, useless.cookie@) {
            self.kept(config)
        } else {
            self.given_up(useless).saved_to(config)
        }
    }

    /// Taking in a new cookie, unless the configuration knows it.
    pub open spec fn accept(self, config: Config, status: CookieStatus) -> Change {
        if config.knows(status.cookie@) {
            self.kept(config)
        } else {
            Pool { valid: self.valid.push(status), ..self }.saved_to(config)
        }
    }

    /// The cookie `key` is in the pool, be it handed out, at rest or given up.
    pub open spec fn contains(self, key: Seq<char>) -> bool {
        holds(self.valid, key) || holds(self.exhausted, key) || holds(self.invalid, key)
    }

    /// The pool without the cookie `key`.
    pub open spec fn deleted(self, key: Seq<char>) -> Self {
        Pool {
            valid: without(self.valid, key),
            exhausted: without(self.exhausted, key),
            invalid: without(self.invalid, key),
            ..self
        }
    }

    /// Deleting a cookie.
    pub open spec fn delete(self, config: Config, status: CookieStatus) -> Change {
        if self.contains(status.cookie@) {
            self.deleted(status.cookie@).saved_to(config)
        } else {
            Change { pool: self, config, answer: Err(delete_missed()), saved: false }
        }
    }

    /// The records with what `status` says of long contexts in the first one about its cookie.
    pub open spec fn with_1m_support(
        items: Seq<CookieStatus>,
        status: CookieStatus,
    ) -> Seq<CookieStatus> {
        let i = first_index(items, status.cookie@);
        items.update(i, items[i].with_1m_of(status))
    }

    /// Noting what is known of a cookie's support for long contexts.
    pub open spec fn update_1m_support(self, config: Config, status: CookieStatus) -> Change {
        if holds(self.valid, status.cookie@) {
            Pool { valid: Self::with_1m_support(self.valid, status), ..self }.saved_to(config)
        } else if holds(self.exhausted, status.cookie@) {
            Pool { exhausted: Self::with_1m_support(self.exhausted, status), ..self }.saved_to(
                config,
            )
        } else {
            Change { pool: self, config, answer: Err(update_missed()), saved: false }
        }
    }

    /// What the pool tells of itself.
    pub open spec fn report(self) -> Report {
        Report {
            valid: self.valid,
            exhausted: self.exhausted,
            invalid: self.invalid,
            in_use: self.in_use,
        }
    }
}

} // verus!

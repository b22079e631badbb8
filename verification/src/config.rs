//! The part of the configuration that the pool reads and writes.

use crate::cookie::{CookieStatus, UselessCookie};
use crate::keyed::{contains, holds};
use crate::pool::Pool;
use vstd::prelude::*;

verus! {

/// Settings, and the cookies as they were last saved.
#[derive(Debug)]
pub struct ClewdrConfig {
    pub cookie_array: Vec<CookieStatus>,
    pub wasted_cookie: Vec<UselessCookie>,
    /// How many requests may use one cookie at a time. Nought counts as one.
    pub max_concurrent_per_cookie: usize,
    /// For how many seconds a request waits for a cookie while all are busy.
    pub cookie_wait_timeout: u64,
}

/// What a [`ClewdrConfig`] says.
#[verifier::ext_equal]
pub struct Config {
    pub cookie_array: Seq<CookieStatus>,
    pub wasted_cookie: Seq<UselessCookie>,
    pub max_concurrent_per_cookie: usize,
    pub cookie_wait_timeout: u64,
}

impl View for ClewdrConfig {
    type V = Config;

    open spec fn view(&self) -> Config {
        Config {
            cookie_array: self.cookie_array@,
            wasted_cookie: self.wasted_cookie@,
            max_concurrent_per_cookie: self.max_concurrent_per_cookie,
            cookie_wait_timeout: self.cookie_wait_timeout,
        }
    }
}

impl Config {
    /// How many requests may use one cookie at a time.
    pub open spec fn limit(self) -> nat {
        if self.max_concurrent_per_cookie == 0 {
            1
        } else {
            self.max_concurrent_per_cookie as nat
        }
    }

    /// The configuration after the cookies of `pool` have been saved to it.
    pub open spec fn saving(self, pool: Pool) -> Self {
        Config {
            cookie_array: pool.valid + pool.exhausted,
            wasted_cookie: pool.invalid,
            ..self
        }
    }

    /// The cookie `key` is among those saved, as one in use or as one given up.
    pub open spec fn knows(self, key: Seq<char>) -> bool {
        holds(self.cookie_array, key) || holds(self.wasted_cookie, key)
    }
}

impl ClewdrConfig {
    /// How many requests may use one cookie at a time.
    pub fn concurrency_limit(&self) -> (limit: usize)
        ensures
            limit == self@.limit(),
    {
        if self.max_concurrent_per_cookie == 0 {
            1
        } else {
            self.max_concurrent_per_cookie
        }
    }

    /// Tells whether `cookie` is among those saved.
    pub fn knows(&self, cookie: &CookieStatus) -> (known: bool)
        ensures
            known == self@.knows(cookie.cookie@),
    {
        contains(&self.cookie_array, &cookie.cookie) || contains(
            &self.wasted_cookie,
            &cookie.cookie,
        )
    }
}

} // verus!

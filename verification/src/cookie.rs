//! Cookies, what is known of each of them, and why one was given up.

use crate::keyed::Keyed;
use vstd::prelude::*;

verus! {

/// Length of a session usage window: five hours.
pub const SESSION_WINDOW_SECS: i64 = 5 * 60 * 60;

/// Length of a weekly usage window: seven days.
pub const WEEKLY_WINDOW_SECS: i64 = 7 * 24 * 60 * 60;

/// The text of a session cookie. It is the identity of everything kept about that cookie.
#[derive(Debug, Hash)]
pub struct ClewdrCookie {
    inner: String,
}

impl View for ClewdrCookie {
    type V = Seq<char>;

    closed spec fn view(&self) -> Seq<char> {
        self.inner@
    }
}

/// The text of a cookie, if there is one.
pub open spec fn text_of(cookie: Option<ClewdrCookie>) -> Option<Seq<char>> {
    match cookie {
        Some(cookie) => Some(cookie@),
        None => None,
    }
}

impl ClewdrCookie {
    pub fn new(text: String) -> (cookie: Self)
        ensures
            cookie@ == text@,
    {
        ClewdrCookie { inner: text }
    }

    /// The cookie's text.
    pub fn to_string(&self) -> (text: String)
        ensures
            text@ == self@,
    {
        self.inner.clone()
    }
}

impl Clone for ClewdrCookie {
    fn clone(&self) -> (copy: Self)
        ensures
            copy == *self,
    {
        ClewdrCookie { inner: self.inner.clone() }
    }
}

impl PartialEq for ClewdrCookie {
    fn eq(&self, other: &Self) -> (same: bool) {
        self.inner == other.inner
    }
}

impl vstd::std_specs::cmp::PartialEqSpecImpl for ClewdrCookie {
    open spec fn obeys_eq_spec() -> bool {
        true
    }

    open spec fn eq_spec(&self, other: &Self) -> bool {
        self@ == other@
    }
}

impl Eq for ClewdrCookie {

}

/// Why a request is done with a cookie.
#[derive(Debug, Clone, Copy, PartialEq, Eq, Structural, Hash)]
pub enum Reason {
    /// The cookie works.
    NormalPro,
    /// The cookie belongs to a free account.
    Free,
    /// The account is disabled.
    Disabled,
    /// The account is banned.
    Banned,
    /// No reason is known.
    Null,
    /// The account is restricted until this timestamp.
    Restricted(i64),
    /// The account has sent too many requests, and may send more after this timestamp.
    TooManyRequest(i64),
}

/// Tokens spent in one usage window.
#[derive(Debug, Clone, Copy, PartialEq, Eq, Structural, Hash)]
pub struct UsageBreakdown {
    pub total_input_tokens: u64,
    pub total_output_tokens: u64,
    pub sonnet_input_tokens: u64,
    pub sonnet_output_tokens: u64,
    pub opus_input_tokens: u64,
    pub opus_output_tokens: u64,
}

/// Nothing spent.
pub open spec fn no_usage() -> UsageBreakdown {
    UsageBreakdown {
        total_input_tokens: 0,
        total_output_tokens: 0,
        sonnet_input_tokens: 0,
        sonnet_output_tokens: 0,
        opus_input_tokens: 0,
        opus_output_tokens: 0,
    }
}

impl Default for UsageBreakdown {
    fn default() -> (usage: Self)
        ensures
            usage == no_usage(),
    {
        UsageBreakdown {
            total_input_tokens: 0,
            total_output_tokens: 0,
            sonnet_input_tokens: 0,
            sonnet_output_tokens: 0,
            opus_input_tokens: 0,
            opus_output_tokens: 0,
        }
    }
}

/// A usage window is over: it is one that resets, and its time has come.
pub open spec fn window_due(has_reset: Option<bool>, resets_at: Option<i64>, now: i64) -> bool {
    has_reset == Some(true) && resets_at is Some && now >= resets_at->0
}

/// When a window resets after it has been looked at.
pub open spec fn next_reset(
    has_reset: Option<bool>,
    resets_at: Option<i64>,
    window_secs: i64,
    now: i64,
) -> Option<i64> {
    if window_due(has_reset, resets_at, now) {
        Some((now + window_secs) as i64)
    } else {
        resets_at
    }
}

/// What a window has counted after it has been looked at.
pub open spec fn next_usage(
    has_reset: Option<bool>,
    resets_at: Option<i64>,
    usage: UsageBreakdown,
    now: i64,
) -> UsageBreakdown {
    if window_due(has_reset, resets_at, now) {
        no_usage()
    } else {
        usage
    }
}

/// Starts a usage window anew if it is over, and tells whether it was.
fn reset_if_due(
    has_reset: Option<bool>,
    resets_at: &mut Option<i64>,
    usage: &mut UsageBreakdown,
    window_secs: i64,
    now: i64,
) -> (due: bool)
    requires
        i64::MIN <= now + window_secs <= i64::MAX,
    ensures
        due == window_due(has_reset, *old(resets_at), now),
        *final(resets_at) == next_reset(has_reset, *old(resets_at), window_secs, now),
        *final(usage) == next_usage(has_reset, *old(resets_at), *old(usage), now),
{
    let resets = match has_reset {
        Some(resets) => resets,
        None => false,
    };
    let passed = match *resets_at {
        Some(timestamp) => now >= timestamp,
        None => false,
    };
    if resets && passed {
        *usage = UsageBreakdown::default();
        *resets_at = Some(now + window_secs);
        return true;
    }
    false
}

/// Everything kept about a cookie that is in use or cooling down.
///
/// `==` compares the cookies alone: two records about one cookie are equal whatever else they say.
#[derive(Debug)]
pub struct CookieStatus {
    pub cookie: ClewdrCookie,
    /// The timestamp after which a cookie that is cooling down may be used again.
    pub reset_time: Option<i64>,
    pub supports_claude_1m_sonnet: Option<bool>,
    pub supports_claude_1m_opus: Option<bool>,
    pub session_usage: UsageBreakdown,
    pub session_resets_at: Option<i64>,
    pub session_has_reset: Option<bool>,
    pub weekly_usage: UsageBreakdown,
    pub weekly_resets_at: Option<i64>,
    pub weekly_has_reset: Option<bool>,
    pub weekly_sonnet_usage: UsageBreakdown,
    pub weekly_sonnet_resets_at: Option<i64>,
    pub weekly_sonnet_has_reset: Option<bool>,
    pub weekly_opus_usage: UsageBreakdown,
    pub weekly_opus_resets_at: Option<i64>,
    pub weekly_opus_has_reset: Option<bool>,
}

impl CookieStatus {
    /// The time for which the cookie has to rest has passed, if there is one.
    pub open spec fn rested(self, now: i64) -> bool {
        self.reset_time is None || self.reset_time->0 < now
    }

    /// The record with its resting time taken away if that has passed.
    pub open spec fn after_reset(self, now: i64) -> Self {
        if self.rested(now) {
            CookieStatus { reset_time: None, ..self }
        } else {
            self
        }
    }

    /// The record with nothing counted in any window.
    pub open spec fn unspent(self) -> Self {
        CookieStatus {
            session_usage: no_usage(),
            weekly_usage: no_usage(),
            weekly_sonnet_usage: no_usage(),
            weekly_opus_usage: no_usage(),
            ..self
        }
    }

    /// The record of a cookie that has to rest until `timestamp`.
    pub open spec fn cooling(self, timestamp: i64) -> Self {
        CookieStatus { reset_time: Some(timestamp), ..self }.unspent()
    }

    /// Some usage window is over.
    pub open spec fn any_window_due(self, now: i64) -> bool {
        ||| window_due(self.session_has_reset, self.session_resets_at, now)
        ||| window_due(self.weekly_has_reset, self.weekly_resets_at, now)
        ||| window_due(self.weekly_sonnet_has_reset, self.weekly_sonnet_resets_at, now)
        ||| window_due(self.weekly_opus_has_reset, self.weekly_opus_resets_at, now)
    }

    /// The record with every usage window that is over started anew.
    pub open spec fn rolled(self, now: i64) -> Self {
        CookieStatus {
            session_usage: next_usage(
                self.session_has_reset,
                self.session_resets_at,
                self.session_usage,
                now,
            ),
            session_resets_at: next_reset(
                self.session_has_reset,
                self.session_resets_at,
                SESSION_WINDOW_SECS,
                now,
            ),
            weekly_usage: next_usage(
                self.weekly_has_reset,
                self.weekly_resets_at,
                self.weekly_usage,
                now,
            ),
            weekly_resets_at: next_reset(
                self.weekly_has_reset,
                self.weekly_resets_at,
                WEEKLY_WINDOW_SECS,
                now,
            ),
            weekly_sonnet_usage: next_usage(
                self.weekly_sonnet_has_reset,
                self.weekly_sonnet_resets_at,
                self.weekly_sonnet_usage,
                now,
            ),
            weekly_sonnet_resets_at: next_reset(
                self.weekly_sonnet_has_reset,
                self.weekly_sonnet_resets_at,
                WEEKLY_WINDOW_SECS,
                now,
            ),
            weekly_opus_usage: next_usage(
                self.weekly_opus_has_reset,
                self.weekly_opus_resets_at,
                self.weekly_opus_usage,
                now,
            ),
            weekly_opus_resets_at: next_reset(
                self.weekly_opus_has_reset,
                self.weekly_opus_resets_at,
                WEEKLY_WINDOW_SECS,
                now,
            ),
            ..self
        }
    }

    /// The record with support for long contexts taken for granted where nothing is known of it.
    pub open spec fn with_1m_defaults(self) -> Self {
        CookieStatus {
            supports_claude_1m_sonnet: if self.supports_claude_1m_sonnet is None {
                Some(true)
            } else {
                self.supports_claude_1m_sonnet
            },
            supports_claude_1m_opus: if self.supports_claude_1m_opus is None {
                Some(true)
            } else {
                self.supports_claude_1m_opus
            },
            ..self
        }
    }

    /// The record with what `other` says of long contexts.
    pub open spec fn with_1m_of(self, other: CookieStatus) -> Self {
        CookieStatus {
            supports_claude_1m_sonnet: other.supports_claude_1m_sonnet,
            supports_claude_1m_opus: other.supports_claude_1m_opus,
            ..self
        }
    }

    /// A cookie of which nothing is known but when it may be used.
    pub fn new(cookie: ClewdrCookie, reset_time: Option<i64>) -> (status: Self)
        ensures
            status == (CookieStatus {
                cookie,
                reset_time,
                supports_claude_1m_sonnet: None,
                supports_claude_1m_opus: None,
                session_usage: no_usage(),
                session_resets_at: None,
                session_has_reset: None,
                weekly_usage: no_usage(),
                weekly_resets_at: None,
                weekly_has_reset: None,
                weekly_sonnet_usage: no_usage(),
                weekly_sonnet_resets_at: None,
                weekly_sonnet_has_reset: None,
                weekly_opus_usage: no_usage(),
                weekly_opus_resets_at: None,
                weekly_opus_has_reset: None,
            }),
    {
        CookieStatus {
            cookie,
            reset_time,
            supports_claude_1m_sonnet: None,
            supports_claude_1m_opus: None,
            session_usage: UsageBreakdown::default(),
            session_resets_at: None,
            session_has_reset: None,
            weekly_usage: UsageBreakdown::default(),
            weekly_resets_at: None,
            weekly_has_reset: None,
            weekly_sonnet_usage: UsageBreakdown::default(),
            weekly_sonnet_resets_at: None,
            weekly_sonnet_has_reset: None,
            weekly_opus_usage: UsageBreakdown::default(),
            weekly_opus_resets_at: None,
            weekly_opus_has_reset: None,
        }
    }

    /// Takes the resting time away if it has passed at `now`.
    pub fn reset(self, now: i64) -> (status: Self)
        ensures
            status == self.after_reset(now),
    {
        let mut status = self;
        if let Some(timestamp) = status.reset_time {
            if timestamp < now {
                status.reset_time = None;
            }
        }
        status
    }

    /// Forgets what the usage windows have counted.
    pub fn reset_window_usage(&mut self)
        ensures
            *final(self) == old(self).unspent(),
    {
        self.session_usage = UsageBreakdown::default();
        self.weekly_usage = UsageBreakdown::default();
        self.weekly_sonnet_usage = UsageBreakdown::default();
        self.weekly_opus_usage = UsageBreakdown::default();
    }

    /// Starts every usage window that is over at `now` anew, and tells whether there was one.
    pub fn apply_resets(&mut self, now: i64) -> (changed: bool)
        requires
            now + WEEKLY_WINDOW_SECS <= i64::MAX,
        ensures
            *final(self) == old(self).rolled(now),
            changed == old(self).any_window_due(now),
    {
        let session = reset_if_due(
            self.session_has_reset,
            &mut self.session_resets_at,
            &mut self.session_usage,
            SESSION_WINDOW_SECS,
            now,
        );
        let weekly = reset_if_due(
            self.weekly_has_reset,
            &mut self.weekly_resets_at,
            &mut self.weekly_usage,
            WEEKLY_WINDOW_SECS,
            now,
        );
        let weekly_sonnet = reset_if_due(
            self.weekly_sonnet_has_reset,
            &mut self.weekly_sonnet_resets_at,
            &mut self.weekly_sonnet_usage,
            WEEKLY_WINDOW_SECS,
            now,
        );
        let weekly_opus = reset_if_due(
            self.weekly_opus_has_reset,
            &mut self.weekly_opus_resets_at,
            &mut self.weekly_opus_usage,
            WEEKLY_WINDOW_SECS,
            now,
        );
        session || weekly || weekly_sonnet || weekly_opus
    }

    /// Takes support for long contexts for granted where nothing is known of it.
    pub fn normalize_1m_defaults(self) -> (status: Self)
        ensures
            status == self.with_1m_defaults(),
    {
        let mut status = self;
        if status.supports_claude_1m_sonnet.is_none() {
            status.supports_claude_1m_sonnet = Some(true);
        }
        if status.supports_claude_1m_opus.is_none() {
            status.supports_claude_1m_opus = Some(true);
        }
        status
    }
}

impl Keyed for CookieStatus {
    open spec fn key(&self) -> Seq<char> {
        self.cookie@
    }

    fn identity(&self) -> (cookie: &ClewdrCookie) {
        &self.cookie
    }

    fn duplicate(&self) -> (copy: Self) {
        self.clone()
    }
}

impl Clone for CookieStatus {
    fn clone(&self) -> (copy: Self)
        ensures
            copy == *self,
    {
        CookieStatus {
            cookie: self.cookie.clone(),
            reset_time: self.reset_time,
            supports_claude_1m_sonnet: self.supports_claude_1m_sonnet,
            supports_claude_1m_opus: self.supports_claude_1m_opus,
            session_usage: self.session_usage,
            session_resets_at: self.session_resets_at,
            session_has_reset: self.session_has_reset,
            weekly_usage: self.weekly_usage,
            weekly_resets_at: self.weekly_resets_at,
            weekly_has_reset: self.weekly_has_reset,
            weekly_sonnet_usage: self.weekly_sonnet_usage,
            weekly_sonnet_resets_at: self.weekly_sonnet_resets_at,
            weekly_sonnet_has_reset: self.weekly_sonnet_has_reset,
            weekly_opus_usage: self.weekly_opus_usage,
            weekly_opus_resets_at: self.weekly_opus_resets_at,
            weekly_opus_has_reset: self.weekly_opus_has_reset,
        }
    }
}

impl PartialEq for CookieStatus {
    fn eq(&self, other: &Self) -> (same: bool) {
        self.cookie == other.cookie
    }
}

impl vstd::std_specs::cmp::PartialEqSpecImpl for CookieStatus {
    open spec fn obeys_eq_spec() -> bool {
        true
    }

    open spec fn eq_spec(&self, other: &Self) -> bool {
        self.cookie@ == other.cookie@
    }
}

impl Eq for CookieStatus {

}

/// A cookie that was given up, and why. `==` compares the cookies alone.
#[derive(Debug)]
pub struct UselessCookie {
    pub cookie: ClewdrCookie,
    pub reason: Reason,
}

impl UselessCookie {
    pub fn new(cookie: ClewdrCookie, reason: Reason) -> (useless: Self)
        ensures
            useless == (UselessCookie { cookie, reason }),
    {
        UselessCookie { cookie, reason }
    }
}

impl Keyed for UselessCookie {
    open spec fn key(&self) -> Seq<char> {
        self.cookie@
    }

    fn identity(&self) -> (cookie: &ClewdrCookie) {
        &self.cookie
    }

    fn duplicate(&self) -> (copy: Self) {
        self.clone()
    }
}

impl Clone for UselessCookie {
    fn clone(&self) -> (copy: Self)
        ensures
            copy == *self,
    {
        UselessCookie { cookie: self.cookie.clone(), reason: self.reason }
    }
}

impl PartialEq for UselessCookie {
    fn eq(&self, other: &Self) -> (same: bool) {
        self.cookie == other.cookie
    }
}

impl vstd::std_specs::cmp::PartialEqSpecImpl for UselessCookie {
    open spec fn obeys_eq_spec() -> bool {
        true
    }

    open spec fn eq_spec(&self, other: &Self) -> bool {
        self.cookie@ == other.cookie@
    }
}

impl Eq for UselessCookie {

}

} // verus!

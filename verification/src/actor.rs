//! The pool itself, and the operations on it.

use crate::affinity::{affinity_of, cache_get, cache_insert, new_cache};
use crate::clock::{clock_can_show, clock_showed, now_timestamp};
use crate::config::ClewdrConfig;
use crate::cookie::{
    text_of, ClewdrCookie, CookieStatus, Reason, UselessCookie, WEEKLY_WINDOW_SECS,
};
use crate::error::ClewdrError;
use crate::keyed::{
    append_copies, copy_keeping_first, holds, insert_absent, keep_first, lemma_filter_holds,
    lemma_filter_push, lemma_first_index, lemma_has_first, lemma_keep_first, lemma_push_holds,
    lemma_without_absent, lemma_without_holds, position, remove_key, replace_at, Keyed,
};
use crate::message::{CookieActorMessage, CookieStatusInfo, Outcome, Readings, Reply};
use crate::pool::{
    all_after_reset, all_rolled, all_with_1m_defaults, any_due, is_cooling, is_ready, is_rested,
    is_resting, Pool, AFFINITY_CAPACITY, AFFINITY_IDLE_SECS,
};
use crate::slots::SlotTable;
use moka::sync::Cache;
use std::collections::VecDeque;
use vstd::prelude::*;

verus! {

/// How often cookies and usage windows are to be looked at, in seconds.
pub const INTERVAL: u64 = 300;

/// The cookies, who is using them, and which conversations they served.
pub struct CookieActorState {
    valid: VecDeque<CookieStatus>,
    exhausted: VecDeque<CookieStatus>,
    invalid: VecDeque<UselessCookie>,
    moka: Cache<u64, String>,
    in_use: SlotTable,
}

impl View for CookieActorState {
    type V = Pool;

    closed spec fn view(&self) -> Pool {
        Pool {
            valid: self.valid@,
            exhausted: self.exhausted@,
            invalid: self.invalid@,
            affinity: affinity_of(self.moka),
            in_use: self.in_use@,
        }
    }
}

impl CookieActorState {
    /// The pool is well-formed, and so is the table of who is using it.
    pub closed spec fn wf(self) -> bool {
        self@.wf() && self.in_use.wf()
    }

    /// A well-formed state holds a well-formed pool.
    pub proof fn lemma_wf(self)
        requires
            self.wf(),
        ensures
            self@.wf(),
    {
    }

    /// How many cookies are handed out, at rest and given up.
    pub fn counts(&self) -> (counts: (usize, usize, usize))
        ensures
            counts.0 == self@.valid.len(),
            counts.1 == self@.exhausted.len(),
            counts.2 == self@.invalid.len(),
    {
        (self.valid.len(), self.exhausted.len(), self.invalid.len())
    }
}

/// Starts every finished usage window of `items` anew, and tells whether there was one.
fn roll_all(items: &mut VecDeque<CookieStatus>, now: i64) -> (changed: bool)
    requires
        now + WEEKLY_WINDOW_SECS <= i64::MAX,
    ensures
        final(items)@ == all_rolled(old(items)@, now),
        changed == any_due(old(items)@, now),
{
    let ghost before = items@;
    let mut rolled: VecDeque<CookieStatus> = VecDeque::new();
    let mut changed = false;
    let mut done: usize = 0;
    let total: usize = items.len();
    assert(before.skip(0) =~= before);
    while done < total
        invariant
            done <= total,
            total == before.len(),
            now + WEEKLY_WINDOW_SECS <= i64::MAX,
            items@ == before.skip(done as int),
            rolled@ == all_rolled(before.take(done as int), now),
            changed == any_due(before.take(done as int), now),
        decreases total - done,
    {
        let ghost front = before.take(done as int);
        let ghost more = before.take(done + 1);
        if let Some(mut status) = items.pop_front() {
            assert(items@ =~= before.skip(done + 1));
            assert(status == more[done as int]);
            let due = status.apply_resets(now);
            proof {
                if any_due(front, now) {
                    let i = choose|i: int|
                        0 <= i < front.len() && #[trigger] front[i].any_window_due(now);
                    assert(more[i].any_window_due(now));
                }
                if any_due(more, now) && !due {
                    let i = choose|i: int|
                        0 <= i < more.len() && #[trigger] more[i].any_window_due(now);
                    assert(front[i].any_window_due(now));
                }
            }
            changed = changed || due;
            rolled.push_back(status);
            assert(rolled@ =~= all_rolled(more, now));
        }
        done += 1;
    }
    assert(before.take(total as int) =~= before);
    *items = rolled;
    changed
}

/// The operations on a pool.
pub struct CookieActor;

impl CookieActor {
    /// Saves the cookies of the pool to the configuration.
    pub fn save(state: &CookieActorState, config: &mut ClewdrConfig)
        ensures
            final(config)@ == old(config)@.saving(state@),
            final(config).cookie_array@ == state@.valid + state@.exhausted,
            final(config).wasted_cookie@ == state@.invalid,
            final(config).max_concurrent_per_cookie == old(config).max_concurrent_per_cookie,
            final(config).cookie_wait_timeout == old(config).cookie_wait_timeout,
    {
        let mut cookie_array: Vec<CookieStatus> = Vec::new();
        append_copies(&mut cookie_array, &state.valid);
        append_copies(&mut cookie_array, &state.exhausted);
        let mut wasted_cookie: Vec<UselessCookie> = Vec::new();
        append_copies(&mut wasted_cookie, &state.invalid);
        config.cookie_array = cookie_array;
        config.wasted_cookie = wasted_cookie;
        assert(config@ =~= old(config)@.saving(state@));
    }

    /// Puts the cookies back that have rested enough at `now`.
    pub fn reset_at(state: &mut CookieActorState, now: i64)
        requires
            old(state).wf(),
        ensures
            final(state).wf(),
            final(state)@ == old(state)@.after_reset(now),
    {
        let ghost valid = state.valid@;
        let ghost before = state.exhausted@;
        let mut resting: VecDeque<CookieStatus> = VecDeque::new();
        let mut done: usize = 0;
        let total: usize = state.exhausted.len();
        proof {
            reveal(Seq::filter);
            assert(before.skip(0) =~= before);
            assert(state.valid@ =~= valid + all_after_reset(
                before.take(0).filter(is_rested(now)),
                now,
            ));
        }
        while done < total
            invariant
                done <= total,
                total == before.len(),
                state.exhausted@ == before.skip(done as int),
                state.valid@ == valid + all_after_reset(
                    before.take(done as int).filter(is_rested(now)),
                    now,
                ),
                resting@ == before.take(done as int).filter(is_resting(now)),
                state.invalid == old(state).invalid,
                state.moka == old(state).moka,
                state.in_use == old(state).in_use,
            decreases total - done,
        {
            let ghost front = before.take(done as int);
            if let Some(status) = state.exhausted.pop_front() {
                proof {
                    assert(before.take(done + 1) =~= front.push(status));
                    lemma_filter_push(front, status, is_rested(now));
                    lemma_filter_push(front, status, is_resting(now));
                    assert(state.exhausted@ =~= before.skip(done + 1));
                }
                let status = status.reset(now);
                if status.reset_time.is_none() {
                    state.valid.push_back(status);
                    assert(state.valid@ =~= valid + all_after_reset(
                        before.take(done + 1).filter(is_rested(now)),
                        now,
                    ));
                } else {
                    resting.push_back(status);
                }
            }
            done += 1;
        }
        assert(before.take(total as int) =~= before);
        state.exhausted = resting;
        proof {
            lemma_filter_holds(before, is_resting(now), Seq::empty());
            assert(state@ =~= old(state)@.after_reset(now));
        }
    }

    /// Puts the cookies back that have rested enough.
    pub fn reset(state: &mut CookieActorState)
        requires
            old(state).wf(),
        ensures
            final(state).wf(),
            exists|now: i64| #[trigger]
                clock_can_show(now) && clock_showed(now) && final(state)@ == old(
                    state,
                )@.after_reset(now),
    {
        let now = now_timestamp();
        Self::reset_at(state, now);
    }

    /// The pool that a configuration describes, with nobody using it yet.
    pub fn pre_start(config: &ClewdrConfig) -> (state: CookieActorState)
        ensures
            state.wf(),
            state@ == Pool::starting_from(config@),
    {
        let ghost saved = config.cookie_array@;
        let mut valid: VecDeque<CookieStatus> = VecDeque::new();
        let mut exhausted: VecDeque<CookieStatus> = VecDeque::new();
        let mut done: usize = 0;
        proof {
            reveal(Seq::filter);
            let none = all_with_1m_defaults(saved.take(0).filter(is_cooling()));
            assert(valid@ =~= all_with_1m_defaults(saved.take(0).filter(is_ready())));
            assert(none =~= Seq::<CookieStatus>::empty());
            assert(exhausted@ =~= keep_first(none));
        }
        while done < config.cookie_array.len()
            invariant
                done <= config.cookie_array@.len(),
                saved == config.cookie_array@,
                valid@ == all_with_1m_defaults(saved.take(done as int).filter(is_ready())),
                exhausted@ == keep_first(
                    all_with_1m_defaults(saved.take(done as int).filter(is_cooling())),
                ),
            decreases config.cookie_array@.len() - done,
        {
            let ghost front = saved.take(done as int);
            let ghost more = saved.take(done + 1);
            let status = config.cookie_array[done].clone();
            proof {
                assert(more =~= front.push(status));
                lemma_filter_push(front, status, is_ready());
                lemma_filter_push(front, status, is_cooling());
            }
            let ready = status.reset_time.is_none();
            let status = status.normalize_1m_defaults();
            if ready {
                valid.push_back(status);
                assert(valid@ =~= all_with_1m_defaults(more.filter(is_ready())));
            } else {
                insert_absent(&mut exhausted, status);
                proof {
                    let cooling = all_with_1m_defaults(more.filter(is_cooling()));
                    assert(cooling.last() == status);
                    assert(cooling.drop_last() =~= all_with_1m_defaults(
                        front.filter(is_cooling()),
                    ));
                }
            }
            done += 1;
        }
        assert(saved.take(done as int) =~= saved);
        let state = CookieActorState {
            valid,
            exhausted,
            invalid: copy_keeping_first(&config.wasted_cookie),
            moka: new_cache(AFFINITY_CAPACITY, AFFINITY_IDLE_SECS),
            in_use: SlotTable::new(),
        };
        proof {
            lemma_keep_first(
                all_with_1m_defaults(saved.filter(is_cooling())),
                Seq::empty(),
            );
            lemma_keep_first(config.wasted_cookie@, Seq::empty());
            state.in_use.lemma_all_positive();
            assert(state@ =~= Pool::starting_from(config@));
        }
        state
    }

    /// Starts the usage windows that are over at `now` anew, and tells whether there was one.
    pub fn refresh_usage_windows_at(state: &mut CookieActorState, now: i64) -> (changed: bool)
        requires
            old(state).wf(),
            now + WEEKLY_WINDOW_SECS <= i64::MAX,
        ensures
            final(state).wf(),
            final(state)@ == old(state)@.rolled(now),
            changed == old(state)@.any_window_due(now),
    {
        let valid_changed = roll_all(&mut state.valid, now);
        let exhausted_changed = roll_all(&mut state.exhausted, now);
        proof {
            let before = old(state).exhausted@;
            assert forall|i: int, j: int| 0 <= i < j < state.exhausted@.len() implies #[trigger]
                state.exhausted@[i].key() != #[trigger] state.exhausted@[j].key() by {
                assert(before[i].key() != before[j].key());
            }
            assert(state@ =~= old(state)@.rolled(now));
        }
        valid_changed || exhausted_changed
    }

    /// Starts the usage windows that are over anew, and tells whether there was one.
    pub fn refresh_usage_windows(state: &mut CookieActorState) -> (changed: bool)
        requires
            old(state).wf(),
        ensures
            final(state).wf(),
            exists|now: i64| #[trigger]
                clock_can_show(now) && clock_showed(now) && final(state)@ == old(state)@.rolled(now)
                    && changed == old(state)@.any_window_due(now),
    {
        let now = now_timestamp();
        Self::refresh_usage_windows_at(state, now)
    }

    /// Finds the first cookie that can take one more request.
    fn find_free(state: &CookieActorState, limit: usize) -> (found: Option<usize>)
        requires
            state.wf(),
        ensures
            match found {
                Some(i) => state@.is_first_free(i as int, limit as nat) && i == state@.first_free(
                    limit as nat,
                ),
                None => !state@.any_free(limit as nat),
            },
    {
        let mut i: usize = 0;
        while i < state.valid.len()
            invariant
                i <= state.valid@.len(),
                state.wf(),
                forall|j: int| 0 <= j < i ==> !#[trigger] state@.is_free(j, limit as nat),
            decreases state.valid@.len() - i,
        {
            if state.in_use.count(&state.valid[i].cookie) < limit {
                proof {
                    assert(state@.is_free(i as int, limit as nat));
                    assert(state@.is_first_free(i as int, limit as nat));
                    let f = state@.first_free(limit as nat);
                    assert(state@.is_first_free(f, limit as nat));
                    if f < i {
                        assert(!state@.is_free(f, limit as nat));
                    } else if i < f {
                        assert(!state@.is_free(i as int, limit as nat));
                    }
                }
                return Some(i);
            }
            i += 1;
        }
        None
    }

    /// Hands out a cookie, given what the cache remembers for the conversation: that cookie if
    /// it can take one more request, else the first one that can.
    pub fn dispatch_with(
        state: &mut CookieActorState,
        hash: Option<u64>,
        cached: Option<ClewdrCookie>,
        limit: usize,
    ) -> (answer: Result<CookieStatus, ClewdrError>)
        requires
            old(state).wf(),
        ensures
            final(state).wf(),
            ({
                let dispatch = old(state)@.dispatch(
                    hash,
                    text_of(cached),
                    limit as nat,
                );
                final(state)@ == dispatch.pool && answer == dispatch.answer
            }),
    {
        let ghost expected = old(state)@.dispatch(hash, text_of(cached), limit as nat);
        if let (Some(hash), Some(cookie)) = (hash, &cached) {
            if let Some(i) = position(&state.valid, cookie) {
                proof {
                    lemma_first_index(state.valid@, cookie@, i as int);
                }
                let status = state.valid[i].clone();
                if state.in_use.count(&status.cookie) < limit {
                    state.in_use.acquire(&status.cookie);
                    cache_insert(&mut state.moka, hash, status.cookie.to_string());
                    proof {
                        state.in_use.lemma_all_positive();
                        assert(state@ =~= expected.pool);
                    }
                    return Ok(status);
                }
            }
        }
        if state.valid.len() == 0 {
            return Err(ClewdrError::NoCookieAvailable);
        }
        match Self::find_free(state, limit) {
            Some(i) => {
                let status = state.valid[i].clone();
                state.in_use.acquire(&status.cookie);
                if state.valid.len() > 1 {
                    state.valid.remove(i);
                    state.valid.push_back(status.clone());
                }
                if let Some(hash) = hash {
                    cache_insert(&mut state.moka, hash, status.cookie.to_string());
                }
                proof {
                    state.in_use.lemma_all_positive();
                    assert(state.valid@ =~= expected.pool.valid);
                    assert(state@ =~= expected.pool);
                }
                Ok(status)
            },
            None => Err(ClewdrError::AllCookiesBusy),
        }
    }

    /// Hands out a cookie, after those that have rested enough have been put back.
    ///
    /// The clock and the cache decide part of the answer, so it is stated for what the clock
    /// showed and what the lookup of the conversation answered; [`CookieActor::reset_at`] and
    /// [`CookieActor::dispatch_with`] say what follows from a given one.
    pub fn dispatch(
        state: &mut CookieActorState,
        config: &ClewdrConfig,
        hash: Option<u64>,
    ) -> (answer: Result<CookieStatus, ClewdrError>)
        requires
            old(state).wf(),
        ensures
            final(state).wf(),
            exists|now: i64, cached: Option<Seq<char>>|
                {
                    let dispatch = (#[trigger] old(state)@.after_reset(now)).dispatch(
                        hash,
                        cached,
                        config@.limit(),
                    );
                    &&& clock_can_show(now)
                    &&& clock_showed(now)
                    &&& #[trigger] old(state)@.affinity.may_answer(hash, cached)
                    &&& hash matches Some(asked) ==> old(state)@.affinity.answered(asked, cached)
                    &&& final(state)@ == dispatch.pool
                    &&& answer == dispatch.answer
                },
    {
        Self::reset(state);
        let cached = match hash {
            Some(hash) => match cache_get(&state.moka, hash) {
                Some(text) => Some(ClewdrCookie::new(text)),
                None => None,
            },
            None => None,
        };
        let limit = config.concurrency_limit();
        proof {
            let now = choose|now: i64| #[trigger]
                clock_can_show(now) && clock_showed(now) && state@ == old(state)@.after_reset(now);
            assert(old(state)@.after_reset(now) == state@);
            assert(old(state)@.affinity.may_answer(hash, text_of(cached)));
        }
        Self::dispatch_with(state, hash, cached, limit)
    }

    /// Notes that a request no longer uses the cookie.
    pub fn release_cookie(state: &mut CookieActorState, status: &CookieStatus)
        requires
            old(state).wf(),
        ensures
            final(state).wf(),
            final(state)@ == old(state)@.released(status.cookie@),
    {
        Self::release_slot(state, &status.cookie);
    }

    /// Notes that a request no longer uses `cookie`.
    pub fn release_slot(state: &mut CookieActorState, cookie: &ClewdrCookie)
        requires
            old(state).wf(),
        ensures
            final(state).wf(),
            final(state)@ == old(state)@.released(cookie@),
    {
        state.in_use.release(cookie);
        proof {
            state.in_use.lemma_all_positive();
            assert(state@ =~= old(state)@.released(cookie@));
        }
    }

    /// Lays a cookie to rest unless it rests already, and tells whether that was saved.
    fn rest(
        state: &mut CookieActorState,
        config: &mut ClewdrConfig,
        status: CookieStatus,
    ) -> (saved: bool)
        requires
            old(state).wf(),
        ensures
            final(state).wf(),
            ({
                let change = old(state)@.rest(old(config)@, status);
                final(state)@ == change.pool && final(config)@ == change.config && saved
                    == change.saved
            }),
    {
        if !insert_absent(&mut state.exhausted, status) {
            assert(state@ =~= old(state)@);
            return false;
        }
        proof {
            lemma_push_holds(old(state).exhausted@, status, Seq::empty());
            assert(state@ =~= old(state)@.resting(status));
        }
        Self::save(state, config);
        true
    }

    /// Gives a cookie up unless it was given up already, and tells whether that was saved.
    fn give_up(
        state: &mut CookieActorState,
        config: &mut ClewdrConfig,
        useless: UselessCookie,
    ) -> (saved: bool)
        requires
            old(state).wf(),
        ensures
            final(state).wf(),
            ({
                let change = old(state)@.give_up(old(config)@, useless);
                final(state)@ == change.pool && final(config)@ == change.config && saved
                    == change.saved
            }),
    {
        if !insert_absent(&mut state.invalid, useless) {
            assert(state@ =~= old(state)@);
            return false;
        }
        proof {
            lemma_push_holds(old(state).invalid@, useless, Seq::empty());
            assert(state@ =~= old(state)@.given_up(useless));
        }
        Self::save(state, config);
        true
    }

    /// Takes a cookie back, and tells whether that was saved.
    ///
    /// Without a reason this only brings the cookie's record up to date: the request goes on
    /// using it. With a reason the request is done with the cookie.
    pub fn collect(
        state: &mut CookieActorState,
        config: &mut ClewdrConfig,
        status: CookieStatus,
        reason: Option<Reason>,
    ) -> (saved: bool)
        requires
            old(state).wf(),
        ensures
            final(state).wf(),
            ({
                let change = old(state)@.collect(old(config)@, status, reason);
                final(state)@ == change.pool && final(config)@ == change.config && saved
                    == change.saved
            }),
    {
        let reason = match reason {
            Some(reason) => reason,
            None => {
                return match position(&state.valid, &status.cookie) {
                    Some(i) => {
                        proof {
                            lemma_first_index(state.valid@, status.cookie@, i as int);
                        }
                        replace_at(&mut state.valid, i, status);
                        assert(state@ =~= old(state)@.replaced(status));
                        Self::save(state, config);
                        true
                    },
                    None => false,
                };
            },
        };
        let mut status = status;
        Self::release_cookie(state, &status);
        if let Reason::NormalPro = reason {
            return false;
        }
        let ghost released = state@;
        remove_key(&mut state.valid, &status.cookie);
        assert(state@ =~= released.withdrawn(status.cookie@));
        match reason {
            Reason::TooManyRequest(until) => {
                status.reset_time = Some(until);
                status.reset_window_usage();
                Self::rest(state, config, status)
            },
            Reason::Restricted(until) => {
                status.reset_time = Some(until);
                status.reset_window_usage();
                Self::rest(state, config, status)
            },
            _ => Self::give_up(state, config, UselessCookie::new(status.cookie, reason)),
        }
    }

    /// Takes a new cookie in unless the configuration knows it, and tells whether it did.
    pub fn accept(
        state: &mut CookieActorState,
        config: &mut ClewdrConfig,
        status: CookieStatus,
    ) -> (saved: bool)
        requires
            old(state).wf(),
        ensures
            final(state).wf(),
            ({
                let change = old(state)@.accept(old(config)@, status);
                final(state)@ == change.pool && final(config)@ == change.config && saved
                    == change.saved
            }),
    {
        if config.knows(&status) {
            return false;
        }
        state.valid.push_back(status);
        Self::save(state, config);
        true
    }

    /// Tells everything there is to tell of the pool.
    pub fn report(state: &CookieActorState) -> (info: CookieStatusInfo)
        requires
            state.wf(),
        ensures
            info.wf(),
            info@ == state@.report(),
            info.tells(state@),
    {
        let mut valid: Vec<CookieStatus> = Vec::new();
        append_copies(&mut valid, &state.valid);
        let mut exhausted: Vec<CookieStatus> = Vec::new();
        append_copies(&mut exhausted, &state.exhausted);
        let mut invalid: Vec<UselessCookie> = Vec::new();
        append_copies(&mut invalid, &state.invalid);
        let info = CookieStatusInfo {
            valid,
            exhausted,
            invalid,
            in_use_counts: state.in_use.list(),
        };
        assert(info@ =~= state@.report());
        info
    }

    /// Deletes a cookie from the pool, wherever it is in there.
    pub fn delete(
        state: &mut CookieActorState,
        config: &mut ClewdrConfig,
        status: CookieStatus,
    ) -> (answer: Result<(), ClewdrError>)
        requires
            old(state).wf(),
        ensures
            final(state).wf(),
            ({
                let change = old(state)@.delete(old(config)@, status);
                final(state)@ == change.pool && final(config)@ == change.config && answer
                    == change.answer
            }),
    {
        proof {
            lemma_without_holds(state.exhausted@, status.cookie@, Seq::empty());
            lemma_without_holds(state.invalid@, status.cookie@, Seq::empty());
        }
        let was_valid = remove_key(&mut state.valid, &status.cookie);
        let was_exhausted = remove_key(&mut state.exhausted, &status.cookie);
        let was_invalid = remove_key(&mut state.invalid, &status.cookie);
        assert(state@ =~= old(state)@.deleted(status.cookie@));
        if was_valid || was_exhausted || was_invalid {
            Self::save(state, config);
            Ok(())
        } else {
            proof {
                lemma_without_absent(old(state).valid@, status.cookie@);
                lemma_without_absent(old(state).exhausted@, status.cookie@);
                lemma_without_absent(old(state).invalid@, status.cookie@);
                assert(state@ =~= old(state)@);
            }
            Err(ClewdrError::UnexpectedNone { msg: "Delete operation did not find the cookie" })
        }
    }

    /// Notes in the first of `items` about its cookie what `status` says of long contexts, and
    /// tells whether there was one.
    fn note_1m_support(items: &mut VecDeque<CookieStatus>, status: &CookieStatus) -> (noted: bool)
        ensures
            noted == holds(old(items)@, status.cookie@),
            final(items)@ == if noted {
                Pool::with_1m_support(old(items)@, *status)
            } else {
                old(items)@
            },
    {
        match position(items, &status.cookie) {
            Some(i) => {
                proof {
                    lemma_first_index(items@, status.cookie@, i as int);
                }
                let mut existing = items[i].clone();
                existing.supports_claude_1m_sonnet = status.supports_claude_1m_sonnet;
                existing.supports_claude_1m_opus = status.supports_claude_1m_opus;
                replace_at(items, i, existing);
                true
            },
            None => false,
        }
    }

    /// Notes what is known of a cookie's support for long contexts.
    pub fn update_1m_support(
        state: &mut CookieActorState,
        config: &mut ClewdrConfig,
        status: CookieStatus,
    ) -> (answer: Result<(), ClewdrError>)
        requires
            old(state).wf(),
        ensures
            final(state).wf(),
            ({
                let change = old(state)@.update_1m_support(old(config)@, status);
                final(state)@ == change.pool && final(config)@ == change.config && answer
                    == change.answer
            }),
    {
        let ghost expected = old(state)@.update_1m_support(old(config)@, status);
        if Self::note_1m_support(&mut state.valid, &status) {
            assert(state@ =~= expected.pool);
            Self::save(state, config);
            return Ok(());
        }
        if Self::note_1m_support(&mut state.exhausted, &status) {
            proof {
                let before = old(state).exhausted@;
                lemma_has_first(before, status.cookie@);
                assert forall|i: int, j: int| 0 <= i < j < state.exhausted@.len() implies
                    #[trigger] state.exhausted@[i].key() != #[trigger] state.exhausted@[j].key() by {
                    assert(before[i].key() != before[j].key());
                }
                assert(state@ =~= expected.pool);
            }
            Self::save(state, config);
            return Ok(());
        }
        assert(state@ =~= expected.pool);
        Err(ClewdrError::UnexpectedNone { msg: "Update operation did not find the cookie" })
    }

    /// Starts finished usage windows anew, and tells whether that was saved.
    fn refresh_and_save(state: &mut CookieActorState, config: &mut ClewdrConfig) -> (saved: bool)
        requires
            old(state).wf(),
        ensures
            final(state).wf(),
            exists|now: i64|
                {
                    let change = #[trigger] old(state)@.refresh(old(config)@, now);
                    &&& clock_can_show(now)
                    &&& clock_showed(now)
                    &&& final(state)@ == change.pool
                    &&& final(config)@ == change.config
                    &&& saved == change.saved
                },
    {
        let changed = Self::refresh_usage_windows(state);
        proof {
            let now = choose|now: i64| #[trigger]
                clock_can_show(now) && clock_showed(now) && state@ == old(state)@.rolled(now)
                    && changed == old(state)@.any_window_due(now);
            let _ = old(state)@.refresh(old(config)@, now);
        }
        if changed {
            Self::save(state, config);
        }
        changed
    }

    /// Handles a message.
    ///
    /// The clock and the cache decide part of what comes of it, so that is stated for what they
    /// showed and answered.
    pub fn handle(
        state: &mut CookieActorState,
        config: &mut ClewdrConfig,
        message: CookieActorMessage,
    ) -> (outcome: Outcome)
        requires
            old(state).wf(),
        ensures
            final(state).wf(),
            exists|readings: Readings|
                {
                    let step = old(state)@.step(old(config)@, message, readings);
                    &&& #[trigger] readings.possible(old(state)@, message)
                    &&& final(state)@ == step.pool
                    &&& final(config)@ == step.config
                    &&& outcome.reply@ == step.reply
                    &&& outcome.saved == step.saved
                },
            outcome.reply matches Reply::Status(info) ==> info.wf() && info.tells(final(state)@),
    {
        let ghost mut readings = Readings { refreshed_at: 0, reset_at: 0, cached: None };
        let outcome = match message {
            CookieActorMessage::Return(status, reason) => {
                let saved = Self::collect(state, config, status, reason);
                Outcome { reply: Reply::Nothing, saved }
            },
            CookieActorMessage::Submit(status) => {
                let saved = Self::accept(state, config, status);
                Outcome { reply: Reply::Nothing, saved }
            },
            CookieActorMessage::CheckReset => {
                let saved = Self::refresh_and_save(state, config);
                let ghost refreshed = state@;
                Self::reset(state);
                proof {
                    readings.refreshed_at = choose|now: i64|
                        {
                            let change = #[trigger] old(state)@.refresh(old(config)@, now);
                            &&& clock_can_show(now)
                            &&& clock_showed(now)
                            &&& refreshed == change.pool
                            &&& config@ == change.config
                            &&& saved == change.saved
                        };
                    readings.reset_at = choose|now: i64| #[trigger]
                        clock_can_show(now) && clock_showed(now) && state@
                            == refreshed.after_reset(now);
                }
                Outcome { reply: Reply::Nothing, saved }
            },
            CookieActorMessage::Request(hash) => {
                let answer = Self::dispatch(state, config, hash);
                proof {
                    let (now, cached) = choose|now: i64, cached: Option<Seq<char>>|
                        {
                            let dispatch = (#[trigger] old(state)@.after_reset(now)).dispatch(
                                hash,
                                cached,
                                config@.limit(),
                            );
                            &&& clock_can_show(now)
                            &&& clock_showed(now)
                            &&& #[trigger] old(state)@.affinity.may_answer(hash, cached)
                            &&& hash matches Some(asked) ==> old(state)@.affinity.answered(
                                asked,
                                cached,
                            )
                            &&& state@ == dispatch.pool
                            &&& answer == dispatch.answer
                        };
                    readings.reset_at = now;
                    readings.cached = cached;
                }
                Outcome { reply: Reply::Cookie(answer), saved: false }
            },
            CookieActorMessage::GetStatus => {
                let saved = Self::refresh_and_save(state, config);
                proof {
                    readings.refreshed_at = choose|now: i64|
                        {
                            let change = #[trigger] old(state)@.refresh(old(config)@, now);
                            &&& clock_can_show(now)
                            &&& clock_showed(now)
                            &&& state@ == change.pool
                            &&& config@ == change.config
                            &&& saved == change.saved
                        };
                }
                Outcome { reply: Reply::Status(Self::report(state)), saved }
            },
            CookieActorMessage::Delete(status) => {
                let answer = Self::delete(state, config, status);
                let saved = answer.is_ok();
                Outcome { reply: Reply::Done(answer), saved }
            },
            CookieActorMessage::Update1mSupport(status) => {
                let answer = Self::update_1m_support(state, config, status);
                let saved = answer.is_ok();
                Outcome { reply: Reply::Done(answer), saved }
            },
            CookieActorMessage::ReleaseSlot(cookie) => {
                Self::release_slot(state, &cookie);
                Outcome { reply: Reply::Nothing, saved: false }
            },
        };
        assert(readings.possible(old(state)@, message));
        outcome
    }
}

} // verus!

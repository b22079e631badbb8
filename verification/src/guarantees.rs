//! What each operation does, told record by record and field by field.

use crate::actor::INTERVAL;
use crate::affinity::{said, Affinity};
use crate::clock::{clock_can_show, clock_showed};
use crate::config::{ClewdrConfig, Config};
use crate::cookie::{text_of, ClewdrCookie, CookieStatus, Reason, UsageBreakdown, UselessCookie};
use crate::error::ClewdrError;
use crate::keyed::{
    first_index, holds, is_first, keep_first, lemma_filter_push, lemma_first_index,
    lemma_has_first, lemma_keep_first, not_about, without, Keyed,
};
use crate::laws::{
    law_dispatch_answers_from_the_pool, law_refresh_without_due_window, lemma_first_free,
};
use crate::message::{CookieActorMessage, CookieStatusInfo, Readings, Reply, Told};
use crate::pool::{
    all_with_1m_defaults, any_due, is_cooling, is_ready, is_rested, is_resting, Pool,
};
use crate::request::RETRY_INTERVAL_MILLIS;
use crate::slots::{acquired, count_of, released};
use vstd::prelude::*;
use vstd::std_specs::cmp::PartialEqSpec;

verus! {

// ----- Records -----

/// Every counter stands at nought.
pub open spec fn nothing_spent(usage: UsageBreakdown) -> bool {
    &&& usage.total_input_tokens == 0
    &&& usage.total_output_tokens == 0
    &&& usage.sonnet_input_tokens == 0
    &&& usage.sonnet_output_tokens == 0
    &&& usage.opus_input_tokens == 0
    &&& usage.opus_output_tokens == 0
}

/// The records are about the same cookie.
pub open spec fn same_cookie(a: CookieStatus, b: CookieStatus) -> bool {
    a.cookie == b.cookie
}

/// The records say the same of long contexts.
pub open spec fn same_1m_support(a: CookieStatus, b: CookieStatus) -> bool {
    &&& a.supports_claude_1m_sonnet == b.supports_claude_1m_sonnet
    &&& a.supports_claude_1m_opus == b.supports_claude_1m_opus
}

/// The records have the same counters.
pub open spec fn same_usage(a: CookieStatus, b: CookieStatus) -> bool {
    &&& a.session_usage == b.session_usage
    &&& a.weekly_usage == b.weekly_usage
    &&& a.weekly_sonnet_usage == b.weekly_sonnet_usage
    &&& a.weekly_opus_usage == b.weekly_opus_usage
}

/// The records have the same window boundaries.
pub open spec fn same_boundaries(a: CookieStatus, b: CookieStatus) -> bool {
    &&& a.session_resets_at == b.session_resets_at
    &&& a.weekly_resets_at == b.weekly_resets_at
    &&& a.weekly_sonnet_resets_at == b.weekly_sonnet_resets_at
    &&& a.weekly_opus_resets_at == b.weekly_opus_resets_at
}

/// The records say the same of which windows reset.
pub open spec fn same_has_reset(a: CookieStatus, b: CookieStatus) -> bool {
    &&& a.session_has_reset == b.session_has_reset
    &&& a.weekly_has_reset == b.weekly_has_reset
    &&& a.weekly_sonnet_has_reset == b.weekly_sonnet_has_reset
    &&& a.weekly_opus_has_reset == b.weekly_opus_has_reset
}

/// A window of `length` seconds was looked at: if it is one that resets, and its boundary has
/// been reached, its counters stand at nought and its boundary is `length` from now; if not, both
/// are as they were.
pub open spec fn window_looked_at(
    has_reset: Option<bool>,
    before: (Option<i64>, UsageBreakdown),
    after: (Option<i64>, UsageBreakdown),
    length: nat,
    now: i64,
) -> bool {
    if has_reset == Some(true) && before.0 is Some && before.0->0 <= now {
        nothing_spent(after.1) && after.0 is Some && after.0->0 == now + length
    } else {
        after == before
    }
}

/// All four windows were looked at, each by itself, and nothing else has changed.
pub open spec fn windows_looked_at(before: CookieStatus, after: CookieStatus, now: i64) -> bool {
    &&& same_cookie(before, after)
    &&& before.reset_time == after.reset_time
    &&& same_1m_support(before, after)
    &&& same_has_reset(before, after)
    &&& window_looked_at(
        before.session_has_reset,
        (before.session_resets_at, before.session_usage),
        (after.session_resets_at, after.session_usage),
        5 * 3600,
        now,
    )
    &&& window_looked_at(
        before.weekly_has_reset,
        (before.weekly_resets_at, before.weekly_usage),
        (after.weekly_resets_at, after.weekly_usage),
        7 * 24 * 3600,
        now,
    )
    &&& window_looked_at(
        before.weekly_sonnet_has_reset,
        (before.weekly_sonnet_resets_at, before.weekly_sonnet_usage),
        (after.weekly_sonnet_resets_at, after.weekly_sonnet_usage),
        7 * 24 * 3600,
        now,
    )
    &&& window_looked_at(
        before.weekly_opus_has_reset,
        (before.weekly_opus_resets_at, before.weekly_opus_usage),
        (after.weekly_opus_resets_at, after.weekly_opus_usage),
        7 * 24 * 3600,
        now,
    )
}

/// Each usage window of a record is dealt with by itself: one that resets, and whose boundary has
/// been reached, starts anew with every counter at nought and the next boundary a session or a
/// week from now; any other keeps its counters and its boundary. Nothing else changes, and a
/// window counts as over exactly where something does.
pub proof fn law_windows_start_anew(status: CookieStatus, now: i64)
    requires
        now + 7 * 24 * 3600 <= i64::MAX,
    ensures
        windows_looked_at(status, status.rolled(now), now),
        status.any_window_due(now) <==> status.rolled(now) != status,
{
}

/// A record loses its resting time exactly where that has passed, and keeps everything else.
pub proof fn law_rest_ends(status: CookieStatus, now: i64)
    ensures
        ({
            let after = status.after_reset(now);
            &&& after.reset_time == if status.reset_time is Some && status.reset_time->0 >= now {
                status.reset_time
            } else {
                None
            }
            &&& same_cookie(after, status)
            &&& same_1m_support(after, status)
            &&& same_usage(after, status)
            &&& same_boundaries(after, status)
            &&& same_has_reset(after, status)
        }),
{
}

/// The record `after` is what becomes of `status` when its cookie has to rest until `until`: that
/// time is noted, every counter is cleared, and everything else is kept.
pub open spec fn laid_to_rest(status: CookieStatus, after: CookieStatus, until: i64) -> bool {
    &&& same_cookie(after, status)
    &&& after.reset_time == Some(until)
    &&& same_1m_support(after, status)
    &&& nothing_spent(after.session_usage)
    &&& nothing_spent(after.weekly_usage)
    &&& nothing_spent(after.weekly_sonnet_usage)
    &&& nothing_spent(after.weekly_opus_usage)
    &&& same_boundaries(after, status)
    &&& same_has_reset(after, status)
}

/// To forget what was counted clears every counter of every window, and nothing else; to lay a
/// cookie to rest does that, and notes the time.
pub proof fn law_counters_are_cleared(status: CookieStatus, until: i64)
    ensures
        ({
            let after = status.unspent();
            &&& same_cookie(after, status)
            &&& after.reset_time == status.reset_time
            &&& same_1m_support(after, status)
            &&& nothing_spent(after.session_usage)
            &&& nothing_spent(after.weekly_usage)
            &&& nothing_spent(after.weekly_sonnet_usage)
            &&& nothing_spent(after.weekly_opus_usage)
            &&& same_boundaries(after, status)
            &&& same_has_reset(after, status)
        }),
        laid_to_rest(status, status.cooling(until), until),
{
}

/// What is known of long contexts is kept, what is not is taken for granted, and nothing else
/// differs.
pub open spec fn with_defaults(status: CookieStatus, after: CookieStatus) -> bool {
    &&& same_cookie(after, status)
    &&& after.reset_time == status.reset_time
    &&& after.supports_claude_1m_sonnet is Some
    &&& after.supports_claude_1m_opus is Some
    &&& after.supports_claude_1m_sonnet->0 == (status.supports_claude_1m_sonnet != Some(false))
    &&& after.supports_claude_1m_opus->0 == (status.supports_claude_1m_opus != Some(false))
    &&& same_usage(after, status)
    &&& same_boundaries(after, status)
    &&& same_has_reset(after, status)
}

/// Long contexts are taken to be supported unless it is known that they are not.
pub proof fn law_long_contexts_are_taken_for_granted(status: CookieStatus)
    ensures
        with_defaults(status, status.with_1m_defaults()),
{
}

/// The record `after` says of long contexts what `noted` says, and otherwise what `before` says.
pub open spec fn support_noted(
    before: CookieStatus,
    noted: CookieStatus,
    after: CookieStatus,
) -> bool {
    &&& same_cookie(after, before)
    &&& after.reset_time == before.reset_time
    &&& same_1m_support(after, noted)
    &&& same_usage(after, before)
    &&& same_boundaries(after, before)
    &&& same_has_reset(after, before)
}

/// To note what is known of long contexts touches nothing else.
pub proof fn law_support_is_noted(before: CookieStatus, noted: CookieStatus)
    ensures
        support_noted(before, noted, before.with_1m_of(noted)),
{
}

/// Cookies, and records about them, are equal exactly where the cookies' texts are.
pub proof fn law_equality_goes_by_the_text(
    a: CookieStatus,
    b: CookieStatus,
    c: UselessCookie,
    d: UselessCookie,
    e: ClewdrCookie,
    f: ClewdrCookie,
)
    ensures
        a.eq_spec(&b) <==> a.cookie@ == b.cookie@,
        c.eq_spec(&d) <==> c.cookie@ == d.cookie@,
        e.eq_spec(&f) <==> e@ == f@,
{
}

// ----- Sequences of records, and counts -----

/// A cookie has a record where some record's text is the cookie's.
pub proof fn law_what_is_held(
    items: Seq<CookieStatus>,
    useless: Seq<UselessCookie>,
    key: Seq<char>,
)
    ensures
        holds(items, key) <==> exists|i: int|
            0 <= i < items.len() && #[trigger] items[i].cookie@ == key,
        holds(useless, key) <==> exists|i: int|
            0 <= i < useless.len() && #[trigger] useless[i].cookie@ == key,
{
    if holds(items, key) {
        let i = choose|i: int| 0 <= i < items.len() && #[trigger] items[i].key() == key;
        assert(items[i].cookie@ == key);
    }
    if exists|i: int| 0 <= i < items.len() && #[trigger] items[i].cookie@ == key {
        let i = choose|i: int| 0 <= i < items.len() && #[trigger] items[i].cookie@ == key;
        assert(items[i].key() == key);
    }
    if holds(useless, key) {
        let i = choose|i: int| 0 <= i < useless.len() && #[trigger] useless[i].key() == key;
        assert(useless[i].cookie@ == key);
    }
    if exists|i: int| 0 <= i < useless.len() && #[trigger] useless[i].cookie@ == key {
        let i = choose|i: int| 0 <= i < useless.len() && #[trigger] useless[i].cookie@ == key;
        assert(useless[i].key() == key);
    }
}

/// Leaving a cookie out goes record by record: one more record is left out if it is about that
/// cookie, and else stays, behind the others. So the others keep their order.
pub proof fn law_leaving_out<T: Keyed>(items: Seq<T>, item: T, key: Seq<char>)
    ensures
        without(Seq::<T>::empty(), key).len() == 0,
        item.key() == key ==> without(items.push(item), key) == without(items, key),
        item.key() != key ==> without(items.push(item), key) == without(items, key).push(item),
{
    reveal(Seq::filter);
    lemma_filter_push(items, item, not_about(key));
}

/// Keeping first records goes record by record: one more record is kept, behind the others, if
/// there is none about its cookie yet.
pub proof fn law_keeping_first<T: Keyed>(items: Seq<T>, item: T)
    ensures
        keep_first(Seq::<T>::empty()).len() == 0,
        holds(items, item.key()) ==> keep_first(items.push(item)) == keep_first(items),
        !holds(items, item.key()) ==> keep_first(items.push(item)) == keep_first(items).push(item),
{
    assert(items.push(item).drop_last() =~= items);
    lemma_keep_first(items, item.key());
}

/// The first record about a cookie is about it, and none before it is.
pub proof fn law_first_of_a_cookie(items: Seq<CookieStatus>, key: Seq<char>)
    requires
        holds(items, key),
    ensures
        0 <= first_index(items, key) < items.len(),
        items[first_index(items, key)].cookie@ == key,
        forall|j: int| 0 <= j < first_index(items, key) ==> #[trigger] items[j].cookie@ != key,
{
    lemma_has_first(items, key);
    let f = first_index(items, key);
    assert forall|j: int| 0 <= j < f implies #[trigger] items[j].cookie@ != key by {
        assert(items[j].key() != key);
    }
}

/// All cookies but `key` are used as much as before.
pub open spec fn same_counts_but_for(
    before: Map<Seq<char>, nat>,
    after: Map<Seq<char>, nat>,
    key: Seq<char>,
) -> bool {
    forall|other: Seq<char>|
        #![trigger after.contains_key(other)]
        #![trigger after[other]]
        other != key ==> (after.contains_key(other) <==> before.contains_key(other))
            && after[other] == before[other]
}

/// One more request uses `key`.
pub open spec fn one_more(
    before: Map<Seq<char>, nat>,
    after: Map<Seq<char>, nat>,
    key: Seq<char>,
) -> bool {
    &&& same_counts_but_for(before, after, key)
    &&& after.contains_key(key)
    &&& after[key] == if before.contains_key(key) {
        before[key] + 1
    } else {
        1
    }
}

/// One request fewer uses `key`, if any did; a cookie that nobody uses is not counted at all.
pub open spec fn one_fewer(
    before: Map<Seq<char>, nat>,
    after: Map<Seq<char>, nat>,
    key: Seq<char>,
) -> bool {
    &&& same_counts_but_for(before, after, key)
    &&& after.contains_key(key) <==> before.contains_key(key) && before[key] > 1
    &&& after.contains_key(key) ==> after[key] == before[key] - 1
}

/// The count of a cookie is its entry, and nought without one; beginning a use adds one to it, and
/// ending a use takes one off.
pub proof fn law_counting(counts: Map<Seq<char>, nat>, key: Seq<char>)
    ensures
        counts.contains_key(key) ==> count_of(counts, key) == counts[key],
        !counts.contains_key(key) ==> count_of(counts, key) == 0,
        one_more(counts, acquired(counts, key), key),
        one_fewer(counts, released(counts, key), key),
{
}

// ----- What is kept, and what is said of it -----

/// What a configuration, a status and a reply say is what their fields hold.
pub proof fn law_views_say_what_is_there(
    config: ClewdrConfig,
    info: CookieStatusInfo,
    reply: Reply,
)
    ensures
        config@.cookie_array == config.cookie_array@,
        config@.wasted_cookie == config.wasted_cookie@,
        config@.max_concurrent_per_cookie == config.max_concurrent_per_cookie,
        config@.cookie_wait_timeout == config.cookie_wait_timeout,
        info@.valid == info.valid@,
        info@.exhausted == info.exhausted@,
        info@.invalid == info.invalid@,
        reply is Nothing <==> reply@ is Nothing,
        reply matches Reply::Cookie(answer) ==> reply@ == Told::Cookie(answer),
        reply matches Reply::Status(told) ==> reply@ == Told::Status(told@),
        reply matches Reply::Done(answer) ==> reply@ == Told::Done(answer),
{
}

/// A cookie that was looked up, or is handed on, is known by its text, and the lack of one is not
/// taken for a cookie. A lookup can answer what was inserted last under its key, or nothing.
pub proof fn law_lookups_go_by_the_text(
    found: Option<String>,
    cookie: Option<ClewdrCookie>,
    affinity: Affinity,
    hash: u64,
)
    ensures
        said(found) is None <==> found is None,
        found is Some ==> said(found) == Some(found->0@),
        text_of(cookie) is None <==> cookie is None,
        cookie is Some ==> text_of(cookie) == Some(cookie->0@),
        affinity.may_answer(Some(hash), said(found)) <==> found is None || (
        affinity.last.contains_key(hash) && found->0@ == affinity.last[hash]),
        affinity.may_answer(None, said(found)) <==> found is None,
{
}

/// Cookies are looked at every five minutes, and a busy pool is asked again every half second.
pub proof fn law_intervals()
    ensures
        INTERVAL == 5 * 60,
        RETRY_INTERVAL_MILLIS == 500,
{
}

// ----- The configuration -----

/// The configuration holds the cookies of the pool, those handed out before those at rest, and the
/// settings that it had.
pub open spec fn saved_as(after: Config, before: Config, pool: Pool) -> bool {
    &&& after.cookie_array.len() == pool.valid.len() + pool.exhausted.len()
    &&& forall|i: int|
        0 <= i < pool.valid.len() ==> #[trigger] after.cookie_array[i] == pool.valid[i]
    &&& forall|i: int|
        pool.valid.len() <= i < after.cookie_array.len() ==> #[trigger] after.cookie_array[i]
            == pool.exhausted[i - pool.valid.len()]
    &&& after.wasted_cookie == pool.invalid
    &&& after.max_concurrent_per_cookie == before.max_concurrent_per_cookie
    &&& after.cookie_wait_timeout == before.cookie_wait_timeout
}

/// Saving writes every record of the pool to the configuration, and touches no setting.
pub proof fn law_saving(pool: Pool, config: Config)
    ensures
        saved_as(config.saving(pool), config, pool),
{
}

/// A cookie may be used by as many requests as the configuration says, and by one at least.
pub proof fn law_limit(config: Config)
    ensures
        config.limit() >= 1,
        config.limit() >= config.max_concurrent_per_cookie,
        config.limit() == 1 || config.limit() == config.max_concurrent_per_cookie,
        config.max_concurrent_per_cookie == 1 ==> config.limit() == 1,
        config.max_concurrent_per_cookie > 1 ==> config.limit() > 1,
{
}

/// The configuration knows the cookies that were saved to it, be it as ones in use or as ones
/// given up, and no others.
pub proof fn law_what_is_known(config: Config, key: Seq<char>)
    ensures
        config.knows(key) <==> (exists|i: int|
            0 <= i < config.cookie_array.len() && #[trigger] config.cookie_array[i].cookie@ == key)
            || (exists|i: int|
            0 <= i < config.wasted_cookie.len() && #[trigger] config.wasted_cookie[i].cookie@
                == key),
{
    law_what_is_held(config.cookie_array, config.wasted_cookie, key);
}

// ----- Starting -----

/// A pool starts with nobody using a cookie and no conversation remembered, made to remember a
/// thousand conversations for an hour each; and without cookies where none was saved.
pub proof fn law_start(config: Config)
    ensures
        ({
            let pool = Pool::starting_from(config);
            &&& pool.in_use.dom() == Set::<Seq<char>>::empty()
            &&& pool.affinity.last.dom() == Set::<u64>::empty()
            &&& pool.affinity.capacity == 1000
            &&& pool.affinity.idle_secs == 3600
            &&& config.cookie_array.len() == 0 ==> pool.valid.len() == 0 && pool.exhausted.len()
                == 0
            &&& config.wasted_cookie.len() == 0 ==> pool.invalid.len() == 0
        }),
{
    reveal(Seq::filter);
}

/// A pool starts with its cookies record by record. One more saved record that has no resting time
/// joins those handed out, behind the others; one that has joins those at rest, if none about its
/// cookie rests already. Either way long contexts are taken for granted where nothing is known of
/// them.
pub proof fn law_start_with_one_more(config: Config, status: CookieStatus)
    ensures
        ({
            let more = Config { cookie_array: config.cookie_array.push(status), ..config };
            let pool = Pool::starting_from(config);
            let after = Pool::starting_from(more);
            &&& status.reset_time is None ==> {
                &&& after.valid.len() == pool.valid.len() + 1
                &&& after.valid.drop_last() == pool.valid
                &&& with_defaults(status, after.valid.last())
                &&& after.exhausted == pool.exhausted
            }
            &&& status.reset_time is Some ==> {
                &&& after.valid == pool.valid
                &&& holds(pool.exhausted, status.cookie@) ==> after.exhausted == pool.exhausted
                &&& !holds(pool.exhausted, status.cookie@) ==> {
                    &&& after.exhausted.len() == pool.exhausted.len() + 1
                    &&& after.exhausted.drop_last() == pool.exhausted
                    &&& with_defaults(status, after.exhausted.last())
                }
            }
            &&& after.invalid == pool.invalid
        }),
{
    let more = Config { cookie_array: config.cookie_array.push(status), ..config };
    let pool = Pool::starting_from(config);
    let after = Pool::starting_from(more);
    let saved = config.cookie_array;
    lemma_filter_push(saved, status, is_ready());
    lemma_filter_push(saved, status, is_cooling());
    let given = status.with_1m_defaults();
    law_long_contexts_are_taken_for_granted(status);
    if status.reset_time is None {
        assert(after.valid =~= pool.valid.push(given));
        assert(after.valid.drop_last() =~= pool.valid);
    } else {
        let before = all_with_1m_defaults(saved.filter(is_cooling()));
        assert(all_with_1m_defaults(more.cookie_array.filter(is_cooling()))
            =~= before.push(given));
        law_keeping_first(before, given);
        lemma_keep_first(before, given.key());
        if !holds(pool.exhausted, status.cookie@) {
            assert(after.exhausted.drop_last() =~= pool.exhausted);
        }
    }
}

/// A pool starts with the cookies that were given up record by record, each cookie once.
pub proof fn law_start_with_one_more_given_up(config: Config, useless: UselessCookie)
    ensures
        ({
            let more = Config { wasted_cookie: config.wasted_cookie.push(useless), ..config };
            let pool = Pool::starting_from(config);
            let after = Pool::starting_from(more);
            &&& after.valid == pool.valid
            &&& after.exhausted == pool.exhausted
            &&& holds(pool.invalid, useless.cookie@) ==> after.invalid == pool.invalid
            &&& !holds(pool.invalid, useless.cookie@) ==> after.invalid == pool.invalid.push(
                useless,
            )
        }),
{
    law_keeping_first(config.wasted_cookie, useless);
    lemma_keep_first(config.wasted_cookie, useless.key());
}

// ----- Time -----

/// Where no cookie rests, none is put back; and of one more cookie at rest, by its record alone it
/// is said whether it is put back, without its resting time and behind the others, or stays.
pub proof fn law_reset_goes_record_by_record(pool: Pool, status: CookieStatus, now: i64)
    ensures
        pool.exhausted.len() == 0 ==> pool.after_reset(now) == pool,
        ({
            let more = Pool { exhausted: pool.exhausted.push(status), ..pool }.after_reset(now);
            let after = pool.after_reset(now);
            &&& status.reset_time is Some && status.reset_time->0 >= now ==> {
                &&& more.valid == after.valid
                &&& more.exhausted == after.exhausted.push(status)
            }
            &&& !(status.reset_time is Some && status.reset_time->0 >= now) ==> {
                &&& more.valid == after.valid.push(CookieStatus { reset_time: None, ..status })
                &&& more.exhausted == after.exhausted
            }
            &&& more.invalid == pool.invalid
            &&& more.affinity == pool.affinity
            &&& more.in_use == pool.in_use
        }),
{
    reveal(Seq::filter);
    if pool.exhausted.len() == 0 {
        assert(pool.after_reset(now).valid =~= pool.valid);
        assert(pool.after_reset(now).exhausted =~= pool.exhausted);
    }
    lemma_filter_push(pool.exhausted, status, is_rested(now));
    lemma_filter_push(pool.exhausted, status, is_resting(now));
    let more = Pool { exhausted: pool.exhausted.push(status), ..pool }.after_reset(now);
    let after = pool.after_reset(now);
    if status.rested(now) {
        assert(more.valid =~= after.valid.push(CookieStatus { reset_time: None, ..status }));
    } else {
        assert(more.valid =~= after.valid);
    }
}

/// A cookie whose time has not passed stays at rest with its record as it is; one whose time has
/// passed is put back with no resting time and everything else as it was. A cookie that could be
/// handed out stays where it stands.
pub proof fn law_reset_keeps_the_resting(pool: Pool, now: i64, i: int)
    requires
        0 <= i < pool.exhausted.len(),
    ensures
        ({
            let status = pool.exhausted[i];
            let after = pool.after_reset(now);
            &&& status.reset_time is Some && status.reset_time->0 >= now
                ==> after.exhausted.contains(status)
            &&& !(status.reset_time is Some && status.reset_time->0 >= now)
                ==> after.valid.contains(CookieStatus { reset_time: None, ..status })
            &&& forall|j: int|
                0 <= j < pool.valid.len() ==> j < after.valid.len() && #[trigger] after.valid[j]
                    == pool.valid[j]
            &&& after.valid.len() + after.exhausted.len() == pool.valid.len()
                + pool.exhausted.len()
            &&& after.invalid == pool.invalid
            &&& after.affinity == pool.affinity
            &&& after.in_use == pool.in_use
        }),
{
    let status = pool.exhausted[i];
    let after = pool.after_reset(now);
    if status.rested(now) {
        pool.exhausted.lemma_filter_contains(is_rested(now), i);
        let back = pool.exhausted.filter(is_rested(now));
        let j = choose|j: int| 0 <= j < back.len() && back[j] == status;
        assert(after.valid[pool.valid.len() + j] == (CookieStatus { reset_time: None, ..status }));
    } else {
        pool.exhausted.lemma_filter_contains(is_resting(now), i);
    }
    lemma_all_accounted_for(pool.exhausted, now);
}

/// Each record either has rested or has not.
proof fn lemma_all_accounted_for(items: Seq<CookieStatus>, now: i64)
    ensures
        items.filter(is_rested(now)).len() + items.filter(is_resting(now)).len() == items.len(),
    decreases items.len(),
{
    reveal(Seq::filter);
    if items.len() > 0 {
        let front = items.drop_last();
        lemma_all_accounted_for(front, now);
        assert(items =~= front.push(items.last()));
        lemma_filter_push(front, items.last(), is_rested(now));
        lemma_filter_push(front, items.last(), is_resting(now));
    }
}

/// Looking at the usage windows of a pool is looking at those of each record, in its place; and a
/// window of the pool counts as over exactly where something changes.
pub proof fn law_refresh_looks_at_every_record(pool: Pool, now: i64)
    requires
        now + 7 * 24 * 3600 <= i64::MAX,
    ensures
        ({
            let after = pool.rolled(now);
            &&& after.valid.len() == pool.valid.len()
            &&& forall|i: int|
                0 <= i < pool.valid.len() ==> windows_looked_at(
                    pool.valid[i],
                    #[trigger] after.valid[i],
                    now,
                )
            &&& after.exhausted.len() == pool.exhausted.len()
            &&& forall|i: int|
                0 <= i < pool.exhausted.len() ==> windows_looked_at(
                    pool.exhausted[i],
                    #[trigger] after.exhausted[i],
                    now,
                )
            &&& after.invalid == pool.invalid
            &&& after.affinity == pool.affinity
            &&& after.in_use == pool.in_use
            &&& pool.any_window_due(now) <==> after != pool
        }),
{
    let after = pool.rolled(now);
    assert forall|i: int| 0 <= i < pool.valid.len() implies windows_looked_at(
        pool.valid[i],
        #[trigger] after.valid[i],
        now,
    ) by {
        law_windows_start_anew(pool.valid[i], now);
    }
    assert forall|i: int| 0 <= i < pool.exhausted.len() implies windows_looked_at(
        pool.exhausted[i],
        #[trigger] after.exhausted[i],
        now,
    ) by {
        law_windows_start_anew(pool.exhausted[i], now);
    }
    if any_due(pool.valid, now) {
        let i = choose|i: int|
            0 <= i < pool.valid.len() && #[trigger] pool.valid[i].any_window_due(now);
        law_windows_start_anew(pool.valid[i], now);
        assert(after.valid[i] != pool.valid[i]);
    } else if any_due(pool.exhausted, now) {
        let i = choose|i: int|
            0 <= i < pool.exhausted.len() && #[trigger] pool.exhausted[i].any_window_due(now);
        law_windows_start_anew(pool.exhausted[i], now);
        assert(after.exhausted[i] != pool.exhausted[i]);
    } else {
        law_refresh_without_due_window(pool, now);
    }
}

/// Looking at the usage windows is saved exactly where it changes something, and then every record
/// is saved as it has become.
pub proof fn law_refresh_saves_what_changed(pool: Pool, config: Config, now: i64)
    requires
        now + 7 * 24 * 3600 <= i64::MAX,
    ensures
        ({
            let change = pool.refresh(config, now);
            &&& change.pool == pool.rolled(now)
            &&& change.saved <==> change.pool != pool
            &&& change.saved ==> saved_as(change.config, config, change.pool)
            &&& !change.saved ==> change.config == config
        }),
{
    law_refresh_looks_at_every_record(pool, now);
}

// ----- Handing out cookies -----

/// The cookie `key` can take one more request.
pub open spec fn takes_one_more(pool: Pool, key: Seq<char>, limit: nat) -> bool {
    if pool.in_use.contains_key(key) {
        pool.in_use[key] < limit
    } else {
        0 < limit
    }
}

/// After the cookie `key` was handed out, its use is counted, the conversation is remembered with
/// it if there is one, and nothing else has changed but perhaps the order of the cookies that can
/// be handed out.
pub open spec fn handed_out(before: Pool, after: Pool, hash: Option<u64>, key: Seq<char>) -> bool {
    &&& one_more(before.in_use, after.in_use, key)
    &&& after.affinity.last == match hash {
        Some(hash) => before.affinity.last.insert(hash, key),
        None => before.affinity.last,
    }
    &&& after.affinity.capacity == before.affinity.capacity
    &&& after.affinity.idle_secs == before.affinity.idle_secs
    &&& after.exhausted == before.exhausted
    &&& after.invalid == before.invalid
}

/// A conversation whose remembered cookie can be handed out and can take one more request is given
/// that cookie, with the first record the pool has of it; the order of the cookies stays as it is.
/// It does not matter what else the pool holds.
pub proof fn law_remembered_cookie_comes_first(
    pool: Pool,
    hash: u64,
    key: Seq<char>,
    limit: nat,
    i: int,
)
    requires
        0 <= i < pool.valid.len(),
        pool.valid[i].cookie@ == key,
        forall|j: int| 0 <= j < i ==> #[trigger] pool.valid[j].cookie@ != key,
        takes_one_more(pool, key, limit),
    ensures
        ({
            let dispatch = pool.dispatch(Some(hash), Some(key), limit);
            &&& dispatch.answer == Ok::<CookieStatus, ClewdrError>(pool.valid[i])
            &&& dispatch.pool.valid == pool.valid
            &&& handed_out(pool, dispatch.pool, Some(hash), key)
        }),
{
    lemma_is_first(pool.valid, key, i);
}

/// What the cookies' texts say of a first record.
proof fn lemma_is_first(items: Seq<CookieStatus>, key: Seq<char>, i: int)
    requires
        0 <= i < items.len(),
        items[i].cookie@ == key,
        forall|j: int| 0 <= j < i ==> #[trigger] items[j].cookie@ != key,
    ensures
        first_index(items, key) == i,
        holds(items, key),
{
    assert forall|j: int| 0 <= j < i implies #[trigger] items[j].key() != key by {
        assert(items[j].cookie@ != key);
    }
    assert(items[i].key() == key);
    assert(is_first(items, key, i));
    lemma_first_index(items, key, i);
}

/// Nothing is remembered for the conversation, or what is cannot be handed out or is at the limit.
pub open spec fn nothing_to_go_by(
    pool: Pool,
    hash: Option<u64>,
    cached: Option<Seq<char>>,
    limit: nat,
) -> bool {
    ||| hash is None
    ||| cached is None
    ||| forall|j: int| 0 <= j < pool.valid.len() ==> #[trigger] pool.valid[j].cookie@ != cached->0
    ||| !takes_one_more(pool, cached->0, limit)
}

/// Without a remembered cookie to go by, the first cookie in line that can take one more request is
/// handed out, and goes to the back of the line; the others keep their order.
pub proof fn law_next_in_line(
    pool: Pool,
    hash: Option<u64>,
    cached: Option<Seq<char>>,
    limit: nat,
    i: int,
)
    requires
        nothing_to_go_by(pool, hash, cached, limit),
        0 <= i < pool.valid.len(),
        takes_one_more(pool, pool.valid[i].cookie@, limit),
        forall|j: int|
            0 <= j < i ==> !takes_one_more(pool, (#[trigger] pool.valid[j]).cookie@, limit),
    ensures
        ({
            let dispatch = pool.dispatch(hash, cached, limit);
            let after = dispatch.pool;
            &&& dispatch.answer == Ok::<CookieStatus, ClewdrError>(pool.valid[i])
            &&& after.valid.len() == pool.valid.len()
            &&& after.valid.last() == pool.valid[i]
            &&& forall|j: int| 0 <= j < i ==> #[trigger] after.valid[j] == pool.valid[j]
            &&& forall|j: int|
                i <= j < pool.valid.len() - 1 ==> #[trigger] after.valid[j] == pool.valid[j + 1]
            &&& handed_out(pool, after, hash, pool.valid[i].cookie@)
        }),
{
    lemma_nothing_to_go_by(pool, hash, cached, limit);
    assert(pool.is_free(i, limit));
    lemma_first_free(pool, limit);
    let f = pool.first_free(limit);
    if f < i {
        assert(!takes_one_more(pool, pool.valid[f].cookie@, limit));
    } else if i < f {
        assert(!pool.is_free(i, limit));
    }
}

proof fn lemma_nothing_to_go_by(
    pool: Pool,
    hash: Option<u64>,
    cached: Option<Seq<char>>,
    limit: nat,
)
    requires
        nothing_to_go_by(pool, hash, cached, limit),
    ensures
        !pool.affinity_hit(hash, cached, limit),
{
    if pool.affinity_hit(hash, cached, limit) {
        let j = choose|j: int|
            0 <= j < pool.valid.len() && #[trigger] pool.valid[j].key() == cached->0;
        assert(pool.valid[j].cookie@ == cached->0);
    }
}

/// Where no cookie in line can take one more request, the request is refused and nothing changes:
/// for want of cookies where there is no line, as busy where there is one.
pub proof fn law_refusals(pool: Pool, hash: Option<u64>, cached: Option<Seq<char>>, limit: nat)
    requires
        forall|j: int|
            0 <= j < pool.valid.len() ==> !takes_one_more(
                pool,
                (#[trigger] pool.valid[j]).cookie@,
                limit,
            ),
    ensures
        ({
            let dispatch = pool.dispatch(hash, cached, limit);
            &&& dispatch.pool == pool
            &&& pool.valid.len() == 0 ==> dispatch.answer == Err::<CookieStatus, ClewdrError>(
                ClewdrError::NoCookieAvailable,
            )
            &&& pool.valid.len() > 0 ==> dispatch.answer == Err::<CookieStatus, ClewdrError>(
                ClewdrError::AllCookiesBusy,
            )
        }),
{
    if pool.affinity_hit(hash, cached, limit) {
        let j = choose|j: int|
            0 <= j < pool.valid.len() && #[trigger] pool.valid[j].key() == cached->0;
        assert(!takes_one_more(pool, pool.valid[j].cookie@, limit));
    }
    if pool.any_free(limit) {
        let j = choose|j: int| #[trigger] pool.is_free(j, limit);
        assert(!takes_one_more(pool, pool.valid[j].cookie@, limit));
    }
}

/// To release a cookie takes one off its count and touches nothing else.
pub proof fn law_release(pool: Pool, key: Seq<char>)
    ensures
        ({
            let after = pool.released(key);
            &&& one_fewer(pool.in_use, after.in_use, key)
            &&& after.valid == pool.valid
            &&& after.exhausted == pool.exhausted
            &&& after.invalid == pool.invalid
            &&& after.affinity == pool.affinity
        }),
{
}

// ----- Taking cookies back -----

/// Without a reason, the record that comes back takes the place of the first one about its cookie,
/// in every field; every other record stays as and where it is, nothing else of the pool changes,
/// and all of it is saved.
pub proof fn law_record_is_brought_up_to_date(
    pool: Pool,
    config: Config,
    status: CookieStatus,
    i: int,
)
    requires
        0 <= i < pool.valid.len(),
        pool.valid[i].cookie@ == status.cookie@,
        forall|j: int| 0 <= j < i ==> #[trigger] pool.valid[j].cookie@ != status.cookie@,
    ensures
        ({
            let change = pool.collect(config, status, None);
            let after = change.pool;
            &&& after.valid.len() == pool.valid.len()
            &&& after.valid[i] == status
            &&& forall|j: int|
                0 <= j < pool.valid.len() && j != i ==> #[trigger] after.valid[j] == pool.valid[j]
            &&& after.exhausted == pool.exhausted
            &&& after.invalid == pool.invalid
            &&& after.affinity == pool.affinity
            &&& after.in_use == pool.in_use
            &&& change.saved
            &&& saved_as(change.config, config, after)
            &&& change.config.cookie_array[i] == status
        }),
{
    lemma_is_first(pool.valid, status.cookie@, i);
}

/// Without a reason, the record of a cookie that is not handed out is let go of.
pub proof fn law_record_of_another_is_let_go(pool: Pool, config: Config, status: CookieStatus)
    requires
        forall|j: int|
            0 <= j < pool.valid.len() ==> #[trigger] pool.valid[j].cookie@ != status.cookie@,
    ensures
        pool.collect(config, status, None).pool == pool,
        pool.collect(config, status, None).config == config,
        !pool.collect(config, status, None).saved,
{
    law_what_is_held(pool.valid, pool.invalid, status.cookie@);
}

/// A cookie that works is released, stays in line with its record as it is, and nothing is saved.
pub proof fn law_working_cookie_is_only_released(
    pool: Pool,
    config: Config,
    status: CookieStatus,
)
    ensures
        ({
            let change = pool.collect(config, status, Some(Reason::NormalPro));
            &&& one_fewer(pool.in_use, change.pool.in_use, status.cookie@)
            &&& change.pool.valid == pool.valid
            &&& change.pool.exhausted == pool.exhausted
            &&& change.pool.invalid == pool.invalid
            &&& change.pool.affinity == pool.affinity
            &&& change.config == config
            &&& !change.saved
        }),
{
}

/// The cookie was released and taken out of the line, and the conversations are remembered as they
/// were.
pub open spec fn taken_out(before: Pool, after: Pool, key: Seq<char>) -> bool {
    &&& one_fewer(before.in_use, after.in_use, key)
    &&& after.valid == without(before.valid, key)
    &&& forall|status: CookieStatus| #[trigger]
        after.valid.contains(status) <==> before.valid.contains(status) && status.cookie@ != key
    &&& after.affinity == before.affinity
}

/// What is left without a cookie are the records about others.
proof fn lemma_left_without(items: Seq<CookieStatus>, key: Seq<char>)
    ensures
        forall|status: CookieStatus| #[trigger]
            without(items, key).contains(status) <==> items.contains(status) && status.cookie@
                != key,
{
    let p = not_about::<CookieStatus>(key);
    assert forall|status: CookieStatus| #[trigger]
        without(items, key).contains(status) <==> items.contains(status) && status.cookie@
            != key by {
        if without(items, key).contains(status) {
            let i = choose|i: int|
                0 <= i < items.filter(p).len() && items.filter(p)[i] == status;
            items.lemma_filter_pred(p, i);
            items.lemma_filter_contains_rev(p, status);
        }
        if items.contains(status) && status.cookie@ != key {
            let i = choose|i: int| 0 <= i < items.len() && items[i] == status;
            items.lemma_filter_contains(p, i);
        }
    }
}

/// A cookie that comes back because of a limit is released, leaves the line, and rests until the
/// time it came with, with its counters cleared; that is saved. One that rests already keeps the
/// record and the time it has, and nothing is saved.
pub proof fn law_limited_cookie_is_laid_to_rest(
    pool: Pool,
    config: Config,
    status: CookieStatus,
    reason: Reason,
    until: i64,
)
    requires
        reason == Reason::TooManyRequest(until) || reason == Reason::Restricted(until),
    ensures
        ({
            let change = pool.collect(config, status, Some(reason));
            let after = change.pool;
            &&& taken_out(pool, after, status.cookie@)
            &&& after.invalid == pool.invalid
            &&& holds(pool.exhausted, status.cookie@) ==> {
                &&& after.exhausted == pool.exhausted
                &&& change.config == config
                &&& !change.saved
            }
            &&& !holds(pool.exhausted, status.cookie@) ==> {
                &&& after.exhausted.len() == pool.exhausted.len() + 1
                &&& after.exhausted.drop_last() == pool.exhausted
                &&& laid_to_rest(status, after.exhausted.last(), until)
                &&& change.saved
                &&& saved_as(change.config, config, after)
            }
        }),
{
    lemma_left_without(pool.valid, status.cookie@);
    law_counters_are_cleared(status, until);
    let after = pool.collect(config, status, Some(reason)).pool;
    if !holds(pool.exhausted, status.cookie@) {
        assert(after.exhausted.drop_last() =~= pool.exhausted);
    }
}

/// A cookie that comes back for any other reason is released, leaves the line, and is given up for
/// that reason; that is saved. One that was given up already keeps the reason it has, and nothing
/// is saved.
pub proof fn law_bad_cookie_is_given_up(
    pool: Pool,
    config: Config,
    status: CookieStatus,
    reason: Reason,
)
    requires
        reason is Free || reason is Disabled || reason is Banned || reason is Null,
    ensures
        ({
            let change = pool.collect(config, status, Some(reason));
            let after = change.pool;
            &&& taken_out(pool, after, status.cookie@)
            &&& after.exhausted == pool.exhausted
            &&& holds(pool.invalid, status.cookie@) ==> {
                &&& after.invalid == pool.invalid
                &&& change.config == config
                &&& !change.saved
            }
            &&& !holds(pool.invalid, status.cookie@) ==> {
                &&& after.invalid.len() == pool.invalid.len() + 1
                &&& after.invalid.drop_last() == pool.invalid
                &&& after.invalid.last().cookie == status.cookie
                &&& after.invalid.last().reason == reason
                &&& change.saved
                &&& saved_as(change.config, config, after)
            }
        }),
{
    lemma_left_without(pool.valid, status.cookie@);
    let after = pool.collect(config, status, Some(reason)).pool;
    if !holds(pool.invalid, status.cookie@) {
        assert(after.invalid.drop_last() =~= pool.invalid);
    }
}

// ----- Taking cookies in, deleting them, and noting what they support -----

/// A cookie that the configuration does not know joins the line at its end, with its record as it
/// came, which is saved; one that it knows changes nothing.
pub proof fn law_new_cookie_joins_the_line(pool: Pool, config: Config, status: CookieStatus)
    ensures
        ({
            let change = pool.accept(config, status);
            let after = change.pool;
            &&& change.saved <==> !config.knows(status.cookie@)
            &&& config.knows(status.cookie@) ==> after == pool && change.config == config
            &&& !config.knows(status.cookie@) ==> {
                &&& after.valid.len() == pool.valid.len() + 1
                &&& after.valid.drop_last() == pool.valid
                &&& after.valid.last() == status
                &&& after.exhausted == pool.exhausted
                &&& after.invalid == pool.invalid
                &&& after.affinity == pool.affinity
                &&& after.in_use == pool.in_use
                &&& saved_as(change.config, config, after)
            }
        }),
{
    let after = pool.accept(config, status).pool;
    if !config.knows(status.cookie@) {
        assert(after.valid.drop_last() =~= pool.valid);
    }
}

/// To delete a cookie takes every record about it out, wherever it is, and leaves all others as
/// they are and in their order, as well as the counts and the conversations; that is saved. It
/// fails, and changes nothing, exactly where there is no such record.
pub proof fn law_deletion(pool: Pool, config: Config, status: CookieStatus)
    ensures
        ({
            let change = pool.delete(config, status);
            let after = change.pool;
            let key = status.cookie@;
            let found = holds(pool.valid, key) || holds(pool.exhausted, key) || holds(
                pool.invalid,
                key,
            );
            &&& change.saved <==> found
            &&& found ==> {
                &&& change.answer is Ok
                &&& after.valid == without(pool.valid, key)
                &&& after.exhausted == without(pool.exhausted, key)
                &&& after.invalid == without(pool.invalid, key)
                &&& after.affinity == pool.affinity
                &&& after.in_use == pool.in_use
                &&& saved_as(change.config, config, after)
            }
            &&& !found ==> {
                &&& change.answer == Err::<(), ClewdrError>(
                    ClewdrError::UnexpectedNone { msg: "Delete operation did not find the cookie" },
                )
                &&& after == pool
                &&& change.config == config
            }
        }),
{
}

/// The first record about the cookie, at `i`, has noted what `status` says of long contexts, and
/// every other is as it was.
pub open spec fn noted_at(
    before: Seq<CookieStatus>,
    after: Seq<CookieStatus>,
    status: CookieStatus,
    i: int,
) -> bool {
    &&& after.len() == before.len()
    &&& support_noted(before[i], status, after[i])
    &&& forall|j: int| 0 <= j < before.len() && j != i ==> #[trigger] after[j] == before[j]
}

/// What is known of long contexts is noted in the first record about the cookie: among those handed
/// out if there is one, and else among those at rest. Nothing else changes, and it is saved. It
/// fails, and changes nothing, exactly where there is no such record.
pub proof fn law_noting_support(pool: Pool, config: Config, status: CookieStatus)
    ensures
        ({
            let change = pool.update_1m_support(config, status);
            let after = change.pool;
            let key = status.cookie@;
            &&& holds(pool.valid, key) ==> {
                &&& noted_at(pool.valid, after.valid, status, first_index(pool.valid, key))
                &&& after.exhausted == pool.exhausted
            }
            &&& !holds(pool.valid, key) && holds(pool.exhausted, key) ==> {
                &&& after.valid == pool.valid
                &&& noted_at(
                    pool.exhausted,
                    after.exhausted,
                    status,
                    first_index(pool.exhausted, key),
                )
            }
            &&& change.saved <==> holds(pool.valid, key) || holds(pool.exhausted, key)
            &&& change.saved ==> {
                &&& change.answer is Ok
                &&& after.invalid == pool.invalid
                &&& after.affinity == pool.affinity
                &&& after.in_use == pool.in_use
                &&& saved_as(change.config, config, after)
            }
            &&& !change.saved ==> {
                &&& change.answer == Err::<(), ClewdrError>(
                    ClewdrError::UnexpectedNone { msg: "Update operation did not find the cookie" },
                )
                &&& after == pool
                &&& change.config == config
            }
        }),
{
    let key = status.cookie@;
    if holds(pool.valid, key) {
        lemma_has_first(pool.valid, key);
    } else if holds(pool.exhausted, key) {
        lemma_has_first(pool.exhausted, key);
    }
}

// ----- Messages -----

/// What is read while a message is handled is what the clock showed and what the lookup of the
/// conversation answered, wherever the message has the one read or the other looked up.
pub proof fn law_readings_are_what_was_read(
    pool: Pool,
    message: CookieActorMessage,
    readings: Readings,
)
    requires
        readings.possible(pool, message),
    ensures
        message is CheckReset || message is GetStatus ==> clock_showed(readings.refreshed_at)
            && clock_can_show(readings.refreshed_at),
        message is CheckReset || message is Request ==> clock_showed(readings.reset_at)
            && clock_can_show(readings.reset_at),
        message matches CookieActorMessage::Request(Some(hash)) ==> {
            &&& pool.affinity.answered(hash, readings.cached)
            &&& readings.cached is Some ==> pool.affinity.last.contains_key(hash)
                && readings.cached->0 == pool.affinity.last[hash]
        },
        message matches CookieActorMessage::Request(None) ==> readings.cached is None,
{
}

/// A request of a conversation for which the lookup finds a cookie that stands in line, and that
/// fewer requests use than may, is answered with that cookie, whatever else the pool holds; and
/// the line stays as it is but for the cookies that are put back.
pub proof fn law_request_follows_the_lookup(
    pool: Pool,
    config: Config,
    hash: u64,
    readings: Readings,
    key: Seq<char>,
    i: int,
)
    requires
        readings.possible(pool, CookieActorMessage::Request(Some(hash))),
        readings.cached == Some(key),
        0 <= i < pool.valid.len(),
        pool.valid[i].cookie@ == key,
        forall|j: int| 0 <= j < i ==> #[trigger] pool.valid[j].cookie@ != key,
        !pool.in_use.contains_key(key) || pool.in_use[key] < config.max_concurrent_per_cookie,
    ensures
        pool.affinity.answered(hash, Some(key)),
        ({
            let step = pool.step(config, CookieActorMessage::Request(Some(hash)), readings);
            &&& step.reply == Told::Cookie(Ok(pool.valid[i]))
            &&& step.pool.valid == pool.after_reset(readings.reset_at).valid
            &&& one_more(pool.in_use, step.pool.in_use, key)
            &&& step.pool.affinity.last.contains_key(hash)
            &&& step.pool.affinity.last[hash] == key
            &&& step.config == config
            &&& !step.saved
        }),
{
    let ready = pool.after_reset(readings.reset_at);
    assert(ready.valid[i] == pool.valid[i]);
    assert forall|j: int| 0 <= j < i implies #[trigger] ready.valid[j].cookie@ != key by {
        assert(pool.valid[j].cookie@ != key);
    }
    law_remembered_cookie_comes_first(ready, hash, key, config.limit(), i);
}

/// A cookie that has to rest at the time that the clock shows, and does not stand in line as well,
/// is not given to a request, and is still at rest, with its record as it was, when the request has
/// been answered.
pub proof fn law_resting_cookie_is_not_given(
    pool: Pool,
    config: Config,
    message: CookieActorMessage,
    readings: Readings,
    i: int,
)
    requires
        readings.possible(pool, message),
        message is Request,
        0 <= i < pool.exhausted.len(),
        pool.exhausted[i].reset_time is Some,
        readings.reset_at <= pool.exhausted[i].reset_time->0,
        pool.wf(),
        !holds(pool.valid, pool.exhausted[i].cookie@),
    ensures
        clock_showed(readings.reset_at),
        ({
            let step = pool.step(config, message, readings);
            &&& step.pool.exhausted.contains(pool.exhausted[i])
            &&& step.reply matches Told::Cookie(answer)
            &&& answer is Ok ==> answer->Ok_0.cookie@ != pool.exhausted[i].cookie@
        }),
{
    let now = readings.reset_at;
    let ready = pool.after_reset(now);
    let resting = pool.exhausted[i];
    let key = resting.cookie@;
    law_reset_keeps_the_resting(pool, now, i);
    if let CookieActorMessage::Request(hash) = message {
        let step = pool.step(config, message, readings);
        let answer = ready.dispatch(hash, readings.cached, config.limit()).answer;
        law_dispatch_answers_from_the_pool(
            ready,
            hash,
            readings.cached,
            config.limit(),
        );
        if answer is Ok && answer->Ok_0.cookie@ == key {
            let j = choose|j: int| 0 <= j < ready.valid.len() && ready.valid[j] == answer->Ok_0;
            if j < pool.valid.len() {
                assert(pool.valid[j].key() == key);
            } else {
                let back = pool.exhausted.filter(is_rested(now));
                let m = j - pool.valid.len();
                assert(back[m].cookie@ == key);
                pool.exhausted.lemma_filter_pred(is_rested(now), m);
                assert(back.contains(back[m]));
                pool.exhausted.lemma_filter_contains_rev(is_rested(now), back[m]);
                let n = choose|n: int|
                    0 <= n < pool.exhausted.len() && pool.exhausted[n] == back[m];
                if n < i {
                    assert(pool.exhausted[n].key() != pool.exhausted[i].key());
                } else if i < n {
                    assert(pool.exhausted[i].key() != pool.exhausted[n].key());
                }
            }
        }
    }
}

/// Each message does what the operation that it asks for does, and tells the sender that
/// operation's answer, or nothing.
pub proof fn law_messages_do_what_they_ask_for(
    pool: Pool,
    config: Config,
    message: CookieActorMessage,
    readings: Readings,
)
    ensures
        ({
            let step = pool.step(config, message, readings);
            match message {
                CookieActorMessage::Return(status, reason) => {
                    let change = pool.collect(config, status, reason);
                    &&& step.pool == change.pool
                    &&& step.config == change.config
                    &&& step.saved == change.saved
                    &&& step.reply is Nothing
                },
                CookieActorMessage::Submit(status) => {
                    let change = pool.accept(config, status);
                    &&& step.pool == change.pool
                    &&& step.config == change.config
                    &&& step.saved == change.saved
                    &&& step.reply is Nothing
                },
                CookieActorMessage::CheckReset => {
                    let change = pool.refresh(config, readings.refreshed_at);
                    &&& step.pool == change.pool.after_reset(readings.reset_at)
                    &&& step.config == change.config
                    &&& step.saved == change.saved
                    &&& step.reply is Nothing
                },
                CookieActorMessage::Request(hash) => {
                    let dispatch = pool.after_reset(readings.reset_at).dispatch(
                        hash,
                        readings.cached,
                        config.limit(),
                    );
                    &&& step.pool == dispatch.pool
                    &&& step.config == config
                    &&& !step.saved
                    &&& step.reply == Told::Cookie(dispatch.answer)
                },
                CookieActorMessage::GetStatus => {
                    let change = pool.refresh(config, readings.refreshed_at);
                    &&& step.pool == change.pool
                    &&& step.config == change.config
                    &&& step.saved == change.saved
                    &&& step.reply is Status
                },
                CookieActorMessage::Delete(status) => {
                    let change = pool.delete(config, status);
                    &&& step.pool == change.pool
                    &&& step.config == change.config
                    &&& step.saved == change.saved
                    &&& step.reply == Told::Done(change.answer)
                },
                CookieActorMessage::Update1mSupport(status) => {
                    let change = pool.update_1m_support(config, status);
                    &&& step.pool == change.pool
                    &&& step.config == change.config
                    &&& step.saved == change.saved
                    &&& step.reply == Told::Done(change.answer)
                },
                CookieActorMessage::ReleaseSlot(cookie) => {
                    &&& step.pool == pool.released(cookie@)
                    &&& step.config == config
                    &&& !step.saved
                    &&& step.reply is Nothing
                },
            }
        }),
{
}

/// Whoever asks for the status is told every cookie of the pool, as it is after its usage windows
/// have been looked at: each record in the list and at the place where the pool has it, and each
/// count. The cookies themselves stay where they were.
pub proof fn law_status_lists_every_cookie(pool: Pool, config: Config, readings: Readings)
    requires
        readings.possible(pool, CookieActorMessage::GetStatus),
    ensures
        ({
            let step = pool.step(config, CookieActorMessage::GetStatus, readings);
            &&& step.reply matches Told::Status(report)
            &&& report.valid == step.pool.valid
            &&& report.exhausted == step.pool.exhausted
            &&& report.invalid == step.pool.invalid
            &&& report.in_use == step.pool.in_use
            &&& report.valid.len() == pool.valid.len()
            &&& forall|i: int|
                0 <= i < pool.valid.len() ==> (#[trigger] report.valid[i]).cookie
                    == pool.valid[i].cookie
            &&& report.exhausted.len() == pool.exhausted.len()
            &&& forall|i: int|
                0 <= i < pool.exhausted.len() ==> (#[trigger] report.exhausted[i]).cookie
                    == pool.exhausted[i].cookie
            &&& report.invalid == pool.invalid
            &&& report.in_use == pool.in_use
        }),
{
    law_refresh_looks_at_every_record(pool, readings.refreshed_at);
}

/// A status tells every cookie of the pool, record for record, and every count, and nothing else.
pub proof fn law_what_a_status_tells(
    info: CookieStatusInfo,
    pool: Pool,
    key: Seq<char>,
    count: nat,
)
    requires
        info.tells(pool),
    ensures
        info.valid@ == pool.valid,
        info.exhausted@ == pool.exhausted,
        info.invalid@ == pool.invalid,
        pool.in_use.contains_key(key) && pool.in_use[key] == count <==> exists|i: int|
            0 <= i < info.in_use_counts@.len() && (#[trigger] info.in_use_counts@[i]).0@ == key
                && info.in_use_counts@[i].1 == count,
{
    if pool.in_use.contains_key(key) && pool.in_use[key] == count {
        let i = choose|i: int|
            0 <= i < info.in_use_counts@.len() && #[trigger] info.in_use_counts@[i].0@ == key;
        let _ = info.in_use_counts@[i];
    }
}

} // verus!

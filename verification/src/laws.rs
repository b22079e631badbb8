//! What holds of the pool whatever it is asked to do.

use crate::config::Config;
use crate::cookie::{CookieStatus, Reason, UselessCookie, WEEKLY_WINDOW_SECS};
use crate::error::ClewdrError;
use crate::keyed::{
    disjoint, distinct, first_index, holds, lemma_add_distinct, lemma_add_holds,
    lemma_filter_holds, lemma_filter_push, lemma_has_first, lemma_keep_first,
    lemma_keep_first_distinct, lemma_push_holds, lemma_rotate, lemma_same_keys,
    lemma_without_holds, not_about, same_but_for, Keyed,
};
use crate::message::{hash_asked, CookieActorMessage, Readings, Step, Told};
use crate::pool::{
    all_after_reset, all_with_1m_defaults, delete_missed, is_cooling, is_ready, is_rested,
    is_resting, Pool,
};
use crate::slots::{acquired, count_of, released};
use vstd::prelude::*;

verus! {

// ----- Handing out cookies -----

/// A request gets a cookie exactly where some cookie can take one more request; it is refused for
/// want of cookies exactly where none can be handed out at all, and as busy exactly where all
/// that can be are at the limit. What the cache remembers has no say in this.
pub proof fn law_dispatch_answers(
    pool: Pool,
    hash: Option<u64>,
    cached: Option<Seq<char>>,
    limit: nat,
)
    ensures
        ({
            let answer = pool.dispatch(hash, cached, limit).answer;
            &&& answer is Ok <==> pool.any_free(limit)
            &&& answer == Err::<CookieStatus, ClewdrError>(ClewdrError::NoCookieAvailable)
                <==> pool.valid.len() == 0
            &&& answer == Err::<CookieStatus, ClewdrError>(ClewdrError::AllCookiesBusy)
                <==> pool.valid.len() > 0 && !pool.any_free(limit)
        }),
{
    if pool.affinity_hit(hash, cached, limit) {
        lemma_has_first(pool.valid, cached->0);
        assert(pool.is_free(first_index(pool.valid, cached->0), limit));
    }
    if pool.any_free(limit) {
        let i = choose|i: int| #[trigger] pool.is_free(i, limit);
        assert(0 <= i < pool.valid.len());
    }
}

/// Where some cookie can take one more request, there is a first one.
pub proof fn lemma_first_free(pool: Pool, limit: nat)
    requires
        pool.any_free(limit),
    ensures
        pool.is_first_free(pool.first_free(limit), limit),
{
    let i = choose|i: int| #[trigger] pool.is_free(i, limit);
    lemma_first_free_below(pool, limit, i);
}

proof fn lemma_first_free_below(pool: Pool, limit: nat, i: int)
    requires
        pool.is_free(i, limit),
    ensures
        exists|j: int| pool.is_first_free(j, limit),
    decreases i,
{
    if exists|j: int| 0 <= j < i && #[trigger] pool.is_free(j, limit) {
        let j = choose|j: int| 0 <= j < i && #[trigger] pool.is_free(j, limit);
        lemma_first_free_below(pool, limit, j);
    } else {
        assert(pool.is_first_free(i, limit));
    }
}

/// A cookie that is handed out is one of those that can be, and it was below the limit.
pub proof fn law_dispatch_answers_from_the_pool(
    pool: Pool,
    hash: Option<u64>,
    cached: Option<Seq<char>>,
    limit: nat,
)
    ensures
        pool.dispatch(hash, cached, limit).answer matches Ok(status) ==> pool.valid.contains(status)
            && count_of(pool.in_use, status.cookie@) < limit,
{
    if pool.affinity_hit(hash, cached, limit) {
        lemma_has_first(pool.valid, cached->0);
    } else if pool.any_free(limit) {
        lemma_first_free(pool, limit);
    }
}

/// A request that is refused leaves the pool as it was.
pub proof fn law_refusal_changes_nothing(
    pool: Pool,
    hash: Option<u64>,
    cached: Option<Seq<char>>,
    limit: nat,
)
    ensures
        pool.dispatch(hash, cached, limit).answer is Err ==> pool.dispatch(
            hash,
            cached,
            limit,
        ).pool == pool,
{
}

/// Handing out a cookie counts one more request for it, which stays within the limit, and leaves
/// every other count as it was.
pub proof fn law_dispatch_respects_limit(
    pool: Pool,
    hash: Option<u64>,
    cached: Option<Seq<char>>,
    limit: nat,
)
    ensures
        ({
            let dispatch = pool.dispatch(hash, cached, limit);
            forall|key: Seq<char>| #[trigger]
                count_of(dispatch.pool.in_use, key) == if dispatch.answer is Ok
                    && dispatch.answer->Ok_0.cookie@ == key {
                    count_of(pool.in_use, key) + 1
                } else {
                    count_of(pool.in_use, key)
                }
        }),
        pool.dispatch(hash, cached, limit).answer matches Ok(status) ==> count_of(
            pool.dispatch(hash, cached, limit).pool.in_use,
            status.cookie@,
        ) <= limit,
{
    law_dispatch_answers_from_the_pool(pool, hash, cached, limit);
    if pool.affinity_hit(hash, cached, limit) {
        lemma_has_first(pool.valid, cached->0);
    }
}

/// Releasing the cookie that a request was given undoes its count.
pub proof fn law_release_undoes_dispatch(
    pool: Pool,
    hash: Option<u64>,
    cached: Option<Seq<char>>,
    limit: nat,
)
    requires
        pool.wf(),
    ensures
        pool.dispatch(hash, cached, limit).answer matches Ok(status) ==> pool.dispatch(
            hash,
            cached,
            limit,
        ).pool.released(status.cookie@).in_use == pool.in_use,
{
    let dispatch = pool.dispatch(hash, cached, limit);
    if pool.affinity_hit(hash, cached, limit) {
        lemma_has_first(pool.valid, cached->0);
    }
    if let Ok(status) = dispatch.answer {
        let key = status.cookie@;
        assert(dispatch.pool.in_use == acquired(pool.in_use, key));
        assert(pool.in_use.contains_key(key) ==> pool.in_use[key] > 0);
        assert(released(acquired(pool.in_use, key), key) =~= pool.in_use);
    }
}

/// Releasing a cookie takes one off its count, if there is one to take, and leaves every other
/// count as it was; where nobody uses the cookie, nothing changes.
pub proof fn law_release_takes_one(pool: Pool, key: Seq<char>)
    ensures
        forall|other: Seq<char>| #[trigger]
            count_of(pool.released(key).in_use, other) == if other == key && count_of(
                pool.in_use,
                key,
            ) > 0 {
                count_of(pool.in_use, key) - 1
            } else {
                count_of(pool.in_use, other) as int
            },
        !pool.in_use.contains_key(key) ==> pool.released(key) == pool,
{
}

/// A conversation stays with its cookie: once it was given one, the cache can remember no other
/// for it, and if the cache still remembers that one and it can take a request, the conversation
/// is given the same cookie again.
pub proof fn law_conversation_keeps_cookie(
    pool: Pool,
    hash: u64,
    cached: Option<Seq<char>>,
    later: Option<Seq<char>>,
    limit: nat,
)
    requires
        pool.dispatch(Some(hash), cached, limit).answer is Ok,
        pool.dispatch(Some(hash), cached, limit).pool.affinity.may_answer(Some(hash), later),
    ensures
        ({
            let first = pool.dispatch(Some(hash), cached, limit);
            let key = first.answer->Ok_0.cookie@;
            let second = first.pool.dispatch(Some(hash), later, limit);
            &&& later is None || later == Some(key)
            &&& later is Some && count_of(first.pool.in_use, key) < limit ==> second.answer is Ok
                && second.answer->Ok_0.cookie@ == key
        }),
{
    let first = pool.dispatch(Some(hash), cached, limit);
    let key = first.answer->Ok_0.cookie@;
    if pool.affinity_hit(Some(hash), cached, limit) {
        lemma_has_first(pool.valid, cached->0);
    } else {
        lemma_first_free(pool, limit);
        lemma_rotate(pool.valid, pool.first_free(limit));
        assert(pool.valid[pool.first_free(limit)].key() == key);
        assert(holds(pool.valid, key));
    }
    assert(holds(first.pool.valid, key));
    lemma_has_first(first.pool.valid, key);
}

/// Whatever the pool, a conversation is given the cookie that the cache remembers for it, if that
/// can be handed out and can take one more request.
pub proof fn law_remembered_cookie_is_given(pool: Pool, hash: u64, key: Seq<char>, limit: nat)
    requires
        holds(pool.valid, key),
        count_of(pool.in_use, key) < limit,
    ensures
        pool.dispatch(Some(hash), Some(key), limit).answer is Ok,
        pool.dispatch(Some(hash), Some(key), limit).answer->Ok_0.cookie@ == key,
{
    lemma_has_first(pool.valid, key);
}

/// The pool after `n` requests of no conversation.
pub open spec fn served(pool: Pool, n: nat, limit: nat) -> Pool
    decreases n,
{
    if n == 0 {
        pool
    } else {
        served(pool, (n - 1) as nat, limit).dispatch(None, None, limit).pool
    }
}

/// Where every cookie can take one more request, requests of no conversation are given the
/// cookies in turn, each once, after which the cookies stand as they stood.
pub proof fn law_cookies_take_turns(pool: Pool, n: nat, limit: nat)
    requires
        distinct(pool.valid),
        forall|i: int| 0 <= i < pool.valid.len() ==> #[trigger] pool.is_free(i, limit),
        n <= pool.valid.len(),
    ensures
        served(pool, n, limit).valid == pool.valid.skip(n as int) + pool.valid.take(n as int),
        n < pool.valid.len() ==> served(pool, n, limit).dispatch(None, None, limit).answer == Ok::<
            CookieStatus,
            ClewdrError,
        >(pool.valid[n as int]),
        n == pool.valid.len() ==> served(pool, n, limit).valid == pool.valid,
{
    lemma_turns(pool, n, limit);
    if n == pool.valid.len() {
        assert(pool.valid.skip(n as int) + pool.valid.take(n as int) =~= pool.valid);
    }
}

proof fn lemma_turns(pool: Pool, n: nat, limit: nat)
    requires
        distinct(pool.valid),
        forall|i: int| 0 <= i < pool.valid.len() ==> #[trigger] pool.is_free(i, limit),
        n <= pool.valid.len(),
    ensures
        ({
            let now = served(pool, n, limit);
            &&& now.valid == pool.valid.skip(n as int) + pool.valid.take(n as int)
            &&& forall|i: int|
                n <= i < pool.valid.len() ==> count_of(
                    now.in_use,
                    #[trigger] pool.valid[i].cookie@,
                ) == count_of(pool.in_use, pool.valid[i].cookie@)
            &&& n < pool.valid.len() ==> {
                let next = now.dispatch(None, None, limit);
                &&& next.answer == Ok::<CookieStatus, ClewdrError>(pool.valid[n as int])
                &&& next.pool.valid == now.valid.remove(0).push(pool.valid[n as int])
                &&& next.pool.in_use == acquired(now.in_use, pool.valid[n as int].cookie@)
            }
        }),
    decreases n,
{
    let now = served(pool, n, limit);
    if n == 0 {
        assert(now.valid =~= pool.valid.skip(0) + pool.valid.take(0));
    } else {
        let m = (n - 1) as nat;
        lemma_turns(pool, m, limit);
        let before = served(pool, m, limit);
        assert(now == before.dispatch(None, None, limit).pool);
        assert(now.valid =~= pool.valid.skip(n as int) + pool.valid.take(n as int));
        assert forall|i: int| n <= i < pool.valid.len() implies count_of(
            now.in_use,
            #[trigger] pool.valid[i].cookie@,
        ) == count_of(pool.in_use, pool.valid[i].cookie@) by {
            assert(pool.valid[m as int].key() != pool.valid[i].key());
        }
    }
    if n < pool.valid.len() {
        assert(now.valid[0] == pool.valid[n as int]);
        assert(pool.is_free(n as int, limit));
        assert(now.is_free(0, limit));
        lemma_first_free(now, limit);
        assert(now.first_free(limit) == 0) by {
            let f = now.first_free(limit);
            if f > 0 {
                assert(!now.is_free(0, limit));
            }
        }
    }
}

// ----- Time -----

/// Putting rested cookies back neither loses a cookie nor makes one up.
pub proof fn law_reset_conserves_cookies(pool: Pool, now: i64, key: Seq<char>)
    ensures
        holds(pool.after_reset(now).valid, key) || holds(pool.after_reset(now).exhausted, key)
            <==> holds(pool.valid, key) || holds(pool.exhausted, key),
        pool.after_reset(now).contains(key) <==> pool.contains(key),
{
    let back = pool.exhausted.filter(is_rested(now));
    let reset = all_after_reset(back, now);
    lemma_same_keys(back, reset);
    assert(holds(back, key) <==> holds(reset, key));
    lemma_add_holds(pool.valid, reset, key);
    lemma_filter_holds(pool.exhausted, is_rested(now), key);
    lemma_filter_holds(pool.exhausted, is_resting(now), key);
    if holds(pool.exhausted, key) {
        let i = choose|i: int|
            0 <= i < pool.exhausted.len() && #[trigger] pool.exhausted[i].key() == key;
        assert(is_rested(now)(pool.exhausted[i]) || is_resting(now)(pool.exhausted[i]));
    }
}

/// A filter that a sequence has passed keeps all of it, and its opposite none.
proof fn lemma_filter_settled(
    items: Seq<CookieStatus>,
    p: spec_fn(CookieStatus) -> bool,
    q: spec_fn(CookieStatus) -> bool,
)
    requires
        forall|i: int| 0 <= i < items.len() ==> p(#[trigger] items[i]) && !q(items[i]),
    ensures
        items.filter(p) == items,
        items.filter(q) == Seq::<CookieStatus>::empty(),
    decreases items.len(),
{
    reveal(Seq::filter);
    if items.len() > 0 {
        let front = items.drop_last();
        assert forall|i: int| 0 <= i < front.len() implies p(#[trigger] front[i]) && !q(
            front[i],
        ) by {
            assert(front[i] == items[i]);
        }
        lemma_filter_settled(front, p, q);
        assert(items[items.len() - 1] == items.last());
        assert(items =~= front.push(items.last()));
        lemma_filter_push(front, items.last(), p);
        lemma_filter_push(front, items.last(), q);
    }
}

/// What passes a filter satisfies it.
proof fn lemma_filter_passes(items: Seq<CookieStatus>, p: spec_fn(CookieStatus) -> bool)
    ensures
        forall|i: int| 0 <= i < items.filter(p).len() ==> p(#[trigger] items.filter(p)[i]),
{
    assert forall|i: int| 0 <= i < items.filter(p).len() implies p(#[trigger] items.filter(p)[i]) by {
        items.lemma_filter_pred(p, i);
    }
}

/// After the rested cookies have been put back, those at rest still have to rest, the ones put
/// back stand behind the others and do not have to rest, and to put cookies back once more at the
/// same time changes nothing.
pub proof fn law_reset_settles(pool: Pool, now: i64)
    ensures
        forall|i: int|
            0 <= i < pool.after_reset(now).exhausted.len() ==> !#[trigger] pool.after_reset(
                now,
            ).exhausted[i].rested(now),
        pool.valid.is_prefix_of(pool.after_reset(now).valid),
        forall|i: int|
            pool.valid.len() <= i < pool.after_reset(now).valid.len() ==> #[trigger]
                pool.after_reset(now).valid[i].reset_time is None,
        pool.after_reset(now).after_reset(now) == pool.after_reset(now),
{
    let once = pool.after_reset(now);
    lemma_filter_passes(pool.exhausted, is_resting(now));
    lemma_filter_passes(pool.exhausted, is_rested(now));
    assert forall|i: int| 0 <= i < once.exhausted.len() implies !#[trigger] once.exhausted[i].rested(
        now,
    ) by {
        assert(is_resting(now)(once.exhausted[i]));
    }
    assert forall|i: int| pool.valid.len() <= i < once.valid.len() implies #[trigger]
        once.valid[i].reset_time is None by {
        let back = pool.exhausted.filter(is_rested(now));
        assert(is_rested(now)(back[i - pool.valid.len()]));
    }
    assert forall|i: int| 0 <= i < once.exhausted.len() implies is_resting(now)(
        #[trigger] once.exhausted[i],
    ) && !is_rested(now)(once.exhausted[i]) by {
        assert(!once.exhausted[i].rested(now));
    }
    lemma_filter_settled(once.exhausted, is_resting(now), is_rested(now));
    assert(once.valid =~= once.valid + all_after_reset(Seq::empty(), now));
    assert(once.after_reset(now) =~= once);
}

/// Once the finished usage windows have been started anew, none is over at the same time any
/// more, and to look again changes nothing.
pub proof fn law_refresh_settles(pool: Pool, now: i64)
    requires
        now + WEEKLY_WINDOW_SECS <= i64::MAX,
    ensures
        !pool.rolled(now).any_window_due(now),
        pool.rolled(now).rolled(now) == pool.rolled(now),
{
    let once = pool.rolled(now);
    assert forall|i: int|
        #![trigger once.valid[i].any_window_due(now)]
        #![trigger once.valid[i].rolled(now)]
        0 <= i < once.valid.len() implies !once.valid[i].any_window_due(now)
        && once.valid[i].rolled(now) == once.valid[i] by {
        lemma_rolled_settles(pool.valid[i], now);
    }
    assert forall|i: int|
        #![trigger once.exhausted[i].any_window_due(now)]
        #![trigger once.exhausted[i].rolled(now)]
        0 <= i < once.exhausted.len() implies !once.exhausted[i].any_window_due(now)
        && once.exhausted[i].rolled(now) == once.exhausted[i] by {
        lemma_rolled_settles(pool.exhausted[i], now);
    }
    assert(once.rolled(now).valid =~= once.valid);
    assert(once.rolled(now).exhausted =~= once.exhausted);
}

proof fn lemma_rolled_settles(status: CookieStatus, now: i64)
    requires
        now + WEEKLY_WINDOW_SECS <= i64::MAX,
    ensures
        !status.rolled(now).any_window_due(now),
        status.rolled(now).rolled(now) == status.rolled(now),
{
}

/// Where no usage window is over, looking at them changes nothing.
pub proof fn law_refresh_without_due_window(pool: Pool, now: i64)
    requires
        !pool.any_window_due(now),
    ensures
        pool.rolled(now) == pool,
{
    assert forall|i: int| 0 <= i < pool.valid.len() implies #[trigger] pool.valid[i].rolled(now)
        == pool.valid[i] by {
        assert(!pool.valid[i].any_window_due(now));
    }
    assert forall|i: int| 0 <= i < pool.exhausted.len() implies #[trigger] pool.exhausted[i].rolled(
        now,
    ) == pool.exhausted[i] by {
        assert(!pool.exhausted[i].any_window_due(now));
    }
    assert(pool.rolled(now).valid =~= pool.valid);
    assert(pool.rolled(now).exhausted =~= pool.exhausted);
}

/// Starting usage windows anew leaves every cookie where it is.
pub proof fn law_refresh_conserves_cookies(pool: Pool, now: i64)
    ensures
        forall|key: Seq<char>| #[trigger] holds(pool.valid, key) <==> holds(
            pool.rolled(now).valid,
            key,
        ),
        forall|key: Seq<char>| #[trigger] holds(pool.exhausted, key) <==> holds(
            pool.rolled(now).exhausted,
            key,
        ),
{
    lemma_same_keys(pool.valid, pool.rolled(now).valid);
    lemma_same_keys(pool.exhausted, pool.rolled(now).exhausted);
}

// ----- Taking cookies back -----

/// Bringing a record up to date does not end the use of the cookie; coming back with a reason
/// ends exactly one.
pub proof fn law_only_a_reason_releases(
    pool: Pool,
    config: Config,
    status: CookieStatus,
    reason: Option<Reason>,
)
    ensures
        pool.collect(config, status, reason).pool.in_use == if reason is None {
            pool.in_use
        } else {
            released(pool.in_use, status.cookie@)
        },
{
}

/// A cookie that works stays where it is: to take it back does what releasing it does.
pub proof fn law_working_cookie_stays(pool: Pool, config: Config, status: CookieStatus)
    ensures
        pool.collect(config, status, Some(Reason::NormalPro)) == pool.released(
            status.cookie@,
        ).kept(config),
{
}

/// A cookie that comes back because of a limit is no longer handed out, and rests; one that comes
/// back for good is no longer handed out, and counts as given up. No other cookie moves.
pub proof fn law_collect_sets_aside(
    pool: Pool,
    config: Config,
    status: CookieStatus,
    reason: Reason,
)
    requires
        reason != Reason::NormalPro,
    ensures
        ({
            let after = pool.collect(config, status, Some(reason)).pool;
            let key = status.cookie@;
            &&& !holds(after.valid, key)
            &&& reason is TooManyRequest || reason is Restricted ==> holds(after.exhausted, key)
                && after.invalid == pool.invalid
            &&& !(reason is TooManyRequest || reason is Restricted) ==> holds(after.invalid, key)
                && after.exhausted == pool.exhausted
            &&& same_but_for(after.valid, pool.valid, key)
            &&& same_but_for(after.exhausted, pool.exhausted, key)
            &&& same_but_for(after.invalid, pool.invalid, key)
        }),
{
    let key = status.cookie@;
    let after = pool.collect(config, status, Some(reason)).pool;
    let until = match reason {
        Reason::TooManyRequest(until) => until,
        Reason::Restricted(until) => until,
        _ => 0,
    };
    let cooling = status.cooling(until);
    let useless = UselessCookie { cookie: status.cookie, reason };
    lemma_without_holds(pool.valid, key, key);
    lemma_push_holds(pool.exhausted, cooling, key);
    lemma_push_holds(pool.invalid, useless, key);
    assert forall|other: Seq<char>| other != key implies (#[trigger] holds(after.valid, other)
        <==> holds(pool.valid, other)) by {
        lemma_without_holds(pool.valid, key, other);
    }
    assert forall|other: Seq<char>| other != key implies (#[trigger] holds(after.exhausted, other)
        <==> holds(pool.exhausted, other)) by {
        lemma_push_holds(pool.exhausted, cooling, other);
    }
    assert forall|other: Seq<char>| other != key implies (#[trigger] holds(after.invalid, other)
        <==> holds(pool.invalid, other)) by {
        lemma_push_holds(pool.invalid, useless, other);
    }
}

/// A cookie laid to rest until some time is handed out to nobody before that time has passed,
/// and can be handed out again afterwards.
pub proof fn law_cookie_rests_until_its_time(
    pool: Pool,
    config: Config,
    status: CookieStatus,
    reason: Reason,
    until: i64,
    now: i64,
)
    requires
        reason == Reason::TooManyRequest(until) || reason == Reason::Restricted(until),
        !holds(pool.exhausted, status.cookie@),
    ensures
        ({
            let later = pool.collect(config, status, Some(reason)).pool.after_reset(now);
            &&& until < now ==> holds(later.valid, status.cookie@)
            &&& now <= until ==> !holds(later.valid, status.cookie@)
            &&& now <= until ==> forall|
                hash: Option<u64>,
                cached: Option<Seq<char>>,
                limit: nat,
            |
                (#[trigger] later.dispatch(hash, cached, limit)).answer matches Ok(other)
                    ==> other.cookie@ != status.cookie@
        }),
{
    let key = status.cookie@;
    let cooling = status.cooling(until);
    let after = pool.collect(config, status, Some(reason)).pool;
    let later = after.after_reset(now);
    let back = after.exhausted.filter(is_rested(now));
    let reset = all_after_reset(back, now);
    assert(after.exhausted == pool.exhausted.push(cooling));
    lemma_without_holds(pool.valid, key, key);
    lemma_same_keys(back, reset);
    assert(holds(back, key) <==> holds(reset, key));
    lemma_add_holds(after.valid, reset, key);
    lemma_filter_holds(after.exhausted, is_rested(now), key);
    let last = pool.exhausted.len() as int;
    assert(after.exhausted[last].key() == key);
    if until < now {
        assert(is_rested(now)(after.exhausted[last]));
    } else {
        assert forall|i: int| 0 <= i < after.exhausted.len() && is_rested(now)(
            after.exhausted[i],
        ) implies #[trigger] after.exhausted[i].key() != key by {
            if i < last {
                assert(pool.exhausted[i].key() != key);
            }
        }
        assert forall|hash: Option<u64>, cached: Option<Seq<char>>, limit: nat|
            (#[trigger] later.dispatch(hash, cached, limit)).answer matches Ok(other)
                ==> other.cookie@ != key by {
            law_dispatch_answers_from_the_pool(later, hash, cached, limit);
            if let Ok(other) = later.dispatch(hash, cached, limit).answer {
                let i = choose|i: int| 0 <= i < later.valid.len() && later.valid[i] == other;
                assert(later.valid[i].key() != key);
            }
        }
    }
}

// ----- Taking cookies in, and deleting them -----

/// A deleted cookie is nowhere in the pool, every other one is where it was, nobody's use of a
/// cookie ends, and to delete it again fails.
pub proof fn law_delete_removes(pool: Pool, config: Config, status: CookieStatus)
    ensures
        ({
            let change = pool.delete(config, status);
            let key = status.cookie@;
            &&& change.answer is Ok <==> pool.contains(key)
            &&& !change.pool.contains(key)
            &&& change.pool.in_use == pool.in_use
            &&& change.pool.delete(change.config, status).answer == Err::<(), ClewdrError>(
                delete_missed(),
            )
            &&& same_but_for(change.pool.valid, pool.valid, key)
            &&& same_but_for(change.pool.exhausted, pool.exhausted, key)
            &&& same_but_for(change.pool.invalid, pool.invalid, key)
        }),
{
    let key = status.cookie@;
    let change = pool.delete(config, status);
    lemma_without_holds(pool.valid, key, key);
    lemma_without_holds(pool.exhausted, key, key);
    lemma_without_holds(pool.invalid, key, key);
    assert forall|other: Seq<char>| other != key implies (#[trigger] holds(change.pool.valid, other)
        <==> holds(pool.valid, other)) by {
        lemma_without_holds(pool.valid, key, other);
    }
    assert forall|other: Seq<char>| other != key implies (#[trigger] holds(
        change.pool.exhausted,
        other,
    ) <==> holds(pool.exhausted, other)) by {
        lemma_without_holds(pool.exhausted, key, other);
    }
    assert forall|other: Seq<char>| other != key implies (#[trigger] holds(
        change.pool.invalid,
        other,
    ) <==> holds(pool.invalid, other)) by {
        lemma_without_holds(pool.invalid, key, other);
    }
}

/// A cookie that was taken in is known from then on: to submit it again changes nothing.
pub proof fn law_accept_twice(pool: Pool, config: Config, status: CookieStatus)
    ensures
        ({
            let once = pool.accept(config, status);
            &&& once.config.knows(status.cookie@)
            &&& once.pool.accept(once.config, status) == once.pool.kept(once.config)
        }),
{
    let once = pool.accept(config, status);
    if !config.knows(status.cookie@) {
        lemma_push_holds(pool.valid, status, status.cookie@);
        lemma_add_holds(once.pool.valid, pool.exhausted, status.cookie@);
    }
}

// ----- What every message keeps -----

impl Pool {
    /// No cookie has two records among those handed out and those at rest.
    pub open spec fn single(self) -> bool {
        distinct(self.valid) && disjoint(self.valid, self.exhausted)
    }

    /// The configuration knows every cookie of the pool.
    pub open spec fn known_to(self, config: Config) -> bool {
        forall|key: Seq<char>| #[trigger] self.contains(key) ==> config.knows(key)
    }

    /// No cookie is used by more requests than `limit`.
    pub open spec fn within(self, limit: nat) -> bool {
        forall|key: Seq<char>| #[trigger] count_of(self.in_use, key) <= limit
    }

    /// Everything that holds between messages.
    pub open spec fn sound(self, config: Config) -> bool {
        &&& self.wf()
        &&& self.single()
        &&& self.known_to(config)
    }
}

/// What was just saved is known.
proof fn lemma_saving_knows(pool: Pool, config: Config)
    ensures
        pool.known_to(config.saving(pool)),
{
    assert forall|key: Seq<char>| #[trigger] pool.contains(key) implies config.saving(pool).knows(
        key,
    ) by {
        lemma_add_holds(pool.valid, pool.exhausted, key);
    }
}

/// A pool with no more cookies than before, where the configuration knew those, is known.
proof fn lemma_fewer_known(before: Pool, after: Pool, config: Config)
    requires
        before.known_to(config),
        forall|key: Seq<char>| #[trigger] after.contains(key) ==> before.contains(key),
    ensures
        after.known_to(config),
{
    assert forall|key: Seq<char>| #[trigger] after.contains(key) implies config.knows(key) by {
        assert(before.contains(key));
    }
}

proof fn lemma_reset_keeps_sound(pool: Pool, config: Config, now: i64)
    requires
        pool.sound(config),
    ensures
        pool.after_reset(now).sound(config),
{
    let after = pool.after_reset(now);
    let back = pool.exhausted.filter(is_rested(now));
    let reset = all_after_reset(back, now);
    lemma_filter_holds(pool.exhausted, is_rested(now), Seq::empty());
    lemma_filter_holds(pool.exhausted, is_resting(now), Seq::empty());
    lemma_same_keys(back, reset);
    assert forall|key: Seq<char>| #[trigger] holds(pool.valid, key) implies !holds(reset, key) by {
        assert(!holds(pool.exhausted, key));
        lemma_filter_holds(pool.exhausted, is_rested(now), key);
        assert(holds(back, key) <==> holds(reset, key));
    }
    lemma_add_distinct(pool.valid, reset);
    assert forall|key: Seq<char>| #[trigger] holds(after.valid, key) implies !holds(
        after.exhausted,
        key,
    ) by {
        lemma_add_holds(pool.valid, reset, key);
        lemma_filter_holds(pool.exhausted, is_rested(now), key);
        lemma_filter_holds(pool.exhausted, is_resting(now), key);
        assert(holds(back, key) <==> holds(reset, key));
        if holds(after.exhausted, key) {
            let j = choose|j: int|
                0 <= j < pool.exhausted.len() && is_resting(now)(pool.exhausted[j])
                    && #[trigger] pool.exhausted[j].key() == key;
            assert(holds(pool.exhausted, key));
            assert(!holds(pool.valid, key));
            let i = choose|i: int|
                0 <= i < pool.exhausted.len() && is_rested(now)(pool.exhausted[i])
                    && #[trigger] pool.exhausted[i].key() == key;
            if i < j {
                assert(pool.exhausted[i].key() != pool.exhausted[j].key());
            } else if j < i {
                assert(pool.exhausted[j].key() != pool.exhausted[i].key());
            }
        }
    }
    assert forall|key: Seq<char>| #[trigger] after.contains(key) implies pool.contains(key) by {
        law_reset_conserves_cookies(pool, now, key);
    }
    lemma_fewer_known(pool, after, config);
}

proof fn lemma_rolled_keeps_sound(pool: Pool, config: Config, now: i64)
    requires
        pool.sound(config),
    ensures
        pool.rolled(now).sound(config),
{
    let after = pool.rolled(now);
    lemma_same_keys(pool.valid, after.valid);
    lemma_same_keys(pool.exhausted, after.exhausted);
    assert forall|key: Seq<char>| #[trigger] holds(after.valid, key) implies !holds(
        after.exhausted,
        key,
    ) by {
        assert(holds(pool.valid, key));
        assert(!holds(pool.exhausted, key));
    }
    assert forall|key: Seq<char>| #[trigger] after.contains(key) implies pool.contains(key) by {
        assert(holds(pool.valid, key) <==> holds(after.valid, key));
        assert(holds(pool.exhausted, key) <==> holds(after.exhausted, key));
    }
    lemma_fewer_known(pool, after, config);
}

proof fn lemma_dispatch_keeps_sound(
    pool: Pool,
    config: Config,
    hash: Option<u64>,
    cached: Option<Seq<char>>,
    limit: nat,
)
    requires
        pool.sound(config),
    ensures
        pool.dispatch(hash, cached, limit).pool.sound(config),
{
    let after = pool.dispatch(hash, cached, limit).pool;
    if !pool.affinity_hit(hash, cached, limit) && pool.any_free(limit) && pool.valid.len() > 0 {
        lemma_first_free(pool, limit);
        lemma_rotate(pool.valid, pool.first_free(limit));
    }
    assert forall|key: Seq<char>| #[trigger] holds(pool.valid, key) <==> holds(after.valid, key) by {}
    assert forall|key: Seq<char>| #[trigger] holds(after.valid, key) implies !holds(
        after.exhausted,
        key,
    ) by {
        assert(holds(pool.valid, key));
    }
    assert forall|key: Seq<char>| #[trigger] after.contains(key) implies pool.contains(key) by {
        assert(holds(pool.valid, key) <==> holds(after.valid, key));
    }
    lemma_fewer_known(pool, after, config);
}

proof fn lemma_release_keeps_sound(pool: Pool, config: Config, key: Seq<char>)
    requires
        pool.sound(config),
    ensures
        pool.released(key).sound(config),
{
    assert forall|other: Seq<char>| #[trigger] pool.released(key).contains(other) implies pool.contains(
        other,
    ) by {}
    lemma_fewer_known(pool, pool.released(key), config);
}

proof fn lemma_withdrawal_keeps_sound(pool: Pool, config: Config, key: Seq<char>)
    requires
        pool.sound(config),
    ensures
        pool.withdrawn(key).sound(config),
        !holds(pool.withdrawn(key).valid, key),
{
    let after = pool.withdrawn(key);
    lemma_without_holds(pool.valid, key, key);
    assert forall|other: Seq<char>| #[trigger] holds(after.valid, other) implies !holds(
        after.exhausted,
        other,
    ) by {
        lemma_without_holds(pool.valid, key, other);
        assert(holds(pool.valid, other));
    }
    assert forall|other: Seq<char>| #[trigger] after.contains(other) implies pool.contains(other) by {
        lemma_without_holds(pool.valid, key, other);
    }
    lemma_fewer_known(pool, after, config);
}

/// Replacing a record by another about the same cookie leaves the cookies as they are.
proof fn lemma_update_same_key(items: Seq<CookieStatus>, i: int, status: CookieStatus)
    requires
        0 <= i < items.len(),
        items[i].key() == status.key(),
    ensures
        forall|key: Seq<char>| #[trigger] holds(items, key) <==> holds(items.update(i, status), key),
        distinct(items) ==> distinct(items.update(i, status)),
{
    lemma_same_keys(items, items.update(i, status));
}

proof fn lemma_collect_keeps_sound(
    pool: Pool,
    config: Config,
    status: CookieStatus,
    reason: Option<Reason>,
)
    requires
        pool.sound(config),
    ensures
        pool.collect(config, status, reason).pool.sound(
            pool.collect(config, status, reason).config,
        ),
{
    let key = status.cookie@;
    let change = pool.collect(config, status, reason);
    let after = change.pool;
    lemma_saving_knows(after, config);
    lemma_release_keeps_sound(pool, config, key);
    let apart = pool.released(key).withdrawn(key);
    lemma_withdrawal_keeps_sound(pool.released(key), config, key);
    match reason {
        None => {
            if holds(pool.valid, key) {
                lemma_has_first(pool.valid, key);
                lemma_update_same_key(pool.valid, first_index(pool.valid, key), status);
                assert forall|other: Seq<char>| #[trigger] holds(after.valid, other) implies !holds(
                    after.exhausted,
                    other,
                ) by {
                    assert(holds(pool.valid, other));
                }
            }
        },
        Some(Reason::NormalPro) => {},
        Some(Reason::TooManyRequest(until)) => {
            lemma_rest_keeps_single(apart, config, status.cooling(until));
        },
        Some(Reason::Restricted(until)) => {
            lemma_rest_keeps_single(apart, config, status.cooling(until));
        },
        Some(why) => {
            lemma_push_holds(
                apart.invalid,
                UselessCookie { cookie: status.cookie, reason: why },
                key,
            );
        },
    }
}

proof fn lemma_rest_keeps_single(pool: Pool, config: Config, status: CookieStatus)
    requires
        pool.wf(),
        pool.single(),
        !holds(pool.valid, status.cookie@),
    ensures
        pool.rest(config, status).pool.wf(),
        pool.rest(config, status).pool.single(),
{
    lemma_push_holds(pool.exhausted, status, status.cookie@);
    assert forall|key: Seq<char>| #[trigger] holds(pool.valid, key) implies !holds(
        pool.rest(config, status).pool.exhausted,
        key,
    ) by {
        lemma_push_holds(pool.exhausted, status, key);
    }
}

proof fn lemma_accept_keeps_sound(pool: Pool, config: Config, status: CookieStatus)
    requires
        pool.sound(config),
    ensures
        pool.accept(config, status).pool.sound(pool.accept(config, status).config),
{
    let after = pool.accept(config, status).pool;
    lemma_saving_knows(after, config);
    if !config.knows(status.cookie@) {
        assert(!pool.contains(status.cookie@));
        lemma_push_holds(pool.valid, status, status.cookie@);
        assert forall|key: Seq<char>| #[trigger] holds(after.valid, key) implies !holds(
            after.exhausted,
            key,
        ) by {
            lemma_push_holds(pool.valid, status, key);
            if key != status.cookie@ {
                assert(holds(pool.valid, key));
            }
        }
    }
}

proof fn lemma_delete_keeps_sound(pool: Pool, config: Config, status: CookieStatus)
    requires
        pool.sound(config),
    ensures
        pool.delete(config, status).pool.sound(pool.delete(config, status).config),
{
    let gone = status.cookie@;
    let after = pool.delete(config, status).pool;
    lemma_saving_knows(after, config);
    lemma_without_holds(pool.valid, gone, gone);
    lemma_without_holds(pool.exhausted, gone, gone);
    lemma_without_holds(pool.invalid, gone, gone);
    assert forall|key: Seq<char>| #[trigger] holds(after.valid, key) implies !holds(
        after.exhausted,
        key,
    ) by {
        lemma_without_holds(pool.valid, gone, key);
        lemma_without_holds(pool.exhausted, gone, key);
        assert(holds(pool.valid, key));
    }
}

proof fn lemma_update_keeps_sound(pool: Pool, config: Config, status: CookieStatus)
    requires
        pool.sound(config),
    ensures
        pool.update_1m_support(config, status).pool.sound(
            pool.update_1m_support(config, status).config,
        ),
{
    let key = status.cookie@;
    let after = pool.update_1m_support(config, status).pool;
    lemma_saving_knows(after, config);
    if holds(pool.valid, key) {
        lemma_has_first(pool.valid, key);
        let i = first_index(pool.valid, key);
        lemma_update_same_key(pool.valid, i, pool.valid[i].with_1m_of(status));
    } else if holds(pool.exhausted, key) {
        lemma_has_first(pool.exhausted, key);
        let i = first_index(pool.exhausted, key);
        lemma_update_same_key(pool.exhausted, i, pool.exhausted[i].with_1m_of(status));
    }
    assert forall|other: Seq<char>| #[trigger] holds(after.valid, other) implies !holds(
        after.exhausted,
        other,
    ) by {
        assert(holds(pool.valid, other));
        assert(!holds(pool.exhausted, other));
    }
}

/// Whatever message comes, and whatever the clock and the cache say: no cookie rests twice or is
/// given up twice, none has two records among those handed out and those at rest, only cookies
/// that are being used are counted, and the configuration knows every cookie of the pool.
pub proof fn law_every_message_keeps_the_pool_sound(
    pool: Pool,
    config: Config,
    message: CookieActorMessage,
    readings: Readings,
)
    requires
        pool.sound(config),
    ensures
        pool.step(config, message, readings).pool.sound(
            pool.step(config, message, readings).config,
        ),
{
    match message {
        CookieActorMessage::Return(status, reason) => {
            lemma_collect_keeps_sound(pool, config, status, reason);
        },
        CookieActorMessage::Submit(status) => {
            lemma_accept_keeps_sound(pool, config, status);
        },
        CookieActorMessage::CheckReset => {
            let refreshed = pool.refresh(config, readings.refreshed_at);
            lemma_rolled_keeps_sound(pool, config, readings.refreshed_at);
            lemma_saving_knows(refreshed.pool, config);
            lemma_reset_keeps_sound(refreshed.pool, refreshed.config, readings.reset_at);
        },
        CookieActorMessage::Request(hash) => {
            lemma_reset_keeps_sound(pool, config, readings.reset_at);
            lemma_dispatch_keeps_sound(
                pool.after_reset(readings.reset_at),
                config,
                hash,
                readings.cached,
                config.limit(),
            );
        },
        CookieActorMessage::GetStatus => {
            lemma_rolled_keeps_sound(pool, config, readings.refreshed_at);
            lemma_saving_knows(pool.rolled(readings.refreshed_at), config);
        },
        CookieActorMessage::Delete(status) => {
            lemma_delete_keeps_sound(pool, config, status);
        },
        CookieActorMessage::Update1mSupport(status) => {
            lemma_update_keeps_sound(pool, config, status);
        },
        CookieActorMessage::ReleaseSlot(cookie) => {
            lemma_release_keeps_sound(pool, config, cookie@);
        },
    }
}

/// A pool starts well-formed and known to its configuration, and sound if no cookie was saved
/// twice.
pub proof fn law_start_is_sound(config: Config)
    ensures
        Pool::starting_from(config).wf(),
        Pool::starting_from(config).known_to(config),
        distinct(config.cookie_array) ==> Pool::starting_from(config).sound(config),
{
    let pool = Pool::starting_from(config);
    let saved = config.cookie_array;
    let ready = saved.filter(is_ready());
    let cooling = saved.filter(is_cooling());
    lemma_same_keys(ready, all_with_1m_defaults(ready));
    lemma_same_keys(cooling, all_with_1m_defaults(cooling));
    lemma_keep_first(all_with_1m_defaults(cooling), Seq::empty());
    lemma_keep_first(config.wasted_cookie, Seq::empty());
    lemma_filter_holds(saved, is_ready(), Seq::empty());
    assert forall|key: Seq<char>| #[trigger] pool.contains(key) implies config.knows(key) by {
        lemma_start_holds(config, key);
        lemma_keep_first(config.wasted_cookie, key);
    }
    if distinct(saved) {
        assert forall|key: Seq<char>| #[trigger] holds(pool.valid, key) implies !holds(
            pool.exhausted,
            key,
        ) by {
            lemma_start_holds(config, key);
            if holds(pool.exhausted, key) {
                let i = choose|i: int|
                    0 <= i < saved.len() && is_ready()(saved[i]) && #[trigger] saved[i].key()
                        == key;
                let j = choose|j: int|
                    0 <= j < saved.len() && is_cooling()(saved[j]) && #[trigger] saved[j].key()
                        == key;
                if i < j {
                    assert(saved[i].key() != saved[j].key());
                } else if j < i {
                    assert(saved[j].key() != saved[i].key());
                }
            }
        }
    }
}

/// Which cookies a pool starts with.
proof fn lemma_start_holds(config: Config, key: Seq<char>)
    ensures
        holds(Pool::starting_from(config).valid, key) <==> exists|i: int|
            0 <= i < config.cookie_array.len() && is_ready()(config.cookie_array[i])
                && #[trigger] config.cookie_array[i].key() == key,
        holds(Pool::starting_from(config).exhausted, key) <==> exists|i: int|
            0 <= i < config.cookie_array.len() && is_cooling()(config.cookie_array[i])
                && #[trigger] config.cookie_array[i].key() == key,
{
    let saved = config.cookie_array;
    let ready = saved.filter(is_ready());
    let cooling = saved.filter(is_cooling());
    lemma_same_keys(ready, all_with_1m_defaults(ready));
    lemma_same_keys(cooling, all_with_1m_defaults(cooling));
    assert(holds(ready, key) <==> holds(all_with_1m_defaults(ready), key));
    assert(holds(cooling, key) <==> holds(all_with_1m_defaults(cooling), key));
    lemma_keep_first(all_with_1m_defaults(cooling), key);
    lemma_filter_holds(saved, is_ready(), key);
    lemma_filter_holds(saved, is_cooling(), key);
}

/// The pool and the configuration after a run of messages, each handled with its readings.
pub open spec fn after_run(
    pool: Pool,
    config: Config,
    run: Seq<(CookieActorMessage, Readings)>,
) -> (Pool, Config)
    decreases run.len(),
{
    if run.len() == 0 {
        (pool, config)
    } else {
        let (before, known) = after_run(pool, config, run.drop_last());
        let step = before.step(known, run.last().0, run.last().1);
        (step.pool, step.config)
    }
}

/// From its start on, whatever messages come in whatever order, the pool stays sound and no
/// cookie is used by more requests than the limit allows, if no cookie was saved twice.
pub proof fn law_every_run_stays_sound(
    config: Config,
    run: Seq<(CookieActorMessage, Readings)>,
)
    requires
        distinct(config.cookie_array),
    ensures
        ({
            let (pool, known) = after_run(Pool::starting_from(config), config, run);
            pool.sound(known) && pool.within(config.limit()) && known.limit() == config.limit()
        }),
    decreases run.len(),
{
    let start = Pool::starting_from(config);
    if run.len() == 0 {
        law_start_is_sound(config);
    } else {
        law_every_run_stays_sound(config, run.drop_last());
        let (before, known) = after_run(start, config, run.drop_last());
        law_every_message_keeps_the_pool_sound(before, known, run.last().0, run.last().1);
        law_every_message_keeps_the_limit(before, known, run.last().0, run.last().1);
    }
}

/// A message that does not ask for a conversation leaves what is remembered for it as it was.
pub proof fn law_other_messages_keep_the_affinity(
    pool: Pool,
    config: Config,
    message: CookieActorMessage,
    readings: Readings,
    hash: u64,
)
    requires
        hash_asked(message) != Some(hash),
    ensures
        ({
            let before = pool.affinity.last;
            let after = pool.step(config, message, readings).pool.affinity.last;
            &&& after.contains_key(hash) <==> before.contains_key(hash)
            &&& after[hash] == before[hash]
        }),
{
}

/// No message of the run asks for the conversation.
pub open spec fn asks_for_others(
    run: Seq<(CookieActorMessage, Readings)>,
    hash: u64,
) -> bool {
    forall|i: int| 0 <= i < run.len() ==> hash_asked(#[trigger] run[i].0) != Some(hash)
}

/// A run that does not ask for a conversation leaves what is remembered for it as it was.
pub proof fn law_other_runs_keep_the_affinity(
    pool: Pool,
    config: Config,
    run: Seq<(CookieActorMessage, Readings)>,
    hash: u64,
)
    requires
        asks_for_others(run, hash),
    ensures
        ({
            let before = pool.affinity.last;
            let after = after_run(pool, config, run).0.affinity.last;
            &&& after.contains_key(hash) <==> before.contains_key(hash)
            &&& after[hash] == before[hash]
        }),
    decreases run.len(),
{
    if run.len() > 0 {
        let front = run.drop_last();
        assert forall|i: int| 0 <= i < front.len() implies hash_asked(#[trigger] front[i].0)
            != Some(hash) by {
            assert(front[i] == run[i]);
        }
        law_other_runs_keep_the_affinity(pool, config, front, hash);
        let (before, known) = after_run(pool, config, front);
        assert(run.last() == run[run.len() - 1]);
        law_other_messages_keep_the_affinity(before, known, run.last().0, run.last().1, hash);
    }
}

/// The step answers a request with the cookie `key`.
pub open spec fn gives(step: Step, key: Seq<char>) -> bool {
    step.reply matches Told::Cookie(answer) && answer is Ok && answer->Ok_0.cookie@ == key
}

/// A conversation stays with its cookie over any run of messages that do not ask for it: once a
/// request was given a cookie, the cache can remember no other for the conversation, and if it
/// still remembers that one, and the cookie can be handed out and can take one more request, then
/// the next request of the conversation is given the same cookie.
pub proof fn law_conversation_keeps_cookie_over_a_run(
    pool: Pool,
    config: Config,
    hash: u64,
    first: Readings,
    key: Seq<char>,
    run: Seq<(CookieActorMessage, Readings)>,
    second: Readings,
)
    requires
        gives(pool.step(config, CookieActorMessage::Request(Some(hash)), first), key),
        asks_for_others(run, hash),
        ({
            let step = pool.step(config, CookieActorMessage::Request(Some(hash)), first);
            let (later, known) = after_run(step.pool, step.config, run);
            later.affinity.may_answer(Some(hash), second.cached)
        }),
    ensures
        second.cached is None || second.cached == Some(key),
        ({
            let step = pool.step(config, CookieActorMessage::Request(Some(hash)), first);
            let (later, known) = after_run(step.pool, step.config, run);
            let ready = later.after_reset(second.reset_at);
            second.cached is Some && holds(ready.valid, key) && count_of(later.in_use, key)
                < known.limit() ==> gives(
                later.step(known, CookieActorMessage::Request(Some(hash)), second),
                key,
            )
        }),
{
    let step = pool.step(config, CookieActorMessage::Request(Some(hash)), first);
    let (later, known) = after_run(step.pool, step.config, run);
    let start = pool.after_reset(first.reset_at);
    if start.affinity_hit(Some(hash), first.cached, config.limit()) {
        lemma_has_first(start.valid, first.cached->0);
    }
    assert(step.pool.affinity.last.contains_key(hash));
    assert(step.pool.affinity.last[hash] == key);
    law_other_runs_keep_the_affinity(step.pool, step.config, run, hash);
    let ready = later.after_reset(second.reset_at);
    if second.cached is Some && holds(ready.valid, key) && count_of(later.in_use, key)
        < known.limit() {
        law_remembered_cookie_is_given(ready, hash, key, known.limit());
    }
}

/// The message ends a use of the cookie `key`.
pub open spec fn releases(message: CookieActorMessage, key: Seq<char>) -> bool {
    match message {
        CookieActorMessage::Return(status, reason) => reason is Some && status.cookie@ == key,
        CookieActorMessage::ReleaseSlot(cookie) => cookie@ == key,
        _ => false,
    }
}

/// How many requests of the run are given the cookie `key`.
pub open spec fn times_given(
    pool: Pool,
    config: Config,
    run: Seq<(CookieActorMessage, Readings)>,
    key: Seq<char>,
) -> nat
    decreases run.len(),
{
    if run.len() == 0 {
        0
    } else {
        let front = run.drop_last();
        let (before, known) = after_run(pool, config, front);
        let step = before.step(known, run.last().0, run.last().1);
        times_given(pool, config, front, key) + if gives(step, key) {
            1nat
        } else {
            0nat
        }
    }
}

/// How many messages of the run end a use of the cookie `key`.
pub open spec fn times_released(
    run: Seq<(CookieActorMessage, Readings)>,
    key: Seq<char>,
) -> nat
    decreases run.len(),
{
    if run.len() == 0 {
        0
    } else {
        times_released(run.drop_last(), key) + if releases(run.last().0, key) {
            1nat
        } else {
            0nat
        }
    }
}

/// A message counts one more use of a cookie where it gives the cookie out, one less where it
/// ends a use and there is one to end, and none otherwise.
pub proof fn law_what_a_message_counts(
    pool: Pool,
    config: Config,
    message: CookieActorMessage,
    readings: Readings,
    key: Seq<char>,
)
    ensures
        ({
            let step = pool.step(config, message, readings);
            let before = count_of(pool.in_use, key) as int;
            count_of(step.pool.in_use, key) == if gives(step, key) {
                before + 1
            } else if releases(message, key) && before > 0 {
                before - 1
            } else {
                before
            }
        }),
{
    match message {
        CookieActorMessage::Request(hash) => {
            let ready = pool.after_reset(readings.reset_at);
            law_dispatch_respects_limit(ready, hash, readings.cached, config.limit());
            let after = ready.dispatch(hash, readings.cached, config.limit()).pool;
            let _ = count_of(after.in_use, key);
        },
        CookieActorMessage::Return(status, reason) => {
            law_only_a_reason_releases(pool, config, status, reason);
            law_release_takes_one(pool, status.cookie@);
            let _ = count_of(pool.released(status.cookie@).in_use, key);
        },
        CookieActorMessage::ReleaseSlot(cookie) => {
            law_release_takes_one(pool, cookie@);
            let _ = count_of(pool.released(cookie@).in_use, key);
        },
        _ => {
            law_other_messages_keep_the_counts(pool, config, message, readings);
        },
    }
}

/// No part of the run, from its start on, ends more uses of the cookie `key` than were under way
/// at the start or begun in that part.
pub open spec fn releases_what_was_given(
    pool: Pool,
    config: Config,
    run: Seq<(CookieActorMessage, Readings)>,
    key: Seq<char>,
) -> bool {
    forall|n: int|
        0 <= n <= run.len() ==> times_released(#[trigger] run.take(n), key) <= count_of(
            pool.in_use,
            key,
        ) + times_given(pool, config, run.take(n), key)
}

/// Over any run, a cookie's count is the uses that were under way at the start, and one for each
/// request that was given the cookie, less one for each release, as long as every release is for
/// a use begun before. Where some release is not, the count is no lower than that, and never
/// higher than without any release.
pub proof fn law_counts_are_the_uses_under_way(
    pool: Pool,
    config: Config,
    run: Seq<(CookieActorMessage, Readings)>,
    key: Seq<char>,
)
    ensures
        ({
            let begun = count_of(pool.in_use, key) + times_given(pool, config, run, key);
            let count = count_of(after_run(pool, config, run).0.in_use, key);
            &&& releases_what_was_given(pool, config, run, key) ==> count == begun
                - times_released(run, key)
            &&& begun - times_released(run, key) <= count <= begun
        }),
    decreases run.len(),
{
    if run.len() > 0 {
        let front = run.drop_last();
        law_counts_are_the_uses_under_way(pool, config, front, key);
        let (before, known) = after_run(pool, config, front);
        law_what_a_message_counts(before, known, run.last().0, run.last().1, key);
        if releases_what_was_given(pool, config, run, key) {
            assert forall|n: int| 0 <= n <= front.len() implies times_released(
                #[trigger] front.take(n),
                key,
            ) <= count_of(pool.in_use, key) + times_given(pool, config, front.take(n), key) by {
                assert(front.take(n) =~= run.take(n));
            }
            assert(run.take(run.len() as int) =~= run);
        }
    }
}

/// From the start of a pool on, where every release is for a use begun before, a cookie's count
/// is the number of requests that were given it less the number of its releases.
pub proof fn law_counts_from_the_start(
    config: Config,
    run: Seq<(CookieActorMessage, Readings)>,
    key: Seq<char>,
)
    requires
        releases_what_was_given(Pool::starting_from(config), config, run, key),
    ensures
        count_of(after_run(Pool::starting_from(config), config, run).0.in_use, key) == times_given(
            Pool::starting_from(config),
            config,
            run,
            key,
        ) - times_released(run, key),
{
    law_counts_are_the_uses_under_way(Pool::starting_from(config), config, run, key);
}

/// The cookie `key` is at rest until `until`.
pub open spec fn rests_until(pool: Pool, key: Seq<char>, until: i64) -> bool {
    exists|i: int|
        0 <= i < pool.exhausted.len() && #[trigger] pool.exhausted[i].key() == key
            && pool.exhausted[i].reset_time == Some(until)
}

/// The message deletes the cookie `key`.
pub open spec fn deletes(message: CookieActorMessage, key: Seq<char>) -> bool {
    message matches CookieActorMessage::Delete(status) && status.cookie@ == key
}

/// Up to the time until which a cookie rests, putting rested cookies back leaves it at rest.
proof fn lemma_reset_keeps_rest(pool: Pool, key: Seq<char>, until: i64, now: i64)
    requires
        rests_until(pool, key, until),
        now <= until,
    ensures
        rests_until(pool.after_reset(now), key, until),
{
    let i = choose|i: int|
        0 <= i < pool.exhausted.len() && #[trigger] pool.exhausted[i].key() == key
            && pool.exhausted[i].reset_time == Some(until);
    let resting = pool.exhausted.filter(is_resting(now));
    pool.exhausted.lemma_filter_contains(is_resting(now), i);
    let j = choose|j: int| 0 <= j < resting.len() && resting[j] == pool.exhausted[i];
    assert(pool.after_reset(now).exhausted[j].key() == key);
}

/// A cookie at rest stays at rest through any message that neither comes after its time nor
/// deletes it, and is not given to a request.
proof fn lemma_message_keeps_rest(
    pool: Pool,
    config: Config,
    message: CookieActorMessage,
    readings: Readings,
    key: Seq<char>,
    until: i64,
)
    requires
        pool.sound(config),
        rests_until(pool, key, until),
        readings.reset_at <= until,
        !deletes(message, key),
    ensures
        rests_until(pool.step(config, message, readings).pool, key, until),
        !gives(pool.step(config, message, readings), key),
{
    let after = pool.step(config, message, readings).pool;
    let i = choose|i: int|
        0 <= i < pool.exhausted.len() && #[trigger] pool.exhausted[i].key() == key
            && pool.exhausted[i].reset_time == Some(until);
    match message {
        CookieActorMessage::CheckReset => {
            let refreshed = pool.rolled(readings.refreshed_at);
            assert(refreshed.exhausted[i].key() == key);
            lemma_reset_keeps_rest(refreshed, key, until, readings.reset_at);
        },
        CookieActorMessage::Request(hash) => {
            let ready = pool.after_reset(readings.reset_at);
            lemma_reset_keeps_rest(pool, key, until, readings.reset_at);
            lemma_reset_keeps_sound(pool, config, readings.reset_at);
            assert(holds(ready.exhausted, key));
            law_dispatch_answers_from_the_pool(ready, hash, readings.cached, config.limit());
            if gives(pool.step(config, message, readings), key) {
                let answer = ready.dispatch(hash, readings.cached, config.limit()).answer;
                let j = choose|j: int| 0 <= j < ready.valid.len() && ready.valid[j] == answer->Ok_0;
                assert(ready.valid[j].key() == key);
                assert(holds(ready.valid, key));
            }
        },
        CookieActorMessage::Delete(status) => {
            if pool.contains(status.cookie@) {
                let p = not_about::<CookieStatus>(status.cookie@);
                assert(p(pool.exhausted[i]));
                pool.exhausted.lemma_filter_contains(p, i);
                let j = choose|j: int|
                    0 <= j < after.exhausted.len() && after.exhausted[j] == pool.exhausted[i];
                assert(after.exhausted[j].key() == key);
            } else {
                assert(after.exhausted[i].key() == key);
            }
        },
        CookieActorMessage::Update1mSupport(status) => {
            if holds(pool.exhausted, status.cookie@) {
                lemma_has_first(pool.exhausted, status.cookie@);
            }
            assert(after.exhausted[i].key() == key);
        },
        _ => {
            assert(after.exhausted[i].key() == key);
        },
    }
}

/// A cookie at rest is given to no request of any run that does not go past its time and does not
/// delete it, and is still at rest after the run.
pub proof fn law_cookie_rests_over_a_run(
    pool: Pool,
    config: Config,
    run: Seq<(CookieActorMessage, Readings)>,
    key: Seq<char>,
    until: i64,
)
    requires
        pool.sound(config),
        rests_until(pool, key, until),
        forall|i: int| 0 <= i < run.len() ==> (#[trigger] run[i]).1.reset_at <= until,
        forall|i: int| 0 <= i < run.len() ==> !deletes((#[trigger] run[i]).0, key),
    ensures
        times_given(pool, config, run, key) == 0,
        rests_until(after_run(pool, config, run).0, key, until),
        after_run(pool, config, run).0.sound(after_run(pool, config, run).1),
    decreases run.len(),
{
    if run.len() > 0 {
        let front = run.drop_last();
        assert forall|i: int| 0 <= i < front.len() implies (#[trigger] front[i]).1.reset_at <= until
            && !deletes(front[i].0, key) by {
            assert(front[i] == run[i]);
        }
        law_cookie_rests_over_a_run(pool, config, front, key, until);
        let (before, known) = after_run(pool, config, front);
        assert(run.last() == run[run.len() - 1]);
        lemma_message_keeps_rest(before, known, run.last().0, run.last().1, key, until);
        law_every_message_keeps_the_pool_sound(before, known, run.last().0, run.last().1);
    }
}

/// A cookie that comes back because of a limit, and was not at rest already, is given to no
/// request of any run after that which does not go past its time and does not delete it.
pub proof fn law_limited_cookie_rests_over_a_run(
    pool: Pool,
    config: Config,
    status: CookieStatus,
    reason: Reason,
    until: i64,
    run: Seq<(CookieActorMessage, Readings)>,
)
    requires
        pool.sound(config),
        reason == Reason::TooManyRequest(until) || reason == Reason::Restricted(until),
        !holds(pool.exhausted, status.cookie@),
        forall|i: int| 0 <= i < run.len() ==> (#[trigger] run[i]).1.reset_at <= until,
        forall|i: int| 0 <= i < run.len() ==> !deletes((#[trigger] run[i]).0, status.cookie@),
    ensures
        ({
            let back = pool.collect(config, status, Some(reason));
            times_given(back.pool, back.config, run, status.cookie@) == 0
        }),
{
    let back = pool.collect(config, status, Some(reason));
    lemma_collect_keeps_sound(pool, config, status, Some(reason));
    assert(back.pool.exhausted == pool.exhausted.push(status.cooling(until)));
    assert(back.pool.exhausted[pool.exhausted.len() as int].key() == status.cookie@);
    law_cookie_rests_over_a_run(back.pool, back.config, run, status.cookie@, until);
}

/// A cookie at rest, in whatever pool, can be handed out again once its time has passed and the
/// rested cookies are put back.
pub proof fn law_rested_cookie_comes_back(pool: Pool, key: Seq<char>, until: i64, now: i64)
    requires
        rests_until(pool, key, until),
        until < now,
    ensures
        holds(pool.after_reset(now).valid, key),
{
    let i = choose|i: int|
        0 <= i < pool.exhausted.len() && #[trigger] pool.exhausted[i].key() == key
            && pool.exhausted[i].reset_time == Some(until);
    let back = pool.exhausted.filter(is_rested(now));
    assert(is_rested(now)(pool.exhausted[i]));
    lemma_filter_holds(pool.exhausted, is_rested(now), key);
    lemma_same_keys(back, all_after_reset(back, now));
    assert(holds(back, key) <==> holds(all_after_reset(back, now), key));
    lemma_add_holds(pool.valid, all_after_reset(back, now), key);
}

/// The cookie `key` can neither be handed out nor is it at rest.
pub open spec fn is_out(pool: Pool, key: Seq<char>) -> bool {
    !holds(pool.valid, key) && !holds(pool.exhausted, key)
}

/// The message brings the cookie `key` back because of a limit.
pub open spec fn limits(message: CookieActorMessage, key: Seq<char>) -> bool {
    message matches CookieActorMessage::Return(status, reason) && status.cookie@ == key
        && reason is Some && (reason->0 is TooManyRequest || reason->0 is Restricted)
}

/// The message submits the cookie `key`.
pub open spec fn submits(message: CookieActorMessage, key: Seq<char>) -> bool {
    message matches CookieActorMessage::Submit(status) && status.cookie@ == key
}

/// A cookie that is out stays out, and is not given to a request, unless the message submits it
/// while the configuration does not know it, or brings it back because of a limit.
proof fn lemma_message_keeps_out(
    pool: Pool,
    config: Config,
    message: CookieActorMessage,
    readings: Readings,
    key: Seq<char>,
)
    requires
        is_out(pool, key),
        !limits(message, key),
        !submits(message, key) || config.knows(key),
    ensures
        is_out(pool.step(config, message, readings).pool, key),
        !gives(pool.step(config, message, readings), key),
{
    match message {
        CookieActorMessage::Return(status, reason) => {
            lemma_without_holds(pool.valid, status.cookie@, key);
            if holds(pool.valid, status.cookie@) {
                lemma_has_first(pool.valid, status.cookie@);
                let i = first_index(pool.valid, status.cookie@);
                lemma_update_same_key(pool.valid, i, status);
                assert(holds(pool.valid, key) <==> holds(pool.valid.update(i, status), key));
            }
            match reason {
                Some(Reason::TooManyRequest(until)) => {
                    lemma_push_holds(pool.exhausted, status.cooling(until), key);
                },
                Some(Reason::Restricted(until)) => {
                    lemma_push_holds(pool.exhausted, status.cooling(until), key);
                },
                _ => {},
            }
        },
        CookieActorMessage::Submit(status) => {
            lemma_push_holds(pool.valid, status, key);
        },
        CookieActorMessage::CheckReset => {
            let refreshed = pool.rolled(readings.refreshed_at);
            law_refresh_conserves_cookies(pool, readings.refreshed_at);
            assert(holds(pool.valid, key) <==> holds(refreshed.valid, key));
            assert(holds(pool.exhausted, key) <==> holds(refreshed.exhausted, key));
            law_reset_conserves_cookies(refreshed, readings.reset_at, key);
        },
        CookieActorMessage::Request(hash) => {
            let ready = pool.after_reset(readings.reset_at);
            let limit = config.limit();
            law_reset_conserves_cookies(pool, readings.reset_at, key);
            law_dispatch_answers_from_the_pool(ready, hash, readings.cached, limit);
            let dispatch = ready.dispatch(hash, readings.cached, limit);
            if !ready.affinity_hit(hash, readings.cached, limit) && ready.valid.len() > 0
                && ready.any_free(limit) {
                lemma_first_free(ready, limit);
                lemma_rotate(ready.valid, ready.first_free(limit));
            }
            assert(holds(ready.valid, key) <==> holds(dispatch.pool.valid, key));
            if gives(pool.step(config, message, readings), key) {
                let j = choose|j: int|
                    0 <= j < ready.valid.len() && ready.valid[j] == dispatch.answer->Ok_0;
                assert(ready.valid[j].key() == key);
            }
        },
        CookieActorMessage::GetStatus => {
            let refreshed = pool.rolled(readings.refreshed_at);
            law_refresh_conserves_cookies(pool, readings.refreshed_at);
            assert(holds(pool.valid, key) <==> holds(refreshed.valid, key));
            assert(holds(pool.exhausted, key) <==> holds(refreshed.exhausted, key));
        },
        CookieActorMessage::Delete(status) => {
            lemma_without_holds(pool.valid, status.cookie@, key);
            lemma_without_holds(pool.exhausted, status.cookie@, key);
        },
        CookieActorMessage::Update1mSupport(status) => {
            if holds(pool.valid, status.cookie@) {
                lemma_has_first(pool.valid, status.cookie@);
                let i = first_index(pool.valid, status.cookie@);
                let noted = pool.valid[i].with_1m_of(status);
                lemma_update_same_key(pool.valid, i, noted);
                assert(holds(pool.valid, key) <==> holds(pool.valid.update(i, noted), key));
            } else if holds(pool.exhausted, status.cookie@) {
                lemma_has_first(pool.exhausted, status.cookie@);
                let i = first_index(pool.exhausted, status.cookie@);
                let noted = pool.exhausted[i].with_1m_of(status);
                lemma_update_same_key(pool.exhausted, i, noted);
                assert(holds(pool.exhausted, key) <==> holds(
                    pool.exhausted.update(i, noted),
                    key,
                ));
            }
        },
        CookieActorMessage::ReleaseSlot(_) => {},
    }
}

/// A cookie that is out, for instance because it was deleted, is given to no request of any run
/// that neither submits it nor brings it back because of a limit.
pub proof fn law_cookie_stays_out_over_a_run(
    pool: Pool,
    config: Config,
    run: Seq<(CookieActorMessage, Readings)>,
    key: Seq<char>,
)
    requires
        is_out(pool, key),
        forall|i: int| 0 <= i < run.len() ==> !submits((#[trigger] run[i]).0, key),
        forall|i: int| 0 <= i < run.len() ==> !limits((#[trigger] run[i]).0, key),
    ensures
        times_given(pool, config, run, key) == 0,
        is_out(after_run(pool, config, run).0, key),
    decreases run.len(),
{
    if run.len() > 0 {
        let front = run.drop_last();
        assert forall|i: int| 0 <= i < front.len() implies !submits((#[trigger] front[i]).0, key)
            && !limits(front[i].0, key) by {
            assert(front[i] == run[i]);
        }
        law_cookie_stays_out_over_a_run(pool, config, front, key);
        let (before, known) = after_run(pool, config, front);
        assert(run.last() == run[run.len() - 1]);
        lemma_message_keeps_out(before, known, run.last().0, run.last().1, key);
    }
}

/// A message that does not delete a cookie leaves it given up.
proof fn lemma_message_keeps_given_up(
    pool: Pool,
    config: Config,
    message: CookieActorMessage,
    readings: Readings,
    key: Seq<char>,
)
    requires
        holds(pool.invalid, key),
        !deletes(message, key),
    ensures
        holds(pool.step(config, message, readings).pool.invalid, key),
{
    match message {
        CookieActorMessage::Return(status, Some(why)) => {
            let useless = UselessCookie { cookie: status.cookie, reason: why };
            lemma_push_holds(pool.invalid, useless, key);
        },
        CookieActorMessage::Delete(status) => {
            lemma_without_holds(pool.invalid, status.cookie@, key);
        },
        _ => {},
    }
}

/// A cookie that was given up, and does not rest, is given to no request of any run that neither
/// deletes it nor brings it back because of a limit, though it be submitted again.
pub proof fn law_cookie_stays_given_up_over_a_run(
    pool: Pool,
    config: Config,
    run: Seq<(CookieActorMessage, Readings)>,
    key: Seq<char>,
)
    requires
        pool.sound(config),
        is_out(pool, key),
        holds(pool.invalid, key),
        forall|i: int| 0 <= i < run.len() ==> !deletes((#[trigger] run[i]).0, key),
        forall|i: int| 0 <= i < run.len() ==> !limits((#[trigger] run[i]).0, key),
    ensures
        times_given(pool, config, run, key) == 0,
        is_out(after_run(pool, config, run).0, key),
        holds(after_run(pool, config, run).0.invalid, key),
        after_run(pool, config, run).0.sound(after_run(pool, config, run).1),
    decreases run.len(),
{
    if run.len() > 0 {
        let front = run.drop_last();
        assert forall|i: int| 0 <= i < front.len() implies !deletes((#[trigger] front[i]).0, key)
            && !limits(front[i].0, key) by {
            assert(front[i] == run[i]);
        }
        law_cookie_stays_given_up_over_a_run(pool, config, front, key);
        let (before, known) = after_run(pool, config, front);
        assert(run.last() == run[run.len() - 1]);
        assert(before.contains(key));
        lemma_message_keeps_out(before, known, run.last().0, run.last().1, key);
        lemma_message_keeps_given_up(before, known, run.last().0, run.last().1, key);
        law_every_message_keeps_the_pool_sound(before, known, run.last().0, run.last().1);
    }
}

/// A cookie that is in the pool, in whatever state, is not taken in again.
pub proof fn law_cookie_of_the_pool_is_refused(pool: Pool, config: Config, status: CookieStatus)
    requires
        pool.known_to(config),
        pool.contains(status.cookie@),
    ensures
        pool.accept(config, status) == pool.kept(config),
{
}

/// Whatever message comes, no cookie is used by more requests than the limit allows, if none was.
pub proof fn law_every_message_keeps_the_limit(
    pool: Pool,
    config: Config,
    message: CookieActorMessage,
    readings: Readings,
)
    requires
        pool.within(config.limit()),
    ensures
        pool.step(config, message, readings).pool.within(config.limit()),
        pool.step(config, message, readings).config.limit() == config.limit(),
{
    let limit = config.limit();
    let after = pool.step(config, message, readings).pool;
    assert forall|key: Seq<char>| #[trigger] count_of(after.in_use, key) <= limit by {
        assert(count_of(pool.in_use, key) <= limit);
        if let CookieActorMessage::Request(hash) = message {
            let ready = pool.after_reset(readings.reset_at);
            assert(ready.in_use == pool.in_use);
            law_dispatch_respects_limit(ready, hash, readings.cached, limit);
        }
    }
}

/// Only a request for a cookie, a return with a reason and a release change who uses what.
pub proof fn law_other_messages_keep_the_counts(
    pool: Pool,
    config: Config,
    message: CookieActorMessage,
    readings: Readings,
)
    requires
        !(message is Request),
        !(message is ReleaseSlot),
        message matches CookieActorMessage::Return(status, reason) ==> reason is None,
    ensures
        pool.step(config, message, readings).pool.in_use == pool.in_use,
{
}

/// A message that saves nothing leaves the configuration as it was; one that saves leaves the
/// settings as they were, and the configuration then knows exactly the cookies of the pool.
pub proof fn law_configuration_follows_the_pool(
    pool: Pool,
    config: Config,
    message: CookieActorMessage,
    readings: Readings,
    key: Seq<char>,
)
    ensures
        ({
            let step = pool.step(config, message, readings);
            &&& !step.saved ==> step.config == config
            &&& step.saved ==> step.config.max_concurrent_per_cookie
                == config.max_concurrent_per_cookie && step.config.cookie_wait_timeout
                == config.cookie_wait_timeout
            &&& step.saved ==> (step.config.knows(key) <==> step.pool.contains(key))
        }),
{
    let step = pool.step(config, message, readings);
    lemma_add_holds(step.pool.valid, step.pool.exhausted, key);
    if message is CheckReset {
        let refreshed = pool.refresh(config, readings.refreshed_at).pool;
        lemma_add_holds(refreshed.valid, refreshed.exhausted, key);
        law_reset_conserves_cookies(refreshed, readings.reset_at, key);
    }
}

// ----- Saving and starting again -----

/// Whatever the pool holds when it is saved, a pool started from there holds the same cookies.
pub proof fn law_restart_keeps_every_cookie(pool: Pool, config: Config, key: Seq<char>)
    ensures
        ({
            let again = Pool::starting_from(config.saving(pool));
            &&& holds(again.valid, key) || holds(again.exhausted, key) <==> holds(pool.valid, key)
                || holds(pool.exhausted, key)
            &&& holds(again.invalid, key) <==> holds(pool.invalid, key)
        }),
{
    let saved = pool.valid + pool.exhausted;
    lemma_start_holds(config.saving(pool), key);
    lemma_keep_first(pool.invalid, key);
    lemma_add_holds(pool.valid, pool.exhausted, key);
    if holds(saved, key) {
        let i = choose|i: int| 0 <= i < saved.len() && #[trigger] saved[i].key() == key;
        assert(is_ready()(saved[i]) || is_cooling()(saved[i]));
    }
}

/// A pool whose handed-out cookies need no rest, whose resting cookies do, and of which it is
/// known which support long contexts, comes back from being saved with every record and every
/// place as it was, and with nobody using it.
pub proof fn law_restart_restores_the_pool(pool: Pool, config: Config)
    requires
        pool.wf(),
        forall|i: int| 0 <= i < pool.valid.len() ==> #[trigger] pool.valid[i].reset_time is None,
        forall|i: int|
            0 <= i < pool.exhausted.len() ==> #[trigger] pool.exhausted[i].reset_time is Some,
        forall|i: int|
            0 <= i < pool.valid.len() ==> #[trigger] pool.valid[i].with_1m_defaults()
                == pool.valid[i],
        forall|i: int|
            0 <= i < pool.exhausted.len() ==> #[trigger] pool.exhausted[i].with_1m_defaults()
                == pool.exhausted[i],
    ensures
        ({
            let again = Pool::starting_from(config.saving(pool));
            &&& again.valid == pool.valid
            &&& again.exhausted == pool.exhausted
            &&& again.invalid == pool.invalid
            &&& again.in_use == Map::<Seq<char>, nat>::empty()
        }),
{
    let again = Pool::starting_from(config.saving(pool));
    lemma_filter_settled(pool.valid, is_ready(), is_cooling());
    lemma_filter_settled(pool.exhausted, is_cooling(), is_ready());
    Seq::filter_distributes_over_add(pool.valid, pool.exhausted, is_ready());
    Seq::filter_distributes_over_add(pool.valid, pool.exhausted, is_cooling());
    assert(pool.valid + Seq::<CookieStatus>::empty() =~= pool.valid);
    assert(Seq::<CookieStatus>::empty() + pool.exhausted =~= pool.exhausted);
    assert(again.valid =~= pool.valid);
    assert(all_with_1m_defaults(pool.exhausted) =~= pool.exhausted);
    lemma_keep_first_distinct(pool.exhausted);
    lemma_keep_first_distinct(pool.invalid);
}

} // verus!

use cookie_actor::actor::{CookieActor, CookieActorState};
use cookie_actor::config::ClewdrConfig;
use cookie_actor::cookie::{
    ClewdrCookie, CookieStatus, Reason, UsageBreakdown, UselessCookie, SESSION_WINDOW_SECS,
    WEEKLY_WINDOW_SECS,
};
use cookie_actor::error::ClewdrError;
use cookie_actor::message::{CookieActorMessage, CookieStatusInfo, Outcome, Reply};

fn cookie(text: &str) -> ClewdrCookie {
    ClewdrCookie::new(text.to_string())
}

fn status(text: &str, reset_time: Option<i64>) -> CookieStatus {
    CookieStatus::new(cookie(text), reset_time)
}

fn spent(input: u64) -> UsageBreakdown {
    UsageBreakdown {
        total_input_tokens: input,
        total_output_tokens: 2,
        sonnet_input_tokens: 3,
        sonnet_output_tokens: 4,
        opus_input_tokens: 5,
        opus_output_tokens: 6,
    }
}

fn config(cookies: Vec<CookieStatus>, limit: usize) -> ClewdrConfig {
    ClewdrConfig {
        cookie_array: cookies,
        wasted_cookie: Vec::new(),
        max_concurrent_per_cookie: limit,
        cookie_wait_timeout: 30,
    }
}

fn abc(limit: usize) -> (CookieActorState, ClewdrConfig) {
    let config = config(vec![status("a", None), status("b", None), status("c", None)], limit);
    (CookieActor::pre_start(&config), config)
}

fn texts(items: &[CookieStatus]) -> Vec<String> {
    items.iter().map(|item| item.cookie.to_string()).collect()
}

fn wasted(items: &[UselessCookie]) -> Vec<String> {
    items.iter().map(|item| item.cookie.to_string()).collect()
}

fn valid(state: &CookieActorState) -> Vec<String> {
    texts(&CookieActor::report(state).valid)
}

fn exhausted(state: &CookieActorState) -> Vec<String> {
    texts(&CookieActor::report(state).exhausted)
}

fn invalid(state: &CookieActorState) -> Vec<String> {
    wasted(&CookieActor::report(state).invalid)
}

fn in_use(state: &CookieActorState, text: &str) -> usize {
    CookieActor::report(state)
        .in_use_counts
        .iter()
        .find(|pair| pair.0 == text)
        .map_or(0, |pair| pair.1)
}

fn given(answer: Result<CookieStatus, ClewdrError>) -> String {
    answer.unwrap().cookie.to_string()
}

fn next(state: &mut CookieActorState, limit: usize) -> Result<CookieStatus, ClewdrError> {
    CookieActor::dispatch_with(state, None, None, limit)
}

fn info(outcome: Outcome) -> CookieStatusInfo {
    match outcome.reply {
        Reply::Status(info) => info,
        other => panic!("not a status: {:?}", other),
    }
}

#[test]
fn start_splits_by_reset_time() {
    let mut saved = config(
        vec![status("a", None), status("b", Some(9)), status("c", None), status("b", Some(11))],
        1,
    );
    saved.wasted_cookie = vec![
        UselessCookie::new(cookie("x"), Reason::Free),
        UselessCookie::new(cookie("x"), Reason::Banned),
    ];
    let state = CookieActor::pre_start(&saved);
    let report = CookieActor::report(&state);
    assert_eq!(texts(&report.valid), ["a", "c"]);
    assert_eq!(texts(&report.exhausted), ["b"]);
    assert_eq!(report.exhausted[0].reset_time, Some(9));
    assert_eq!(wasted(&report.invalid), ["x"]);
    assert_eq!(report.invalid[0].reason, Reason::Free);
    assert!(report.in_use_counts.is_empty());
    assert_eq!(state.counts(), (2, 1, 1));
}

#[test]
fn start_takes_long_contexts_for_granted() {
    let mut known = status("a", None);
    known.supports_claude_1m_sonnet = Some(false);
    let state = CookieActor::pre_start(&config(vec![known, status("b", Some(1))], 1));
    let report = CookieActor::report(&state);
    assert_eq!(report.valid[0].supports_claude_1m_sonnet, Some(false));
    assert_eq!(report.valid[0].supports_claude_1m_opus, Some(true));
    assert_eq!(report.exhausted[0].supports_claude_1m_sonnet, Some(true));
    assert_eq!(report.exhausted[0].supports_claude_1m_opus, Some(true));
}

#[test]
fn cookies_take_turns() {
    let (mut state, _) = abc(2);
    assert_eq!(given(next(&mut state, 2)), "a");
    assert_eq!(valid(&state), ["b", "c", "a"]);
    assert_eq!(given(next(&mut state, 2)), "b");
    assert_eq!(given(next(&mut state, 2)), "c");
    assert_eq!(valid(&state), ["a", "b", "c"]);
    assert_eq!(in_use(&state, "a"), 1);
    assert_eq!(in_use(&state, "b"), 1);
    assert_eq!(in_use(&state, "c"), 1);
}

#[test]
fn limit_is_respected_and_busy_pool_refuses() {
    let (mut state, _) = abc(1);
    assert_eq!(given(next(&mut state, 1)), "a");
    assert_eq!(given(next(&mut state, 1)), "b");
    assert_eq!(given(next(&mut state, 1)), "c");
    assert!(matches!(next(&mut state, 1), Err(ClewdrError::AllCookiesBusy)));
    assert_eq!(valid(&state), ["a", "b", "c"]);
    CookieActor::release_cookie(&mut state, &status("b", None));
    assert_eq!(given(next(&mut state, 1)), "b");
    assert_eq!(valid(&state), ["a", "c", "b"]);
}

#[test]
fn single_cookie_stays_in_place() {
    let mut state = CookieActor::pre_start(&config(vec![status("a", None)], 5));
    assert_eq!(given(next(&mut state, 5)), "a");
    assert_eq!(given(next(&mut state, 5)), "a");
    assert_eq!(valid(&state), ["a"]);
    assert_eq!(in_use(&state, "a"), 2);
}

#[test]
fn empty_pool_refuses_at_once() {
    let mut state = CookieActor::pre_start(&config(vec![status("a", Some(i64::MAX))], 1));
    assert!(matches!(next(&mut state, 1), Err(ClewdrError::NoCookieAvailable)));
}

#[test]
fn limit_of_nought_counts_as_one() {
    let (mut state, config) = abc(0);
    assert_eq!(config.concurrency_limit(), 1);
    for _ in 0..3 {
        assert!(CookieActor::dispatch(&mut state, &config, None).is_ok());
    }
    assert!(matches!(
        CookieActor::dispatch(&mut state, &config, None),
        Err(ClewdrError::AllCookiesBusy)
    ));
}

#[test]
fn release_undoes_dispatch() {
    let (mut state, _) = abc(3);
    assert_eq!(given(next(&mut state, 3)), "a");
    assert_eq!(in_use(&state, "a"), 1);
    CookieActor::release_slot(&mut state, &cookie("a"));
    assert!(CookieActor::report(&state).in_use_counts.is_empty());
    CookieActor::release_slot(&mut state, &cookie("a"));
    assert!(CookieActor::report(&state).in_use_counts.is_empty());
}

#[test]
fn release_leaves_the_other_uses() {
    let mut state = CookieActor::pre_start(&config(vec![status("a", None)], 5));
    for _ in 0..3 {
        next(&mut state, 5).unwrap();
    }
    CookieActor::release_slot(&mut state, &cookie("a"));
    assert_eq!(in_use(&state, "a"), 2);
}

#[test]
fn remembered_cookie_is_preferred() {
    let (mut state, _) = abc(2);
    let answer = CookieActor::dispatch_with(&mut state, Some(7), Some(cookie("c")), 2);
    assert_eq!(given(answer), "c");
    // A hit leaves the order as it is.
    assert_eq!(valid(&state), ["a", "b", "c"]);
    // Without a hash there is no conversation to remember.
    let answer = CookieActor::dispatch_with(&mut state, None, Some(cookie("c")), 2);
    assert_eq!(given(answer), "a");
}

#[test]
fn remembered_cookie_at_the_limit_gives_way() {
    let (mut state, _) = abc(1);
    CookieActor::dispatch_with(&mut state, Some(7), Some(cookie("c")), 1).unwrap();
    let answer = CookieActor::dispatch_with(&mut state, Some(7), Some(cookie("c")), 1);
    assert_eq!(given(answer), "a");
}

#[test]
fn remembered_cookie_that_left_gives_way() {
    let (mut state, _) = abc(1);
    let answer = CookieActor::dispatch_with(&mut state, Some(7), Some(cookie("gone")), 1);
    assert_eq!(given(answer), "a");
}

#[test]
fn conversation_keeps_its_cookie() {
    let (mut state, config) = abc(3);
    assert_eq!(given(CookieActor::dispatch(&mut state, &config, Some(41))), "a");
    assert_eq!(given(CookieActor::dispatch(&mut state, &config, Some(41))), "a");
    assert_eq!(given(CookieActor::dispatch(&mut state, &config, Some(42))), "b");
    assert_eq!(given(CookieActor::dispatch(&mut state, &config, None)), "c");
    assert_eq!(given(CookieActor::dispatch(&mut state, &config, Some(42))), "b");
    // At the limit the conversation moves on, and stays with the cookie it moved to.
    assert_eq!(given(CookieActor::dispatch(&mut state, &config, Some(41))), "a");
    assert_eq!(given(CookieActor::dispatch(&mut state, &config, Some(41))), "b");
    assert_eq!(in_use(&state, "a"), 3);
    assert_eq!(in_use(&state, "b"), 3);
    CookieActor::release_slot(&mut state, &cookie("a"));
    CookieActor::release_slot(&mut state, &cookie("b"));
    assert_eq!(given(CookieActor::dispatch(&mut state, &config, Some(41))), "b");
}

#[test]
fn conversation_keeps_its_cookie_over_other_messages() {
    let (mut state, mut config) = abc(5);
    let request = CookieActorMessage::Request(Some(41));
    match CookieActor::handle(&mut state, &mut config, request).reply {
        Reply::Cookie(answer) => assert_eq!(given(answer), "a"),
        other => panic!("not a cookie: {:?}", other),
    }
    for message in [
        CookieActorMessage::Request(Some(42)),
        CookieActorMessage::Submit(status("d", None)),
        CookieActorMessage::Return(status("b", None), Some(Reason::Free)),
        CookieActorMessage::Request(None),
        CookieActorMessage::Delete(status("c", None)),
        CookieActorMessage::CheckReset,
        CookieActorMessage::ReleaseSlot(cookie("a")),
    ] {
        CookieActor::handle(&mut state, &mut config, message);
    }
    assert_eq!(valid(&state), ["a", "d"]);
    let request = CookieActorMessage::Request(None);
    CookieActor::handle(&mut state, &mut config, request);
    // It is another cookie's turn now.
    assert_eq!(valid(&state), ["d", "a"]);
    let request = CookieActorMessage::Request(Some(41));
    match CookieActor::handle(&mut state, &mut config, request).reply {
        Reply::Cookie(answer) => assert_eq!(given(answer), "a"),
        other => panic!("not a cookie: {:?}", other),
    }
}

fn cookies_given(
    state: &mut CookieActorState,
    config: &mut ClewdrConfig,
    messages: Vec<CookieActorMessage>,
) -> Vec<String> {
    let mut texts = Vec::new();
    for message in messages {
        let outcome = CookieActor::handle(state, config, message);
        if let Reply::Cookie(Ok(status)) = outcome.reply {
            texts.push(status.cookie.to_string());
        }
    }
    texts
}

#[test]
fn resting_cookie_is_given_to_nobody() {
    let (mut state, mut config) = abc(9);
    CookieActor::dispatch(&mut state, &config, Some(1)).unwrap();
    let reason = Some(Reason::TooManyRequest(i64::MAX));
    let given = cookies_given(
        &mut state,
        &mut config,
        vec![
            CookieActorMessage::Return(status("a", None), reason),
            CookieActorMessage::Request(Some(1)),
            CookieActorMessage::Submit(status("a", None)),
            CookieActorMessage::Return(status("a", None), None),
            CookieActorMessage::Return(status("a", None), Some(Reason::TooManyRequest(1))),
            CookieActorMessage::Return(status("a", None), Some(Reason::Free)),
            CookieActorMessage::Update1mSupport(status("a", None)),
            CookieActorMessage::CheckReset,
            CookieActorMessage::Request(None),
            CookieActorMessage::Request(None),
            CookieActorMessage::Request(None),
        ],
    );
    assert_eq!(given, ["b", "c", "b", "c"]);
    assert_eq!(exhausted(&state), ["a"]);
    assert_eq!(CookieActor::report(&state).exhausted[0].reset_time, Some(i64::MAX));
    CookieActor::reset_at(&mut state, i64::MAX);
    assert_eq!(exhausted(&state), ["a"]);
}

#[test]
fn deleted_cookie_is_given_to_nobody() {
    let (mut state, mut config) = abc(9);
    let given = cookies_given(
        &mut state,
        &mut config,
        vec![
            CookieActorMessage::Delete(status("a", None)),
            CookieActorMessage::Return(status("a", None), None),
            CookieActorMessage::Return(status("a", None), Some(Reason::NormalPro)),
            CookieActorMessage::Request(None),
            CookieActorMessage::Request(None),
            CookieActorMessage::Request(None),
        ],
    );
    assert_eq!(given, ["b", "c", "b"]);
}

#[test]
fn given_up_cookie_is_given_to_nobody() {
    let (mut state, mut config) = abc(9);
    let given = cookies_given(
        &mut state,
        &mut config,
        vec![
            CookieActorMessage::Return(status("a", None), Some(Reason::Banned)),
            CookieActorMessage::Submit(status("a", None)),
            CookieActorMessage::Request(None),
            CookieActorMessage::Request(None),
            CookieActorMessage::Request(None),
        ],
    );
    assert_eq!(given, ["b", "c", "b"]);
    assert_eq!(invalid(&state), ["a"]);
    // Once deleted it can be submitted anew.
    let given = cookies_given(
        &mut state,
        &mut config,
        vec![
            CookieActorMessage::Delete(status("a", None)),
            CookieActorMessage::Submit(status("a", None)),
            CookieActorMessage::Request(None),
            CookieActorMessage::Request(None),
            CookieActorMessage::Request(None),
        ],
    );
    assert_eq!(given, ["c", "b", "a"]);
}

#[test]
fn counts_are_the_uses_under_way() {
    let (mut state, mut config) = abc(2);
    let mut under_way = [0usize; 3];
    let names = ["a", "b", "c"];
    let mut seed: u64 = 99;
    for _ in 0..500 {
        seed = seed.wrapping_mul(6364136223846793005).wrapping_add(1442695040888963407);
        let pick = (seed >> 33) as usize;
        let i = pick % 3;
        let message = match (pick / 3) % 4 {
            0 if under_way[i] > 0 => {
                under_way[i] -= 1;
                CookieActorMessage::ReleaseSlot(cookie(names[i]))
            },
            1 if under_way[i] > 0 => {
                under_way[i] -= 1;
                let reason = Some(Reason::NormalPro);
                CookieActorMessage::Return(status(names[i], None), reason)
            },
            2 => CookieActorMessage::Return(status(names[i], None), None),
            _ => CookieActorMessage::Request(Some((pick / 12 % 4) as u64)),
        };
        let outcome = CookieActor::handle(&mut state, &mut config, message);
        if let Reply::Cookie(Ok(status)) = outcome.reply {
            let text = status.cookie.to_string();
            under_way[names.iter().position(|name| *name == text).unwrap()] += 1;
        }
        for j in 0..3 {
            assert_eq!(in_use(&state, names[j]), under_way[j]);
        }
    }
}

#[test]
fn rested_cookies_come_back() {
    let mut state = CookieActor::pre_start(&config(
        vec![status("a", None), status("b", Some(100)), status("c", Some(200))],
        1,
    ));
    CookieActor::reset_at(&mut state, 100);
    assert_eq!(valid(&state), ["a"]);
    CookieActor::reset_at(&mut state, 101);
    assert_eq!(valid(&state), ["a", "b"]);
    assert_eq!(exhausted(&state), ["c"]);
    assert_eq!(CookieActor::report(&state).valid[1].reset_time, None);
    CookieActor::reset_at(&mut state, 101);
    assert_eq!(valid(&state), ["a", "b"]);
}

#[test]
fn reset_reads_the_clock() {
    let mut state = CookieActor::pre_start(&config(
        vec![status("past", Some(1_000_000_000)), status("future", Some(i64::MAX))],
        1,
    ));
    CookieActor::reset(&mut state);
    assert_eq!(valid(&state), ["past"]);
    assert_eq!(exhausted(&state), ["future"]);
}

#[test]
fn dispatch_puts_rested_cookies_back_first() {
    let config = config(vec![status("past", Some(5))], 1);
    let mut state = CookieActor::pre_start(&config);
    let answer = CookieActor::dispatch(&mut state, &config, None).unwrap();
    assert_eq!(answer.cookie.to_string(), "past");
    assert_eq!(answer.reset_time, None);
}

#[test]
fn finished_windows_start_anew() {
    let mut a = status("a", None);
    a.session_usage = spent(10);
    a.session_has_reset = Some(true);
    a.session_resets_at = Some(1_000);
    a.weekly_usage = spent(20);
    a.weekly_has_reset = Some(true);
    a.weekly_resets_at = Some(1_001);
    a.weekly_sonnet_usage = spent(30);
    a.weekly_sonnet_has_reset = Some(false);
    a.weekly_sonnet_resets_at = Some(1);
    a.weekly_opus_usage = spent(40);
    a.weekly_opus_has_reset = Some(true);
    let mut b = status("b", Some(5_000));
    b.weekly_opus_usage = spent(50);
    b.weekly_opus_has_reset = Some(true);
    b.weekly_opus_resets_at = Some(999);
    let mut state = CookieActor::pre_start(&config(vec![a, b], 1));
    assert!(!CookieActor::refresh_usage_windows_at(&mut state, 998));
    assert!(CookieActor::refresh_usage_windows_at(&mut state, 1_000));
    let report = CookieActor::report(&state);
    let a = &report.valid[0];
    assert_eq!(a.session_usage, UsageBreakdown::default());
    assert_eq!(a.session_resets_at, Some(1_000 + 18_000));
    assert_eq!(a.weekly_usage, spent(20));
    assert_eq!(a.weekly_resets_at, Some(1_001));
    assert_eq!(a.weekly_sonnet_usage, spent(30));
    assert_eq!(a.weekly_sonnet_resets_at, Some(1));
    assert_eq!(a.weekly_opus_usage, spent(40));
    assert_eq!(a.weekly_opus_resets_at, None);
    let b = &report.exhausted[0];
    assert_eq!(b.weekly_opus_usage, UsageBreakdown::default());
    assert_eq!(b.weekly_opus_resets_at, Some(1_000 + 604_800));
    assert_eq!(b.reset_time, Some(5_000));
    assert!(!CookieActor::refresh_usage_windows_at(&mut state, 1_000));
}

#[test]
fn refresh_reads_the_clock() {
    let mut a = status("a", None);
    a.session_usage = spent(10);
    a.session_has_reset = Some(true);
    a.session_resets_at = Some(0);
    let mut state = CookieActor::pre_start(&config(vec![a], 1));
    assert!(CookieActor::refresh_usage_windows(&mut state));
    let resets_at = CookieActor::report(&state).valid[0].session_resets_at.unwrap();
    assert!(resets_at > 1_700_000_000 + SESSION_WINDOW_SECS);
    assert!(!CookieActor::refresh_usage_windows(&mut state));
}

#[test]
fn window_lengths() {
    assert_eq!(SESSION_WINDOW_SECS, 18_000);
    assert_eq!(WEEKLY_WINDOW_SECS, 604_800);
}

#[test]
fn return_without_reason_only_updates_the_record() {
    let (mut state, mut config) = abc(2);
    assert_eq!(given(next(&mut state, 2)), "a");
    let mut update = status("b", None);
    update.session_usage = spent(7);
    assert!(CookieActor::collect(&mut state, &mut config, update, None));
    let report = CookieActor::report(&state);
    assert_eq!(texts(&report.valid), ["b", "c", "a"]);
    assert_eq!(report.valid[0].session_usage, spent(7));
    assert_eq!(in_use(&state, "a"), 1);
    assert!(CookieActor::collect(&mut state, &mut config, status("a", None), None));
    assert_eq!(in_use(&state, "a"), 1);
    assert_eq!(config.cookie_array[0].session_usage, spent(7));
    // A cookie that is not handed out is left alone.
    assert!(!CookieActor::collect(&mut state, &mut config, status("z", None), None));
    assert_eq!(valid(&state), ["b", "c", "a"]);
}

#[test]
fn working_cookie_is_only_released() {
    let (mut state, mut config) = abc(2);
    next(&mut state, 2).unwrap();
    let reason = Some(Reason::NormalPro);
    assert!(!CookieActor::collect(&mut state, &mut config, status("a", None), reason));
    assert_eq!(in_use(&state, "a"), 0);
    assert_eq!(valid(&state), ["b", "c", "a"]);
    assert_eq!(texts(&config.cookie_array), ["a", "b", "c"]);
}

#[test]
fn limited_cookie_rests() {
    for reason in [Reason::TooManyRequest(500), Reason::Restricted(500)] {
        let (mut state, mut config) = abc(2);
        next(&mut state, 2).unwrap();
        let mut back = status("a", None);
        back.session_usage = spent(1);
        back.weekly_usage = spent(2);
        back.weekly_sonnet_usage = spent(3);
        back.weekly_opus_usage = spent(4);
        assert!(CookieActor::collect(&mut state, &mut config, back, Some(reason)));
        assert_eq!(in_use(&state, "a"), 0);
        let report = CookieActor::report(&state);
        assert_eq!(texts(&report.valid), ["b", "c"]);
        assert_eq!(texts(&report.exhausted), ["a"]);
        assert_eq!(report.exhausted[0].reset_time, Some(500));
        assert_eq!(report.exhausted[0].session_usage, UsageBreakdown::default());
        assert_eq!(report.exhausted[0].weekly_usage, UsageBreakdown::default());
        assert_eq!(report.exhausted[0].weekly_sonnet_usage, UsageBreakdown::default());
        assert_eq!(report.exhausted[0].weekly_opus_usage, UsageBreakdown::default());
        assert_eq!(texts(&config.cookie_array), ["b", "c", "a"]);
        CookieActor::reset_at(&mut state, 500);
        assert_eq!(valid(&state), ["b", "c"]);
        CookieActor::reset_at(&mut state, 501);
        assert_eq!(valid(&state), ["b", "c", "a"]);
    }
}

#[test]
fn resting_cookie_keeps_its_first_time() {
    let (mut state, mut config) = abc(2);
    let first = Some(Reason::TooManyRequest(500));
    let second = Some(Reason::TooManyRequest(900));
    assert!(CookieActor::collect(&mut state, &mut config, status("a", None), first));
    assert!(!CookieActor::collect(&mut state, &mut config, status("a", None), second));
    assert_eq!(CookieActor::report(&state).exhausted[0].reset_time, Some(500));
}

#[test]
fn bad_cookie_is_given_up() {
    for reason in [Reason::Free, Reason::Disabled, Reason::Banned, Reason::Null] {
        let (mut state, mut config) = abc(2);
        next(&mut state, 2).unwrap();
        let back = status("a", None);
        assert!(CookieActor::collect(&mut state, &mut config, back, Some(reason)));
        assert_eq!(in_use(&state, "a"), 0);
        assert_eq!(valid(&state), ["b", "c"]);
        assert_eq!(invalid(&state), ["a"]);
        assert_eq!(CookieActor::report(&state).invalid[0].reason, reason);
        assert_eq!(wasted(&config.wasted_cookie), ["a"]);
        assert_eq!(texts(&config.cookie_array), ["b", "c"]);
        let again = Some(Reason::Banned);
        assert!(!CookieActor::collect(&mut state, &mut config, status("a", None), again));
        assert_eq!(CookieActor::report(&state).invalid[0].reason, reason);
    }
}

#[test]
fn new_cookie_is_taken_in_once() {
    let (mut state, mut config) = abc(2);
    config.wasted_cookie.push(UselessCookie::new(cookie("w"), Reason::Banned));
    assert!(CookieActor::accept(&mut state, &mut config, status("d", None)));
    assert_eq!(valid(&state), ["a", "b", "c", "d"]);
    assert_eq!(texts(&config.cookie_array), ["a", "b", "c", "d"]);
    assert!(!CookieActor::accept(&mut state, &mut config, status("d", None)));
    assert!(!CookieActor::accept(&mut state, &mut config, status("a", Some(3))));
    assert_eq!(valid(&state), ["a", "b", "c", "d"]);
}

#[test]
fn given_up_cookie_is_not_taken_in() {
    let mut config = config(vec![status("a", None)], 1);
    config.wasted_cookie.push(UselessCookie::new(cookie("w"), Reason::Banned));
    let mut state = CookieActor::pre_start(&config);
    assert!(!CookieActor::accept(&mut state, &mut config, status("w", None)));
    assert_eq!(valid(&state), ["a"]);
}

#[test]
fn deleted_cookie_is_gone_everywhere() {
    let mut config = config(vec![status("a", None), status("b", Some(i64::MAX))], 1);
    config.wasted_cookie.push(UselessCookie::new(cookie("w"), Reason::Banned));
    config.wasted_cookie.push(UselessCookie::new(cookie("b"), Reason::Free));
    let mut state = CookieActor::pre_start(&config);
    assert!(CookieActor::delete(&mut state, &mut config, status("b", None)).is_ok());
    assert_eq!(state.counts(), (1, 0, 1));
    assert_eq!(texts(&config.cookie_array), ["a"]);
    assert_eq!(wasted(&config.wasted_cookie), ["w"]);
    assert!(CookieActor::delete(&mut state, &mut config, status("w", None)).is_ok());
    assert!(CookieActor::delete(&mut state, &mut config, status("a", None)).is_ok());
    assert_eq!(state.counts(), (0, 0, 0));
    let answer = CookieActor::delete(&mut state, &mut config, status("a", None));
    assert_eq!(
        answer,
        Err(ClewdrError::UnexpectedNone { msg: "Delete operation did not find the cookie" })
    );
}

#[test]
fn long_context_support_is_noted() {
    let mut config = config(vec![status("a", None), status("b", Some(i64::MAX))], 1);
    let mut state = CookieActor::pre_start(&config);
    for text in ["a", "b"] {
        let mut update = status(text, None);
        update.supports_claude_1m_sonnet = Some(false);
        update.session_usage = spent(9);
        assert!(CookieActor::update_1m_support(&mut state, &mut config, update).is_ok());
    }
    let report = CookieActor::report(&state);
    for noted in [&report.valid[0], &report.exhausted[0]] {
        assert_eq!(noted.supports_claude_1m_sonnet, Some(false));
        assert_eq!(noted.supports_claude_1m_opus, None);
        assert_eq!(noted.session_usage, UsageBreakdown::default());
    }
    assert_eq!(report.exhausted[0].reset_time, Some(i64::MAX));
    assert_eq!(config.cookie_array[1].supports_claude_1m_sonnet, Some(false));
    let answer = CookieActor::update_1m_support(&mut state, &mut config, status("z", None));
    assert_eq!(
        answer,
        Err(ClewdrError::UnexpectedNone { msg: "Update operation did not find the cookie" })
    );
}

#[test]
fn saved_pool_comes_back() {
    let (mut state, mut config) = abc(2);
    next(&mut state, 2).unwrap();
    let far = Some(Reason::Restricted(i64::MAX));
    CookieActor::collect(&mut state, &mut config, status("b", None), far);
    CookieActor::collect(&mut state, &mut config, status("c", None), Some(Reason::Free));
    CookieActor::accept(&mut state, &mut config, status("d", None));
    CookieActor::save(&state, &mut config);
    assert_eq!(config.max_concurrent_per_cookie, 2);
    assert_eq!(config.cookie_wait_timeout, 30);
    let again = CookieActor::pre_start(&config);
    assert_eq!(valid(&again), ["a", "d"]);
    assert_eq!(exhausted(&again), ["b"]);
    assert_eq!(invalid(&again), ["c"]);
    assert_eq!(in_use(&state, "a"), 1);
    assert_eq!(in_use(&again, "a"), 0);
}

#[test]
fn messages_do_what_the_operations_do() {
    let (mut state, mut config) = abc(1);
    let outcome =
        CookieActor::handle(&mut state, &mut config, CookieActorMessage::Request(Some(1)));
    assert!(!outcome.saved);
    match outcome.reply {
        Reply::Cookie(answer) => assert_eq!(given(answer), "a"),
        other => panic!("not a cookie: {:?}", other),
    }
    let outcome = CookieActor::handle(&mut state, &mut config, CookieActorMessage::GetStatus);
    assert!(!outcome.saved);
    assert_eq!(info(outcome).in_use_counts, [("a".to_string(), 1)]);
    let message = CookieActorMessage::ReleaseSlot(cookie("a"));
    let outcome = CookieActor::handle(&mut state, &mut config, message);
    assert!(matches!(outcome.reply, Reply::Nothing) && !outcome.saved);
    assert_eq!(in_use(&state, "a"), 0);
    let message = CookieActorMessage::Return(status("a", None), Some(Reason::TooManyRequest(7)));
    let outcome = CookieActor::handle(&mut state, &mut config, message);
    assert!(matches!(outcome.reply, Reply::Nothing) && outcome.saved);
    assert_eq!(exhausted(&state), ["a"]);
    let outcome = CookieActor::handle(&mut state, &mut config, CookieActorMessage::CheckReset);
    assert!(matches!(outcome.reply, Reply::Nothing) && !outcome.saved);
    assert_eq!(valid(&state), ["b", "c", "a"]);
    let message = CookieActorMessage::Submit(status("d", None));
    assert!(CookieActor::handle(&mut state, &mut config, message).saved);
    let message = CookieActorMessage::Submit(status("d", None));
    assert!(!CookieActor::handle(&mut state, &mut config, message).saved);
    let message = CookieActorMessage::Update1mSupport(status("d", None));
    let outcome = CookieActor::handle(&mut state, &mut config, message);
    assert!(matches!(outcome.reply, Reply::Done(Ok(()))) && outcome.saved);
    let message = CookieActorMessage::Delete(status("d", None));
    let outcome = CookieActor::handle(&mut state, &mut config, message);
    assert!(matches!(outcome.reply, Reply::Done(Ok(()))) && outcome.saved);
    let message = CookieActorMessage::Delete(status("d", None));
    let outcome = CookieActor::handle(&mut state, &mut config, message);
    assert!(matches!(outcome.reply, Reply::Done(Err(_))) && !outcome.saved);
    assert_eq!(valid(&state), ["b", "c", "a"]);
}

#[test]
fn check_saves_before_it_resets() {
    let mut resting = status("a", Some(5));
    resting.session_has_reset = Some(true);
    resting.session_resets_at = Some(6);
    resting.session_usage = spent(8);
    let mut config = config(vec![resting], 1);
    let mut state = CookieActor::pre_start(&config);
    let outcome = CookieActor::handle(&mut state, &mut config, CookieActorMessage::CheckReset);
    assert!(outcome.saved);
    assert_eq!(valid(&state), ["a"]);
    assert_eq!(config.cookie_array[0].reset_time, Some(5));
    assert_eq!(config.cookie_array[0].session_usage, UsageBreakdown::default());
    assert_eq!(CookieActor::report(&state).valid[0].reset_time, None);
}

#[test]
fn equality_goes_by_the_cookie() {
    assert!(status("a", None) == status("a", Some(4)));
    assert!(status("a", None) != status("b", None));
    assert!(
        UselessCookie::new(cookie("a"), Reason::Free)
            == UselessCookie::new(cookie("a"), Reason::Null)
    );
    assert!(cookie("a") != cookie("b"));
    assert_eq!(cookie("text").to_string(), "text");
}

#[test]
fn random_messages_keep_every_cookie_single() {
    let (mut state, mut config) = abc(2);
    let names = ["a", "b", "c", "d"];
    let reasons = [
        None,
        Some(Reason::NormalPro),
        Some(Reason::TooManyRequest(3)),
        Some(Reason::Restricted(i64::MAX)),
        Some(Reason::Free),
    ];
    let mut seed: u64 = 12345;
    for _ in 0..2000 {
        seed = seed.wrapping_mul(6364136223846793005).wrapping_add(1442695040888963407);
        let pick = (seed >> 33) as usize;
        let name = names[pick % 4];
        let message = match (pick / 4) % 8 {
            0 => CookieActorMessage::Return(status(name, None), reasons[(pick / 32) % 5]),
            1 => CookieActorMessage::Submit(status(name, None)),
            2 => CookieActorMessage::CheckReset,
            3 => CookieActorMessage::Request(None),
            4 => CookieActorMessage::Request(Some((pick / 32 % 3) as u64)),
            5 => CookieActorMessage::Update1mSupport(status(name, None)),
            6 => CookieActorMessage::ReleaseSlot(cookie(name)),
            _ => CookieActorMessage::Delete(status(name, None)),
        };
        CookieActor::handle(&mut state, &mut config, message);
        let report = CookieActor::report(&state);
        let mut held = texts(&report.valid);
        held.extend(texts(&report.exhausted));
        held.sort();
        let count = held.len();
        held.dedup();
        assert_eq!(held.len(), count);
        for name in held.iter().chain(wasted(&report.invalid).iter()) {
            assert!(config.knows(&status(name, None)));
        }
        assert!(report.in_use_counts.iter().all(|pair| pair.1 >= 1 && pair.1 <= 2));
    }
}

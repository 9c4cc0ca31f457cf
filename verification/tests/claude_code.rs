use clewdr::claude_code::{
    apply_boundary_probe, begin_boundary_refresh, boundary_check, build_beta_header,
    classify_model, conversation_plan, count_tokens_failure, count_tokens_route,
    is_count_tokens_unauthorized, is_message_stop, parse_usage_resets, retry_step,
    strip_context_suffix, usage_or_estimate, usage_totals, CountTokensRoute, RetryStep,
    StreamUsage, UsageResets, SESSION_WINDOW_SECS, WEEKLY_WINDOW_SECS,
};
use clewdr::cookie::{CookieStatus, ModelFamily};
use clewdr::error::ClewdrError;
use clewdr::json::{JsonNumber, JsonValue};
use clewdr::request_log::UsageSnapshot;
use clewdr::types::{Reason, UsageBreakdown};

fn obj(members: Vec<(&str, JsonValue)>) -> JsonValue {
    JsonValue::Object(members.into_iter().map(|(k, v)| (k.to_string(), v)).collect())
}

fn num(n: u64) -> JsonValue {
    JsonValue::Number(JsonNumber::PosInt(n))
}

fn text(s: &str) -> JsonValue {
    JsonValue::String(s.to_string())
}

fn cookie() -> CookieStatus {
    let base = format!("{}-{}AA", "a".repeat(90), "b".repeat(6));
    CookieStatus::new(&base, None).unwrap()
}

#[test]
fn model_families() {
    assert_eq!(classify_model("model-opus-4-1"), ModelFamily::Opus);
    assert_eq!(classify_model("Model-SONNET-4"), ModelFamily::Sonnet);
    assert_eq!(classify_model("model-3-5-haiku"), ModelFamily::Other);
    assert_eq!(classify_model("opus-sonnet"), ModelFamily::Opus);
    assert_eq!(classify_model(""), ModelFamily::Other);
}

#[test]
fn context_suffix_is_stripped() {
    assert_eq!(strip_context_suffix("model-sonnet-4-1M"), "model-sonnet-4");
    assert_eq!(strip_context_suffix("model-sonnet-4-1m"), "model-sonnet-4-1m");
    assert_eq!(strip_context_suffix("-1M"), "");
    assert_eq!(strip_context_suffix("1M"), "1M");
}

#[test]
fn beta_header_joins_extras() {
    assert_eq!(build_beta_header(None), "oauth-2025-04-20");
    assert_eq!(build_beta_header(Some("")), "oauth-2025-04-20");
    assert_eq!(
        build_beta_header(Some(" context-1m-2025-08-07 , ,interleaved-thinking ")),
        "oauth-2025-04-20,context-1m-2025-08-07,interleaved-thinking"
    );
}

#[test]
fn retry_decisions() {
    let e = ClewdrError::InvalidCookie { reason: Reason::Free };
    assert_eq!(retry_step(0, 5, e.clone()), RetryStep::ReturnCookieAndRetry(Reason::Free));
    assert_eq!(retry_step(4, 5, e.clone()), RetryStep::ReturnCookieAndRetry(Reason::Free));
    assert_eq!(retry_step(5, 5, e), RetryStep::ReturnCookieAndStop(Reason::Free));
    assert_eq!(
        retry_step(0, 5, ClewdrError::NoCookieAvailable),
        RetryStep::Fail(ClewdrError::NoCookieAvailable)
    );
}

#[test]
fn token_count_routing() {
    assert_eq!(
        count_tokens_route(Some(false), false, true),
        CountTokensRoute::Local { persist_disallowed: true }
    );
    assert_eq!(
        count_tokens_route(None, true, false),
        CountTokensRoute::Local { persist_disallowed: false }
    );
    assert_eq!(count_tokens_route(Some(true), true, true), CountTokensRoute::Remote);
    assert_eq!(count_tokens_route(None, false, false), CountTokensRoute::Remote);
}

#[test]
fn token_count_failures() {
    let e401 = ClewdrError::ClaudeHttpError { code: 401 };
    let e500 = ClewdrError::ClaudeHttpError { code: 500 };
    assert!(is_count_tokens_unauthorized(&e401));
    assert!(is_count_tokens_unauthorized(&ClewdrError::ClaudeHttpError { code: 404 }));
    assert!(!is_count_tokens_unauthorized(&e500));
    assert!(!is_count_tokens_unauthorized(&ClewdrError::TooManyRetries));
    let f = count_tokens_failure(&e401, true);
    assert!(f.persist_disallowed && f.fallback_local);
    let f = count_tokens_failure(&e401, false);
    assert!(f.persist_disallowed && !f.fallback_local);
    let f = count_tokens_failure(&e500, true);
    assert!(!f.persist_disallowed && !f.fallback_local);
}

#[test]
fn totals_of_reported_usage() {
    let u = UsageSnapshot { input_tokens: Some(5), output_tokens: None, ..Default::default() };
    assert_eq!(usage_totals(&u, 99), (5, 0));
    let u = UsageSnapshot { input_tokens: None, output_tokens: Some(7), ..Default::default() };
    assert_eq!(usage_totals(&u, 99), (99, 7));
}

#[test]
fn stream_usage_sums_events() {
    let mut s = StreamUsage::new();
    s.observe(&obj(vec![("type", text("message_start"))]));
    s.observe(&obj(vec![(
        "usage",
        obj(vec![("output_tokens", num(10)), ("cache_read_input_tokens", num(4))]),
    )]));
    s.observe(&obj(vec![(
        "usage",
        obj(vec![
            ("output_tokens", num(5)),
            ("cache_creation_input_tokens", num(2)),
            ("cache_read_input_tokens", JsonValue::Number(JsonNumber::NegInt(-1))),
        ]),
    )]));
    let snap = s.snapshot(33);
    assert_eq!(snap.input_tokens, Some(33));
    assert_eq!(snap.output_tokens, Some(15));
    assert_eq!(snap.cache_creation_input_tokens, Some(2));
    assert_eq!(snap.cache_read_input_tokens, Some(4));
}

#[test]
fn stream_usage_wraps() {
    let mut s = StreamUsage::new();
    s.observe(&obj(vec![("usage", obj(vec![("output_tokens", num(u64::MAX))]))]));
    s.observe(&obj(vec![("usage", obj(vec![("output_tokens", num(3))]))]));
    assert_eq!(s.output_tokens, 2);
}

#[test]
fn message_stop_detection() {
    assert!(is_message_stop(&obj(vec![("type", text("message_stop"))])));
    assert!(!is_message_stop(&obj(vec![("type", text("message_delta"))])));
    assert!(!is_message_stop(&obj(vec![("kind", text("message_stop"))])));
    assert!(!is_message_stop(&text("message_stop")));
}

#[test]
fn usage_resets_are_parsed() {
    let usage = obj(vec![
        ("five_hour", obj(vec![("resets_at", text("2025-01-01T05:00:00Z"))])),
        ("seven_day", obj(vec![("resets_at", text("2025-01-08T00:00:00+01:00"))])),
        ("seven_day_sonnet", obj(vec![("resets_at", text("not a date"))])),
    ]);
    let r = parse_usage_resets(&usage);
    assert_eq!(r.session, Some(1_735_707_600));
    assert_eq!(r.weekly, Some(1_736_290_800));
    assert_eq!(r.weekly_sonnet, None);
    let empty = parse_usage_resets(&obj(vec![]));
    assert_eq!(empty, UsageResets { session: None, weekly: None, weekly_sonnet: None });
}

#[test]
fn boundary_refresh_of_undecided_cookie() {
    let mut c = cookie();
    let check = begin_boundary_refresh(&mut c, 1_000);
    assert!(check.probe);
    assert!(!check.session_due && !check.weekly_due && !check.sonnet_due);
    assert_eq!(c.resets_last_checked_at, Some(1_000));
    let probe = UsageResets { session: Some(5_000), weekly: None, weekly_sonnet: Some(9_000) };
    apply_boundary_probe(&mut c, check, 1_000, Some(probe));
    assert_eq!(c.session_has_reset, Some(true));
    assert_eq!(c.session_resets_at, Some(5_000));
    assert_eq!(c.weekly_has_reset, Some(false));
    assert_eq!(c.weekly_resets_at, None);
    assert_eq!(c.weekly_sonnet_has_reset, Some(true));
    assert_eq!(c.weekly_sonnet_resets_at, Some(9_000));
    // Nothing due and every window decided: no fetch.
    let check = boundary_check(&c, 2_000);
    assert!(!check.probe);
}

#[test]
fn due_window_is_emptied_and_rescheduled() {
    let mut c = cookie();
    c.session_has_reset = Some(true);
    c.session_resets_at = Some(100);
    c.weekly_has_reset = Some(true);
    c.weekly_resets_at = Some(10_000);
    c.weekly_sonnet_has_reset = Some(false);
    c.add_and_bucket_usage(50, 5, ModelFamily::Sonnet);
    let check = begin_boundary_refresh(&mut c, 200);
    assert!(check.probe && check.session_due && !check.weekly_due && !check.sonnet_due);
    // The fetch failed: the session window gets a fallback boundary.
    let mut failed = c.clone();
    apply_boundary_probe(&mut failed, check, 200, None);
    assert_eq!(failed.session_usage, UsageBreakdown::empty());
    assert_eq!(failed.session_resets_at, Some(200 + SESSION_WINDOW_SECS));
    assert_eq!(failed.weekly_usage.total_input_tokens, 50);
    assert_eq!(failed.weekly_resets_at, Some(10_000));
    assert_eq!(failed.lifetime_usage.total_input_tokens, 50);
    // The fetch succeeded: boundaries are taken from it.
    let probe = UsageResets { session: Some(18_200), weekly: Some(10_000), weekly_sonnet: Some(1) };
    apply_boundary_probe(&mut c, check, 200, Some(probe));
    assert_eq!(c.session_usage, UsageBreakdown::empty());
    assert_eq!(c.session_resets_at, Some(18_200));
    assert_eq!(c.weekly_sonnet_has_reset, Some(false));
    assert_eq!(c.weekly_sonnet_resets_at, None);
    assert_eq!(c.weekly_usage.total_input_tokens, 50);
}

#[test]
fn weekly_fallback_boundary() {
    let mut c = cookie();
    c.session_has_reset = Some(false);
    c.weekly_has_reset = Some(true);
    c.weekly_resets_at = Some(0);
    c.weekly_sonnet_has_reset = Some(true);
    c.weekly_sonnet_resets_at = Some(0);
    let check = begin_boundary_refresh(&mut c, 7);
    assert!(check.weekly_due && check.sonnet_due && !check.session_due);
    apply_boundary_probe(&mut c, check, 7, None);
    assert_eq!(c.weekly_resets_at, Some(7 + WEEKLY_WINDOW_SECS));
    assert_eq!(c.weekly_sonnet_resets_at, Some(7 + WEEKLY_WINDOW_SECS));
    // A tracked window that the fetch no longer reports stops being tracked.
    let check = begin_boundary_refresh(&mut c, 8 + WEEKLY_WINDOW_SECS);
    assert!(check.weekly_due);
    apply_boundary_probe(
        &mut c,
        check,
        8 + WEEKLY_WINDOW_SECS,
        Some(UsageResets { session: None, weekly: None, weekly_sonnet: None }),
    );
    assert_eq!(c.weekly_has_reset, Some(false));
    assert_eq!(c.weekly_resets_at, None);
    assert_eq!(c.session_has_reset, Some(false));
}

#[test]
fn reported_usage_or_estimate() {
    let none = UsageSnapshot::default();
    assert_eq!(usage_or_estimate(none, None), None);
    assert_eq!(
        usage_or_estimate(none, Some(12)),
        Some(UsageSnapshot { output_tokens: Some(12), ..Default::default() })
    );
    let reported = UsageSnapshot { cache_read_input_tokens: Some(1), ..Default::default() };
    assert_eq!(usage_or_estimate(reported, Some(12)), Some(reported));
}

#[test]
fn conversation_plans() {
    let p = conversation_plan(false, true, true);
    assert!(p.is_temporary && p.incognito_referer && p.extended_thinking);
    let p = conversation_plan(true, true, false);
    assert!(!p.is_temporary && !p.incognito_referer && !p.extended_thinking);
}

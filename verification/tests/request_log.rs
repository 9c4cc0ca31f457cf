use clewdr::json::{JsonNumber, JsonValue};
use clewdr::request_log::{
    count_cache_control_breakpoints, count_cache_controls_in_value, extract_error_code,
    parse_u64, timeout_seconds, usage_from_value, ApiRequestLog, MessageContent, RequestLogStatus,
    RequestLogStore, RequestOutcome, RequestStart, UsageSnapshot, MAX_LOGS,
};
use clewdr::request_log::{track_step, TrackAction, TrackEvent, TrackPhase};

fn start_params() -> RequestStart {
    RequestStart {
        provider: "test".to_string(),
        api_format: "Messages".to_string(),
        model: "test".to_string(),
        stream: false,
        message_count: 1,
        tool_count: 0,
        cache_control_breakpoints: 0,
        estimated_context_tokens: 1,
    }
}

fn status(store: &RequestLogStore, id: u64) -> RequestLogStatus {
    store
        .list(Some(500))
        .into_iter()
        .find(|l| l.id == id)
        .unwrap()
        .status
}

fn row(store: &RequestLogStore, id: u64) -> ApiRequestLog {
    store
        .list(Some(500))
        .into_iter()
        .find(|l| l.id == id)
        .unwrap()
}

const TIMEOUT_MSG: &str = "请求超时：30 秒内未完成";

#[test]
fn request_log_lifecycle() {
    let mut store = RequestLogStore::new();
    // Storage is off: nothing is restored.
    assert!(!store.load(None));

    // Response delivered: pending until the body ends, then success.
    let id = store.record_start_at(start_params(), 1_000);
    assert_eq!(status(&store, id), RequestLogStatus::Pending);
    store.record_outcome_at(id, RequestOutcome::Completed, 1_030);
    assert_eq!(status(&store, id), RequestLogStatus::Success);
    assert_eq!(row(&store, id).duration_ms, Some(30));

    // Deadline passed before the response: timeout, and a later disconnect changes nothing.
    let id = store.record_start_at(start_params(), 2_000);
    store.record_outcome_at(id, RequestOutcome::DeadlineExceeded(TIMEOUT_MSG.to_string()), 2_030);
    assert_eq!(status(&store, id), RequestLogStatus::Timeout);
    assert_eq!(row(&store, id).error_code.as_deref(), Some("504"));
    store.record_outcome_at(id, RequestOutcome::Disconnected, 2_040);
    assert_eq!(status(&store, id), RequestLogStatus::Timeout);

    // Body never polled: the guard is dropped, the row is cancelled.
    let id = store.record_start_at(start_params(), 3_000);
    store.record_outcome_at(id, RequestOutcome::Disconnected, 3_001);
    assert_eq!(status(&store, id), RequestLogStatus::Cancelled);
    assert_eq!(row(&store, id).error_code.as_deref(), Some("CLIENT_DISCONNECTED"));

    // An in-flight request aborted by the server.
    let id2 = store.record_start_at(start_params(), 4_000);
    store.record_outcome_at(id2, RequestOutcome::Disconnected, 4_001);
    assert_eq!(status(&store, id2), RequestLogStatus::Cancelled);

    // The body stalls past the deadline.
    let id = store.record_start_at(start_params(), 5_000);
    store.record_outcome_at(id, RequestOutcome::DeadlineExceeded(TIMEOUT_MSG.to_string()), 5_030);
    assert_eq!(status(&store, id), RequestLogStatus::Timeout);

    // The body fails: error, and later usage does not change the status.
    let id = store.record_start_at(start_params(), 6_000);
    store.record_outcome_at(id, RequestOutcome::BodyFailed("broken upstream".to_string()), 6_010);
    assert_eq!(status(&store, id), RequestLogStatus::Error);
    assert_eq!(
        row(&store, id).error.as_deref(),
        Some("响应流读取失败: broken upstream")
    );
    store.record_success(
        id,
        UsageSnapshot {
            output_tokens: Some(9),
            ..Default::default()
        },
    );
    assert_eq!(status(&store, id), RequestLogStatus::Error);
    assert_eq!(row(&store, id).output_tokens, Some(9));

    // The request itself fails.
    let id = store.record_start_at(start_params(), 7_000);
    store.record_outcome_at(
        id,
        RequestOutcome::UpstreamFailed("No cookie available".to_string()),
        7_001,
    );
    assert_eq!(status(&store, id), RequestLogStatus::Error);

    // Clearing keeps counting ids; finishing a cleared row touches nothing.
    store.clear();
    let next = store.record_start_at(start_params(), 8_000);
    assert!(next > id);
    assert!(!store.finish_at(id, RequestLogStatus::Cancelled, None, None, 8_001));
    assert_eq!(status(&store, next), RequestLogStatus::Pending);
}

#[test]
fn record_start_fills_row_and_ids_increase() {
    let mut store = RequestLogStore::new();
    let a = store.record_start_at(start_params(), 10);
    let b = store.record_start(start_params());
    assert_eq!(a, 1);
    assert_eq!(b, 2);
    assert_eq!(store.last_id(), 2);
    let rows = store.list(None);
    assert_eq!(rows.len(), 2);
    // Newest first.
    assert_eq!(rows[0].id, 2);
    assert_eq!(rows[1].id, 1);
    assert_eq!(rows[1].timestamp_ms, 10);
    assert_eq!(rows[1].model, "test");
    assert_eq!(rows[1].api_format, "Messages");
    assert_eq!(rows[1].estimated_context_tokens, 1);
    assert_eq!(rows[1].duration_ms, None);
}

#[test]
fn log_is_bounded_and_listing_limited() {
    let mut store = RequestLogStore::new();
    for i in 0..(MAX_LOGS + 5) {
        store.record_start_at(start_params(), i as i64);
    }
    assert_eq!(store.len(), MAX_LOGS);
    assert_eq!(store.list(None).len(), 100);
    assert_eq!(store.list(Some(1000)).len(), MAX_LOGS);
    assert_eq!(store.list(Some(3)).len(), 3);
    assert_eq!(store.list(Some(3))[0].id, (MAX_LOGS + 5) as u64);
    // The oldest rows were dropped.
    assert!(store.snapshot().iter().all(|l| l.id > 5));
}

#[test]
fn record_error_extracts_code() {
    let mut store = RequestLogStore::new();
    let id = store.record_start_at(start_params(), 0);
    assert!(store.record_error_at(id, "upstream said 429 Too Many Requests".to_string(), 5));
    let r = row(&store, id);
    assert_eq!(r.status, RequestLogStatus::Error);
    assert_eq!(r.error_code.as_deref(), Some("429"));
    assert_eq!(r.duration_ms, Some(5));
    assert!(!store.record_error_at(id + 1, "x".to_string(), 5));
    assert!(!store.record_success(id + 1, UsageSnapshot::default()));
}

#[test]
fn finish_only_changes_pending_rows() {
    let mut store = RequestLogStore::new();
    let id = store.record_start_at(start_params(), 100);
    assert!(store.finish_at(id, RequestLogStatus::Success, None, None, 150));
    assert!(store.finish_at(
        id,
        RequestLogStatus::Error,
        Some("500".to_string()),
        Some("late".to_string()),
        200
    ));
    let r = row(&store, id);
    assert_eq!(r.status, RequestLogStatus::Success);
    assert_eq!(r.duration_ms, Some(50));
    assert_eq!(r.error, None);
}

#[test]
fn finish_duration_saturates() {
    let mut store = RequestLogStore::new();
    let id = store.record_start_at(start_params(), i64::MIN);
    store.finish_at(id, RequestLogStatus::Success, None, None, i64::MAX);
    assert_eq!(row(&store, id).duration_ms, Some(i64::MAX));
}

fn persisted(id: u64, ts: i64, status: RequestLogStatus) -> ApiRequestLog {
    ApiRequestLog {
        id,
        timestamp_ms: ts,
        duration_ms: Some(3),
        provider: "p".to_string(),
        api_format: "Messages".to_string(),
        model: "m".to_string(),
        stream: true,
        message_count: 1,
        tool_count: 0,
        cache_control_breakpoints: 0,
        estimated_context_tokens: 0,
        input_tokens: None,
        output_tokens: None,
        cache_creation_input_tokens: None,
        cache_read_input_tokens: None,
        status,
        error_code: None,
        error: None,
    }
}

#[test]
fn load_restores_sorted_and_interrupts_pending() {
    let mut store = RequestLogStore::new();
    let rows = vec![
        persisted(3, 10, RequestLogStatus::Success),
        persisted(7, 30, RequestLogStatus::Pending),
        persisted(5, 30, RequestLogStatus::Error),
        persisted(4, 20, RequestLogStatus::Cancelled),
    ];
    assert!(store.load(Some(rows)));
    assert!(store.is_loaded());
    let ids: Vec<u64> = store.snapshot().iter().map(|l| l.id).collect();
    assert_eq!(ids, vec![7, 5, 4, 3]);
    let first = &store.snapshot()[0];
    assert_eq!(first.status, RequestLogStatus::Interrupted);
    assert_eq!(first.duration_ms, None);
    assert_eq!(first.error_code.as_deref(), Some("INTERRUPTED"));
    assert_eq!(store.last_id(), 7);
    assert_eq!(store.record_start_at(start_params(), 40), 8);
    // A second load changes nothing.
    assert!(!store.load(Some(vec![persisted(100, 1, RequestLogStatus::Success)])));
    assert_eq!(store.last_id(), 8);
}

#[test]
fn load_truncates_to_max_logs() {
    let mut store = RequestLogStore::new();
    let rows: Vec<ApiRequestLog> = (1..=(MAX_LOGS as u64 + 10))
        .map(|i| persisted(i, i as i64, RequestLogStatus::Success))
        .collect();
    assert!(store.load(Some(rows)));
    assert_eq!(store.len(), MAX_LOGS);
    assert_eq!(store.snapshot()[0].id, MAX_LOGS as u64 + 10);
    assert_eq!(store.snapshot()[MAX_LOGS - 1].id, 11);
    assert_eq!(store.last_id(), MAX_LOGS as u64 + 10);
}

#[test]
fn error_code_extraction() {
    assert_eq!(extract_error_code("HTTP 503: unavailable").as_deref(), Some("503"));
    assert_eq!(extract_error_code("code=404").as_deref(), Some("404"));
    assert_eq!(extract_error_code("a5001 then 502").as_deref(), Some("502"));
    assert_eq!(extract_error_code("status 200 ok"), None);
    assert_eq!(extract_error_code("4044"), None);
    assert_eq!(extract_error_code("错误429错误").as_deref(), Some("429"));
    assert_eq!(extract_error_code("42"), None);
    assert_eq!(extract_error_code(""), None);
}

fn obj(members: Vec<(&str, JsonValue)>) -> JsonValue {
    JsonValue::Object(members.into_iter().map(|(k, v)| (k.to_string(), v)).collect())
}

fn num(n: u64) -> JsonValue {
    JsonValue::Number(JsonNumber::PosInt(n))
}

#[test]
fn usage_from_value_reads_counters() {
    let v = obj(vec![(
        "usage",
        obj(vec![
            ("input_tokens", num(12)),
            ("output_tokens", JsonValue::Number(JsonNumber::NegInt(-4))),
            ("cache_read_input_tokens", num(3)),
            ("cache_creation_input_tokens", JsonValue::String("x".to_string())),
        ]),
    )]);
    let u = usage_from_value(&v);
    assert_eq!(u.input_tokens, Some(12));
    assert_eq!(u.output_tokens, Some(0));
    assert_eq!(u.cache_read_input_tokens, Some(3));
    assert_eq!(u.cache_creation_input_tokens, None);
    assert_eq!(usage_from_value(&obj(vec![])), UsageSnapshot::default());
    assert_eq!(usage_from_value(&JsonValue::Null), UsageSnapshot::default());
}

#[test]
fn timeout_configuration() {
    assert_eq!(timeout_seconds(None), 270);
    assert_eq!(timeout_seconds(Some("30")), 30);
    assert_eq!(timeout_seconds(Some("+45")), 45);
    assert_eq!(timeout_seconds(Some("0")), 270);
    assert_eq!(timeout_seconds(Some("-5")), 270);
    assert_eq!(timeout_seconds(Some(" 30")), 270);
    assert_eq!(timeout_seconds(Some("18446744073709551616")), 270);
    assert_eq!(timeout_seconds(Some("")), 270);
    assert_eq!(parse_u64("18446744073709551615"), Some(u64::MAX));
    assert_eq!(parse_u64("+"), None);
    assert_eq!(parse_u64("007"), Some(7));
}

fn marked() -> JsonValue {
    obj(vec![("type", JsonValue::String("text".to_string())), ("cache_control", obj(vec![]))])
}

fn unmarked() -> JsonValue {
    obj(vec![("cache_control", JsonValue::Null)])
}

#[test]
fn cache_breakpoints_are_counted() {
    let system = JsonValue::Array(vec![marked(), unmarked(), marked()]);
    assert_eq!(count_cache_controls_in_value(Some(&system)), 2);
    assert_eq!(count_cache_controls_in_value(Some(&marked())), 1);
    assert_eq!(count_cache_controls_in_value(Some(&unmarked())), 0);
    assert_eq!(count_cache_controls_in_value(Some(&JsonValue::String("s".into()))), 0);
    assert_eq!(count_cache_controls_in_value(None), 0);
    let messages = vec![
        MessageContent::Text,
        MessageContent::Blocks { content: vec![marked(), unmarked()] },
        MessageContent::Blocks { content: vec![marked()] },
    ];
    let tools = vec![marked(), unmarked()];
    assert_eq!(count_cache_control_breakpoints(Some(&system), &messages, Some(&tools)), 5);
    assert_eq!(count_cache_control_breakpoints(None, &messages, None), 2);
}

#[test]
fn tracking_decisions() {
    let (p, a) = track_step(TrackPhase::AwaitingResponse, TrackEvent::Responded);
    assert_eq!(p, TrackPhase::DeliveringBody);
    assert!(matches!(a, TrackAction::FollowBody));
    let (p, a) = track_step(p, TrackEvent::Chunk);
    assert_eq!(p, TrackPhase::DeliveringBody);
    assert!(matches!(a, TrackAction::PassChunk));
    let (p, a) = track_step(p, TrackEvent::BodyEnded);
    assert_eq!(p, TrackPhase::Closed);
    assert!(matches!(
        a,
        TrackAction::Finish { outcome: RequestOutcome::Completed, fails: false }
    ));
    let (p, a) = track_step(p, TrackEvent::DeadlineElapsed("late".to_string()));
    assert_eq!(p, TrackPhase::Closed);
    assert!(matches!(a, TrackAction::Ignore));
    let (p, a) = track_step(
        TrackPhase::AwaitingResponse,
        TrackEvent::DeadlineElapsed("late".to_string()),
    );
    assert_eq!(p, TrackPhase::Closed);
    match a {
        TrackAction::Finish { outcome: RequestOutcome::DeadlineExceeded(m), fails } => {
            assert_eq!(m, "late");
            assert!(fails);
        }
        other => panic!("unexpected action {other:?}"),
    }
    let (_, a) = track_step(
        TrackPhase::DeliveringBody,
        TrackEvent::BodyFailed("broken upstream".to_string()),
    );
    assert!(matches!(
        a,
        TrackAction::Finish { outcome: RequestOutcome::BodyFailed(_), fails: true }
    ));
    let (p, a) = track_step(TrackPhase::AwaitingResponse, TrackEvent::Chunk);
    assert_eq!(p, TrackPhase::AwaitingResponse);
    assert!(matches!(a, TrackAction::Ignore));
}

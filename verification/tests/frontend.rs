use clewdr::frontend::{
    auth_header, compact_unit, duration_display, error_message, CompactUnit, DurationDisplay,
    decimal_string, fmt_int, fmt_opt, haystack, join_csv_list, normalize_query, parse_csv_list,
    relative_age, row_visible, status_kind, total_input, ApiRequestLog,
    RelativeAge, StatusFilter, Summary,
};

fn log(id: u64, status: &str) -> ApiRequestLog {
    ApiRequestLog {
        id,
        timestamp_ms: 0,
        duration_ms: None,
        provider: "Code".to_string(),
        api_format: "OpenAI".to_string(),
        model: "model-Sonnet-4".to_string(),
        stream: false,
        message_count: 1,
        tool_count: 0,
        cache_control_breakpoints: 0,
        estimated_context_tokens: 0,
        input_tokens: None,
        output_tokens: None,
        cache_creation_input_tokens: None,
        cache_read_input_tokens: None,
        status: status.to_string(),
        error_code: None,
        error: None,
    }
}

#[test]
fn integers_grouped_by_thousands() {
    assert_eq!(fmt_int(0), "0");
    assert_eq!(fmt_int(999), "999");
    assert_eq!(fmt_int(1000), "1,000");
    assert_eq!(fmt_int(1234567), "1,234,567");
    assert_eq!(fmt_int(u64::MAX), "18,446,744,073,709,551,615");
    assert_eq!(fmt_opt(Some(12345)), "12,345");
    assert_eq!(fmt_opt(None), "—");
    assert_eq!(decimal_string(907).into_iter().collect::<String>(), "907");
}

#[test]
fn grouping_round_trips() {
    for n in [0u64, 7, 1000, 65_536, 1_000_000_007, u64::MAX] {
        let shown = fmt_int(n);
        assert_eq!(shown.replace(',', "").parse::<u64>().unwrap(), n);
    }
}

#[test]
fn csv_lists() {
    assert_eq!(parse_csv_list(" a, b ,, c ,"), vec!["a", "b", "c"]);
    assert!(parse_csv_list(" , ").is_empty());
    assert!(parse_csv_list("").is_empty());
    let items = vec!["x".to_string(), "y z".to_string()];
    assert_eq!(join_csv_list(&items), "x, y z");
    assert_eq!(join_csv_list(&Vec::new()), "");
    assert_eq!(parse_csv_list(&join_csv_list(&items)), items);
}

#[test]
fn status_kinds_and_filters() {
    assert_eq!(status_kind("success"), "success");
    assert_eq!(status_kind("interrupted"), "interrupted");
    assert_eq!(status_kind("whatever"), "error");
    assert_eq!(StatusFilter::Failed.key(), "failed");
    for s in ["pending", "success", "error", "timeout", "cancelled", ""] {
        let n = [StatusFilter::Pending, StatusFilter::Success, StatusFilter::Failed]
            .iter()
            .filter(|f| f.matches(s))
            .count();
        assert_eq!(n, 1);
        assert!(StatusFilter::All.matches(s));
    }
}

#[test]
fn total_input_includes_cache() {
    let mut l = log(1, "success");
    assert_eq!(total_input(&l), None);
    l.cache_read_input_tokens = Some(5);
    assert_eq!(total_input(&l), None);
    l.input_tokens = Some(10);
    l.cache_creation_input_tokens = Some(3);
    assert_eq!(total_input(&l), Some(18));
    l.input_tokens = Some(u64::MAX);
    assert_eq!(total_input(&l), Some(u64::MAX));
}

#[test]
fn summary_over_rows() {
    let mut a = log(1, "success");
    a.duration_ms = Some(100);
    a.input_tokens = Some(10);
    a.cache_read_input_tokens = Some(4);
    a.output_tokens = Some(7);
    let mut b = log(2, "success");
    b.duration_ms = Some(-5);
    b.cache_read_input_tokens = Some(100);
    let c = log(3, "pending");
    let mut d = log(4, "error");
    d.duration_ms = Some(50);
    d.output_tokens = Some(1);
    let s = Summary::from_logs(&vec![a, b, c, d]);
    assert_eq!(s.total, 4);
    assert_eq!(s.finished, 3);
    assert_eq!(s.success, 2);
    assert_eq!(s.duration_sum, 100);
    assert_eq!(s.duration_count, 2);
    assert_eq!(s.input, 14);
    assert_eq!(s.cache_read, 4);
    assert_eq!(s.output, 8);
    assert_eq!(Summary::from_logs(&Vec::new()), Summary::default());
}

#[test]
fn search_and_visibility() {
    let mut l = log(42, "error");
    l.error_code = Some("429".to_string());
    l.error = Some("Rate LIMITED".to_string());
    assert_eq!(
        haystack(&l),
        "#42 model-sonnet-4 code openai error 429 rate limited"
    );
    assert_eq!(normalize_query("  Rate Limited "), "rate limited");
    assert_eq!(normalize_query(" ÀB "), "àb");
    assert!(row_visible(&l, StatusFilter::All, None, None, ""));
    assert!(row_visible(&l, StatusFilter::Failed, Some("error"), None, "rate limited"));
    assert!(!row_visible(&l, StatusFilter::Failed, Some("timeout"), None, ""));
    assert!(row_visible(&l, StatusFilter::All, Some("timeout"), None, ""));
    assert!(!row_visible(&l, StatusFilter::Success, None, None, ""));
    assert!(row_visible(&l, StatusFilter::All, None, Some("model-Sonnet-4"), "#42"));
    assert!(!row_visible(&l, StatusFilter::All, None, Some("model-opus-4"), ""));
    assert!(!row_visible(&l, StatusFilter::All, None, None, "Rate"));
}

#[test]
fn relative_ages() {
    assert_eq!(relative_age(0, 9_999), Some(RelativeAge::JustNow));
    assert_eq!(relative_age(10_000, 0), Some(RelativeAge::JustNow));
    assert_eq!(relative_age(0, 10_000), Some(RelativeAge::Seconds(10)));
    assert_eq!(relative_age(0, 59_999), Some(RelativeAge::Seconds(59)));
    assert_eq!(relative_age(0, 60_000), Some(RelativeAge::Minutes(1)));
    assert_eq!(relative_age(0, 3_600_000), Some(RelativeAge::Hours(1)));
    assert_eq!(relative_age(0, 86_399_999), Some(RelativeAge::Hours(23)));
    assert_eq!(relative_age(0, 86_400_000), None);
    assert_eq!(relative_age(i64::MIN, i64::MAX), None);
}

#[test]
fn authorization_header() {
    assert_eq!(auth_header(Some("secret")), "Bearer secret");
    assert_eq!(auth_header(None), "Bearer ");
}

#[test]
fn failure_messages() {
    assert_eq!(error_message(Some("bad token".to_string()), 401, "{}".to_string()), "bad token");
    assert_eq!(error_message(None, 502, String::new()), "HTTP 502");
    assert_eq!(error_message(None, 500, "oops".to_string()), "oops");
}

#[test]
fn compact_units() {
    assert_eq!(compact_unit(9_999), CompactUnit::Plain);
    assert_eq!(compact_unit(10_000), CompactUnit::Thousands);
    assert_eq!(compact_unit(999_999), CompactUnit::Thousands);
    assert_eq!(compact_unit(1_000_000), CompactUnit::Millions);
}

#[test]
fn duration_displays() {
    assert_eq!(duration_display(-3), DurationDisplay::Millis(0));
    assert_eq!(duration_display(999), DurationDisplay::Millis(999));
    assert_eq!(duration_display(1_500), DurationDisplay::Seconds(1_500));
    assert_eq!(duration_display(125_000), DurationDisplay::MinutesSeconds(2, 5));
}

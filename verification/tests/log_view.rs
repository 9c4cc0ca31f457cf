use clewdr::frontend::{ApiRequestLog, StatusFilter};
use clewdr::log_view::{
    cache_share, error_headline, filter_count, model_chips, shown_duration, status_count,
    visible_rows,
};

fn log(id: u64, status: &str, model: &str) -> ApiRequestLog {
    ApiRequestLog {
        id,
        timestamp_ms: 1_000,
        duration_ms: Some(250),
        provider: "Code".to_string(),
        api_format: "OpenAI".to_string(),
        model: model.to_string(),
        stream: true,
        message_count: 1,
        tool_count: 0,
        cache_control_breakpoints: 0,
        estimated_context_tokens: 0,
        input_tokens: None,
        output_tokens: None,
        cache_creation_input_tokens: None,
        cache_read_input_tokens: None,
        status: status.to_string(),
        error_code: None,
        error: None,
    }
}

fn sample() -> Vec<ApiRequestLog> {
    vec![
        log(1, "success", "b-model"),
        log(2, "pending", "a-model"),
        log(3, "error", "b-model"),
        log(4, "timeout", "c-model"),
        log(5, "success", "a-model"),
        log(6, "cancelled", "b-model"),
    ]
}

#[test]
fn filter_button_counts() {
    let logs = sample();
    assert_eq!(filter_count(&logs, StatusFilter::All), 6);
    assert_eq!(filter_count(&logs, StatusFilter::Pending), 1);
    assert_eq!(filter_count(&logs, StatusFilter::Success), 2);
    assert_eq!(filter_count(&logs, StatusFilter::Failed), 3);
    assert_eq!(status_count(&logs, "timeout"), 1);
    assert_eq!(status_count(&logs, "interrupted"), 0);
}

#[test]
fn rows_shown_in_order() {
    let logs = sample();
    assert_eq!(visible_rows(&logs, StatusFilter::All, None, None, ""), vec![0, 1, 2, 3, 4, 5]);
    assert_eq!(visible_rows(&logs, StatusFilter::Failed, None, None, ""), vec![2, 3, 5]);
    assert_eq!(visible_rows(&logs, StatusFilter::Failed, Some("error"), None, ""), vec![2]);
    assert_eq!(visible_rows(&logs, StatusFilter::All, None, Some("b-model"), ""), vec![0, 2, 5]);
    assert_eq!(visible_rows(&logs, StatusFilter::All, None, None, "#4"), vec![3]);
    assert!(visible_rows(&Vec::new(), StatusFilter::All, None, None, "").is_empty());
}

#[test]
fn durations_shown() {
    let logs = sample();
    assert_eq!(shown_duration(&logs[0], 9_000), Some(250));
    assert_eq!(shown_duration(&logs[1], 9_000), Some(8_000));
    let mut pending = log(7, "pending", "m");
    pending.timestamp_ms = i64::MIN;
    assert_eq!(shown_duration(&pending, i64::MAX), Some(i64::MAX));
}

#[test]
fn cache_shares() {
    let mut l = log(1, "success", "m");
    assert_eq!(cache_share(&l), None);
    l.input_tokens = Some(10);
    assert_eq!(cache_share(&l), None);
    l.cache_read_input_tokens = Some(30);
    assert_eq!(cache_share(&l), Some((30, 40)));
    l.input_tokens = Some(0);
    l.cache_read_input_tokens = Some(0);
    assert_eq!(cache_share(&l), None);
}

#[test]
fn error_headlines() {
    assert_eq!(error_headline(None), None);
    assert_eq!(error_headline(Some("")), None);
    assert_eq!(error_headline(Some("  \n \t\r\n")), None);
    assert_eq!(
        error_headline(Some("\n  \r\nupstream said 429\r\ndetails")).as_deref(),
        Some("upstream said 429")
    );
    assert_eq!(error_headline(Some("only line")).as_deref(), Some("only line"));
    let long = "x".repeat(300);
    assert_eq!(error_headline(Some(&long)).map(|h| h.chars().count()), Some(240));
    let wide = "é".repeat(250);
    assert_eq!(error_headline(Some(&wide)), Some("é".repeat(240)));
}

#[test]
fn model_chip_order() {
    let logs = sample();
    let chips = model_chips(&logs);
    let got: Vec<(&str, usize)> = chips.iter().map(|(m, n)| (m.as_str(), *n)).collect();
    assert_eq!(got, vec![("b-model", 3), ("a-model", 2), ("c-model", 1)]);
    let tie = vec![log(1, "success", "z"), log(2, "success", "Z"), log(3, "success", "zz")];
    let chips = model_chips(&tie);
    let got: Vec<&str> = chips.iter().map(|(m, _)| m.as_str()).collect();
    assert_eq!(got, vec!["Z", "z", "zz"]);
    assert!(model_chips(&Vec::new()).is_empty());
}

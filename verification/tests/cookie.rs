use std::str::FromStr;

use clewdr::cookie::{usage_groups, ClewdrCookie, CookieStatus, ModelFamily, TokenInfo, UsageWindow};
use clewdr::error::ClewdrError;
use clewdr::types::UsageBreakdown;

fn make_base_cookie_with_len(prefix_len: usize) -> String {
    format!("{}-{}AA", "a".repeat(prefix_len), "b".repeat(6))
}

#[test]
fn test_sk_cookie_from_str() {
    let base = make_base_cookie_with_len(86);
    let full = format!("sk-ant-sid01-{base}");
    let cookie = ClewdrCookie::from_str(&full).unwrap();
    assert_eq!(cookie.as_str(), full);
}

#[test]
fn test_cookie_from_str() {
    let base = make_base_cookie_with_len(86);
    let cookie = ClewdrCookie::from_str(&base).unwrap();
    assert_eq!(cookie.as_str(), base);
}

#[test]
fn test_long_cookie_from_str() {
    let base = make_base_cookie_with_len(109);
    let full = format!("sk-ant-sid02-{base}");
    let cookie = ClewdrCookie::from_str(&full).unwrap();
    assert_eq!(cookie.as_str(), full);
}

#[test]
fn test_invalid_cookie() {
    let result = ClewdrCookie::from_str("invalid-cookie");
    assert!(result.is_err());
}

#[test]
fn invalid_cookie_error_message() {
    let result = ClewdrCookie::parse("invalid-cookie");
    assert_eq!(
        result.unwrap_err(),
        ClewdrError::ParseCookieError { msg: "Invalid cookie format" }
    );
}

#[test]
fn cookie_is_cleaned_of_foreign_characters() {
    let base = make_base_cookie_with_len(86);
    let full = format!("sk-ant-sid01-{base}");
    let noisy = format!("  sessionKey={full};  ");
    let cookie = ClewdrCookie::parse(&noisy).unwrap();
    // `sessionKey` letters stay, `=`, `;` and spaces go; the session key is found inside.
    assert_eq!(cookie.as_str(), full);
}

#[test]
fn cookie_body_too_short_is_refused() {
    let base = make_base_cookie_with_len(85);
    assert!(ClewdrCookie::parse(&base).is_err());
    // With the prefix the text is long enough to be a bare key as a whole.
    let full = format!("sk-ant-sid01-{base}");
    assert_eq!(ClewdrCookie::parse(&full).unwrap().as_str(), full);
}

#[test]
fn cookie_body_longest_allowed() {
    let base = make_base_cookie_with_len(120);
    let full = format!("sk-ant-sid01-{base}");
    assert_eq!(ClewdrCookie::parse(&full).unwrap().as_str(), full);
    assert_eq!(ClewdrCookie::parse(&base).unwrap().as_str(), base);
    let too_long = make_base_cookie_with_len(121);
    assert!(ClewdrCookie::parse(&too_long).is_err());
}

#[test]
fn cookie_mask_and_header() {
    let base = make_base_cookie_with_len(86);
    let cookie = ClewdrCookie::parse(&base).unwrap();
    assert_eq!(cookie.mask(), format!("{}...", &base[..20]));
    assert_eq!(cookie.to_header_string(), format!("sessionKey={base}"));
    assert!(cookie.all_chars_valid());
    let copy = cookie.clone();
    assert_eq!(copy, cookie);
}

#[test]
fn cookie_status_new_is_fresh() {
    let base = make_base_cookie_with_len(90);
    let c = CookieStatus::new(&base, Some(42)).unwrap();
    assert_eq!(c.cookie.as_str(), base);
    assert!(c.enabled);
    assert!(c.token.is_none());
    assert_eq!(c.reset_time, Some(42));
    assert_eq!(c.session_usage, UsageBreakdown::empty());
    assert_eq!(c.lifetime_usage, UsageBreakdown::empty());
    assert!(CookieStatus::new("nope", None).is_err());
}

#[test]
fn cookie_status_reset_at_clears_windows() {
    let base = make_base_cookie_with_len(90);
    let mut c = CookieStatus::new(&base, Some(100)).unwrap();
    c.add_and_bucket_usage(10, 5, ModelFamily::Sonnet);
    let still = c.clone().reset_at(100);
    assert_eq!(still.reset_time, Some(100));
    assert_eq!(still.session_usage.total_input_tokens, 10);
    let lifted = c.reset_at(101);
    assert_eq!(lifted.reset_time, None);
    assert_eq!(lifted.session_usage, UsageBreakdown::empty());
    assert_eq!(lifted.weekly_sonnet_usage, UsageBreakdown::empty());
    assert_eq!(lifted.lifetime_usage.total_input_tokens, 10);
    assert_eq!(lifted.lifetime_usage.sonnet_output_tokens, 5);
}

#[test]
fn cookie_status_equality_is_by_cookie() {
    let base = make_base_cookie_with_len(90);
    let a = CookieStatus::new(&base, None).unwrap();
    let mut b = CookieStatus::new(&base, Some(5)).unwrap();
    b.add_token(TokenInfo { access_token: "t".to_string() });
    assert!(a == b);
    let other = CookieStatus::new(&make_base_cookie_with_len(91), None).unwrap();
    assert!(a != other);
}

#[test]
fn usage_bucketing_by_family() {
    let base = make_base_cookie_with_len(90);
    let mut c = CookieStatus::new(&base, None).unwrap();
    c.add_and_bucket_usage(100, 20, ModelFamily::Opus);
    c.add_and_bucket_usage(7, 3, ModelFamily::Sonnet);
    c.add_and_bucket_usage(1, 1, ModelFamily::Other);
    c.add_and_bucket_usage(0, 0, ModelFamily::Opus);
    assert_eq!(c.session_usage.total_input_tokens, 108);
    assert_eq!(c.session_usage.total_output_tokens, 24);
    assert_eq!(c.session_usage.opus_input_tokens, 100);
    assert_eq!(c.session_usage.sonnet_input_tokens, 7);
    assert_eq!(c.weekly_opus_usage.total_input_tokens, 100);
    assert_eq!(c.weekly_opus_usage.sonnet_input_tokens, 0);
    assert_eq!(c.weekly_sonnet_usage.total_output_tokens, 3);
    assert_eq!(c.lifetime_usage.total_input_tokens, 108);
    assert!(c.lifetime_usage.any_nonzero());
    c.reset_window_usage();
    assert!(!c.session_usage.any_nonzero());
    assert!(!c.weekly_opus_usage.any_nonzero());
    assert_eq!(c.lifetime_usage.total_output_tokens, 24);
}

#[test]
fn usage_bucketing_saturates() {
    let base = make_base_cookie_with_len(90);
    let mut c = CookieStatus::new(&base, None).unwrap();
    c.add_and_bucket_usage(u64::MAX - 1, 1, ModelFamily::Sonnet);
    c.add_and_bucket_usage(5, 1, ModelFamily::Sonnet);
    assert_eq!(c.lifetime_usage.total_input_tokens, u64::MAX);
    assert_eq!(c.lifetime_usage.sonnet_input_tokens, u64::MAX);
    assert_eq!(c.lifetime_usage.total_output_tokens, 2);
}

#[test]
fn usage_order_does_not_matter() {
    let base = make_base_cookie_with_len(90);
    let mut a = CookieStatus::new(&base, None).unwrap();
    let mut b = CookieStatus::new(&base, None).unwrap();
    a.add_and_bucket_usage(3, 4, ModelFamily::Opus);
    a.add_and_bucket_usage(5, 6, ModelFamily::Sonnet);
    b.add_and_bucket_usage(5, 6, ModelFamily::Sonnet);
    b.add_and_bucket_usage(3, 4, ModelFamily::Opus);
    assert_eq!(a.session_usage, b.session_usage);
    assert_eq!(a.weekly_usage, b.weekly_usage);
    assert_eq!(a.lifetime_usage, b.lifetime_usage);
}

#[test]
fn cookie_status_setters() {
    let base = make_base_cookie_with_len(90);
    let mut c = CookieStatus::new(&base, None).unwrap();
    c.set_count_tokens_allowed(Some(false));
    c.set_session_resets_at(Some(1));
    c.set_weekly_resets_at(Some(2));
    c.set_weekly_sonnet_resets_at(Some(3));
    c.set_weekly_opus_resets_at(Some(4));
    assert_eq!(c.count_tokens_allowed, Some(false));
    assert_eq!(c.session_resets_at, Some(1));
    assert_eq!(c.weekly_resets_at, Some(2));
    assert_eq!(c.weekly_sonnet_resets_at, Some(3));
    assert_eq!(c.weekly_opus_resets_at, Some(4));
}

#[test]
fn parsed_cookie_parses_to_itself() {
    let base = make_base_cookie_with_len(100);
    for text in [
        format!("cookie: sk-ant-sid01-{base} trailing"),
        format!("  {base}\n"),
        format!("sk-ant-sid01-{base}"),
    ] {
        let once = ClewdrCookie::parse(&text).unwrap();
        let twice = ClewdrCookie::parse(once.as_str()).unwrap();
        assert_eq!(once, twice);
    }
}

#[test]
fn usage_groups_shown() {
    let base = make_base_cookie_with_len(90);
    let mut c = CookieStatus::new(&base, None).unwrap();
    assert!(usage_groups(&c).is_empty());
    c.add_and_bucket_usage(4, 2, ModelFamily::Opus);
    let groups: Vec<UsageWindow> = usage_groups(&c).iter().map(|(w, _)| *w).collect();
    assert_eq!(
        groups,
        vec![UsageWindow::Session, UsageWindow::SevenDay, UsageWindow::SevenDayOpus, UsageWindow::Total]
    );
    c.reset_window_usage();
    let groups = usage_groups(&c);
    assert_eq!(groups.len(), 1);
    assert_eq!(groups[0].0, UsageWindow::Total);
    assert!(groups[0].1.has_opus());
    assert!(!groups[0].1.has_sonnet());
}

use clewdr::types::{Reason, UselessCookieApi};
use clewdr::utils::{archive_removal_count, enabled_label, should_archive_request_body};

#[test]
fn enabled_labels() {
    assert_eq!(enabled_label(true), "Enabled");
    assert_eq!(enabled_label(false), "Disabled");
}

#[test]
fn request_bodies_are_archived() {
    assert!(should_archive_request_body("20250101_000000_req.json"));
    assert!(!should_archive_request_body("20250101_000000_res.json"));
    assert!(!should_archive_request_body("_req.json.bak"));
    assert!(should_archive_request_body("_req.json"));
    assert!(!should_archive_request_body("req.json"));
}

#[test]
fn archive_keeps_at_most_limit() {
    assert_eq!(archive_removal_count(3, 10), 0);
    assert_eq!(archive_removal_count(10, 10), 0);
    assert_eq!(archive_removal_count(15, 10), 5);
    assert_eq!(archive_removal_count(1, 0), 1);
}


#[test]
fn useless_cookie_listing() {
    let u = UselessCookieApi::new("abc".to_string(), Some(Reason::TooManyRequest(9)));
    assert_eq!(u.cookie, "abc");
    assert_eq!(u.reason, Some(Reason::TooManyRequest(9)));
}

use corepin::conf::{parse_count, worker_count, worker_count_from};

#[test]
fn parse_plain_number() {
    assert_eq!(parse_count("4"), Some(4));
    assert_eq!(parse_count("0"), Some(0));
    assert_eq!(parse_count("128"), Some(128));
}

#[test]
fn parse_tolerates_single_leading_plus() {
    assert_eq!(parse_count("+12"), Some(12));
    assert_eq!(parse_count("+"), None);
    assert_eq!(parse_count("++1"), None);
}

#[test]
fn parse_rejects_non_numbers() {
    assert_eq!(parse_count(""), None);
    assert_eq!(parse_count("abc"), None);
    assert_eq!(parse_count("12a"), None);
    assert_eq!(parse_count("-3"), None);
    assert_eq!(parse_count(" 4"), None);
    assert_eq!(parse_count("4 "), None);
}

#[test]
fn parse_rejects_overflow() {
    assert_eq!(parse_count("99999999999999999999999999999999"), None);
}

#[test]
fn setting_selects_worker_count() {
    assert_eq!(worker_count_from(Some("3"), 8), 3);
    assert_eq!(worker_count_from(Some("0"), 8), 0);
    assert_eq!(worker_count_from(Some("+2"), 8), 2);
}

#[test]
fn invalid_setting_falls_back_to_detected_exactly() {
    assert_eq!(worker_count_from(Some("notanumber"), 6), 6);
    assert_eq!(worker_count_from(Some(""), 6), 6);
    assert_eq!(worker_count_from(Some("99999999999999999999999999999999"), 6), 6);
    assert_eq!(worker_count_from(None, 6), 6);
}

#[test]
fn detected_count_is_at_least_one() {
    assert!(worker_count(None) >= 1);
    assert!(worker_count(Some("garbage")) >= 1);
    assert_eq!(worker_count(Some("2")), 2);
}

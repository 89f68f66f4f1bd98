use repopulse::domain::EventType;
use repopulse::interfaces::http_api::{
    build_event_query, check_auth, parse_i64, parse_since_seconds, parse_since_to_epoch, parse_type, trim, QueryError,
};

#[test]
fn integers_parse_like_std() {
    assert_eq!(parse_i64("42"), Some(42));
    assert_eq!(parse_i64("-42"), Some(-42));
    assert_eq!(parse_i64("+7"), Some(7));
    assert_eq!(parse_i64("007"), Some(7));
    assert_eq!(parse_i64("9223372036854775807"), Some(i64::MAX));
    assert_eq!(parse_i64("-9223372036854775808"), Some(i64::MIN));
    assert_eq!(parse_i64("9223372036854775808"), None);
    assert_eq!(parse_i64("99999999999999999999999"), None);
    assert_eq!(parse_i64(""), None);
    assert_eq!(parse_i64("-"), None);
    assert_eq!(parse_i64("1a"), None);
    assert_eq!(parse_i64(" 1"), None);
}

#[test]
fn relative_times() {
    assert_eq!(parse_since_seconds("3600s"), Some(3600));
    assert_eq!(parse_since_seconds("5m"), Some(300));
    assert_eq!(parse_since_seconds("24h"), Some(86_400));
    assert_eq!(parse_since_seconds("7d"), Some(604_800));
    assert_eq!(parse_since_seconds("7w"), None);
    assert_eq!(parse_since_seconds("h"), None);
    assert_eq!(parse_since_seconds("xh"), None);
    assert_eq!(parse_since_seconds("9223372036854775807d"), None);
    assert_eq!(parse_since_to_epoch(" 2h ", 10_000), Some(2_800));
    assert_eq!(parse_since_to_epoch("1s", i64::MIN), Some(i64::MIN));
    assert_eq!(parse_since_to_epoch("  ", 10), None);
}

#[test]
fn type_names() {
    assert_eq!(parse_type("release"), Some(EventType::GitHubRelease));
    assert_eq!(parse_type("branch"), Some(EventType::GitHubBranch));
    assert_eq!(parse_type("npm"), Some(EventType::NpmLatest));
    assert_eq!(parse_type("waweb"), Some(EventType::WhatsAppWebVersion));
    assert_eq!(parse_type("Release"), None);
}

#[test]
fn bearer_token() {
    assert!(check_auth(&None, None));
    let tok = Some("s3cret".to_string());
    assert!(check_auth(&tok, Some("Bearer s3cret")));
    assert!(!check_auth(&tok, Some("Bearer other")));
    assert!(!check_auth(&tok, Some("s3cret")));
    assert!(!check_auth(&tok, None));
}

#[test]
fn list_query_parameters() {
    let q = build_event_query(None, None, None, None, None, 0).unwrap();
    assert_eq!(q.limit, 100);
    let q = build_event_query(Some(9999), Some("1d"), Some("web".to_string()), Some("npm"), Some("p".to_string()), 100_000).unwrap();
    assert_eq!(q.limit, 500);
    assert_eq!(q.since_epoch, Some(13_600));
    assert_eq!(q.event_type, Some(EventType::NpmLatest));
    assert_eq!(q.label, Some("web".to_string()));
    assert_eq!(q.subject, Some("p".to_string()));
    assert_eq!(build_event_query(None, Some("soon"), None, Some("bad"), None, 0).unwrap_err(), QueryError::InvalidSince);
    assert_eq!(build_event_query(None, Some("1h"), None, Some("bad"), None, 0).unwrap_err(), QueryError::InvalidType);
    assert_eq!(QueryError::InvalidType.message(), "invalid type (release/branch/npm/waweb)");
}

#[test]
fn trim_removes_unicode_white_space() {
    assert_eq!(trim("  \t24h\n"), "24h");
    assert_eq!(trim("\u{3000}7d\u{a0}"), "7d");
    assert_eq!(trim(" a b "), "a b");
    assert_eq!(trim("   "), "");
    assert_eq!(trim(""), "");
    assert_eq!(parse_since_to_epoch("\u{2003}1m", 600), Some(540));
}

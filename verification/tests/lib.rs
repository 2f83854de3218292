use gpui_agent::parse_numbered_id;
use gpui_agent::{MAX_CONNECTIONS, MAX_LINE_BYTES, MAX_MAILBOX_DEPTH};

#[test]
fn parses_app_defined_prefixes() {
    assert_eq!(parse_numbered_id("row-", "row-3"), Some(3));
    assert_eq!(parse_numbered_id("tab-", "tab-1"), Some(1));
    assert_eq!(parse_numbered_id("row-", "other-3"), None);
    assert_eq!(parse_numbered_id("row-", "row-x"), None);
}

#[test]
fn numbered_id_edges() {
    assert_eq!(parse_numbered_id("row-", "row-"), None);
    assert_eq!(parse_numbered_id("row-", "row-18446744073709551615"), Some(u64::MAX));
    assert_eq!(parse_numbered_id("row-", "row-18446744073709551616"), None);
    assert_eq!(parse_numbered_id("", "42"), Some(42));
    assert_eq!(parse_numbered_id("row-", "row-+7"), Some(7));
}

#[test]
fn security_caps_unchanged() {
    assert_eq!(MAX_LINE_BYTES, 1024 * 1024);
    assert_eq!(MAX_CONNECTIONS, 32);
    assert_eq!(MAX_MAILBOX_DEPTH, 128);
}


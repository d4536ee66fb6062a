use gpui_docs::persist::{stamp_text, unix_stamp};

#[test]
fn unix_stamp_prefix() {
    let s = unix_stamp();
    assert!(s.starts_with("unix:") || s == "unknown");
}

#[test]
fn stamp_text_forms() {
    assert_eq!(stamp_text(Some(1700000000)), "unix:1700000000");
    assert_eq!(stamp_text(Some(0)), "unix:0");
    assert_eq!(stamp_text(None), "unknown");
}

#[test]
fn stamp_seconds_are_decimal_digits() {
    for n in [0u64, 7, 10, 1234567890, u64::MAX] {
        let s = stamp_text(Some(n));
        let digits = s.strip_prefix("unix:").unwrap();
        assert!(!digits.is_empty());
        assert!(digits.chars().all(|c| c.is_ascii_digit()));
        assert_eq!(digits, n.to_string());
    }
}

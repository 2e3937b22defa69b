use my::crawl::progress::{format_completed_room, truncate_middle};

#[test]
fn test_truncate_middle_short() {
    let s = "Short name";
    let out = truncate_middle(s, 38);
    assert!(out.starts_with("Short name"));
    assert_eq!(out.len(), 38);
}

#[test]
fn test_truncate_middle_long_unicode() {
    let s = "Very long room name 🚀 that exceeds limit";
    let out = truncate_middle(s, 20);
    assert!(out.contains('…'));
    assert_eq!(out.chars().count(), 20);
}

#[test]
fn test_format_completed_room_basic() {
    let out = format_completed_room("Room", 123, 0, Some(1_735_689_600_000), None, false);
    assert!(out.starts_with("Room"));
    assert!(out.contains("123 events"));
    assert!(!out.contains("from you"));
}

#[test]
fn test_format_completed_room_with_user_events_and_creation() {
    let out = format_completed_room("Room", 5, 2, Some(1_735_689_600_000), None, true);
    assert!(out.contains("(2 from you)"));
    assert!(out.contains("💯"));
}

#[test]
fn truncate_middle_keeps_start_and_end() {
    // 19 characters are left beside the ellipsis: ten from the start, nine
    // from the end.
    let out = truncate_middle("abcdefghijklmnopqrstuvwxyz", 20);
    assert_eq!(out, "abcdefghij…rstuvwxyz");
}

#[test]
fn truncate_middle_exact_width_is_unchanged() {
    assert_eq!(truncate_middle("abc", 3), "abc");
    assert_eq!(truncate_middle("abc", 5), "abc  ");
}

#[test]
fn truncate_middle_narrow_widths_cut_the_end() {
    assert_eq!(truncate_middle("abc", 0), "");
    assert_eq!(truncate_middle("abc", 1), "a");
    assert_eq!(truncate_middle("abc", 2), "a…");
}

#[test]
fn format_completed_room_exact_line() {
    let out = format_completed_room("Room", 123, 2, Some(1_735_689_600_000), None, true);
    let mut expected = String::from("Room");
    expected.push_str(&" ".repeat(34));
    expected.push_str("   123 events from 2025-01-01 00:00 (2 from you) 💯");
    assert_eq!(out, expected);
}

#[test]
fn format_completed_room_without_oldest_is_the_name() {
    let out = format_completed_room("Room", 123, 2, None, Some(5), true);
    assert_eq!(out, format!("{:<38}", "Room"));
}

#[test]
fn format_completed_room_wide_counts_are_not_cut() {
    let out = format_completed_room("Room", 1_234_567, 0, Some(0), None, false);
    assert!(out.ends_with(" 1234567 events from 1970-01-01 00:00"));
}

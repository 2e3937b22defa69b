use my::calendar::CivilDate;
use my::stats::ScopeKind;
use my::window::{WindowError, WindowScope};

fn ymd(year: i32, month: u32, day: u32) -> CivilDate {
    CivilDate { year, month, day }
}

#[test]
fn test_parse_year() {
    let ws = WindowScope::parse("2025").unwrap();
    assert_eq!(ws.key, "2025");
    assert_eq!(ws.scope_type, ScopeKind::Year);
    assert_eq!(ws.from, ymd(2025, 1, 1));
    assert_eq!(ws.to, ymd(2025, 12, 31));
}

#[test]
fn test_parse_month() {
    let ws = WindowScope::parse("2025-03").unwrap();
    assert_eq!(ws.key, "2025-03");
    assert_eq!(ws.scope_type, ScopeKind::Month);
    assert_eq!(ws.from, ymd(2025, 3, 1));
    assert_eq!(ws.to, ymd(2025, 3, 31));
}

#[test]
fn test_parse_month_december() {
    let ws = WindowScope::parse("2025-12").unwrap();
    assert_eq!(ws.from, ymd(2025, 12, 1));
    assert_eq!(ws.to, ymd(2025, 12, 31));
}

#[test]
fn test_parse_day() {
    let ws = WindowScope::parse("2025-03-15").unwrap();
    assert_eq!(ws.key, "2025-03-15");
    assert_eq!(ws.scope_type, ScopeKind::Day);
    assert_eq!(ws.from, ymd(2025, 3, 15));
    assert_eq!(ws.to, ymd(2025, 3, 15));
}

#[test]
fn test_parse_week() {
    let ws = WindowScope::parse("2025-W12").unwrap();
    assert_eq!(ws.key, "2025-W12");
    assert_eq!(ws.scope_type, ScopeKind::Week);
    // Week 12 of 2025: Monday should be around March 17
    assert!(ws.from >= ymd(2025, 3, 17));
    assert!(ws.to <= ymd(2025, 3, 24));
}

#[test]
fn test_parse_life() {
    let ws = WindowScope::parse("life").unwrap();
    assert_eq!(ws.key, "life");
    assert_eq!(ws.scope_type, ScopeKind::Life);
    assert_eq!(ws.from, ymd(1970, 1, 1));
    // to should be today or recent
    assert!(ws.to >= ymd(2025, 1, 1));
}

#[test]
fn test_invalid_window() {
    assert!(WindowScope::parse("invalid").is_err());
    assert!(WindowScope::parse("2025-W99").is_err());
    assert!(WindowScope::parse("2025-13").is_err());
    assert!(WindowScope::parse("2025-02-30").is_err());
}

#[test]
fn parse_week_gives_monday_to_sunday() {
    let ws = WindowScope::parse("2025-W12").unwrap();
    assert_eq!(ws.from, ymd(2025, 3, 17));
    assert_eq!(ws.to, ymd(2025, 3, 23));
}

#[test]
fn parse_first_week_may_start_in_the_year_before() {
    let ws = WindowScope::parse("2025-W01").unwrap();
    assert_eq!(ws.from, ymd(2024, 12, 30));
    assert_eq!(ws.to, ymd(2025, 1, 5));
}

#[test]
fn parse_week_53_must_be_a_week_of_its_year() {
    // 2020 has 53 ISO weeks; 2021 and 2025 have 52, and what would be
    // their week 53 is week 1 of the next year.
    let ws = WindowScope::parse("2020-W53").unwrap();
    assert_eq!(ws.from, ymd(2020, 12, 28));
    assert_eq!(ws.to, ymd(2021, 1, 3));
    assert_eq!(
        WindowScope::parse("2021-W53").unwrap_err(),
        WindowError::WeekOutsideYear { year: 2021, week: 53 }
    );
    assert_eq!(
        WindowScope::parse("2025-W53").unwrap_err(),
        WindowError::WeekOutsideYear { year: 2025, week: 53 }
    );
    let ws = WindowScope::parse("2025-W52").unwrap();
    assert_eq!(ws.from, ymd(2025, 12, 22));
    assert_eq!(ws.to, ymd(2025, 12, 28));
    let ws = WindowScope::parse("2026-W53").unwrap();
    assert_eq!(ws.from, ymd(2026, 12, 28));
    assert_eq!(ws.to, ymd(2027, 1, 3));
}

#[test]
fn every_year_has_52_weeks_and_some_have_53() {
    let long_years = [
        1970, 1976, 1981, 1987, 1992, 1998, 2004, 2009, 2015, 2020, 2026, 2032, 2037, 2043, 2048,
        2054, 2060, 2065, 2071, 2076, 2082, 2088, 2093, 2099,
    ];
    for year in 1970..=2099 {
        assert!(WindowScope::parse(&format!("{}-W52", year)).is_ok(), "{}", year);
        let last = WindowScope::parse(&format!("{}-W53", year));
        assert_eq!(last.is_ok(), long_years.contains(&year), "{}", year);
    }
}

#[test]
fn parse_trims_white_space() {
    let ws = WindowScope::parse("  2025-03\n").unwrap();
    assert_eq!(ws.key, "2025-03");
    assert_eq!(ws.to, ymd(2025, 3, 31));
    let ws = WindowScope::parse("\u{a0}life\u{3000}").unwrap();
    assert_eq!(ws.key, "life");
}

#[test]
fn parse_month_ends_follow_the_calendar() {
    assert_eq!(WindowScope::parse("2024-02").unwrap().to, ymd(2024, 2, 29));
    assert_eq!(WindowScope::parse("2025-02").unwrap().to, ymd(2025, 2, 28));
    assert_eq!(WindowScope::parse("2025-04").unwrap().to, ymd(2025, 4, 30));
    assert_eq!(WindowScope::parse("2099-12").unwrap().to, ymd(2099, 12, 31));
}

#[test]
fn parse_rejects_what_is_no_form() {
    for text in [
        "", "1969", "2100", "+2025", "02025", "2025-00", "2025-3", "2025-W00", "2025-W54",
        "2025-w12", "2025-W1", "2025-3-15", "2025-03-00", "2025-04-31", "2025/03/15", "Life",
        "2025-03-15 ", "20a5",
    ] {
        let outcome = WindowScope::parse(text);
        if text == "2025-03-15 " {
            assert!(outcome.is_ok(), "{:?} is trimmed", text);
        } else {
            assert_eq!(
                outcome.unwrap_err(),
                WindowError::InvalidFormat { window: text.trim().to_string() },
                "{:?}",
                text
            );
        }
    }
}

#[test]
fn parse_day_takes_any_four_digit_year() {
    let ws = WindowScope::parse("0001-02-03").unwrap();
    assert_eq!(ws.from, ymd(1, 2, 3));
    let ws = WindowScope::parse("1969-12-31").unwrap();
    assert_eq!(ws.scope_type, ScopeKind::Day);
    let ws = WindowScope::parse("2024-02-29").unwrap();
    assert_eq!(ws.to, ymd(2024, 2, 29));
    assert!(WindowScope::parse("2023-02-29").is_err());
}

#[test]
fn parse_on_uses_the_day_given_for_life() {
    let ws = WindowScope::parse_on("life", ymd(2030, 6, 7)).unwrap();
    assert_eq!(ws.to, ymd(2030, 6, 7));
    assert_eq!(ws.from, ymd(1970, 1, 1));
}

#[test]
fn parsing_a_key_gives_the_window_back() {
    for text in ["2025", "2025-03", "2025-W12", "2025-03-15", "life", "1970-W01", "2099-W52"] {
        let first = WindowScope::parse_on(text, ymd(2026, 1, 2)).unwrap();
        let second = WindowScope::parse_on(&first.key, ymd(2026, 1, 2)).unwrap();
        assert_eq!(second.key, first.key);
        assert_eq!(second.scope_type, first.scope_type);
        assert_eq!(second.from, first.from);
        assert_eq!(second.to, first.to);
        assert_eq!(first.key, text);
    }
}

#[test]
fn timestamp_range_of_a_year() {
    let ws = WindowScope::parse("2025").unwrap();
    assert_eq!(ws.to_timestamp_range(), (Some(1_735_689_600_000), 1_767_225_599_999));
}

#[test]
fn timestamp_range_of_a_day_and_of_life() {
    let ws = WindowScope::parse("1970-01-01").unwrap();
    assert_eq!(ws.to_timestamp_range(), (Some(0), 86_399_999));
    let ws = WindowScope::parse("1969-12-31").unwrap();
    assert_eq!(ws.to_timestamp_range(), (Some(-86_400_000), -1));
    let ws = WindowScope::parse_on("life", ymd(1970, 1, 2)).unwrap();
    assert_eq!(ws.to_timestamp_range(), (None, 2 * 86_400_000 - 1));
}

#[test]
fn covers_counts_both_ends() {
    let ws = WindowScope::parse("2025-03").unwrap();
    assert!(ws.covers(&ymd(2025, 3, 1)));
    assert!(ws.covers(&ymd(2025, 3, 31)));
    assert!(!ws.covers(&ymd(2025, 2, 28)));
    assert!(!ws.covers(&ymd(2025, 4, 1)));
}

#[test]
fn covers_now_agrees_with_the_window() {
    assert!(WindowScope::parse("life").unwrap().covers_now());
    assert!(!WindowScope::parse("1999").unwrap().covers_now());
}

#[test]
fn errors_say_what_is_wrong() {
    assert_eq!(
        WindowScope::parse(" nonsense ").unwrap_err().message(),
        "Invalid window format: 'nonsense'. Expected: '2025', '2025-03', '2025-W12', '2025-03-15', or 'life'"
    );
    assert_eq!(
        WindowScope::parse("2021-W53").unwrap_err().message(),
        "Invalid week for year: 2021-W53"
    );
    assert_eq!(
        WindowError::WeekOutsideYear { year: 2026, week: 5 }.message(),
        "Invalid week for year: 2026-W05"
    );
}

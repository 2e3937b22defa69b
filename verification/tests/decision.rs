use my::crawl::counts::TextSet;
use my::crawl::decision::{
    record_skipped_virgin_rooms_ids, select_room_ids_to_crawl, should_crawl_room, LatestEvents,
};
use my::crawl_db::CrawlDb;

fn setup_db_decision() -> CrawlDb {
    CrawlDb::new()
}

#[test]
fn decision_needs_crawl_when_no_metadata() {
    let db = setup_db_decision();
    let needs = should_crawl_room(&db, "!room", Some(1_000), 2_000, None);
    assert!(needs, "rooms without metadata must be crawled");
}

#[test]
fn decision_needs_crawl_when_newest_before_window_start() {
    let mut db = setup_db_decision();
    db.update_room_metadata(
        "!room",
        Some("oldest".to_owned()),
        Some(500),
        Some("newest".to_owned()),
        Some(1000),
        false,
    );
    let needs = should_crawl_room(&db, "!room", Some(2_000), 3_000, None);
    assert!(needs, "stale newest timestamp should trigger a crawl");
}

#[test]
fn decision_skips_when_window_covered() {
    let mut db = setup_db_decision();
    db.update_room_metadata(
        "!room",
        Some("oldest".to_owned()),
        Some(500),
        Some("newest".to_owned()),
        Some(3000),
        true,
    );
    let needs = should_crawl_room(&db, "!room", Some(1_000), 2_000, None);
    assert!(!needs, "window fully covered should skip crawling");
}

#[test]
fn decision_skips_when_latest_matches_db() {
    let mut db = setup_db_decision();
    db.update_room_metadata(
        "!room",
        Some("oldest".to_owned()),
        Some(500),
        Some("evt1".to_owned()),
        Some(1500),
        true,
    );
    let latest = ("evt1".to_owned(), 1500);
    let needs = should_crawl_room(&db, "!room", Some(1_000), 2_000, Some(&latest));
    assert!(!needs, "matching newest event should not trigger crawl");
}

#[test]
fn decision_skips_virgin_room_outside_window() {
    let db = setup_db_decision();
    let latest = ("evt1".to_owned(), 500);
    let needs = should_crawl_room(&db, "!room", Some(1_000), 2_000, Some(&latest));
    assert!(!needs, "virgin room with events before window should be skipped");
}

#[test]
fn decision_crawls_virgin_room_with_events_in_window() {
    let db = setup_db_decision();
    let latest = ("evt1".to_owned(), 1500);
    let needs = should_crawl_room(&db, "!room", Some(1_000), 2_000, Some(&latest));
    assert!(needs, "virgin room with events in window should be crawled");
}

#[test]
fn decision_needs_crawl_when_latest_matches_but_old_end_not_covered() {
    let mut db = setup_db_decision();
    db.update_room_metadata(
        "!room",
        Some("oldest_evt".to_owned()),
        Some(1500),
        Some("evt_match".to_owned()),
        Some(2000),
        false,
    );
    let latest = ("evt_match".to_owned(), 2000);
    let needs = should_crawl_room(&db, "!room", Some(1_000), 3_000, Some(&latest));
    assert!(needs, "should still crawl to cover older messages even if newest matches");
}

#[test]
fn decision_skips_when_fully_crawled_and_window_end_covered() {
    let mut db = setup_db_decision();
    db.update_room_metadata(
        "!room",
        Some("oldest_ever".to_owned()),
        Some(100),
        Some("newest_evt".to_owned()),
        Some(3000),
        true,
    );
    let latest = ("newest_evt".to_owned(), 3000);
    let needs = should_crawl_room(&db, "!room", Some(1_000), 2_000, Some(&latest));
    assert!(!needs, "fully crawled with window end covered should skip");
}

#[test]
fn decision_skips_virgin_room_when_latest_before_window_start() {
    let db = setup_db_decision();
    let latest = ("old_evt".to_owned(), 500);
    let needs = should_crawl_room(&db, "!room", Some(1_000), 2_000, Some(&latest));
    assert!(!needs, "virgin room with events before window should skip");
}

#[test]
fn decision_crawls_with_window_start_none_when_not_fully_crawled() {
    let mut db = setup_db_decision();
    db.update_room_metadata(
        "!room",
        Some("oldest".to_owned()),
        Some(1000),
        Some("newest".to_owned()),
        Some(2000),
        false,
    );
    let latest = ("newest".to_owned(), 2000);
    let needs = should_crawl_room(&db, "!room", None, 3_000, Some(&latest));
    assert!(needs, "window_start=None should crawl if not fully_crawled");
}

#[test]
fn decision_skips_with_window_start_none_when_fully_crawled() {
    let mut db = setup_db_decision();
    db.update_room_metadata(
        "!room",
        Some("oldest_ever".to_owned()),
        Some(1),
        Some("newest".to_owned()),
        Some(2000),
        true,
    );
    let latest = ("newest".to_owned(), 2000);
    let needs = should_crawl_room(&db, "!room", None, 3_000, Some(&latest));
    assert!(!needs, "window_start=None should skip if fully_crawled");
}

#[test]
fn decision_crawls_when_newest_ts_before_window_end() {
    let mut db = setup_db_decision();
    db.update_room_metadata(
        "!room",
        Some("oldest".to_owned()),
        Some(500),
        Some("old_newest".to_owned()),
        Some(1500),
        false,
    );
    let latest = ("newer_event".to_owned(), 1750);
    let needs = should_crawl_room(&db, "!room", Some(1_000), 2_000, Some(&latest));
    assert!(needs, "should crawl when newest_ts < window_end");
}

#[test]
fn decision_sequential_crawls_first_then_second_window() {
    let mut db = setup_db_decision();
    db.update_room_metadata(
        "!room",
        Some("evt_2024_jan".to_owned()),
        Some(1_704_067_200_000),
        Some("evt_2024_dec".to_owned()),
        Some(1_735_689_599_999),
        false,
    );

    let window_2025_start = 1_735_689_600_000i64;
    let window_2025_end = 1_767_225_599_999i64;
    let latest_2025 = ("evt_2025_dec".to_owned(), window_2025_end);

    let needs = should_crawl_room(
        &db,
        "!room",
        Some(window_2025_start),
        window_2025_end,
        Some(&latest_2025),
    );
    assert!(needs, "should crawl 2025 window even after crawling 2024");
}

#[test]
fn select_room_ids_filters_correctly() {
    let mut db = setup_db_decision();
    // Room A: fully crawled and window end covered -> skip
    db.update_room_metadata(
        "!A",
        Some("oldest".to_owned()),
        Some(1_000),
        Some("newest".to_owned()),
        Some(3_000),
        true,
    );
    // Room B: not fully crawled, newest before window end -> crawl
    db.update_room_metadata(
        "!B",
        Some("oldest".to_owned()),
        Some(500),
        Some("newest".to_owned()),
        Some(1_500),
        false,
    );

    let ids = vec!["!A".to_string(), "!B".to_string()];
    let window_start = Some(1_000);
    let window_end = Some(2_000);
    let mut latest = LatestEvents::new();
    latest.insert("!A", "newest", 3_000);
    latest.insert("!B", "something", 1_750);

    let selected = select_room_ids_to_crawl(&ids, &db, window_start, window_end, &latest);
    assert_eq!(selected, vec!["!B".to_string()]);
}

#[test]
fn record_skipped_virgin_rooms_ids_updates_db() {
    let mut db = setup_db_decision();
    // Joined rooms: A and B; we will crawl A, skip B
    let joined = vec!["!A".to_string(), "!B".to_string()];
    let mut crawl_ids = TextSet::new();
    crawl_ids.insert("!A");
    let mut latest = LatestEvents::new();
    latest.insert("!A", "evtA", 1_000);
    latest.insert("!B", "evtB", 2_000);

    // Precondition: no metadata for B
    assert!(db.get_room_metadata("!B").is_none());

    record_skipped_virgin_rooms_ids(&mut db, &joined, &crawl_ids, &latest);

    // Postcondition: metadata recorded for B
    let meta_b = db.get_room_metadata("!B").expect("metadata for B");
    assert_eq!(meta_b.newest_event_id.as_deref(), Some("evtB"));
    assert_eq!(meta_b.newest_event_ts, Some(2_000));
    assert_eq!(meta_b.oldest_event_id.as_deref(), Some("evtB"));
    assert_eq!(meta_b.oldest_event_ts, Some(2_000));
    assert!(!meta_b.fully_crawled);
}

#[test]
fn record_skipped_virgin_rooms_ids_missing_latest_is_noop() {
    let mut db = setup_db_decision();
    let joined = vec!["!C".to_string()];
    let crawl_ids = TextSet::new();
    let latest = LatestEvents::new();

    // Precondition: no metadata
    assert!(db.get_room_metadata("!C").is_none());
    record_skipped_virgin_rooms_ids(&mut db, &joined, &crawl_ids, &latest);
    // Still none since we had no latest
    assert!(db.get_room_metadata("!C").is_none());
}

use my::crawl_db::{CrawlDb, CrawlStatus, TimeWindow};

fn merge(db: &mut CrawlDb, room: &str, oldest: Option<(&str, i64)>, newest: Option<(&str, i64)>, full: bool) {
    db.update_room_metadata(
        room,
        oldest.map(|o| o.0.to_string()),
        oldest.map(|o| o.1),
        newest.map(|n| n.0.to_string()),
        newest.map(|n| n.1),
        full,
    );
}

#[test]
fn status_names_and_messages() {
    assert_eq!(CrawlStatus::Virgin.as_str(), "virgin");
    assert_eq!(CrawlStatus::Success.as_str(), "success");
    assert_eq!(CrawlStatus::InProgress.as_str(), "in_progress");
    assert_eq!(CrawlStatus::Error("boom".to_string()).as_str(), "error");
    assert_eq!(CrawlStatus::Error("boom".to_string()).error_message(), Some("boom"));
    assert_eq!(CrawlStatus::Success.error_message(), None);
    assert_eq!(CrawlStatus::Virgin.error_message(), None);
    assert_eq!(CrawlStatus::InProgress.error_message(), None);
}

#[test]
fn first_write_stores_the_report_as_it_is() {
    let mut db = CrawlDb::new();
    assert_eq!(db.room_count(), 0);
    merge(&mut db, "!r", Some(("o", 500)), Some(("n", 900)), false);
    let row = db.get_room_metadata("!r").unwrap();
    assert_eq!(row.room_id, "!r");
    assert_eq!(row.oldest_event_id.as_deref(), Some("o"));
    assert_eq!(row.oldest_event_ts, Some(500));
    assert_eq!(row.newest_event_id.as_deref(), Some("n"));
    assert_eq!(row.newest_event_ts, Some(900));
    assert!(!row.fully_crawled);
    assert_eq!(row.total_events_fetched, 0);
    assert_eq!(row.user_events_fetched, 0);
    assert_eq!(row.last_crawl_status, None);
    assert_eq!(db.room_count(), 1);
    assert!(db.get_room_metadata("!other").is_none());
}

#[test]
fn extrema_only_widen_across_re_crawls() {
    let mut db = CrawlDb::new();
    merge(&mut db, "!r", Some(("o", 500)), Some(("n", 900)), false);
    // a narrower report moves neither end, but its ids replace the old ones
    merge(&mut db, "!r", Some(("o2", 600)), Some(("n2", 800)), false);
    let row = db.get_room_metadata("!r").unwrap();
    assert_eq!(row.oldest_event_ts, Some(500));
    assert_eq!(row.newest_event_ts, Some(900));
    assert_eq!(row.oldest_event_id.as_deref(), Some("o2"));
    assert_eq!(row.newest_event_id.as_deref(), Some("n2"));
    // a wider report moves both
    merge(&mut db, "!r", Some(("o3", 100)), Some(("n3", 1_000)), false);
    let row = db.get_room_metadata("!r").unwrap();
    assert_eq!(row.oldest_event_ts, Some(100));
    assert_eq!(row.newest_event_ts, Some(1_000));
    assert!(row.oldest_event_ts <= row.newest_event_ts);
}

#[test]
fn an_id_without_timestamp_replaces_nothing() {
    let mut db = CrawlDb::new();
    merge(&mut db, "!r", Some(("o", 500)), Some(("n", 900)), false);
    db.update_room_metadata("!r", Some("x".to_string()), None, Some("y".to_string()), None, false);
    let row = db.get_room_metadata("!r").unwrap();
    assert_eq!(row.oldest_event_id.as_deref(), Some("o"));
    assert_eq!(row.newest_event_id.as_deref(), Some("n"));
    // a timestamp without id moves the end and keeps the id
    db.update_room_metadata("!r", None, Some(400), None, Some(950), false);
    let row = db.get_room_metadata("!r").unwrap();
    assert_eq!(row.oldest_event_ts, Some(400));
    assert_eq!(row.oldest_event_id.as_deref(), Some("o"));
    assert_eq!(row.newest_event_ts, Some(950));
    assert_eq!(row.newest_event_id.as_deref(), Some("n"));
}

#[test]
fn fully_crawled_sticks() {
    let mut db = CrawlDb::new();
    merge(&mut db, "!r", Some(("o", 500)), Some(("n", 900)), true);
    merge(&mut db, "!r", Some(("o", 700)), Some(("n", 800)), false);
    db.set_crawl_status("!r", CrawlStatus::Error("x".to_string()));
    db.update_max_event_counts("!r", 1, 1);
    assert!(db.get_room_metadata("!r").unwrap().fully_crawled);
    assert_eq!(db.fully_crawled_room_count(), 1);
}

#[test]
fn counters_keep_the_largest_count() {
    let mut db = CrawlDb::new();
    db.update_max_event_counts("!r", 10, 4);
    db.update_max_event_counts("!r", 7, 9);
    let row = db.get_room_metadata("!r").unwrap();
    assert_eq!(row.total_events_fetched, 10);
    assert_eq!(row.user_events_fetched, 9);
    db.update_max_event_counts("!r", 11, 0);
    let row = db.get_room_metadata("!r").unwrap();
    assert_eq!(row.total_events_fetched, 11);
    assert_eq!(row.user_events_fetched, 9);
    assert_eq!(row.oldest_event_ts, None);
}

#[test]
fn status_touches_nothing_else() {
    let mut db = CrawlDb::new();
    merge(&mut db, "!r", Some(("o", 500)), Some(("n", 900)), true);
    db.update_max_event_counts("!r", 3, 2);
    db.set_crawl_status("!r", CrawlStatus::InProgress);
    let row = db.get_room_metadata("!r").unwrap();
    assert_eq!(row.last_crawl_status, Some(CrawlStatus::InProgress));
    assert_eq!(row.oldest_event_ts, Some(500));
    assert_eq!(row.newest_event_ts, Some(900));
    assert_eq!(row.total_events_fetched, 3);
    assert!(row.fully_crawled);
    db.set_crawl_status("!r", CrawlStatus::Error("timeout".to_string()));
    let row = db.get_room_metadata("!r").unwrap();
    assert_eq!(row.last_crawl_status, Some(CrawlStatus::Error("timeout".to_string())));
    // a status alone makes a row
    db.set_crawl_status("!new", CrawlStatus::Virgin);
    let row = db.get_room_metadata("!new").unwrap();
    assert_eq!(row.last_crawl_status, Some(CrawlStatus::Virgin));
    assert_eq!(row.newest_event_ts, None);
    assert_eq!(db.room_count(), 2);
}

#[test]
fn time_window_of_an_empty_store_is_none() {
    assert_eq!(CrawlDb::new().get_time_window(), None);
}

#[test]
fn time_window_starts_nowhere_when_all_rooms_are_fully_crawled() {
    let mut db = CrawlDb::new();
    merge(&mut db, "!a", Some(("o", 100)), Some(("n", 900)), true);
    merge(&mut db, "!b", Some(("o", 300)), Some(("n", 700)), true);
    assert_eq!(
        db.get_time_window(),
        Some(TimeWindow { window_start: None, window_end: Some(900), account_creation_ts: Some(100) })
    );
}

#[test]
fn time_window_starts_at_the_newest_oldest_of_rooms_not_fully_crawled() {
    let mut db = CrawlDb::new();
    merge(&mut db, "!a", Some(("o", 100)), Some(("n", 900)), true);
    merge(&mut db, "!b", Some(("o", 300)), Some(("n", 700)), false);
    merge(&mut db, "!c", Some(("o", 200)), Some(("n", 950)), false);
    assert_eq!(
        db.get_time_window(),
        Some(TimeWindow {
            window_start: Some(300),
            window_end: Some(950),
            account_creation_ts: Some(100),
        })
    );
    assert_eq!(db.fully_crawled_room_count(), 1);
    assert_eq!(db.room_count(), 3);
}

#[test]
fn time_window_of_rows_without_timestamps() {
    let mut db = CrawlDb::new();
    db.set_crawl_status("!a", CrawlStatus::InProgress);
    assert_eq!(
        db.get_time_window(),
        Some(TimeWindow { window_start: None, window_end: None, account_creation_ts: None })
    );
}

#[test]
fn rooms_are_listed_by_rank_then_by_id() {
    let mut db = CrawlDb::new();
    db.set_crawl_status("!e", CrawlStatus::Error("x".to_string()));
    db.set_crawl_status("!p", CrawlStatus::InProgress);
    db.set_crawl_status("!s2", CrawlStatus::Success);
    db.set_crawl_status("!s1", CrawlStatus::Success);
    merge(&mut db, "!full", Some(("o", 1)), Some(("n", 2)), true);
    db.set_crawl_status("!full", CrawlStatus::Success);
    db.set_crawl_status("!v2", CrawlStatus::Virgin);
    db.set_crawl_status("!v1", CrawlStatus::Virgin);
    merge(&mut db, "!none", None, Some(("n", 2)), false);
    let listed: Vec<String> = db.get_all_rooms_sorted().into_iter().map(|r| r.room_id).collect();
    assert_eq!(listed, vec!["!v1", "!v2", "!full", "!s1", "!s2", "!p", "!e", "!none"]);
}

#[test]
fn room_ids_are_ordered_by_code_point() {
    let mut db = CrawlDb::new();
    for id in ["!b", "!B", "!a", "!é", "!", "!aa", "!z"] {
        db.set_crawl_status(id, CrawlStatus::Virgin);
    }
    let listed: Vec<String> = db.get_all_rooms_sorted().into_iter().map(|r| r.room_id).collect();
    let mut expected = vec!["!b", "!B", "!a", "!é", "!", "!aa", "!z"];
    expected.sort();
    assert_eq!(listed, expected);
}

#[test]
fn statuses_are_read_back_as_stored() {
    for status in [
        CrawlStatus::Virgin,
        CrawlStatus::Success,
        CrawlStatus::InProgress,
        CrawlStatus::Error("boom".to_string()),
    ] {
        let stored = CrawlStatus::from_stored(
            Some(status.as_str()),
            status.error_message().map(|m| m.to_string()),
        );
        assert_eq!(stored, Some(status));
    }
    assert_eq!(CrawlStatus::from_stored(None, Some("x".to_string())), None);
    assert_eq!(CrawlStatus::from_stored(Some("error"), None), None);
    assert_eq!(CrawlStatus::from_stored(Some("done"), None), None);
    assert_eq!(CrawlStatus::from_stored(Some("Success"), None), None);
    assert_eq!(CrawlStatus::from_stored(Some("success"), Some("x".to_string())), Some(CrawlStatus::Success));
}

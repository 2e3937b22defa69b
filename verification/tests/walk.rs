use my::calendar::{local_stamp, CivilDate, LocalStamp};
use my::crawl::pagination::{fold_event, fold_event_at, BatchVerdict, RoomWalk};
use my::crawl::types::{BatchOutcome, DetailedPaginationStats, EventKind, TimelineEvent};
use my::crawl::{
    begin_room, classify_room_type, commit_room, fail_room, store_room, tally_room, CrawlTally,
    RoomOutcome, RoomType,
};
use my::crawl::decision::{record_skipped_virgin_rooms_ids, select_room_ids_to_crawl, LatestEvents};
use my::crawl::counts::TextSet;
use my::crawl_db::{CrawlDb, CrawlStatus};
use my::stats_builder::build_stats;
use my::window::WindowScope;

const OWNER: &str = "@me:example.org";

fn message(id: &str, ts: i64, sender: &str) -> TimelineEvent {
    TimelineEvent {
        event_id: Some(id.to_string()),
        timestamp: Some(ts),
        sender: sender.to_string(),
        kind: EventKind::Message,
    }
}

fn reaction(id: &str, ts: i64, emoji: &str, target: &str) -> TimelineEvent {
    TimelineEvent {
        event_id: Some(id.to_string()),
        timestamp: Some(ts),
        sender: "@other:example.org".to_string(),
        kind: EventKind::Reaction { emoji: emoji.to_string(), target_event_id: target.to_string() },
    }
}

/// 2025-03-15 Saturday 14:xx, ISO week 11.
fn afternoon() -> LocalStamp {
    LocalStamp {
        date: CivilDate { year: 2025, month: 3, day: 15 },
        hour: 14,
        weekday: 6,
        iso_year: 2025,
        iso_week: 11,
    }
}

#[test]
fn own_message_counts_once_in_every_bucket() {
    let mut stats = DetailedPaginationStats::new(None, None);
    fold_event_at(&mut stats, &message("$1", 1_500, OWNER), Some(afternoon()), Some(1_000), 2_000, OWNER);
    assert_eq!(stats.total_events, 1);
    assert_eq!(stats.user_events, 1);
    assert_eq!(stats.by_year.get("2025"), Some(1));
    assert_eq!(stats.by_month.get("03"), Some(1));
    assert_eq!(stats.by_week.get("2025-W11"), Some(1));
    assert_eq!(stats.by_weekday.get("6"), Some(1));
    assert_eq!(stats.by_day.get("2025-03-15"), Some(1));
    assert_eq!(stats.by_hour.get("14"), Some(1));
    for map in [&stats.by_year, &stats.by_month, &stats.by_week, &stats.by_weekday, &stats.by_day, &stats.by_hour] {
        assert_eq!(map.len(), 1);
    }
    assert!(stats.active_dates.contains("2025-03-15"));
    assert_eq!(stats.active_dates.len(), 1);
    assert!(stats.user_message_ids.contains("$1"));
    assert_eq!(stats.oldest_ts, Some(1_500));
    assert_eq!(stats.newest_ts, Some(1_500));
    // a second message in the same hour raises the same buckets
    fold_event_at(&mut stats, &message("$2", 1_600, OWNER), Some(afternoon()), Some(1_000), 2_000, OWNER);
    assert_eq!(stats.by_hour.get("14"), Some(2));
    assert_eq!(stats.by_hour.len(), 1);
    assert_eq!(stats.active_dates.len(), 1);
    assert_eq!(stats.user_events, 2);
}

#[test]
fn encrypted_messages_count_like_messages() {
    let mut stats = DetailedPaginationStats::new(None, None);
    let mut event = message("$1", 1_500, OWNER);
    event.kind = EventKind::Encrypted;
    fold_event_at(&mut stats, &event, Some(afternoon()), None, 2_000, OWNER);
    assert_eq!(stats.user_events, 1);
    assert_eq!(stats.by_year.get("2025"), Some(1));
}

#[test]
fn messages_of_others_count_as_events_only() {
    let mut stats = DetailedPaginationStats::new(None, None);
    fold_event_at(&mut stats, &message("$1", 1_500, "@other:example.org"), Some(afternoon()), Some(1_000), 2_000, OWNER);
    assert_eq!(stats.total_events, 1);
    assert_eq!(stats.user_events, 0);
    assert!(stats.by_year.is_empty());
    assert!(stats.active_dates.is_empty());
    assert!(stats.user_message_ids.is_empty());
}

#[test]
fn window_ends_belong_to_the_window() {
    for (ts, inside) in [(999, false), (1_000, true), (2_000, true), (2_001, false)] {
        let mut stats = DetailedPaginationStats::new(None, None);
        fold_event_at(&mut stats, &message("$1", ts, OWNER), Some(afternoon()), Some(1_000), 2_000, OWNER);
        assert_eq!(stats.user_events, usize::from(inside), "ts {}", ts);
        assert_eq!(stats.total_events, usize::from(inside), "ts {}", ts);
        // the coverage moves in any case
        assert_eq!(stats.oldest_ts, Some(ts));
        assert_eq!(stats.newest_ts, Some(ts));
    }
    // no start: no lower bound
    let mut stats = DetailedPaginationStats::new(None, None);
    fold_event_at(&mut stats, &message("$1", i64::MIN, OWNER), Some(afternoon()), None, 2_000, OWNER);
    assert_eq!(stats.user_events, 1);
}

#[test]
fn events_without_timestamp_or_local_time() {
    let mut stats = DetailedPaginationStats::new(None, None);
    let mut event = message("$1", 1_500, OWNER);
    event.timestamp = None;
    fold_event_at(&mut stats, &event, Some(afternoon()), Some(1_000), 2_000, OWNER);
    assert_eq!(stats.total_events, 0);
    assert_eq!(stats.oldest_ts, None);
    // without a local time the event counts, and no more
    fold_event_at(&mut stats, &message("$2", 1_500, OWNER), None, Some(1_000), 2_000, OWNER);
    assert_eq!(stats.total_events, 1);
    assert_eq!(stats.user_events, 0);
    assert_eq!(stats.oldest_ts, Some(1_500));
}

#[test]
fn ties_keep_the_id_that_was_there() {
    let mut stats = DetailedPaginationStats::new(None, None);
    for id in ["$first", "$second"] {
        fold_event_at(&mut stats, &message(id, 1_500, OWNER), Some(afternoon()), None, 2_000, OWNER);
    }
    assert_eq!(stats.oldest_event_id.as_deref(), Some("$first"));
    assert_eq!(stats.newest_event_id.as_deref(), Some("$first"));
    fold_event_at(&mut stats, &message("$older", 1_400, OWNER), Some(afternoon()), None, 2_000, OWNER);
    fold_event_at(&mut stats, &message("$newer", 1_600, OWNER), Some(afternoon()), None, 2_000, OWNER);
    assert_eq!(stats.oldest_event_id.as_deref(), Some("$older"));
    assert_eq!(stats.newest_event_id.as_deref(), Some("$newer"));
    assert_eq!(stats.oldest_ts, Some(1_400));
    assert_eq!(stats.newest_ts, Some(1_600));
}

#[test]
fn the_newest_event_in_memory_seeds_the_coverage() {
    let mut stats = DetailedPaginationStats::new(Some("$seed".to_string()), Some(5_000));
    fold_event_at(&mut stats, &message("$1", 1_500, OWNER), Some(afternoon()), None, 9_000, OWNER);
    assert_eq!(stats.newest_event_id.as_deref(), Some("$seed"));
    assert_eq!(stats.newest_ts, Some(5_000));
    assert_eq!(stats.oldest_ts, Some(1_500));
}

#[test]
fn reactions_count_only_for_known_messages_of_the_owner() {
    let mut stats = DetailedPaginationStats::new(None, None);
    // the reaction comes before its target is known: ignored
    fold_event_at(&mut stats, &reaction("$r0", 1_500, "👍", "$1"), Some(afternoon()), None, 2_000, OWNER);
    assert!(stats.reactions_by_emoji.is_empty());
    fold_event_at(&mut stats, &message("$1", 1_500, OWNER), Some(afternoon()), None, 2_000, OWNER);
    fold_event_at(&mut stats, &message("$2", 1_500, "@other:example.org"), Some(afternoon()), None, 2_000, OWNER);
    fold_event_at(&mut stats, &reaction("$r1", 1_600, "👍", "$1"), Some(afternoon()), None, 2_000, OWNER);
    fold_event_at(&mut stats, &reaction("$r2", 1_600, "🎉", "$1"), Some(afternoon()), None, 2_000, OWNER);
    fold_event_at(&mut stats, &reaction("$r3", 1_600, "👍", "$2"), Some(afternoon()), None, 2_000, OWNER);
    fold_event_at(&mut stats, &reaction("$r4", 1_600, "👍", "$unknown"), Some(afternoon()), None, 2_000, OWNER);
    assert_eq!(stats.reactions_by_emoji.get("👍"), Some(1));
    assert_eq!(stats.reactions_by_emoji.get("🎉"), Some(1));
    assert_eq!(stats.reactions_by_message.get("$1"), Some(2));
    assert_eq!(stats.reactions_by_message.get("$2"), None);
    assert_eq!(stats.reactions_by_message.len(), 1);
    assert_eq!(stats.total_events, 7);
    assert_eq!(stats.user_events, 1);
}

#[test]
fn room_creation_by_the_owner_is_noted() {
    let mut stats = DetailedPaginationStats::new(None, None);
    let mut create = message("$c", 1_500, "@other:example.org");
    create.kind = EventKind::StateCreate;
    fold_event_at(&mut stats, &create, Some(afternoon()), None, 2_000, OWNER);
    assert!(!stats.room_created_by_user);
    create.sender = OWNER.to_string();
    fold_event_at(&mut stats, &create, Some(afternoon()), None, 2_000, OWNER);
    assert!(stats.room_created_by_user);
    let mut other = message("$o", 1_500, OWNER);
    other.kind = EventKind::Other;
    fold_event_at(&mut stats, &other, Some(afternoon()), None, 2_000, OWNER);
    assert_eq!(stats.total_events, 3);
    assert_eq!(stats.user_events, 0);
}

#[test]
fn bucket_keys_of_odd_years() {
    let mut stats = DetailedPaginationStats::new(None, None);
    let stamp = LocalStamp {
        date: CivilDate { year: 2024, month: 12, day: 30 },
        hour: 0,
        weekday: 1,
        iso_year: 2025,
        iso_week: 1,
    };
    fold_event_at(&mut stats, &message("$1", 1_500, OWNER), Some(stamp), None, 2_000, OWNER);
    assert_eq!(stats.by_year.get("2024"), Some(1));
    assert_eq!(stats.by_week.get("2025-W01"), Some(1));
    assert_eq!(stats.by_hour.get("00"), Some(1));
    assert_eq!(stats.by_weekday.get("1"), Some(1));
    assert_eq!(stats.by_day.get("2024-12-30"), Some(1));
}

#[test]
fn local_time_comes_from_the_zone() {
    // 2025-01-01 00:00:00 UTC: no zone is more than a day away
    let stamp = local_stamp(1_735_689_600_000).unwrap();
    let day = (stamp.date.year, stamp.date.month, stamp.date.day);
    assert!([(2024, 12, 31), (2025, 1, 1), (2025, 1, 2)].contains(&day), "{:?}", day);
    let weekday = match day { (2024, 12, 31) => 2, (2025, 1, 1) => 3, _ => 4 };
    assert_eq!(stamp.weekday, weekday);
    assert_eq!((stamp.iso_year, stamp.iso_week), (2025, 1));
    assert!(stamp.hour < 24);
    // outside the years 1 to 9999 no local time is asked for
    assert_eq!(local_stamp(i64::MAX), None);
    assert_eq!(local_stamp(-62_135_596_800_001), None);
    assert!(local_stamp(-62_135_596_800_000).is_some());
    assert!(local_stamp(253_402_300_799_999).is_some());
    assert_eq!(local_stamp(253_402_300_800_000), None);
}

#[test]
fn fold_event_reads_the_local_time_itself() {
    let mut stats = DetailedPaginationStats::new(None, None);
    let used = fold_event(&mut stats, &message("$1", 1_735_732_800_000, OWNER), None, i64::MAX, OWNER);
    let stamp = used.unwrap();
    assert_eq!(stats.user_events, 1);
    assert_eq!(stats.by_year.get(&stamp.date.year.to_string()), Some(1));
    assert_eq!(stats.by_hour.get(&format!("{:02}", stamp.hour)), Some(1));
    assert_eq!(stats.by_month.get(&format!("{:02}", stamp.date.month)), Some(1));
    assert_eq!(stats.by_weekday.get(&stamp.weekday.to_string()), Some(1));
}

#[test]
fn the_walk_stops_at_the_start_of_the_window() {
    let mut walk = RoomWalk::start(None, None);
    let locals = vec![Some(afternoon()); 2];
    let batch = BatchOutcome {
        events: vec![message("$2", 1_800, OWNER), message("$1", 1_500, OWNER)],
        reached_start: false,
    };
    let verdict = walk.absorb_batch_at(&batch, &locals, Some(1_000), 2_000, OWNER);
    assert_eq!(verdict, BatchVerdict { report_progress: true, keep_going: true });
    // an event exactly at the start lies in the window and stops the walk
    let batch = BatchOutcome {
        events: vec![message("$0", 1_000, OWNER), message("$x", 900, OWNER)],
        reached_start: false,
    };
    let verdict = walk.absorb_batch_at(&batch, &locals, Some(1_000), 2_000, OWNER);
    assert_eq!(verdict, BatchVerdict { report_progress: true, keep_going: false });
    assert!(walk.stop_at_window);
    assert!(!walk.stats.fully_crawled);
    assert_eq!(walk.stats.user_events, 3);
    assert_eq!(walk.progress_events, 4);
    assert_eq!(walk.stats.oldest_ts, Some(900));
    assert_eq!(walk.stats.newest_ts, Some(1_800));
}

#[test]
fn the_walk_stops_at_the_creation_of_the_room() {
    let mut walk = RoomWalk::start(None, None);
    let batch = BatchOutcome { events: vec![message("$1", 1_500, OWNER)], reached_start: true };
    let verdict = walk.absorb_batch_at(&batch, &vec![Some(afternoon())], None, 2_000, OWNER);
    assert_eq!(verdict, BatchVerdict { report_progress: true, keep_going: false });
    assert!(walk.stats.fully_crawled);
    assert_eq!(walk.stats.user_events, 1);
    assert!(!walk.stop_at_window);
}

#[test]
fn an_empty_batch_ends_the_walk_without_report() {
    let mut walk = RoomWalk::start(None, None);
    let batch = BatchOutcome { events: vec![], reached_start: false };
    let verdict = walk.absorb_batch_at(&batch, &vec![], None, 2_000, OWNER);
    assert_eq!(verdict, BatchVerdict { report_progress: false, keep_going: false });
    assert!(!walk.stats.fully_crawled);
    let batch = BatchOutcome { events: vec![], reached_start: true };
    let verdict = walk.absorb_batch(&batch, None, 2_000, OWNER);
    assert_eq!(verdict, BatchVerdict { report_progress: false, keep_going: false });
    assert!(walk.stats.fully_crawled);
}

#[test]
fn cached_events_never_stop_the_walk() {
    let mut walk = RoomWalk::start(Some("$seed".to_string()), Some(1_900));
    let events = vec![message("$1", 500, OWNER), message("$2", 1_500, OWNER)];
    let mut timeless = message("$3", 0, OWNER);
    timeless.timestamp = None;
    let events = [events, vec![timeless]].concat();
    walk.absorb_cached_at(&events, &vec![Some(afternoon()); 3], Some(1_000), 2_000, OWNER);
    assert!(!walk.stop_at_window);
    assert_eq!(walk.progress_events, 2);
    assert_eq!(walk.stats.total_events, 1);
    assert_eq!(walk.stats.oldest_ts, Some(500));
    assert_eq!(walk.stats.newest_ts, Some(1_900));
    let (crawl, detailed) = walk.finish("!room", "Room");
    assert_eq!(crawl.room_id, "!room");
    assert_eq!(crawl.room_name, "Room");
    assert_eq!(crawl.oldest_event_id.as_deref(), Some("$1"));
    assert_eq!(crawl.newest_event_id.as_deref(), Some("$seed"));
    assert_eq!(crawl.total_events, 1);
    assert_eq!(crawl.user_events, 1);
    assert!(!crawl.fully_crawled);
    assert_eq!(detailed.user_events, 1);
}

#[test]
fn rooms_are_classified() {
    assert_eq!(classify_room_type(Some(true), true), RoomType::Dm);
    assert_eq!(classify_room_type(Some(true), false), RoomType::Dm);
    assert_eq!(classify_room_type(Some(false), true), RoomType::Public);
    assert_eq!(classify_room_type(Some(false), false), RoomType::Private);
    assert_eq!(classify_room_type(None, true), RoomType::Private);
    assert_eq!(classify_room_type(None, false), RoomType::Private);
}

#[test]
fn a_failed_room_keeps_its_coverage() {
    let mut db = CrawlDb::new();
    db.update_room_metadata("!r", Some("o".to_string()), Some(1), Some("n".to_string()), Some(2), false);
    let mut tally = CrawlTally::new();
    begin_room(&mut db, "!r");
    assert_eq!(db.get_room_metadata("!r").unwrap().last_crawl_status, Some(CrawlStatus::InProgress));
    commit_room(&mut db, &mut tally, RoomOutcome::Failed { room_id: "!r".to_string(), message: "Pagination failed".to_string() });
    let row = db.get_room_metadata("!r").unwrap();
    assert_eq!(row.last_crawl_status, Some(CrawlStatus::Error("Pagination failed".to_string())));
    assert_eq!(row.oldest_event_ts, Some(1));
    assert_eq!((tally.success_count, tally.error_count), (0, 1));
    fail_room(&mut db, &mut tally, "!other", "disk full".to_string());
    assert_eq!((tally.success_count, tally.error_count), (0, 2));
    assert!(tally.room_stats_inputs.is_empty());
}

/// A single joined room with three messages of the owner, crawled for a
/// window that covers them; then the same window again.
#[test]
fn one_room_crawled_twice() {
    let (window_start, window_end) = (Some(1_000), 3_000);
    let mut db = CrawlDb::new();
    let joined = vec!["!room".to_string()];
    let mut latest = LatestEvents::new();
    latest.insert("!room", "$3", 2_500);

    // the first run starts from nothing and selects the room
    let selected = select_room_ids_to_crawl(&joined, &db, window_start, Some(window_end), &latest);
    assert_eq!(selected, joined);
    let mut to_crawl = TextSet::new();
    to_crawl.insert("!room");
    record_skipped_virgin_rooms_ids(&mut db, &joined, &to_crawl, &latest);
    assert_eq!(db.room_count(), 0);

    begin_room(&mut db, "!room");
    let mut walk = RoomWalk::start(Some("$3".to_string()), Some(2_500));
    let events = vec![
        message("$3", 2_500, OWNER),
        message("$2", 1_800, OWNER),
        message("$1", 1_500, OWNER),
    ];
    let days = [16, 15, 15];
    let locals: Vec<Option<LocalStamp>> = days
        .iter()
        .map(|day| {
            let mut stamp = afternoon();
            stamp.date.day = *day;
            stamp.weekday = if *day == 16 { 7 } else { 6 };
            Some(stamp)
        })
        .collect();
    let verdict = walk.absorb_batch_at(
        &BatchOutcome { events, reached_start: true },
        &locals,
        window_start,
        window_end,
        OWNER,
    );
    assert!(!verdict.keep_going);
    let (crawl, detailed) = walk.finish("!room", "Room");
    let mut tally = CrawlTally::new();
    commit_room(&mut db, &mut tally, RoomOutcome::Crawled { stats: crawl, detailed, room_type: RoomType::Private });
    assert_eq!((tally.success_count, tally.error_count), (1, 0));

    let row = db.get_room_metadata("!room").unwrap();
    assert_eq!(row.oldest_event_ts, Some(1_500));
    assert_eq!(row.newest_event_ts, Some(2_500));
    assert!(row.fully_crawled);
    assert_eq!(row.total_events_fetched, 3);
    assert_eq!(row.user_events_fetched, 3);
    assert_eq!(row.last_crawl_status, Some(CrawlStatus::Success));

    let window = WindowScope::parse("2025").unwrap();
    let inputs = std::mem::take(&mut tally.room_stats_inputs);
    let doc = build_stats(inputs, OWNER, None, None, &window, 1).unwrap();
    assert_eq!(doc.summary.messages_sent, 3);
    assert_eq!(doc.summary.active_rooms, 1);
    assert_eq!(doc.coverage.days_active, Some(2));
    let peaks = doc.summary.peaks.unwrap();
    assert_eq!(peaks.day.as_ref().unwrap().day, "2025-03-15");
    assert_eq!(peaks.day.as_ref().unwrap().messages, 2);
    assert_eq!(peaks.hour.as_ref().unwrap().messages, 3);

    // the second run selects nothing and leaves the store as it is
    let selected = select_room_ids_to_crawl(&joined, &db, window_start, Some(window_end), &latest);
    assert!(selected.is_empty());
    record_skipped_virgin_rooms_ids(&mut db, &joined, &TextSet::new(), &latest);
    let again = db.get_room_metadata("!room").unwrap();
    assert_eq!(again.oldest_event_ts, Some(1_500));
    assert_eq!(again.newest_event_ts, Some(2_500));
    assert_eq!(again.last_crawl_status, Some(CrawlStatus::Success));
    assert_eq!(db.room_count(), 1);
}

#[test]
fn a_skipped_virgin_room_is_recorded_once() {
    let mut db = CrawlDb::new();
    let joined = vec!["!old".to_string(), "!silent".to_string()];
    let mut latest = LatestEvents::new();
    latest.insert("!old", "$e", 500);
    let selected = select_room_ids_to_crawl(&joined, &db, Some(1_000), Some(2_000), &latest);
    assert_eq!(selected, vec!["!silent".to_string()]);
    let mut to_crawl = TextSet::new();
    to_crawl.insert("!silent");
    record_skipped_virgin_rooms_ids(&mut db, &joined, &to_crawl, &latest);
    let row = db.get_room_metadata("!old").unwrap();
    assert_eq!(row.last_crawl_status, Some(CrawlStatus::Virgin));
    assert_eq!(row.oldest_event_ts, Some(500));
    assert_eq!(row.newest_event_ts, Some(500));
    assert!(db.get_room_metadata("!silent").is_none());
    // with its row the room is skipped again
    let selected = select_room_ids_to_crawl(&vec!["!old".to_string()], &db, Some(1_000), Some(2_000), &latest);
    assert!(selected.is_empty());
    // a later hint replaces an earlier one
    latest.insert("!old", "$newer", 1_500);
    assert_eq!(latest.get("!old"), Some(&("$newer".to_string(), 1_500)));
    let selected = select_room_ids_to_crawl(&vec!["!old".to_string()], &db, Some(1_000), Some(2_000), &latest);
    assert_eq!(selected, vec!["!old".to_string()]);
}

fn sum(map: &my::crawl::counts::CountMap) -> i64 {
    map.counts().iter().map(|&n| n as i64).sum()
}

#[test]
fn the_counts_of_a_walk_add_up() {
    let mut walk = RoomWalk::start(None, None);
    let morning = LocalStamp {
        date: CivilDate { year: 2024, month: 12, day: 30 },
        hour: 9,
        weekday: 1,
        iso_year: 2025,
        iso_week: 1,
    };
    let cached = vec![message("$9", 1_900, OWNER), reaction("$r0", 1_950, "👍", "$9")];
    walk.absorb_cached_at(&cached, &vec![Some(afternoon()), Some(afternoon())], Some(1_000), 2_000, OWNER);
    let batch = BatchOutcome {
        events: vec![
            message("$8", 1_800, OWNER),
            message("$7", 1_700, "@other:example.org"),
            reaction("$r1", 1_650, "👍", "$8"),
            reaction("$r2", 1_640, "🎉", "$8"),
            reaction("$r3", 1_630, "🎉", "$7"),
            reaction("$r4", 1_620, "🎉", "$6"),
            message("$6", 1_600, OWNER),
            message("$5", 2_500, OWNER),
            message("$4", 1_500, OWNER),
        ],
        reached_start: true,
    };
    let locals = vec![
        Some(afternoon()),
        Some(afternoon()),
        Some(afternoon()),
        Some(morning),
        Some(morning),
        Some(morning),
        Some(morning),
        Some(morning),
        None,
    ];
    walk.absorb_batch_at(&batch, &locals, Some(1_000), 2_000, OWNER);
    let stats = &walk.stats;
    // counted: $9, $8 and $6; $7 is another's, $5 lies outside, $4 has no local time
    assert_eq!(stats.user_events, 3);
    for map in [&stats.by_year, &stats.by_month, &stats.by_week, &stats.by_weekday, &stats.by_day, &stats.by_hour] {
        assert_eq!(sum(map), 3);
    }
    assert_eq!(stats.by_year.get("2025"), Some(2));
    assert_eq!(stats.by_year.get("2024"), Some(1));
    assert_eq!(stats.by_week.get("2025-W01"), Some(1));
    assert_eq!(stats.active_dates.len(), 2);
    assert!(stats.active_dates.contains("2025-03-15"));
    assert!(stats.active_dates.contains("2024-12-30"));
    assert_eq!(stats.user_message_ids.len(), 3);
    for id in ["$9", "$8", "$6"] {
        assert!(stats.user_message_ids.contains(id));
    }
    // the reaction to $6 came before $6 was seen, that to $7 answers another's message
    assert_eq!(sum(&stats.reactions_by_emoji), 3);
    assert_eq!(sum(&stats.reactions_by_message), 3);
    assert_eq!(stats.reactions_by_emoji.get("👍"), Some(2));
    assert_eq!(stats.reactions_by_emoji.get("🎉"), Some(1));
    assert_eq!(stats.reactions_by_message.get("$8"), Some(2));
    assert_eq!(stats.reactions_by_message.get("$9"), Some(1));
    for i in 0..stats.reactions_by_message.len() {
        assert!(stats.user_message_ids.contains(stats.reactions_by_message.key_at(i)));
    }
    assert!(stats.fully_crawled);
}

#[test]
fn two_batches_count_as_one() {
    let events = vec![
        message("$3", 1_800, OWNER),
        reaction("$r", 1_700, "👍", "$3"),
        message("$2", 1_600, OWNER),
        message("$1", 1_500, "@other:example.org"),
    ];
    let locals = vec![Some(afternoon()); 4];
    let mut once = RoomWalk::start(None, None);
    once.absorb_batch_at(
        &BatchOutcome { events: events.clone(), reached_start: false },
        &locals,
        Some(1_000),
        2_000,
        OWNER,
    );
    let mut twice = RoomWalk::start(None, None);
    twice.absorb_batch_at(
        &BatchOutcome { events: events[..2].to_vec(), reached_start: false },
        &locals[..2].to_vec(),
        Some(1_000),
        2_000,
        OWNER,
    );
    twice.absorb_batch_at(
        &BatchOutcome { events: events[2..].to_vec(), reached_start: false },
        &locals[2..].to_vec(),
        Some(1_000),
        2_000,
        OWNER,
    );
    assert_eq!(once.stats.user_events, twice.stats.user_events);
    assert_eq!(once.stats.total_events, twice.stats.total_events);
    assert_eq!(once.stats.by_hour.get("14"), twice.stats.by_hour.get("14"));
    assert_eq!(once.stats.reactions_by_message.get("$3"), twice.stats.reactions_by_message.get("$3"));
    assert_eq!(once.stats.oldest_event_id, twice.stats.oldest_event_id);
    assert_eq!(once.stats.newest_event_id, twice.stats.newest_event_id);
    assert_eq!(once.progress_events, twice.progress_events);
}

#[test]
fn a_walk_is_counted_once_its_row_is_stored() {
    let mut walk = RoomWalk::start(None, None);
    let batch = BatchOutcome { events: vec![message("$1", 1_500, OWNER)], reached_start: true };
    walk.absorb_batch_at(&batch, &vec![Some(afternoon())], Some(1_000), 2_000, OWNER);
    let (stats, detailed) = walk.finish("!r", "Room");
    let outcome = RoomOutcome::Crawled { stats, detailed, room_type: RoomType::Private };

    let mut db = CrawlDb::new();
    db.update_room_metadata("!other", None, None, None, None, false);
    let mut next = db.copy();
    store_room(&mut next, &outcome);
    // the copy has the row, the store it was taken from has not
    assert!(db.get_room_metadata("!r").is_none());
    assert_eq!(db.room_count(), 1);
    let row = next.get_room_metadata("!r").unwrap();
    assert_eq!(row.last_crawl_status, Some(CrawlStatus::Success));
    assert_eq!((row.oldest_event_ts, row.newest_event_ts, row.fully_crawled), (Some(1_500), Some(1_500), true));
    assert_eq!((row.total_events_fetched, row.user_events_fetched), (1, 1));
    assert_eq!(next.room_count(), 2);
    assert!(next.get_room_metadata("!other").is_some());

    let mut tally = CrawlTally::new();
    tally_room(&mut tally, outcome);
    assert_eq!((tally.success_count, tally.error_count), (1, 0));
    assert_eq!(tally.room_stats_inputs.len(), 1);
    assert_eq!(tally.room_stats_inputs[0].room_id, "!r");
    assert_eq!(tally.room_stats_inputs[0].room_name.as_deref(), Some("Room"));
    assert_eq!(tally.room_stats_inputs[0].room_type, RoomType::Private);
    assert_eq!(tally.room_stats_inputs[0].stats.user_events, 1);
}

#[test]
fn a_walk_whose_row_cannot_be_written_has_failed() {
    let mut walk = RoomWalk::start(None, None);
    let batch = BatchOutcome { events: vec![message("$1", 1_500, OWNER)], reached_start: false };
    walk.absorb_batch_at(&batch, &vec![Some(afternoon())], Some(1_000), 2_000, OWNER);
    let (stats, detailed) = walk.finish("!r", "Room");
    let outcome = RoomOutcome::Crawled { stats, detailed, room_type: RoomType::Dm };
    let failed = outcome.unwritten("disk full".to_string());
    match &failed {
        RoomOutcome::Failed { room_id, message } => {
            assert_eq!(room_id, "!r");
            assert_eq!(message, "disk full");
        }
        RoomOutcome::Crawled { .. } => panic!("the walk still counts as crawled"),
    }
    // a failed walk keeps its own reason
    let failed = failed.unwritten("again".to_string());
    match &failed {
        RoomOutcome::Failed { room_id, message } => {
            assert_eq!(room_id, "!r");
            assert_eq!(message, "disk full");
        }
        RoomOutcome::Crawled { .. } => panic!("the walk counts as crawled"),
    }
    let mut db = CrawlDb::new();
    db.update_room_metadata("!r", Some("o".to_string()), Some(1), Some("n".to_string()), Some(2), false);
    store_room(&mut db, &failed);
    let row = db.get_room_metadata("!r").unwrap();
    assert_eq!(row.last_crawl_status, Some(CrawlStatus::Error("disk full".to_string())));
    assert_eq!((row.oldest_event_ts, row.newest_event_ts), (Some(1), Some(2)));
    let mut tally = CrawlTally::new();
    tally_room(&mut tally, failed);
    assert_eq!((tally.success_count, tally.error_count), (0, 1));
    assert!(tally.room_stats_inputs.is_empty());
}

#[test]
fn recording_again_changes_nothing() {
    let mut db = CrawlDb::new();
    let joined = vec!["!a".to_string(), "!b".to_string(), "!c".to_string()];
    let mut latest = LatestEvents::new();
    latest.insert("!a", "$a", 500);
    latest.insert("!b", "$b", 600);
    let mut to_crawl = TextSet::new();
    to_crawl.insert("!c");
    record_skipped_virgin_rooms_ids(&mut db, &joined, &to_crawl, &latest);
    assert_eq!(db.room_count(), 2);
    let before = format!("{:?}", db.get_all_rooms_sorted());
    // newer hints do not touch the rows that are there
    latest.insert("!a", "$newer", 700);
    record_skipped_virgin_rooms_ids(&mut db, &joined, &to_crawl, &latest);
    assert_eq!(format!("{:?}", db.get_all_rooms_sorted()), before);
    assert_eq!(db.get_room_metadata("!a").unwrap().newest_event_ts, Some(500));
    assert_eq!(format!("{:?}", db.copy().get_all_rooms_sorted()), before);
}

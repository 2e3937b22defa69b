use my::calendar::CivilDate;
use my::crawl::counts::{CountMap, TextSet};
use my::crawl::types::DetailedPaginationStats;
use my::crawl::RoomType;
use my::stats::{ScopeKind, StatsError};
use my::stats_builder::{
    aggregate, assemble, build_stats, compute_peaks, rank_top_emojis, rank_top_messages,
    top_indices, RoomStatsInput,
};
use my::window::WindowScope;

fn create_test_window_scope() -> WindowScope {
    WindowScope {
        scope_type: ScopeKind::Year,
        key: "2025".to_string(),
        from: CivilDate { year: 2025, month: 1, day: 1 },
        to: CivilDate { year: 2025, month: 12, day: 31 },
    }
}

fn counts(pairs: &[(&str, i32)]) -> CountMap {
    let mut map = CountMap::new();
    for (key, count) in pairs {
        map.insert(key, *count);
    }
    map
}

fn create_test_room_stats() -> DetailedPaginationStats {
    let by_year = counts(&[("2025", 10)]);
    let by_month = counts(&[("01", 5), ("02", 5)]);
    let by_week = counts(&[("2025-W01", 3), ("2025-W02", 7)]);
    let by_weekday = counts(&[("1", 4), ("2", 6)]);
    let by_day = counts(&[("2025-01-15", 5), ("2025-02-20", 5)]);
    let by_hour = counts(&[("09", 3), ("14", 7)]);

    let mut active_dates = TextSet::new();
    active_dates.insert("2025-01-15");
    active_dates.insert("2025-02-20");

    DetailedPaginationStats {
        fully_crawled: true,
        oldest_event_id: Some("$oldest".to_string()),
        oldest_ts: Some(1735689600000),
        newest_event_id: Some("$newest".to_string()),
        newest_ts: Some(1767225599999),
        total_events: 20,
        user_events: 10,
        by_year,
        by_month,
        by_week,
        by_weekday,
        by_day,
        by_hour,
        user_message_ids: TextSet::new(),
        reactions_by_emoji: CountMap::new(),
        reactions_by_message: CountMap::new(),
        room_created_by_user: false,
        active_dates,
    }
}

#[test]
fn test_build_stats_single_room() {
    let room_stats = create_test_room_stats();
    let room_input = RoomStatsInput {
        room_id: "!room1:example.org".to_string(),
        room_name: Some("Test Room".to_string()),
        room_type: RoomType::Private,
        stats: room_stats,
    };

    let window_scope = create_test_window_scope();

    let stats = build_stats(
        vec![room_input],
        "@user:example.org",
        Some("Test User".to_string()),
        None,
        &window_scope,
        5,
    )
    .unwrap();

    assert_eq!(stats.summary.messages_sent, 10);
    assert_eq!(stats.summary.active_rooms, 1);
    assert_eq!(stats.summary.private_rooms, Some(1));
    assert_eq!(stats.account.rooms_total, 5);
    assert_eq!(stats.coverage.days_active, Some(2));

    // Check activity data exists
    assert!(stats.activity.is_some());
    let activity = stats.activity.unwrap();
    assert!(activity.by_year.is_some());
    assert!(activity.by_month.is_some());

    // Check rooms data
    assert!(stats.rooms.is_some());
    let rooms = stats.rooms.unwrap();
    assert_eq!(rooms.total, 1);
    assert!(rooms.top.is_some());
    assert_eq!(rooms.top.unwrap().len(), 1);
}

#[test]
fn test_build_stats_multiple_rooms() {
    let mut room1_stats = create_test_room_stats();
    room1_stats.user_events = 15;

    let mut room2_stats = create_test_room_stats();
    room2_stats.user_events = 25;

    let room1 = RoomStatsInput {
        room_id: "!room1:example.org".to_string(),
        room_name: Some("Room 1".to_string()),
        room_type: RoomType::Dm,
        stats: room1_stats,
    };

    let room2 = RoomStatsInput {
        room_id: "!room2:example.org".to_string(),
        room_name: Some("Room 2".to_string()),
        room_type: RoomType::Public,
        stats: room2_stats,
    };

    let window_scope = create_test_window_scope();

    let stats = build_stats(
        vec![room1, room2],
        "@user:example.org",
        None,
        None,
        &window_scope,
        10,
    )
    .unwrap();

    assert_eq!(stats.summary.messages_sent, 40);
    assert_eq!(stats.summary.active_rooms, 2);
    assert_eq!(stats.summary.dm_rooms, Some(1));
    assert_eq!(stats.summary.public_rooms, Some(1));

    // Check room type distribution
    let rooms = stats.rooms.unwrap();
    let room_type_dist = rooms.messages_by_room_type.unwrap();
    assert_eq!(room_type_dist.dm, Some(15));
    assert_eq!(room_type_dist.public, Some(25));
}

#[test]
fn test_build_stats_room_creation() {
    let mut room_stats = create_test_room_stats();
    room_stats.room_created_by_user = true;

    let room_input = RoomStatsInput {
        room_id: "!room1:example.org".to_string(),
        room_name: Some("Created Room".to_string()),
        room_type: RoomType::Dm,
        stats: room_stats,
    };

    let window_scope = create_test_window_scope();

    let stats = build_stats(
        vec![room_input],
        "@user:example.org",
        None,
        None,
        &window_scope,
        1,
    )
    .unwrap();

    assert!(stats.created_rooms.is_some());
    let created = stats.created_rooms.unwrap();
    assert_eq!(created.total, 1);
    assert_eq!(created.dm_rooms, Some(1));
    assert_eq!(created.public_rooms, None);
    assert_eq!(created.private_rooms, None);
}

#[test]
fn test_build_stats_with_reactions() {
    let mut room_stats = create_test_room_stats();

    let reactions_by_emoji = counts(&[("😂", 10), ("❤️", 8), ("👍", 5)]);
    let reactions_by_message = counts(&[("$msg1", 15), ("$msg2", 8)]);

    room_stats.reactions_by_emoji = reactions_by_emoji;
    room_stats.reactions_by_message = reactions_by_message;

    let room_input = RoomStatsInput {
        room_id: "!room1:example.org".to_string(),
        room_name: Some("Reaction Room".to_string()),
        room_type: RoomType::Private,
        stats: room_stats,
    };

    let window_scope = create_test_window_scope();

    let stats = build_stats(
        vec![room_input],
        "@user:example.org",
        None,
        None,
        &window_scope,
        1,
    )
    .unwrap();

    assert!(stats.reactions.is_some());
    let reactions = stats.reactions.unwrap();
    assert_eq!(reactions.total, Some(23));
    assert!(reactions.top_emojis.is_some());
    assert!(reactions.top_messages.is_some());

    let top_emojis = reactions.top_emojis.unwrap();
    assert_eq!(top_emojis.len(), 3);
    assert_eq!(top_emojis[0].emoji, "😂");
    assert_eq!(top_emojis[0].count, 10);
}

#[test]
fn test_build_stats_empty_rooms() {
    let mut room_stats = create_test_room_stats();
    room_stats.user_events = 0;

    let room_input = RoomStatsInput {
        room_id: "!room1:example.org".to_string(),
        room_name: Some("Empty Room".to_string()),
        room_type: RoomType::Private,
        stats: room_stats,
    };

    let window_scope = create_test_window_scope();

    let stats = build_stats(
        vec![room_input],
        "@user:example.org",
        None,
        None,
        &window_scope,
        1,
    )
    .unwrap();

    assert_eq!(stats.summary.messages_sent, 0);
    assert_eq!(stats.summary.active_rooms, 0);
    assert!(stats.activity.is_none());
    assert!(stats.rooms.is_none());
}

#[test]
fn test_compute_peaks() {
    let by_year = counts(&[("2024", 100), ("2025", 150)]);
    let by_month = counts(&[("01", 50), ("03", 75)]);
    let by_week = counts(&[("2025-W10", 30), ("2025-W15", 45)]);
    let by_day = counts(&[("2025-03-15", 25), ("2025-03-20", 30)]);
    let by_hour = counts(&[("09", 10), ("14", 20)]);

    let peaks = compute_peaks(&by_year, &by_month, &by_week, &by_day, &by_hour).unwrap();

    assert_eq!(peaks.year.as_ref().unwrap().year, "2025");
    assert_eq!(peaks.year.as_ref().unwrap().messages, 150);

    assert_eq!(peaks.month.as_ref().unwrap().month, "03");
    assert_eq!(peaks.month.as_ref().unwrap().messages, 75);

    assert_eq!(peaks.week.as_ref().unwrap().week, "2025-W15");
    assert_eq!(peaks.week.as_ref().unwrap().messages, 45);

    assert_eq!(peaks.day.as_ref().unwrap().day, "2025-03-20");
    assert_eq!(peaks.day.as_ref().unwrap().messages, 30);

    assert_eq!(peaks.hour.as_ref().unwrap().hour, "14");
    assert_eq!(peaks.hour.as_ref().unwrap().messages, 20);
}

#[test]
fn test_compute_peaks_empty() {
    let by_year = CountMap::new();
    let by_month = CountMap::new();
    let by_week = CountMap::new();
    let by_day = CountMap::new();
    let by_hour = CountMap::new();

    let peaks = compute_peaks(&by_year, &by_month, &by_week, &by_day, &by_hour);
    assert!(peaks.is_none());
}

#[test]
fn test_top_rooms_ranking() {
    let mut room1_stats = create_test_room_stats();
    room1_stats.user_events = 100;

    let mut room2_stats = create_test_room_stats();
    room2_stats.user_events = 200;

    let mut room3_stats = create_test_room_stats();
    room3_stats.user_events = 50;

    let rooms = vec![
        RoomStatsInput {
            room_id: "!room1:example.org".to_string(),
            room_name: Some("Room 1".to_string()),
            room_type: RoomType::Private,
            stats: room1_stats,
        },
        RoomStatsInput {
            room_id: "!room2:example.org".to_string(),
            room_name: Some("Room 2".to_string()),
            room_type: RoomType::Private,
            stats: room2_stats,
        },
        RoomStatsInput {
            room_id: "!room3:example.org".to_string(),
            room_name: Some("Room 3".to_string()),
            room_type: RoomType::Private,
            stats: room3_stats,
        },
    ];

    let window_scope = create_test_window_scope();

    let stats = build_stats(rooms, "@user:example.org", None, None, &window_scope, 3).unwrap();

    let top_rooms = stats.rooms.unwrap().top.unwrap();
    assert_eq!(top_rooms.len(), 3);

    // Should be sorted by message count descending
    assert_eq!(top_rooms[0].name, Some("Room 2".to_string()));
    assert_eq!(top_rooms[0].messages, 200);

    assert_eq!(top_rooms[1].name, Some("Room 1".to_string()));
    assert_eq!(top_rooms[1].messages, 100);

    assert_eq!(top_rooms[2].name, Some("Room 3".to_string()));
    assert_eq!(top_rooms[2].messages, 50);
}

#[test]
fn peaks_of_equal_counts_go_to_the_smaller_key() {
    let by_year = counts(&[("2025", 7), ("2023", 7), ("2024", 3)]);
    let none = CountMap::new();
    let peaks = compute_peaks(&by_year, &none, &none, &none, &none).unwrap();
    assert_eq!(peaks.year.as_ref().unwrap().year, "2023");
    assert_eq!(peaks.year.as_ref().unwrap().messages, 7);
    assert!(peaks.month.is_none());
    assert!(peaks.hour.is_none());
}

#[test]
fn top_indices_rank_by_count_then_by_place() {
    assert_eq!(top_indices(&vec![3, 9, 3, 9, 1, 0, 9], 5), vec![1, 3, 6, 0, 2]);
    assert_eq!(top_indices(&vec![3, 9], 5), vec![1, 0]);
    assert_eq!(top_indices(&vec![], 5), Vec::<usize>::new());
    assert_eq!(top_indices(&vec![4, 4, 4], 0), Vec::<usize>::new());
    assert_eq!(top_indices(&vec![4, 5, 4], 1), vec![1]);
}

#[test]
fn top_emojis_are_capped_at_five() {
    let emojis = counts(&[("a", 1), ("b", 6), ("c", 3), ("d", 6), ("e", 2), ("f", 4), ("g", 5)]);
    let top = rank_top_emojis(&emojis);
    let shown: Vec<(String, i32)> = top.iter().map(|e| (e.emoji.clone(), e.count)).collect();
    assert_eq!(
        shown,
        vec![
            ("b".to_string(), 6),
            ("d".to_string(), 6),
            ("g".to_string(), 5),
            ("f".to_string(), 4),
            ("c".to_string(), 3),
        ]
    );
}

#[test]
fn top_messages_are_links() {
    let messages = counts(&[("$m1", 2), ("$m2", 9)]);
    let top = rank_top_messages(&messages);
    assert_eq!(top.len(), 2);
    assert_eq!(top[0].permalink, "https://matrix.to/#/$m2");
    assert_eq!(top[0].reaction_count, 9);
    assert_eq!(top[1].permalink, "https://matrix.to/#/$m1");
}

#[test]
fn buckets_of_rooms_add_up_key_by_key() {
    let mut second = create_test_room_stats();
    second.by_month = counts(&[("02", 1), ("12", 4)]);
    let rooms = vec![
        RoomStatsInput {
            room_id: "!a".to_string(),
            room_name: None,
            room_type: RoomType::Dm,
            stats: create_test_room_stats(),
        },
        RoomStatsInput {
            room_id: "!b".to_string(),
            room_name: None,
            room_type: RoomType::Dm,
            stats: second,
        },
    ];
    let stats = build_stats(rooms, "@u:e", None, None, &create_test_window_scope(), 2).unwrap();
    let by_month = stats.activity.unwrap().by_month.unwrap();
    assert_eq!(by_month.get("01"), Some(5));
    assert_eq!(by_month.get("02"), Some(6));
    assert_eq!(by_month.get("12"), Some(4));
    assert_eq!(by_month.len(), 3);
    let peaks = stats.summary.peaks.unwrap();
    assert_eq!(peaks.month.unwrap().month, "02");
    assert_eq!(peaks.year.unwrap().messages, 20);
    let top = stats.rooms.unwrap().top.unwrap();
    assert_eq!(top[0].permalink, "https://matrix.to/#/!a");
    assert_eq!(top[0].of_total, Some(20));
    assert_eq!(top[0].name, None);
}

#[test]
fn document_names_scope_and_account() {
    let stats = build_stats(
        Vec::new(),
        "@user:example.org",
        Some("User".to_string()),
        Some("mxc://example.org/abc".to_string()),
        &create_test_window_scope(),
        7,
    )
    .unwrap();
    assert_eq!(stats.schema_version, 1);
    assert_eq!(stats.scope.kind, ScopeKind::Year);
    assert_eq!(stats.scope.key, "2025");
    assert_eq!(stats.scope.label, None);
    assert_eq!(stats.account.user_id, "@user:example.org");
    assert_eq!(stats.account.display_name.as_deref(), Some("User"));
    assert_eq!(stats.account.avatar_url.as_deref(), Some("mxc://example.org/abc"));
    assert_eq!(stats.account.rooms_total, 7);
    // without rooms the coverage is the window
    assert_eq!(stats.coverage.from, "2025-01-01");
    assert_eq!(stats.coverage.to, "2025-12-31");
    assert_eq!(stats.coverage.days_active, None);
    assert!(stats.summary.peaks.is_none());
    assert!(stats.reactions.is_none());
    assert!(stats.created_rooms.is_none());
    assert_eq!(stats.generated_at.len(), 10);
}

#[test]
fn assemble_uses_the_dates_given() {
    let room = RoomStatsInput {
        room_id: "!a".to_string(),
        room_name: Some("A".to_string()),
        room_type: RoomType::Public,
        stats: create_test_room_stats(),
    };
    let totals = aggregate(&vec![room]).unwrap();
    let oldest = my::calendar::LocalStamp {
        date: CivilDate { year: 2025, month: 1, day: 1 },
        hour: 1,
        weekday: 3,
        iso_year: 2025,
        iso_week: 1,
    };
    let doc = assemble(
        totals,
        "@u:e",
        None,
        None,
        &create_test_window_scope(),
        1,
        CivilDate { year: 2026, month: 2, day: 3 },
        Some(oldest),
        None,
    )
    .unwrap();
    assert_eq!(doc.generated_at, "2026-02-03");
    assert_eq!(doc.coverage.from, "2025-01-01");
    // no local time for the newest event: the window's last day stands in
    assert_eq!(doc.coverage.to, "2025-12-31");
    assert_eq!(doc.summary.public_rooms, Some(1));
}

#[test]
fn counts_that_do_not_fit_are_an_error() {
    let mut big = create_test_room_stats();
    big.by_year = counts(&[("2025", i32::MAX)]);
    let rooms = vec![
        RoomStatsInput {
            room_id: "!a".to_string(),
            room_name: None,
            room_type: RoomType::Dm,
            stats: big,
        },
        RoomStatsInput {
            room_id: "!b".to_string(),
            room_name: None,
            room_type: RoomType::Dm,
            stats: create_test_room_stats(),
        },
    ];
    let outcome = build_stats(rooms, "@u:e", None, None, &create_test_window_scope(), 2);
    assert_eq!(outcome.unwrap_err(), StatsError::CountOverflow);

    let mut many = create_test_room_stats();
    many.user_events = i32::MAX as usize + 1;
    let rooms = vec![RoomStatsInput {
        room_id: "!a".to_string(),
        room_name: None,
        room_type: RoomType::Dm,
        stats: many,
    }];
    let outcome = build_stats(rooms, "@u:e", None, None, &create_test_window_scope(), 2);
    assert_eq!(outcome.unwrap_err(), StatsError::CountOverflow);
}

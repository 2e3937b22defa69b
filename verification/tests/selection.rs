use my::account_selector::{
    account_ids, place_of, places_in, AccountSelector, Preferences, Selection,
};
use my::crawl::decision::{
    joined_room_ids, latest_events_of, record_skipped_virgin_rooms, select_rooms_to_crawl,
};
use my::crawl::discovery::{DiscoveryPhase, SyncEvent};
use my::crawl::types::{RoomInfo, RoomJoinState};
use my::crawl_db::{CrawlDb, CrawlStatus};
use my::report::{default_md_filename, format_number, scope_label, scope_phrase};
use my::stats::{Scope, ScopeKind};

fn accounts(ids: &[&str]) -> Vec<String> {
    ids.iter().map(|id| id.to_string()).collect()
}

fn dirs(ids: &[&str]) -> Vec<String> {
    ids.iter().map(|id| id.replace(':', "_")).collect()
}

#[test]
fn test_select_accounts_no_accounts() {
    let selector = AccountSelector::new(Preferences::default());
    let selection = selector.select_accounts(&dirs(&[]), None, true);
    assert_eq!(selection, Selection::NoAccounts);
    assert!(selection.refusal().unwrap().contains("No accounts found"));
    assert_eq!(
        selection.refusal().as_deref(),
        Some("No accounts found. Run 'my login' first.")
    );
}

#[test]
fn test_select_accounts_with_user_id_flag() {
    let selector = AccountSelector::new(Preferences::default());
    let listing = dirs(&["@alice:example.org", "@bob:example.com"]);
    let selection =
        selector.select_accounts(&listing, Some("@alice:example.org".to_string()), true);
    assert_eq!(selection, Selection::Named("@alice:example.org".to_string()));
    assert_eq!(selection.refusal(), None);
}

#[test]
fn test_select_accounts_with_invalid_user_id() {
    let selector = AccountSelector::new(Preferences::default());
    let listing = vec!["@alice_example.org".to_string()];
    let selection =
        selector.select_accounts(&listing, Some("@bob:example.com".to_string()), true);
    assert_eq!(selection, Selection::NotFound("@bob:example.com".to_string()));
    assert!(selection.refusal().unwrap().contains("Account not found"));
    assert_eq!(selection.refusal().as_deref(), Some("Account not found: @bob:example.com"));
}

#[test]
fn test_select_accounts_single_auto_select() {
    let selector = AccountSelector::new(Preferences::default());
    let listing = vec!["@alice_example.org".to_string()];
    assert_eq!(selector.select_accounts(&listing, None, true), Selection::Only);
    assert_eq!(account_ids(&listing), accounts(&["@alice:example.org"]));
}

#[test]
fn test_account_dirname_conversion() {
    let listing = vec!["@alice_example.org".to_string()];
    let ids = account_ids(&listing);
    assert_eq!(ids[0], "@alice:example.org");
    assert_eq!(my::login::account_id_to_dirname(&ids[0]), "@alice_example.org");
}

#[test]
fn test_preferences_filter_deleted_accounts() {
    let selector = AccountSelector::new(Preferences {
        last_selected_multi: accounts(&["@alice:example.org", "@deleted:example.org"]),
        last_selected_single: Some("@deleted:example.org".to_string()),
    });
    let ids = account_ids(&vec!["@alice_example.org".to_string()]);
    assert_eq!(ids.len(), 1);
    assert_eq!(ids[0], "@alice:example.org");
    // the account that is gone stays in the preferences until a choice is made
    assert_eq!(selector.remembered().last_selected_multi.len(), 2);
}

#[test]
fn no_account_is_an_answer_of_its_own() {
    let selector = AccountSelector::new(Preferences::default());
    assert_eq!(
        selector.select_accounts(&dirs(&[]), Some("@a:e".to_string()), true),
        Selection::NoAccounts
    );
    assert_eq!(selector.select_accounts(&dirs(&[]), None, false), Selection::NoAccounts);
}

#[test]
fn the_flag_names_the_account() {
    let selector = AccountSelector::new(Preferences::default());
    let all = dirs(&["@alice:example.org", "@bob:example.com"]);
    assert_eq!(
        selector.select_accounts(&all, Some("@bob:example.com".to_string()), false),
        Selection::Named("@bob:example.com".to_string())
    );
    assert_eq!(
        selector.select_accounts(&all, Some("@carol:example.org".to_string()), false),
        Selection::NotFound("@carol:example.org".to_string())
    );
    // a directory is found by its name, so an id that gives the same name is found too
    assert_eq!(
        selector.select_accounts(&all, Some("@bob_example.com".to_string()), true),
        Selection::Named("@bob_example.com".to_string())
    );
    // with a single account the flag still decides
    let one = dirs(&["@alice:example.org"]);
    assert_eq!(
        selector.select_accounts(&one, Some("@bob:example.com".to_string()), true),
        Selection::NotFound("@bob:example.com".to_string())
    );
}

#[test]
fn a_single_account_needs_no_question() {
    let selector = AccountSelector::new(Preferences::default());
    let all = dirs(&["@alice:example.org"]);
    assert_eq!(selector.select_accounts(&all, None, true), Selection::Only);
    assert_eq!(selector.select_accounts(&all, None, false), Selection::Only);
    assert_eq!(Selection::Only.refusal(), None);
}

#[test]
fn the_last_choice_is_offered_again() {
    let all = dirs(&["@a:e", "@b:e", "@c:e"]);
    let selector = AccountSelector::new(Preferences {
        last_selected_multi: accounts(&["@c:e", "@deleted:e", "@a:e"]),
        last_selected_single: Some("@b:e".to_string()),
    });
    assert_eq!(
        selector.select_accounts(&all, None, true),
        Selection::AskMany { defaults: vec![2, 0] }
    );
    assert_eq!(selector.select_accounts(&all, None, false), Selection::AskOne { cursor: Some(1) });
    // nothing left of the last choice: all accounts are offered
    let selector = AccountSelector::new(Preferences {
        last_selected_multi: accounts(&["@deleted:e"]),
        last_selected_single: Some("@deleted:e".to_string()),
    });
    assert_eq!(
        selector.select_accounts(&all, None, true),
        Selection::AskMany { defaults: vec![0, 1, 2] }
    );
    assert_eq!(selector.select_accounts(&all, None, false), Selection::AskOne { cursor: None });
}

#[test]
fn choices_are_remembered() {
    let all = accounts(&["@a:e", "@b:e", "@c:e"]);
    let mut selector = AccountSelector::new(Preferences::default());
    assert_eq!(selector.chosen_many(&all, accounts(&[])), None);
    assert!(selector.remembered().last_selected_multi.is_empty());
    assert_eq!(selector.chosen_many(&all, accounts(&["@c:e", "@a:e"])), Some(vec![0, 2]));
    assert_eq!(selector.remembered().last_selected_multi, accounts(&["@c:e", "@a:e"]));
    assert_eq!(selector.chosen_one(&all, "@b:e".to_string()), vec![1]);
    assert_eq!(selector.remembered().last_selected_single.as_deref(), Some("@b:e"));
    assert_eq!(selector.remembered().last_selected_multi, accounts(&["@c:e", "@a:e"]));
    assert_eq!(place_of(&all, "@b:e"), Some(1));
    assert_eq!(place_of(&accounts(&["x", "y", "x"]), "x"), Some(0));
    assert_eq!(place_of(&all, "@z:e"), None);
    assert_eq!(places_in(&accounts(&["x", "y", "x"]), &accounts(&["x"])), vec![0, 2]);
}

#[test]
fn discovery_syncs_once_more_when_fully_loaded() {
    let mut phase = DiscoveryPhase::start(false);
    for event in [
        SyncEvent::Synced,
        SyncEvent::ListState { fully_loaded: false },
        SyncEvent::StreamEnded,
        SyncEvent::Synced,
    ] {
        phase = phase.advance(event);
        assert_eq!(phase, DiscoveryPhase::Growing);
        assert!(!phase.is_over());
    }
    phase = phase.advance(SyncEvent::ListState { fully_loaded: true });
    assert_eq!(phase, DiscoveryPhase::Settling);
    phase = phase.advance(SyncEvent::ListState { fully_loaded: true });
    assert_eq!(phase, DiscoveryPhase::Settling);
    phase = phase.advance(SyncEvent::Synced);
    assert_eq!(phase, DiscoveryPhase::Ready);
    assert!(phase.is_over());
    assert_eq!(phase.advance(SyncEvent::SyncFailed("late".to_string())), DiscoveryPhase::Ready);
    assert_eq!(DiscoveryPhase::start(true), DiscoveryPhase::Settling);
    assert_eq!(DiscoveryPhase::start(true).advance(SyncEvent::StreamEnded), DiscoveryPhase::Ready);
}

#[test]
fn a_failed_sync_ends_discovery() {
    let failed = DiscoveryPhase::start(false).advance(SyncEvent::SyncFailed("timeout".to_string()));
    assert_eq!(failed, DiscoveryPhase::Failed("timeout".to_string()));
    assert!(failed.is_over());
    let failed = DiscoveryPhase::start(true).advance(SyncEvent::SyncFailed("timeout".to_string()));
    assert_eq!(failed.clone().advance(SyncEvent::Synced), failed);
}

#[test]
fn the_room_list_gives_ids_and_hints() {
    let mut rooms = vec![
        RoomInfo::joined("!a", Some(("$a".to_string(), 500))),
        RoomInfo::joined("!b", None),
        RoomInfo::joined("!c", Some(("$c".to_string(), 1_500))),
    ];
    rooms[1].join_state = RoomJoinState::Left;
    rooms.push(RoomInfo {
        room_id: "!d".to_string(),
        last_event_id: Some("$d".to_string()),
        last_event_ts: None,
        join_state: RoomJoinState::Joined,
    });
    assert_eq!(joined_room_ids(&rooms), accounts(&["!a", "!c", "!d"]));
    let hints = latest_events_of(&rooms);
    assert_eq!(hints.get("!a"), Some(&("$a".to_string(), 500)));
    assert_eq!(hints.get("!b"), None);
    assert_eq!(hints.get("!d"), None);

    let mut db = CrawlDb::new();
    let joined: Vec<RoomInfo> = vec![rooms[0].copy(), rooms[2].copy(), rooms[3].copy()];
    let selected = select_rooms_to_crawl(&joined, &db, Some(1_000), Some(2_000), &hints);
    let ids: Vec<&str> = selected.iter().map(|r| r.room_id.as_str()).collect();
    assert_eq!(ids, vec!["!c", "!d"]);
    assert_eq!(selected[0].last_event_ts, Some(1_500));
    record_skipped_virgin_rooms(&mut db, &joined, &selected, &hints);
    assert_eq!(db.room_count(), 1);
    assert_eq!(db.get_room_metadata("!a").unwrap().last_crawl_status, Some(CrawlStatus::Virgin));
}

#[test]
fn numbers_get_thousands_separators() {
    for (n, text) in [
        (0, "0"),
        (7, "7"),
        (999, "999"),
        (1_000, "1,000"),
        (12_345, "12,345"),
        (123_456, "123,456"),
        (1_234_567, "1,234,567"),
        (-1, "-1"),
        (-1_000, "-1,000"),
        (i32::MAX, "2,147,483,647"),
        (i32::MIN, "-2,147,483,648"),
    ] {
        assert_eq!(format_number(n), text);
    }
}

#[test]
fn scopes_have_names() {
    let scope = |kind, key: &str, label: Option<&str>| Scope {
        kind,
        key: key.to_string(),
        label: label.map(|l| l.to_string()),
    };
    assert_eq!(scope_label(&scope(ScopeKind::Year, "2025", None)), "Year 2025");
    assert_eq!(scope_label(&scope(ScopeKind::Month, "2025-03", None)), "Month 2025-03");
    assert_eq!(scope_label(&scope(ScopeKind::Week, "2025-W12", None)), "Week 2025-W12");
    assert_eq!(scope_label(&scope(ScopeKind::Day, "2025-03-15", None)), "Day 2025-03-15");
    assert_eq!(scope_label(&scope(ScopeKind::Life, "life", None)), "Life-to-date");
    assert_eq!(scope_label(&scope(ScopeKind::Year, "2025", Some("My year"))), "My year");
    assert_eq!(scope_phrase(&scope(ScopeKind::Year, "2025", None)), "the year 2025");
    assert_eq!(scope_phrase(&scope(ScopeKind::Month, "2025-03", None)), "the month 2025-03");
    assert_eq!(scope_phrase(&scope(ScopeKind::Week, "2025-W12", None)), "the week 2025-W12");
    assert_eq!(scope_phrase(&scope(ScopeKind::Day, "2025-03-15", None)), "the day 2025-03-15");
    assert_eq!(scope_phrase(&scope(ScopeKind::Life, "life", None)), "your life on Matrix so far");
    assert_eq!(scope_phrase(&scope(ScopeKind::Life, "life", Some("ever"))), "ever");
    assert_eq!(default_md_filename(&scope(ScopeKind::Year, "2025", None)), "my-year-2025.md");
    assert_eq!(default_md_filename(&scope(ScopeKind::Month, "2025-03", None)), "my-month-2025-03.md");
    assert_eq!(default_md_filename(&scope(ScopeKind::Week, "2025-W12", None)), "my-week-2025-W12.md");
    assert_eq!(default_md_filename(&scope(ScopeKind::Day, "2025-03-15", None)), "my-day-2025-03-15.md");
    assert_eq!(default_md_filename(&scope(ScopeKind::Life, "life", Some("x"))), "my-life.md");
}

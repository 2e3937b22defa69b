use my::calendar::CivilDate;
use my::crawl::counts::{CountMap, CountTooLarge, TextSet};
use my::calendar::today_local;
use my::login::{
    account_id_to_dirname, candidate_from_input, dirname_to_account_id,
    homeserver_url_from_candidate, homeserver_url_given, ServerError,
};
use my::secrets::{AccountSecrets, SecretsCache};
use my::text::{chars_less, chars_of, read_digits, str_eq, str_less, string_of, trim};
use my::timefmt::{format_timestamp, format_timestamp_opt};

#[test]
fn strings_and_characters_convert_both_ways() {
    let chars = chars_of("héllo 💯");
    assert_eq!(chars, vec!['h', 'é', 'l', 'l', 'o', ' ', '💯']);
    assert_eq!(string_of(&chars), "héllo 💯");
    assert_eq!(string_of(&vec![]), "");
    assert!(str_eq("abc", "abc"));
    assert!(!str_eq("abc", "abd"));
    assert!(!str_eq("abc", "ab"));
}

#[test]
fn order_is_by_code_point() {
    for (a, b) in [("", "a"), ("a", "b"), ("a", "aa"), ("Z", "a"), ("z", "é"), ("é", "💯"), ("2025-W10", "2025-W9")] {
        assert!(str_less(a, b), "{:?} < {:?}", a, b);
        assert!(!str_less(b, a), "{:?} < {:?}", b, a);
        assert_eq!(a < b, true);
    }
    assert!(!str_less("same", "same"));
    assert!(!chars_less(&vec![], &vec![]));
}

#[test]
fn trim_removes_unicode_white_space() {
    let all = "\t\n\u{b}\u{c}\r \u{85}\u{a0}\u{1680}\u{2000}\u{200a}\u{2028}\u{2029}\u{202f}\u{205f}\u{3000}";
    assert_eq!(all.trim(), "");
    assert_eq!(string_of(&trim(&chars_of(all))), "");
    for text in ["", " ", "a", " a", "a ", " a b ", "\u{200b}a\u{200b}", "\u{feff}x", "\u{1c}x\u{1f}"] {
        assert_eq!(string_of(&trim(&chars_of(text))), text.trim(), "{:?}", text);
    }
}

#[test]
fn digits_are_read_as_numbers() {
    let chars = chars_of("2025-03");
    assert_eq!(read_digits(&chars, 0, 4), Some(2025));
    assert_eq!(read_digits(&chars, 5, 2), Some(3));
    assert_eq!(read_digits(&chars, 3, 2), None);
    assert_eq!(read_digits(&chars, 0, 0), Some(0));
    assert_eq!(read_digits(&chars_of("٣٤"), 0, 2), None);
    assert_eq!(read_digits(&chars_of("999999999"), 0, 9), Some(999_999_999));
}

#[test]
fn timestamps_are_written_in_utc() {
    assert_eq!(format_timestamp(0), "1970-01-01 00:00:00");
    assert_eq!(format_timestamp(1_735_689_600_000), "2025-01-01 00:00:00");
    assert_eq!(format_timestamp(947_638_923_004), "2000-01-12 01:02:03");
    assert_eq!(format_timestamp(-1), "1969-12-31 23:59:59");
    assert_eq!(format_timestamp(1_709_251_199_999), "2024-02-29 23:59:59");
    assert_eq!(format_timestamp(253_402_300_800_000), "+10000-01-01 00:00:00");
    assert_eq!(format_timestamp(-62_167_219_200_001), "-0001-12-31 23:59:59");
    assert_eq!(format_timestamp(i64::MAX), "invalid timestamp");
    assert_eq!(format_timestamp(i64::MIN), "invalid timestamp");
    assert_eq!(format_timestamp_opt(None), "-");
    assert_eq!(format_timestamp_opt(Some(86_400_000)), "1970-01-02 00:00:00");
}

#[test]
fn dates_are_ordered_like_the_calendar() {
    let a = CivilDate { year: 2024, month: 12, day: 31 };
    let b = CivilDate { year: 2025, month: 1, day: 1 };
    assert!(a.is_before(&b));
    assert!(!b.is_before(&a));
    assert!(!a.is_before(&a));
    assert!(a < b);
    assert_eq!(b.epoch_day(), 20_089);
    assert_eq!(CivilDate { year: 1970, month: 1, day: 1 }.epoch_day(), 0);
    assert_eq!(CivilDate { year: 1969, month: 12, day: 31 }.epoch_day(), -1);
    assert_eq!(CivilDate { year: 1, month: 1, day: 1 }.epoch_day(), -719_162);
    assert_eq!(CivilDate { year: 2005, month: 9, day: 10 }.epoch_day(), 13_036);
}

#[test]
fn count_maps_keep_keys_in_order() {
    let mut map = CountMap::new();
    assert!(map.is_empty());
    map.add("b", 2);
    map.add("a", 1);
    map.add("c", 3);
    map.add("b", 5);
    map.insert("d", 0);
    map.insert("a", 9);
    assert_eq!(map.len(), 4);
    let keys: Vec<&str> = (0..map.len()).map(|i| map.key_at(i).as_str()).collect();
    assert_eq!(keys, vec!["a", "b", "c", "d"]);
    assert_eq!(map.counts(), vec![9, 7, 3, 0]);
    assert_eq!(map.get("b"), Some(7));
    assert_eq!(map.get("e"), None);
    assert!(map.contains_key("d"));
    assert!(!map.contains_key(""));
    let copy = map.copy();
    assert_eq!(copy.counts(), map.counts());
}

#[test]
fn count_maps_merge_key_by_key() {
    let mut a = CountMap::new();
    a.insert("x", 1);
    a.insert("y", 2);
    let mut b = CountMap::new();
    b.insert("y", 40);
    b.insert("z", 50);
    assert_eq!(a.merge_from(&b), Ok(()));
    assert_eq!((a.get("x"), a.get("y"), a.get("z")), (Some(1), Some(42), Some(50)));
    let mut big = CountMap::new();
    big.insert("y", i32::MAX - 41);
    assert_eq!(a.merge_from(&big), Err(CountTooLarge));
    let mut fits = CountMap::new();
    fits.insert("y", i32::MAX - 42);
    assert_eq!(a.merge_from(&fits), Ok(()));
    assert_eq!(a.get("y"), Some(i32::MAX));
}

#[test]
fn text_sets_hold_each_text_once() {
    let mut set = TextSet::new();
    assert!(set.is_empty());
    set.insert("2025-01-02");
    set.insert("2025-01-01");
    set.insert("2025-01-02");
    assert_eq!(set.len(), 2);
    assert!(set.contains("2025-01-01"));
    assert!(!set.contains("2025-01-03"));
    assert_eq!(set.member_at(0), "2025-01-01");
    let mut other = TextSet::new();
    other.insert("2025-01-03");
    other.insert("2025-01-01");
    set.union_from(&other);
    assert_eq!(set.len(), 3);
    assert_eq!(set.copy().len(), 3);
}

#[test]
fn account_ids_and_directory_names() {
    assert_eq!(account_id_to_dirname("@alice:example.org"), "@alice_example.org");
    assert_eq!(account_id_to_dirname("@a:b:8448"), "@a_b_8448");
    assert_eq!(account_id_to_dirname("plain"), "plain");
    assert_eq!(dirname_to_account_id("@alice_example.org"), "@alice:example.org");
    assert_eq!(candidate_from_input("@alice:example.org"), "example.org");
    assert_eq!(candidate_from_input("@alice:example.org:8448"), "example.org:8448");
    assert_eq!(candidate_from_input("example.org"), "example.org");
    assert_eq!(candidate_from_input("https://matrix.example.org"), "https://matrix.example.org");
    assert_eq!(candidate_from_input("@alice"), "@alice");
    assert_eq!(candidate_from_input("@:"), "");
    assert_eq!(candidate_from_input(""), "");
}

#[test]
fn the_secrets_cache_keeps_what_it_saw_first() {
    let mut cache = SecretsCache::new();
    assert!(cache.get_account_secrets("@a:e").is_none());
    assert_eq!(cache.get_db_passphrase("@a:e"), None);
    cache.remember(
        "@a:e",
        AccountSecrets {
            db_passphrase: Some("pass".to_string()),
            access_token: Some("token".to_string()),
            refresh_token: None,
        },
    );
    cache.remember("@a:e", AccountSecrets::default());
    cache.remember("@b:e", AccountSecrets::default());
    assert_eq!(cache.get_db_passphrase("@a:e"), Some(Some("pass".to_string())));
    assert_eq!(cache.get_access_token("@a:e"), Some(Some("token".to_string())));
    assert_eq!(cache.get_refresh_token("@a:e"), Some(None));
    assert_eq!(cache.get_db_passphrase("@b:e"), Some(None));
    assert_eq!(cache.get_access_token("@c:e"), None);
    assert_eq!(cache.get_refresh_token("@c:e"), None);
}

#[test]
fn homeservers_get_a_scheme_where_they_have_none() {
    assert_eq!(
        homeserver_url_from_candidate("https://matrix.example.org"),
        Ok("https://matrix.example.org".to_string())
    );
    assert_eq!(
        homeserver_url_from_candidate("matrix.org"),
        Ok("https://matrix.org/".to_string())
    );
    assert_eq!(
        homeserver_url_from_candidate("Example.ORG/_matrix"),
        Ok("https://example.org/_matrix".to_string())
    );
    // a host with a port reads as a URL with the host as its scheme
    assert_eq!(
        homeserver_url_from_candidate("example.org:8448"),
        Ok("example.org:8448".to_string())
    );
    assert_eq!(homeserver_url_from_candidate(""), Err(ServerError::NotAUrl));
    assert_eq!(homeserver_url_from_candidate("exa mple.org"), Err(ServerError::NotAUrl));
    assert_eq!(homeserver_url_given("a", true, None), Ok("a".to_string()));
    assert_eq!(homeserver_url_given("a", true, Some("b".to_string())), Ok("a".to_string()));
    assert_eq!(homeserver_url_given("a", false, Some("b".to_string())), Ok("b".to_string()));
    assert_eq!(homeserver_url_given("a", false, None), Err(ServerError::NotAUrl));
}

#[test]
fn today_is_a_day_of_the_calendar() {
    let date = today_local();
    assert!(date.year >= 2025);
    assert!((1..=12).contains(&date.month));
    assert!((1..=31).contains(&date.day));
    assert!(date.epoch_day() >= 20_089);
}

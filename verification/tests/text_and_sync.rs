use make_gitignore::sync::{
    cache_action, check_last_synced, format_timestamp, format_u64, parse_timestamp, parse_u64,
    CacheAction, SYNC_WINDOW_SECS,
};
use make_gitignore::text::{chars_of, contains_chars, eq_ignore_ascii_case, sort_strings, trim};

fn strings(items: &[&str]) -> Vec<String> {
    items.iter().map(|s| s.to_string()).collect()
}

#[test]
fn trim_removes_surrounding_whitespace() {
    assert_eq!(trim("  1700000000\n"), "1700000000");
    assert_eq!(trim("\t a b \r\n"), "a b");
    assert_eq!(trim("   "), "");
    assert_eq!(trim(""), "");
    assert_eq!(trim("\u{3000}x\u{2028}"), "x");
    assert_eq!(trim("x"), "x");
}

#[test]
fn trim_agrees_with_std() {
    for s in ["", " ", "a", " a", "a ", "\u{a0}a\u{85}", "\u{200b}a", "a\u{1680}b"] {
        assert_eq!(trim(s), s.trim());
    }
}

#[test]
fn ascii_case_equality() {
    assert!(eq_ignore_ascii_case("Rust", "rUST"));
    assert!(eq_ignore_ascii_case("VisualStudioCode", "visualstudiocode"));
    assert!(!eq_ignore_ascii_case("Rust", "Rusty"));
    assert!(!eq_ignore_ascii_case("Go", "Ga"));
    assert!(eq_ignore_ascii_case("", ""));
    // Only ASCII letters are folded.
    assert!(!eq_ignore_ascii_case("\u{c9}", "\u{e9}"));
    assert!(eq_ignore_ascii_case("C++", "c++"));
}

#[test]
fn sorting_matches_std_order() {
    let input = strings(&["Python", "C++", "rust", "Go", "C", "Python", "Zig", "ada", "\u{c9}lan"]);
    let mut expected = input.clone();
    expected.sort();
    assert_eq!(sort_strings(input), expected);
    assert_eq!(sort_strings(Vec::new()), Vec::<String>::new());
}

#[test]
fn substring_search() {
    let hay = chars_of("visualstudiocode");
    assert!(contains_chars(&hay, &chars_of("studio")));
    assert!(contains_chars(&hay, &chars_of("")));
    assert!(contains_chars(&hay, &chars_of("visualstudiocode")));
    assert!(!contains_chars(&hay, &chars_of("studios")));
    assert!(!contains_chars(&chars_of(""), &chars_of("a")));
    assert!(contains_chars(&chars_of("aab"), &chars_of("ab")));
}

#[test]
fn parse_u64_follows_from_str() {
    for s in ["0", "42", "+7", "-7", "+", "", " 1", "007", "18446744073709551615", "18446744073709551616", "1a", "99999999999999999999999"] {
        assert_eq!(parse_u64(s), s.parse::<u64>().ok(), "input {s:?}");
    }
}

#[test]
fn format_u64_writes_decimal() {
    assert_eq!(format_u64(0), "0");
    assert_eq!(format_u64(7), "7");
    assert_eq!(format_u64(1234567890), "1234567890");
    assert_eq!(format_u64(u64::MAX), u64::MAX.to_string());
}

#[test]
fn timestamp_round_trip() {
    for t in [0u64, 9, 10, 1_700_000_000, i64::MAX as u64, u64::MAX] {
        assert_eq!(parse_timestamp(&format_timestamp(t)), Some(t));
    }
    assert_eq!(parse_timestamp(" 1700000000 \n"), Some(1_700_000_000));
    assert_eq!(parse_timestamp("yesterday"), None);
}

#[test]
fn freshness_window() {
    let t = 1_700_000_000u64;
    let text = format_timestamp(t);
    assert!(check_last_synced(Some(&text), Some(t)));
    assert!(check_last_synced(Some(&text), Some(t + SYNC_WINDOW_SECS - 1)));
    assert!(!check_last_synced(Some(&text), Some(t + SYNC_WINDOW_SECS)));
    // A timestamp in the future is not fresh.
    assert!(!check_last_synced(Some(&text), Some(t - 1)));
    // No file, an unreadable one, or a clock before the epoch: not fresh.
    assert!(!check_last_synced(None, Some(t)));
    assert!(!check_last_synced(Some("not a number"), Some(t)));
    assert!(!check_last_synced(Some(&text), None));
    assert_eq!(SYNC_WINDOW_SECS, 86_400);
}

#[test]
fn cache_choice() {
    assert_eq!(cache_action(false, false, false), CacheAction::Download);
    assert_eq!(cache_action(false, false, true), CacheAction::Download);
    assert_eq!(cache_action(false, true, true), CacheAction::UseCached);
    assert_eq!(cache_action(false, true, false), CacheAction::Download);
    assert_eq!(cache_action(true, false, false), CacheAction::Download);
    assert_eq!(cache_action(true, true, true), CacheAction::UseCached);
    assert_eq!(cache_action(true, true, false), CacheAction::UseCachedAndRefresh);
}

use netdisk_sync::collections::{path_set_of, PathSet, SeenItems};
use netdisk_sync::numbers::{decimal, decimal_wide, parse_u32, parse_u64, signed_decimal};
use netdisk_sync::sorting::{sorted_unique, text_before};
use netdisk_sync::text::{
    chars_of, concat2, concat3, contains, find, find_char, rfind_char, same, starts_with, string_between,
    trim,
};
use netdisk_sync::time::{Duration, Instant};

#[test]
fn numbers_are_written_and_read() {
    assert_eq!(decimal(0), "0");
    assert_eq!(decimal(u64::MAX), "18446744073709551615");
    assert_eq!(decimal_wide(u128::MAX), "340282366920938463463374607431768211455");
    assert_eq!(signed_decimal(-42), "-42");
    assert_eq!(signed_decimal(i64::MIN), "-9223372036854775808");
    assert_eq!(parse_u64("18446744073709551615"), Some(u64::MAX));
    assert_eq!(parse_u64("18446744073709551616"), None);
    assert_eq!(parse_u64("+7"), "+7".parse().ok());
    assert_eq!(parse_u64("-7"), None);
    assert_eq!(parse_u64(""), None);
    assert_eq!(parse_u64("+"), None);
    assert_eq!(parse_u64("007"), Some(7));
    assert_eq!(parse_u32("4294967295"), Some(u32::MAX));
    assert_eq!(parse_u32("4294967296"), None);
    for n in [0u64, 9, 10, 123_456_789] {
        assert_eq!(parse_u64(&decimal(n)), Some(n));
    }
}

#[test]
fn texts_are_searched_and_cut() {
    let cs = chars_of("a/b/ü");
    assert_eq!(find_char(&cs, '/', 2), Some(3));
    assert_eq!(rfind_char(&cs, '/', 3), Some(1));
    assert_eq!(find(&cs, &chars_of("/ü"), 0), Some(3));
    assert_eq!(string_between(&cs, 2, 5), "b/ü");
    assert_eq!(trim(" \t\u{3000}x y\n"), " \t\u{3000}x y\n".trim());
    assert!(contains("hello", "ell") && !contains("hello", "elo") && contains("", ""));
    assert!(starts_with("hello", "he") && !starts_with("he", "hello"));
    assert!(same("x", "x") && !same("x", "y"));
    assert_eq!(concat2("a", "b"), "ab");
    assert_eq!(concat3("a", "b", "c"), "abc");
}

#[test]
fn texts_are_ordered_as_std_orders_them() {
    let texts = ["", "a", "ab", "b", "Z", "é", "中", "\u{10000}"];
    for a in texts {
        for b in texts {
            assert_eq!(text_before(a, b), a < b, "{a} {b}");
        }
    }
    let v: Vec<String> = ["b", "a", "b", "c", "a"].iter().map(|s| s.to_string()).collect();
    assert_eq!(sorted_unique(&v), vec!["a", "b", "c"]);
}

#[test]
fn sets_hold_each_path_once() {
    let mut s = PathSet::new();
    assert!(s.is_empty());
    assert!(s.insert("/a".into()));
    assert!(!s.insert("/a".into()));
    assert!(s.insert("/b".into()));
    assert_eq!(s.len(), 2);
    assert!(s.contains("/a") && !s.contains("/c"));
    assert_eq!(path_set_of(vec!["x".into(), "x".into()]).items().len(), 1);
    let mut seen = SeenItems::new();
    assert!(seen.insert("/a", 1));
    assert!(seen.insert("/a", 2));
    assert!(!seen.insert("/a", 1));
}

#[test]
fn spans_are_never_negative() {
    let a = Instant { nanos: 5 };
    let b = a.plus(Duration::from_millis(2));
    assert_eq!(b.duration_since(a), Duration { nanos: 2_000_000 });
    assert!(a.duration_since(b).is_zero());
    assert_eq!(Duration::from_secs(3).as_secs(), 3);
}

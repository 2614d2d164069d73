use paxos_replication::text::{
    decimal_text, has_prefix_at, same_bytes, same_text, signed_decimal_text,
};
use paxos_replication::types::{clone_opt_text, clone_texts, list_contains};

#[test]
fn decimal_numerals_are_exact() {
    assert_eq!(decimal_text(0), "0");
    assert_eq!(decimal_text(7), "7");
    assert_eq!(decimal_text(10), "10");
    assert_eq!(decimal_text(1234567890), "1234567890");
    assert_eq!(decimal_text(u64::MAX), "18446744073709551615");
}

#[test]
fn signed_numerals_are_exact() {
    assert_eq!(signed_decimal_text(0), "0");
    assert_eq!(signed_decimal_text(-1), "-1");
    assert_eq!(signed_decimal_text(42), "42");
    assert_eq!(signed_decimal_text(i64::MAX), "9223372036854775807");
    assert_eq!(signed_decimal_text(i64::MIN), "-9223372036854775808");
}

#[test]
fn prefixes_are_found_where_they_are() {
    assert!(has_prefix_at(b"register:x", 0, b"register:"));
    assert!(!has_prefix_at(b"register:x", 1, b"register:"));
    assert!(has_prefix_at(b"abcabc", 3, b"abc"));
    assert!(has_prefix_at(b"abc", 3, b""));
    assert!(!has_prefix_at(b"abc", 1, b"bcd"));
    assert!(!has_prefix_at(b"ab", 0, b"abc"));
}

#[test]
fn texts_and_bytes_compare_by_content() {
    assert!(same_text("a:1", "a:1"));
    assert!(!same_text("a:1", "a:2"));
    assert!(!same_text("a", "ab"));
    assert!(same_text("", ""));
    assert!(same_text("\u{20ac}", "\u{20ac}"));
    assert!(same_bytes(&[1, 2], &[1, 2]));
    assert!(!same_bytes(&[1, 2], &[2, 1]));
    assert!(!same_bytes(&[1, 2], &[1]));
}

#[test]
fn copies_hold_what_was_copied() {
    assert_eq!(clone_opt_text(&Some("a".to_string())), Some("a".to_string()));
    assert_eq!(clone_opt_text(&None), None);
    let list = vec!["a".to_string(), "b".to_string()];
    assert_eq!(clone_texts(&list), list);
    assert!(list_contains(&list, "b"));
    assert!(!list_contains(&list, "c"));
    assert!(!list_contains(&Vec::new(), ""));
}

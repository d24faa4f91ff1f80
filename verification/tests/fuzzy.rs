use crates_mirror::fuzzy::{cmp, eq, starts_with};
use std::cmp::Ordering;

#[test]
fn separators_are_interchangeable() {
    assert!(eq("a-b", "a_b"));
    assert!(eq("a_b", "a-b"));
    assert!(eq("a-b", "a-b"));
}

#[test]
fn names_of_different_length_differ() {
    assert!(!eq("ab", "a_b"));
    assert!(!eq("", "a"));
    assert!(eq("", ""));
}

#[test]
fn prefix_is_matched_up_to_separators() {
    assert!(starts_with("abcd", "ab"));
    assert!(!starts_with("ab", "abc"));
    assert!(starts_with("a_bcd", "a-b"));
    assert!(starts_with("abcd", ""));
    assert!(!starts_with("abcd", "b"));
}

#[test]
fn order_follows_the_sort_key() {
    assert_eq!(cmp("a_b", "a-b"), Ordering::Equal);
    assert_eq!(cmp("a-a", "a_b"), Ordering::Less);
    assert_eq!(cmp("a_c", "a-b"), Ordering::Greater);
    assert_eq!(cmp("sea", "serde"), Ordering::Less);
    assert_eq!(cmp("serde", "set"), Ordering::Less);
    assert_eq!(cmp("ab", "abc"), Ordering::Less);
    assert_eq!(cmp("abc", "ab"), Ordering::Greater);
}

#[test]
fn sort_key_replaces_underscores() {
    assert_eq!(crates_mirror::fuzzy::sort_key(b"a_b-c__d"), b"a-b-c--d".to_vec());
    assert_eq!(crates_mirror::fuzzy::sort_key(b""), Vec::<u8>::new());
    assert_eq!(crates_mirror::fuzzy::order_bytes(b"a_b", b"a-c"), -1);
    assert_eq!(crates_mirror::fuzzy::order_bytes(b"b", b"a-c"), 1);
    assert_eq!(crates_mirror::fuzzy::order_bytes(b"a_c", b"a-c"), 0);
}

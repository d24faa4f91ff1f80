use crates_mirror::detach::{exit_code, fork, handle_err, Fork};
use crates_mirror::shard::shard;

#[test]
fn minus_one_is_a_failure() {
    assert_eq!(handle_err(-1), None);
    assert_eq!(handle_err(0), Some(0));
    assert_eq!(handle_err(4711), Some(4711));
    assert_eq!(handle_err(-2), Some(-2));
}

#[test]
fn zero_is_the_child() {
    assert_eq!(fork(0), Some(Fork::Child));
    assert_eq!(fork(1234), Some(Fork::Parent));
    assert_eq!(fork(-1), None);
}

#[test]
fn child_leaves_with_one_after_a_failure() {
    assert_eq!(exit_code(true), 1);
    assert_eq!(exit_code(false), 0);
}

fn shown(name: &str) -> String {
    shard(name.as_bytes())
        .unwrap()
        .iter()
        .map(|s| String::from_utf8(s.clone()).unwrap())
        .collect::<Vec<_>>()
        .join("/")
}

#[test]
fn shard_by_the_length_of_the_name() {
    assert_eq!(shown("a"), "1/a");
    assert_eq!(shown("ab"), "2/ab");
    assert_eq!(shown("abc"), "3/a/abc");
    assert_eq!(shown("abcd"), "ab/cd/abcd");
    assert_eq!(shown("serde"), "se/rd/serde");
    assert_eq!(shown("a-b_c"), "a-/b_/a-b_c");
    assert_eq!(shard(b""), None);
}

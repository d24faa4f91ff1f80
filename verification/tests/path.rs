use crates_mirror::path::{child, copy_name, copy_path, same_name, same_path, split};
use crates_mirror::registry::{parse_lines, split_lines, ParseError};

fn path(text: &str) -> Vec<Vec<u8>> {
    text.split('/').map(|s| s.as_bytes().to_vec()).collect()
}

#[test]
fn copies_are_equal() {
    assert_eq!(copy_name(b"serde"), b"serde".to_vec());
    assert_eq!(copy_name(b""), Vec::<u8>::new());
    assert_eq!(copy_path(&path("se/rd/serde")), path("se/rd/serde"));
    assert_eq!(copy_path(&Vec::new()), Vec::<Vec<u8>>::new());
}

#[test]
fn child_adds_a_segment() {
    assert_eq!(child(&path("se/rd"), b"serde"), path("se/rd/serde"));
    assert_eq!(child(&Vec::new(), b"3"), path("3"));
}

#[test]
fn sameness_is_byte_for_byte() {
    assert!(same_name(b"a-b", b"a-b"));
    assert!(!same_name(b"a-b", b"a_b"));
    assert!(!same_name(b"ab", b"abc"));
    assert!(same_path(&path("3/a/abc"), &path("3/a/abc")));
    assert!(!same_path(&path("3/a/abc"), &path("3/a/abd")));
    assert!(!same_path(&path("3/a"), &path("3/a/abc")));
}

#[test]
fn split_gives_one_piece_more_than_separators() {
    assert_eq!(split(b"a/b", b'/'), vec![b"a".to_vec(), b"b".to_vec()]);
    assert_eq!(split(b"", b'/'), vec![Vec::<u8>::new()]);
    assert_eq!(split(b"/", b'/'), vec![Vec::<u8>::new(), Vec::<u8>::new()]);
    assert_eq!(split(b"a//b/", b'/'), vec![b"a".to_vec(), Vec::new(), b"b".to_vec(), Vec::new()]);
    assert_eq!(split(b"abc", b'/'), vec![b"abc".to_vec()]);
}

#[test]
fn lines_lose_their_carriage_return() {
    assert_eq!(split_lines(b"a\r\nb\n\nc"), vec![b"a".to_vec(), b"b".to_vec(), Vec::new(), b"c".to_vec()]);
    assert_eq!(split_lines(b"a\n"), vec![b"a".to_vec(), Vec::new()]);
    assert_eq!(split_lines(b"a\r"), vec![b"a".to_vec()]);
    assert_eq!(split_lines(b"a\r\r\n"), vec![b"a\r".to_vec(), Vec::new()]);
    assert_eq!(split_lines(b""), vec![Vec::<u8>::new()]);
}

#[test]
fn first_broken_line_names_the_error() {
    let lines = vec![
        b"{\"name\":\"x\",\"vers\":\"1.0.0\",\"yanked\":false}".to_vec(),
        Vec::new(),
        b"{\"name\":\"x\",\"vers\":\"oops\",\"yanked\":false}".to_vec(),
        b"not json".to_vec(),
    ];
    assert_eq!(parse_lines(&lines), Err(ParseError::Version));
    let records = parse_lines(&lines[..2].to_vec()).unwrap();
    assert_eq!(records.len(), 1);
    assert_eq!(records[0].name, "x");
    assert_eq!(parse_lines(&Vec::new()), Ok(Vec::new()));
}

use crates_mirror::walk::{agree, segments, visit};

#[test]
fn fuzzy_matches() {
    let test_cases = &[
        // query length 0
        // --------------
        ("", "registry/1", false),
        ("", "registry/1/a", false),
        ("", "registry/1/x", false),
        ("", "registry/2", false),
        ("", "registry/2/ab", false),
        ("", "registry/2/ax", false),
        ("", "registry/2/xb", false),
        ("", "registry/3", false),
        ("", "registry/3/a", false),
        ("", "registry/3/x", false),
        ("", "registry/3/a/abc", false),
        ("", "registry/3/a/abx", false),
        ("", "registry/3/x/xbc", false),
        ("", "registry/ab", false),
        ("", "registry/xb", false),
        ("", "registry/ab/cd", false),
        ("", "registry/xb/cd", false),
        ("", "registry/ab/xy", false),
        ("", "registry/ab/cd/abcd", false),
        ("", "registry/ab/cd/abcde", false),
        // query length 1
        // --------------
        ("a", "registry/1", true),
        ("a", "registry/1/a", true),
        ("a", "registry/1/x", false),
        ("a", "registry/2", true),
        ("a", "registry/2/ab", true),
        ("a", "registry/2/ax", true),
        ("a", "registry/2/xb", false),
        ("a", "registry/3", true),
        ("a", "registry/3/a", true),
        ("a", "registry/3/x", false),
        ("a", "registry/3/a/abc", true),
        ("a", "registry/3/a/abx", true),
        ("a", "registry/3/x/xbc", false),
        ("a", "registry/ab", true),
        ("a", "registry/xb", false),
        ("a", "registry/ab/cd", true),
        ("a", "registry/xb/cd", false),
        ("a", "registry/ab/xy", true),
        ("a", "registry/ab/cd/abcd", true),
        ("a", "registry/ab/cd/abcde", true),
        // query length 2
        // --------------
        ("ab", "registry/1", false),
        ("ab", "registry/1/a", false),
        ("ab", "registry/1/x", false),
        ("ab", "registry/2", true),
        ("ab", "registry/2/ab", true),
        ("ab", "registry/2/ax", false),
        ("ab", "registry/2/xb", false),
        ("ab", "registry/3", true),
        ("ab", "registry/3/a", true),
        ("ab", "registry/3/x", false),
        ("ab", "registry/3/a/abc", true),
        ("ab", "registry/3/a/abx", true),
        ("ab", "registry/3/x/xbc", false),
        ("ab", "registry/ab", true),
        ("ab", "registry/xb", false),
        ("ab", "registry/ab/cd", true),
        ("ab", "registry/xb/cd", false),
        ("ab", "registry/ab/xy", true),
        ("ab", "registry/ab/cd/abcd", true),
        ("ab", "registry/ab/cd/abcde", true),
        // query length 3
        // --------------
        ("abc", "registry/1", false),
        ("abc", "registry/1/a", false),
        ("abc", "registry/1/x", false),
        ("abc", "registry/2", false),
        ("abc", "registry/2/ab", false),
        ("abc", "registry/2/ax", false),
        ("abc", "registry/2/xb", false),
        ("abc", "registry/3", true),
        ("abc", "registry/3/a", true),
        ("abc", "registry/3/x", false),
        ("abc", "registry/3/a/abc", true),
        ("abc", "registry/3/a/abx", false),
        ("abc", "registry/3/x/xbc", false),
        ("abc", "registry/ab", true),
        ("abc", "registry/xb", false),
        ("abc", "registry/ab/cd", true),
        ("abc", "registry/xb/cd", false),
        ("abc", "registry/ab/xy", false),
        ("abc", "registry/ab/cd/abcd", true),
        ("abc", "registry/ab/cd/abcde", true),
        // query length 4
        // --------------
        ("abcd", "registry/1", false),
        ("abcd", "registry/1/a", false),
        ("abcd", "registry/1/x", false),
        ("abcd", "registry/2", false),
        ("abcd", "registry/2/ab", false),
        ("abcd", "registry/2/ax", false),
        ("abcd", "registry/2/xb", false),
        ("abcd", "registry/3", false),
        ("abcd", "registry/3/a", false),
        ("abcd", "registry/3/x", false),
        ("abcd", "registry/3/a/abc", false),
        ("abcd", "registry/3/a/abx", false),
        ("abcd", "registry/3/x/xbc", false),
        ("abcd", "registry/ab", true),
        ("abcd", "registry/xb", false),
        ("abcd", "registry/ab/cd", true),
        ("abcd", "registry/xb/cd", false),
        ("abcd", "registry/ab/xy", false),
        ("abcd", "registry/ab/cd/abcd", true),
        ("abcd", "registry/ab/cd/abcde", true),
        // query hypens/underscores
        // ------------------------
        ("-", "registry/1", true),
        ("-", "registry/1/-", true),
        ("-", "registry/1/_", true),
        ("-", "registry/1/a", false),
        ("-b", "registry/2", true),
        ("-b", "registry/2/-b", true),
        ("-b", "registry/2/_b", true),
        ("-b", "registry/2/ab", false),
        ("-bc", "registry/3", true),
        ("-bc", "registry/3/-", true),
        ("-bc", "registry/3/_", true),
        ("-bc", "registry/3/a", false),
        ("-bcd", "registry/-b", true),
        ("-bcd", "registry/_b", true),
        ("-bcd", "registry/-b/cd", true),
        ("-bcd", "registry/_b/cd", true),
        ("-bcd", "registry/-b/cd/-bcd", true),
        ("-bcd", "registry/_b/cd/_bcd", true),
    ];

    for (query, path, result) in test_cases {
        assert_eq!(
            crates_mirror::walk::matches(query, path),
            *result,
            "query = {}, path = {}",
            query,
            path
        );
    }
}

#[test]
fn empty_query_visits_nothing() {
    assert!(!crates_mirror::walk::matches("", "registry"));
    assert!(!crates_mirror::walk::matches("", ""));
    assert!(!visit(b"", &Vec::new()));
}

#[test]
fn root_is_visited() {
    assert!(crates_mirror::walk::matches("a", "registry"));
    assert!(crates_mirror::walk::matches("a", ""));
    assert!(crates_mirror::walk::matches("abcdef", "registry/"));
}

#[test]
fn nothing_lies_deeper_than_the_files() {
    assert!(!crates_mirror::walk::matches("a", "registry/ab/cd/abcd/x"));
    assert!(!crates_mirror::walk::matches("a", "registry/3/a/abc/x"));
}

#[test]
fn segments_skip_the_first_and_the_empty() {
    assert_eq!(segments(b"registry/ab/cd"), vec![b"ab".to_vec(), b"cd".to_vec()]);
    assert_eq!(segments(b"/registry//ab/"), vec![b"ab".to_vec()]);
    assert_eq!(segments(b"registry"), Vec::<Vec<u8>>::new());
    assert_eq!(segments(b""), Vec::<Vec<u8>>::new());
    assert_eq!(segments(b"///"), Vec::<Vec<u8>>::new());
}

#[test]
fn agree_compares_the_common_part() {
    assert!(agree(b"ab", b"abcd"));
    assert!(agree(b"abcd", b"ab"));
    assert!(agree(b"a_", b"a-cd"));
    assert!(!agree(b"ax", b"abcd"));
    assert!(!agree(b"abcd", b"ax"));
    assert!(agree(b"", b"abc"));
    assert!(agree(b"abc", b""));
}

#[test]
fn longer_queries_follow_the_shards() {
    assert!(crates_mirror::walk::matches("abcdef", "registry/ab"));
    assert!(crates_mirror::walk::matches("abcdef", "registry/ab/cd"));
    assert!(crates_mirror::walk::matches("abcdef", "registry/ab/cd/abcdefg"));
    assert!(!crates_mirror::walk::matches("abcdef", "registry/ab/cd/abcde"));
    assert!(!crates_mirror::walk::matches("abcdef", "registry/ab/ce"));
    assert!(!crates_mirror::walk::matches("abcdef", "registry/3"));
    assert!(!crates_mirror::walk::matches("abc", "registry/3/ab"));
}

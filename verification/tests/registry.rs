use crates_mirror::registry::{select, walk, Member, Package, PackageRecord, ParseError};
use crates_mirror::version::Version;

fn version(major: u64, minor: u64, patch: u64) -> Version {
    Version { major, minor, patch, pre: String::new(), build: String::new() }
}

#[test]
fn unyanked_beats_higher_yanked() {
    let contents = "{\"name\":\"x\",\"vers\":\"1.0.0\",\"yanked\":true}\n{\"name\":\"x\",\"vers\":\"0.9.0\",\"yanked\":false}\n";
    let package = Package::load(contents).unwrap();
    assert_eq!(package.name, "x");
    assert_eq!(package.version, "0.9.0");
}

#[test]
fn version_key_is_read_as_well() {
    let contents = "{\"name\":\"x\",\"version\":\"1.0.0\",\"yanked\":true}\n{\"name\":\"x\",\"version\":\"0.9.0\",\"yanked\":false}";
    let package = Package::load(contents).unwrap();
    assert_eq!(package.version, "0.9.0");
}

#[test]
fn versions_are_ordered_as_numbers() {
    let contents = "{\"name\":\"x\",\"vers\":\"10.0.0\",\"yanked\":false}\n{\"name\":\"x\",\"vers\":\"2.0.0\",\"yanked\":false}\n";
    assert_eq!(Package::load(contents).unwrap().version, "10.0.0");
    let contents = "{\"name\":\"x\",\"vers\":\"1.9.0\",\"yanked\":false}\n{\"name\":\"x\",\"vers\":\"1.10.0\",\"yanked\":false}\n{\"name\":\"x\",\"vers\":\"1.2.0\",\"yanked\":false}\n";
    assert_eq!(Package::load(contents).unwrap().version, "1.10.0");
}

#[test]
fn all_yanked_gives_the_greatest() {
    let contents = "{\"name\":\"x\",\"vers\":\"0.1.0\",\"yanked\":true}\n{\"name\":\"x\",\"vers\":\"0.3.0\",\"yanked\":true}\n{\"name\":\"x\",\"vers\":\"0.2.0\",\"yanked\":true}\n";
    assert_eq!(Package::load(contents).unwrap().version, "0.3.0");
}

#[test]
fn release_beats_its_prerelease() {
    let contents = "{\"name\":\"x\",\"vers\":\"1.0.0\",\"yanked\":false}\n{\"name\":\"x\",\"vers\":\"1.0.0-rc.1\",\"yanked\":false}\n";
    assert_eq!(Package::load(contents).unwrap().version, "1.0.0");
    let contents = "{\"name\":\"x\",\"vers\":\"1.0.0-alpha.2\",\"yanked\":false}\n{\"name\":\"x\",\"vers\":\"1.0.0-alpha.10\",\"yanked\":false}\n";
    assert_eq!(Package::load(contents).unwrap().version, "1.0.0-alpha.10");
}

#[test]
fn build_metadata_is_kept_in_the_text() {
    let contents = "{\"name\":\"x\",\"vers\":\"1.2.3-beta.1+build.5\",\"yanked\":false}\n";
    assert_eq!(Package::load(contents).unwrap().version, "1.2.3-beta.1+build.5");
}

#[test]
fn extra_fields_and_blank_lines_are_ignored() {
    let contents = "\n{\"name\":\"serde\",\"vers\":\"1.0.0\",\"deps\":[{\"name\":\"a\"}],\"cksum\":\"00\",\"yanked\":false}\r\n\r\n";
    let package = Package::load(contents).unwrap();
    assert_eq!(package.name, "serde");
    assert_eq!(package.version, "1.0.0");
}

#[test]
fn empty_file_is_an_error() {
    assert_eq!(Package::load(""), Err(ParseError::Empty));
    assert_eq!(Package::load("\n\n"), Err(ParseError::Empty));
}

#[test]
fn malformed_line_fails_the_file() {
    let contents = "{\"name\":\"x\",\"vers\":\"1.0.0\",\"yanked\":false}\nnot json\n";
    assert_eq!(Package::load(contents), Err(ParseError::Json));
}

#[test]
fn invalid_version_fails_the_file() {
    let contents = "{\"name\":\"x\",\"vers\":\"1.0\",\"yanked\":false}\n";
    assert_eq!(Package::load(contents), Err(ParseError::Version));
    let contents = "{\"name\":\"x\",\"vers\":7,\"yanked\":false}\n";
    assert_eq!(Package::load(contents), Err(ParseError::Version));
    let contents = "{\"name\":\"x\",\"yanked\":false}\n";
    assert_eq!(Package::load(contents), Err(ParseError::Version));
}

#[test]
fn missing_name_or_yanked_fails_the_file() {
    assert_eq!(Package::load("{\"vers\":\"1.0.0\",\"yanked\":false}"), Err(ParseError::Name));
    assert_eq!(Package::load("{\"name\":\"x\",\"vers\":\"1.0.0\"}"), Err(ParseError::Yanked));
    assert_eq!(
        Package::load("{\"name\":\"x\",\"vers\":\"1.0.0\",\"yanked\":\"no\"}"),
        Err(ParseError::Yanked)
    );
    assert_eq!(Package::load("[1, 2]"), Err(ParseError::Name));
}

#[test]
fn record_is_read_from_a_line() {
    let record =
        PackageRecord::parse(b"{\"name\":\"a-b\",\"vers\":\"0.2.1\",\"yanked\":true}").unwrap();
    assert_eq!(record.name, "a-b");
    assert_eq!(record.version, version(0, 2, 1));
    assert!(record.yanked);
}

#[test]
fn record_is_assembled_from_members() {
    let r = PackageRecord::assemble(
        Member::Text("x".to_string()),
        Some(version(1, 2, 3)),
        Member::Flag(false),
    );
    assert_eq!(
        r,
        Ok(PackageRecord { name: "x".to_string(), version: version(1, 2, 3), yanked: false })
    );
    assert_eq!(
        PackageRecord::assemble(Member::Absent, Some(version(1, 2, 3)), Member::Flag(false)),
        Err(ParseError::Name)
    );
    assert_eq!(
        PackageRecord::assemble(Member::Other, None, Member::Other),
        Err(ParseError::Name)
    );
    assert_eq!(
        PackageRecord::assemble(Member::Text("x".to_string()), None, Member::Flag(false)),
        Err(ParseError::Version)
    );
    assert_eq!(
        PackageRecord::assemble(Member::Text("x".to_string()), Some(version(1, 2, 3)), Member::Absent),
        Err(ParseError::Yanked)
    );
}

#[test]
fn version_member_is_chosen() {
    assert_eq!(
        PackageRecord::version_of(Member::Text("1.2.3".to_string()), Member::Absent),
        Some(version(1, 2, 3))
    );
    assert_eq!(
        PackageRecord::version_of(Member::Absent, Member::Text("4.5.6".to_string())),
        Some(version(4, 5, 6))
    );
    assert_eq!(
        PackageRecord::version_of(
            Member::Text("1.2.3".to_string()),
            Member::Text("4.5.6".to_string())
        ),
        Some(version(1, 2, 3))
    );
    assert_eq!(PackageRecord::version_of(Member::Flag(true), Member::Text("4.5.6".to_string())), None);
    assert_eq!(PackageRecord::version_of(Member::Absent, Member::Absent), None);
}

#[test]
fn select_takes_the_last_of_equals() {
    let records = vec![
        PackageRecord { name: "x".to_string(), version: version(1, 0, 0), yanked: false },
        PackageRecord { name: "x".to_string(), version: version(2, 0, 0), yanked: true },
        PackageRecord { name: "x".to_string(), version: version(1, 0, 0), yanked: false },
        PackageRecord { name: "x".to_string(), version: version(0, 9, 9), yanked: false },
    ];
    assert_eq!(select(&records), Some(2));
    assert_eq!(select(&Vec::new()), None);
}

#[test]
fn walk_passes_over_broken_files() {
    let files = vec![
        "{\"name\":\"sea\",\"vers\":\"0.1.0\",\"yanked\":false}\n".to_string(),
        "garbage".to_string(),
        String::new(),
        "{\"name\":\"set\",\"vers\":\"0.2.0\",\"yanked\":false}\n".to_string(),
    ];
    let packages = walk(&files);
    assert_eq!(packages.len(), 2);
    assert_eq!(packages[0], Package { name: "sea".to_string(), version: "0.1.0".to_string() });
    assert_eq!(packages[1], Package { name: "set".to_string(), version: "0.2.0".to_string() });
}

#[test]
fn builtins_by_prefix() {
    assert_eq!(crates_mirror::registry::builtins("s"), vec!["std"]);
    assert_eq!(crates_mirror::registry::builtins("std"), vec!["std"]);
    assert_eq!(crates_mirror::registry::builtins("stdx"), Vec::<&str>::new());
    assert_eq!(crates_mirror::registry::builtins("co"), vec!["core"]);
    assert_eq!(crates_mirror::registry::builtins("a"), vec!["alloc"]);
    assert_eq!(crates_mirror::registry::builtins(""), vec!["alloc", "core", "std"]);
    assert_eq!(crates_mirror::registry::builtins("x"), Vec::<&str>::new());
    assert!(crates_mirror::registry::has_prefix(b"abc", b"ab"));
    assert!(!crates_mirror::registry::has_prefix(b"a_c", b"a-"));
    assert!(!crates_mirror::registry::has_prefix(b"ab", b"abc"));
}

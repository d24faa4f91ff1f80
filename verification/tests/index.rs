use crates_mirror::index::{
    check, check_start, command, git_clone, git_fetch, git_reset, join, judge, needs_update,
    or_ignore, reset_output, trim, update_interval, Action, CheckState, End, Files, Finding, IndexStatus, Next, Op,
    Outcome, Protocol, Sync, SyncError, UnresolvableHome, CRATES_IO_INDEX,
};

fn files() -> Files {
    Files::new(Some("/cache".to_string()), None, None).unwrap()
}

#[test]
fn files_below_the_given_cache() {
    let f = Files::new(Some("/tmp/cache".to_string()), Some("id".to_string()), None).unwrap();
    assert_eq!(f.cache_dir(), "/tmp/cache");
    assert_eq!(f.index_dir(), "/tmp/cache/crates.io-index");
    assert_eq!(f.update_file(), "/tmp/cache/crates.io-index/.last-modified");
    assert_eq!(f.staging_dir(), "/tmp/cache/~crates.io-index");
}

#[test]
fn files_below_the_home_directory() {
    let f = Files::new(None, None, Some("/Users/me".to_string())).unwrap();
    assert_eq!(
        f.cache_dir(),
        "/Users/me/Library/Caches/com.runningwithcrayons.Alfred/Workflow Data/io.macarthur.ross.crates"
    );
    let f = Files::new(None, Some("my.bundle".to_string()), Some("/Users/me".to_string())).unwrap();
    assert_eq!(
        f.index_dir(),
        "/Users/me/Library/Caches/com.runningwithcrayons.Alfred/Workflow Data/my.bundle/crates.io-index"
    );
}

#[test]
fn files_without_cache_or_home() {
    assert_eq!(Files::new(None, None, None), Err(UnresolvableHome));
    assert_eq!(Files::new(None, Some("id".to_string()), None), Err(UnresolvableHome));
}

#[test]
fn join_puts_a_slash_between() {
    assert_eq!(join("a", "b"), "a/b");
    assert_eq!(join("", "b"), "b");
    assert_eq!(join("/", "b"), "//b");
    assert_eq!(join("a/b", ""), "a/b/");
}

#[test]
fn interval_in_seconds() {
    assert_eq!(update_interval(None), 6 * 60 * 60);
    assert_eq!(update_interval(Some(1)), 60);
    assert_eq!(update_interval(Some(0)), 0);
    assert_eq!(update_interval(Some(u64::MAX / 60)), u64::MAX / 60 * 60);
    assert_eq!(update_interval(Some(u64::MAX / 60 + 1)), u64::MAX);
    assert_eq!(update_interval(Some(u64::MAX)), u64::MAX);
}

#[test]
fn stale_one_second_past_the_interval() {
    let now: u64 = 1_000_000;
    let interval: u64 = 21_600;
    assert!(needs_update(now, Some(now - interval - 1), interval));
    assert!(!needs_update(now, Some(now - interval + 1), interval));
    assert!(!needs_update(now, Some(now - interval), interval));
    assert!(!needs_update(now, Some(now), interval));
    assert!(!needs_update(now, Some(now + 5), interval));
    assert!(needs_update(now, None, interval));
    assert!(needs_update(u64::MAX, Some(0), u64::MAX - 1));
    assert!(!needs_update(u64::MAX, Some(0), u64::MAX));
}

#[test]
fn absent_index_is_downloaded() {
    assert_eq!(check_start(), (CheckState::Index, Action::ProbeIndexDir));
    assert_eq!(
        check(CheckState::Index, Finding::IndexDir(false), 60),
        (
            CheckState::Done(IndexStatus::Downloading),
            Action::Finish { status: IndexStatus::Downloading, spawn: Some(Protocol::Download) }
        )
    );
}

#[test]
fn fresh_index_is_ready() {
    assert_eq!(
        check(CheckState::Index, Finding::IndexDir(true), 60),
        (CheckState::Marker, Action::ReadMarker)
    );
    assert_eq!(
        check(CheckState::Marker, Finding::Marker { modified: Some(1000), now: 1059 }, 60),
        (
            CheckState::Done(IndexStatus::Ready),
            Action::Finish { status: IndexStatus::Ready, spawn: None }
        )
    );
}

#[test]
fn stale_index_is_updated_by_the_one_with_the_lock() {
    assert_eq!(
        check(CheckState::Marker, Finding::Marker { modified: Some(1000), now: 1061 }, 60),
        (CheckState::Lock, Action::TryLock)
    );
    assert_eq!(
        check(CheckState::Marker, Finding::Marker { modified: None, now: 5 }, 60),
        (CheckState::Lock, Action::TryLock)
    );
    assert_eq!(
        check(CheckState::Lock, Finding::Lock(true), 60),
        (
            CheckState::Done(IndexStatus::Updating),
            Action::Finish { status: IndexStatus::Updating, spawn: Some(Protocol::Update) }
        )
    );
    assert_eq!(
        check(CheckState::Lock, Finding::Lock(false), 60),
        (
            CheckState::Done(IndexStatus::Updating),
            Action::Finish { status: IndexStatus::Updating, spawn: None }
        )
    );
}

#[test]
fn two_checks_of_a_stale_index_start_one_update() {
    let mut spawned = 0;
    let mut lock_free = true;
    for _ in 0..2 {
        let (state, _) = check_start();
        let (state, _) = check(state, Finding::IndexDir(true), 60);
        let (state, action) = check(state, Finding::Marker { modified: Some(0), now: 100 }, 60);
        assert_eq!(action, Action::TryLock);
        let taken = lock_free;
        lock_free = false;
        let (_, action) = check(state, Finding::Lock(taken), 60);
        match action {
            Action::Finish { status, spawn } => {
                assert_eq!(status, IndexStatus::Updating);
                if spawn.is_some() {
                    spawned += 1;
                }
            }
            _ => panic!("the check did not end"),
        }
    }
    assert_eq!(spawned, 1);
}

#[test]
fn a_finding_not_asked_for_changes_nothing() {
    assert_eq!(
        check(CheckState::Index, Finding::Lock(true), 60),
        (CheckState::Index, Action::ProbeIndexDir)
    );
    assert_eq!(
        check(CheckState::Marker, Finding::IndexDir(false), 60),
        (CheckState::Marker, Action::ReadMarker)
    );
    assert_eq!(
        check(CheckState::Lock, Finding::Marker { modified: None, now: 0 }, 60),
        (CheckState::Lock, Action::TryLock)
    );
    assert_eq!(
        check(CheckState::Done(IndexStatus::Ready), Finding::IndexDir(false), 60),
        (
            CheckState::Done(IndexStatus::Ready),
            Action::Finish { status: IndexStatus::Ready, spawn: None }
        )
    );
}

fn run(protocol: Protocol, outcomes: &[Outcome]) -> (Vec<Op>, Next) {
    let mut sync = Sync::start(protocol);
    let mut ops = Vec::new();
    let mut given = outcomes.iter();
    loop {
        match sync.next() {
            Next::Do(op) => {
                ops.push(op);
                match given.next() {
                    Some(outcome) => sync.advance(*outcome),
                    None => return (ops, Next::Do(op)),
                }
            }
            end => return (ops, end),
        }
    }
}

#[test]
fn download_runs_to_the_marker() {
    let (ops, end) = run(Protocol::Download, &[Outcome::Done; 5]);
    assert_eq!(
        ops,
        vec![Op::TryLock, Op::RemoveStaging, Op::GitClone, Op::Rename, Op::TouchMarker]
    );
    assert_eq!(end, Next::Finished);
    let (ops, end) = run(
        Protocol::Download,
        &[Outcome::Done, Outcome::Failed, Outcome::Done, Outcome::Done, Outcome::Done],
    );
    assert_eq!(ops.len(), 5);
    assert_eq!(end, Next::Finished);
}

#[test]
fn download_without_the_lock_does_nothing() {
    let (ops, end) = run(Protocol::Download, &[Outcome::Contended]);
    assert_eq!(ops, vec![Op::TryLock]);
    assert_eq!(end, Next::Skipped);
    let (ops, end) = run(Protocol::Download, &[Outcome::Failed]);
    assert_eq!(ops, vec![Op::TryLock]);
    assert_eq!(end, Next::GivenUp(SyncError::Io));
}

#[test]
fn failed_clone_leaves_the_marker() {
    let (ops, end) = run(Protocol::Download, &[Outcome::Done, Outcome::Done, Outcome::Failed]);
    assert_eq!(ops, vec![Op::TryLock, Op::RemoveStaging, Op::GitClone]);
    assert_eq!(end, Next::GivenUp(SyncError::Subprocess));
    let (ops, end) =
        run(Protocol::Download, &[Outcome::Done, Outcome::Done, Outcome::Done, Outcome::Failed]);
    assert_eq!(ops.last(), Some(&Op::Rename));
    assert_eq!(end, Next::GivenUp(SyncError::Io));
}

#[test]
fn update_fetches_resets_and_marks() {
    let (ops, end) = run(Protocol::Update, &[Outcome::Done; 3]);
    assert_eq!(ops, vec![Op::GitFetch, Op::GitReset, Op::TouchMarker]);
    assert_eq!(end, Next::Finished);
    let (ops, end) = run(Protocol::Update, &[Outcome::Failed]);
    assert_eq!(ops, vec![Op::GitFetch]);
    assert_eq!(end, Next::GivenUp(SyncError::Subprocess));
    let (ops, end) = run(Protocol::Update, &[Outcome::Done, Outcome::Contended]);
    assert_eq!(ops, vec![Op::GitFetch, Op::GitReset]);
    assert_eq!(end, Next::GivenUp(SyncError::Subprocess));
    let (ops, end) = run(Protocol::Update, &[Outcome::Done, Outcome::Done, Outcome::Failed]);
    assert_eq!(ops.len(), 3);
    assert_eq!(end, Next::GivenUp(SyncError::Io));
}

#[test]
fn ended_work_stays_ended() {
    let mut sync = Sync::start(Protocol::Update);
    sync.advance(Outcome::Failed);
    let ended = sync;
    sync.advance(Outcome::Done);
    assert_eq!(sync, ended);
    assert_eq!(sync.next(), Next::GivenUp(SyncError::Subprocess));
    let mut sync = Sync::start(Protocol::Update);
    for _ in 0..5 {
        sync.advance(Outcome::Done);
    }
    assert_eq!(sync.position, 3);
    assert_eq!(sync.next(), Next::Finished);
}

#[test]
fn judge_each_step() {
    assert_eq!(judge(Op::RemoveStaging, Outcome::Failed), None);
    assert_eq!(judge(Op::RemoveStaging, Outcome::Contended), None);
    assert_eq!(judge(Op::TryLock, Outcome::Done), None);
    assert_eq!(judge(Op::TryLock, Outcome::Contended), Some(End::Skipped));
    assert_eq!(judge(Op::GitReset, Outcome::Failed), Some(End::GivenUp(SyncError::Subprocess)));
    assert_eq!(judge(Op::TouchMarker, Outcome::Failed), Some(End::GivenUp(SyncError::Io)));
    assert_eq!(judge(Op::TouchMarker, Outcome::Done), None);
}

#[test]
fn download_then_check_is_ready() {
    let interval = update_interval(None);
    let (state, _) = check_start();
    let (_, action) = check(state, Finding::IndexDir(false), interval);
    assert_eq!(
        action,
        Action::Finish { status: IndexStatus::Downloading, spawn: Some(Protocol::Download) }
    );
    let (ops, end) = run(Protocol::Download, &[Outcome::Done; 5]);
    assert_eq!(end, Next::Finished);
    assert!(ops.contains(&Op::Rename) && ops.contains(&Op::TouchMarker));
    let marked: u64 = 5000;
    let (state, _) = check_start();
    let (state, _) = check(state, Finding::IndexDir(true), interval);
    let (_, action) =
        check(state, Finding::Marker { modified: Some(marked), now: marked + 10 }, interval);
    assert_eq!(action, Action::Finish { status: IndexStatus::Ready, spawn: None });
}

#[test]
fn or_ignore_runs_only_with_the_lock() {
    let mut ran = false;
    let r: Result<(), SyncError> = or_ignore(Some(1u8), || {
        ran = true;
        Ok(())
    });
    assert_eq!(r, Ok(()));
    assert!(ran);
    let r: Result<(), SyncError> = or_ignore(Some(1u8), || Err(SyncError::Subprocess));
    assert_eq!(r, Err(SyncError::Subprocess));
    let mut ran = false;
    let r: Result<(), SyncError> = or_ignore(None::<u8>, || {
        ran = true;
        Err(SyncError::Io)
    });
    assert_eq!(r, Ok(()));
    assert!(!ran);
}

#[test]
fn git_arguments() {
    assert_eq!(git_clone("https://x/y", "/tmp/z"), vec!["clone", "--depth", "1", "https://x/y", "/tmp/z"]);
    assert_eq!(git_fetch("/tmp/z"), vec!["-C", "/tmp/z", "fetch"]);
    assert_eq!(git_reset("/tmp/z"), vec!["-C", "/tmp/z", "reset", "--hard", "origin/HEAD"]);
    assert_eq!(
        command(&files(), Op::GitClone),
        Some(
            vec!["clone", "--depth", "1", CRATES_IO_INDEX, "/cache/~crates.io-index"]
                .into_iter()
                .map(String::from)
                .collect()
        )
    );
    assert_eq!(
        command(&files(), Op::GitFetch),
        Some(vec!["-C", "/cache/crates.io-index", "fetch"].into_iter().map(String::from).collect())
    );
    assert_eq!(command(&files(), Op::GitReset).unwrap().len(), 5);
    assert_eq!(command(&files(), Op::TryLock), None);
    assert_eq!(command(&files(), Op::TouchMarker), None);
}

#[test]
fn reset_gives_what_was_printed_without_the_space_around_it() {
    assert_eq!(
        reset_output(true, b"HEAD is now at 1a2b3c4 Update crate `serde`\n".to_vec()),
        Ok("HEAD is now at 1a2b3c4 Update crate `serde`".to_string())
    );
    assert_eq!(reset_output(true, b"  \t out put \r\n\n".to_vec()), Ok("out put".to_string()));
    assert_eq!(reset_output(true, Vec::new()), Ok(String::new()));
    assert_eq!(reset_output(true, b" \n ".to_vec()), Ok(String::new()));
    assert_eq!(reset_output(false, b"HEAD is now at 1a2b3c4\n".to_vec()), Err(SyncError::Subprocess));
    assert_eq!(reset_output(false, Vec::new()), Err(SyncError::Subprocess));
    assert_eq!(reset_output(true, vec![0x48, 0xff, 0x0a]), Err(SyncError::Subprocess));
    assert_eq!(reset_output(true, "\u{a0}caf\u{e9}\u{2003}".as_bytes().to_vec()), Ok("caf\u{e9}".to_string()));
    assert_eq!(trim("  a  b  "), "a  b");
    assert_eq!(trim("ab"), "ab");
    assert_eq!(trim(""), "");
    assert_eq!(trim("\u{3000}x\u{85}"), "x");
}

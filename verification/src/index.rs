//! The local copy of the index: where it lies, when it is stale, and what is
//! done to bring it and to keep it fresh.
//!
//! Nothing here touches the disk or runs a program. `check_step` and `Sync`
//! say what is to be done next, and the one that does it reports what came
//! of it.

use vstd::prelude::*;
use vstd::string::StringExecFns;
use vstd::utf8::{decode_utf8, valid_utf8};

verus! {

/// The remote index.
pub const CRATES_IO_INDEX: &'static str = "https://github.com/rust-lang/crates.io-index";

/// The minutes between two updates, unless told otherwise.
pub const DEFAULT_INTERVAL_MINUTES: u64 = 360;

/// The state of the local copy as a caller sees it.
#[derive(Debug, Clone, Copy, PartialEq, Eq, Structural)]
pub enum IndexStatus {
    /// The copy is there and fresh.
    Ready,
    /// There is no copy yet; one is being brought.
    Downloading,
    /// The copy is stale; it is being refreshed, here or by another process.
    Updating,
}

/// The cache directory cannot be told: there is neither a cache directory
/// given nor a home directory.
#[derive(Debug, Clone, Copy, PartialEq, Eq, Structural)]
pub struct UnresolvableHome;

/// The places of the local copy.
#[derive(Debug, Clone, PartialEq, Eq)]
pub struct Files {
    cache_dir: String,
    index_dir: String,
    update_file: String,
    staging_dir: String,
}

/// What `Files` stands for.
pub struct FilesView {
    pub cache_dir: Seq<char>,
    pub index_dir: Seq<char>,
    pub update_file: Seq<char>,
    pub staging_dir: Seq<char>,
}

impl View for Files {
    type V = FilesView;

    closed spec fn view(&self) -> FilesView {
        FilesView {
            cache_dir: self.cache_dir@,
            index_dir: self.index_dir@,
            update_file: self.update_file@,
            staging_dir: self.staging_dir@,
        }
    }
}

/// The path of `segment` in the directory `base`; `segment` itself where
/// `base` is empty.
pub open spec fn joined(base: Seq<char>, segment: Seq<char>) -> Seq<char> {
    if base.len() == 0 {
        segment
    } else {
        base + seq!['/'] + segment
    }
}

/// The cache directory: the one given, or else the one of the workflow
/// named by `bundle_id` below the home directory.
pub open spec fn cache_root(
    workflow_cache: Option<Seq<char>>,
    bundle_id: Option<Seq<char>>,
    home: Option<Seq<char>>,
) -> Option<Seq<char>> {
    match workflow_cache {
        Some(dir) => Some(dir),
        None => match home {
            Some(home) => Some(
                joined(
                    joined(home, "Library/Caches/com.runningwithcrayons.Alfred/Workflow Data"@),
                    match bundle_id {
                        Some(id) => id,
                        None => "io.macarthur.ross.crates"@,
                    },
                ),
            ),
            None => None,
        },
    }
}

/// The places of the local copy in the cache directory `cache_dir`: the
/// index, the file whose time of modification is that of the last refresh,
/// and the directory in which a new copy is made before it takes its place.
pub open spec fn files_in(cache_dir: Seq<char>) -> FilesView {
    FilesView {
        cache_dir,
        index_dir: joined(cache_dir, "crates.io-index"@),
        update_file: joined(joined(cache_dir, "crates.io-index"@), ".last-modified"@),
        staging_dir: joined(cache_dir, "~crates.io-index"@),
    }
}

/// The path of `segment` in the directory `base`.
pub fn join(base: &str, segment: &str) -> (r: String)
    ensures
        r@ == joined(base@, segment@),
{
    proof {
        reveal_strlit("/");
    }
    let mut r: String = String::from_str(base);
    if !base.is_empty() {
        r.append("/");
    }
    r.append(segment);
    assert(r@ =~= joined(base@, segment@));
    r
}

/// The view of an optional text.
pub open spec fn text_view(text: Option<String>) -> Option<Seq<char>> {
    match text {
        Some(t) => Some(t@),
        None => None,
    }
}

impl Files {
    /// The places of the local copy, from the cache directory of the
    /// workflow, its bundle id and the home directory, as far as each is
    /// known.
    pub fn new(workflow_cache: Option<String>, bundle_id: Option<String>, home: Option<String>) -> (r:
        Result<Files, UnresolvableHome>)
        ensures
            match r {
                Ok(files) => cache_root(
                    text_view(workflow_cache),
                    text_view(bundle_id),
                    text_view(home),
                ) == Some(files@.cache_dir) && files@ == files_in(files@.cache_dir),
                Err(_) => cache_root(
                    text_view(workflow_cache),
                    text_view(bundle_id),
                    text_view(home),
                ).is_none(),
            },
    {
        let cache_dir: String = match workflow_cache {
            Some(dir) => dir,
            None => {
                let home: String = match home {
                    Some(home) => home,
                    None => {
                        return Err(UnresolvableHome);
                    },
                };
                let data: String = join(
                    home.as_str(),
                    "Library/Caches/com.runningwithcrayons.Alfred/Workflow Data",
                );
                match bundle_id {
                    Some(id) => join(data.as_str(), id.as_str()),
                    None => join(data.as_str(), "io.macarthur.ross.crates"),
                }
            },
        };
        let index_dir: String = join(cache_dir.as_str(), "crates.io-index");
        let update_file: String = join(index_dir.as_str(), ".last-modified");
        let staging_dir: String = join(cache_dir.as_str(), "~crates.io-index");
        Ok(Files { cache_dir, index_dir, update_file, staging_dir })
    }

    /// The cache directory, which is also what is locked.
    pub fn cache_dir(&self) -> (r: &str)
        ensures
            r@ == self@.cache_dir,
    {
        self.cache_dir.as_str()
    }

    /// The directory of the index.
    pub fn index_dir(&self) -> (r: &str)
        ensures
            r@ == self@.index_dir,
    {
        self.index_dir.as_str()
    }

    /// The file whose time of modification is that of the last refresh.
    pub fn update_file(&self) -> (r: &str)
        ensures
            r@ == self@.update_file,
    {
        self.update_file.as_str()
    }

    /// The directory in which a new copy is made.
    pub fn staging_dir(&self) -> (r: &str)
        ensures
            r@ == self@.staging_dir,
    {
        self.staging_dir.as_str()
    }
}

/// The seconds between two updates: sixty times the minutes given, or as
/// many as fit.
pub open spec fn interval_of(minutes: Option<u64>) -> int {
    let m = match minutes {
        Some(m) => m,
        None => DEFAULT_INTERVAL_MINUTES,
    };
    if m * 60 > u64::MAX {
        u64::MAX as int
    } else {
        m * 60
    }
}

/// The seconds between two updates, from the minutes that the environment
/// asks for, if it asks for any.
pub fn update_interval(minutes: Option<u64>) -> (r: u64)
    ensures
        r == interval_of(minutes),
{
    let m: u64 = match minutes {
        Some(m) => m,
        None => DEFAULT_INTERVAL_MINUTES,
    };
    if m > u64::MAX / 60 {
        u64::MAX
    } else {
        m * 60
    }
}

/// The copy is stale: it was never marked as refreshed, or more than
/// `interval` has passed since it was.
pub open spec fn is_stale(now: u64, modified: Option<u64>, interval: u64) -> bool {
    match modified {
        None => true,
        Some(then) => now - then > interval,
    }
}

/// Whether the copy is stale, from the time now and the time of the last
/// refresh, if there was one.
pub fn needs_update(now: u64, modified: Option<u64>, interval: u64) -> (r: bool)
    ensures
        r == is_stale(now, modified, interval),
{
    match modified {
        None => true,
        Some(then) => then < now && now - then > interval,
    }
}

/// A copy refreshed a moment more than the interval ago is stale, and one
/// refreshed a moment less than the interval ago is fresh.
pub proof fn lemma_stale_at_the_interval(now: u64, interval: u64)
    ensures
        now - interval - 1 >= 0 ==> is_stale(now, Some((now - interval - 1) as u64), interval),
        now - interval + 1 >= 0 && now - interval + 1 <= u64::MAX ==> !is_stale(
            now,
            Some((now - interval + 1) as u64),
            interval,
        ),
{
}

/// What is done in the background.
#[derive(Debug, Clone, Copy, PartialEq, Eq, Structural)]
pub enum Protocol {
    /// Bring a first copy of the index.
    Download,
    /// Refresh the copy that is there.
    Update,
}

/// What a check waits to learn.
#[derive(Debug, Clone, Copy, PartialEq, Eq, Structural)]
pub enum CheckState {
    /// Whether the directory of the index exists.
    Index,
    /// When the copy was last refreshed.
    Marker,
    /// Whether the lock could be taken.
    Lock,
    /// Nothing: the check is over.
    Done(IndexStatus),
}

/// What a check is told.
#[derive(Debug, Clone, Copy, PartialEq, Eq)]
pub enum Finding {
    /// Whether the directory of the index exists.
    IndexDir(bool),
    /// The time of the last refresh, if the copy was ever marked as
    /// refreshed, and the time now.
    Marker { modified: Option<u64>, now: u64 },
    /// Whether the lock was taken.
    Lock(bool),
}

/// What a check asks for.
#[derive(Debug, Clone, Copy, PartialEq, Eq)]
pub enum Action {
    /// See whether the directory of the index exists.
    ProbeIndexDir,
    /// Read the time of the last refresh, and the time now.
    ReadMarker,
    /// Try to take the lock, without waiting.
    TryLock,
    /// Return the status, after starting in the background what `spawn`
    /// names, if it names anything.
    Finish { status: IndexStatus, spawn: Option<Protocol> },
}

/// What a check asks for in a state.
pub open spec fn asked(state: CheckState) -> Action {
    match state {
        CheckState::Index => Action::ProbeIndexDir,
        CheckState::Marker => Action::ReadMarker,
        CheckState::Lock => Action::TryLock,
        CheckState::Done(status) => Action::Finish { status, spawn: None },
    }
}

/// The state after a finding, and what is to be done next. Without a copy,
/// one is brought in the background. A fresh copy is ready. For a stale one
/// the lock is tried: who takes it refreshes the copy in the background, and
/// who does not leaves that to the one that holds it. A finding that was not
/// asked for changes nothing.
pub open spec fn checked(state: CheckState, finding: Finding, interval: u64) -> (
    CheckState,
    Action,
) {
    match (state, finding) {
        (CheckState::Index, Finding::IndexDir(false)) => (
            CheckState::Done(IndexStatus::Downloading),
            Action::Finish { status: IndexStatus::Downloading, spawn: Some(Protocol::Download) },
        ),
        (CheckState::Index, Finding::IndexDir(true)) => (CheckState::Marker, Action::ReadMarker),
        (CheckState::Marker, Finding::Marker { modified, now }) => if is_stale(
            now,
            modified,
            interval,
        ) {
            (CheckState::Lock, Action::TryLock)
        } else {
            (
                CheckState::Done(IndexStatus::Ready),
                Action::Finish { status: IndexStatus::Ready, spawn: None },
            )
        },
        (CheckState::Lock, Finding::Lock(true)) => (
            CheckState::Done(IndexStatus::Updating),
            Action::Finish { status: IndexStatus::Updating, spawn: Some(Protocol::Update) },
        ),
        (CheckState::Lock, Finding::Lock(false)) => (
            CheckState::Done(IndexStatus::Updating),
            Action::Finish { status: IndexStatus::Updating, spawn: None },
        ),
        _ => (state, asked(state)),
    }
}

/// The state in which a check begins, and what it asks for first.
pub fn check_start() -> (r: (CheckState, Action))
    ensures
        r == (CheckState::Index, Action::ProbeIndexDir),
{
    (CheckState::Index, Action::ProbeIndexDir)
}

/// Takes a finding: the state after it, and what is to be done next.
pub fn check(state: CheckState, finding: Finding, interval: u64) -> (r: (CheckState, Action))
    ensures
        r == checked(state, finding, interval),
{
    match (state, finding) {
        (CheckState::Index, Finding::IndexDir(exists)) => {
            if exists {
                (CheckState::Marker, Action::ReadMarker)
            } else {
                (
                    CheckState::Done(IndexStatus::Downloading),
                    Action::Finish {
                        status: IndexStatus::Downloading,
                        spawn: Some(Protocol::Download),
                    },
                )
            }
        },
        (CheckState::Marker, Finding::Marker { modified, now }) => {
            if needs_update(now, modified, interval) {
                (CheckState::Lock, Action::TryLock)
            } else {
                (
                    CheckState::Done(IndexStatus::Ready),
                    Action::Finish { status: IndexStatus::Ready, spawn: None },
                )
            }
        },
        (CheckState::Lock, Finding::Lock(taken)) => {
            let spawn: Option<Protocol> = if taken {
                Some(Protocol::Update)
            } else {
                None
            };
            (
                CheckState::Done(IndexStatus::Updating),
                Action::Finish { status: IndexStatus::Updating, spawn },
            )
        },
        (CheckState::Index, _) => (state, Action::ProbeIndexDir),
        (CheckState::Marker, _) => (state, Action::ReadMarker),
        (CheckState::Lock, _) => (state, Action::TryLock),
        (CheckState::Done(status), _) => (state, Action::Finish { status, spawn: None }),
    }
}

/// What a check comes to when each of its questions gets its true answer:
/// the status, and what is started in the background.
pub open spec fn ensure_fresh(
    index_exists: bool,
    modified: Option<u64>,
    now: u64,
    lock_taken: bool,
    interval: u64,
) -> (IndexStatus, Option<Protocol>) {
    if !index_exists {
        (IndexStatus::Downloading, Some(Protocol::Download))
    } else if !is_stale(now, modified, interval) {
        (IndexStatus::Ready, None)
    } else if lock_taken {
        (IndexStatus::Updating, Some(Protocol::Update))
    } else {
        (IndexStatus::Updating, None)
    }
}

/// The last action of a check whose questions get their true answers.
pub open spec fn check_run(
    index_exists: bool,
    modified: Option<u64>,
    now: u64,
    lock_taken: bool,
    interval: u64,
) -> Action {
    let first = checked(CheckState::Index, Finding::IndexDir(index_exists), interval);
    if first.1 is Finish {
        first.1
    } else {
        let second = checked(first.0, Finding::Marker { modified, now }, interval);
        if second.1 is Finish {
            second.1
        } else {
            checked(second.0, Finding::Lock(lock_taken), interval).1
        }
    }
}

/// A check ends after at most three questions, with the status and the
/// work in the background that `ensure_fresh` names. It asks for the lock
/// only where the copy is there and stale, and where the lock is held by
/// another it starts nothing.
pub proof fn lemma_check_ends(
    index_exists: bool,
    modified: Option<u64>,
    now: u64,
    lock_taken: bool,
    interval: u64,
)
    ensures
        check_run(index_exists, modified, now, lock_taken, interval) == (Action::Finish {
            status: ensure_fresh(index_exists, modified, now, lock_taken, interval).0,
            spawn: ensure_fresh(index_exists, modified, now, lock_taken, interval).1,
        }),
        index_exists && is_stale(now, modified, interval) && !lock_taken ==> ensure_fresh(
            index_exists,
            modified,
            now,
            lock_taken,
            interval,
        ) == (IndexStatus::Updating, None::<Protocol>),
{
}

/// One thing that is done to the copy in the background.
#[derive(Debug, Clone, Copy, PartialEq, Eq, Structural)]
pub enum Op {
    /// Try to take the lock, without waiting.
    TryLock,
    /// Remove what an earlier attempt left in the staging directory.
    RemoveStaging,
    /// Clone the remote index into the staging directory.
    GitClone,
    /// Move the staging directory to the place of the index.
    Rename,
    /// Fetch from the remote.
    GitFetch,
    /// Reset the copy to what was fetched.
    GitReset,
    /// Mark the copy as refreshed now.
    TouchMarker,
}

/// What came of an `Op`.
#[derive(Debug, Clone, Copy, PartialEq, Eq, Structural)]
pub enum Outcome {
    /// It was done.
    Done,
    /// It failed.
    Failed,
    /// The lock is held by another.
    Contended,
}

/// Why work in the background was given up.
#[derive(Debug, Clone, Copy, PartialEq, Eq, Structural)]
pub enum SyncError {
    /// The disk could not be written or read.
    Io,
    /// `git` could not be run, or it failed.
    Subprocess,
}

/// How work in the background ended before all was done.
#[derive(Debug, Clone, Copy, PartialEq, Eq, Structural)]
pub enum End {
    /// Another holds the lock and does the work.
    Skipped,
    /// The work was given up.
    GivenUp(SyncError),
}

/// What is to be done next in the background.
#[derive(Debug, Clone, Copy, PartialEq, Eq, Structural)]
pub enum Next {
    /// This.
    Do(Op),
    /// Nothing: all was done.
    Finished,
    /// Nothing: another holds the lock and does the work.
    Skipped,
    /// Nothing: the work was given up.
    GivenUp(SyncError),
}

/// The steps of a protocol, in their order. A download takes the lock
/// itself; an update runs under the lock that the check took.
pub open spec fn plan(protocol: Protocol) -> Seq<Op> {
    match protocol {
        Protocol::Download => seq![
            Op::TryLock,
            Op::RemoveStaging,
            Op::GitClone,
            Op::Rename,
            Op::TouchMarker,
        ],
        Protocol::Update => seq![Op::GitFetch, Op::GitReset, Op::TouchMarker],
    }
}

/// What an outcome means for the work: `None` where it goes on. What the
/// staging directory held need not have been there, so its removal never
/// stops the work. Without the lock the work is left to the one that holds
/// it. Anything else that was not done ends the work with an error.
pub open spec fn stops(op: Op, outcome: Outcome) -> Option<End> {
    match op {
        Op::RemoveStaging => None,
        Op::TryLock => match outcome {
            Outcome::Done => None,
            Outcome::Contended => Some(End::Skipped),
            Outcome::Failed => Some(End::GivenUp(SyncError::Io)),
        },
        Op::GitClone | Op::GitFetch | Op::GitReset => match outcome {
            Outcome::Done => None,
            _ => Some(End::GivenUp(SyncError::Subprocess)),
        },
        Op::Rename | Op::TouchMarker => match outcome {
            Outcome::Done => None,
            _ => Some(End::GivenUp(SyncError::Io)),
        },
    }
}

/// Work in the background: the protocol, how many of its steps are behind
/// it, and how it ended if it has.
#[derive(Debug, Clone, Copy, PartialEq, Eq)]
pub struct Sync {
    pub protocol: Protocol,
    pub position: usize,
    pub ended: Option<End>,
}

/// What is to be done in a state of the work.
pub open spec fn pending(s: Sync) -> Next {
    match s.ended {
        Some(End::Skipped) => Next::Skipped,
        Some(End::GivenUp(e)) => Next::GivenUp(e),
        None => if s.position < plan(s.protocol).len() {
            Next::Do(plan(s.protocol)[s.position as int])
        } else {
            Next::Finished
        },
    }
}

/// The work after the outcome of its pending step.
pub open spec fn advanced(s: Sync, outcome: Outcome) -> Sync {
    if s.ended.is_some() || s.position >= plan(s.protocol).len() {
        s
    } else {
        match stops(plan(s.protocol)[s.position as int], outcome) {
            Some(end) => Sync { protocol: s.protocol, position: s.position, ended: Some(end) },
            None => Sync {
                protocol: s.protocol,
                position: (s.position + 1) as usize,
                ended: None,
            },
        }
    }
}

/// The work after the outcomes of its steps so far.
pub open spec fn after(protocol: Protocol, outcomes: Seq<Outcome>) -> Sync
    decreases outcomes.len(),
{
    if outcomes.len() == 0 {
        Sync { protocol, position: 0, ended: None }
    } else {
        advanced(after(protocol, outcomes.drop_last()), outcomes.last())
    }
}

/// The step at a place of a protocol, if there is one.
fn op_at(protocol: Protocol, position: usize) -> (r: Option<Op>)
    ensures
        match r {
            Some(op) => position < plan(protocol).len() && op == plan(protocol)[position as int],
            None => position >= plan(protocol).len(),
        },
{
    match protocol {
        Protocol::Download => {
            if position == 0 {
                Some(Op::TryLock)
            } else if position == 1 {
                Some(Op::RemoveStaging)
            } else if position == 2 {
                Some(Op::GitClone)
            } else if position == 3 {
                Some(Op::Rename)
            } else if position == 4 {
                Some(Op::TouchMarker)
            } else {
                None
            }
        },
        Protocol::Update => {
            if position == 0 {
                Some(Op::GitFetch)
            } else if position == 1 {
                Some(Op::GitReset)
            } else if position == 2 {
                Some(Op::TouchMarker)
            } else {
                None
            }
        },
    }
}

/// What an outcome means for the work.
pub fn judge(op: Op, outcome: Outcome) -> (r: Option<End>)
    ensures
        r == stops(op, outcome),
{
    match op {
        Op::RemoveStaging => None,
        Op::TryLock => match outcome {
            Outcome::Done => None,
            Outcome::Contended => Some(End::Skipped),
            Outcome::Failed => Some(End::GivenUp(SyncError::Io)),
        },
        Op::GitClone | Op::GitFetch | Op::GitReset => match outcome {
            Outcome::Done => None,
            _ => Some(End::GivenUp(SyncError::Subprocess)),
        },
        Op::Rename | Op::TouchMarker => match outcome {
            Outcome::Done => None,
            _ => Some(End::GivenUp(SyncError::Io)),
        },
    }
}

impl Sync {
    /// The work of a protocol with nothing done yet.
    pub fn start(protocol: Protocol) -> (r: Sync)
        ensures
            r == after(protocol, Seq::empty()),
    {
        Sync { protocol, position: 0, ended: None }
    }

    /// What is to be done next.
    pub fn next(&self) -> (r: Next)
        ensures
            r == pending(*self),
    {
        match self.ended {
            Some(End::Skipped) => Next::Skipped,
            Some(End::GivenUp(e)) => Next::GivenUp(e),
            None => match op_at(self.protocol, self.position) {
                Some(op) => Next::Do(op),
                None => Next::Finished,
            },
        }
    }

    /// Takes the outcome of the pending step.
    pub fn advance(&mut self, outcome: Outcome)
        ensures
            *final(self) == advanced(*old(self), outcome),
    {
        if self.ended.is_some() {
            return ;
        }
        match op_at(self.protocol, self.position) {
            None => {},
            Some(op) => match judge(op, outcome) {
                Some(end) => {
                    self.ended = Some(end);
                },
                None => {
                    self.position = self.position + 1;
                },
            },
        }
    }
}

/// As long as the work has not ended, every step behind it went well: each
/// outcome so far was one with which the work goes on.
pub proof fn lemma_work_goes_on(protocol: Protocol, outcomes: Seq<Outcome>)
    requires
        after(protocol, outcomes).ended.is_none(),
    ensures
        after(protocol, outcomes).protocol == protocol,
        after(protocol, outcomes).position <= plan(protocol).len(),
        after(protocol, outcomes).position <= outcomes.len(),
        forall|j: int|
            0 <= j < after(protocol, outcomes).position ==> stops(
                #[trigger] plan(protocol)[j],
                outcomes[j],
            ).is_none(),
        after(protocol, outcomes).position < plan(protocol).len() ==> after(
            protocol,
            outcomes,
        ).position == outcomes.len(),
    decreases outcomes.len(),
{
    if outcomes.len() > 0 {
        let before = after(protocol, outcomes.drop_last());
        lemma_ended_stays(protocol, outcomes.drop_last(), outcomes.last());
        lemma_work_goes_on(protocol, outcomes.drop_last());
    }
}

proof fn lemma_ended_stays(protocol: Protocol, outcomes: Seq<Outcome>, outcome: Outcome)
    ensures
        after(protocol, outcomes).ended.is_some() ==> advanced(
            after(protocol, outcomes),
            outcome,
        ).ended.is_some(),
{
}

/// The copy is marked as refreshed only after a refresh that succeeded:
/// where the pending step is the marking, the lock was taken by whoever
/// started the work, and the clone and the move into place, or the fetch
/// and the reset, were done.
pub proof fn lemma_marker_after_success(protocol: Protocol, outcomes: Seq<Outcome>)
    requires
        pending(after(protocol, outcomes)) == Next::Do(Op::TouchMarker),
    ensures
        outcomes.len() == plan(protocol).len() - 1,
        forall|j: int|
            0 <= j < outcomes.len() ==> outcomes[j] == Outcome::Done || plan(protocol)[j]
                == Op::RemoveStaging,
{
    lemma_work_goes_on(protocol, outcomes);
    let s = after(protocol, outcomes);
    assert forall|j: int| 0 <= j < outcomes.len() implies outcomes[j] == Outcome::Done || plan(
        protocol,
    )[j] == Op::RemoveStaging by {
        assert(stops(plan(protocol)[j], outcomes[j]).is_none());
    }
}

/// A download touches nothing without the lock: any step after the first
/// is pending only where the lock was taken.
pub proof fn lemma_download_needs_lock(outcomes: Seq<Outcome>)
    requires
        pending(after(Protocol::Download, outcomes)) is Do,
        outcomes.len() > 0,
    ensures
        outcomes[0] == Outcome::Done,
{
    lemma_work_goes_on(Protocol::Download, outcomes);
    assert(stops(plan(Protocol::Download)[0], outcomes[0]).is_none());
}

/// Runs `f` where the lock was taken, and does nothing where it was not.
/// The lock is given up when this returns.
pub fn or_ignore<G, E, F: FnOnce() -> Result<(), E>>(guard: Option<G>, f: F) -> (r: Result<(), E>)
    requires
        guard.is_some() ==> f.requires(()),
    ensures
        guard.is_some() ==> f.ensures((), r),
        guard.is_none() ==> r.is_ok(),
{
    match guard {
        Some(_held) => f(),
        None => Ok(()),
    }
}

/// The arguments with which `git` clones the index at `url` into `path`,
/// without its history.
pub open spec fn clone_args(url: Seq<char>, path: Seq<char>) -> Seq<Seq<char>> {
    seq!["clone"@, "--depth"@, "1"@, url, path]
}

/// The arguments with which `git` fetches into the copy at `path`.
pub open spec fn fetch_args(path: Seq<char>) -> Seq<Seq<char>> {
    seq!["-C"@, path, "fetch"@]
}

/// The arguments with which `git` resets the copy at `path` to what the
/// remote holds, whatever was changed in it.
pub open spec fn reset_args(path: Seq<char>) -> Seq<Seq<char>> {
    seq!["-C"@, path, "reset"@, "--hard"@, "origin/HEAD"@]
}

/// What a list of texts stands for.
pub open spec fn texts_view(texts: Seq<String>) -> Seq<Seq<char>> {
    Seq::new(texts.len(), |i: int| texts[i]@)
}

/// The arguments of `git` for a clone of the index at `url` into `path`.
pub fn git_clone(url: &str, path: &str) -> (r: Vec<String>)
    ensures
        texts_view(r@) == clone_args(url@, path@),
{
    let mut r: Vec<String> = Vec::new();
    r.push(String::from_str("clone"));
    r.push(String::from_str("--depth"));
    r.push(String::from_str("1"));
    r.push(String::from_str(url));
    r.push(String::from_str(path));
    assert(texts_view(r@) =~= clone_args(url@, path@));
    r
}

/// The arguments of `git` for a fetch into the copy at `path`.
pub fn git_fetch(path: &str) -> (r: Vec<String>)
    ensures
        texts_view(r@) == fetch_args(path@),
{
    let mut r: Vec<String> = Vec::new();
    r.push(String::from_str("-C"));
    r.push(String::from_str(path));
    r.push(String::from_str("fetch"));
    assert(texts_view(r@) =~= fetch_args(path@));
    r
}

/// The arguments of `git` for a reset of the copy at `path`.
pub fn git_reset(path: &str) -> (r: Vec<String>)
    ensures
        texts_view(r@) == reset_args(path@),
{
    let mut r: Vec<String> = Vec::new();
    r.push(String::from_str("-C"));
    r.push(String::from_str(path));
    r.push(String::from_str("reset"));
    r.push(String::from_str("--hard"));
    r.push(String::from_str("origin/HEAD"));
    assert(texts_view(r@) =~= reset_args(path@));
    r
}

/// Whether `char::is_whitespace` holds of a character: whether it has the
/// property `White_Space` of Unicode.
pub uninterp spec fn white_space(c: char) -> bool;

/// `char::is_whitespace`. The contract names the result and claims no more.
#[verifier::external_body]
fn is_whitespace(c: char) -> (r: bool)
    ensures
        r == white_space(c),
{
    c.is_whitespace()
}

/// `String::from_utf8`: the text that the bytes spell, and nothing where
/// they are not UTF-8.
#[verifier::external_body]
fn text_of(bytes: Vec<u8>) -> (r: Option<String>)
    ensures
        match r {
            Some(text) => valid_utf8(bytes@) && text@ == decode_utf8(bytes@),
            None => !valid_utf8(bytes@),
        },
{
    String::from_utf8(bytes).ok()
}

/// How many characters at the beginning of a text are white space.
pub open spec fn leading(text: Seq<char>) -> nat
    decreases text.len(),
{
    if text.len() > 0 && white_space(text[0]) {
        1 + leading(text.drop_first())
    } else {
        0
    }
}

/// How many characters at the end of a text are white space.
pub open spec fn trailing(text: Seq<char>) -> nat
    decreases text.len(),
{
    if text.len() > 0 && white_space(text.last()) {
        1 + trailing(text.drop_last())
    } else {
        0
    }
}

/// A text without the white space at its beginning and at its end.
pub open spec fn trimmed(text: Seq<char>) -> Seq<char> {
    let rest = text.skip(leading(text) as int);
    rest.take(rest.len() - trailing(rest))
}

proof fn lemma_leading_fits(text: Seq<char>)
    ensures
        leading(text) <= text.len(),
    decreases text.len(),
{
    if text.len() > 0 && white_space(text[0]) {
        lemma_leading_fits(text.drop_first());
    }
}

proof fn lemma_trailing_fits(text: Seq<char>)
    ensures
        trailing(text) <= text.len(),
    decreases text.len(),
{
    if text.len() > 0 && white_space(text.last()) {
        lemma_trailing_fits(text.drop_last());
    }
}

/// A text without the white space at its beginning and at its end.
pub fn trim(text: &str) -> (r: String)
    ensures
        r@ == trimmed(text@),
{
    let ghost s = text@;
    let n: usize = text.unicode_len();
    let mut i: usize = 0;
    assert(s.skip(0) =~= s);
    while i < n && is_whitespace(text.get_char(i))
        invariant
            s == text@,
            n == s.len(),
            i <= n,
            leading(s) == i + leading(s.skip(i as int)),
        decreases n - i,
    {
        assert(s.skip(i as int)[0] == s[i as int]);
        assert(s.skip(i as int).drop_first() =~= s.skip(i + 1));
        i += 1;
    }
    assert(leading(s) == i) by {
        if i < n {
            assert(s.skip(i as int)[0] == s[i as int]);
        }
    }
    let ghost rest = s.skip(i as int);
    let mut j: usize = n;
    assert(rest.take(rest.len() as int) =~= rest);
    while j > i && is_whitespace(text.get_char(j - 1))
        invariant
            s == text@,
            n == s.len(),
            rest == s.skip(i as int),
            i <= j <= n,
            trailing(rest) == (n - j) + trailing(rest.take(j - i)),
        decreases j,
    {
        assert(rest.take(j - i).last() == s[j - 1]);
        assert(rest.take(j - i).drop_last() =~= rest.take(j - 1 - i));
        j -= 1;
    }
    assert(trailing(rest) == n - j) by {
        if j > i {
            assert(rest.take(j - i).last() == s[j - 1]);
        }
    }
    let r: String = String::from_str(text.substring_char(i, j));
    assert(r@ =~= trimmed(s));
    r
}

/// What a run of `git reset` comes to: what it printed, without the white
/// space around it, where it succeeded and printed a text; and an error
/// where it failed or printed what is no text.
pub open spec fn reset_result(success: bool, stdout: Seq<u8>) -> Result<Seq<char>, SyncError> {
    if success && valid_utf8(stdout) {
        Ok(trimmed(decode_utf8(stdout)))
    } else {
        Err(SyncError::Subprocess)
    }
}

/// What a run of `git reset` comes to, from whether it succeeded and what
/// it printed.
pub fn reset_output(success: bool, stdout: Vec<u8>) -> (r: Result<String, SyncError>)
    ensures
        match r {
            Ok(text) => reset_result(success, stdout@) == Ok::<Seq<char>, SyncError>(text@),
            Err(e) => reset_result(success, stdout@) == Err::<Seq<char>, SyncError>(e),
        },
{
    if !success {
        return Err(SyncError::Subprocess);
    }
    match text_of(stdout) {
        Some(text) => Ok(trim(text.as_str())),
        None => Err(SyncError::Subprocess),
    }
}

/// The step of a protocol as the program and the arguments to run, where it
/// is a run of `git`.
pub fn command(files: &Files, op: Op) -> (r: Option<Vec<String>>)
    ensures
        match r {
            Some(args) => match op {
                Op::GitClone => texts_view(args@) == clone_args(
                    CRATES_IO_INDEX@,
                    files@.staging_dir,
                ),
                Op::GitFetch => texts_view(args@) == fetch_args(files@.index_dir),
                Op::GitReset => texts_view(args@) == reset_args(files@.index_dir),
                _ => false,
            },
            None => op != Op::GitClone && op != Op::GitFetch && op != Op::GitReset,
        },
{
    match op {
        Op::GitClone => Some(git_clone(CRATES_IO_INDEX, files.staging_dir())),
        Op::GitFetch => Some(git_fetch(files.index_dir())),
        Op::GitReset => Some(git_reset(files.index_dir())),
        _ => None,
    }
}

} // verus!

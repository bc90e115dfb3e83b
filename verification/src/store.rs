//! The rules of the snapshot store: what a captured entry records, how a
//! capture is tallied, where blobs live, and how each file is restored.
use vstd::prelude::*;
use crate::number::{decimal_injective, digits, u64_text};
use crate::path::{components, join, join_path, path_components};
use crate::protocol::UndoResult;
use crate::text::{opt_text, same_text, texts};

verus! {

/// One captured file or directory.
#[derive(Debug, Clone)]
pub struct SnapshotFile {
    pub original_path: String,
    pub new_path: Option<String>,
    pub op: String,
    pub blob_path: Option<String>,
    pub mode: u32,
    pub size_bytes: i64,
    pub entry_type: String,
    pub mtime_ns: i64,
}

/// The outcome of an undo, file by file.
#[derive(Debug)]
pub struct RestoreReport {
    pub restored: Vec<String>,
    pub conflicts: Vec<(String, String)>,
    pub failed: Vec<(String, String)>,
}

impl RestoreReport {
    /// An empty report.
    pub fn new() -> (r: RestoreReport)
        ensures
            r.restored@.len() == 0,
            r.conflicts@.len() == 0,
            r.failed@.len() == 0,
    {
        RestoreReport { restored: Vec::new(), conflicts: Vec::new(), failed: Vec::new() }
    }
}

impl From<RestoreReport> for UndoResult {
    fn from(v: RestoreReport) -> (r: UndoResult) {
        UndoResult { restored: v.restored, conflicts: v.conflicts, failed: v.failed }
    }
}

impl vstd::std_specs::convert::FromSpecImpl<RestoreReport> for UndoResult {
    open spec fn obeys_from_spec() -> bool {
        true
    }

    open spec fn from_spec(v: RestoreReport) -> UndoResult {
        UndoResult { restored: v.restored, conflicts: v.conflicts, failed: v.failed }
    }
}

/// What kind of filesystem object an entry is.
#[derive(Debug, Clone, Copy, PartialEq, Eq, Structural)]
pub enum EntryKind {
    Symlink,
    Dir,
    File,
    Other,
}

/// A modification time in nanoseconds from its seconds and nanoseconds parts,
/// as `secs * 1_000_000_000 + nsec` in 64-bit arithmetic (wrapping, as the
/// release build does, past the year 2262).
pub open spec fn nanos_of(secs: i64, nsec: i64) -> i64 {
    secs.wrapping_mul(1_000_000_000).wrapping_add(nsec)
}

/// A modification time in nanoseconds.
pub fn mtime_ns(secs: i64, nsec: i64) -> (r: i64)
    ensures
        r == nanos_of(secs, nsec),
{
    secs.wrapping_mul(1_000_000_000).wrapping_add(nsec)
}

impl SnapshotFile {
    /// The record of an entry found at `path` before a destructive command:
    /// directories and regular files are recorded (files with their
    /// modification time, directories with 0), symlinks and other objects are
    /// not.
    pub fn of_entry(
        path: String,
        kind: EntryKind,
        mode: u32,
        len: u64,
        mtime_secs: i64,
        mtime_nsec: i64,
    ) -> (r: Option<SnapshotFile>)
        ensures
            (kind == EntryKind::Symlink || kind == EntryKind::Other) <==> r is None,
            r matches Some(f) ==> {
                &&& f.original_path@ == path@
                &&& f.new_path is None
                &&& f.op@ == "delete"@
                &&& f.blob_path is None
                &&& f.mode == mode
                &&& f.size_bytes == len as i64
                &&& f.entry_type@ == (if kind == EntryKind::Dir {
                    "dir"@
                } else {
                    "file"@
                })
                &&& f.mtime_ns == (if kind == EntryKind::File {
                    nanos_of(mtime_secs, mtime_nsec)
                } else {
                    0
                })
            },
    {
        match kind {
            EntryKind::Symlink | EntryKind::Other => None,
            EntryKind::Dir => Some(
                SnapshotFile {
                    original_path: path,
                    new_path: None,
                    op: String::from_str("delete"),
                    blob_path: None,
                    mode,
                    size_bytes: len as i64,
                    entry_type: String::from_str("dir"),
                    mtime_ns: 0,
                },
            ),
            EntryKind::File => Some(
                SnapshotFile {
                    original_path: path,
                    new_path: None,
                    op: String::from_str("delete"),
                    blob_path: None,
                    mode,
                    size_bytes: len as i64,
                    entry_type: String::from_str("file"),
                    mtime_ns: mtime_ns(mtime_secs, mtime_nsec),
                },
            ),
        }
    }
}

/// Whether a captured entry can be brought back: files with a blob, and
/// directories (which are recreated).
pub open spec fn recoverable(blob_path: Option<Seq<char>>, entry_type: Seq<char>) -> bool {
    blob_path is Some || entry_type == "dir"@
}

/// Whether a captured entry can be brought back.
pub fn is_recoverable(blob_path: &Option<String>, entry_type: &str) -> (r: bool)
    ensures
        r == recoverable(opt_text(*blob_path), entry_type@),
{
    blob_path.is_some() || same_text(entry_type, "dir")
}

/// The name of the `n`-th blob of a snapshot.
pub open spec fn blob_name(n: nat) -> Seq<char> {
    digits(n, 10) + ".blob"@
}

/// The directory that holds the blobs of snapshot `id`.
pub open spec fn snapshot_dir(data_dir: Seq<char>, id: u64) -> Seq<char> {
    join(join(data_dir, "blobs"@), digits(id as nat, 10))
}

/// The directory that holds the blobs of snapshot `id`.
pub fn snapshot_blob_dir(data_dir: &str, id: u64) -> (r: String)
    ensures
        r@ == snapshot_dir(data_dir@, id),
{
    let blobs = join_path(data_dir, "blobs");
    let n = u64_text(id);
    join_path(blobs.as_str(), n.as_str())
}

/// The file that holds blob `blob` of snapshot `id`.
pub fn blob_file(data_dir: &str, id: u64, blob: &str) -> (r: String)
    ensures
        r@ == join(snapshot_dir(data_dir@, id), blob@),
{
    let dir = snapshot_blob_dir(data_dir, id);
    join_path(dir.as_str(), blob)
}

/// Whether a captured entry of this type has its contents copied to a blob:
/// only regular files do.
pub fn needs_blob(entry_type: &str) -> (r: bool)
    ensures
        r == (entry_type@ == "file"@),
{
    same_text(entry_type, "file")
}

/// The name of the `n`-th blob of a snapshot.
pub fn blob_name_of(n: u64) -> (r: String)
    ensures
        r@ == blob_name(n as nat),
{
    let mut r = u64_text(n);
    r.append(".blob");
    r
}

/// Whether every file of a capture was copied, given the outcome of each
/// copy (`Some((len, reflinked))` when it succeeded).
pub open spec fn run_fully(outcomes: Seq<Option<(u64, bool)>>) -> bool {
    forall|i: int| 0 <= i < outcomes.len() ==> (#[trigger] outcomes[i]) is Some
}

/// Whether every copied file of a capture was reflinked.
pub open spec fn run_all_reflink(outcomes: Seq<Option<(u64, bool)>>) -> bool {
    forall|i: int|
        0 <= i < outcomes.len() ==> ((#[trigger] outcomes[i]) matches Some((_, reflinked))
            ==> reflinked)
}

/// The bytes a capture copied: the lengths of the copied files added up in
/// 64-bit wrapping arithmetic.
pub open spec fn run_bytes(outcomes: Seq<Option<(u64, bool)>>) -> i64
    decreases outcomes.len(),
{
    if outcomes.len() == 0 {
        0
    } else {
        let before = run_bytes(outcomes.drop_last());
        match outcomes.last() {
            Some((len, _)) => before.wrapping_add(len as i64),
            None => before,
        }
    }
}

/// The running totals of a capture, updated after each file is copied.
pub struct CaptureTally {
    /// Whether every file was copied.
    pub fully: bool,
    /// Whether every copied file was reflinked.
    pub all_reflink: bool,
    /// The bytes copied so far.
    pub bytes: i64,
    /// How many files have been attempted.
    pub next_blob: u64,
}

impl CaptureTally {
    /// The tally before any file.
    pub fn new() -> (t: CaptureTally)
        ensures
            t.fully,
            t.all_reflink,
            t.bytes == 0,
            t.next_blob == 0,
    {
        CaptureTally { fully: true, all_reflink: true, bytes: 0, next_blob: 0 }
    }

    /// The blob name for the next file.
    pub fn blob_name(&self) -> (r: String)
        ensures
            r@ == blob_name(self.next_blob as nat),
    {
        blob_name_of(self.next_blob)
    }

    /// The totals of a whole capture, from the outcome of copying each of its
    /// files in turn: it is complete when every copy succeeded, reflinked when
    /// every successful copy was, holds the bytes copied, and counts the
    /// files attempted.
    pub fn of_run(outcomes: &Vec<Option<(u64, bool)>>) -> (t: CaptureTally)
        ensures
            t.fully == run_fully(outcomes@),
            t.all_reflink == run_all_reflink(outcomes@),
            t.bytes == run_bytes(outcomes@),
            t.next_blob == outcomes@.len(),
    {
        let mut t = CaptureTally::new();
        let mut i: usize = 0;
        while i < outcomes.len()
            invariant
                i <= outcomes@.len(),
                t.fully == run_fully(outcomes@.take(i as int)),
                t.all_reflink == run_all_reflink(outcomes@.take(i as int)),
                t.bytes == run_bytes(outcomes@.take(i as int)),
                t.next_blob == i,
            decreases outcomes.len() - i,
        {
            let ghost done = outcomes@.take(i as int);
            let ghost next = outcomes@.take(i + 1);
            assert(next.drop_last() =~= done);
            assert(next.last() == outcomes@[i as int]);
            assert forall|j: int| 0 <= j < done.len() implies #[trigger] next[j] == done[j] by {}
            t.record(outcomes[i]);
            assert(t.fully == run_fully(next)) by {
                if !run_fully(done) {
                    let j = choose|j: int| 0 <= j < done.len() && !(#[trigger] done[j] is Some);
                    assert(next[j] == done[j]);
                }
            }
            assert(t.all_reflink == run_all_reflink(next)) by {
                if !run_all_reflink(done) {
                    let j = choose|j: int|
                        0 <= j < done.len() && !((#[trigger] done[j]) matches Some((_, reflinked))
                            ==> reflinked);
                    assert(next[j] == done[j]);
                }
            }
            i = i + 1;
        }
        assert(outcomes@.take(outcomes.len() as int) =~= outcomes@);
        t
    }

    /// Records the attempt to copy one file: `Some((len, reflinked))` when it
    /// was copied, `None` when it failed.
    pub fn record(&mut self, outcome: Option<(u64, bool)>)
        ensures
            final(self).next_blob == old(self).next_blob.wrapping_add(1),
            match outcome {
                Some((len, reflinked)) => {
                    &&& final(self).fully == old(self).fully
                    &&& final(self).all_reflink == (old(self).all_reflink && reflinked)
                    &&& final(self).bytes == old(self).bytes.wrapping_add(len as i64)
                },
                None => {
                    &&& !final(self).fully
                    &&& final(self).all_reflink == old(self).all_reflink
                    &&& final(self).bytes == old(self).bytes
                },
            },
    {
        self.next_blob = self.next_blob.wrapping_add(1);
        match outcome {
            Some((len, reflinked)) => {
                self.bytes = self.bytes.wrapping_add(len as i64);
                self.all_reflink = self.all_reflink && reflinked;
            },
            None => {
                self.fully = false;
            },
        }
    }

    /// The capture method recorded for the snapshot.
    pub fn method(&self) -> (r: &'static str)
        ensures
            r@ == (if self.all_reflink {
                "reflink"@
            } else {
                "copy"@
            }),
    {
        if self.all_reflink {
            "reflink"
        } else {
            "copy"
        }
    }
}

} // verus!

verus! {

/// What to do with one captured entry during an undo.
#[derive(Debug)]
pub enum RestoreAction {
    /// Leave the path alone and report it as a conflict, for this reason.
    Conflict(String),
    /// Recreate the directory (with its recorded mode).
    CreateDir,
    /// Copy this blob back over the path (creating its parent directories).
    CopyBlob(String),
    /// Report the path as failed, for this reason.
    Fail(String),
}

/// A restore decision, in terms of text.
pub enum RestorePlan {
    Conflict(Seq<char>),
    CreateDir,
    CopyBlob(Seq<char>),
    Fail(Seq<char>),
}

impl View for RestoreAction {
    type V = RestorePlan;

    open spec fn view(&self) -> RestorePlan {
        match self {
            RestoreAction::Conflict(m) => RestorePlan::Conflict(m@),
            RestoreAction::CreateDir => RestorePlan::CreateDir,
            RestoreAction::CopyBlob(b) => RestorePlan::CopyBlob(b@),
            RestoreAction::Fail(m) => RestorePlan::Fail(m@),
        }
    }
}

/// Whether the path lies inside a `.git` directory.
pub open spec fn in_git(path: Seq<char>) -> bool {
    components(path).contains(".git"@)
}

/// Whether the file at the path was changed after an older snapshot took it:
/// it exists now (`current` is its modification time), the snapshot recorded
/// a modification time, and the two differ.
pub open spec fn changed_since(recorded: i64, is_latest: bool, current: Option<i64>) -> bool {
    !is_latest && recorded > 0 && current is Some && current.unwrap() != recorded
}

/// How to restore an entry at `path` of type `entry_type`, with blob `blob`
/// and recorded modification time `recorded`, from the latest snapshot or an
/// older one, given the current modification time of the path (`None` when
/// it does not exist or cannot be read).
pub open spec fn restore_plan(
    path: Seq<char>,
    entry_type: Seq<char>,
    blob: Option<Seq<char>>,
    recorded: i64,
    is_latest: bool,
    current: Option<i64>,
) -> RestorePlan {
    if in_git(path) {
        RestorePlan::Conflict("inside .git"@)
    } else if entry_type == "dir"@ {
        RestorePlan::CreateDir
    } else if changed_since(recorded, is_latest, current) {
        RestorePlan::Conflict("modified since snapshot"@)
    } else {
        match blob {
            None => RestorePlan::Fail("no recoverable blob"@),
            Some(b) => RestorePlan::CopyBlob(b),
        }
    }
}

/// Whether some component of `path` is `.git`.
pub fn is_in_git(path: &str) -> (r: bool)
    ensures
        r == in_git(path@),
{
    let cs = path_components(path);
    let ghost all = texts(cs@);
    let mut i: usize = 0;
    while i < cs.len()
        invariant
            all == texts(cs@),
            all == components(path@),
            i <= cs.len(),
            forall|j: int| 0 <= j < i ==> all[j] != ".git"@,
        decreases cs.len() - i,
    {
        if same_text(cs[i].as_str(), ".git") {
            assert(all[i as int] == ".git"@);
            return true;
        }
        i = i + 1;
    }
    false
}

/// How to restore the captured entry `f`, from the latest snapshot or an
/// older one, given the current modification time of its path.
pub fn restore_action(f: &SnapshotFile, is_latest: bool, current_mtime_ns: Option<i64>) -> (r:
    RestoreAction)
    ensures
        r@ == restore_plan(
            f.original_path@,
            f.entry_type@,
            opt_text(f.blob_path),
            f.mtime_ns,
            is_latest,
            current_mtime_ns,
        ),
{
    if is_in_git(f.original_path.as_str()) {
        return RestoreAction::Conflict(String::from_str("inside .git"));
    }
    if same_text(f.entry_type.as_str(), "dir") {
        return RestoreAction::CreateDir;
    }
    if !is_latest && f.mtime_ns > 0 {
        if let Some(current) = current_mtime_ns {
            if current != f.mtime_ns {
                return RestoreAction::Conflict(String::from_str("modified since snapshot"));
            }
        }
    }
    match &f.blob_path {
        None => RestoreAction::Fail(String::from_str("no recoverable blob")),
        Some(b) => RestoreAction::CopyBlob(b.clone()),
    }
}

/// Nothing inside a `.git` directory is ever restored: such an entry is
/// reported as a conflict, whatever the snapshot and the file's state.
pub proof fn git_never_restored(
    path: Seq<char>,
    entry_type: Seq<char>,
    blob: Option<Seq<char>>,
    recorded: i64,
    is_latest: bool,
    current: Option<i64>,
)
    requires
        in_git(path),
    ensures
        restore_plan(path, entry_type, blob, recorded, is_latest, current)
            == RestorePlan::Conflict("inside .git"@),
{
}

/// The latest snapshot restores unconditionally: its decision does not
/// depend on the current state of the file.
pub proof fn latest_ignores_current_state(
    path: Seq<char>,
    entry_type: Seq<char>,
    blob: Option<Seq<char>>,
    recorded: i64,
    current: Option<i64>,
)
    ensures
        restore_plan(path, entry_type, blob, recorded, true, current) == restore_plan(
            path,
            entry_type,
            blob,
            recorded,
            true,
            None,
        ),
{
}

/// Undoing an older snapshot never clobbers a file modified since it was
/// taken: such a file is reported as a conflict.
pub proof fn modified_file_not_clobbered(
    path: Seq<char>,
    entry_type: Seq<char>,
    blob: Option<Seq<char>>,
    recorded: i64,
    current: i64,
)
    requires
        !in_git(path),
        entry_type != "dir"@,
        recorded > 0,
        current != recorded,
    ensures
        restore_plan(path, entry_type, blob, recorded, false, Some(current))
            == RestorePlan::Conflict("modified since snapshot"@),
{
}

/// A file of an older snapshot that was not modified since (or no longer
/// exists) is restored from its blob when it has one.
pub proof fn unchanged_file_restored(
    path: Seq<char>,
    entry_type: Seq<char>,
    b: Seq<char>,
    recorded: i64,
    is_latest: bool,
    current: Option<i64>,
)
    requires
        !in_git(path),
        entry_type != "dir"@,
        current is None || current == Some(recorded),
    ensures
        restore_plan(path, entry_type, Some(b), recorded, is_latest, current)
            == RestorePlan::CopyBlob(b),
{
}

} // verus!

verus! {

/// Every file of a capture gets its own blob: different positions give
/// different blob names.
pub proof fn blob_names_distinct(a: nat, b: nat)
    requires
        a != b,
    ensures
        blob_name(a) != blob_name(b),
{
    if blob_name(a) == blob_name(b) {
        let x = digits(a, 10);
        let y = digits(b, 10);
        let s = ".blob"@;
        assert(x + s == y + s);
        assert((x + s).len() == (y + s).len());
        assert(x.len() == y.len());
        assert(x =~= (x + s).subrange(0, x.len() as int));
        assert(y =~= (y + s).subrange(0, y.len() as int));
        assert(x == y);
        decimal_injective(a, b);
    }
}

} // verus!

verus! {

#[verifier::external_type_specification]
#[verifier::external_body]
pub struct ExSystemTime(std::time::SystemTime);

#[verifier::external_type_specification]
#[verifier::external_body]
pub struct ExSystemTimeError(std::time::SystemTimeError);

/// Reads the system clock with `std::time::SystemTime::now`; nothing is
/// claimed of the time it returns.
#[verifier::external_body]
fn system_now() -> std::time::SystemTime {
    std::time::SystemTime::now()
}

/// Calls `SystemTime::duration_since(UNIX_EPOCH)`, which fails when the clock
/// is before 1970; nothing is claimed of the duration.
#[verifier::external_body]
fn since_unix_epoch(t: &std::time::SystemTime) -> std::result::Result<
    core::time::Duration,
    std::time::SystemTimeError,
> {
    t.duration_since(std::time::UNIX_EPOCH)
}

/// Calls `Duration::as_nanos`; nothing is claimed of the count, since the
/// duration is opaque here.
#[verifier::external_body]
fn whole_nanos(d: &core::time::Duration) -> u128 {
    d.as_nanos()
}

/// A clock reading as stored: the nanoseconds elapsed since 1970 truncated
/// to 64 bits, or 0 when the clock was set before 1970 (`None`).
pub open spec fn stamp_of(elapsed: Option<u128>) -> i64 {
    match elapsed {
        Some(n) => n as i64,
        None => 0,
    }
}

/// A clock reading as stored, from the nanoseconds elapsed since 1970.
pub fn clock_nanos(elapsed: Option<u128>) -> (r: i64)
    ensures
        r == stamp_of(elapsed),
{
    match elapsed {
        Some(n) => n as i64,
        None => 0,
    }
}

/// The current time in nanoseconds since 1970, truncated to 64 bits, or 0
/// when the clock is set before 1970. The reading depends on the clock, so
/// no value is promised; `clock_nanos` states what is made of it.
pub fn now_ns() -> i64 {
    let elapsed = match since_unix_epoch(&system_now()) {
        Ok(d) => Some(whole_nanos(&d)),
        Err(_) => None,
    };
    clock_nanos(elapsed)
}

} // verus!

verus! {

/// A path is restored into `.git` exactly when one of its components is
/// `.git` itself: such an entry is a conflict, while an entry with no
/// component equal to `.git` (such as `.gitignore` or `.github/...`) that
/// is not a directory, with a blob, from the latest snapshot or unchanged
/// since, is copied back from its blob.
pub proof fn only_dot_git_components_block_restore(
    path: Seq<char>,
    entry_type: Seq<char>,
    b: Seq<char>,
    recorded: i64,
    is_latest: bool,
    current: Option<i64>,
)
    ensures
        (exists|i: int| 0 <= i < components(path).len() && #[trigger] components(path)[i] == ".git"@)
            ==> restore_plan(path, entry_type, Some(b), recorded, is_latest, current)
            == RestorePlan::Conflict("inside .git"@),
        (forall|i: int| 0 <= i < components(path).len() ==> #[trigger] components(path)[i] != ".git"@)
            && entry_type != "dir"@ && (is_latest || current is None || current == Some(recorded))
            ==> restore_plan(path, entry_type, Some(b), recorded, is_latest, current)
            == RestorePlan::CopyBlob(b),
{
}

} // verus!

verus! {

/// Outside `.git` (no component equal to `.git`), a directory is always
/// recreated, and a file without a blob that nothing forbids restoring
/// fails with "no recoverable blob".
pub proof fn dirs_recreated_and_blobless_files_fail(
    path: Seq<char>,
    blob: Option<Seq<char>>,
    entry_type: Seq<char>,
    recorded: i64,
    is_latest: bool,
    current: Option<i64>,
)
    requires
        forall|i: int| 0 <= i < components(path).len() ==> #[trigger] components(path)[i] != ".git"@,
    ensures
        restore_plan(path, "dir"@, blob, recorded, is_latest, current) == RestorePlan::CreateDir,
        entry_type != "dir"@ && (is_latest || current is None || current == Some(recorded))
            ==> restore_plan(path, entry_type, None, recorded, is_latest, current)
            == RestorePlan::Fail("no recoverable blob"@),
{
}

} // verus!

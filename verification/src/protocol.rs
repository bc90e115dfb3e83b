//! The messages exchanged between the client and the daemon, and the
//! records they carry.
use vstd::prelude::*;
use crate::classify::DestructiveKind;

verus! {

/// A request from the client (or the shell hook) to the daemon.
#[derive(Debug)]
#[allow(inconsistent_fields)]
pub enum Request {
    Undo { snapshot_id: Option<u64> },
    ListSnapshots { limit: u32, offset: u32 },
    Diff { snapshot_id: u64 },
    Status,
    Gc,
    Pin { snapshot_id: u64, pinned: bool },
    InternalNotify { cmd: String, cwd: String },
}

/// The daemon's answer to a request.
#[derive(Debug)]
pub enum Response {
    Undo(UndoResult),
    Snapshots(Vec<SnapshotSummary>),
    Diff(DiffResult),
    Status(DaemonStatus),
    Ack,
    Error { code: i32, message: String },
}

/// One snapshot as listed to the user.
#[derive(Debug, Clone)]
pub struct SnapshotSummary {
    pub id: u64,
    pub command: String,
    pub cwd: String,
    pub kind: DestructiveKind,
    pub created_at_ns: i64,
    pub method: String,
    pub restorable: bool,
    pub pinned: bool,
    pub total_bytes: i64,
    pub file_count: i64,
}

/// One captured file as shown by `diff`.
#[derive(Debug, Clone)]
pub struct DiffFile {
    pub original_path: String,
    pub new_path: Option<String>,
    pub op: String,
    pub mode: u32,
    pub size_bytes: i64,
    pub recoverable: bool,
    pub entry_type: String,
}

/// A snapshot with the files it captured.
#[derive(Debug, Clone)]
pub struct DiffResult {
    pub snapshot: SnapshotSummary,
    pub files: Vec<DiffFile>,
}

/// What an undo restored, what it left alone, and what failed.
#[derive(Debug, Clone)]
pub struct UndoResult {
    pub restored: Vec<String>,
    pub conflicts: Vec<(String, String)>,
    pub failed: Vec<(String, String)>,
}

/// The daemon's report on itself.
#[derive(Debug, Clone)]
pub struct DaemonStatus {
    pub ready: bool,
    pub capture_backend: String,
    pub capture_detail: String,
    pub degraded_warning: Option<String>,
    pub hook_timeout_ms: u64,
    pub storage_bytes: i64,
    pub snapshot_count: i64,
    pub lingering: bool,
}

} // verus!

//! Verified core of `oops`, an undo daemon for destructive shell commands:
//! which commands are destructive and which paths they put at risk, how the
//! snapshot store decides what to keep, restore and evict, and what the
//! daemon and its client say to each other.

pub mod classify;
pub mod config;
pub mod gc;
pub mod number;
pub mod path;
pub mod protocol;
pub mod redirect;
pub mod render;
pub mod service;
pub mod store;
pub mod text;
pub mod tui;
pub mod undo;

pub use classify::{classify, classify_command, parse_command, paths_at_risk, DestructiveKind};
pub use config::Config;
pub use protocol::{
    DaemonStatus, DiffFile, DiffResult, Request, Response, SnapshotSummary, UndoResult,
};
pub use redirect::truncating_redirect;
pub use store::{now_ns, RestoreReport, SnapshotFile};

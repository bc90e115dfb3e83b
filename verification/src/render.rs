//! What the client prints for the daemon's answers, and how it exits.
use vstd::prelude::*;
use crate::number::{digits, int_text, u64_text, i64_text};
use crate::protocol::{DaemonStatus, Response, UndoResult};

verus! {

/// The first line printed after an undo.
pub open spec fn undo_summary_text(r: UndoResult) -> Seq<char> {
    "restored "@ + digits(r.restored@.len(), 10) + " file(s)"@
}

/// The first line printed after an undo.
pub fn undo_summary(r: &UndoResult) -> (s: String)
    ensures
        s@ == undo_summary_text(*r),
{
    let mut s = String::from_str("restored ");
    let n = u64_text(r.restored.len() as u64);
    s.append(n.as_str());
    s.append(" file(s)");
    s
}

/// The line printed for a path that an undo left alone.
pub fn conflict_line(path: &str, message: &str) -> (s: String)
    ensures
        s@ == "conflict: "@ + path@ + ": "@ + message@,
{
    let mut s = String::from_str("conflict: ");
    s.append(path);
    s.append(": ");
    s.append(message);
    s
}

/// The line printed for a path that an undo failed to restore.
pub fn failed_line(path: &str, message: &str) -> (s: String)
    ensures
        s@ == "failed: "@ + path@ + ": "@ + message@,
{
    let mut s = String::from_str("failed: ");
    s.append(path);
    s.append(": ");
    s.append(message);
    s
}

/// The line printed for an error answer.
pub fn error_line(message: &str) -> (s: String)
    ensures
        s@ == "error: "@ + message@,
{
    let mut s = String::from_str("error: ");
    s.append(message);
    s
}

/// A boolean as `{}` writes it.
pub open spec fn bool_text(b: bool) -> Seq<char> {
    if b {
        "true"@
    } else {
        "false"@
    }
}

/// The status report as printed, without the warning line.
pub open spec fn status_text_of(s: DaemonStatus) -> Seq<char> {
    "daemon: ready\ncapture: "@ + s.capture_backend@ + " ("@ + s.capture_detail@
        + ")\nhook timeout: "@ + digits(s.hook_timeout_ms as nat, 10) + " ms\nstorage: "@
        + int_text(s.snapshot_count as int) + " snapshots, "@ + int_text(s.storage_bytes as int)
        + " bytes\nlingering: "@ + bool_text(s.lingering)
}

/// The status report as printed, without the warning line.
pub fn status_text(s: &DaemonStatus) -> (r: String)
    ensures
        r@ == status_text_of(*s),
{
    let mut r = String::from_str("daemon: ready\ncapture: ");
    r.append(s.capture_backend.as_str());
    r.append(" (");
    r.append(s.capture_detail.as_str());
    r.append(")\nhook timeout: ");
    let t = u64_text(s.hook_timeout_ms);
    r.append(t.as_str());
    r.append(" ms\nstorage: ");
    let c = i64_text(s.snapshot_count);
    r.append(c.as_str());
    r.append(" snapshots, ");
    let b = i64_text(s.storage_bytes);
    r.append(b.as_str());
    r.append(" bytes\nlingering: ");
    r.append(if s.lingering { "true" } else { "false" });
    r
}

/// The warning line of the status report, if it has one.
pub fn warning_line(s: &DaemonStatus) -> (r: Option<String>)
    ensures
        match s.degraded_warning {
            Some(w) => r matches Some(l) && l@ == "warning: "@ + w@,
            None => r is None,
        },
{
    match &s.degraded_warning {
        Some(w) => {
            let mut l = String::from_str("warning: ");
            l.append(w.as_str());
            Some(l)
        },
        None => None,
    }
}

/// Whether an undo left something behind.
pub open spec fn partial_undo(r: UndoResult) -> bool {
    r.conflicts@.len() > 0 || r.failed@.len() > 0
}

/// The exit code of the client after an answer: the code of an error, 3 for
/// an undo that left conflicts or failures, none (success) otherwise.
pub open spec fn exit_code_of(r: Response) -> Option<i32> {
    match r {
        Response::Error { code, message: _ } => Some(code),
        Response::Undo(u) => if partial_undo(u) {
            Some(3)
        } else {
            None
        },
        _ => None,
    }
}

/// The exit code of the client after an answer.
pub fn exit_code(r: &Response) -> (c: Option<i32>)
    ensures
        c == exit_code_of(*r),
{
    match r {
        Response::Error { code, message: _ } => Some(*code),
        Response::Undo(u) => if u.conflicts.len() > 0 || u.failed.len() > 0 {
            Some(3)
        } else {
            None
        },
        _ => None,
    }
}

} // verus!

verus! {

/// The client's exit code: an error answer exits with its own code; an undo
/// exits 3 when anything was left in conflict or failed (so an undo with any
/// failure exits 3, whatever its conflicts), and successfully when neither
/// was; every other answer exits successfully.
pub proof fn exit_code_law(r: Response)
    ensures
        r matches Response::Error { code, message: _ } ==> exit_code_of(r) == Some(code),
        r matches Response::Undo(u) ==> (exit_code_of(r) == Some(3i32) <==> (u.conflicts@.len() > 0
            || u.failed@.len() > 0)),
        r matches Response::Undo(u) ==> (exit_code_of(r) is None <==> (u.conflicts@.len() == 0
            && u.failed@.len() == 0)),
        !(r is Error) && !(r is Undo) ==> exit_code_of(r) is None,
{
}

} // verus!

verus! {

/// The first line after an undo reads `restored N file(s)`, where N, read
/// back as a decimal number, is the number of restored files.
pub proof fn undo_summary_counts_restored(r: UndoResult)
    ensures
        "restored "@.is_prefix_of(undo_summary_text(r)),
        " file(s)"@.is_suffix_of(undo_summary_text(r)),
        crate::number::parse_u64(
            undo_summary_text(r).subrange(9, undo_summary_text(r).len() - 8),
        ) == Some(r.restored@.len() as u64),
{
    reveal_strlit("restored ");
    reveal_strlit(" file(s)");
    let n = r.restored@.len();
    let d = digits(n, 10);
    let t = undo_summary_text(r);
    assert(t == "restored "@ + d + " file(s)"@);
    assert(t.subrange(0, 9) =~= "restored "@);
    assert(t.subrange(t.len() - 8, t.len() as int) =~= " file(s)"@);
    assert(t.subrange(9, t.len() - 8) =~= d);
    assert(n == r.restored.len());
    assert(n <= u64::MAX);
    crate::number::decimal_round_trip(n as u64);
}

} // verus!

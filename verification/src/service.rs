//! The daemon's decisions: what a shell notification captures, how each
//! store outcome is answered, and what the status report says.
use vstd::prelude::*;
use crate::classify::{
    at_risk, classify_parsed, command_words, kind_of_command, kind_of_line, parse_command,
    paths_at_risk, DestructiveKind,
};
use crate::number::{parse_u64, parse_u64_text};
use crate::path::{join, join_path};
use crate::protocol::{DaemonStatus, DiffResult, Response, SnapshotSummary, UndoResult};
use crate::redirect::{redirect_target, truncating_redirect};
use crate::store::RestoreReport;
use crate::text::{opt_text, texts};

verus! {

/// Whether `r` is the error answer with code 1 and this message.
pub open spec fn is_error(r: Response, message: Seq<char>) -> bool {
    r matches Response::Error { code, message: m } && code == 1 && m@ == message
}

/// The error answer with code 1 and this message.
pub fn error(message: String) -> (r: Response)
    ensures
        is_error(r, message@),
{
    Response::Error { code: 1, message }
}

/// The number of snapshots listed at most per request.
pub fn list_limit(limit: u32) -> (r: u32)
    ensures
        r == (if limit < 1000 {
            limit
        } else {
            1000
        }),
{
    if limit < 1000 {
        limit
    } else {
        1000
    }
}

/// The answer to a listing.
pub fn respond_list(outcome: Result<Vec<SnapshotSummary>, String>) -> (r: Response)
    ensures
        match outcome {
            Ok(v) => r == Response::Snapshots(v),
            Err(e) => is_error(r, e@),
        },
{
    match outcome {
        Ok(v) => Response::Snapshots(v),
        Err(e) => error(e),
    }
}

/// The answer to a diff request.
pub fn respond_diff(outcome: Result<Option<DiffResult>, String>) -> (r: Response)
    ensures
        match outcome {
            Ok(Some(d)) => r == Response::Diff(d),
            Ok(None) => is_error(r, "snapshot not found"@),
            Err(e) => is_error(r, e@),
        },
{
    match outcome {
        Ok(Some(d)) => Response::Diff(d),
        Ok(None) => error(String::from_str("snapshot not found")),
        Err(e) => error(e),
    }
}

/// The answer to a garbage collection request.
pub fn respond_gc(outcome: Result<u32, String>) -> (r: Response)
    ensures
        match outcome {
            Ok(_) => r == Response::Ack,
            Err(e) => is_error(r, e@),
        },
{
    match outcome {
        Ok(_) => Response::Ack,
        Err(e) => error(e),
    }
}

/// The answer to a pin request (`Ok(false)` when no snapshot has the id).
pub fn respond_pin(outcome: Result<bool, String>) -> (r: Response)
    ensures
        match outcome {
            Ok(true) => r == Response::Ack,
            Ok(false) => is_error(r, "snapshot not found"@),
            Err(e) => is_error(r, e@),
        },
{
    match outcome {
        Ok(true) => Response::Ack,
        Ok(false) => error(String::from_str("snapshot not found")),
        Err(e) => error(e),
    }
}

/// The answer to an undo request (`Ok(None)` when there is nothing to undo).
pub fn respond_undo(outcome: Result<Option<RestoreReport>, String>) -> (r: Response)
    ensures
        match outcome {
            Ok(Some(rep)) => r == Response::Undo(
                UndoResult { restored: rep.restored, conflicts: rep.conflicts, failed: rep.failed },
            ),
            Ok(None) => is_error(r, "nothing to undo"@),
            Err(e) => is_error(r, e@),
        },
{
    match outcome {
        Ok(Some(rep)) => Response::Undo(UndoResult::from(rep)),
        Ok(None) => error(String::from_str("nothing to undo")),
        Err(e) => error(e),
    }
}

/// The answer to a shell notification once its capture is done (or was not
/// needed).
pub fn respond_capture(outcome: Result<Option<u64>, String>) -> (r: Response)
    ensures
        match outcome {
            Ok(_) => r == Response::Ack,
            Err(e) => is_error(r, e@),
        },
{
    match outcome {
        Ok(_) => Response::Ack,
        Err(e) => error(e),
    }
}

/// What a command line with words `argv`, run in `cwd`, asks to capture
/// before it runs: nothing when it is harmless; otherwise its kind and the
/// paths it puts at risk, followed by the target of a truncating redirect.
pub open spec fn capture_targets(argv: Seq<Seq<char>>, command: Seq<char>, cwd: Seq<char>) -> Option<
    (DestructiveKind, Seq<Seq<char>>),
> {
    match kind_of_line(argv, command) {
        None => None,
        Some(k) => Some(
            (
                k,
                at_risk(argv, cwd) + match redirect_target(command) {
                    Some(t) => seq![join(cwd, t)],
                    None => Seq::empty(),
                },
            ),
        ),
    }
}

/// The texts of a capture plan.
pub open spec fn plan_text(p: Option<(DestructiveKind, Vec<String>)>) -> Option<
    (DestructiveKind, Seq<Seq<char>>),
> {
    match p {
        Some((k, v)) => Some((k, texts(v@))),
        None => None,
    }
}

/// What the command line `command`, already split into `argv`, run in `cwd`,
/// asks to capture.
pub fn capture_plan_for(command: &str, argv: &[String], cwd: &str) -> (r: Option<
    (DestructiveKind, Vec<String>),
>)
    ensures
        plan_text(r) == capture_targets(texts(argv@), command@, cwd@),
{
    let kind = match classify_parsed(argv, command) {
        None => return None,
        Some(k) => k,
    };
    let mut paths = paths_at_risk(argv, cwd);
    let ghost risk = texts(paths@);
    match truncating_redirect(command) {
        Some(t) => {
            paths.push(join_path(cwd, t.as_str()));
            assert(texts(paths@) =~= risk + seq![join(cwd@, t@)]);
        },
        None => {
            assert(texts(paths@) =~= risk + Seq::<Seq<char>>::empty());
        },
    }
    Some((kind, paths))
}

/// What the command line `command`, run in `cwd`, asks to capture.
pub fn capture_plan(command: &str, cwd: &str) -> (r: Option<(DestructiveKind, Vec<String>)>)
    ensures
        plan_text(r) == capture_targets(command_words(command@), command@, cwd@),
{
    let argv = parse_command(command);
    capture_plan_for(command, argv.as_slice(), cwd)
}

/// The file a truncating redirect would empty is captured before the
/// command runs, whatever the command's words are.
pub proof fn redirect_target_captured(argv: Seq<Seq<char>>, command: Seq<char>, cwd: Seq<char>)
    requires
        redirect_target(command) is Some,
    ensures
        capture_targets(argv, command, cwd) is Some,
        capture_targets(argv, command, cwd).unwrap().1.contains(
            join(cwd, redirect_target(command).unwrap()),
        ),
{
    let ps = capture_targets(argv, command, cwd).unwrap().1;
    assert(ps.last() == join(cwd, redirect_target(command).unwrap()));
}

/// A harmless command line (no destructive command, no truncating redirect)
/// captures nothing.
pub proof fn harmless_line_captures_nothing(argv: Seq<Seq<char>>, command: Seq<char>, cwd: Seq<char>)
    requires
        kind_of_line(argv, command) is None,
    ensures
        capture_targets(argv, command, cwd) is None,
{
}

/// The hook timeout in milliseconds: the value of `$OOPS_HOOK_TIMEOUT_MS`
/// when it is a valid unsigned number, otherwise 200.
pub open spec fn hook_timeout_of(var: Option<Seq<char>>) -> u64 {
    match var {
        Some(v) => match parse_u64(v) {
            Some(x) => x,
            None => 200,
        },
        None => 200,
    }
}

/// The hook timeout in milliseconds for the given value of
/// `$OOPS_HOOK_TIMEOUT_MS`.
pub fn hook_timeout_ms(var: Option<String>) -> (r: u64)
    ensures
        r == hook_timeout_of(opt_text(var)),
{
    match var {
        Some(v) => match parse_u64_text(v.as_str()) {
            Some(x) => x,
            None => 200,
        },
        None => 200,
    }
}

/// The file whose existence shows that the user's services linger.
pub fn linger_marker(user: &str) -> (r: String)
    ensures
        r@ == join("/var/lib/systemd/linger"@, user@),
{
    join_path("/var/lib/systemd/linger", user)
}

/// The daemon's status report for the given storage usage, hook timeout and
/// lingering state.
pub fn daemon_status(storage_bytes: i64, snapshot_count: i64, hook_timeout_ms: u64, lingering: bool) -> (r:
    DaemonStatus)
    ensures
        r.ready,
        r.capture_backend@ == "shell-hook"@,
        r.capture_detail@
            == "destructive commands typed directly in an interactive shell with hooks loaded"@,
        r.degraded_warning matches Some(w) && w@
            == "does not catch deletions from scripts, cron, services, GUI applications, or non-interactive shells that do not source the hook."@,
        r.hook_timeout_ms == hook_timeout_ms,
        r.storage_bytes == storage_bytes,
        r.snapshot_count == snapshot_count,
        r.lingering == lingering,
{
    DaemonStatus {
        ready: true,
        capture_backend: String::from_str("shell-hook"),
        capture_detail: String::from_str(
            "destructive commands typed directly in an interactive shell with hooks loaded",
        ),
        degraded_warning: Some(
            String::from_str(
                "does not catch deletions from scripts, cron, services, GUI applications, or non-interactive shells that do not source the hook.",
            ),
        ),
        hook_timeout_ms,
        storage_bytes,
        snapshot_count,
        lingering,
    }
}

} // verus!

verus! {

/// The hook timeout is the number `$OOPS_HOOK_TIMEOUT_MS` holds, written in
/// decimal; it is 200 milliseconds when the variable is unset, empty, or
/// holds anything but decimal digits (after an optional leading `+`).
pub proof fn hook_timeout_law(x: u64, v: Seq<char>)
    ensures
        hook_timeout_of(Some(crate::number::digits(x as nat, 10))) == x,
        hook_timeout_of(None) == 200,
        v.len() == 0 ==> hook_timeout_of(Some(v)) == 200,
        (exists|i: int|
            0 <= i < v.len() && !crate::number::is_digit(#[trigger] v[i]) && !(i == 0 && v[0]
                == '+')) ==> hook_timeout_of(Some(v)) == 200,
{
    crate::number::decimal_round_trip(x);
    if exists|i: int|
        0 <= i < v.len() && !crate::number::is_digit(#[trigger] v[i]) && !(i == 0 && v[0] == '+') {
        let i = choose|i: int|
            0 <= i < v.len() && !crate::number::is_digit(#[trigger] v[i]) && !(i == 0 && v[0]
                == '+');
        let body = crate::number::unsigned_body(v);
        if v.len() > 0 && v[0] == '+' {
            assert(body[i - 1] == v[i]);
        } else {
            assert(body[i] == v[i]);
        }
    }
}

} // verus!

verus! {

/// A command line takes the kind of its command when the command is
/// destructive, whatever redirect it holds; a harmless command with a
/// truncating redirect overwrites; anything else is harmless.
pub proof fn line_kind_law(argv: Seq<Seq<char>>, command: Seq<char>)
    ensures
        kind_of_command(argv) is Some ==> kind_of_line(argv, command) == kind_of_command(argv),
        kind_of_command(argv) is None && redirect_target(command) is Some ==> kind_of_line(
            argv,
            command,
        ) == Some(DestructiveKind::Overwrite),
        kind_of_command(argv) is None && redirect_target(command) is None ==> kind_of_line(
            argv,
            command,
        ) is None,
{
}

/// A destructive command's capture plan has the command's kind and captures,
/// first and in order, every path the command puts at risk.
pub proof fn capture_covers_paths_at_risk(argv: Seq<Seq<char>>, command: Seq<char>, cwd: Seq<char>)
    requires
        kind_of_command(argv) is Some,
    ensures
        capture_targets(argv, command, cwd) == Some(
            (
                kind_of_command(argv).unwrap(),
                capture_targets(argv, command, cwd).unwrap().1,
            ),
        ),
        at_risk(argv, cwd).is_prefix_of(capture_targets(argv, command, cwd).unwrap().1),
        forall|k: int|
            0 <= k < at_risk(argv, cwd).len() ==> capture_targets(argv, command, cwd).unwrap().1.contains(
                #[trigger] at_risk(argv, cwd)[k],
            ),
{
    let ps = capture_targets(argv, command, cwd).unwrap().1;
    let extra = match redirect_target(command) {
        Some(t) => seq![join(cwd, t)],
        None => Seq::<Seq<char>>::empty(),
    };
    assert(ps == at_risk(argv, cwd) + extra);
    assert(ps.subrange(0, at_risk(argv, cwd).len() as int) =~= at_risk(argv, cwd));
    assert forall|k: int| 0 <= k < at_risk(argv, cwd).len() implies ps.contains(
        #[trigger] at_risk(argv, cwd)[k],
    ) by {
        assert(ps[k] == at_risk(argv, cwd)[k]);
    }
}

} // verus!

use oops::classify::DestructiveKind;
use oops::render::{
    conflict_line, error_line, exit_code, failed_line, status_text, undo_summary, warning_line,
};
use oops::service::{
    capture_plan, daemon_status, error, linger_marker, list_limit, respond_capture, respond_diff,
    respond_gc, respond_list, respond_pin, respond_undo,
};
use oops::{RestoreReport, Response, UndoResult};

fn is_error(r: &Response, msg: &str) -> bool {
    matches!(r, Response::Error { code: 1, message } if message == msg)
}

#[test]
fn answers() {
    assert!(is_error(&error("boom".into()), "boom"));
    assert_eq!(list_limit(5), 5);
    assert_eq!(list_limit(5000), 1000);
    assert!(matches!(respond_list(Ok(vec![])), Response::Snapshots(v) if v.is_empty()));
    assert!(is_error(&respond_list(Err("db".into())), "db"));
    assert!(is_error(&respond_diff(Ok(None)), "snapshot not found"));
    assert!(matches!(respond_gc(Ok(3)), Response::Ack));
    assert!(is_error(&respond_gc(Err("io".into())), "io"));
    assert!(matches!(respond_pin(Ok(true)), Response::Ack));
    assert!(is_error(&respond_pin(Ok(false)), "snapshot not found"));
    assert!(is_error(&respond_undo(Ok(None)), "nothing to undo"));
    assert!(matches!(respond_undo(Ok(Some(RestoreReport::new()))), Response::Undo(u) if u.restored.is_empty()));
    assert!(is_error(&respond_undo(Err("snapshot is not restorable".into())), "snapshot is not restorable"));
    assert!(matches!(respond_capture(Ok(None)), Response::Ack));
    assert!(is_error(&respond_capture(Err("disk".into())), "disk"));
}

#[test]
fn capture_plans() {
    let p = capture_plan("echo x > f", "/w").unwrap();
    assert_eq!(p.0, DestructiveKind::Overwrite);
    assert_eq!(p.1, vec!["/w/f".to_string()]);
    let p = capture_plan("rm a > /tmp/b", "/w").unwrap();
    assert_eq!(p.0, DestructiveKind::Delete);
    // the shell words include the redirect operator and its target
    assert_eq!(p.1, vec!["/w/a", "/w/>", "/tmp/b", "/tmp/b"]);
    assert!(capture_plan("ls -l", "/w").is_none());
    assert!(capture_plan("ls >&2", "/w").is_none());
}

#[test]
fn status_report() {
    let s = daemon_status(2048, 3, 200, false);
    assert!(s.ready);
    assert_eq!(s.capture_backend, "shell-hook");
    assert_eq!(
        status_text(&s),
        "daemon: ready\ncapture: shell-hook (destructive commands typed directly in an interactive shell with hooks loaded)\nhook timeout: 200 ms\nstorage: 3 snapshots, 2048 bytes\nlingering: false"
    );
    assert!(warning_line(&s).unwrap().starts_with("warning: does not catch deletions"));
    assert_eq!(linger_marker("ann"), "/var/lib/systemd/linger/ann");
}

#[test]
fn client_lines() {
    let u = UndoResult {
        restored: vec!["/a".into(), "/b".into()],
        conflicts: vec![("/c".into(), "inside .git".into())],
        failed: vec![],
    };
    assert_eq!(undo_summary(&u), "restored 2 file(s)");
    assert_eq!(conflict_line("/c", "inside .git"), "conflict: /c: inside .git");
    assert_eq!(failed_line("/d", "no recoverable blob"), "failed: /d: no recoverable blob");
    assert_eq!(error_line("x"), "error: x");
    assert_eq!(exit_code(&Response::Undo(u)), Some(3));
    let clean = UndoResult { restored: vec![], conflicts: vec![], failed: vec![] };
    assert_eq!(exit_code(&Response::Undo(clean)), None);
    assert_eq!(exit_code(&Response::Error { code: 1, message: "m".into() }), Some(1));
    assert_eq!(exit_code(&Response::Ack), None);
}

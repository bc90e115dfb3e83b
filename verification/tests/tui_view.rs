use oops::classify::DestructiveKind;
use oops::tui::{
    bytes_fmt, command_width, diff_body, diff_line, diff_title, list_step, summary_row, truncated,
    ListKey, ListStep,
};
use oops::{DiffFile, SnapshotSummary};

fn summary(command: &str) -> SnapshotSummary {
    SnapshotSummary {
        id: 17,
        command: command.to_string(),
        cwd: "/w".to_string(),
        kind: DestructiveKind::Delete,
        created_at_ns: 1,
        method: "copy".to_string(),
        restorable: false,
        pinned: false,
        total_bytes: 4096,
        file_count: 2,
    }
}

#[test]
fn truncation() {
    assert_eq!(truncated("hello", 10), "hello");
    assert_eq!(truncated("hello", 5), "hello");
    assert_eq!(truncated("hello world", 5), "hell\u{2026}");
    assert_eq!(truncated("abc", 0), "\u{2026}");
}

#[test]
fn sizes() {
    assert_eq!(bytes_fmt(512), "512B");
    assert_eq!(bytes_fmt(-5), "-5B");
    assert_eq!(bytes_fmt(2048), "2K");
    assert_eq!(bytes_fmt(3 * 1048576 + 5), "3M");
    assert_eq!(command_width(100), 52);
    assert_eq!(command_width(50), 10);
}

#[test]
fn rows_and_diff() {
    let s = summary("rm -rf build");
    assert_eq!(summary_row(&s, 40), vec!["17", "rm -rf build", "2", "4K", "copy", "partial"]);
    assert_eq!(diff_title(&s), " snapshot #17 \u{b7} rm -rf build \u{b7} q quit ");
    let a = DiffFile {
        original_path: "/w/a".into(),
        new_path: None,
        op: "delete".into(),
        mode: 0o100644,
        size_bytes: 12,
        recoverable: true,
        entry_type: "file".into(),
    };
    let mut b = a.clone();
    b.original_path = "/w/b".into();
    b.recoverable = false;
    assert_eq!(diff_line(&a), "- /w/a (delete, 12 bytes, 100644)");
    assert_eq!(diff_body(&vec![a, b]), "- /w/a (delete, 12 bytes, 100644)\n! /w/b (delete, 12 bytes, 100644)");
    assert_eq!(diff_body(&vec![]), "");
}

#[test]
fn navigation() {
    assert_eq!(list_step(ListKey::Up, Some(0), 3), ListStep::Select(0));
    assert_eq!(list_step(ListKey::Up, Some(2), 3), ListStep::Select(1));
    assert_eq!(list_step(ListKey::Down, Some(2), 3), ListStep::Select(2));
    assert_eq!(list_step(ListKey::Down, None, 3), ListStep::Select(1));
    assert_eq!(list_step(ListKey::Down, Some(0), 0), ListStep::Select(0));
    assert_eq!(list_step(ListKey::Quit, Some(1), 3), ListStep::Quit);
    assert_eq!(list_step(ListKey::Other, Some(1), 3), ListStep::Stay);
}

#[test]
fn selection_stays_within_rows_over_key_sequences() {
    for len in [0usize, 1, 2, 5] {
        let mut sel: usize = 0;
        for key in [ListKey::Down, ListKey::Down, ListKey::Down, ListKey::Down, ListKey::Down, ListKey::Down, ListKey::Up, ListKey::Other, ListKey::Down, ListKey::Up, ListKey::Up, ListKey::Up, ListKey::Up, ListKey::Up, ListKey::Up, ListKey::Up] {
            if let ListStep::Select(n) = list_step(key, Some(sel), len) {
                sel = n;
            }
            assert!(sel <= len.saturating_sub(1));
        }
        assert_eq!(sel, 0);
    }
}

#[test]
fn diff_body_has_one_line_per_file() {
    let f = |path: &str, recoverable: bool| DiffFile {
        original_path: path.into(),
        new_path: None,
        op: "overwrite".into(),
        mode: 0o644,
        size_bytes: -3,
        recoverable,
        entry_type: "file".into(),
    };
    let files = vec![f("/a", true), f("/b c", false), f("/d", true)];
    let body = diff_body(&files);
    let lines: Vec<&str> = body.split('\n').collect();
    assert_eq!(lines.len(), 3);
    assert_eq!(lines[1], "! /b c (overwrite, -3 bytes, 644)");
    for (i, file) in files.iter().enumerate() {
        assert_eq!(lines[i], diff_line(file));
    }
}

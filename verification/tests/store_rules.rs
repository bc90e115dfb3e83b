use oops::undo::{undo_target, UndoCandidate};
use oops::gc::{gc_victims, GcEntry};
use oops::store::{
    blob_file, blob_name_of, is_recoverable, mtime_ns, needs_blob, restore_action,
    snapshot_blob_dir, CaptureTally, EntryKind, RestoreAction,
};
use oops::{RestoreReport, SnapshotFile, UndoResult};

fn file(path: &str, blob: Option<&str>, mtime: i64) -> SnapshotFile {
    SnapshotFile::of_entry(path.to_string(), EntryKind::File, 0o644, 10, 0, mtime)
        .map(|mut f| {
            f.blob_path = blob.map(|b| b.to_string());
            f
        })
        .unwrap()
}

#[test]
fn entries_recorded() {
    assert!(SnapshotFile::of_entry("/a".into(), EntryKind::Symlink, 0, 0, 0, 0).is_none());
    assert!(SnapshotFile::of_entry("/a".into(), EntryKind::Other, 0, 0, 0, 0).is_none());
    let d = SnapshotFile::of_entry("/a".into(), EntryKind::Dir, 0o755, 4096, 5, 6).unwrap();
    assert_eq!(d.entry_type, "dir");
    assert_eq!(d.mtime_ns, 0);
    assert_eq!(d.op, "delete");
    let f = SnapshotFile::of_entry("/a/f".into(), EntryKind::File, 0o644, 12, 3, 7).unwrap();
    assert_eq!(f.entry_type, "file");
    assert_eq!(f.mtime_ns, 3_000_000_007);
    assert_eq!(f.size_bytes, 12);
    assert_eq!(mtime_ns(1_700_000_000, 5), 1_700_000_000_000_000_005);
}

#[test]
fn recoverability() {
    assert!(is_recoverable(&Some("0.blob".to_string()), "file"));
    assert!(is_recoverable(&None, "dir"));
    assert!(!is_recoverable(&None, "file"));
}

#[test]
fn blob_locations() {
    assert_eq!(snapshot_blob_dir("/d", 42), "/d/blobs/42");
    assert_eq!(blob_file("/d", 7, "3.blob"), "/d/blobs/7/3.blob");
}

#[test]
fn capture_tally() {
    let mut t = CaptureTally::new();
    assert_eq!(t.blob_name(), "0.blob");
    t.record(Some((100, true)));
    assert_eq!(t.blob_name(), "1.blob");
    assert_eq!(t.method(), "reflink");
    t.record(Some((50, false)));
    t.record(None);
    assert_eq!(t.blob_name(), "3.blob");
    assert_eq!(t.bytes, 150);
    assert!(!t.fully);
    assert_eq!(t.method(), "copy");
}

#[test]
fn restore_decisions() {
    let g = file("/r/.git/config", Some("0.blob"), 5);
    assert!(matches!(restore_action(&g, true, None), RestoreAction::Conflict(m) if m == "inside .git"));
    let d = SnapshotFile::of_entry("/r/d".into(), EntryKind::Dir, 0o755, 0, 0, 0).unwrap();
    assert!(matches!(restore_action(&d, false, Some(1)), RestoreAction::CreateDir));
    let f = file("/r/f", Some("1.blob"), 5);
    assert!(matches!(restore_action(&f, false, Some(6)), RestoreAction::Conflict(m) if m == "modified since snapshot"));
    assert!(matches!(restore_action(&f, true, Some(6)), RestoreAction::CopyBlob(b) if b == "1.blob"));
    assert!(matches!(restore_action(&f, false, Some(5)), RestoreAction::CopyBlob(_)));
    assert!(matches!(restore_action(&f, false, None), RestoreAction::CopyBlob(_)));
    let n = file("/r/n", None, 5);
    assert!(matches!(restore_action(&n, true, None), RestoreAction::Fail(m) if m == "no recoverable blob"));
}

#[test]
fn report_converts() {
    let mut rep = RestoreReport::new();
    rep.restored.push("/a".into());
    rep.conflicts.push(("/b".into(), "inside .git".into()));
    let u: UndoResult = rep.into();
    assert_eq!(u.restored, vec!["/a".to_string()]);
    assert_eq!(u.conflicts, vec![("/b".to_string(), "inside .git".to_string())]);
    assert!(u.failed.is_empty());
}

fn entry(id: u64, created: i64, bytes: i64, pinned: bool) -> GcEntry {
    GcEntry { id, created_at_ns: created, total_bytes: bytes, pinned }
}

#[test]
fn gc_by_age_and_size() {
    let rows = vec![entry(1, 100, 10, false), entry(2, 50, 10, true), entry(3, 300, 10, false), entry(4, 200, 10, false)];
    // cutoff 250: snapshots 1 and 4 are too old, the pinned one stays
    assert_eq!(gc_victims(rows.clone(), 40, 1000, 750, 1_000_000), vec![1, 4]);
    // over the size limit: oldest unpinned first until under it
    assert_eq!(gc_victims(rows.clone(), 40, 1000, 10_000, 15), vec![1, 4, 3]);
    assert_eq!(gc_victims(rows.clone(), 40, 1000, 10_000, 25), vec![1, 4]);
    assert_eq!(gc_victims(rows, 40, 1000, 10_000, 100), Vec::<u64>::new());
    assert_eq!(gc_victims(vec![entry(9, 0, 5, true)], 5, 1000, 1, 0), Vec::<u64>::new());
}

#[test]
fn clock_reads() {
    assert!(oops::now_ns() > 1_600_000_000_000_000_000);
}

#[test]
fn undo_targets() {
    let c = |id, created_at_ns, restorable| UndoCandidate { id, created_at_ns, restorable };
    let rows = vec![c(3, 300, false), c(2, 200, true), c(1, 100, true)];
    assert_eq!(undo_target(None, &rows), Ok(Some((2, true))));
    assert_eq!(undo_target(Some(2), &rows), Ok(Some((2, true))));
    assert_eq!(undo_target(Some(1), &rows), Ok(Some((1, false))));
    assert_eq!(undo_target(Some(3), &rows), Err("snapshot is not restorable".to_string()));
    assert_eq!(undo_target(Some(9), &rows), Err("snapshot is not restorable".to_string()));
    assert_eq!(undo_target(None, &vec![c(3, 300, false)]), Ok(None));
}

#[test]
fn clock_stamps() {
    assert_eq!(oops::store::clock_nanos(None), 0);
    assert_eq!(oops::store::clock_nanos(Some(1_700_000_000_000_000_000)), 1_700_000_000_000_000_000);
    assert_eq!(oops::store::clock_nanos(Some(1u128 << 64)), 0);
    assert_eq!(oops::store::clock_nanos(Some((1u128 << 63) + 5)), i64::MIN + 5);
}

#[test]
fn capture_run_totals() {
    let t = CaptureTally::of_run(&vec![Some((100, true)), None, Some((50, false))]);
    assert!(!t.fully);
    assert!(!t.all_reflink);
    assert_eq!(t.bytes, 150);
    assert_eq!(t.next_blob, 3);
    assert_eq!(t.method(), "copy");
    let all = CaptureTally::of_run(&vec![Some((7, true)), Some((8, true))]);
    assert!(all.fully);
    assert_eq!(all.bytes, 15);
    assert_eq!(all.method(), "reflink");
    let none = CaptureTally::of_run(&Vec::new());
    assert!(none.fully);
    assert_eq!(none.bytes, 0);
    assert_eq!(none.next_blob, 0);
}

#[test]
fn only_files_get_blobs() {
    assert!(needs_blob("file"));
    assert!(!needs_blob("dir"));
    assert!(!needs_blob("symlink"));
    assert!(!needs_blob("other"));
    assert_eq!(blob_name_of(0), "0.blob");
    assert_eq!(blob_name_of(12), "12.blob");
}

#[test]
fn gc_evicts_oldest_first_and_stops_within_limits() {
    // the sizes add up to the total handed in: 40
    let rows = vec![entry(5, 400, 10, false), entry(6, 100, 10, false), entry(7, 50, 10, true), entry(8, 300, 10, false)];
    // no snapshot past retention; over 15 bytes, oldest unpinned go first
    let v = gc_victims(rows.clone(), 40, 1000, 10_000, 15);
    assert_eq!(v, vec![6, 8, 5]);
    // once 20 bytes remain the store fits 25 bytes and eviction stops
    assert_eq!(gc_victims(rows.clone(), 40, 1000, 10_000, 25), vec![6, 8]);
    // the pinned snapshot is never evicted, even when only it is over the limit
    assert_eq!(gc_victims(rows, 40, 1000, 10_000, 0), vec![6, 8, 5]);
}

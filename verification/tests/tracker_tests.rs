use std::collections::BTreeMap;

use egadsync::error::FileTrackerError;
use egadsync::file_tracker::{FileChange, FileEntry, FileMetadata, FileTracker, Snapshot};

fn meta(secs: u64, size: u64, is_dir: bool) -> FileMetadata {
    FileMetadata { last_modified_secs: secs, last_modified_nanos: 0, size, is_dir }
}

fn entry(path: &str, m: FileMetadata) -> FileEntry {
    FileEntry { path: path.to_string(), metadata: m }
}

fn snapshot(entries: Vec<FileEntry>) -> Snapshot {
    Snapshot::from_scan(true, entries).unwrap()
}

#[test]
fn from_scan_rejects_non_directory_root() {
    let r = Snapshot::from_scan(false, vec![entry("/root", meta(1, 0, true))]);
    assert_eq!(r, Err(FileTrackerError::NotADirectory));
}

#[test]
fn from_scan_replaces_duplicate_paths() {
    let snap = snapshot(vec![entry("/r/a", meta(1, 10, false)), entry("/r/a", meta(2, 20, false))]);
    assert_eq!(snap.len(), 1);
    assert_eq!(snap.lookup(&"/r/a".to_string()), Some(&meta(2, 20, false)));
}

#[test]
fn snapshot_lookup_and_contains() {
    let mut snap = Snapshot::new();
    assert_eq!(snap.len(), 0);
    snap.insert("/r".to_string(), meta(1, 0, true));
    snap.insert("/r/a.txt".to_string(), meta(5, 10, false));
    assert!(snap.contains(&"/r/a.txt".to_string()));
    assert!(!snap.contains(&"/r/b.txt".to_string()));
    assert_eq!(snap.lookup(&"/r".to_string()), Some(&meta(1, 0, true)));
    snap.insert("/r/a.txt".to_string(), meta(6, 11, false));
    assert_eq!(snap.len(), 2);
    assert_eq!(snap.lookup(&"/r/a.txt".to_string()), Some(&meta(6, 11, false)));
}

#[test]
fn diff_classifies_created_modified_deleted() {
    let old_snap = snapshot(vec![
        entry("/r", meta(1, 0, true)),
        entry("/r/same.txt", meta(10, 5, false)),
        entry("/r/grown.txt", meta(10, 5, false)),
        entry("/r/touched.txt", meta(10, 5, false)),
        entry("/r/gone.txt", meta(10, 5, false)),
    ]);
    let new_snap = snapshot(vec![
        entry("/r", meta(1, 0, true)),
        entry("/r/same.txt", meta(10, 5, false)),
        entry("/r/grown.txt", meta(10, 9, false)),
        entry("/r/touched.txt", meta(11, 5, false)),
        entry("/r/fresh.txt", meta(12, 3, false)),
    ]);
    let mut tracker = FileTracker::new("/r".to_string(), old_snap);
    let changes = tracker.diff(new_snap.clone());
    assert_eq!(changes.len(), 4);
    assert!(changes.contains(&FileChange::Modified("/r/grown.txt".to_string(), meta(10, 9, false))));
    assert!(changes.contains(&FileChange::Modified("/r/touched.txt".to_string(), meta(11, 5, false))));
    assert!(changes.contains(&FileChange::Created("/r/fresh.txt".to_string(), meta(12, 3, false))));
    assert!(changes.contains(&FileChange::Deleted("/r/gone.txt".to_string())));
    assert_eq!(tracker.files_state, new_snap);
}

#[test]
fn changes_applied_to_old_snapshot_reconstruct_the_new_one() {
    let old_entries = vec![
        entry("/r", meta(1, 0, true)),
        entry("/r/same.txt", meta(10, 5, false)),
        entry("/r/grown.txt", meta(10, 5, false)),
        entry("/r/gone.txt", meta(10, 5, false)),
    ];
    let new_entries = vec![
        entry("/r", meta(1, 0, true)),
        entry("/r/same.txt", meta(10, 5, false)),
        entry("/r/grown.txt", meta(10, 9, false)),
        entry("/r/fresh.txt", meta(12, 3, false)),
    ];
    let mut reconstructed: BTreeMap<String, FileMetadata> =
        old_entries.iter().map(|e| (e.path.clone(), e.metadata)).collect();
    let expected: BTreeMap<String, FileMetadata> =
        new_entries.iter().map(|e| (e.path.clone(), e.metadata)).collect();
    let mut tracker = FileTracker::new("/r".to_string(), snapshot(old_entries));
    for change in tracker.diff(snapshot(new_entries)) {
        match change {
            FileChange::Created(p, m) | FileChange::Modified(p, m) => {
                reconstructed.insert(p, m);
            }
            FileChange::Deleted(p) => {
                reconstructed.remove(&p);
            }
        }
    }
    assert_eq!(reconstructed, expected);
}

#[test]
fn diff_is_empty_for_equal_snapshots_twice() {
    let snap = snapshot(vec![entry("/r", meta(1, 0, true)), entry("/r/a.txt", meta(5, 10, false))]);
    let mut tracker = FileTracker::new("/r".to_string(), snap.clone());
    assert_eq!(tracker.diff(snap.clone()), vec![]);
    assert_eq!(tracker.diff(snap), vec![]);
}

#[test]
fn diff_ignores_directory_flag_for_comparison() {
    let old_snap = snapshot(vec![entry("/r/x", meta(3, 7, false))]);
    let new_snap = snapshot(vec![entry("/r/x", meta(3, 7, true))]);
    let mut tracker = FileTracker::new("/r".to_string(), old_snap);
    assert_eq!(tracker.diff(new_snap), vec![]);
}

#[test]
fn diff_detects_nanosecond_change() {
    let old_snap = snapshot(vec![entry("/r/x", meta(3, 7, false))]);
    let m = FileMetadata { last_modified_secs: 3, last_modified_nanos: 1, size: 7, is_dir: false };
    let new_snap = snapshot(vec![FileEntry { path: "/r/x".to_string(), metadata: m }]);
    let mut tracker = FileTracker::new("/r".to_string(), old_snap);
    assert_eq!(tracker.diff(new_snap), vec![FileChange::Modified("/r/x".to_string(), m)]);
}

#[test]
fn scenario_empty_directory_then_new_file() {
    // Convention: the scan includes the root entry itself, so an empty
    // directory's snapshot has exactly one entry.
    let empty = snapshot(vec![entry("/r", meta(1, 0, true))]);
    assert_eq!(empty.len(), 1);
    let mut tracker = FileTracker::new("/r".to_string(), empty);
    let with_file = snapshot(vec![
        entry("/r", meta(1, 0, true)),
        entry("/r/a.txt", meta(100, 10, false)),
    ]);
    let changes = tracker.diff(with_file);
    assert_eq!(changes, vec![FileChange::Created("/r/a.txt".to_string(), meta(100, 10, false))]);
}

#[test]
fn scenario_modified_file() {
    let before = snapshot(vec![
        entry("/r", meta(1, 0, true)),
        entry("/r/a.txt", meta(100, 10, false)),
    ]);
    let mut tracker = FileTracker::new("/r".to_string(), before);
    let after = snapshot(vec![
        entry("/r", meta(1, 0, true)),
        entry("/r/a.txt", meta(101, 20, false)),
    ]);
    let changes = tracker.diff(after);
    assert_eq!(changes, vec![FileChange::Modified("/r/a.txt".to_string(), meta(101, 20, false))]);
}

#[test]
fn scenario_deleted_file_then_quiet() {
    let before = snapshot(vec![
        entry("/r", meta(1, 0, true)),
        entry("/r/a.txt", meta(101, 20, false)),
    ]);
    let mut tracker = FileTracker::new("/r".to_string(), before);
    let after = snapshot(vec![entry("/r", meta(1, 0, true))]);
    let changes = tracker.diff(after.clone());
    assert_eq!(changes, vec![FileChange::Deleted("/r/a.txt".to_string())]);
    assert_eq!(tracker.diff(after), vec![]);
}

#[test]
fn filter_drops_directory_records_only_and_keeps_order() {
    let dir_meta = meta(1, 0, true);
    let file_meta = meta(2, 9, false);
    let all = vec![
        FileChange::Created("/r/d".to_string(), dir_meta),
        FileChange::Created("/r/d/f1".to_string(), file_meta),
        FileChange::Modified("/r/e".to_string(), dir_meta),
        FileChange::Deleted("/r/old_dir".to_string()),
        FileChange::Modified("/r/f2".to_string(), file_meta),
        FileChange::Deleted("/r/f3".to_string()),
    ];
    let kept = FileTracker::get_only_file_changes(all);
    assert_eq!(
        kept,
        vec![
            FileChange::Created("/r/d/f1".to_string(), file_meta),
            FileChange::Deleted("/r/old_dir".to_string()),
            FileChange::Modified("/r/f2".to_string(), file_meta),
            FileChange::Deleted("/r/f3".to_string()),
        ]
    );
}

#[test]
fn filter_of_empty_set_is_empty() {
    assert_eq!(FileTracker::get_only_file_changes(vec![]), vec![]);
}

#[test]
fn describe_forms_kind_colon_path() {
    let m = meta(1, 2, false);
    assert_eq!(FileChange::Created("/r/a".to_string(), m).describe(), "Created: /r/a");
    assert_eq!(FileChange::Modified("/r/b".to_string(), m).describe(), "Modified: /r/b");
    assert_eq!(FileChange::Deleted("/r/c".to_string()).describe(), "Deleted: /r/c");
}

#[test]
fn metadata_unchanged_compares_time_and_size_only() {
    let a = FileMetadata { last_modified_secs: 1, last_modified_nanos: 2, size: 3, is_dir: false };
    let b = FileMetadata { last_modified_secs: 1, last_modified_nanos: 2, size: 3, is_dir: true };
    let c = FileMetadata { last_modified_secs: 1, last_modified_nanos: 9, size: 3, is_dir: false };
    assert!(a.unchanged(&b));
    assert!(!a.unchanged(&c));
}

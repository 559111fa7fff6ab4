use egadsync::error::FileTrackerError;
use egadsync::file_tracker::{FileEntry, FileMetadata, FileTracker, Snapshot};

fn meta(secs: u64, nanos: u32, size: u64, is_dir: bool) -> FileMetadata {
    FileMetadata { last_modified_secs: secs, last_modified_nanos: nanos, size, is_dir }
}

fn entry(path: &str, m: FileMetadata) -> FileEntry {
    FileEntry { path: path.to_string(), metadata: m }
}

fn tracker(root: &str, entries: Vec<FileEntry>) -> FileTracker {
    FileTracker::new(root.to_string(), Snapshot::from_scan(true, entries).unwrap())
}

fn is_serialization_error(e: &FileTrackerError) -> bool {
    matches!(e, FileTrackerError::SerializationError(_))
}

#[test]
fn round_trip_of_populated_tracker() {
    let t = tracker(
        "/home/user/watched",
        vec![
            entry("/home/user/watched", meta(1700000000, 123456789, 4096, true)),
            entry("/home/user/watched/a.txt", meta(1700000001, 0, 10, false)),
            entry("/home/user/watched/sub", meta(1700000002, 999999999, 4096, true)),
            entry("/home/user/watched/sub/b.bin", meta(0, 0, u64::MAX, false)),
        ],
    );
    let bytes = t.save();
    let loaded = FileTracker::get(Some(&bytes)).unwrap();
    assert_eq!(loaded, t);
}

#[test]
fn round_trip_of_empty_tracker() {
    let t = FileTracker::new("/r".to_string(), Snapshot::new());
    let loaded = FileTracker::get(Some(&t.save())).unwrap();
    assert_eq!(loaded, t);
}

#[test]
fn round_trip_keeps_non_ascii_paths() {
    // Multi-byte UTF-8 in paths must survive the byte-level encoding.
    let t = tracker(
        "/r/pasta-de-notas",
        vec![
            entry("/r/pasta-de-notas/ação.txt", meta(7, 8, 9, false)),
            entry("/r/pasta-de-notas/日記.md", meta(10, 11, 12, false)),
        ],
    );
    let loaded = FileTracker::get(Some(&t.save())).unwrap();
    assert_eq!(loaded, t);
}

#[test]
fn round_trip_keeps_empty_root() {
    let t = tracker("", vec![entry("", meta(1, 2, 3, true))]);
    let loaded = FileTracker::get(Some(&t.save())).unwrap();
    assert_eq!(loaded, t);
}

#[test]
fn load_without_state_file_is_not_found() {
    assert_eq!(FileTracker::get(None), Err(FileTrackerError::NotFound));
}

#[test]
fn monitoring_status_follows_persisted_state() {
    assert!(!FileTracker::is_monitoring_active(None));
    assert!(!FileTracker::is_monitoring_active(Some(b"garbage")));
    let bytes = tracker("/r", vec![entry("/r", meta(1, 0, 0, true))]).save();
    assert!(FileTracker::is_monitoring_active(Some(&bytes)));
}

#[test]
fn decode_rejects_empty_input() {
    let r = FileTracker::get(Some(b""));
    assert!(is_serialization_error(&r.unwrap_err()));
}

#[test]
fn decode_rejects_truncated_input() {
    let bytes = tracker("/r", vec![entry("/r/a", meta(1, 2, 3, false))]).save();
    for cut in [1, 8, 9, bytes.len() - 1] {
        let r = FileTracker::get(Some(&bytes[..cut]));
        assert!(is_serialization_error(&r.unwrap_err()), "cut at {cut}");
    }
}

#[test]
fn decode_rejects_trailing_bytes() {
    let mut bytes = tracker("/r", vec![entry("/r/a", meta(1, 2, 3, false))]).save();
    bytes.push(0);
    let r = FileTracker::get(Some(&bytes));
    assert!(is_serialization_error(&r.unwrap_err()));
}

#[test]
fn decode_rejects_invalid_directory_flag() {
    let mut bytes = tracker("/r", vec![entry("/r/a", meta(1, 2, 3, false))]).save();
    let last = bytes.len() - 1;
    bytes[last] = 2;
    let r = FileTracker::get(Some(&bytes));
    assert!(is_serialization_error(&r.unwrap_err()));
}

#[test]
fn decode_rejects_invalid_utf8_in_path() {
    // The path "ação.txt" holds multi-byte characters; corrupting one of
    // their bytes must be detected, not passed through.
    let t = tracker("/r", vec![entry("/r/ação.txt", meta(1, 2, 3, false))]);
    let mut bytes = t.save();
    let pos = bytes.windows(2).position(|w| w[0] == 0xc3).unwrap();
    bytes[pos + 1] = 0xff;
    let r = FileTracker::get(Some(&bytes));
    assert!(is_serialization_error(&r.unwrap_err()));
}

#[test]
fn decode_rejects_duplicate_paths() {
    // Two entries for one path cannot come from a well-formed tracker.
    let good = tracker("/r", vec![entry("/r/a", meta(1, 2, 3, false))]).save();
    // Entry section starts after the root prefix (8 + 2 bytes) and the
    // count (8 bytes); duplicate it and patch the count to 2.
    let entry_bytes = good[18..].to_vec();
    let mut bytes = good[..10].to_vec();
    bytes.extend_from_slice(&2u64.to_le_bytes());
    bytes.extend_from_slice(&entry_bytes);
    bytes.extend_from_slice(&entry_bytes);
    let r = FileTracker::get(Some(&bytes));
    assert!(is_serialization_error(&r.unwrap_err()));
}

#[test]
fn decode_accepts_hand_written_encoding() {
    // The layout is fixed: root "/r", one entry "/r/a" with
    // secs=5, nanos=6, size=7, file flag 0.
    let mut bytes: Vec<u8> = Vec::new();
    bytes.extend_from_slice(&2u64.to_le_bytes());
    bytes.extend_from_slice(b"/r");
    bytes.extend_from_slice(&1u64.to_le_bytes());
    bytes.extend_from_slice(&4u64.to_le_bytes());
    bytes.extend_from_slice(b"/r/a");
    bytes.extend_from_slice(&5u64.to_le_bytes());
    bytes.extend_from_slice(&6u32.to_le_bytes());
    bytes.extend_from_slice(&7u64.to_le_bytes());
    bytes.push(0);
    let t = FileTracker::get(Some(&bytes)).unwrap();
    assert_eq!(t, tracker("/r", vec![entry("/r/a", meta(5, 6, 7, false))]));
}

#[test]
fn error_accessors_name_each_kind() {
    let e = FileTrackerError::NotADirectory;
    assert_eq!(e.kind_name(), "NotADirectory");
    assert_eq!(e.message(), "The specified path is not a directory");
    let e = FileTrackerError::NotFound;
    assert_eq!(e.kind_name(), "NotFound");
    assert_eq!(e.details(), "No persisted state was found");
    let e = FileTrackerError::IoError("disk full".to_string());
    assert_eq!(e.kind_name(), "IoError");
    assert_eq!(e.details(), "disk full");
    assert_eq!(e.message(), "I/O error: disk full");
    let e = FileTrackerError::ScanError("permission denied".to_string());
    assert_eq!(e.message(), "File scanning error: permission denied");
    let e = FileTrackerError::JoinError("task dropped".to_string());
    assert_eq!(e.message(), "Background task error: task dropped");
    let e = FileTrackerError::SerializationError("invalid state data".to_string());
    assert_eq!(e.kind_name(), "SerializationError");
    assert_eq!(e.message(), "Serialization error: invalid state data");
}

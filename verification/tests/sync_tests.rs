use egadsync::config::{Config, DEFAULT_SYNC_INTERVAL_SECS};
use egadsync::error::FileTrackerError;
use egadsync::file_tracker::{FileChange, FileEntry, FileMetadata, FileTracker, Snapshot};
use egadsync::sync::{
    create_payload, ResumeOutcome, StartOutcome, SyncSession, SyncState, TickOutcome,
};

fn meta(secs: u64, size: u64, is_dir: bool) -> FileMetadata {
    FileMetadata { last_modified_secs: secs, last_modified_nanos: 0, size, is_dir }
}

fn entry(path: &str, m: FileMetadata) -> FileEntry {
    FileEntry { path: path.to_string(), metadata: m }
}

fn snapshot(entries: Vec<FileEntry>) -> Snapshot {
    Snapshot::from_scan(true, entries).unwrap()
}

#[test]
fn config_paths() {
    let c = Config::new("/home/user/.local/share/egadsync");
    assert_eq!(c.sync_interval_secs, DEFAULT_SYNC_INTERVAL_SECS);
    assert_eq!(c.state_file_path, "/home/user/.local/share/egadsync/state.json");
    let d = Config::default();
    assert_eq!(d.sync_interval_secs, 60);
    assert_eq!(d.state_file_path, "./state.json");
}

#[test]
fn start_success_runs_and_persists_initial_state() {
    let mut session = SyncSession::new();
    assert_eq!(session.state, SyncState::Idle);
    let snap = snapshot(vec![entry("/r", meta(1, 0, true))]);
    let outcome = session.start("/r".to_string(), Ok(snap.clone()));
    assert_eq!(session.state, SyncState::Running);
    match outcome {
        StartOutcome::Started { saved_state } => {
            let persisted = FileTracker::get(Some(&saved_state)).unwrap();
            assert_eq!(persisted.root_target, "/r");
            assert_eq!(persisted.files_state, snap);
        }
        StartOutcome::Failed { message } => panic!("unexpected failure: {message}"),
    }
}

#[test]
fn start_failure_stays_idle_and_reports() {
    // A start request on a path that is a regular file: the scan fails with
    // NotADirectory, the session never runs and no state is produced.
    let mut session = SyncSession::new();
    let outcome = session.start("/r/file.txt".to_string(), Err(FileTrackerError::NotADirectory));
    assert_eq!(session.state, SyncState::Idle);
    match outcome {
        StartOutcome::Failed { message } => {
            assert_eq!(message, "The specified path is not a directory");
        }
        StartOutcome::Started { .. } => panic!("session must not start"),
    }
}

#[test]
fn resume_success_picks_up_persisted_tracker() {
    let tracker =
        FileTracker::new("/r".to_string(), snapshot(vec![entry("/r", meta(1, 0, true))]));
    let mut session = SyncSession::new();
    let outcome = session.resume(Ok(tracker.clone()));
    assert!(matches!(outcome, ResumeOutcome::Resumed));
    assert_eq!(session.state, SyncState::Running);
    assert_eq!(session.tracker, Some(tracker));
}

#[test]
fn resume_failure_stops_the_session() {
    let mut session = SyncSession::new();
    let outcome = session.resume(Err(FileTrackerError::NotFound));
    assert_eq!(session.state, SyncState::StoppedOnError);
    match outcome {
        ResumeOutcome::Stopped { message } => {
            assert_eq!(message, "No persisted state was found");
        }
        ResumeOutcome::Resumed => panic!("resume must fail"),
    }
}

#[test]
fn tick_without_changes_is_quiet() {
    let snap = snapshot(vec![entry("/r", meta(1, 0, true))]);
    let mut session = SyncSession::new();
    session.start("/r".to_string(), Ok(snap.clone()));
    let outcome = session.tick(Ok(snap));
    assert!(matches!(outcome, TickOutcome::NoChanges));
    assert_eq!(session.state, SyncState::Running);
}

#[test]
fn tick_with_changes_notifies_filtered_and_persists() {
    let before = snapshot(vec![entry("/r", meta(1, 0, true))]);
    let mut session = SyncSession::new();
    session.start("/r".to_string(), Ok(before));
    let after = snapshot(vec![
        entry("/r", meta(1, 0, true)),
        entry("/r/new_dir", meta(2, 0, true)),
        entry("/r/a.txt", meta(3, 10, false)),
    ]);
    match session.tick(Ok(after.clone())) {
        TickOutcome::Changes { changes, payload, saved_state } => {
            assert_eq!(changes.len(), 2);
            assert!(changes
                .contains(&FileChange::Created("/r/new_dir".to_string(), meta(2, 0, true))));
            assert!(changes
                .contains(&FileChange::Created("/r/a.txt".to_string(), meta(3, 10, false))));
            // The payload only describes file records, not the new directory.
            assert_eq!(payload.folder, "/r");
            assert_eq!(payload.changes, vec!["Created: /r/a.txt".to_string()]);
            let persisted = FileTracker::get(Some(&saved_state)).unwrap();
            assert_eq!(persisted.files_state, after);
        }
        _ => panic!("expected changes"),
    }
}

#[test]
fn tick_scan_failure_keeps_old_snapshot_and_runs_on() {
    let snap = snapshot(vec![entry("/r", meta(1, 0, true))]);
    let mut session = SyncSession::new();
    session.start("/r".to_string(), Ok(snap.clone()));
    let before = session.tracker.clone();
    match session.tick(Err(FileTrackerError::ScanError("walk interrupted".to_string()))) {
        TickOutcome::ScanFailed { message } => {
            assert_eq!(message, "File scanning error: walk interrupted");
        }
        _ => panic!("expected a scan failure"),
    }
    assert_eq!(session.state, SyncState::Running);
    assert_eq!(session.tracker, before);
    // The next quiet tick still works.
    assert!(matches!(session.tick(Ok(snap)), TickOutcome::NoChanges));
}

#[test]
fn stop_returns_to_idle() {
    let snap = snapshot(vec![entry("/r", meta(1, 0, true))]);
    let mut session = SyncSession::new();
    session.start("/r".to_string(), Ok(snap));
    session.stop();
    assert_eq!(session.state, SyncState::Idle);
    assert!(session.tracker.is_none());
}

#[test]
fn payload_describes_each_change_in_order() {
    let tracker =
        FileTracker::new("/r".to_string(), snapshot(vec![entry("/r", meta(1, 0, true))]));
    let changes = vec![
        FileChange::Created("/r/a".to_string(), meta(1, 2, false)),
        FileChange::Deleted("/r/b".to_string()),
    ];
    let payload = create_payload(&tracker, &changes);
    assert_eq!(payload.folder, "/r");
    assert_eq!(payload.changes, vec!["Created: /r/a".to_string(), "Deleted: /r/b".to_string()]);
}

//! The sync-loop state machine: what each cycle decides and produces.
//!
//! The surrounding process owns the timer, the directory walks and the
//! notification sink; each tick it hands the scan's outcome to
//! [`SyncSession::tick`] and performs the actions the returned outcome
//! names: notify, persist, or merely wait for the next tick.

use vstd::prelude::*;
use crate::codec::spec_encode_tracker;
use crate::error::FileTrackerError;
use crate::file_tracker::{
    file_change_filter, spec_change_set, spec_changed, spec_describe, FileChange, FileTracker,
    Snapshot,
};

verus! {

/// Payload of one change notification: the monitored folder and the
/// human-readable descriptions of the changes found in one cycle.
#[derive(Debug, Clone, PartialEq)]
pub struct FileDiffPayload {
    /// The monitored root path.
    pub folder: String,
    /// One `"<Kind>: <path>"` line per change that passed the filter.
    pub changes: Vec<String>,
}

/// Builds the notification payload for a set of change records.
pub fn create_payload(file_tracker: &FileTracker, changes: &Vec<FileChange>) -> (r:
    FileDiffPayload)
    ensures
        r.folder@ == file_tracker.root_target@,
        r.changes@.len() == changes@.len(),
        forall|i: int|
            0 <= i < changes@.len() ==> (#[trigger] r.changes@[i])@ == spec_describe(
                changes@[i],
            ),
{
    let mut described: Vec<String> = Vec::new();
    let n: usize = changes.len();
    let mut i: usize = 0;
    while i < n
        invariant
            n == changes@.len(),
            0 <= i <= n,
            described@.len() == i,
            forall|k: int|
                0 <= k < i ==> (#[trigger] described@[k])@ == spec_describe(changes@[k]),
        decreases n - i,
    {
        described.push(changes[i].describe());
        i = i + 1;
    }
    FileDiffPayload { folder: file_tracker.root_target.clone(), changes: described }
}

/// The phases of one monitoring session.
#[derive(Debug, Clone, Copy, PartialEq, Eq, Structural)]
pub enum SyncState {
    /// No session: nothing is monitored.
    Idle,
    /// A start request is being served: the initial scan is in flight.
    Starting,
    /// The session ticks, scanning and diffing on each interval.
    Running,
    /// Resuming found no usable persisted state; the session is dead.
    StoppedOnError,
}

/// What a start request produced.
pub enum StartOutcome {
    /// The session runs; persist `saved_state` as the initial state.
    Started {
        /// The encoded initial tracker state.
        saved_state: Vec<u8>,
    },
    /// The initial scan failed; report `message` and leave no state behind.
    Failed {
        /// The failure's human-readable message.
        message: String,
    },
}

/// What resuming from persisted state produced.
pub enum ResumeOutcome {
    /// The session picked up where persisted state left off.
    Resumed,
    /// Persisted state was missing or unusable; report `message` once.
    Stopped {
        /// The failure's human-readable message.
        message: String,
    },
}

/// What one tick of a running session produced.
pub enum TickOutcome {
    /// The scans agree: nothing to notify, nothing to persist.
    NoChanges,
    /// Changes were found: notify with `payload`, persist `saved_state`.
    Changes {
        /// The classified change set of this cycle, unfiltered.
        changes: Vec<FileChange>,
        /// The notification payload, describing the filtered changes.
        payload: FileDiffPayload,
        /// The encoded tracker state after the snapshot replacement.
        saved_state: Vec<u8>,
    },
    /// The scan failed: report `message`, keep the old snapshot, keep
    /// running and retry on the next tick.
    ScanFailed {
        /// The failure's human-readable message.
        message: String,
    },
}

/// One monitoring session: its phase and, while running, its tracker.
pub struct SyncSession {
    /// The session's current phase.
    pub state: SyncState,
    /// The tracker, present exactly while the session runs.
    pub tracker: Option<FileTracker>,
}

impl SyncSession {
    /// Well-formed: a tracker is held exactly in the running phase, and it
    /// is itself well-formed.
    pub open spec fn wf(self) -> bool {
        &&& (self.state is Running <==> self.tracker is Some)
        &&& (self.tracker matches Some(t) ==> t.wf())
    }

    /// Returns a fresh idle session.
    pub fn new() -> (r: SyncSession)
        ensures
            r.wf(),
            r.state is Idle,
    {
        SyncSession { state: SyncState::Idle, tracker: None }
    }

    /// Serves a "begin monitoring" request with the outcome of the initial
    /// scan. On success the session runs and the returned encoded state is
    /// to be persisted; on failure the session stays idle, the scan's error
    /// is reported, and no state is to be written.
    pub fn start(&mut self, root_target: String, scan: Result<Snapshot, FileTrackerError>) -> (r:
        StartOutcome)
        requires
            old(self).wf(),
            old(self).state is Idle,
            scan matches Ok(s) ==> s.wf(),
        ensures
            final(self).wf(),
            match scan {
                Ok(s) => {
                    &&& final(self).state is Running
                    &&& final(self).tracker matches Some(t) && t.root_target == root_target
                        && t.files_state == s
                    &&& r matches StartOutcome::Started { saved_state } && saved_state@
                        == spec_encode_tracker(final(self).tracker->Some_0)
                },
                Err(e) => {
                    &&& final(self).state is Idle
                    &&& final(self).tracker is None
                    &&& r matches StartOutcome::Failed { message } && message@
                        == e.spec_message()
                },
            },
    {
        self.state = SyncState::Starting;
        match scan {
            Ok(files_state) => {
                let tracker = FileTracker::new(root_target, files_state);
                let saved_state = tracker.save();
                self.tracker = Some(tracker);
                self.state = SyncState::Running;
                StartOutcome::Started { saved_state }
            },
            Err(e) => {
                self.state = SyncState::Idle;
                StartOutcome::Failed { message: e.message() }
            },
        }
    }

    /// Resumes a session from the outcome of loading persisted state, as
    /// after a process restart. A load failure is fatal to the session: it
    /// stops at once, to be reported once, and does not retry.
    pub fn resume(&mut self, load: Result<FileTracker, FileTrackerError>) -> (r: ResumeOutcome)
        requires
            old(self).wf(),
            old(self).state is Idle,
            load matches Ok(t) ==> t.wf(),
        ensures
            final(self).wf(),
            match load {
                Ok(t) => {
                    &&& final(self).state is Running
                    &&& final(self).tracker == Some(t)
                    &&& r is Resumed
                },
                Err(e) => {
                    &&& final(self).state is StoppedOnError
                    &&& final(self).tracker is None
                    &&& r matches ResumeOutcome::Stopped { message } && message@
                        == e.spec_message()
                },
            },
    {
        match load {
            Ok(tracker) => {
                self.tracker = Some(tracker);
                self.state = SyncState::Running;
                ResumeOutcome::Resumed
            },
            Err(e) => {
                self.state = SyncState::StoppedOnError;
                ResumeOutcome::Stopped { message: e.message() }
            },
        }
    }

    /// Ends the session and drops its tracker. The caller deletes the
    /// persisted state alongside.
    pub fn stop(&mut self)
        ensures
            final(self).wf(),
            final(self).state is Idle,
            final(self).tracker is None,
    {
        self.tracker = None;
        self.state = SyncState::Idle;
    }

    /// Serves one tick of a running session with the outcome of this
    /// cycle's scan.
    ///
    /// A failed scan is reported and changes nothing: the session keeps its
    /// snapshot and keeps running. A successful scan replaces the stored
    /// snapshot unconditionally; when the change set is empty there is
    /// nothing to notify or persist, otherwise the outcome carries the
    /// change set, the notification payload built from its filtered records,
    /// and the re-encoded state to persist.
    pub fn tick(&mut self, scan: Result<Snapshot, FileTrackerError>) -> (r: TickOutcome)
        requires
            old(self).wf(),
            old(self).state is Running,
            scan matches Ok(s) ==> s.wf(),
        ensures
            final(self).wf(),
            final(self).state is Running,
            match scan {
                Ok(s) => {
                    &&& final(self).tracker matches Some(t2) && t2.root_target == old(
                        self,
                    ).tracker->Some_0.root_target && t2.files_state == s
                    &&& match r {
                        TickOutcome::NoChanges => forall|p: Seq<char>|
                            !spec_changed(
                                old(self).tracker->Some_0.files_state@,
                                s@,
                                p,
                            ),
                        TickOutcome::Changes { changes, payload, saved_state } => {
                            &&& spec_change_set(
                                changes@,
                                old(self).tracker->Some_0.files_state@,
                                s@,
                            )
                            &&& changes@.len() > 0
                            &&& payload.folder@ == old(self).tracker->Some_0.root_target@
                            &&& payload.changes@.len() == changes@.filter(
                                file_change_filter(),
                            ).len()
                            &&& forall|i: int|
                                0 <= i < payload.changes@.len() ==> (
                                #[trigger] payload.changes@[i])@ == spec_describe(
                                    changes@.filter(file_change_filter())[i],
                                )
                            &&& saved_state@ == spec_encode_tracker(
                                final(self).tracker->Some_0,
                            )
                        },
                        TickOutcome::ScanFailed { .. } => false,
                    }
                },
                Err(e) => {
                    &&& *final(self) == *old(self)
                    &&& r matches TickOutcome::ScanFailed { message } && message@
                        == e.spec_message()
                },
            },
    {
        match scan {
            Ok(new_state) => {
                match &mut self.tracker {
                    Some(tracker) => {
                        let changes = tracker.diff(new_state);
                        if changes.len() == 0 {
                            proof {
                                assert forall|p: Seq<char>|
                                    !spec_changed(
                                        old(self).tracker->Some_0.files_state@,
                                        new_state@,
                                        p,
                                    ) by {
                                    if spec_changed(
                                        old(self).tracker->Some_0.files_state@,
                                        new_state@,
                                        p,
                                    ) {
                                        assert(false);
                                    }
                                }
                            }
                            TickOutcome::NoChanges
                        } else {
                            let kept = FileTracker::get_only_file_changes(
                                duplicate_changes(&changes),
                            );
                            let payload = create_payload(tracker, &kept);
                            let saved_state = tracker.save();
                            TickOutcome::Changes { changes, payload, saved_state }
                        }
                    },
                    None => vstd::pervasive::unreached(),
                }
            },
            Err(e) => TickOutcome::ScanFailed { message: e.message() },
        }
    }
}

/// Returns a copy equal to the given change-record vector.
fn duplicate_changes(changes: &Vec<FileChange>) -> (r: Vec<FileChange>)
    ensures
        r@ == changes@,
{
    let mut r: Vec<FileChange> = Vec::new();
    let n: usize = changes.len();
    let mut i: usize = 0;
    while i < n
        invariant
            n == changes@.len(),
            0 <= i <= n,
            r@ == changes@.take(i as int),
        decreases n - i,
    {
        r.push(changes[i].duplicate());
        proof {
            assert(changes@.take(i + 1) =~= changes@.take(i as int).push(changes@[i as int]));
        }
        i = i + 1;
    }
    proof {
        assert(changes@.take(n as int) =~= changes@);
    }
    r
}

} // verus!

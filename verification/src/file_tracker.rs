//! Snapshots of a directory tree and the diff engine over them.

use vstd::prelude::*;
use vstd::string::StringExecFns;
use crate::error::FileTrackerError;

verus! {

/// Metadata recorded for one filesystem object.
///
/// Change detection compares only the last-modified timestamp and the size;
/// the directory flag is carried for filtering, never compared.
#[derive(Debug, Clone, Copy, PartialEq, Eq, Structural)]
pub struct FileMetadata {
    /// Seconds of the last-modified instant, measured from the Unix epoch.
    pub last_modified_secs: u64,
    /// Sub-second nanoseconds of the last-modified instant.
    pub last_modified_nanos: u32,
    /// Size in bytes.
    pub size: u64,
    /// Whether the object is a directory.
    pub is_dir: bool,
}

impl FileMetadata {
    /// Two observations count as unchanged when timestamp and size agree;
    /// the directory flag does not participate.
    pub open spec fn spec_unchanged(self, other: FileMetadata) -> bool {
        &&& self.last_modified_secs == other.last_modified_secs
        &&& self.last_modified_nanos == other.last_modified_nanos
        &&& self.size == other.size
    }

    /// Returns whether `self` and `other` agree on timestamp and size.
    pub fn unchanged(&self, other: &FileMetadata) -> (r: bool)
        ensures
            r == self.spec_unchanged(*other),
    {
        self.last_modified_secs == other.last_modified_secs
            && self.last_modified_nanos == other.last_modified_nanos
            && self.size == other.size
    }
}

/// One snapshot entry: a path and the metadata observed for it.
#[derive(Debug, Clone, PartialEq)]
pub struct FileEntry {
    /// The path of the filesystem object.
    pub path: String,
    /// The metadata observed for it.
    pub metadata: FileMetadata,
}

/// The path-to-metadata map that a sequence of entries denotes.
/// A later entry for the same path wins, as in a map built by insertion.
pub open spec fn snap_map_of(entries: Seq<FileEntry>) -> Map<Seq<char>, FileMetadata>
    decreases entries.len(),
{
    if entries.len() == 0 {
        Map::empty()
    } else {
        snap_map_of(entries.drop_last()).insert(
            entries.last().path@,
            entries.last().metadata,
        )
    }
}

/// A path occurs in the denoted map exactly when some entry carries it.
pub proof fn lemma_snap_map_domain(entries: Seq<FileEntry>, p: Seq<char>)
    ensures
        snap_map_of(entries).contains_key(p) <==> exists|i: int|
            0 <= i < entries.len() && entries[i].path@ == p,
    decreases entries.len(),
{
    if entries.len() > 0 {
        lemma_snap_map_domain(entries.drop_last(), p);
        if snap_map_of(entries).contains_key(p) {
            if entries.last().path@ != p {
                let i = choose|i: int|
                    0 <= i < entries.drop_last().len() && entries.drop_last()[i].path@ == p;
                assert(entries[i].path@ == p);
            }
        } else {
            assert(forall|i: int|
                0 <= i < entries.len() - 1 ==> entries.drop_last()[i] == entries[i]);
        }
    }
}

/// Under unique paths, the denoted map sends each entry's path to its metadata.
pub proof fn lemma_snap_map_index(entries: Seq<FileEntry>, i: int)
    requires
        forall|j: int, k: int|
            0 <= j < k < entries.len() ==> entries[j].path@ != entries[k].path@,
        0 <= i < entries.len(),
    ensures
        snap_map_of(entries).contains_key(entries[i].path@),
        snap_map_of(entries)[entries[i].path@] == entries[i].metadata,
    decreases entries.len(),
{
    lemma_snap_map_domain(entries, entries[i].path@);
    if i < entries.len() - 1 {
        assert(forall|j: int|
            0 <= j < entries.len() - 1 ==> entries.drop_last()[j] == entries[j]);
        lemma_snap_map_index(entries.drop_last(), i);
        assert(entries.last().path@ != entries[i].path@);
    }
}

/// A complete path-to-metadata capture of a directory tree at one instant.
///
/// Entries are held in a vector; well-formedness says the paths are unique,
/// so the snapshot denotes a map (its view) and order carries no meaning.
#[derive(Debug, Clone, PartialEq)]
pub struct Snapshot {
    /// The recorded entries, one per filesystem object.
    pub entries: Vec<FileEntry>,
}

impl View for Snapshot {
    type V = Map<Seq<char>, FileMetadata>;

    open spec fn view(&self) -> Map<Seq<char>, FileMetadata> {
        snap_map_of(self.entries@)
    }
}

impl Snapshot {
    /// Well-formed: no two entries carry the same path.
    pub open spec fn wf(self) -> bool {
        forall|j: int, k: int|
            0 <= j < k < self.entries@.len() ==> self.entries@[j].path@ != self.entries@[k].path@
    }

    /// Returns the empty snapshot.
    pub fn new() -> (r: Snapshot)
        ensures
            r.wf(),
            r@ == Map::<Seq<char>, FileMetadata>::empty(),
            r.entries@.len() == 0,
    {
        Snapshot { entries: Vec::new() }
    }

    /// Returns the number of recorded entries.
    pub fn len(&self) -> (r: usize)
        ensures
            r == self.entries@.len(),
    {
        self.entries.len()
    }

    /// Looks a path up, returning its index among the entries.
    fn find(&self, path: &String) -> (r: Option<usize>)
        ensures
            match r {
                Some(i) => 0 <= i < self.entries@.len() && self.entries@[i as int].path@
                    == path@,
                None => forall|i: int|
                    0 <= i < self.entries@.len() ==> self.entries@[i].path@ != path@,
            },
    {
        let n: usize = self.entries.len();
        let mut i: usize = 0;
        while i < n
            invariant
                n == self.entries@.len(),
                0 <= i <= n,
                forall|j: int| 0 <= j < i ==> self.entries@[j].path@ != path@,
            decreases n - i,
        {
            if self.entries[i].path == *path {
                return Some(i);
            }
            i = i + 1;
        }
        None
    }

    /// Looks a path up in the snapshot's map.
    pub fn lookup(&self, path: &String) -> (r: Option<&FileMetadata>)
        requires
            self.wf(),
        ensures
            match r {
                Some(m) => self@.contains_key(path@) && *m == self@[path@],
                None => !self@.contains_key(path@),
            },
    {
        proof {
            lemma_snap_map_domain(self.entries@, path@);
        }
        match self.find(path) {
            Some(i) => {
                proof {
                    lemma_snap_map_index(self.entries@, i as int);
                }
                Some(&self.entries[i].metadata)
            },
            None => None,
        }
    }

    /// Returns whether the snapshot records the given path.
    pub fn contains(&self, path: &String) -> (r: bool)
        requires
            self.wf(),
        ensures
            r == self@.contains_key(path@),
    {
        self.lookup(path).is_some()
    }

    /// Records metadata for a path, replacing any earlier record of it.
    pub fn insert(&mut self, path: String, metadata: FileMetadata)
        requires
            old(self).wf(),
        ensures
            final(self).wf(),
            final(self)@ == old(self)@.insert(path@, metadata),
    {
        let ghost pre = self.entries@;
        match self.find(&path) {
            Some(i) => {
                self.entries[i] = FileEntry { path, metadata };
                proof {
                    lemma_snap_map_update(pre, self.entries@, i as int);
                }
            },
            None => {
                self.entries.push(FileEntry { path, metadata });
                assert(self.entries@.drop_last() == pre);
            },
        }
    }
}

/// One classified difference between two snapshots.
///
/// `Created` and `Modified` carry the metadata observed in the newer
/// snapshot; `Deleted` carries only the vanished path.
#[derive(Debug, Clone, PartialEq)]
pub enum FileChange {
    /// The path is in the new snapshot but was not in the old one.
    Created(String, FileMetadata),
    /// The path is in both snapshots and its timestamp or size differs.
    Modified(String, FileMetadata),
    /// The path was in the old snapshot but is not in the new one.
    Deleted(String),
}

impl FileChange {
    /// The path the record is about.
    pub open spec fn spec_path(self) -> Seq<char> {
        match self {
            FileChange::Created(p, _) => p@,
            FileChange::Modified(p, _) => p@,
            FileChange::Deleted(p) => p@,
        }
    }

    /// A record survives the directory filter unless it is a `Created` or
    /// `Modified` record whose metadata marks a directory. `Deleted` records
    /// carry no flag and always survive.
    pub open spec fn spec_is_file_change(self) -> bool {
        match self {
            FileChange::Created(_, m) => !m.is_dir,
            FileChange::Modified(_, m) => !m.is_dir,
            FileChange::Deleted(_) => true,
        }
    }

    /// Returns whether the record survives the directory filter.
    pub fn is_file_change(&self) -> (r: bool)
        ensures
            r == self.spec_is_file_change(),
    {
        match self {
            FileChange::Created(_, m) => !m.is_dir,
            FileChange::Modified(_, m) => !m.is_dir,
            FileChange::Deleted(_) => true,
        }
    }

    /// Returns the human-readable description of the record, of the form
    /// `"<Kind>: <path>"`.
    pub fn describe(&self) -> (r: String)
        ensures
            r@ == spec_describe(*self),
    {
        match self {
            FileChange::Created(p, _) => {
                let mut r = "Created: ".to_owned();
                r.append(p.as_str());
                r
            },
            FileChange::Modified(p, _) => {
                let mut r = "Modified: ".to_owned();
                r.append(p.as_str());
                r
            },
            FileChange::Deleted(p) => {
                let mut r = "Deleted: ".to_owned();
                r.append(p.as_str());
                r
            },
        }
    }

    /// Returns a copy equal to this record.
    pub fn duplicate(&self) -> (r: FileChange)
        ensures
            r == *self,
    {
        match self {
            FileChange::Created(p, m) => FileChange::Created(p.clone(), *m),
            FileChange::Modified(p, m) => FileChange::Modified(p.clone(), *m),
            FileChange::Deleted(p) => FileChange::Deleted(p.clone()),
        }
    }
}

/// The human-readable description of a change record: its kind, then the
/// affected path.
pub open spec fn spec_describe(c: FileChange) -> Seq<char> {
    match c {
        FileChange::Created(p, _) => "Created: "@ + p@,
        FileChange::Modified(p, _) => "Modified: "@ + p@,
        FileChange::Deleted(p) => "Deleted: "@ + p@,
    }
}

/// Some record in the sequence is about the given path.
pub open spec fn spec_has_record(changes: Seq<FileChange>, p: Seq<char>) -> bool {
    exists|k: int| 0 <= k < changes.len() && (#[trigger] changes[k]).spec_path() == p
}

/// The path would get a `Created` or `Modified` record between the two maps.
pub open spec fn spec_created_or_modified(
    old_map: Map<Seq<char>, FileMetadata>,
    new_map: Map<Seq<char>, FileMetadata>,
    p: Seq<char>,
) -> bool {
    new_map.contains_key(p) && (!old_map.contains_key(p) || !old_map[p].spec_unchanged(
        new_map[p],
    ))
}

/// The path would get some change record between the two maps.
pub open spec fn spec_changed(
    old_map: Map<Seq<char>, FileMetadata>,
    new_map: Map<Seq<char>, FileMetadata>,
    p: Seq<char>,
) -> bool {
    spec_created_or_modified(old_map, new_map, p) || (old_map.contains_key(p)
        && !new_map.contains_key(p))
}

/// The record is correctly classified for its own path between the two maps.
pub open spec fn spec_is_change_of(
    c: FileChange,
    old_map: Map<Seq<char>, FileMetadata>,
    new_map: Map<Seq<char>, FileMetadata>,
) -> bool {
    match c {
        FileChange::Created(p, m) => !old_map.contains_key(p@) && new_map.contains_key(p@)
            && m == new_map[p@],
        FileChange::Modified(p, m) => old_map.contains_key(p@) && new_map.contains_key(p@)
            && !old_map[p@].spec_unchanged(new_map[p@]) && m == new_map[p@],
        FileChange::Deleted(p) => old_map.contains_key(p@) && !new_map.contains_key(p@),
    }
}

/// The sequence is exactly the change set between the two maps: every record
/// is correctly classified, no path has two records, and every changed path
/// has a record.
pub open spec fn spec_change_set(
    changes: Seq<FileChange>,
    old_map: Map<Seq<char>, FileMetadata>,
    new_map: Map<Seq<char>, FileMetadata>,
) -> bool {
    &&& forall|i: int|
        0 <= i < changes.len() ==> spec_is_change_of(#[trigger] changes[i], old_map, new_map)
    &&& forall|i: int, j: int|
        0 <= i < j < changes.len() ==> changes[i].spec_path() != changes[j].spec_path()
    &&& forall|p: Seq<char>|
        #[trigger] spec_changed(old_map, new_map, p) ==> spec_has_record(changes, p)
}

/// The record would insert or replace metadata at the given path.
pub open spec fn spec_upsert_at(c: FileChange, p: Seq<char>) -> bool {
    match c {
        FileChange::Created(q, _) => q@ == p,
        FileChange::Modified(q, _) => q@ == p,
        FileChange::Deleted(_) => false,
    }
}

/// The metadata a `Created` or `Modified` record carries.
pub open spec fn spec_new_metadata(c: FileChange) -> Option<FileMetadata> {
    match c {
        FileChange::Created(_, m) => Some(m),
        FileChange::Modified(_, m) => Some(m),
        FileChange::Deleted(_) => None,
    }
}

/// Some record in the sequence inserts or replaces metadata at the path.
pub open spec fn spec_has_upsert(changes: Seq<FileChange>, p: Seq<char>) -> bool {
    exists|k: int| 0 <= k < changes.len() && spec_upsert_at(#[trigger] changes[k], p)
}

/// Some record in the sequence deletes the path.
pub open spec fn spec_has_delete(changes: Seq<FileChange>, p: Seq<char>) -> bool {
    exists|k: int|
        0 <= k < changes.len() && (#[trigger] changes[k]) is Deleted && changes[k].spec_path()
            == p
}

/// The metadata that some inserting or replacing record carries for the path.
pub open spec fn spec_upsert_value(changes: Seq<FileChange>, p: Seq<char>) -> FileMetadata {
    spec_new_metadata(
        changes[choose|k: int| 0 <= k < changes.len() && spec_upsert_at(#[trigger] changes[k], p)],
    )->Some_0
}

/// The map obtained by conceptually applying a change set to a snapshot map:
/// `Created` and `Modified` records write their metadata at their path,
/// `Deleted` records remove theirs, and every other path keeps its old
/// metadata.
pub open spec fn spec_apply_changes(
    old_map: Map<Seq<char>, FileMetadata>,
    changes: Seq<FileChange>,
) -> Map<Seq<char>, FileMetadata> {
    Map::new(
        |p: Seq<char>|
            spec_has_upsert(changes, p) || (old_map.contains_key(p) && !spec_has_delete(
                changes,
                p,
            )),
        |p: Seq<char>|
            if spec_has_upsert(changes, p) {
                spec_upsert_value(changes, p)
            } else {
                old_map[p]
            },
    )
}

/// Law: diffing two equal snapshots yields an empty change set, so scanning
/// twice with no filesystem change between the scans reports nothing either
/// time.
pub proof fn lemma_diff_idempotent(changes: Seq<FileChange>, m: Map<Seq<char>, FileMetadata>)
    requires
        spec_change_set(changes, m, m),
    ensures
        changes.len() == 0,
{
    if changes.len() > 0 {
        let c = changes[0];
        assert(spec_is_change_of(c, m, m));
        match c {
            FileChange::Created(p, meta) => {
                assert(false);
            },
            FileChange::Modified(p, meta) => {
                assert(m[p@].spec_unchanged(m[p@]));
                assert(false);
            },
            FileChange::Deleted(p) => {
                assert(false);
            },
        }
    }
}

/// Law: the change set produced by diffing two snapshots, applied
/// conceptually to the old snapshot's map, reconstructs the new snapshot's
/// map exactly, path for path.
///
/// The first premise rules out pairs in which an entry counts as unchanged —
/// equal timestamp and size, so no record is produced — while its directory
/// flag still differs; for such pairs the flag is not reconstructible from
/// the change set.
pub proof fn lemma_changes_reconstruct(
    changes: Seq<FileChange>,
    old_map: Map<Seq<char>, FileMetadata>,
    new_map: Map<Seq<char>, FileMetadata>,
)
    requires
        forall|p: Seq<char>|
            old_map.contains_key(p) && new_map.contains_key(p) && (
            #[trigger] old_map[p]).spec_unchanged(new_map[p]) ==> old_map[p] == new_map[p],
        spec_change_set(changes, old_map, new_map),
    ensures
        spec_apply_changes(old_map, changes) == new_map,
{
    let a = spec_apply_changes(old_map, changes);
    assert forall|p: Seq<char>| #[trigger]
        a.contains_key(p) implies new_map.contains_key(p) && a[p] == new_map[p] by {
        if spec_has_upsert(changes, p) {
            let k0 = choose|k: int|
                0 <= k < changes.len() && spec_upsert_at(#[trigger] changes[k], p);
            assert(spec_is_change_of(changes[k0], old_map, new_map));
            assert(new_map.contains_key(p) && spec_upsert_value(changes, p) == new_map[p]);
        } else {
            assert(old_map.contains_key(p) && !spec_has_delete(changes, p));
            if !new_map.contains_key(p) {
                assert(spec_changed(old_map, new_map, p));
                let k = choose|k: int|
                    0 <= k < changes.len() && (#[trigger] changes[k]).spec_path() == p;
                assert(spec_is_change_of(changes[k], old_map, new_map));
                assert(changes[k] is Deleted);
                assert(false);
            }
            if !old_map[p].spec_unchanged(new_map[p]) {
                assert(spec_changed(old_map, new_map, p));
                let k = choose|k: int|
                    0 <= k < changes.len() && (#[trigger] changes[k]).spec_path() == p;
                assert(spec_is_change_of(changes[k], old_map, new_map));
                assert(spec_upsert_at(changes[k], p));
                assert(false);
            }
            assert(old_map[p] == new_map[p]);
        }
    }
    assert forall|p: Seq<char>| #[trigger] new_map.contains_key(p) implies a.contains_key(p) by {
        if !spec_has_upsert(changes, p) {
            if !old_map.contains_key(p) {
                assert(spec_changed(old_map, new_map, p));
                let k = choose|k: int|
                    0 <= k < changes.len() && (#[trigger] changes[k]).spec_path() == p;
                assert(spec_is_change_of(changes[k], old_map, new_map));
                assert(spec_upsert_at(changes[k], p));
                assert(false);
            }
            if spec_has_delete(changes, p) {
                let k = choose|k: int|
                    0 <= k < changes.len() && (#[trigger] changes[k]) is Deleted
                        && changes[k].spec_path() == p;
                assert(spec_is_change_of(changes[k], old_map, new_map));
                assert(false);
            }
        }
    }
    assert(a =~= new_map);
}

/// Law: the directory filter never removes a record that concerns a file
/// path; everything it removes is a `Created` or `Modified` record marked as
/// a directory. (That it never reorders what remains is stated by the filter
/// contract itself: the result is the order-preserving subsequence
/// `changes.filter(file_change_filter())`.)
pub proof fn lemma_directory_filter_keeps_file_records(changes: Seq<FileChange>, i: int)
    requires
        0 <= i < changes.len(),
        changes[i].spec_is_file_change(),
    ensures
        changes.filter(file_change_filter()).contains(changes[i]),
{
    changes.lemma_filter_contains(file_change_filter(), i);
}

/// Overwriting the entry at `i` with one carrying the same path updates the
/// denoted map at exactly that path.
proof fn lemma_snap_map_update(pre: Seq<FileEntry>, post: Seq<FileEntry>, i: int)
    requires
        forall|j: int, k: int| 0 <= j < k < pre.len() ==> pre[j].path@ != pre[k].path@,
        pre.len() == post.len(),
        0 <= i < pre.len(),
        post[i].path@ == pre[i].path@,
        forall|j: int| 0 <= j < pre.len() && j != i ==> post[j] == pre[j],
    ensures
        snap_map_of(post) == snap_map_of(pre).insert(post[i].path@, post[i].metadata),
    decreases pre.len(),
{
    assert forall|j: int, k: int| 0 <= j < k < post.len() implies post[j].path@
        != post[k].path@ by {
        assert(pre[j].path@ != pre[k].path@);
    }
    if i == pre.len() - 1 {
        assert(post.drop_last() =~= pre.drop_last());
        assert(snap_map_of(post) =~= snap_map_of(pre).insert(post[i].path@, post[i].metadata));
    } else {
        lemma_snap_map_update(pre.drop_last(), post.drop_last(), i);
        assert(post.drop_last()[i] == post[i]);
        assert(post.last() == pre.last());
        assert(snap_map_of(post) == snap_map_of(post.drop_last()).insert(
            post.last().path@,
            post.last().metadata,
        ));
        assert(snap_map_of(post) =~= snap_map_of(pre).insert(post[i].path@, post[i].metadata));
    }
}

/// The filter predicate of [`FileTracker::get_only_file_changes`] as a
/// single function value, so that contracts and proofs speak of one closure.
pub open spec fn file_change_filter() -> spec_fn(FileChange) -> bool {
    |c: FileChange| c.spec_is_file_change()
}

impl Snapshot {
    /// Builds a snapshot from the entries observed by a directory walk.
    ///
    /// `root_is_dir` reports whether the root path was found to be a
    /// directory; when it is not, the build fails with `NotADirectory` and no
    /// snapshot is produced. The walk's own convention is to include the root
    /// entry itself, so a walk of an empty directory hands one entry here.
    /// A later entry for a path already seen replaces the earlier record,
    /// so the result is well-formed whatever the input.
    pub fn from_scan(root_is_dir: bool, entries: Vec<FileEntry>) -> (r: Result<
        Snapshot,
        FileTrackerError,
    >)
        ensures
            match r {
                Ok(s) => root_is_dir && s.wf() && s@ == snap_map_of(entries@),
                Err(e) => !root_is_dir && e == FileTrackerError::NotADirectory,
            },
    {
        if !root_is_dir {
            return Err(FileTrackerError::NotADirectory);
        }
        let mut snap = Snapshot::new();
        let n: usize = entries.len();
        let mut i: usize = 0;
        while i < n
            invariant
                n == entries@.len(),
                0 <= i <= n,
                snap.wf(),
                snap@ == snap_map_of(entries@.take(i as int)),
            decreases n - i,
        {
            snap.insert(entries[i].path.clone(), entries[i].metadata);
            proof {
                assert(entries@.take(i + 1).drop_last() =~= entries@.take(i as int));
                assert(entries@.take(i + 1).last() == entries@[i as int]);
            }
            i = i + 1;
        }
        proof {
            assert(entries@.take(n as int) =~= entries@);
        }
        Ok(snap)
    }
}

/// The monitored root path together with its most recent snapshot.
///
/// The tracker's snapshot is replaced wholesale by every diff cycle, never
/// patched; no history is kept beyond it.
#[derive(Debug, Clone, PartialEq)]
pub struct FileTracker {
    /// The root of the monitored directory tree.
    pub root_target: String,
    /// The most recent snapshot of that tree.
    pub files_state: Snapshot,
}

impl FileTracker {
    /// Well-formed: the snapshot's paths are unique.
    pub open spec fn wf(self) -> bool {
        self.files_state.wf()
    }

    /// Creates a tracker for the given root from its initial snapshot.
    pub fn new(root_target: String, files_state: Snapshot) -> (r: FileTracker)
        requires
            files_state.wf(),
        ensures
            r.wf(),
            r.root_target == root_target,
            r.files_state == files_state,
    {
        FileTracker { root_target, files_state }
    }

    /// Compares the stored snapshot against a newly scanned one, returns the
    /// classified change set, and replaces the stored snapshot with the new
    /// one unconditionally — also when the change set is empty.
    ///
    /// The change set holds exactly one record per changed path: `Created`
    /// for a path only in the new snapshot, `Modified` for a path in both
    /// whose timestamp or size differs, `Deleted` for a path only in the old
    /// snapshot; unchanged paths get no record. Two scans of an unchanged
    /// tree therefore yield an empty change set.
    pub fn diff(&mut self, new_state: Snapshot) -> (changes: Vec<FileChange>)
        requires
            old(self).wf(),
            new_state.wf(),
        ensures
            final(self).wf(),
            final(self).root_target == old(self).root_target,
            final(self).files_state == new_state,
            spec_change_set(changes@, old(self).files_state@, new_state@),
            old(self).files_state@ == new_state@ ==> changes@.len() == 0,
    {
        let ghost o = old(self).files_state@;
        let ghost n = new_state@;
        let ghost ne = new_state.entries@;
        let ghost oe = old(self).files_state.entries@;

        let mut changes: Vec<FileChange> = Vec::new();
        let new_len: usize = new_state.entries.len();
        let mut i: usize = 0;
        while i < new_len
            invariant
                *self == *old(self),
                old(self).wf(),
                new_state.wf(),
                o == old(self).files_state@,
                n == new_state@,
                ne == new_state.entries@,
                new_len == ne.len(),
                0 <= i <= new_len,
                forall|k: int|
                    0 <= k < changes@.len() ==> spec_is_change_of(
                        #[trigger] changes@[k],
                        o,
                        n,
                    ),
                forall|k: int|
                    0 <= k < changes@.len() ==> !((#[trigger] changes@[k]) is Deleted),
                forall|k: int|
                    0 <= k < changes@.len() ==> exists|j: int|
                        0 <= j < i && (#[trigger] changes@[k]).spec_path() == ne[j].path@,
                forall|k: int, l: int|
                    0 <= k < l < changes@.len() ==> changes@[k].spec_path()
                        != changes@[l].spec_path(),
                forall|j: int|
                    0 <= j < i && spec_created_or_modified(o, n, #[trigger] ne[j].path@)
                        ==> spec_has_record(changes@, ne[j].path@),
            decreases new_len - i,
        {
            let ghost prev = changes@;
            let entry = &new_state.entries[i];
            proof {
                lemma_snap_map_index(ne, i as int);
            }
            match self.files_state.lookup(&entry.path) {
                Some(old_metadata) => {
                    if !old_metadata.unchanged(&entry.metadata) {
                        changes.push(
                            FileChange::Modified(entry.path.clone(), entry.metadata),
                        );
                    }
                },
                None => {
                    changes.push(FileChange::Created(entry.path.clone(), entry.metadata));
                },
            }
            proof {
                assert forall|j: int|
                    0 <= j < i + 1 && spec_created_or_modified(
                        o,
                        n,
                        #[trigger] ne[j].path@,
                    ) implies spec_has_record(changes@, ne[j].path@) by {
                    if j < i {
                        let k = choose|k: int|
                            0 <= k < prev.len() && (#[trigger] prev[k]).spec_path()
                                == ne[j].path@;
                        assert(changes@[k].spec_path() == ne[j].path@);
                    } else {
                        assert(changes@[changes@.len() - 1].spec_path() == ne[i as int].path@);
                    }
                }
            }
            i = i + 1;
        }
        proof {
            assert forall|p: Seq<char>| #[trigger]
                spec_created_or_modified(o, n, p) implies spec_has_record(changes@, p) by {
                lemma_snap_map_domain(ne, p);
                let j = choose|j: int| 0 <= j < ne.len() && (#[trigger] ne[j]).path@ == p;
                assert(spec_created_or_modified(o, n, ne[j].path@));
            }
        }

        let old_len: usize = self.files_state.entries.len();
        let mut j: usize = 0;
        while j < old_len
            invariant
                *self == *old(self),
                old(self).wf(),
                new_state.wf(),
                o == old(self).files_state@,
                n == new_state@,
                oe == old(self).files_state.entries@,
                old_len == oe.len(),
                0 <= j <= old_len,
                forall|k: int|
                    0 <= k < changes@.len() ==> spec_is_change_of(
                        #[trigger] changes@[k],
                        o,
                        n,
                    ),
                forall|k: int, l: int|
                    0 <= k < l < changes@.len() ==> changes@[k].spec_path()
                        != changes@[l].spec_path(),
                forall|p: Seq<char>| #[trigger]
                    spec_created_or_modified(o, n, p) ==> spec_has_record(changes@, p),
                forall|k: int|
                    0 <= k < changes@.len() && (#[trigger] changes@[k]) is Deleted
                        ==> exists|jj: int|
                        0 <= jj < j && changes@[k].spec_path() == oe[jj].path@,
                forall|jj: int|
                    0 <= jj < j && !n.contains_key(#[trigger] oe[jj].path@)
                        ==> spec_has_record(changes@, oe[jj].path@),
            decreases old_len - j,
        {
            let ghost prev = changes@;
            let entry = &self.files_state.entries[j];
            proof {
                lemma_snap_map_index(oe, j as int);
            }
            let absent = !new_state.contains(&entry.path);
            if absent {
                changes.push(FileChange::Deleted(entry.path.clone()));
            }
            proof {
                assert forall|p: Seq<char>| #[trigger]
                    spec_created_or_modified(o, n, p) implies spec_has_record(
                    changes@,
                    p,
                ) by {
                    let k = choose|k: int|
                        0 <= k < prev.len() && (#[trigger] prev[k]).spec_path() == p;
                    assert(changes@[k].spec_path() == p);
                }
                assert forall|jj: int|
                    0 <= jj < j + 1 && !n.contains_key(
                        #[trigger] oe[jj].path@,
                    ) implies spec_has_record(changes@, oe[jj].path@) by {
                    if jj < j {
                        let k = choose|k: int|
                            0 <= k < prev.len() && (#[trigger] prev[k]).spec_path()
                                == oe[jj].path@;
                        assert(changes@[k].spec_path() == oe[jj].path@);
                    } else {
                        assert(changes@[changes@.len() - 1].spec_path() == oe[j as int].path@);
                    }
                }
            }
            j = j + 1;
        }
        proof {
            assert forall|p: Seq<char>| #[trigger]
                spec_changed(o, n, p) implies spec_has_record(changes@, p) by {
                if !spec_created_or_modified(o, n, p) {
                    lemma_snap_map_domain(oe, p);
                    let jj = choose|jj: int| 0 <= jj < oe.len() && (#[trigger] oe[jj]).path@ == p;
                    assert(!n.contains_key(oe[jj].path@));
                }
            }
            if o == n && changes@.len() > 0 {
                let c = changes@[0];
                assert(spec_is_change_of(c, o, n));
                match c {
                    FileChange::Created(p, m) => {
                        assert(false);
                    },
                    FileChange::Modified(p, m) => {
                        assert(o[p@].spec_unchanged(n[p@]));
                        assert(false);
                    },
                    FileChange::Deleted(p) => {
                        assert(false);
                    },
                }
            }
        }
        self.files_state = new_state;
        changes
    }

    /// Keeps only the records that survive the directory filter: `Created`
    /// and `Modified` records for directories are dropped, every other record
    /// stays, and the relative order of the remaining records is preserved.
    /// The input change set itself is not altered, only consumed.
    pub fn get_only_file_changes(all_changes: Vec<FileChange>) -> (r: Vec<FileChange>)
        ensures
            r@ == all_changes@.filter(file_change_filter()),
    {
        let mut r: Vec<FileChange> = Vec::new();
        let n: usize = all_changes.len();
        let mut i: usize = 0;
        while i < n
            invariant
                n == all_changes@.len(),
                0 <= i <= n,
                r@ == all_changes@.take(i as int).filter(file_change_filter()),
            decreases n - i,
        {
            if all_changes[i].is_file_change() {
                r.push(all_changes[i].duplicate());
            }
            proof {
                reveal(Seq::filter);
                assert(all_changes@.take(i + 1).drop_last() =~= all_changes@.take(i as int));
                assert(all_changes@.take(i + 1).last() == all_changes@[i as int]);
            }
            i = i + 1;
        }
        proof {
            assert(all_changes@.take(n as int) =~= all_changes@);
        }
        r
    }
}

} // verus!

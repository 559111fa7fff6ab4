//! The durable byte format for tracker state, with an exact round trip.
//!
//! A tracker is laid out as a length-prefixed root path, an entry count, and
//! one record per entry: length-prefixed UTF-8 path bytes, the last-modified
//! seconds and nanoseconds, the size, and a one-byte directory flag. All
//! integers are little-endian. Decoding accepts exactly the byte strings this
//! layout produces and rejects everything else, including duplicate paths.

use vstd::prelude::*;
use vstd::bytes::*;
use vstd::utf8::*;
use crate::error::FileTrackerError;
use crate::file_tracker::{FileEntry, FileMetadata, FileTracker, Snapshot};

verus! {

/// The mathematical model of one entry: its path's characters and metadata.
pub open spec fn spec_entry_model(e: FileEntry) -> (Seq<char>, FileMetadata) {
    (e.path@, e.metadata)
}

/// The mathematical model of an entry sequence.
pub open spec fn spec_entries_model(es: Seq<FileEntry>) -> Seq<(Seq<char>, FileMetadata)> {
    es.map_values(|e: FileEntry| spec_entry_model(e))
}

/// No two modelled entries share a path.
pub open spec fn spec_model_paths_unique(es: Seq<(Seq<char>, FileMetadata)>) -> bool {
    forall|i: int, j: int| 0 <= i < j < es.len() ==> es[i].0 != es[j].0
}

/// The encoding of one metadata record: seconds, nanoseconds, size, flag.
pub open spec fn spec_encode_metadata(m: FileMetadata) -> Seq<u8> {
    spec_u64_to_le_bytes(m.last_modified_secs) + spec_u32_to_le_bytes(m.last_modified_nanos)
        + spec_u64_to_le_bytes(m.size) + seq![
        if m.is_dir {
            1u8
        } else {
            0u8
        },
    ]
}

/// The encoding of one entry: length-prefixed path bytes, then metadata.
pub open spec fn spec_encode_entry(e: FileEntry) -> Seq<u8> {
    spec_u64_to_le_bytes(encode_utf8(e.path@).len() as u64) + encode_utf8(e.path@)
        + spec_encode_metadata(e.metadata)
}

/// The number of bytes the encoding of one entry occupies.
pub open spec fn spec_entry_len(e: FileEntry) -> int {
    29 + encode_utf8(e.path@).len() as int
}

/// The concatenated encodings of a sequence of entries.
pub open spec fn spec_encode_entries(es: Seq<FileEntry>) -> Seq<u8>
    decreases es.len(),
{
    if es.len() == 0 {
        Seq::empty()
    } else {
        spec_encode_entry(es[0]) + spec_encode_entries(es.drop_first())
    }
}

/// The full encoding of a tracker: root path, entry count, entries.
pub open spec fn spec_encode_tracker(t: FileTracker) -> Seq<u8> {
    spec_u64_to_le_bytes(encode_utf8(t.root_target@).len() as u64) + encode_utf8(t.root_target@)
        + spec_u64_to_le_bytes(t.files_state.entries@.len() as u64) + spec_encode_entries(
        t.files_state.entries@,
    )
}

/// The tracker's path byte lengths and entry count fit the length prefixes.
/// Every tracker whose strings exist in memory satisfies this.
pub open spec fn spec_encodable(t: FileTracker) -> bool {
    &&& encode_utf8(t.root_target@).len() <= u64::MAX
    &&& t.files_state.entries@.len() <= u64::MAX
    &&& forall|i: int|
        0 <= i < t.files_state.entries@.len() ==> encode_utf8(
            (#[trigger] t.files_state.entries@[i]).path@,
        ).len() <= u64::MAX
}

/// Reads a little-endian `u64` at `pos`; yields the value and the position
/// after it.
pub open spec fn spec_read_u64(s: Seq<u8>, pos: int) -> Option<(u64, int)> {
    if 0 <= pos && pos + 8 <= s.len() {
        Some((spec_u64_from_le_bytes(s.subrange(pos, pos + 8)), pos + 8))
    } else {
        None
    }
}

/// Reads a little-endian `u32` at `pos`.
pub open spec fn spec_read_u32(s: Seq<u8>, pos: int) -> Option<(u32, int)> {
    if 0 <= pos && pos + 4 <= s.len() {
        Some((spec_u32_from_le_bytes(s.subrange(pos, pos + 4)), pos + 4))
    } else {
        None
    }
}

/// Reads a directory flag byte at `pos`; only 0 and 1 are accepted.
pub open spec fn spec_read_flag(s: Seq<u8>, pos: int) -> Option<(bool, int)> {
    if 0 <= pos && pos + 1 <= s.len() && (s[pos] == 0 || s[pos] == 1) {
        Some((s[pos] == 1, pos + 1))
    } else {
        None
    }
}

/// Reads a length-prefixed UTF-8 string at `pos`.
pub open spec fn spec_read_string(s: Seq<u8>, pos: int) -> Option<(Seq<char>, int)> {
    match spec_read_u64(s, pos) {
        None => None,
        Some((len, p1)) => {
            if p1 + len <= s.len() {
                let bytes = s.subrange(p1, p1 + len);
                if valid_utf8(bytes) {
                    Some((decode_utf8(bytes), p1 + len))
                } else {
                    None
                }
            } else {
                None
            }
        },
    }
}

/// Reads one metadata record at `pos`.
pub open spec fn spec_read_metadata(s: Seq<u8>, pos: int) -> Option<(FileMetadata, int)> {
    match spec_read_u64(s, pos) {
        None => None,
        Some((secs, p1)) => match spec_read_u32(s, p1) {
            None => None,
            Some((nanos, p2)) => match spec_read_u64(s, p2) {
                None => None,
                Some((size, p3)) => match spec_read_flag(s, p3) {
                    None => None,
                    Some((is_dir, p4)) => Some(
                        (
                            FileMetadata {
                                last_modified_secs: secs,
                                last_modified_nanos: nanos,
                                size,
                                is_dir,
                            },
                            p4,
                        ),
                    ),
                },
            },
        },
    }
}

/// Reads one modelled entry at `pos`.
pub open spec fn spec_read_entry(s: Seq<u8>, pos: int) -> Option<
    ((Seq<char>, FileMetadata), int),
> {
    match spec_read_string(s, pos) {
        None => None,
        Some((p_chars, p1)) => match spec_read_metadata(s, p1) {
            None => None,
            Some((m, p2)) => Some(((p_chars, m), p2)),
        },
    }
}

/// Reads `count` modelled entries starting at `pos`.
pub open spec fn spec_read_entries(s: Seq<u8>, pos: int, count: nat) -> Option<
    (Seq<(Seq<char>, FileMetadata)>, int),
>
    decreases count,
{
    if count == 0 {
        Some((Seq::empty(), pos))
    } else {
        match spec_read_entry(s, pos) {
            None => None,
            Some((e, p1)) => match spec_read_entries(s, p1, (count - 1) as nat) {
                None => None,
                Some((rest, p2)) => Some((seq![e] + rest, p2)),
            },
        }
    }
}

/// Decodes a full byte string into the model of a tracker. Yields `None`
/// unless the whole string is one well-formed encoding with unique paths.
pub open spec fn spec_decode(s: Seq<u8>) -> Option<
    (Seq<char>, Seq<(Seq<char>, FileMetadata)>),
> {
    match spec_read_string(s, 0) {
        None => None,
        Some((root, p1)) => match spec_read_u64(s, p1) {
            None => None,
            Some((count, p2)) => match spec_read_entries(s, p2, count as nat) {
                None => None,
                Some((es, p3)) => {
                    if p3 == s.len() && spec_model_paths_unique(es) {
                        Some((root, es))
                    } else {
                        None
                    }
                },
            },
        },
    }
}

/// A subrange taken relative to `pos` equals the same subrange of the
/// extracted window.
proof fn lemma_subrange_of_window(s: Seq<u8>, pos: int, len: int, a: int, b: int)
    requires
        0 <= pos,
        pos + len <= s.len(),
        0 <= a <= b <= len,
    ensures
        s.subrange(pos + a, pos + b) == s.subrange(pos, pos + len).subrange(a, b),
{
    assert(s.subrange(pos + a, pos + b) =~= s.subrange(pos, pos + len).subrange(a, b));
}

/// Reading a `u64` where its encoding was written yields it back.
proof fn lemma_read_u64_at(s: Seq<u8>, pos: int, x: u64)
    requires
        0 <= pos,
        pos + 8 <= s.len(),
        s.subrange(pos, pos + 8) == spec_u64_to_le_bytes(x),
    ensures
        spec_read_u64(s, pos) == Some((x, pos + 8)),
{
    lemma_auto_spec_u64_to_from_le_bytes();
}

/// Reading a `u32` where its encoding was written yields it back.
proof fn lemma_read_u32_at(s: Seq<u8>, pos: int, x: u32)
    requires
        0 <= pos,
        pos + 4 <= s.len(),
        s.subrange(pos, pos + 4) == spec_u32_to_le_bytes(x),
    ensures
        spec_read_u32(s, pos) == Some((x, pos + 4)),
{
    lemma_auto_spec_u32_to_from_le_bytes();
    assert(spec_u32_to_le_bytes(x).len() == 4);
}

/// Reading a string where its length-prefixed encoding was written yields
/// its characters back.
proof fn lemma_read_string_at(s: Seq<u8>, pos: int, chars: Seq<char>)
    requires
        0 <= pos,
        encode_utf8(chars).len() <= u64::MAX,
        pos + 8 + encode_utf8(chars).len() <= s.len(),
        s.subrange(pos, pos + 8) == spec_u64_to_le_bytes(encode_utf8(chars).len() as u64),
        s.subrange(pos + 8, pos + 8 + encode_utf8(chars).len()) == encode_utf8(chars),
    ensures
        spec_read_string(s, pos) == Some((chars, pos + 8 + encode_utf8(chars).len())),
{
    broadcast use encode_utf8_valid_utf8, encode_utf8_decode_utf8;

    let pb = encode_utf8(chars);
    lemma_read_u64_at(s, pos, pb.len() as u64);
    assert(valid_utf8(pb));
    assert(decode_utf8(pb) == chars);
}

/// Reading metadata where its encoding was written yields it back.
proof fn lemma_read_metadata_at(s: Seq<u8>, pos: int, m: FileMetadata)
    requires
        0 <= pos,
        pos + 21 <= s.len(),
        s.subrange(pos, pos + 21) == spec_encode_metadata(m),
    ensures
        spec_read_metadata(s, pos) == Some((m, pos + 21)),
{
    lemma_auto_spec_u64_to_from_le_bytes();
    lemma_auto_spec_u32_to_from_le_bytes();
    let enc = spec_encode_metadata(m);
    let p1 = spec_u64_to_le_bytes(m.last_modified_secs);
    let p2 = spec_u32_to_le_bytes(m.last_modified_nanos);
    let p3 = spec_u64_to_le_bytes(m.size);
    let flag: u8 = if m.is_dir {
        1u8
    } else {
        0u8
    };
    assert(enc.len() == 21);
    lemma_subrange_of_window(s, pos, 21, 0, 8);
    assert(enc.subrange(0, 8) =~= p1);
    lemma_read_u64_at(s, pos, m.last_modified_secs);
    lemma_subrange_of_window(s, pos, 21, 8, 12);
    assert(enc.subrange(8, 12) =~= p2);
    lemma_read_u32_at(s, pos + 8, m.last_modified_nanos);
    lemma_subrange_of_window(s, pos, 21, 12, 20);
    assert(enc.subrange(12, 20) =~= p3);
    lemma_read_u64_at(s, pos + 12, m.size);
    assert(s[pos + 20] == enc[20]);
    assert(enc[20] == flag);
    assert(spec_read_flag(s, pos + 20) == Some((m.is_dir, pos + 21)));
}

/// Reading an entry where its encoding was written yields its model back.
proof fn lemma_read_entry_at(s: Seq<u8>, pos: int, e: FileEntry)
    requires
        0 <= pos,
        encode_utf8(e.path@).len() <= u64::MAX,
        pos + spec_entry_len(e) <= s.len(),
        s.subrange(pos, pos + spec_entry_len(e)) == spec_encode_entry(e),
    ensures
        spec_read_entry(s, pos) == Some((spec_entry_model(e), pos + spec_entry_len(e))),
{
    lemma_auto_spec_u64_to_from_le_bytes();
    lemma_auto_spec_u32_to_from_le_bytes();
    assert(spec_u32_to_le_bytes(e.metadata.last_modified_nanos).len() == 4);
    let pb = encode_utf8(e.path@);
    let pbl = pb.len() as int;
    let enc = spec_encode_entry(e);
    let elen = spec_entry_len(e);
    assert(spec_encode_metadata(e.metadata).len() == 21);
    assert(enc.len() == elen);
    lemma_subrange_of_window(s, pos, elen, 0, 8);
    assert(enc.subrange(0, 8) =~= spec_u64_to_le_bytes(pbl as u64));
    lemma_subrange_of_window(s, pos, elen, 8, 8 + pbl);
    assert(enc.subrange(8, 8 + pbl) =~= pb);
    lemma_read_string_at(s, pos, e.path@);
    lemma_subrange_of_window(s, pos, elen, 8 + pbl, elen);
    assert(enc.subrange(8 + pbl, elen) =~= spec_encode_metadata(e.metadata));
    lemma_read_metadata_at(s, pos + 8 + pbl, e.metadata);
}

/// Reading `es.len()` entries where their concatenated encodings were
/// written yields their models back.
proof fn lemma_read_entries_at(s: Seq<u8>, pos: int, es: Seq<FileEntry>)
    requires
        0 <= pos,
        forall|i: int|
            0 <= i < es.len() ==> encode_utf8((#[trigger] es[i]).path@).len() <= u64::MAX,
        pos + spec_encode_entries(es).len() <= s.len(),
        s.subrange(pos, pos + spec_encode_entries(es).len()) == spec_encode_entries(es),
    ensures
        spec_read_entries(s, pos, es.len()) == Some(
            (spec_entries_model(es), pos + spec_encode_entries(es).len()),
        ),
    decreases es.len(),
{
    if es.len() == 0 {
        assert(spec_entries_model(es) =~= Seq::<(Seq<char>, FileMetadata)>::empty());
    } else {
        let e0 = es[0];
        let head = spec_encode_entry(e0);
        let rest = es.drop_first();
        let tail = spec_encode_entries(rest);
        let total = spec_encode_entries(es);
        assert(total == head + tail);
        assert(spec_encode_metadata(e0.metadata).len() == 21) by {
            lemma_auto_spec_u64_to_from_le_bytes();
            lemma_auto_spec_u32_to_from_le_bytes();
        }
        assert(head.len() == spec_entry_len(e0)) by {
            lemma_auto_spec_u64_to_from_le_bytes();
        }
        lemma_subrange_of_window(s, pos, total.len() as int, 0, head.len() as int);
        assert(total.subrange(0, head.len() as int) =~= head);
        lemma_read_entry_at(s, pos, e0);
        lemma_subrange_of_window(s, pos, total.len() as int, head.len() as int, total.len() as int);
        assert(total.subrange(head.len() as int, total.len() as int) =~= tail);
        assert(forall|i: int|
            0 <= i < rest.len() ==> encode_utf8((#[trigger] rest[i]).path@).len() <= u64::MAX);
        lemma_read_entries_at(s, pos + head.len(), rest);
        assert(es.len() == rest.len() + 1);
        assert(spec_entries_model(es) =~= seq![spec_entry_model(e0)] + spec_entries_model(rest));
    }
}

/// Law: decoding an encoded tracker yields exactly that tracker's model —
/// persisted state round-trips through save and load.
pub proof fn lemma_codec_round_trip(t: FileTracker)
    requires
        t.wf(),
        spec_encodable(t),
    ensures
        spec_decode(spec_encode_tracker(t)) == Some(
            (t.root_target@, spec_entries_model(t.files_state.entries@)),
        ),
{
    lemma_auto_spec_u64_to_from_le_bytes();
    let rb = encode_utf8(t.root_target@);
    let rbl = rb.len() as int;
    let es = t.files_state.entries@;
    let cnt = spec_u64_to_le_bytes(es.len() as u64);
    let body = spec_encode_entries(es);
    let s = spec_encode_tracker(t);
    assert(s == spec_u64_to_le_bytes(rbl as u64) + rb + cnt + body);
    assert(s.len() == 8 + rbl + 8 + body.len());
    assert(s.subrange(0, 8) =~= spec_u64_to_le_bytes(rbl as u64));
    assert(s.subrange(8, 8 + rbl) =~= rb);
    lemma_read_string_at(s, 0, t.root_target@);
    assert(s.subrange(8 + rbl, 16 + rbl) =~= cnt);
    lemma_read_u64_at(s, 8 + rbl, es.len() as u64);
    assert(s.subrange(16 + rbl, s.len() as int) =~= body);
    lemma_read_entries_at(s, 16 + rbl, es);
    assert((es.len() as u64) as nat == es.len());
    let model = spec_entries_model(es);
    assert(spec_model_paths_unique(model)) by {
        assert(forall|i: int| 0 <= i < es.len() ==> model[i].0 == (#[trigger] es[i]).path@);
    }
}

#[verifier::external_type_specification]
#[verifier::external_body]
pub struct ExFromUtf8Error(std::string::FromUtf8Error);

/// Relies on String::from_utf8: valid UTF-8 bytes yield the string whose
/// bytes they are — its characters are their decoding — and invalid bytes
/// are rejected.
pub assume_specification[ String::from_utf8 ](v: Vec<u8>) -> (r: Result<
    String,
    std::string::FromUtf8Error,
>)
    ensures
        valid_utf8(v@) ==> r is Ok && r->Ok_0@ == decode_utf8(v@),
        !valid_utf8(v@) ==> r is Err,
;

/// Appends the little-endian encoding of a `u64`.
fn push_u64(out: &mut Vec<u8>, x: u64)
    ensures
        final(out)@ == old(out)@ + spec_u64_to_le_bytes(x),
{
    let mut b = u64_to_le_bytes(x);
    out.append(&mut b);
}

/// Appends the little-endian encoding of a `u32`.
fn push_u32(out: &mut Vec<u8>, x: u32)
    ensures
        final(out)@ == old(out)@ + spec_u32_to_le_bytes(x),
{
    let mut b = u32_to_le_bytes(x);
    out.append(&mut b);
}

/// Appends a length-prefixed string as UTF-8 bytes.
fn push_string(out: &mut Vec<u8>, s: &String)
    ensures
        final(out)@ == old(out)@ + spec_u64_to_le_bytes(encode_utf8(s@).len() as u64)
            + encode_utf8(s@),
        encode_utf8(s@).len() <= u64::MAX,
{
    let b: &[u8] = s.as_str().as_bytes();
    push_u64(out, b.len() as u64);
    let mut v = vstd::slice::slice_to_vec(b);
    out.append(&mut v);
}

/// Appends the encoding of one metadata record.
fn push_metadata(out: &mut Vec<u8>, m: &FileMetadata)
    ensures
        final(out)@ == old(out)@ + spec_encode_metadata(*m),
{
    let ghost pre = out@;
    push_u64(out, m.last_modified_secs);
    push_u32(out, m.last_modified_nanos);
    push_u64(out, m.size);
    if m.is_dir {
        out.push(1u8);
    } else {
        out.push(0u8);
    }
    proof {
        assert(out@ =~= pre + spec_encode_metadata(*m));
    }
}

/// Appends the encoding of one entry.
fn push_entry(out: &mut Vec<u8>, e: &FileEntry)
    ensures
        final(out)@ == old(out)@ + spec_encode_entry(*e),
        encode_utf8(e.path@).len() <= u64::MAX,
{
    let ghost pre = out@;
    push_string(out, &e.path);
    push_metadata(out, &e.metadata);
    proof {
        assert(out@ =~= pre + spec_encode_entry(*e));
    }
}

/// The concatenated entry encodings grow at the back, one entry at a time.
proof fn lemma_encode_entries_snoc(es: Seq<FileEntry>)
    requires
        es.len() > 0,
    ensures
        spec_encode_entries(es) == spec_encode_entries(es.drop_last()) + spec_encode_entry(
            es.last(),
        ),
    decreases es.len(),
{
    if es.len() == 1 {
        assert(es.drop_first() =~= Seq::<FileEntry>::empty());
        assert(es.drop_last() =~= Seq::<FileEntry>::empty());
        assert(spec_encode_entries(es) =~= spec_encode_entries(es.drop_last())
            + spec_encode_entry(es.last()));
    } else {
        let rest = es.drop_first();
        lemma_encode_entries_snoc(rest);
        assert(es.drop_last().len() > 0);
        assert(es.drop_last()[0] == es[0]);
        assert(es.drop_last().drop_first() =~= rest.drop_last());
        assert(rest.last() == es.last());
        assert(spec_encode_entries(es) =~= spec_encode_entries(es.drop_last())
            + spec_encode_entry(es.last()));
    }
}

impl FileTracker {
    /// Serializes the tracker — root path and complete snapshot — into the
    /// byte string that [`FileTracker::get`] decodes back.
    pub fn save(&self) -> (out: Vec<u8>)
        ensures
            out@ == spec_encode_tracker(*self),
            spec_encodable(*self),
    {
        let mut out: Vec<u8> = Vec::new();
        push_string(&mut out, &self.root_target);
        push_u64(&mut out, self.files_state.entries.len() as u64);
        let ghost head = out@;
        let ghost es = self.files_state.entries@;
        let n: usize = self.files_state.entries.len();
        let mut i: usize = 0;
        while i < n
            invariant
                n == es.len(),
                es == self.files_state.entries@,
                0 <= i <= n,
                out@ == head + spec_encode_entries(es.take(i as int)),
                forall|k: int|
                    0 <= k < i ==> encode_utf8((#[trigger] es[k]).path@).len() <= u64::MAX,
            decreases n - i,
        {
            push_entry(&mut out, &self.files_state.entries[i]);
            proof {
                let t1 = es.take(i + 1);
                assert(t1.drop_last() =~= es.take(i as int));
                assert(t1.last() == es[i as int]);
                lemma_encode_entries_snoc(t1);
                assert(out@ =~= head + spec_encode_entries(t1));
            }
            i = i + 1;
        }
        proof {
            assert(es.take(n as int) =~= es);
            assert(out@ =~= spec_encode_tracker(*self));
            assert(es.len() <= u64::MAX);
        }
        out
    }
}

/// Reads a little-endian `u64` at `pos`.
fn read_u64(bytes: &[u8], pos: usize) -> (r: Option<(u64, usize)>)
    ensures
        match r {
            Some(v) => spec_read_u64(bytes@, pos as int) == Some((v.0, v.1 as int)),
            None => spec_read_u64(bytes@, pos as int) is None,
        },
{
    if bytes.len() >= 8 && pos <= bytes.len() - 8 {
        let sub = vstd::slice::slice_subrange(bytes, pos, pos + 8);
        Some((u64_from_le_bytes(sub), pos + 8))
    } else {
        None
    }
}

/// Reads a little-endian `u32` at `pos`.
fn read_u32(bytes: &[u8], pos: usize) -> (r: Option<(u32, usize)>)
    ensures
        match r {
            Some(v) => spec_read_u32(bytes@, pos as int) == Some((v.0, v.1 as int)),
            None => spec_read_u32(bytes@, pos as int) is None,
        },
{
    if bytes.len() >= 4 && pos <= bytes.len() - 4 {
        let sub = vstd::slice::slice_subrange(bytes, pos, pos + 4);
        Some((u32_from_le_bytes(sub), pos + 4))
    } else {
        None
    }
}

/// Reads a directory flag byte at `pos`.
fn read_flag(bytes: &[u8], pos: usize) -> (r: Option<(bool, usize)>)
    ensures
        match r {
            Some(v) => spec_read_flag(bytes@, pos as int) == Some((v.0, v.1 as int)),
            None => spec_read_flag(bytes@, pos as int) is None,
        },
{
    if pos < bytes.len() {
        let b = *vstd::slice::slice_index_get(bytes, pos);
        if b == 0 {
            Some((false, pos + 1))
        } else if b == 1 {
            Some((true, pos + 1))
        } else {
            None
        }
    } else {
        None
    }
}

/// Reads a length-prefixed UTF-8 string at `pos`.
fn read_string(bytes: &[u8], pos: usize) -> (r: Option<(String, usize)>)
    ensures
        match r {
            Some(v) => spec_read_string(bytes@, pos as int) == Some((v.0@, v.1 as int)),
            None => spec_read_string(bytes@, pos as int) is None,
        },
{
    match read_u64(bytes, pos) {
        None => None,
        Some((len, p1)) => {
            if len <= (bytes.len() - p1) as u64 {
                let l = len as usize;
                let sub = vstd::slice::slice_subrange(bytes, p1, p1 + l);
                let v = vstd::slice::slice_to_vec(sub);
                match String::from_utf8(v) {
                    Ok(s) => Some((s, p1 + l)),
                    Err(_) => None,
                }
            } else {
                None
            }
        },
    }
}

/// Reads one metadata record at `pos`.
fn read_metadata(bytes: &[u8], pos: usize) -> (r: Option<(FileMetadata, usize)>)
    ensures
        match r {
            Some(v) => spec_read_metadata(bytes@, pos as int) == Some((v.0, v.1 as int)),
            None => spec_read_metadata(bytes@, pos as int) is None,
        },
{
    match read_u64(bytes, pos) {
        None => None,
        Some((secs, p1)) => match read_u32(bytes, p1) {
            None => None,
            Some((nanos, p2)) => match read_u64(bytes, p2) {
                None => None,
                Some((size, p3)) => match read_flag(bytes, p3) {
                    None => None,
                    Some((is_dir, p4)) => Some(
                        (
                            FileMetadata {
                                last_modified_secs: secs,
                                last_modified_nanos: nanos,
                                size,
                                is_dir,
                            },
                            p4,
                        ),
                    ),
                },
            },
        },
    }
}

/// Reads one entry at `pos`.
fn read_entry(bytes: &[u8], pos: usize) -> (r: Option<(FileEntry, usize)>)
    ensures
        match r {
            Some(v) => spec_read_entry(bytes@, pos as int) == Some(
                (spec_entry_model(v.0), v.1 as int),
            ),
            None => spec_read_entry(bytes@, pos as int) is None,
        },
{
    match read_string(bytes, pos) {
        None => None,
        Some((path, p1)) => match read_metadata(bytes, p1) {
            None => None,
            Some((metadata, p2)) => Some((FileEntry { path, metadata }, p2)),
        },
    }
}

/// Composes already-read entry models with the outcome of reading the rest.
spec fn spec_prepend(
    done: Seq<(Seq<char>, FileMetadata)>,
    r: Option<(Seq<(Seq<char>, FileMetadata)>, int)>,
) -> Option<(Seq<(Seq<char>, FileMetadata)>, int)> {
    match r {
        None => None,
        Some((rest, p)) => Some((done + rest, p)),
    }
}

/// Returns whether no two entries carry the same path.
fn paths_unique(entries: &Vec<FileEntry>) -> (r: bool)
    ensures
        r == forall|i: int, j: int|
            0 <= i < j < entries@.len() ==> (#[trigger] entries@[i]).path@ != (
            #[trigger] entries@[j]).path@,
{
    let n: usize = entries.len();
    let mut i: usize = 0;
    while i < n
        invariant
            n == entries@.len(),
            0 <= i <= n,
            forall|a: int, b: int|
                0 <= a < b < n && a < i ==> (#[trigger] entries@[a]).path@ != (
                #[trigger] entries@[b]).path@,
        decreases n - i,
    {
        let mut j: usize = i + 1;
        while j < n
            invariant
                n == entries@.len(),
                0 <= i < j <= n,
                forall|b: int| i < b < j ==> (#[trigger] entries@[b]).path@ != entries@[i as int].path@,
            decreases n - j,
        {
            if entries[i].path == entries[j].path {
                return false;
            }
            j = j + 1;
        }
        i = i + 1;
    }
    true
}

impl FileTracker {
    /// Deserializes a tracker from the byte string [`FileTracker::save`]
    /// produced. Succeeds on exactly the well-formed encodings; every other
    /// byte string is rejected with `SerializationError`.
    pub fn decode(bytes: &[u8]) -> (r: Result<FileTracker, FileTrackerError>)
        ensures
            match r {
                Ok(t) => t.wf() && spec_decode(bytes@) == Some(
                    (t.root_target@, spec_entries_model(t.files_state.entries@)),
                ),
                Err(e) => spec_decode(bytes@) is None && e is SerializationError,
            },
    {
        let (root, p1) = match read_string(bytes, 0) {
            Some(v) => v,
            None => {
                return Err(
                    FileTrackerError::SerializationError("invalid state data".to_owned()),
                );
            },
        };
        let (count, p2) = match read_u64(bytes, p1) {
            Some(v) => v,
            None => {
                return Err(
                    FileTrackerError::SerializationError("invalid state data".to_owned()),
                );
            },
        };
        let ghost s = bytes@;
        let mut entries: Vec<FileEntry> = Vec::new();
        let mut pos: usize = p2;
        let mut i: u64 = 0;
        proof {
            if spec_read_entries(s, p2 as int, count as nat) is Some {
                let (rest, pe) = spec_read_entries(s, p2 as int, count as nat)->Some_0;
                assert(spec_entries_model(entries@) + rest =~= rest);
            }
            assert(spec_read_entries(s, p2 as int, count as nat) == spec_prepend(
                spec_entries_model(entries@),
                spec_read_entries(s, pos as int, (count - i) as nat),
            ));
        }
        while i < count
            invariant
                s == bytes@,
                0 <= i <= count,
                spec_read_string(s, 0) == Some((root@, p1 as int)),
                spec_read_u64(s, p1 as int) == Some((count, p2 as int)),
                spec_read_entries(s, p2 as int, count as nat) == spec_prepend(
                    spec_entries_model(entries@),
                    spec_read_entries(s, pos as int, (count - i) as nat),
                ),
            decreases count - i,
        {
            let ghost pre_model = spec_entries_model(entries@);
            let ghost pos_old = pos as int;
            let ghost m = (count - i) as nat;
            match read_entry(bytes, pos) {
                Some((e, p)) => {
                    let ghost e_model = spec_entry_model(e);
                    entries.push(e);
                    pos = p;
                    i = i + 1;
                    proof {
                        assert(spec_entries_model(entries@) =~= pre_model + seq![e_model]);
                        let r_rest = spec_read_entries(s, p as int, (m - 1) as nat);
                        assert(spec_read_entries(s, pos_old, m) == spec_prepend(
                            seq![e_model],
                            r_rest,
                        ));
                        assert((count - i) as nat == (m - 1) as nat);
                        match r_rest {
                            None => {
                                assert(spec_prepend(
                                    pre_model,
                                    spec_read_entries(s, pos_old, m),
                                ) is None);
                            },
                            Some((rest, pe)) => {
                                assert(pre_model + (seq![e_model] + rest) =~= (pre_model
                                    + seq![e_model]) + rest);
                            },
                        }
                    }
                },
                None => {
                    proof {
                        assert(m > 0);
                        assert(spec_read_entries(s, pos_old, m) is None);
                        assert(spec_read_entries(s, p2 as int, count as nat) is None);
                        assert(spec_decode(s) is None);
                    }
                    return Err(
                        FileTrackerError::SerializationError("invalid state data".to_owned()),
                    );
                },
            }
        }
        proof {
            assert(spec_read_entries(s, pos as int, 0) == Some(
                (Seq::<(Seq<char>, FileMetadata)>::empty(), pos as int),
            ));
            assert(spec_entries_model(entries@) + Seq::<(Seq<char>, FileMetadata)>::empty()
                =~= spec_entries_model(entries@));
        }
        if pos != bytes.len() {
            return Err(FileTrackerError::SerializationError("invalid state data".to_owned()));
        }
        let unique = paths_unique(&entries);
        proof {
            let model = spec_entries_model(entries@);
            assert forall|a: int, b: int|
                0 <= a < b < model.len() implies (model[a].0 == (
            #[trigger] entries@[a]).path@ && model[b].0 == (#[trigger] entries@[b]).path@) by {}
        }
        if !unique {
            return Err(FileTrackerError::SerializationError("invalid state data".to_owned()));
        }
        Ok(FileTracker { root_target: root, files_state: Snapshot { entries } })
    }

    /// Decodes persisted state handed in by the caller: `None` stands for a
    /// missing state file and fails with `NotFound`; present bytes that do
    /// not decode fail with `SerializationError`; well-formed bytes always
    /// succeed.
    pub fn get(contents: Option<&[u8]>) -> (r: Result<FileTracker, FileTrackerError>)
        ensures
            match r {
                Ok(t) => contents is Some && t.wf() && spec_decode(contents->Some_0@) == Some(
                    (t.root_target@, spec_entries_model(t.files_state.entries@)),
                ),
                Err(e) => match contents {
                    None => e is NotFound,
                    Some(b) => spec_decode(b@) is None && e is SerializationError,
                },
            },
            (contents matches Some(b) && spec_decode(b@) is Some) ==> r is Ok,
    {
        match contents {
            None => Err(FileTrackerError::NotFound),
            Some(b) => FileTracker::decode(b),
        }
    }

    /// Monitoring counts as active exactly when persisted state exists and
    /// decodes: `contents` is the state file's bytes, or `None` when the
    /// file does not exist.
    pub fn is_monitoring_active(contents: Option<&[u8]>) -> (r: bool)
        ensures
            r == (contents matches Some(b) && spec_decode(b@) is Some),
    {
        match FileTracker::get(contents) {
            Ok(_) => true,
            Err(_) => false,
        }
    }
}

} // verus!

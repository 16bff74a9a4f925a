//! The recovery journal: what an interrupted upload synchronisation has done.
use std::collections::BTreeSet;
use vstd::prelude::*;

use crate::framing::{be32, framed, push_be32, push_framed};
use crate::outside::{digest_of, hex_encode, hex_text, sha3_256};
use crate::sync::arrange::views;
use crate::sync::planner::{PlanAction, PlanStep};
use crate::text::{cat2, owned, same_bytes, same_text, utf8};

verus! {

broadcast use vstd::std_specs::btree::group_btree_axioms;

/// The version of the journal's format.
pub const JOURNAL_VERSION: u8 = 2;

/// How far an action is.
#[derive(Clone, Copy, Debug, PartialEq, Eq, Structural)]
pub enum ActionState {
    Pending,
    InProgress,
    Completed,
}

/// What an action does.
#[derive(Clone, Copy, Debug, PartialEq, Eq, Structural)]
pub enum ActionKind {
    CreateDirectory,
    UploadFile,
    ReplaceFile,
    DeleteFile,
    DeleteDirectory,
}

/// The chunks from `start` to `end`, both among them.
#[derive(Clone, Copy, Debug, PartialEq, Eq, Structural)]
pub struct ChunkRange {
    pub start: u32,
    pub end: u32,
}

/// Whether a range holds a chunk.
pub open spec fn in_range(range: ChunkRange, chunk: u32) -> bool {
    range.start <= chunk <= range.end
}

/// The chunks that a list of ranges holds.
pub open spec fn covered(ranges: Seq<ChunkRange>) -> Set<u32> {
    Set::new(|chunk: u32| exists|i: int| 0 <= i < ranges.len() && in_range(#[trigger] ranges[i], chunk))
}

/// The ranges are not empty, come in increasing order, and at least one chunk
/// is missing between each and the next.
pub open spec fn compact(ranges: Seq<ChunkRange>) -> bool {
    &&& forall|i: int| 0 <= i < ranges.len() ==> (#[trigger] ranges[i]).start <= ranges[i].end
    &&& forall|i: int, j: int| 0 <= i < j < ranges.len() ==> (#[trigger] ranges[i]).end + 1 < (#[trigger] ranges[j]).start
}

proof fn lemma_covered_push(ranges: Seq<ChunkRange>, range: ChunkRange)
    ensures
        forall|chunk: u32| #[trigger] covered(ranges.push(range)).contains(chunk) <==> covered(ranges).contains(chunk)
            || in_range(range, chunk),
{
    let all = ranges.push(range);
    assert forall|chunk: u32| #[trigger] covered(all).contains(chunk) <==> covered(ranges).contains(chunk)
        || in_range(range, chunk) by {
        if covered(ranges).contains(chunk) {
            let i = choose|i: int| 0 <= i < ranges.len() && in_range(#[trigger] ranges[i], chunk);
            assert(in_range(all[i], chunk));
        }
        if in_range(range, chunk) {
            assert(in_range(all[ranges.len() as int], chunk));
        }
        if covered(all).contains(chunk) {
            let i = choose|i: int| 0 <= i < all.len() && in_range(#[trigger] all[i], chunk);
            if i < ranges.len() {
                assert(in_range(ranges[i], chunk));
            }
        }
    }
}

/// A set is walked in increasing order.
proof fn lemma_set_order(chunks: &BTreeSet<u32>)
    ensures
        forall|i: int, j: int|
            0 <= i < j < vstd::std_specs::iter::IteratorSpec::remaining(&vstd::std_specs::btree::spec_btree_keys_iter(chunks)).len()
                ==> *vstd::std_specs::iter::IteratorSpec::remaining(&vstd::std_specs::btree::spec_btree_keys_iter(chunks))[i]
                < *vstd::std_specs::iter::IteratorSpec::remaining(&vstd::std_specs::btree::spec_btree_keys_iter(chunks))[j],
{
    broadcast use vstd::laws_cmp::group_laws_cmp;

    let order = vstd::std_specs::iter::IteratorSpec::remaining(&vstd::std_specs::btree::spec_btree_keys_iter(chunks));
    assert(vstd::laws_cmp::obeys_cmp::<u32>());
    assert(vstd::std_specs::btree::increasing_seq(order));
    vstd::std_specs::btree::axiom_increasing_seq_meaning(order);
    assert forall|i: int, j: int| 0 <= i < j < order.len() implies *order[i] < *order[j] by {
        assert(vstd::std_specs::cmp::OrdSpec::cmp_spec(&order[i], &order[j]) is Less);
    }
}

/// The ranges of a set of chunks, as few as possible.
pub fn chunk_ranges(chunks: &BTreeSet<u32>) -> (r: Vec<ChunkRange>)
    ensures
        compact(r@),
        covered(r@) == chunks@,
{
    let mut ranges: Vec<ChunkRange> = Vec::new();
    proof {
        lemma_set_order(chunks);
    }
    let ghost mut seen: Seq<u32> = Seq::empty();
    for chunk in it: chunks.iter()
        invariant
            it.seq().unref().to_set() == chunks@,
            seen == it.seq().unref().take(it.index() as int),
            it.index() == it.seq().len() ==> seen.to_set() == chunks@,
            forall|i: int, j: int| 0 <= i < j < it.seq().len() ==> *it.seq()[i] < *it.seq()[j],
            compact(ranges@),
            covered(ranges@) == seen.to_set(),
            ranges@.len() > 0 ==> seen.len() > 0 && ranges@.last().end == seen.last(),
            ranges@.len() == 0 ==> seen.len() == 0,
    {
        let ghost before = ranges@;
        let n: usize = ranges.len();
        let value: u32 = *chunk;
        if n > 0 && ranges[n - 1].end.saturating_add(1) == value {
            let start: u32 = ranges[n - 1].start;
            ranges.set(n - 1, ChunkRange { start, end: value });
        } else {
            ranges.push(ChunkRange { start: value, end: value });
        }
        proof {
            if n > 0 && before[n - 1].end.saturating_add(1) == value {
                let rest = before.drop_last();
                assert(before =~= rest.push(before.last()));
                assert(ranges@ =~= rest.push(ranges@.last()));
                lemma_covered_push(rest, before.last());
                lemma_covered_push(rest, ranges@.last());
            } else {
                lemma_covered_push(before, ranges@.last());
            }
            let next = seen.push(value);
            assert(next =~= it.seq().unref().take(it.index() + 1));
            assert(next.to_set() =~= seen.to_set().insert(value)) by {
                assert forall|chunk: u32| next.to_set().contains(chunk) <==> seen.to_set().insert(value).contains(chunk) by {
                    if seen.contains(chunk) {
                        let i = seen.index_of(chunk);
                        assert(next[i] == chunk);
                    }
                    if chunk == value {
                        assert(next[seen.len() as int] == chunk);
                    }
                    if next.contains(chunk) {
                        let i = next.index_of(chunk);
                        if i < seen.len() {
                            assert(seen[i] == chunk);
                        }
                    }
                }
            }
            assert(covered(ranges@) =~= next.to_set());
            if it.index() + 1 == it.seq().len() {
                assert(next =~= it.seq().unref());
            }
            seen = next;
        }
    }
    ranges
}

proof fn lemma_covered_remove(ranges: Seq<ChunkRange>, at: int)
    requires
        0 <= at < ranges.len(),
    ensures
        forall|chunk: u32| #[trigger] covered(ranges).contains(chunk) <==> covered(ranges.remove(at)).contains(chunk)
            || in_range(ranges[at], chunk),
{
    let rest = ranges.remove(at);
    assert forall|chunk: u32| #[trigger] covered(ranges).contains(chunk) <==> covered(rest).contains(chunk) || in_range(
        ranges[at],
        chunk,
    ) by {
        if covered(rest).contains(chunk) {
            let i = choose|i: int| 0 <= i < rest.len() && in_range(#[trigger] rest[i], chunk);
            if i < at {
                assert(in_range(ranges[i], chunk));
            } else {
                assert(in_range(ranges[i + 1], chunk));
            }
        }
        if covered(ranges).contains(chunk) {
            let i = choose|i: int| 0 <= i < ranges.len() && in_range(#[trigger] ranges[i], chunk);
            if i < at {
                assert(in_range(rest[i], chunk));
            } else if i > at {
                assert(in_range(rest[i - 1], chunk));
            }
        }
    }
}

/// The range from the lower start to the higher end of two ranges.
pub open spec fn joined_range(a: ChunkRange, b: ChunkRange) -> ChunkRange {
    ChunkRange {
        start: if b.start < a.start {
            b.start
        } else {
            a.start
        },
        end: if b.end > a.end {
            b.end
        } else {
            a.end
        },
    }
}

/// A list of ranges with one more: it goes before the first range that lies
/// above it, and is joined with every range on the way there that it touches.
pub open spec fn range_inserted(ranges: Seq<ChunkRange>, range: ChunkRange) -> Seq<ChunkRange>
    decreases ranges.len(),
{
    if ranges.len() == 0 {
        seq![range]
    } else if ranges[0].end + 1 < range.start {
        seq![ranges[0]] + range_inserted(ranges.drop_first(), range)
    } else if range.end + 1 < ranges[0].start {
        seq![range] + ranges
    } else {
        range_inserted(ranges.drop_first(), joined_range(range, ranges[0]))
    }
}

/// Adds a chunk to a list of ranges, joining the ranges that it makes touch.
pub fn insert_chunk(ranges: &mut Vec<ChunkRange>, chunk: u32)
    ensures
        final(ranges)@ == range_inserted(old(ranges)@, (ChunkRange { start: chunk, end: chunk })),
        covered(final(ranges)@) == covered(old(ranges)@).insert(chunk),
        compact(old(ranges)@) ==> compact(final(ranges)@),
{
    let ghost orig = ranges@;
    let ghost target = covered(orig).insert(chunk);
    let mut merged = ChunkRange { start: chunk, end: chunk };
    let mut index: usize = 0;
    let mut open = true;
    assert(ranges@.skip(0) =~= ranges@);
    assert(ranges@.take(0) =~= Seq::empty());
    assert(Seq::<ChunkRange>::empty() + range_inserted(orig, merged) =~= range_inserted(orig, merged));
    while open && index < ranges.len()
        invariant
            index <= ranges@.len(),
            merged.start <= merged.end,
            target == covered(orig).insert(chunk),
            forall|c: u32| #[trigger] target.contains(c) <==> covered(ranges@).contains(c) || in_range(merged, c),
            range_inserted(orig, ChunkRange { start: chunk, end: chunk }) == ranges@.take(index as int)
                + range_inserted(ranges@.skip(index as int), merged),
            !open ==> index < ranges@.len() && ranges@[index as int].end + 1 >= merged.start && merged.end + 1
                < ranges@[index as int].start,
            compact(orig) ==> compact(ranges@),
            compact(orig) ==> forall|i: int| 0 <= i < index ==> (#[trigger] ranges@[i]).end + 1 < merged.start,
            compact(orig) && !open ==> forall|i: int|
                index <= i < ranges@.len() ==> merged.end + 1 < (#[trigger] ranges@[i]).start,
        decreases (if open { 1int } else { 0int }) + ranges@.len() - index,
    {
        let ghost rest = ranges@.skip(index as int);
        assert(rest[0] == ranges@[index as int]);
        if ranges[index].end.saturating_add(1) < merged.start {
            proof {
                assert(rest.drop_first() =~= ranges@.skip(index + 1));
                assert(ranges@.take(index + 1) =~= ranges@.take(index as int) + seq![rest[0]]);
                assert(ranges@.take(index as int) + (seq![rest[0]] + range_inserted(rest.drop_first(), merged))
                    =~= ranges@.take(index + 1) + range_inserted(rest.drop_first(), merged));
            }
            index += 1;
        } else if merged.end.saturating_add(1) < ranges[index].start {
            open = false;
        } else {
            let ghost before = ranges@;
            let ghost old_merged = merged;
            let existing = ranges.remove(index);
            proof {
                lemma_covered_remove(before, index as int);
                assert(ranges@.take(index as int) =~= before.take(index as int));
                assert(ranges@.skip(index as int) =~= rest.drop_first());
            }
            if existing.start < merged.start {
                merged.start = existing.start;
            }
            if existing.end > merged.end {
                merged.end = existing.end;
            }
            assert forall|c: u32| in_range(merged, c) <==> in_range(old_merged, c) || in_range(existing, c) by {}
            assert(merged == joined_range(old_merged, existing));
        }
    }
    let ghost before = ranges@;
    ranges.insert(index, merged);
    proof {
        if index < before.len() {
            assert(before.skip(index as int)[0] == before[index as int]);
        }
        assert(ranges@ =~= before.take(index as int) + (seq![merged] + before.skip(index as int)));
        assert(ranges@.remove(index as int) =~= before);
        lemma_covered_remove(ranges@, index as int);
        assert(covered(ranges@) =~= target);
    }
}

/// Two compact lists that hold the same chunks are the same list: the ranges of
/// a set of chunks are determined by the set.
pub proof fn law_compact_ranges_are_unique(a: Seq<ChunkRange>, b: Seq<ChunkRange>)
    requires
        compact(a),
        compact(b),
        covered(a) == covered(b),
    ensures
        a == b,
    decreases a.len(),
{
    if a.len() == 0 {
        if b.len() > 0 {
            assert(in_range(b[0], b[0].start));
            assert(covered(b).contains(b[0].start));
        }
        assert(a =~= b);
    } else {
        assert(in_range(a[0], a[0].start));
        assert(covered(a).contains(a[0].start));
        let j = choose|j: int| 0 <= j < b.len() && in_range(#[trigger] b[j], a[0].start);
        assert(in_range(b[0], b[0].start));
        assert(covered(b).contains(b[0].start));
        let i = choose|i: int| 0 <= i < a.len() && in_range(#[trigger] a[i], b[0].start);
        assert(a[0].start == b[0].start);
        lemma_first_range_ends_first(a, b);
        lemma_first_range_ends_first(b, a);
        assert(a[0] == b[0]);
        let x = a.drop_first();
        let y = b.drop_first();
        assert(a.remove(0) =~= x);
        assert(b.remove(0) =~= y);
        lemma_covered_remove(a, 0);
        lemma_covered_remove(b, 0);
        lemma_rest_apart(a);
        lemma_rest_apart(b);
        assert forall|c: u32| covered(x).contains(c) <==> covered(y).contains(c) by {
            assert(covered(a).contains(c) <==> covered(x).contains(c) || in_range(a[0], c));
            assert(covered(b).contains(c) <==> covered(y).contains(c) || in_range(b[0], c));
            assert(covered(x).contains(c) ==> !in_range(a[0], c));
            assert(covered(y).contains(c) ==> !in_range(b[0], c));
        }
        assert(covered(x) =~= covered(y));
        law_compact_ranges_are_unique(x, y);
        assert(a =~= seq![a[0]] + x);
        assert(b =~= seq![b[0]] + y);
    }
}

proof fn lemma_rest_apart(a: Seq<ChunkRange>)
    requires
        compact(a),
        a.len() > 0,
    ensures
        compact(a.drop_first()),
        forall|c: u32| #[trigger] covered(a.drop_first()).contains(c) ==> !in_range(a[0], c),
{
    let x = a.drop_first();
    assert forall|i: int| 0 <= i < x.len() implies x[i] == a[i + 1] by {}
    assert forall|c: u32| #[trigger] covered(x).contains(c) implies !in_range(a[0], c) by {
        let i = choose|i: int| 0 <= i < x.len() && in_range(#[trigger] x[i], c);
        assert(x[i] == a[i + 1]);
        assert(a[0].end + 1 < a[i + 1].start);
    }
}

proof fn lemma_first_range_ends_first(a: Seq<ChunkRange>, b: Seq<ChunkRange>)
    requires
        compact(a),
        compact(b),
        a.len() > 0,
        b.len() > 0,
        covered(a) == covered(b),
        a[0].start == b[0].start,
    ensures
        a[0].end <= b[0].end,
{
    if a[0].end > b[0].end {
        let next = (b[0].end + 1) as u32;
        assert(in_range(a[0], next));
        assert(covered(a).contains(next));
        let j = choose|j: int| 0 <= j < b.len() && in_range(#[trigger] b[j], next);
        if j > 0 {
            assert(b[0].end + 1 < b[j].start);
        }
    }
}

/// In whatever order chunks are added, and however often, a compact list ends
/// up the same.
pub proof fn law_chunks_may_come_in_any_order(start: Seq<ChunkRange>, a: Seq<ChunkRange>, b: Seq<ChunkRange>, x: u32, y: u32)
    requires
        compact(a),
        compact(b),
        covered(a) == covered(start).insert(x).insert(y),
        covered(b) == covered(start).insert(y).insert(x).insert(y),
    ensures
        a == b,
{
    assert(covered(a) =~= covered(b));
    law_compact_ranges_are_unique(a, b);
}

/// How far the upload of a file is: what it was begun with, its session, and
/// the chunks that are stored.
#[derive(Clone, Debug)]
pub struct UploadCheckpoint {
    pub fingerprint: Vec<u8>,
    pub begin_request_id: Vec<u8>,
    pub session_id: Option<Vec<u8>>,
    pub uploaded_ranges: Vec<ChunkRange>,
}

/// The mathematical form of a checkpoint.
pub struct Checkpoint {
    pub fingerprint: Seq<u8>,
    pub begin_request_id: Seq<u8>,
    pub session_id: Option<Seq<u8>>,
    pub uploaded_ranges: Seq<ChunkRange>,
}

/// The view of an optional byte string.
pub open spec fn optional_bytes(bytes: Option<Vec<u8>>) -> Option<Seq<u8>> {
    match bytes {
        Some(bytes) => Some(bytes@),
        None => None,
    }
}

impl View for UploadCheckpoint {
    type V = Checkpoint;

    open spec fn view(&self) -> Checkpoint {
        Checkpoint {
            fingerprint: self.fingerprint@,
            begin_request_id: self.begin_request_id@,
            session_id: optional_bytes(self.session_id),
            uploaded_ranges: self.uploaded_ranges@,
        }
    }
}

/// A copy of a byte slice.
pub fn copied_bytes(bytes: &[u8]) -> (r: Vec<u8>)
    ensures
        r@ == bytes@,
{
    let mut r: Vec<u8> = Vec::new();
    for i in 0..bytes.len()
        invariant
            r@ == bytes@.take(i as int),
    {
        r.push(bytes[i]);
        assert(bytes@.take(i + 1) =~= bytes@.take(i as int).push(bytes@[i as int]));
    }
    assert(bytes@.take(bytes@.len() as int) =~= bytes@);
    r
}

impl UploadCheckpoint {
    /// A copy of the checkpoint.
    pub fn duplicate(&self) -> (r: UploadCheckpoint)
        ensures
            r@ == self@,
    {
        let session_id = match &self.session_id {
            Some(id) => Some(copied_bytes(id.as_slice())),
            None => None,
        };
        let mut uploaded_ranges: Vec<ChunkRange> = Vec::new();
        for i in 0..self.uploaded_ranges.len()
            invariant
                uploaded_ranges@ == self.uploaded_ranges@.take(i as int),
        {
            uploaded_ranges.push(self.uploaded_ranges[i]);
            assert(self.uploaded_ranges@.take(i + 1) =~= self.uploaded_ranges@.take(i as int).push(
                self.uploaded_ranges@[i as int],
            ));
        }
        assert(self.uploaded_ranges@.take(self.uploaded_ranges@.len() as int) =~= self.uploaded_ranges@);
        UploadCheckpoint {
            fingerprint: copied_bytes(self.fingerprint.as_slice()),
            begin_request_id: copied_bytes(self.begin_request_id.as_slice()),
            session_id,
            uploaded_ranges,
        }
    }
}

/// An action in the journal.
#[derive(Clone, Debug)]
pub struct JournalAction {
    pub kind: ActionKind,
    pub path: String,
    pub state: ActionState,
    pub remote_id: Option<u32>,
    pub upload: Option<UploadCheckpoint>,
}

/// The mathematical form of an action in the journal.
pub struct JournalEntry {
    pub kind: ActionKind,
    pub path: Seq<char>,
    pub state: ActionState,
    pub remote_id: Option<u32>,
    pub upload: Option<Checkpoint>,
}

/// The view of an optional checkpoint.
pub open spec fn optional_checkpoint(upload: Option<UploadCheckpoint>) -> Option<Checkpoint> {
    match upload {
        Some(upload) => Some(upload@),
        None => None,
    }
}

impl View for JournalAction {
    type V = JournalEntry;

    open spec fn view(&self) -> JournalEntry {
        JournalEntry {
            kind: self.kind,
            path: self.path@,
            state: self.state,
            remote_id: self.remote_id,
            upload: optional_checkpoint(self.upload),
        }
    }
}

/// What the journal holds on disk.
#[derive(Debug)]
pub struct JournalData {
    pub version: u8,
    pub bucket: String,
    pub remote_parent: u32,
    pub local_root: String,
    pub local_manifest_hash: String,
    pub actions: Vec<JournalAction>,
}

/// What a step does and to which path; a conflict is nothing that is done.
pub open spec fn identity_of(step: PlanStep) -> Option<(ActionKind, Seq<char>)> {
    match step {
        PlanStep::CreateDirectory { path } => Some((ActionKind::CreateDirectory, path)),
        PlanStep::UploadFile { path, .. } => Some((ActionKind::UploadFile, path)),
        PlanStep::ReplaceFile { path, .. } => Some((ActionKind::ReplaceFile, path)),
        PlanStep::DeleteFile { path, .. } => Some((ActionKind::DeleteFile, path)),
        PlanStep::DeleteDirectory { path, .. } => Some((ActionKind::DeleteDirectory, path)),
        PlanStep::Conflict { .. } => None,
    }
}

fn action_identity(action: &PlanAction) -> (r: Option<(ActionKind, &str)>)
    ensures
        match r {
            Some((kind, path)) => identity_of(action@) == Some((kind, path@)),
            None => identity_of(action@) is None,
        },
{
    match action {
        PlanAction::CreateDirectory { path } => Some((ActionKind::CreateDirectory, path.as_str())),
        PlanAction::UploadFile { path, .. } => Some((ActionKind::UploadFile, path.as_str())),
        PlanAction::ReplaceFile { path, .. } => Some((ActionKind::ReplaceFile, path.as_str())),
        PlanAction::DeleteFile { path, .. } => Some((ActionKind::DeleteFile, path.as_str())),
        PlanAction::DeleteDirectory { path, .. } => Some((ActionKind::DeleteDirectory, path.as_str())),
        PlanAction::Conflict { .. } => None,
    }
}

/// The journal entry of a step that has not begun.
pub open spec fn pending_entry(identity: (ActionKind, Seq<char>), upload: Option<Checkpoint>) -> JournalEntry {
    JournalEntry { kind: identity.0, path: identity.1, state: ActionState::Pending, remote_id: None, upload }
}

/// The place of the first entry for an action, counted from `from`.
pub open spec fn entry_position(entries: Seq<JournalEntry>, kind: ActionKind, path: Seq<char>, from: int) -> Option<int>
    decreases entries.len() - from,
{
    if from < 0 || from >= entries.len() {
        None
    } else if entries[from].kind == kind && entries[from].path == path {
        Some(from)
    } else {
        entry_position(entries, kind, path, from + 1)
    }
}

/// The checkpoint that a list of entries has for an action.
pub open spec fn saved_upload(entries: Seq<JournalEntry>, identity: (ActionKind, Seq<char>)) -> Option<Checkpoint> {
    match entry_position(entries, identity.0, identity.1, 0) {
        Some(at) => entries[at].upload,
        None => None,
    }
}

/// The entries for the steps of a plan, each with the checkpoint that an
/// earlier journal has for it.
pub open spec fn fresh_entries(steps: Seq<PlanStep>, earlier: Seq<JournalEntry>) -> Seq<JournalEntry>
    decreases steps.len(),
{
    if steps.len() == 0 {
        Seq::empty()
    } else {
        let rest = fresh_entries(steps.drop_last(), earlier);
        match identity_of(steps.last()) {
            Some(identity) => rest.push(pending_entry(identity, saved_upload(earlier, identity))),
            None => rest,
        }
    }
}

fn find_entry(actions: &Vec<JournalAction>, kind: ActionKind, path: &str) -> (r: Option<usize>)
    ensures
        match r {
            Some(at) => at < actions@.len() && entry_position(views(actions@), kind, path@, 0) == Some(at as int),
            None => entry_position(views(actions@), kind, path@, 0) is None,
        },
{
    for i in 0..actions.len()
        invariant
            entry_position(views(actions@), kind, path@, 0) == entry_position(views(actions@), kind, path@, i as int),
    {
        assert(views(actions@)[i as int] == actions@[i as int]@);
        if actions[i].kind == kind && same_text(actions[i].path.as_str(), path) {
            return Some(i);
        }
    }
    None
}

/// Whether an earlier journal is of the same synchronisation: same bucket
/// folder, same local directory, same local content.
pub open spec fn same_sync(
    previous: JournalData,
    bucket: Seq<char>,
    remote_parent: u32,
    local_root: Seq<char>,
    manifest_hash: Seq<u8>,
) -> bool {
    &&& previous.version == JOURNAL_VERSION
    &&& previous.bucket@ == bucket
    &&& previous.remote_parent == remote_parent
    &&& previous.local_root@ == local_root
    &&& previous.local_manifest_hash@ == hex_text(manifest_hash)
}

/// The entries of an earlier journal that are of use.
pub open spec fn earlier_entries(
    previous: Option<JournalData>,
    bucket: Seq<char>,
    remote_parent: u32,
    local_root: Seq<char>,
    manifest_hash: Seq<u8>,
) -> Seq<JournalEntry> {
    match previous {
        Some(previous) => if same_sync(previous, bucket, remote_parent, local_root, manifest_hash) {
            views(previous.actions@)
        } else {
            Seq::empty()
        },
        None => Seq::empty(),
    }
}

/// The journal of a running synchronisation.
#[derive(Debug)]
pub struct RecoveryJournal {
    pub data: JournalData,
}

/// Where the entry of a step is, or why there is none.
pub open spec fn entry_of(entries: Seq<JournalEntry>, step: PlanStep) -> Result<int, Seq<char>> {
    match identity_of(step) {
        None => Err("unsupported action in recovery journal"@),
        Some((kind, path)) => match entry_position(entries, kind, path, 0) {
            Some(at) => Ok(at),
            None => Err("missing recovery journal action "@ + path),
        },
    }
}

/// The first identifier that there is.
pub open spec fn first_id(new: Option<u32>, old: Option<u32>) -> Option<u32> {
    if new is Some {
        new
    } else {
        old
    }
}

impl RecoveryJournal {
    /// The entries of the journal.
    pub open spec fn entries(&self) -> Seq<JournalEntry> {
        views(self.data.actions@)
    }

    /// Everything but the entries is as in `other`.
    pub open spec fn same_header(&self, other: &RecoveryJournal) -> bool {
        &&& self.data.version == other.data.version
        &&& self.data.bucket == other.data.bucket
        &&& self.data.remote_parent == other.data.remote_parent
        &&& self.data.local_root == other.data.local_root
        &&& self.data.local_manifest_hash == other.data.local_manifest_hash
    }

    /// Opens the journal of a plan.  The checkpoints of an earlier journal of
    /// the same synchronisation are kept.
    pub fn start(
        bucket: &str,
        remote_parent: u32,
        local_root: &str,
        local_manifest_hash: &[u8; 32],
        actions: &[PlanAction],
        previous: Option<&JournalData>,
    ) -> (r: RecoveryJournal)
        ensures
            r.data.version == JOURNAL_VERSION,
            r.data.bucket@ == bucket@,
            r.data.remote_parent == remote_parent,
            r.data.local_root@ == local_root@,
            r.data.local_manifest_hash@ == hex_text(local_manifest_hash@),
            r.entries() == fresh_entries(
                views(actions@),
                earlier_entries(
                    match previous {
                        Some(data) => Some(*data),
                        None => None,
                    },
                    bucket@,
                    remote_parent,
                    local_root@,
                    local_manifest_hash@,
                ),
            ),
    {
        let hash = hex_encode(local_manifest_hash.as_slice());
        let usable = match previous {
            Some(data) => data.version == JOURNAL_VERSION && same_text(data.bucket.as_str(), bucket)
                && data.remote_parent == remote_parent && same_text(data.local_root.as_str(), local_root)
                && same_text(data.local_manifest_hash.as_str(), hash.as_str()),
            None => false,
        };
        let ghost earlier = earlier_entries(
            match previous {
                Some(data) => Some(*data),
                None => None,
            },
            bucket@,
            remote_parent,
            local_root@,
            local_manifest_hash@,
        );
        let mut list: Vec<JournalAction> = Vec::new();
        assert(views(actions@).take(0) =~= Seq::empty());
        assert(views(list@) =~= Seq::empty());
        for i in 0..actions.len()
            invariant
                usable ==> previous is Some && earlier == views(previous->0.actions@),
                !usable ==> earlier == Seq::<JournalEntry>::empty(),
                views(list@) == fresh_entries(views(actions@).take(i as int), earlier),
        {
            let ghost before = views(list@);
            proof {
                assert(views(actions@).take(i + 1).drop_last() =~= views(actions@).take(i as int));
                assert(views(actions@).take(i + 1).last() == actions@[i as int]@);
            }
            if let Some((kind, path)) = action_identity(&actions[i]) {
                let mut upload: Option<UploadCheckpoint> = None;
                if usable {
                    if let Some(data) = previous {
                        if let Some(at) = find_entry(&data.actions, kind, path) {
                            assert(views(data.actions@)[at as int] == data.actions@[at as int]@);
                            if let Some(checkpoint) = &data.actions[at].upload {
                                upload = Some(checkpoint.duplicate());
                            }
                        }
                    }
                }
                assert(optional_checkpoint(upload) == saved_upload(earlier, (kind, path@)));
                let entry = JournalAction {
                    kind,
                    path: owned(path),
                    state: ActionState::Pending,
                    remote_id: None,
                    upload,
                };
                list.push(entry);
                assert(views(list@) =~= before.push(entry@));
            }
        }
        assert(views(actions@).take(actions@.len() as int) =~= views(actions@));
        RecoveryJournal {
            data: JournalData {
                version: JOURNAL_VERSION,
                bucket: owned(bucket),
                remote_parent,
                local_root: owned(local_root),
                local_manifest_hash: hash,
                actions: list,
            },
        }
    }

    fn position(&self, action: &PlanAction) -> (r: Result<usize, String>)
        ensures
            match r {
                Ok(at) => at < self.entries().len() && entry_of(self.entries(), action@) == Ok::<int, Seq<char>>(
                    at as int,
                ),
                Err(message) => entry_of(self.entries(), action@) == Err::<int, Seq<char>>(message@),
            },
    {
        match action_identity(action) {
            None => Err(owned("unsupported action in recovery journal")),
            Some((kind, path)) => match find_entry(&self.data.actions, kind, path) {
                Some(at) => Ok(at),
                None => Err(cat2("missing recovery journal action ", path)),
            },
        }
    }

    fn set_state(&mut self, action: &PlanAction, state: ActionState, remote_id: Option<u32>) -> (r: Result<(), String>)
        ensures
            final(self).same_header(old(self)),
            match r {
                Ok(_) => {
                    &&& entry_of(old(self).entries(), action@) matches Ok(at)
                    &&& final(self).entries() == old(self).entries().update(
                        at,
                        (JournalEntry {
                            state,
                            remote_id: first_id(remote_id, old(self).entries()[at].remote_id),
                            ..old(self).entries()[at]
                        }),
                    )
                },
                Err(message) => entry_of(old(self).entries(), action@) == Err::<int, Seq<char>>(message@)
                    && final(self).entries() == old(self).entries(),
            },
    {
        let ghost before = self.entries();
        let at: usize = match self.position(action) {
            Ok(at) => at,
            Err(message) => {
                return Err(message);
            },
        };
        self.data.actions[at].state = state;
        if remote_id.is_some() {
            self.data.actions[at].remote_id = remote_id;
        }
        assert(self.entries() =~= before.update(at as int, self.data.actions@[at as int]@));
        Ok(())
    }

    /// Notes that an action has begun.
    pub fn mark_started(&mut self, action: &PlanAction) -> (r: Result<(), String>)
        ensures
            final(self).same_header(old(self)),
            match r {
                Ok(_) => {
                    &&& entry_of(old(self).entries(), action@) matches Ok(at)
                    &&& final(self).entries() == old(self).entries().update(
                        at,
                        (JournalEntry { state: ActionState::InProgress, ..old(self).entries()[at] }),
                    )
                },
                Err(message) => entry_of(old(self).entries(), action@) == Err::<int, Seq<char>>(message@)
                    && final(self).entries() == old(self).entries(),
            },
    {
        self.set_state(action, ActionState::InProgress, None)
    }

    /// Notes that an action is done, and the entry of the bucket that it is about.
    pub fn mark_completed(&mut self, action: &PlanAction, remote_id: Option<u32>) -> (r: Result<(), String>)
        ensures
            final(self).same_header(old(self)),
            match r {
                Ok(_) => {
                    &&& entry_of(old(self).entries(), action@) matches Ok(at)
                    &&& final(self).entries() == old(self).entries().update(
                        at,
                        (JournalEntry {
                            state: ActionState::Completed,
                            remote_id: first_id(remote_id, old(self).entries()[at].remote_id),
                            ..old(self).entries()[at]
                        }),
                    )
                },
                Err(message) => entry_of(old(self).entries(), action@) == Err::<int, Seq<char>>(message@)
                    && final(self).entries() == old(self).entries(),
            },
    {
        self.set_state(action, ActionState::Completed, remote_id)
    }

    /// The checkpoint of an upload.  One with the same fingerprint is kept, so
    /// that the upload is taken up where it stopped; otherwise a new one is
    /// written down.
    pub fn prepare_upload(&mut self, action: &PlanAction, fingerprint: [u8; 32], begin_request_id: Vec<u8>) -> (r: Result<
        UploadCheckpoint,
        String,
    >)
        ensures
            final(self).same_header(old(self)),
            match r {
                Ok(checkpoint) => {
                    &&& entry_of(old(self).entries(), action@) matches Ok(at)
                    &&& checkpoint@ == prepared_checkpoint(
                        old(self).entries()[at].upload,
                        fingerprint@,
                        begin_request_id@,
                    )
                    &&& final(self).entries() == old(self).entries().update(
                        at,
                        (JournalEntry { upload: Some(checkpoint@), ..old(self).entries()[at] }),
                    )
                },
                Err(message) => entry_of(old(self).entries(), action@) == Err::<int, Seq<char>>(message@)
                    && final(self).entries() == old(self).entries(),
            },
    {
        let ghost before = self.entries();
        let at: usize = match self.position(action) {
            Ok(at) => at,
            Err(message) => {
                return Err(message);
            },
        };
        assert(before[at as int] == self.data.actions@[at as int]@);
        if let Some(known) = &self.data.actions[at].upload {
            if same_bytes(known.fingerprint.as_slice(), fingerprint.as_slice()) {
                let kept = known.duplicate();
                assert(self.entries() =~= before.update(at as int, before[at as int]));
                return Ok(kept);
            }
        }
        let upload = UploadCheckpoint {
            fingerprint: copied_bytes(fingerprint.as_slice()),
            begin_request_id,
            session_id: None,
            uploaded_ranges: Vec::new(),
        };
        let saved = upload.duplicate();
        assert(upload@.uploaded_ranges =~= Seq::empty());
        self.data.actions[at].upload = Some(saved);
        assert(self.entries() =~= before.update(at as int, self.data.actions@[at as int]@));
        Ok(upload)
    }

    /// Notes the session of an upload.
    pub fn set_upload_session(&mut self, action: &PlanAction, session_id: Vec<u8>) -> (r: Result<(), String>)
        ensures
            final(self).same_header(old(self)),
            match r {
                Ok(_) => {
                    &&& entry_of(old(self).entries(), action@) matches Ok(at)
                    &&& old(self).entries()[at].upload matches Some(checkpoint)
                    &&& final(self).entries() == old(self).entries().update(
                        at,
                        (JournalEntry {
                            upload: Some(Checkpoint { session_id: Some(session_id@), ..checkpoint }),
                            ..old(self).entries()[at]
                        }),
                    )
                },
                Err(message) => final(self).entries() == old(self).entries() && match entry_of(
                    old(self).entries(),
                    action@,
                ) {
                    Err(reason) => message@ == reason,
                    Ok(at) => old(self).entries()[at].upload is None && message@
                        == "upload checkpoint was not prepared"@,
                },
            },
    {
        let ghost before = self.entries();
        let at: usize = match self.position(action) {
            Ok(at) => at,
            Err(message) => {
                return Err(message);
            },
        };
        assert(before[at as int] == self.data.actions@[at as int]@);
        if self.data.actions[at].upload.is_none() {
            return Err(owned("upload checkpoint was not prepared"));
        }
        let mut upload = self.data.actions[at].upload.take();
        if let Some(checkpoint) = upload.as_mut() {
            checkpoint.session_id = Some(session_id);
        }
        self.data.actions[at].upload = upload;
        assert(self.entries() =~= before.update(at as int, self.data.actions@[at as int]@));
        Ok(())
    }

    /// Notes which chunks of an upload are stored, in place of what was noted
    /// before.
    pub fn set_uploaded_chunks(&mut self, action: &PlanAction, uploaded_chunks: BTreeSet<u32>) -> (r: Result<(), String>)
        ensures
            final(self).same_header(old(self)),
            match r {
                Ok(_) => {
                    &&& entry_of(old(self).entries(), action@) matches Ok(at)
                    &&& old(self).entries()[at].upload matches Some(checkpoint)
                    &&& exists|ranges: Seq<ChunkRange>|
                        compact(ranges) && covered(ranges) == uploaded_chunks@ && final(self).entries()
                            == #[trigger] with_ranges(old(self).entries(), at, checkpoint, ranges)
                },
                Err(message) => final(self).entries() == old(self).entries() && match entry_of(
                    old(self).entries(),
                    action@,
                ) {
                    Err(reason) => message@ == reason,
                    Ok(at) => old(self).entries()[at].upload is None && message@
                        == "upload checkpoint was not prepared"@,
                },
            },
    {
        let ghost before = self.entries();
        let at: usize = match self.position(action) {
            Ok(at) => at,
            Err(message) => {
                return Err(message);
            },
        };
        assert(before[at as int] == self.data.actions@[at as int]@);
        if self.data.actions[at].upload.is_none() {
            return Err(owned("upload checkpoint was not prepared"));
        }
        let mut upload = self.data.actions[at].upload.take();
        if let Some(checkpoint) = upload.as_mut() {
            checkpoint.uploaded_ranges = chunk_ranges(&uploaded_chunks);
        }
        self.data.actions[at].upload = upload;
        proof {
            let ranges = self.entries()[at as int].upload->0.uploaded_ranges;
            assert(self.entries() =~= with_ranges(before, at as int, before[at as int].upload->0, ranges));
        }
        Ok(())
    }

    /// Notes that one more chunk of an upload is stored.
    pub fn mark_uploaded_chunk(&mut self, action: &PlanAction, chunk_index: u32) -> (r: Result<(), String>)
        ensures
            final(self).same_header(old(self)),
            match r {
                Ok(_) => {
                    &&& entry_of(old(self).entries(), action@) matches Ok(at)
                    &&& old(self).entries()[at].upload matches Some(checkpoint)
                    &&& exists|ranges: Seq<ChunkRange>|
                        (compact(checkpoint.uploaded_ranges) ==> compact(ranges)) && covered(ranges) == covered(
                            checkpoint.uploaded_ranges,
                        ).insert(chunk_index) && final(self).entries() == #[trigger] with_ranges(
                            old(self).entries(),
                            at,
                            checkpoint,
                            ranges,
                        ) && ranges == range_inserted(
                            checkpoint.uploaded_ranges,
                            ChunkRange { start: chunk_index, end: chunk_index },
                        )
                },
                Err(message) => final(self).entries() == old(self).entries() && match entry_of(
                    old(self).entries(),
                    action@,
                ) {
                    Err(reason) => message@ == reason,
                    Ok(at) => old(self).entries()[at].upload is None && message@
                        == "upload checkpoint was not prepared"@,
                },
            },
    {
        let ghost before = self.entries();
        let at: usize = match self.position(action) {
            Ok(at) => at,
            Err(message) => {
                return Err(message);
            },
        };
        assert(before[at as int] == self.data.actions@[at as int]@);
        if self.data.actions[at].upload.is_none() {
            return Err(owned("upload checkpoint was not prepared"));
        }
        let mut upload = self.data.actions[at].upload.take();
        if let Some(checkpoint) = upload.as_mut() {
            insert_chunk(&mut checkpoint.uploaded_ranges, chunk_index);
        }
        self.data.actions[at].upload = upload;
        proof {
            let ranges = self.entries()[at as int].upload->0.uploaded_ranges;
            assert(self.entries() =~= with_ranges(before, at as int, before[at as int].upload->0, ranges));
        }
        Ok(())
    }

    /// Forgets the checkpoint of an upload.
    pub fn reset_upload(&mut self, action: &PlanAction) -> (r: Result<(), String>)
        ensures
            final(self).same_header(old(self)),
            match r {
                Ok(_) => {
                    &&& entry_of(old(self).entries(), action@) matches Ok(at)
                    &&& final(self).entries() == old(self).entries().update(
                        at,
                        (JournalEntry { upload: None, ..old(self).entries()[at] }),
                    )
                },
                Err(message) => entry_of(old(self).entries(), action@) == Err::<int, Seq<char>>(message@)
                    && final(self).entries() == old(self).entries(),
            },
    {
        let ghost before = self.entries();
        let at: usize = match self.position(action) {
            Ok(at) => at,
            Err(message) => {
                return Err(message);
            },
        };
        self.data.actions[at].upload = None;
        assert(self.entries() =~= before.update(at as int, self.data.actions@[at as int]@));
        Ok(())
    }
}

/// The checkpoint that an upload goes on with.
pub open spec fn prepared_checkpoint(saved: Option<Checkpoint>, fingerprint: Seq<u8>, request_id: Seq<u8>) -> Checkpoint {
    match saved {
        Some(saved) if saved.fingerprint == fingerprint => saved,
        _ => Checkpoint {
            fingerprint,
            begin_request_id: request_id,
            session_id: None,
            uploaded_ranges: Seq::empty(),
        },
    }
}

/// The entries with other ranges in the checkpoint of one of them.
pub open spec fn with_ranges(
    entries: Seq<JournalEntry>,
    at: int,
    checkpoint: Checkpoint,
    ranges: Seq<ChunkRange>,
) -> Seq<JournalEntry> {
    entries.update(
        at,
        JournalEntry { upload: Some(Checkpoint { uploaded_ranges: ranges, ..checkpoint }), ..entries[at] },
    )
}

/// What identifies a synchronisation, as bytes.
pub open spec fn journal_key(bucket: Seq<char>, remote_parent: u32, local_root: Seq<char>) -> Seq<u8> {
    framed(utf8(bucket)) + framed(be32(remote_parent)) + framed(utf8(local_root))
}

/// The name of the file that holds the journal of a synchronisation.
pub fn journal_file_name(bucket: &str, remote_parent: u32, local_root: &str) -> (r: String)
    ensures
        r@ == hex_text(sha3_256(journal_key(bucket@, remote_parent, local_root@))) + ".json"@,
{
    let mut key: Vec<u8> = Vec::new();
    push_framed(&mut key, bucket.as_bytes());
    let mut parent: Vec<u8> = Vec::new();
    push_be32(&mut parent, remote_parent);
    assert(parent@ =~= be32(remote_parent));
    push_framed(&mut key, parent.as_slice());
    push_framed(&mut key, local_root.as_bytes());
    assert(key@ =~= journal_key(bucket@, remote_parent, local_root@));
    let digest = digest_of(key.as_slice());
    cat2(hex_encode(digest.as_slice()).as_str(), ".json")
}

/// Different synchronisations have different keys.
pub proof fn law_journal_keys_are_distinct(a: Seq<char>, i: u32, x: Seq<char>, b: Seq<char>, j: u32, y: Seq<char>)
    requires
        utf8(a).len() <= u64::MAX,
        utf8(b).len() <= u64::MAX,
        utf8(x).len() <= u64::MAX,
        utf8(y).len() <= u64::MAX,
        journal_key(a, i, x) == journal_key(b, j, y),
    ensures
        a == b,
        i == j,
        x == y,
{
    let tail = framed(be32(i)) + framed(utf8(x));
    let other = framed(be32(j)) + framed(utf8(y));
    assert(journal_key(a, i, x) =~= framed(utf8(a)) + tail);
    assert(journal_key(b, j, y) =~= framed(utf8(b)) + other);
    crate::framing::law_framing_is_unambiguous(utf8(a), tail, utf8(b), other);
    crate::text::lemma_utf8_injective(a, b);
    crate::framing::lemma_be_len(i, 0);
    crate::framing::lemma_be_len(j, 0);
    crate::framing::law_framing_is_unambiguous(be32(i), framed(utf8(x)), be32(j), framed(utf8(y)));
    crate::framing::lemma_be32_injective(i, j);
    assert(framed(utf8(x)) =~= framed(utf8(x)) + Seq::empty());
    assert(framed(utf8(y)) =~= framed(utf8(y)) + Seq::empty());
    crate::framing::law_framing_is_unambiguous(utf8(x), Seq::empty(), utf8(y), Seq::empty());
    crate::text::lemma_utf8_injective(x, y);
}

/// What was found at the place of the journal.
#[derive(Debug)]
pub enum SavedJournal {
    /// There is no journal.
    Missing,
    /// The file could not be read; its path in debug notation, and the error.
    Unreadable { path: String, error: String },
    /// The file holds no journal; the error.
    Invalid { error: String },
    /// The journal.
    Loaded { data: JournalData },
}

/// The warning for what was found at the place of the journal.
pub open spec fn recovery_text(saved: SavedJournal, manifest_hash: Seq<u8>) -> Option<Seq<char>> {
    match saved {
        SavedJournal::Missing => None,
        SavedJournal::Unreadable { path, error } => Some(
            "could not read recovery journal "@ + path@ + ": "@ + error@ + "; current state was fully rescanned"@,
        ),
        SavedJournal::Invalid { error } => Some(
            "ignored an invalid recovery journal: "@ + error@ + "; current state was fully rescanned"@,
        ),
        SavedJournal::Loaded { data } => Some(
            if data.version != JOURNAL_VERSION {
                "ignored a recovery journal with an unsupported version; current state was fully rescanned"@
            } else if data.local_manifest_hash@ == hex_text(manifest_hash) {
                "found an incomplete prior sync; local and remote state were fully rescanned before replanning"@
            } else {
                "found a stale recovery journal, but the local manifest changed; the old plan was ignored"@
            },
        ),
    }
}

/// What to tell about a journal that an earlier run left behind.
pub fn recovery_warning(saved: &SavedJournal, local_manifest_hash: &[u8; 32]) -> (r: Option<String>)
    ensures
        r is Some == recovery_text(*saved, local_manifest_hash@) is Some,
        r matches Some(text) ==> Some(text@) == recovery_text(*saved, local_manifest_hash@),
{
    match saved {
        SavedJournal::Missing => None,
        SavedJournal::Unreadable { path, error } => Some(
            crate::text::cat5(
                "could not read recovery journal ",
                path.as_str(),
                ": ",
                error.as_str(),
                "; current state was fully rescanned",
            ),
        ),
        SavedJournal::Invalid { error } => Some(
            crate::text::cat3(
                "ignored an invalid recovery journal: ",
                error.as_str(),
                "; current state was fully rescanned",
            ),
        ),
        SavedJournal::Loaded { data } => {
            if data.version != JOURNAL_VERSION {
                Some(
                    owned(
                        "ignored a recovery journal with an unsupported version; current state was fully rescanned",
                    ),
                )
            } else if same_text(
                data.local_manifest_hash.as_str(),
                hex_encode(local_manifest_hash.as_slice()).as_str(),
            ) {
                Some(
                    owned(
                        "found an incomplete prior sync; local and remote state were fully rescanned before replanning",
                    ),
                )
            } else {
                Some(
                    owned(
                        "found a stale recovery journal, but the local manifest changed; the old plan was ignored",
                    ),
                )
            }
        },
    }
}

proof fn lemma_entry_position_sound(entries: Seq<JournalEntry>, kind: ActionKind, path: Seq<char>, from: int)
    ensures
        entry_position(entries, kind, path, from) matches Some(at) ==> from <= at < entries.len() && 0 <= at
            && entries[at].kind == kind && entries[at].path == path,
    decreases entries.len() - from,
{
    if 0 <= from < entries.len() {
        lemma_entry_position_sound(entries, kind, path, from + 1);
    }
}

/// The entry of a step is one of the entries, and is about the step.
pub proof fn lemma_entry_of_sound(entries: Seq<JournalEntry>, step: PlanStep)
    ensures
        entry_of(entries, step) matches Ok(at) ==> 0 <= at < entries.len() && identity_of(step) == Some(
            (entries[at].kind, entries[at].path),
        ),
{
    if let Some((kind, path)) = identity_of(step) {
        lemma_entry_position_sound(entries, kind, path, 0);
    }
}

/// An upload that is prepared again with the same fingerprint goes on with the
/// checkpoint it has, whatever request identifier is offered.
pub proof fn law_prepared_uploads_are_resumed(
    saved: Option<Checkpoint>,
    fingerprint: Seq<u8>,
    first_request: Seq<u8>,
    later: Checkpoint,
    second_request: Seq<u8>,
)
    requires
        later.fingerprint == prepared_checkpoint(saved, fingerprint, first_request).fingerprint,
    ensures
        prepared_checkpoint(Some(later), fingerprint, second_request) == later,
{
}

/// A checkpoint survives a restart: the journal of the same synchronisation,
/// opened again with a plan that still holds the step, has it.
pub proof fn law_checkpoints_survive_a_restart(
    steps: Seq<PlanStep>,
    earlier: Seq<JournalEntry>,
    step: PlanStep,
    at: int,
)
    requires
        steps.contains(step),
        entry_of(earlier, step) == Ok::<int, Seq<char>>(at),
    ensures
        entry_of(fresh_entries(steps, earlier), step) matches Ok(new) && fresh_entries(steps, earlier)[new].upload
            == earlier[at].upload && fresh_entries(steps, earlier)[new].state is Pending,
    decreases steps.len(),
{
    let (kind, path) = identity_of(step)->0;
    let entries = fresh_entries(steps, earlier);
    let rest_steps = steps.drop_last();
    let rest = fresh_entries(rest_steps, earlier);
    if rest_steps.contains(step) {
        law_checkpoints_survive_a_restart(rest_steps, earlier, step, at);
        lemma_entry_position_sound(rest, kind, path, 0);
        lemma_entry_position_prefix(rest, entries, kind, path, 0);
        let new = entry_position(rest, kind, path, 0)->0;
        assert(entries[new] == rest[new]);
    } else {
        let i = steps.index_of(step);
        assert(steps[i] == step);
        if i < steps.len() - 1 {
            assert(rest_steps[i] == step);
        }
        assert(steps.last() == step);
        lemma_fresh_positions(rest_steps, earlier);
        if entry_position(rest, kind, path, 0) is Some {
            lemma_entry_position_sound(rest, kind, path, 0);
            lemma_entry_position_prefix(rest, entries, kind, path, 0);
            let new = entry_position(rest, kind, path, 0)->0;
            assert(entries[new] == rest[new]);
        } else {
            lemma_entry_position_last(rest, entries, kind, path, 0);
        }
    }
}

proof fn lemma_entry_position_prefix(
    rest: Seq<JournalEntry>,
    entries: Seq<JournalEntry>,
    kind: ActionKind,
    path: Seq<char>,
    from: int,
)
    requires
        entry_position(rest, kind, path, from) is Some,
        rest.len() <= entries.len(),
        forall|i: int| 0 <= i < rest.len() ==> entries[i] == rest[i],
    ensures
        entry_position(entries, kind, path, from) == entry_position(rest, kind, path, from),
    decreases rest.len() - from,
{
    if 0 <= from < rest.len() && !(rest[from].kind == kind && rest[from].path == path) {
        lemma_entry_position_prefix(rest, entries, kind, path, from + 1);
    }
}

proof fn lemma_entry_position_last(
    rest: Seq<JournalEntry>,
    entries: Seq<JournalEntry>,
    kind: ActionKind,
    path: Seq<char>,
    from: int,
)
    requires
        entry_position(rest, kind, path, from) is None,
        entries.len() == rest.len() + 1,
        forall|i: int| 0 <= i < rest.len() ==> entries[i] == rest[i],
        entries.last().kind == kind,
        entries.last().path == path,
        0 <= from <= rest.len(),
    ensures
        entry_position(entries, kind, path, from) == Some(rest.len() as int),
    decreases rest.len() - from,
{
    if from < rest.len() {
        lemma_entry_position_last(rest, entries, kind, path, from + 1);
    }
}

/// Whatever entry a fresh journal has for an action, it has the saved
/// checkpoint and is pending.
proof fn lemma_fresh_positions(steps: Seq<PlanStep>, earlier: Seq<JournalEntry>)
    ensures
        forall|i: int|
            0 <= i < fresh_entries(steps, earlier).len() ==> (#[trigger] fresh_entries(steps, earlier)[i]).state is Pending
                && fresh_entries(steps, earlier)[i].upload == saved_upload(
                earlier,
                (fresh_entries(steps, earlier)[i].kind, fresh_entries(steps, earlier)[i].path),
            ),
    decreases steps.len(),
{
    if steps.len() > 0 {
        lemma_fresh_positions(steps.drop_last(), earlier);
        let rest = fresh_entries(steps.drop_last(), earlier);
        let all = fresh_entries(steps, earlier);
        assert forall|i: int| 0 <= i < all.len() implies (#[trigger] all[i]).state is Pending && all[i].upload
            == saved_upload(earlier, (all[i].kind, all[i].path)) by {
            if i < rest.len() {
                assert(all[i] == rest[i]);
            }
        }
    }
}

/// Two steps have the same place in a journal exactly where they do the same to
/// the same path; a conflict has none.
pub proof fn law_steps_are_told_apart_by_kind_and_path(a: PlanStep, b: PlanStep)
    ensures
        identity_of(a) is None <==> a is Conflict,
        identity_of(a) matches Some((_, path)) ==> path == a.path(),
        !(a is Conflict) && identity_of(a) == identity_of(b) ==> {
            &&& a.path() == b.path()
            &&& a is CreateDirectory == b is CreateDirectory
            &&& a is UploadFile == b is UploadFile
            &&& a is ReplaceFile == b is ReplaceFile
            &&& a is DeleteFile == b is DeleteFile
            &&& a is DeleteDirectory == b is DeleteDirectory
        },
{
}

proof fn lemma_entry_position_found(entries: Seq<JournalEntry>, kind: ActionKind, path: Seq<char>, from: int)
    requires
        0 <= from,
    ensures
        match entry_position(entries, kind, path, from) {
            Some(at) => from <= at < entries.len() && entries[at].kind == kind && entries[at].path == path
                && forall|i: int| from <= i < at ==> !((#[trigger] entries[i]).kind == kind && entries[i].path == path),
            None => forall|i: int|
                from <= i < entries.len() ==> !((#[trigger] entries[i]).kind == kind && entries[i].path == path),
        },
    decreases entries.len() - from,
{
    if from < entries.len() && !(entries[from].kind == kind && entries[from].path == path) {
        lemma_entry_position_found(entries, kind, path, from + 1);
    }
}

/// The entry of a step is the first one for what it does to its path, and a
/// step without an entry has none in the whole journal.
pub proof fn law_steps_find_their_entry(entries: Seq<JournalEntry>, step: PlanStep)
    requires
        !(step is Conflict),
    ensures
        ({
            let kind = match step {
                PlanStep::CreateDirectory { .. } => ActionKind::CreateDirectory,
                PlanStep::UploadFile { .. } => ActionKind::UploadFile,
                PlanStep::ReplaceFile { .. } => ActionKind::ReplaceFile,
                PlanStep::DeleteFile { .. } => ActionKind::DeleteFile,
                _ => ActionKind::DeleteDirectory,
            };
            match entry_of(entries, step) {
                Ok(at) => 0 <= at < entries.len() && entries[at].kind == kind && entries[at].path == step.path()
                    && forall|i: int|
                    0 <= i < at ==> !((#[trigger] entries[i]).kind == kind && entries[i].path == step.path()),
                Err(_) => forall|i: int|
                    0 <= i < entries.len() ==> !((#[trigger] entries[i]).kind == kind && entries[i].path == step.path()),
            }
        }),
{
    let (kind, path) = identity_of(step)->0;
    lemma_entry_position_found(entries, kind, path, 0);
}

/// An earlier journal is of use exactly where it is of the current format, the
/// same bucket, folder and local directory, and the same local content.
pub proof fn law_only_the_same_synchronisation_is_taken_up(
    previous: JournalData,
    bucket: Seq<char>,
    remote_parent: u32,
    local_root: Seq<char>,
    manifest_hash: Seq<u8>,
)
    ensures
        earlier_entries(Some(previous), bucket, remote_parent, local_root, manifest_hash) == if previous.version == 2
            && previous.bucket@ == bucket && previous.remote_parent == remote_parent && previous.local_root@ == local_root
            && previous.local_manifest_hash@ == hex_text(manifest_hash) {
            views(previous.actions@)
        } else {
            Seq::empty()
        },
        earlier_entries(None, bucket, remote_parent, local_root, manifest_hash).len() == 0,
{
}

/// An upload whose begin request has changed starts over: under the new request
/// identifier, without a session and with nothing stored.  Whatever was saved,
/// the checkpoint is of the upload that was asked for.
pub proof fn law_changed_uploads_start_over(saved: Option<Checkpoint>, fingerprint: Seq<u8>, request_id: Seq<u8>)
    ensures
        prepared_checkpoint(saved, fingerprint, request_id).fingerprint == fingerprint,
        saved is None || saved->0.fingerprint != fingerprint ==> {
            let fresh = prepared_checkpoint(saved, fingerprint, request_id);
            &&& fresh.begin_request_id == request_id
            &&& fresh.session_id is None
            &&& fresh.uploaded_ranges.len() == 0
        },
{
}

proof fn lemma_fresh_identities(steps: Seq<PlanStep>, earlier: Seq<JournalEntry>)
    ensures
        forall|i: int|
            0 <= i < fresh_entries(steps, earlier).len() ==> (#[trigger] fresh_entries(steps, earlier)[i]).remote_id
                is None && fresh_entries(steps, earlier)[i].state is Pending && exists|j: int|
                0 <= j < steps.len() && identity_of(#[trigger] steps[j]) == Some(
                    (fresh_entries(steps, earlier)[i].kind, fresh_entries(steps, earlier)[i].path),
                ),
    decreases steps.len(),
{
    if steps.len() > 0 {
        let rest_steps = steps.drop_last();
        lemma_fresh_identities(rest_steps, earlier);
        let rest = fresh_entries(rest_steps, earlier);
        let all = fresh_entries(steps, earlier);
        assert forall|i: int| 0 <= i < all.len() implies (#[trigger] all[i]).remote_id is None && all[i].state is Pending
            && exists|j: int|
            0 <= j < steps.len() && identity_of(#[trigger] steps[j]) == Some((all[i].kind, all[i].path)) by {
            if i < rest.len() {
                assert(all[i] == rest[i]);
                let j = choose|j: int|
                    0 <= j < rest_steps.len() && identity_of(#[trigger] rest_steps[j]) == Some(
                        (rest[i].kind, rest[i].path),
                    );
                assert(steps[j] == rest_steps[j]);
            } else {
                assert(identity_of(steps[steps.len() - 1]) == Some((all[i].kind, all[i].path)));
            }
        }
    }
}

/// A new journal holds the steps of its plan and nothing else, none of them
/// begun: every entry is pending, without an entry of the bucket, and of a step
/// of the plan.
pub proof fn law_new_journals_hold_the_plan(steps: Seq<PlanStep>, earlier: Seq<JournalEntry>, i: int)
    requires
        0 <= i < fresh_entries(steps, earlier).len(),
    ensures
        fresh_entries(steps, earlier)[i].state is Pending,
        fresh_entries(steps, earlier)[i].remote_id is None,
        exists|j: int|
            0 <= j < steps.len() && (#[trigger] steps[j]).path() == fresh_entries(steps, earlier)[i].path && !(steps[j]
                is Conflict),
{
    lemma_fresh_identities(steps, earlier);
    let entry = fresh_entries(steps, earlier)[i];
    let j = choose|j: int|
        0 <= j < steps.len() && identity_of(#[trigger] steps[j]) == Some((entry.kind, entry.path));
    assert(steps[j].path() == entry.path);
}

/// Every step but a conflict has an entry in the journal of its plan.
pub proof fn law_planned_steps_have_an_entry(steps: Seq<PlanStep>, earlier: Seq<JournalEntry>, i: int)
    requires
        0 <= i < steps.len(),
        !(steps[i] is Conflict),
    ensures
        entry_of(fresh_entries(steps, earlier), steps[i]) is Ok,
    decreases steps.len(),
{
    let rest_steps = steps.drop_last();
    let rest = fresh_entries(rest_steps, earlier);
    let all = fresh_entries(steps, earlier);
    let (kind, path) = identity_of(steps[i])->0;
    if i < steps.len() - 1 {
        law_planned_steps_have_an_entry(rest_steps, earlier, i);
        lemma_entry_position_prefix(rest, all, kind, path, 0);
    } else {
        assert(all.last().kind == kind && all.last().path == path);
        lemma_entry_position_found(all, kind, path, 0);
        assert(all[all.len() - 1].kind == kind);
    }
}

/// A journal that is there is told about, and one that is missing is not; one
/// of the same content is told apart from one that no longer fits.
pub proof fn law_leftover_journals_are_reported(saved: SavedJournal, manifest_hash: Seq<u8>)
    ensures
        recovery_text(saved, manifest_hash) is None <==> saved is Missing,
        saved matches SavedJournal::Loaded { data } ==> recovery_text(saved, manifest_hash) == Some(
            if data.version != 2 {
                "ignored a recovery journal with an unsupported version; current state was fully rescanned"@
            } else if data.local_manifest_hash@ != hex_text(manifest_hash) {
                "found a stale recovery journal, but the local manifest changed; the old plan was ignored"@
            } else {
                "found an incomplete prior sync; local and remote state were fully rescanned before replanning"@
            },
        ),
{
}

/// An entry keeps the identifier it has unless a new one comes.
pub proof fn law_new_identifiers_come_first(new: Option<u32>, old: Option<u32>)
    ensures
        new is Some ==> first_id(new, old) == new,
        new is None ==> first_id(new, old) == old,
{
}

/// Noting other ranges changes nothing but the ranges of the one checkpoint.
pub proof fn law_checkpoints_change_only_their_ranges(
    entries: Seq<JournalEntry>,
    at: int,
    other: int,
    checkpoint: Checkpoint,
    ranges: Seq<ChunkRange>,
)
    requires
        0 <= at < entries.len(),
        0 <= other < entries.len(),
    ensures
        ({
            let after = with_ranges(entries, at, checkpoint, ranges);
            &&& after.len() == entries.len()
            &&& other != at ==> after[other] == entries[other]
            &&& after[at].kind == entries[at].kind
            &&& after[at].path == entries[at].path
            &&& after[at].state == entries[at].state
            &&& after[at].remote_id == entries[at].remote_id
            &&& after[at].upload matches Some(upload)
            &&& upload.uploaded_ranges == ranges
            &&& upload.fingerprint == checkpoint.fingerprint
            &&& upload.begin_request_id == checkpoint.begin_request_id
            &&& upload.session_id == checkpoint.session_id
        }),
{
}

/// A journal stays that of its synchronisation: its version, bucket, folder,
/// local directory and local content are kept.
pub proof fn law_journals_stay_of_their_synchronisation(after: &RecoveryJournal, before: &RecoveryJournal)
    ensures
        after.same_header(before) <==> {
            &&& after.data.version == before.data.version
            &&& after.data.bucket == before.data.bucket
            &&& after.data.remote_parent == before.data.remote_parent
            &&& after.data.local_root == before.data.local_root
            &&& after.data.local_manifest_hash == before.data.local_manifest_hash
        },
{
}

/// A journal entry is seen with the kind, path, state, file and checkpoint that
/// it holds.
pub proof fn law_journal_entries_are_seen_as_they_are(action: &JournalAction, checkpoint: &UploadCheckpoint)
    ensures
        action@.kind == action.kind,
        action@.path == action.path@,
        action@.state == action.state,
        action@.remote_id == action.remote_id,
        action@.upload is Some <==> action.upload is Some,
        action.upload matches Some(upload) ==> action@.upload == Some(upload@),
        checkpoint@.fingerprint == checkpoint.fingerprint@,
        checkpoint@.begin_request_id == checkpoint.begin_request_id@,
        checkpoint@.uploaded_ranges == checkpoint.uploaded_ranges@,
        checkpoint@.session_id is Some <==> checkpoint.session_id is Some,
        checkpoint.session_id matches Some(session) ==> checkpoint@.session_id == Some(session@),
{
}

/// A synchronisation is known by its bucket, its folder and its local directory,
/// in this order and each behind its length.
pub proof fn law_synchronisations_are_known_by_their_ends(bucket: Seq<char>, remote_parent: u32, local_root: Seq<char>)
    ensures
        journal_key(bucket, remote_parent, local_root) == framed(utf8(bucket)) + framed(be32(remote_parent)) + framed(
            utf8(local_root),
        ),
{
}

} // verus!

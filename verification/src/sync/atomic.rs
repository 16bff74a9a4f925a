//! Resumable uploads: the course of one upload session.
use std::collections::BTreeSet;
use vstd::prelude::*;

use crate::entry::{fault_debug, SyncError, SyncFault};
use crate::file::{FileInfo, CHUNK_SIZE};
use crate::sync::journal::{
    compact, covered, entry_of, range_inserted, with_ranges, Checkpoint, ChunkRange, JournalEntry, RecoveryJournal, UploadCheckpoint,
};
use crate::sync::planner::{PlanAction, PlanStep};
use crate::text::{cat2, cat5, cat6, contains_text, decimal, decimal_text, has_part, owned, same_text};
use crate::upload::{BeginUploadInput, BeginUploadOutput, CommitUploadOutput, ReplaceFileInput, UploadStatusOutput};

verus! {

broadcast use {vstd::std_specs::btree::group_btree_axioms, vstd::laws_cmp::group_laws_cmp};

/// After how many chunks a session is renewed.
pub const RENEWAL_INTERVAL: u32 = 512;

/// How many chunks a file of the given size has.
pub open spec fn chunk_count(size: u64) -> int {
    (size + CHUNK_SIZE - 1) / (CHUNK_SIZE as int)
}

/// Where a chunk begins in its file.
pub open spec fn chunk_offset(chunk: u32) -> int {
    chunk * CHUNK_SIZE
}

/// How many bytes a chunk of a file of the given size has.
pub open spec fn chunk_len(size: u64, chunk: u32) -> int {
    if size - chunk_offset(chunk) < CHUNK_SIZE {
        size - chunk_offset(chunk)
    } else {
        CHUNK_SIZE as int
    }
}

/// The chunks of a file follow each other without a gap, from its first byte
/// to its last; all are full but the last one, which is not empty.
pub proof fn law_chunks_tile_the_file(size: u64, chunk: u32)
    requires
        chunk < chunk_count(size),
    ensures
        0 < chunk_len(size, chunk) <= CHUNK_SIZE,
        chunk + 1 < chunk_count(size) ==> chunk_len(size, chunk) == CHUNK_SIZE && chunk_offset(chunk) + chunk_len(
            size,
            chunk,
        ) == (chunk + 1) * CHUNK_SIZE,
        chunk + 1 == chunk_count(size) ==> chunk_offset(chunk) + chunk_len(size, chunk) == size,
        chunk_offset(0) == 0,
{
}

/// The request that begins an upload; one that replaces a file holds on to the
/// file as it was last seen, which has to be the one with that name in that
/// folder.
pub fn begin_upload_input(
    parent: u32,
    name: &str,
    content_type: String,
    size: u64,
    hash: Option<[u8; 32]>,
    parent_revision: u64,
    replaced: Option<(u32, &FileInfo)>,
) -> (r: Result<BeginUploadInput, String>)
    ensures
        match r {
            Ok(input) => {
                &&& replaced matches Some((_, remote)) ==> remote.parent == parent && remote.name@ == name@
                &&& input.request_id@.len() == 0
                &&& input.parent == parent
                &&& input.name@ == name@
                &&& input.content_type == content_type
                &&& input.size == size
                &&& input.status == 0
                &&& input.hash == hash
                &&& input.dek is None
                &&& input.custom is None
                &&& input.expected_parent_revision == parent_revision
                &&& input.replace == match replaced {
                    Some((id, remote)) => Some(ReplaceFileInput { id, expected_revision: remote.revision }),
                    None => None,
                }
            },
            Err(message) => {
                &&& replaced matches Some((id, remote))
                &&& remote.parent != parent || remote.name@ != name@
                &&& message@ == "remote replacement target changed: expected "@ + decimal(parent as nat) + "/"@
                    + decimal(id as nat) + " at "@ + name@ + (", got "@ + decimal(remote.parent as nat) + "/"@ + decimal(
                    remote.id as nat,
                ) + " at "@ + remote.name@)
            },
        },
{
    let replace = match replaced {
        Some((id, remote)) => {
            if remote.parent != parent || !same_text(remote.name.as_str(), name) {
                let expected = cat6(
                    "remote replacement target changed: expected ",
                    decimal_text(parent as u64).as_str(),
                    "/",
                    decimal_text(id as u64).as_str(),
                    " at ",
                    name,
                );
                let got = cat6(
                    ", got ",
                    decimal_text(remote.parent as u64).as_str(),
                    "/",
                    decimal_text(remote.id as u64).as_str(),
                    " at ",
                    remote.name.as_str(),
                );
                return Err(cat2(expected.as_str(), got.as_str()));
            }
            Some(ReplaceFileInput { id, expected_revision: remote.revision })
        },
        None => None,
    };
    Ok(
        BeginUploadInput {
            request_id: Vec::new(),
            parent,
            name: owned(name),
            content_type,
            size,
            status: 0,
            hash,
            dek: None,
            custom: None,
            expected_parent_revision: parent_revision,
            replace,
        },
    )
}

/// What the first page of an upload's state says of the whole upload.
#[derive(Clone, Copy, Debug, PartialEq, Eq, Structural)]
pub struct UploadSummary {
    pub file_id: u32,
    pub size: u64,
    pub total_chunks: u32,
}

/// Why a saved session cannot be used, if it cannot.
pub open spec fn session_mismatch(summary: UploadSummary, size: u64, file_id: Option<u32>) -> Option<Seq<char>> {
    if summary.size != size || summary.total_chunks != chunk_count(size) {
        Some("saved upload session no longer matches the local file size"@)
    } else if file_id is Some && file_id->0 != summary.file_id {
        Some("saved upload session no longer matches the replacement target"@)
    } else {
        None
    }
}

/// Checks that a saved session is that of the file.
pub fn validate_upload_status(summary: &UploadSummary, expected_size: u64, expected_file_id: Option<u32>) -> (r: Result<
    (),
    String,
>)
    ensures
        match r {
            Ok(_) => session_mismatch(*summary, expected_size, expected_file_id) is None,
            Err(message) => session_mismatch(*summary, expected_size, expected_file_id) == Some(message@),
        },
{
    let full: u64 = expected_size / CHUNK_SIZE as u64;
    let expected_chunks: u64 = if expected_size % CHUNK_SIZE as u64 == 0 { full } else { full + 1 };
    if summary.size != expected_size || summary.total_chunks as u64 != expected_chunks {
        return Err(owned("saved upload session no longer matches the local file size"));
    }
    if let Some(id) = expected_file_id {
        if id != summary.file_id {
            return Err(owned("saved upload session no longer matches the replacement target"));
        }
    }
    Ok(())
}

/// Where an upload is.
#[derive(Clone, Copy, Debug, PartialEq, Eq, Structural)]
pub enum UploadPhase {
    /// Asking what an earlier session has stored.
    Query { start: Option<u32>, first: Option<UploadSummary> },
    /// Beginning a session.
    Begin,
    /// Renewing a session that was taken up again.
    RenewResumed,
    /// Renewing the session before a chunk.
    RenewBefore { chunk: u32 },
    /// Sending a chunk.
    Send { chunk: u32 },
    /// Ending the session.
    Commit,
    /// Done.
    Done { id: u32 },
}

/// What has to be done next for an upload.
#[derive(Clone, Copy, Debug, PartialEq, Eq, Structural)]
pub enum UploadCommand {
    /// Ask for the state of the session, from the given chunk on.
    Status { start: Option<u32> },
    /// Begin a session with the request identifier of the upload.
    Begin,
    /// Renew the session.
    Renew,
    /// Send a chunk: its bytes are those of the file from `offset` on.
    Chunk { index: u32, offset: u64, len: u64 },
    /// End the session.
    Commit,
    /// The upload is done.
    Finished { id: u32 },
}

/// The first chunk from `from` on that is not stored.
pub open spec fn next_missing(stored: Set<u32>, from: int, total: int) -> Option<int>
    decreases total - from,
{
    if from >= total {
        None
    } else if stored.contains(from as u32) {
        next_missing(stored, from + 1, total)
    } else {
        Some(from)
    }
}

/// Where an upload goes on once the chunks before `from` are stored.
pub open spec fn phase_from(stored: Set<u32>, from: int, total: int) -> UploadPhase {
    match next_missing(stored, from, total) {
        None => UploadPhase::Commit,
        Some(chunk) => if chunk > 0 && chunk % (RENEWAL_INTERVAL as int) == 0 {
            UploadPhase::RenewBefore { chunk: chunk as u32 }
        } else {
            UploadPhase::Send { chunk: chunk as u32 }
        },
    }
}

/// The chunks before `end` are stored.
pub open spec fn stored_before(stored: Set<u32>, end: int) -> bool {
    forall|i: u32| i < end ==> #[trigger] stored.contains(i)
}

/// Every chunk of a session begins within its file.
pub open spec fn chunks_fit(size: u64, total: u32) -> bool {
    total == 0 || (total - 1) * CHUNK_SIZE <= size
}

/// Whether every chunk of a session begins within its file.
pub fn session_fits(size: u64, total: u32) -> (r: bool)
    ensures
        r == chunks_fit(size, total),
{
    if total == 0 {
        return true;
    }
    let last: u64 = (total - 1) as u64;
    assert(last * CHUNK_SIZE <= u32::MAX * 262144) by (nonlinear_arith)
        requires
            last <= u32::MAX,
            CHUNK_SIZE == 262144,
    ;
    last * CHUNK_SIZE as u64 <= size
}

/// The upload of one file.
#[derive(Debug)]
pub struct AtomicUpload {
    pub size: u64,
    pub remote_id: Option<u32>,
    pub request_id: Vec<u8>,
    pub session_id: Vec<u8>,
    pub file_id: u32,
    pub total_chunks: u32,
    pub uploaded: BTreeSet<u32>,
    pub phase: UploadPhase,
}

impl AtomicUpload {
    /// What holds in every phase: chunks are sent in order, none that is
    /// stored, and the session is ended only once all are stored.
    pub open spec fn sound(&self) -> bool {
        match self.phase {
            UploadPhase::Query { .. } => true,
            UploadPhase::Begin => true,
            UploadPhase::RenewResumed => chunks_fit(self.size, self.total_chunks),
            UploadPhase::RenewBefore { chunk } => chunks_fit(self.size, self.total_chunks) && chunk < self.total_chunks
                && !self.uploaded@.contains(chunk) && stored_before(self.uploaded@, chunk as int),
            UploadPhase::Send { chunk } => chunks_fit(self.size, self.total_chunks) && chunk < self.total_chunks
                && !self.uploaded@.contains(chunk) && stored_before(self.uploaded@, chunk as int),
            UploadPhase::Commit => stored_before(self.uploaded@, self.total_chunks as int),
            UploadPhase::Done { .. } => stored_before(self.uploaded@, self.total_chunks as int),
        }
    }

    /// All but the phase is as in `other`.
    pub open spec fn same_session(&self, other: &AtomicUpload) -> bool {
        &&& self.size == other.size
        &&& self.remote_id == other.remote_id
        &&& self.request_id == other.request_id
        &&& self.session_id == other.session_id
        &&& self.file_id == other.file_id
        &&& self.total_chunks == other.total_chunks
    }

    /// An upload that goes on with a checkpoint: with its session, where it has
    /// one.
    pub fn start(size: u64, remote_id: Option<u32>, checkpoint: UploadCheckpoint) -> (r: AtomicUpload)
        ensures
            r.sound(),
            r.size == size,
            r.remote_id == remote_id,
            r.request_id@ == checkpoint@.begin_request_id,
            r.uploaded@ == Set::<u32>::empty(),
            match checkpoint@.session_id {
                Some(session) => r.session_id@ == session && r.phase == (UploadPhase::Query { start: None, first: None }),
                None => r.phase is Begin,
            },
    {
        let UploadCheckpoint { fingerprint: _, begin_request_id, session_id, uploaded_ranges: _ } = checkpoint;
        let (session, phase) = match session_id {
            Some(session) => (session, UploadPhase::Query { start: None, first: None }),
            None => (Vec::new(), UploadPhase::Begin),
        };
        AtomicUpload {
            size,
            remote_id,
            request_id: begin_request_id,
            session_id: session,
            file_id: 0,
            total_chunks: 0,
            uploaded: BTreeSet::new(),
            phase,
        }
    }

    /// What has to be done next.
    pub fn command(&self) -> (r: UploadCommand)
        requires
            self.sound(),
        ensures
            r == match self.phase {
                UploadPhase::Query { start, .. } => UploadCommand::Status { start },
                UploadPhase::Begin => UploadCommand::Begin,
                UploadPhase::RenewResumed => UploadCommand::Renew,
                UploadPhase::RenewBefore { .. } => UploadCommand::Renew,
                UploadPhase::Send { chunk } => UploadCommand::Chunk {
                    index: chunk,
                    offset: chunk_offset(chunk) as u64,
                    len: chunk_len(self.size, chunk) as u64,
                },
                UploadPhase::Commit => UploadCommand::Commit,
                UploadPhase::Done { id } => UploadCommand::Finished { id },
            },
            r matches UploadCommand::Chunk { index, offset, len } ==> offset == chunk_offset(index) && len == chunk_len(
                self.size,
                index,
            ) && offset + len <= self.size && len <= CHUNK_SIZE,
    {
        match self.phase {
            UploadPhase::Query { start, .. } => UploadCommand::Status { start },
            UploadPhase::Begin => UploadCommand::Begin,
            UploadPhase::RenewResumed => UploadCommand::Renew,
            UploadPhase::RenewBefore { .. } => UploadCommand::Renew,
            UploadPhase::Send { chunk } => {
                let offset: u64 = chunk as u64 * CHUNK_SIZE as u64;
                let rest: u64 = self.size - offset;
                let len: u64 = if rest < CHUNK_SIZE as u64 { rest } else { CHUNK_SIZE as u64 };
                UploadCommand::Chunk { index: chunk, offset, len }
            },
            UploadPhase::Commit => UploadCommand::Commit,
            UploadPhase::Done { id } => UploadCommand::Finished { id },
        }
    }

    fn advance(&mut self, from: u32)
        requires
            from <= old(self).total_chunks,
            chunks_fit(old(self).size, old(self).total_chunks),
            stored_before(old(self).uploaded@, from as int),
        ensures
            final(self).sound(),
            final(self).same_session(old(self)),
            final(self).uploaded@ == old(self).uploaded@,
            final(self).phase == phase_from(old(self).uploaded@, from as int, old(self).total_chunks as int),
    {
        let mut chunk: u32 = from;
        while chunk < self.total_chunks && self.uploaded.contains(&chunk)
            invariant
                self.same_session(old(self)),
                self.uploaded@ == old(self).uploaded@,
                chunk <= self.total_chunks,
                chunks_fit(self.size, self.total_chunks),
                stored_before(self.uploaded@, chunk as int),
                next_missing(self.uploaded@, from as int, self.total_chunks as int) == next_missing(
                    self.uploaded@,
                    chunk as int,
                    self.total_chunks as int,
                ),
            decreases self.total_chunks - chunk,
        {
            chunk += 1;
        }
        self.phase = if chunk >= self.total_chunks {
            UploadPhase::Commit
        } else if chunk > 0 && chunk % RENEWAL_INTERVAL == 0 {
            UploadPhase::RenewBefore { chunk }
        } else {
            UploadPhase::Send { chunk }
        };
    }
}

/// Whether one of the first ranges of a page holds a chunk.
pub open spec fn listed(page: UploadStatusOutput, n: int, chunk: u32) -> bool {
    exists|i: int| 0 <= i < n && (#[trigger] page.ranges@[i]).start <= chunk <= page.ranges@[i].end
}

/// The chunks that are known to be stored after a page.
pub open spec fn with_page(stored: Set<u32>, page: UploadStatusOutput) -> Set<u32> {
    Set::new(|chunk: u32| stored.contains(chunk) || listed(page, page.ranges@.len() as int, chunk))
}

fn add_range(stored: &mut BTreeSet<u32>, start: u32, end: u32)
    ensures
        forall|chunk: u32| #[trigger] final(stored)@.contains(chunk) <==> old(stored)@.contains(chunk) || start <= chunk
            <= end,
{
    if start > end {
        return;
    }
    let mut chunk: u32 = start;
    let mut open = true;
    while open
        invariant
            start <= chunk <= end,
            open ==> forall|c: u32| #[trigger] stored@.contains(c) <==> old(stored)@.contains(c) || start <= c < chunk,
            !open ==> forall|c: u32| #[trigger] stored@.contains(c) <==> old(stored)@.contains(c) || start <= c <= end,
        decreases (if open { 1int } else { 0int }) + end - chunk,
    {
        stored.insert(chunk);
        if chunk == end {
            open = false;
        } else {
            chunk += 1;
        }
    }
}

/// A journal with the stored chunks of an upload noted, as few ranges as
/// possible.
pub open spec fn chunks_noted(
    before: Seq<JournalEntry>,
    after: Seq<JournalEntry>,
    at: int,
    checkpoint: Checkpoint,
    stored: Set<u32>,
) -> bool {
    exists|ranges: Seq<ChunkRange>|
        compact(ranges) && covered(ranges) == stored && after == #[trigger] with_ranges(before, at, checkpoint, ranges)
}

/// A journal with one more stored chunk of an upload noted.
pub open spec fn chunk_noted(
    before: Seq<JournalEntry>,
    after: Seq<JournalEntry>,
    at: int,
    checkpoint: Checkpoint,
    chunk: u32,
) -> bool {
    exists|ranges: Seq<ChunkRange>|
        (compact(checkpoint.uploaded_ranges) ==> compact(ranges)) && covered(ranges) == covered(
            checkpoint.uploaded_ranges,
        ).insert(chunk) && after == #[trigger] with_ranges(before, at, checkpoint, ranges) && ranges == range_inserted(
            checkpoint.uploaded_ranges,
            ChunkRange { start: chunk, end: chunk },
        )
}

/// Why the checkpoint of an upload cannot be changed, if it cannot.
pub open spec fn checkpoint_error(entries: Seq<JournalEntry>, step: PlanStep) -> Option<Seq<char>> {
    match entry_of(entries, step) {
        Err(reason) => Some(reason),
        Ok(at) => if entries[at].upload is None {
            Some("upload checkpoint was not prepared"@)
        } else {
            None
        },
    }
}

/// Whether a bucket's refusal means that a session is gone, so that the upload
/// begins anew.
pub open spec fn session_gone(fault: SyncFault) -> bool {
    match fault {
        SyncFault::NotFound(_) => true,
        SyncFault::Conflict { message, .. } => has_part(message, "expired"@),
        _ => false,
    }
}

/// Whether a bucket's refusal means that a session is gone.
pub fn is_session_gone(err: &SyncError) -> (r: bool)
    ensures
        r == session_gone(err@),
{
    match err {
        SyncError::NotFound(_) => true,
        SyncError::Conflict { message, .. } => contains_text(message.as_str(), "expired"),
        _ => false,
    }
}

/// The summary of a page.
pub open spec fn summary_of(page: UploadStatusOutput) -> UploadSummary {
    UploadSummary { file_id: page.file_id, size: page.size, total_chunks: page.total_chunks }
}

impl AtomicUpload {
    /// Takes in a page of the state of an earlier session.  With the last page
    /// the session is checked against the file; what it has stored is noted,
    /// and the session is renewed.
    pub fn on_status_page(&mut self, page: &UploadStatusOutput, journal: &mut RecoveryJournal, action: &PlanAction) -> (r:
        Result<(), String>)
        requires
            old(self).phase is Query,
        ensures
            final(self).sound(),
            final(self).size == old(self).size,
            final(self).remote_id == old(self).remote_id,
            final(self).request_id == old(self).request_id,
            final(self).session_id == old(self).session_id,
            final(journal).same_header(old(journal)),
            final(self).uploaded@ == with_page(old(self).uploaded@, *page),
            page.next is Some || r is Err ==> final(self).same_session(old(self)),
            r is Err ==> final(self).phase == old(self).phase,
            ({
                let first = match old(self).phase->first {
                    Some(first) => first,
                    None => summary_of(*page),
                };
                match page.next {
                    Some(next) => {
                        &&& r is Ok
                        &&& final(self).phase == (UploadPhase::Query { start: Some(next), first: Some(first) })
                        &&& final(journal).entries() == old(journal).entries()
                    },
                    None => match session_mismatch(first, old(self).size, old(self).remote_id) {
                        Some(reason) => r matches Err(message) && message@ == reason && final(journal).entries()
                            == old(journal).entries(),
                        None => match checkpoint_error(old(journal).entries(), action@) {
                            Some(reason) => r matches Err(message) && message@ == reason && final(journal).entries()
                                == old(journal).entries(),
                            None => {
                                &&& r is Ok
                                &&& final(self).phase is RenewResumed
                                &&& final(self).file_id == first.file_id
                                &&& final(self).total_chunks == first.total_chunks
                                &&& entry_of(old(journal).entries(), action@) matches Ok(at)
                                &&& chunks_noted(
                                    old(journal).entries(),
                                    final(journal).entries(),
                                    at,
                                    old(journal).entries()[at].upload->0,
                                    final(self).uploaded@,
                                )
                            },
                        },
                    },
                }
            }),
    {
        for i in 0..page.ranges.len()
            invariant
                self.phase == old(self).phase,
                self.same_session(old(self)),
                forall|chunk: u32| #[trigger] self.uploaded@.contains(chunk) <==> old(self).uploaded@.contains(chunk)
                    || listed(*page, i as int, chunk),
        {
            let ghost before = self.uploaded@;
            let range = page.ranges[i];
            add_range(&mut self.uploaded, range.start, range.end);
            assert forall|chunk: u32| #[trigger] self.uploaded@.contains(chunk) <==> old(self).uploaded@.contains(chunk)
                || listed(*page, i + 1, chunk) by {
                if listed(*page, i as int, chunk) {
                    let j = choose|j: int| 0 <= j < i && (#[trigger] page.ranges@[j]).start <= chunk <= page.ranges@[j].end;
                    assert(page.ranges@[j].start <= chunk <= page.ranges@[j].end);
                }
                if range.start <= chunk <= range.end {
                    assert(page.ranges@[i as int].start <= chunk <= page.ranges@[i as int].end);
                }
                assert(before.contains(chunk) <==> old(self).uploaded@.contains(chunk) || listed(*page, i as int, chunk));
            }
        }
        assert(self.uploaded@ =~= with_page(old(self).uploaded@, *page));
        let mut first = UploadSummary { file_id: page.file_id, size: page.size, total_chunks: page.total_chunks };
        if let UploadPhase::Query { first: Some(known), .. } = self.phase {
            first = known;
        }
        match page.next {
            Some(next) => {
                self.phase = UploadPhase::Query { start: Some(next), first: Some(first) };
                Ok(())
            },
            None => {
                if let Err(message) = validate_upload_status(&first, self.size, self.remote_id) {
                    return Err(message);
                }
                let chunks = self.uploaded.clone();
                if let Err(message) = journal.set_uploaded_chunks(action, chunks) {
                    return Err(message);
                }
                self.file_id = first.file_id;
                self.total_chunks = first.total_chunks;
                self.phase = UploadPhase::RenewResumed;
                Ok(())
            },
        }
    }

    /// Takes in that the state of an earlier session is not to be had.  Where
    /// the session is gone, the upload begins anew under a fresh request
    /// identifier.
    pub fn on_status_error(
        &mut self,
        err: &SyncError,
        journal: &mut RecoveryJournal,
        action: &PlanAction,
        fingerprint: [u8; 32],
        fresh_request_id: Vec<u8>,
    ) -> (r: Result<(), String>)
        requires
            old(self).phase is Query,
        ensures
            final(self).sound(),
            final(self).size == old(self).size,
            final(self).remote_id == old(self).remote_id,
            final(journal).same_header(old(journal)),
            final(self).session_id == old(self).session_id,
            final(self).file_id == old(self).file_id,
            final(self).total_chunks == old(self).total_chunks,
            r is Err ==> *final(self) == *old(self),
            (match *err {
                SyncError::NotFound(_) => true,
                SyncError::Conflict { message, .. } => has_part(message@, "expired"@),
                _ => false,
            }) && entry_of(old(journal).entries(), action@) is Ok ==> {
                &&& r is Ok
                &&& final(self).phase is Begin
                &&& final(self).request_id@ == fresh_request_id@
            },
            if !session_gone(err@) {
                &&& r matches Err(message)
                &&& message@ == "failed to resume upload session: "@ + fault_debug(err@)
                &&& final(journal).entries() == old(journal).entries()
            } else {
                match entry_of(old(journal).entries(), action@) {
                    Err(reason) => r matches Err(message) && message@ == reason && final(journal).entries()
                        == old(journal).entries(),
                    Ok(at) => {
                        &&& r is Ok
                        &&& final(self).phase is Begin
                        &&& final(self).request_id@ == fresh_request_id@
                        &&& final(self).uploaded@ == Set::<u32>::empty()
                        &&& final(journal).entries() == old(journal).entries().update(
                            at,
                            (JournalEntry {
                                upload: Some(
                                    (Checkpoint {
                                        fingerprint: fingerprint@,
                                        begin_request_id: fresh_request_id@,
                                        session_id: None,
                                        uploaded_ranges: Seq::empty(),
                                    }),
                                ),
                                ..old(journal).entries()[at]
                            }),
                        )
                    },
                }
            },
    {
        if !is_session_gone(err) {
            return Err(cat2("failed to resume upload session: ", err.debug_form().as_str()));
        }
        let ghost before = journal.entries();
        proof {
            crate::sync::journal::lemma_entry_of_sound(before, action@);
        }
        if let Err(message) = journal.reset_upload(action) {
            return Err(message);
        }
        proof {
            lemma_entry_of_kept(before, journal.entries(), action@);
        }
        match journal.prepare_upload(action, fingerprint, fresh_request_id) {
            Err(message) => Err(message),
            Ok(checkpoint) => {
                self.request_id = checkpoint.begin_request_id;
                self.uploaded = BTreeSet::new();
                self.phase = UploadPhase::Begin;
                proof {
                    let at = entry_of(before, action@)->Ok_0;
                    assert(journal.entries() =~= before.update(at, journal.entries()[at]));
                }
                Ok(())
            },
        }
    }

    /// Takes in the session that has begun.
    pub fn on_begun(&mut self, session: BeginUploadOutput, journal: &mut RecoveryJournal, action: &PlanAction) -> (r:
        Result<(), String>)
        requires
            old(self).phase is Begin,
            chunks_fit(old(self).size, session.total_chunks),
        ensures
            final(self).sound(),
            final(self).size == old(self).size,
            final(self).remote_id == old(self).remote_id,
            final(journal).same_header(old(journal)),
            final(self).request_id == old(self).request_id,
            r is Err ==> *final(self) == *old(self),
            match checkpoint_error(old(journal).entries(), action@) {
                Some(reason) => r matches Err(message) && message@ == reason && final(journal).entries()
                    == old(journal).entries(),
                None => {
                    &&& r is Ok
                    &&& final(self).session_id@ == session.session_id@
                    &&& final(self).file_id == session.file_id
                    &&& final(self).total_chunks == session.total_chunks
                    &&& final(self).uploaded@ == Set::<u32>::empty()
                    &&& final(self).phase == phase_from(Set::empty(), 0, session.total_chunks as int)
                    &&& entry_of(old(journal).entries(), action@) matches Ok(at)
                    &&& final(journal).entries() == old(journal).entries().update(
                        at,
                        (JournalEntry {
                            upload: Some(
                                (Checkpoint {
                                    session_id: Some(session.session_id@),
                                    ..old(journal).entries()[at].upload->0
                                }),
                            ),
                            ..old(journal).entries()[at]
                        }),
                    )
                },
            },
    {
        let copy = crate::sync::journal::copied_bytes(session.session_id.as_slice());
        if let Err(message) = journal.set_upload_session(action, copy) {
            return Err(message);
        }
        self.session_id = session.session_id;
        self.file_id = session.file_id;
        self.total_chunks = session.total_chunks;
        self.uploaded = BTreeSet::new();
        self.advance(0);
        Ok(())
    }

    /// Takes in that the session was renewed.
    pub fn on_renewed(&mut self)
        requires
            old(self).sound(),
            old(self).phase is RenewResumed || old(self).phase is RenewBefore,
        ensures
            final(self).sound(),
            final(self).same_session(old(self)),
            final(self).uploaded@ == old(self).uploaded@,
            final(self).phase == match old(self).phase {
                UploadPhase::RenewBefore { chunk } => UploadPhase::Send { chunk },
                _ => phase_from(old(self).uploaded@, 0, old(self).total_chunks as int),
            },
    {
        match self.phase {
            UploadPhase::RenewBefore { chunk } => {
                self.phase = UploadPhase::Send { chunk };
            },
            _ => {
                self.advance(0);
            },
        }
    }

    /// Takes in that the chunk that was sent is stored.
    pub fn on_chunk_stored(&mut self, journal: &mut RecoveryJournal, action: &PlanAction) -> (r: Result<(), String>)
        requires
            old(self).sound(),
            old(self).phase is Send,
        ensures
            final(self).sound(),
            final(self).same_session(old(self)),
            final(journal).same_header(old(journal)),
            r is Err ==> *final(self) == *old(self),
            ({
                let chunk = old(self).phase->Send_chunk;
                match checkpoint_error(old(journal).entries(), action@) {
                    Some(reason) => r matches Err(message) && message@ == reason && final(journal).entries()
                        == old(journal).entries(),
                    None => {
                        &&& r is Ok
                        &&& final(self).uploaded@ == old(self).uploaded@.insert(chunk)
                        &&& final(self).phase == phase_from(
                            old(self).uploaded@.insert(chunk),
                            chunk + 1,
                            old(self).total_chunks as int,
                        )
                        &&& entry_of(old(journal).entries(), action@) matches Ok(at)
                        &&& chunk_noted(
                            old(journal).entries(),
                            final(journal).entries(),
                            at,
                            old(journal).entries()[at].upload->0,
                            chunk,
                        )
                    },
                }
            }),
    {
        if let UploadPhase::Send { chunk } = self.phase {
            if let Err(message) = journal.mark_uploaded_chunk(action, chunk) {
                return Err(message);
            }
            self.uploaded.insert(chunk);
            self.advance(chunk + 1);
        }
        Ok(())
    }

    /// Takes in the end of the session: it has to be about the file of the
    /// session, and a file is new exactly where none was replaced.
    pub fn on_committed(&mut self, committed: &CommitUploadOutput, journal: &mut RecoveryJournal, action: &PlanAction) -> (r:
        Result<u32, String>)
        requires
            old(self).sound(),
            old(self).phase is Commit,
        ensures
            final(self).sound(),
            final(self).same_session(old(self)),
            final(self).uploaded@ == old(self).uploaded@,
            final(journal).same_header(old(journal)),
            r is Err ==> *final(self) == *old(self),
            if committed.id != old(self).file_id || committed.created != old(self).remote_id is None {
                &&& r matches Err(message)
                &&& message@ == "atomic upload returned unexpected file id "@ + decimal(committed.id as nat)
                    + " (created="@ + (if committed.created {
                    "true"@
                } else {
                    "false"@
                }) + ")"@
                &&& final(journal).entries() == old(journal).entries()
            } else {
                match entry_of(old(journal).entries(), action@) {
                    Err(reason) => r matches Err(message) && message@ == reason && final(journal).entries()
                        == old(journal).entries(),
                    Ok(at) => {
                        &&& r == Ok::<u32, String>(committed.id)
                        &&& final(self).phase == (UploadPhase::Done { id: committed.id })
                        &&& final(journal).entries() == old(journal).entries().update(
                            at,
                            (JournalEntry { upload: None, ..old(journal).entries()[at] }),
                        )
                    },
                }
            },
    {
        if committed.id != self.file_id || committed.created != self.remote_id.is_none() {
            let created = if committed.created { "true" } else { "false" };
            return Err(
                cat5(
                    "atomic upload returned unexpected file id ",
                    decimal_text(committed.id as u64).as_str(),
                    " (created=",
                    created,
                    ")",
                ),
            );
        }
        if let Err(message) = journal.reset_upload(action) {
            return Err(message);
        }
        self.phase = UploadPhase::Done { id: committed.id };
        Ok(committed.id)
    }
}

proof fn lemma_entry_of_kept(before: Seq<JournalEntry>, after: Seq<JournalEntry>, step: PlanStep)
    requires
        before.len() == after.len(),
        forall|i: int| 0 <= i < before.len() ==> (#[trigger] after[i]).kind == before[i].kind && after[i].path
            == before[i].path,
    ensures
        entry_of(after, step) == entry_of(before, step),
{
    if let Some((kind, path)) = crate::sync::journal::identity_of(step) {
        lemma_position_kept(before, after, kind, path, 0);
    }
}

proof fn lemma_position_kept(
    before: Seq<JournalEntry>,
    after: Seq<JournalEntry>,
    kind: crate::sync::journal::ActionKind,
    path: Seq<char>,
    from: int,
)
    requires
        before.len() == after.len(),
        forall|i: int| 0 <= i < before.len() ==> (#[trigger] after[i]).kind == before[i].kind && after[i].path
            == before[i].path,
    ensures
        crate::sync::journal::entry_position(after, kind, path, from) == crate::sync::journal::entry_position(
            before,
            kind,
            path,
            from,
        ),
    decreases before.len() - from,
{
    if 0 <= from < before.len() {
        assert(after[from].kind == before[from].kind);
        lemma_position_kept(before, after, kind, path, from + 1);
    }
}

/// An upload ends its session only once every chunk is stored, and it sends no
/// chunk that is stored already.
pub proof fn law_uploads_send_each_missing_chunk_once(upload: AtomicUpload)
    requires
        upload.sound(),
    ensures
        upload.phase is Commit ==> forall|chunk: u32| chunk < upload.total_chunks ==> #[trigger] upload.uploaded@.contains(chunk),
        upload.phase matches UploadPhase::Send { chunk } ==> chunk < upload.total_chunks && !upload.uploaded@.contains(chunk)
            && forall|earlier: u32| earlier < chunk ==> #[trigger] upload.uploaded@.contains(earlier),
{
}

/// A session that is missing or has expired is replaced, and no other refusal
/// makes an upload begin anew: the refusal is that something was not found, or
/// a conflict whose message speaks of expiry.
pub proof fn law_missing_and_expired_sessions_are_gone(err: SyncError)
    ensures
        session_gone(err@) <==> match err {
            SyncError::NotFound(_) => true,
            SyncError::Conflict { message, .. } => exists|a: Seq<char>, b: Seq<char>|
                message@ == #[trigger] (a + "expired"@ + b),
            _ => false,
        },
{
    if let SyncError::Conflict { message, .. } = err {
        crate::text::law_parts_are_found_anywhere(message@, "expired"@, Seq::empty(), Seq::empty());
        if exists|a: Seq<char>, b: Seq<char>| message@ == #[trigger] (a + "expired"@ + b) {
            let (a, b) = choose|a: Seq<char>, b: Seq<char>| message@ == #[trigger] (a + "expired"@ + b);
            crate::text::law_parts_are_found_anywhere(message@, "expired"@, a, b);
        }
    }
}

/// A file has just as many chunks as it takes to hold its bytes, and each chunk
/// begins where the one before it ends.
pub proof fn law_chunks_are_as_few_as_possible(size: u64, chunk: u32)
    ensures
        chunk_count(size) * CHUNK_SIZE >= size,
        size > 0 ==> (chunk_count(size) - 1) * CHUNK_SIZE < size,
        size == 0 ==> chunk_count(size) == 0,
        chunk < u32::MAX && chunk + 1 < chunk_count(size) ==> chunk_offset((chunk + 1) as u32) == chunk_offset(
            chunk,
        ) + chunk_len(
            size,
            chunk,
        ),
{
}

/// A saved session is taken up exactly where it is of a file of the same size
/// that is cut into chunks in the same way, and of the file that is replaced
/// where one is.
pub proof fn law_only_sessions_of_the_same_file_are_resumed(summary: UploadSummary, size: u64, file_id: Option<u32>)
    ensures
        session_mismatch(summary, size, file_id) is None <==> {
            &&& summary.size == size
            &&& summary.total_chunks * CHUNK_SIZE >= size
            &&& size > 0 ==> (summary.total_chunks - 1) * CHUNK_SIZE < size
            &&& size == 0 ==> summary.total_chunks == 0
            &&& file_id matches Some(id) ==> summary.file_id == id
        },
{
    law_chunks_are_as_few_as_possible(size, 0);
}

proof fn lemma_next_missing(stored: Set<u32>, from: int, total: int)
    requires
        0 <= from,
        total <= u32::MAX,
    ensures
        match next_missing(stored, from, total) {
            Some(chunk) => from <= chunk < total && !stored.contains(chunk as u32) && forall|i: u32|
                from <= i < chunk ==> #[trigger] stored.contains(i),
            None => forall|i: u32| from <= i < total ==> #[trigger] stored.contains(i),
        },
    decreases total - from,
{
    if from < total && stored.contains(from as u32) {
        lemma_next_missing(stored, from + 1, total);
        assert(from == from as u32);
    }
}

/// An upload goes on with the first chunk that is not stored, and renews its
/// session before every chunk whose number is a multiple of 512 but not zero;
/// it ends the session exactly where no chunk is missing.
pub proof fn law_uploads_go_on_with_the_first_missing_chunk(stored: Set<u32>, from: int, total: int)
    requires
        0 <= from,
        total <= u32::MAX,
    ensures
        match phase_from(stored, from, total) {
            UploadPhase::Send { chunk } => {
                &&& from <= chunk < total
                &&& !stored.contains(chunk)
                &&& forall|i: u32| from <= i < chunk ==> #[trigger] stored.contains(i)
                &&& chunk == 0 || chunk % 512 != 0
            },
            UploadPhase::RenewBefore { chunk } => {
                &&& from <= chunk < total
                &&& !stored.contains(chunk)
                &&& forall|i: u32| from <= i < chunk ==> #[trigger] stored.contains(i)
                &&& chunk > 0 && chunk % 512 == 0
            },
            UploadPhase::Commit => forall|i: u32| from <= i < total ==> #[trigger] stored.contains(i),
            _ => false,
        },
{
    lemma_next_missing(stored, from, total);
}

/// After a page of a session's state exactly those chunks count as stored that
/// did before or that lie in a range of the page, both ends among them.
pub proof fn law_pages_add_their_ranges(stored: Set<u32>, page: UploadStatusOutput, chunk: u32)
    ensures
        with_page(stored, page).contains(chunk) <==> stored.contains(chunk) || exists|i: int|
            0 <= i < page.ranges@.len() && (#[trigger] page.ranges@[i]).start <= chunk && chunk <= page.ranges@[i].end,
{
}

/// What a page says of the whole upload is its file, size and number of chunks.
pub proof fn law_summaries_keep_what_pages_say(page: UploadStatusOutput)
    ensures
        summary_of(page).file_id == page.file_id,
        summary_of(page).size == page.size,
        summary_of(page).total_chunks == page.total_chunks,
{
}

/// Every chunk of a file begins within it, and so does every chunk of a session
/// that has as many chunks as the file.
pub proof fn law_sessions_of_the_file_fit(size: u64, total: u32)
    requires
        total == chunk_count(size),
    ensures
        chunks_fit(size, total),
        chunks_fit(size, total) ==> forall|chunk: u32| chunk < total ==> #[trigger] chunk_offset(chunk) <= size,
{
}

/// A checkpoint can be changed exactly where the step has an entry in the
/// journal and that entry has a checkpoint.
pub proof fn law_checkpoints_are_of_journaled_steps(entries: Seq<JournalEntry>, step: PlanStep)
    ensures
        checkpoint_error(entries, step) is None <==> entry_of(entries, step) is Ok && entries[entry_of(
            entries,
            step,
        )->Ok_0].upload is Some,
{
}

/// An upload keeps its file, its size, its request and its session.
pub proof fn law_uploads_keep_their_session(after: &AtomicUpload, before: &AtomicUpload)
    ensures
        after.same_session(before) <==> {
            &&& after.size == before.size
            &&& after.remote_id == before.remote_id
            &&& after.request_id == before.request_id
            &&& after.session_id == before.session_id
            &&& after.file_id == before.file_id
            &&& after.total_chunks == before.total_chunks
        },
{
}

/// What is noted of stored chunks is noted in the entry of the upload alone, and
/// the ranges there hold exactly the stored chunks.
pub proof fn law_stored_chunks_are_noted(
    before: Seq<JournalEntry>,
    after: Seq<JournalEntry>,
    at: int,
    other: int,
    checkpoint: Checkpoint,
    stored: Set<u32>,
)
    requires
        0 <= at < before.len(),
        0 <= other < before.len(),
        chunks_noted(before, after, at, checkpoint, stored),
    ensures
        after.len() == before.len(),
        other != at ==> after[other] == before[other],
        after[at].kind == before[at].kind,
        after[at].path == before[at].path,
        after[at].state == before[at].state,
        after[at].upload matches Some(upload) && covered(upload.uploaded_ranges) == stored && compact(
            upload.uploaded_ranges,
        ) && upload.session_id == checkpoint.session_id && upload.begin_request_id == checkpoint.begin_request_id
            && upload.fingerprint == checkpoint.fingerprint,
{
}

/// One more stored chunk is noted beside those that were.
pub proof fn law_every_stored_chunk_is_noted(
    before: Seq<JournalEntry>,
    after: Seq<JournalEntry>,
    at: int,
    other: int,
    checkpoint: Checkpoint,
    chunk: u32,
    earlier: u32,
)
    requires
        0 <= at < before.len(),
        0 <= other < before.len(),
        chunk_noted(before, after, at, checkpoint, chunk),
    ensures
        other != at ==> after[other] == before[other],
        after[at].upload matches Some(upload) && covered(upload.uploaded_ranges).contains(chunk) && (earlier != chunk
            ==> (covered(upload.uploaded_ranges).contains(earlier) <==> covered(checkpoint.uploaded_ranges).contains(
            earlier,
        ))) && upload.session_id == checkpoint.session_id,
{
}

/// Why a saved session is not taken up is told: its size before its file.
pub proof fn law_mismatches_are_told(summary: UploadSummary, size: u64, file_id: Option<u32>)
    ensures
        summary.size != size ==> session_mismatch(summary, size, file_id) == Some(
            "saved upload session no longer matches the local file size"@,
        ),
        summary.size == size && summary.total_chunks == chunk_count(size) && file_id is Some && file_id->0
            != summary.file_id ==> session_mismatch(summary, size, file_id) == Some(
            "saved upload session no longer matches the replacement target"@,
        ),
{
}

/// A session fits exactly where each of its chunks begins within the file.
pub proof fn law_sessions_fit_chunk_by_chunk(size: u64, total: u32)
    ensures
        chunks_fit(size, total) <==> forall|chunk: u32| chunk < total ==> #[trigger] chunk_offset(chunk) <= size,
{
    if total > 0 {
        let last = (total - 1) as u32;
        assert(chunk_offset(last) == (total - 1) * CHUNK_SIZE);
    }
}

} // verus!

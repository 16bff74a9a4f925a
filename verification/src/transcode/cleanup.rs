//! Removing the outputs of a job that failed or was cancelled.
use vstd::prelude::*;

use crate::entry::{fault_debug, DeleteEntryIfInput, EntryKind, SyncError};
use crate::file::FileInfo;
use crate::ordered::strictly_increasing;
use crate::outside::{
    hex_bytes, decode_hex, hex_encode, hex_error, hex_text, is_hex, law_hex_round_trip, principal_text, random_bytes,
};
use crate::principal::Principal;
use crate::sync::execute::REQUEST_ID_BYTES;
use crate::sync::local::digest_of_bytes;
use crate::text::{cat2, cat3, cat4, decimal, decimal_text, owned, same_bytes, same_text, utf8};
use crate::transcode::ffmpeg::texts;
use crate::transcode::journal::{CleanupIntent, IntentModel, OutputRecord, VariantJournal, WorkerJournal};
use crate::transcode::types::{
    status_name, CleanupOptions, CleanupOutput, CleanupReport, MediaVariant, TranscodeJob, TranscodeJobStatus,
    SHA3_256_BYTES,
};
use crate::transcode::worker::{find_variant, variant_place};

verus! {

/// Whether a file is the candidate of a variant.
pub open spec fn is_candidate(variants: Seq<MediaVariant>, bucket: Seq<u8>, file_id: u32) -> bool {
    exists|i: int|
        0 <= i < variants.len() && (#[trigger] variants[i]).candidate is Some && variants[i].candidate->0.bucket@
            == bucket && variants[i].candidate->0.file_id == file_id
}

fn holds_candidate(variants: &Vec<MediaVariant>, bucket: &Principal, file_id: u32) -> (r: bool)
    ensures
        r == is_candidate(variants@, bucket@, file_id),
{
    for i in 0..variants.len()
        invariant
            forall|j: int|
                0 <= j < i ==> !((#[trigger] variants@[j]).candidate is Some && variants@[j].candidate->0.bucket@
                    == bucket@ && variants@[j].candidate->0.file_id == file_id),
    {
        match &variants[i].candidate {
            Some(candidate) => {
                if candidate.bucket == *bucket && candidate.file_id == file_id {
                    return true;
                }
            },
            None => {},
        }
    }
    false
}

/// Whether every variant that the journal knows is one of the job.
pub open spec fn knows_labels(labels: Seq<Seq<char>>, variants: Seq<MediaVariant>) -> bool {
    forall|i: int| 0 <= i < labels.len() ==> variant_place(variants, #[trigger] labels[i]) is Some
}

/// Whether an output of the job is a registered asset.
pub open spec fn has_assets(variants: Seq<MediaVariant>) -> bool {
    exists|i: int| 0 <= i < variants.len() && (#[trigger] variants[i]).asset_id is Some
}

/// Why nothing may be cleaned up.
pub open spec fn cleanup_fault(journal: &WorkerJournal, job: &TranscodeJob) -> Option<Seq<char>> {
    if journal.source_hash_hex@ != hex_text(job.source_hash@) {
        Some("transcode journal source hash does not match the Hub job"@)
    } else if !knows_labels(journal.variants.keys(), job.variants@) {
        Some("transcode journal contains a variant that is not in the Hub job"@)
    } else if job.status is Ready {
        Some("ready transcode outputs are registered Assets and cannot be cleaned"@)
    } else if !(job.status is Failed || job.status is Cancelled) {
        Some("transcode cleanup requires a failed or cancelled job, found "@ + status_name(job.status))
    } else if has_assets(job.variants@) {
        Some("transcode cleanup refused a job containing registered Assets"@)
    } else {
        None
    }
}

/// What is done next.
#[derive(Clone, Copy, Debug, PartialEq, Eq, Structural)]
pub enum CleanupStep {
    /// Every output is dealt with.
    Done,
    /// An output was kept.
    Retained,
    /// The deletion of a file has to be prepared.
    Prepare { file_id: u32 },
    /// A file is deleted.
    Delete { file_id: u32 },
}

/// The local output of a variant.
pub struct LocalFile {
    pub hash: [u8; 32],
    pub size: u64,
}

/// What a file has to be like to be deleted.
pub struct CleanupTarget {
    pub hash: [u8; 32],
    pub size: u64,
}

/// The digest that an output is expected to have.
pub open spec fn expected_digest(label: Seq<char>, record: OutputRecord, local: Option<LocalFile>) -> Result<
    Seq<u8>,
    Seq<char>,
> {
    match record.content_hash_hex {
        Some(text) => if is_hex(utf8(text)) {
            Ok(hex_bytes(utf8(text)))
        } else {
            Err("journal hash for variant "@ + label + " is invalid: "@ + hex_error(utf8(text)))
        },
        None => match local {
            Some(local) => Ok(local.hash@),
            None => Err(
                "variant "@ + label + " has neither a recorded hash nor a local output; cleanup refused"@,
            ),
        },
    }
}

/// What a file has to be like to be deleted, or why none is: its digest and
/// size come from the journal, else from the local output; a local output has
/// to agree.  `length` is what reading the length of the output gives.
pub open spec fn cleanup_target(
    label: Seq<char>,
    record: OutputRecord,
    local: Option<LocalFile>,
    length: Result<u64, String>,
) -> Result<(Seq<u8>, u64), Seq<char>> {
    match expected_digest(label, record, local) {
        Err(message) => Err(message),
        Ok(hash) => if hash.len() != SHA3_256_BYTES {
            Err("journal hash for variant "@ + label + " is not SHA3-256"@)
        } else if record.size is None && length is Err {
            Err(length->Err_0@)
        } else {
            let size = match record.size {
                Some(size) => size,
                None => length->Ok_0,
            };
            if local is Some && (local->0.hash@ != hash || local->0.size != size) {
                Err(
                    "local output for variant "@ + label
                        + " no longer matches the journal size/hash; cleanup refused"@,
                )
            } else {
                Ok((hash, size))
            }
        },
    }
}

/// What a file has to be like to be deleted.
pub fn find_cleanup_target(
    label: &str,
    record: &VariantJournal,
    local: Option<LocalFile>,
    length: Result<u64, String>,
) -> (r: Result<CleanupTarget, String>)
    ensures
        match r {
            Ok(target) => cleanup_target(label@, record@, local, length) == Ok::<(Seq<u8>, u64), Seq<char>>(
                (target.hash@, target.size),
            ),
            Err(message) => cleanup_target(label@, record@, local, length) == Err::<(Seq<u8>, u64), Seq<char>>(
                message@,
            ),
        },
{
    let hash = match &record.content_hash_hex {
        Some(text) => match decode_hex(text.as_str()) {
            Ok(bytes) => match digest_of_bytes(bytes.as_slice()) {
                Some(hash) => hash,
                None => return Err(cat3("journal hash for variant ", label, " is not SHA3-256")),
            },
            Err(message) => return Err(
                cat4("journal hash for variant ", label, " is invalid: ", message.as_str()),
            ),
        },
        None => match &local {
            Some(local) => local.hash,
            None => return Err(
                cat3(
                    "variant ",
                    label,
                    " has neither a recorded hash nor a local output; cleanup refused",
                ),
            ),
        },
    };
    assert(expected_digest(label@, record@, local) == Ok::<Seq<u8>, Seq<char>>(hash@));
    let size: u64 = match record.size {
        Some(size) => size,
        None => match length {
            Ok(size) => size,
            Err(message) => return Err(message),
        },
    };
    match &local {
        Some(local) => {
            if !same_bytes(local.hash.as_slice(), hash.as_slice()) || local.size != size {
                return Err(
                    cat3(
                        "local output for variant ",
                        label,
                        " no longer matches the journal size/hash; cleanup refused",
                    ),
                );
            }
        },
        None => {},
    }
    Ok(CleanupTarget { hash, size })
}

/// Whether a bucket's file is the one that is to be deleted.
pub open spec fn is_target(remote: FileInfo, file_id: u32, target: CleanupTarget) -> bool {
    &&& remote.id == file_id
    &&& remote.size == target.size
    &&& remote.hash is Some
    &&& remote.hash->0@ == target.hash@
}

/// What the journal holds once a deletion is prepared.
pub open spec fn prepared_record(
    record: OutputRecord,
    target: CleanupTarget,
    remote: FileInfo,
    request_id: Seq<u8>,
) -> OutputRecord {
    OutputRecord {
        output_path: record.output_path,
        file_id: record.file_id,
        content_hash_hex: Some(hex_text(target.hash@)),
        size: Some(target.size),
        cleanup: Some(
            IntentModel {
                request_id_hex: hex_text(request_id),
                parent: remote.parent,
                revision: remote.revision,
                expected_hash_hex: hex_text(target.hash@),
            },
        ),
    }
}

/// What is wrong with a prepared deletion.
pub open spec fn intent_fault(label: Seq<char>, intent: IntentModel) -> Option<Seq<char>> {
    let id = utf8(intent.request_id_hex);
    let hash = utf8(intent.expected_hash_hex);
    if !is_hex(id) {
        Some("cleanup request ID for variant "@ + label + " is invalid: "@ + hex_error(id))
    } else if !is_hex(hash) {
        Some("cleanup hash for variant "@ + label + " is invalid: "@ + hex_error(hash))
    } else if hex_bytes(hash).len() != SHA3_256_BYTES {
        Some("cleanup hash for variant "@ + label + " is not a SHA3-256 digest"@)
    } else {
        None
    }
}

/// Whether a request asks for what was prepared: the file is deleted only if
/// it still has the parent, revision and digest that it had then.
pub open spec fn asks_for(input: &DeleteEntryIfInput, file_id: u32, intent: IntentModel) -> bool {
    &&& input.request_id@ == hex_bytes(utf8(intent.request_id_hex))
    &&& input.id == file_id
    &&& input.kind is File
    &&& input.expected_parent == intent.parent
    &&& input.expected_revision == intent.revision
    &&& input.expected_hash is Some
    &&& input.expected_hash->0@ == hex_bytes(utf8(intent.expected_hash_hex))
}

/// Whether an entry of the report says the given.
pub open spec fn output_is(
    output: CleanupOutput,
    label: Seq<char>,
    file_id: Option<u32>,
    reason: Seq<char>,
) -> bool {
    output.label@ == label && output.file_id == file_id && output.reason@ == reason
}

/// The course of a clean-up through the outputs that the journal knows.
pub struct CleanupRun {
    pub options: CleanupOptions,
    pub job: TranscodeJob,
    pub journal: WorkerJournal,
    pub labels: Vec<String>,
    pub index: usize,
    pub deleted: Vec<CleanupOutput>,
    pub retained: Vec<CleanupOutput>,
}

impl CleanupRun {
    /// What holds of a clean-up at every moment: every output before the
    /// current one is either deleted or kept.
    pub open spec fn valid(&self) -> bool {
        &&& self.index <= self.labels@.len()
        &&& self.deleted@.len() + self.retained@.len() == self.index
        &&& forall|i: int|
            0 <= i < self.labels@.len() ==> self.journal.records().contains_key((#[trigger] self.labels@[i])@)
        &&& self.job.status is Failed || self.job.status is Cancelled
        &&& !has_assets(self.job.variants@)
    }

    /// The clean-up is about the same work as before.
    pub open spec fn same_run(&self, other: &CleanupRun) -> bool {
        &&& self.options == other.options
        &&& self.job == other.job
        &&& self.labels == other.labels
        &&& self.journal.same_work(&other.journal)
    }

    /// The label of the current output.
    pub open spec fn label(&self) -> Seq<char> {
        self.labels@[self.index as int]@
    }

    /// What the journal holds of the current output.
    pub open spec fn record(&self) -> OutputRecord {
        self.journal.records()[self.label()]
    }

    /// Whether a file of the current output is kept for a retry of the job.
    pub open spec fn keeps(&self, file_id: u32) -> bool {
        self.job.status is Failed && is_candidate(self.job.variants@, self.options.bucket@, file_id)
    }

    /// A clean-up of a job, where nothing forbids it.
    pub fn start(options: CleanupOptions, journal: WorkerJournal, job: TranscodeJob) -> (r: Result<CleanupRun, String>)
        ensures
            match r {
                Ok(run) => {
                    &&& cleanup_fault(&journal, &job) is None
                    &&& run.valid()
                    &&& run.options == options
                    &&& run.job == job
                    &&& run.journal == journal
                    &&& texts(run.labels@) == journal.variants.keys()
                    &&& strictly_increasing(journal.variants.keys())
                    &&& run.index == 0
                    &&& run.deleted@.len() == 0
                    &&& run.retained@.len() == 0
                },
                Err(message) => cleanup_fault(&journal, &job) == Some(message@),
            },
    {
        if !same_text(journal.source_hash_hex.as_str(), hex_encode(job.source_hash.as_slice()).as_str()) {
            return Err(owned("transcode journal source hash does not match the Hub job"));
        }
        let count: usize = journal.variants.len();
        proof {
            journal.variants.lemma_contents();
        }
        let ghost keys = journal.variants.keys();
        let mut labels: Vec<String> = Vec::new();
        for i in 0..count
            invariant
                count == keys.len(),
                keys == journal.variants.keys(),
                texts(labels@) == keys.take(i as int),
                forall|j: int| 0 <= j < i ==> variant_place(job.variants@, #[trigger] keys[j]) is Some,
                forall|j: int|
                    0 <= j < labels@.len() ==> journal.records().contains_key((#[trigger] labels@[j])@),
                journal.source_hash_hex@ == hex_text(job.source_hash@),
        {
            let label = journal.variants.path_at(i);
            if find_variant(&job.variants, label.as_str()).is_none() {
                assert(variant_place(job.variants@, keys[i as int]) is None);
                return Err(owned("transcode journal contains a variant that is not in the Hub job"));
            }
            let ghost before = labels@;
            labels.push(owned(label.as_str()));
            assert(texts(labels@) =~= texts(before).push(label@));
            assert(keys.take(i + 1) =~= keys.take(i as int).push(label@));
        }
        assert(keys.take(count as int) =~= keys);
        match job.status {
            TranscodeJobStatus::Failed | TranscodeJobStatus::Cancelled => {},
            TranscodeJobStatus::Ready => return Err(
                owned("ready transcode outputs are registered Assets and cannot be cleaned"),
            ),
            _ => return Err(
                cat2("transcode cleanup requires a failed or cancelled job, found ", job.status.name()),
            ),
        }
        let variants: usize = job.variants.len();
        for i in 0..variants
            invariant
                variants == job.variants@.len(),
                forall|j: int| 0 <= j < i ==> (#[trigger] job.variants@[j]).asset_id is None,
                knows_labels(journal.variants.keys(), job.variants@),
                journal.source_hash_hex@ == hex_text(job.source_hash@),
                job.status is Failed || job.status is Cancelled,
        {
            if job.variants[i].asset_id.is_some() {
                assert(has_assets(job.variants@));
                return Err(owned("transcode cleanup refused a job containing registered Assets"));
            }
        }
        Ok(
            CleanupRun {
                options,
                job,
                journal,
                labels,
                index: 0,
                deleted: Vec::new(),
                retained: Vec::new(),
            },
        )
    }

    /// Decides on the current output.  One without a file is kept, and so is
    /// the current candidate of a failed job; the file of any other is deleted,
    /// once that is prepared.
    pub fn step(&mut self) -> (r: CleanupStep)
        requires
            old(self).valid(),
        ensures
            final(self).valid(),
            final(self).same_run(old(self)),
            final(self).journal == old(self).journal,
            final(self).deleted == old(self).deleted,
            r is Retained ==> {
                &&& final(self).index == old(self).index + 1
                &&& final(self).retained@.drop_last() == old(self).retained@
                &&& final(self).retained@.len() == old(self).retained@.len() + 1
            },
            r !is Retained ==> final(self).index == old(self).index && final(self).retained == old(self).retained,
            if old(self).index == old(self).labels@.len() {
                r is Done
            } else {
                match old(self).record().file_id {
                    None => r is Retained && output_is(
                        final(self).retained@.last(),
                        old(self).label(),
                        None,
                        "journal has no remote output"@,
                    ),
                    Some(file_id) => if old(self).keeps(file_id) {
                        r is Retained && output_is(
                            final(self).retained@.last(),
                            old(self).label(),
                            Some(file_id),
                            "current failed-job candidate is retained for a safe retry"@,
                        )
                    } else if old(self).record().cleanup is None {
                        r == (CleanupStep::Prepare { file_id })
                    } else {
                        r == (CleanupStep::Delete { file_id })
                    },
                }
            },
    {
        let count: usize = self.labels.len();
        if self.index == count {
            return CleanupStep::Done;
        }
        let label = self.labels[self.index].as_str();
        let (file_id, prepared) = match self.journal.record(label) {
            Some(record) => (record.file_id, record.cleanup.is_some()),
            None => (None, false),
        };
        let output = match file_id {
            None => CleanupOutput {
                label: owned(label),
                file_id: None,
                reason: owned("journal has no remote output"),
            },
            Some(id) => {
                if self.job.status == TranscodeJobStatus::Failed && holds_candidate(
                    &self.job.variants,
                    &self.options.bucket,
                    id,
                ) {
                    CleanupOutput {
                        label: owned(label),
                        file_id: Some(id),
                        reason: owned("current failed-job candidate is retained for a safe retry"),
                    }
                } else if prepared {
                    return CleanupStep::Delete { file_id: id };
                } else {
                    return CleanupStep::Prepare { file_id: id };
                }
            },
        };
        let ghost before = self.retained@;
        self.retained.push(output);
        assert(self.retained@.drop_last() =~= before);
        self.index = self.index + 1;
        CleanupStep::Retained
    }

    /// Records a prepared deletion of the current output.  The journal has to
    /// be saved before the file is deleted.
    pub fn record_intent(&mut self, target: &CleanupTarget, remote: &FileInfo, request_id: &[u8])
        requires
            old(self).valid(),
            old(self).index < old(self).labels@.len(),
        ensures
            final(self).valid(),
            final(self).same_run(old(self)),
            final(self).index == old(self).index,
            final(self).deleted == old(self).deleted,
            final(self).retained == old(self).retained,
            final(self).journal.records() == old(self).journal.records().insert(
                old(self).label(),
                prepared_record(old(self).record(), *target, *remote, request_id@),
            ),
    {
        let label = self.labels[self.index].as_str();
        let (output_path, file_id) = match self.journal.record(label) {
            Some(record) => (owned(record.output_path.as_str()), record.file_id),
            None => (owned(""), None),
        };
        let record = VariantJournal {
            output_path,
            file_id,
            content_hash_hex: Some(hex_encode(target.hash.as_slice())),
            size: Some(target.size),
            cleanup: Some(
                CleanupIntent {
                    request_id_hex: hex_encode(request_id),
                    parent: remote.parent,
                    revision: remote.revision,
                    expected_hash_hex: hex_encode(target.hash.as_slice()),
                },
            ),
        };
        self.journal.set_record(label, record);
    }

    /// Prepares the deletion of the current output: the bucket's file has to be
    /// the one that is meant, and a fresh request identifier is chosen.
    pub fn prepare_cleanup_intent(&mut self, file_id: u32, target: &CleanupTarget, remote: &FileInfo) -> (r: Result<
        (),
        String,
    >)
        requires
            old(self).valid(),
            old(self).index < old(self).labels@.len(),
        ensures
            final(self).valid(),
            final(self).same_run(old(self)),
            final(self).index == old(self).index,
            final(self).deleted == old(self).deleted,
            final(self).retained == old(self).retained,
            match r {
                Ok(_) => {
                    &&& is_target(*remote, file_id, *target)
                    &&& exists|request_id: Seq<u8>|
                        request_id.len() == 16 && final(self).journal.records() == old(self).journal.records().insert(
                            old(self).label(),
                            #[trigger] prepared_record(old(self).record(), *target, *remote, request_id),
                        )
                },
                Err(message) => {
                    &&& final(self).journal == old(self).journal
                    &&& message@ == if is_target(*remote, file_id, *target) {
                        "failed to generate transcode cleanup request ID"@
                    } else {
                        "remote file "@ + decimal(file_id as nat)
                            + " no longer matches the journal size/hash; cleanup refused"@
                    }
                },
            },
    {
        let same_hash = match &remote.hash {
            Some(hash) => same_bytes(hash.as_slice(), target.hash.as_slice()),
            None => false,
        };
        if remote.id != file_id || remote.size != target.size || !same_hash {
            return Err(
                cat3(
                    "remote file ",
                    decimal_text(file_id as u64).as_str(),
                    " no longer matches the journal size/hash; cleanup refused",
                ),
            );
        }
        match random_bytes(REQUEST_ID_BYTES) {
            Some(request_id) => {
                self.record_intent(target, remote, request_id.as_slice());
                Ok(())
            },
            None => Err(owned("failed to generate transcode cleanup request ID")),
        }
    }

    /// The request that deletes the current output as it was prepared.
    pub fn delete_input(&self, file_id: u32) -> (r: Result<DeleteEntryIfInput, String>)
        requires
            self.valid(),
            self.index < self.labels@.len(),
            self.record().cleanup is Some,
        ensures
            match r {
                Ok(input) => {
                    &&& intent_fault(self.label(), self.record().cleanup->0) is None
                    &&& asks_for(&input, file_id, self.record().cleanup->0)
                },
                Err(message) => intent_fault(self.label(), self.record().cleanup->0) == Some(message@),
            },
    {
        let label = self.labels[self.index].as_str();
        match self.journal.record(label) {
            Some(record) => match &record.cleanup {
                Some(intent) => {
                    let request_id = match decode_hex(intent.request_id_hex.as_str()) {
                        Ok(bytes) => bytes,
                        Err(message) => return Err(
                            cat4("cleanup request ID for variant ", label, " is invalid: ", message.as_str()),
                        ),
                    };
                    let hash = match decode_hex(intent.expected_hash_hex.as_str()) {
                        Ok(bytes) => bytes,
                        Err(message) => return Err(
                            cat4("cleanup hash for variant ", label, " is invalid: ", message.as_str()),
                        ),
                    };
                    let digest = match digest_of_bytes(hash.as_slice()) {
                        Some(digest) => digest,
                        None => return Err(
                            cat3("cleanup hash for variant ", label, " is not a SHA3-256 digest"),
                        ),
                    };
                    Ok(
                        DeleteEntryIfInput {
                            request_id,
                            id: file_id,
                            kind: EntryKind::File,
                            expected_parent: intent.parent,
                            expected_revision: intent.revision,
                            expected_hash: Some(digest),
                        },
                    )
                },
                None => Err(cat3("cleanup intent for variant ", label, " was not persisted")),
            },
            None => Err(cat3("cleanup intent for variant ", label, " was not persisted")),
        }
    }

    /// Takes in that the file of the current output is gone; `removed` tells
    /// whether it was there.  The journal has to be saved then.
    pub fn on_deleted(&mut self, file_id: u32, removed: bool)
        requires
            old(self).valid(),
            old(self).index < old(self).labels@.len(),
        ensures
            final(self).valid(),
            final(self).same_run(old(self)),
            final(self).index == old(self).index + 1,
            final(self).retained == old(self).retained,
            final(self).deleted@.len() == old(self).deleted@.len() + 1,
            final(self).deleted@.drop_last() == old(self).deleted@,
            output_is(
                final(self).deleted@.last(),
                old(self).label(),
                Some(file_id),
                if removed {
                    "remote output deleted with hash/revision preconditions"@
                } else {
                    "remote output was already absent"@
                },
            ),
            final(self).journal.records() == old(self).journal.records().insert(
                old(self).label(),
                (OutputRecord { file_id: None, cleanup: None, ..old(self).record() }),
            ),
    {
        let count: usize = self.labels.len();
        let label = self.labels[self.index].as_str();
        let reason = if removed {
            "remote output deleted with hash/revision preconditions"
        } else {
            "remote output was already absent"
        };
        let output = CleanupOutput { label: owned(label), file_id: Some(file_id), reason: owned(reason) };
        let record = match self.journal.record(label) {
            Some(record) => {
                let mut record = record.duplicate();
                record.file_id = None;
                record.cleanup = None;
                Some(record)
            },
            None => None,
        };
        match record {
            Some(record) => {
                self.journal.set_record(label, record);
            },
            None => {},
        }
        let ghost before = self.deleted@;
        self.deleted.push(output);
        assert(self.deleted@.drop_last() =~= before);
        if self.index < count {
            self.index = self.index + 1;
        }
    }

    /// The report of a clean-up that dealt with every output.
    pub fn finish(self) -> (r: CleanupReport)
        requires
            self.valid(),
            self.index == self.labels@.len(),
        ensures
            r.schema_version == 1,
            r.hub@ == principal_text(self.options.hub@),
            r.bucket@ == principal_text(self.options.bucket@),
            r.job_id == self.options.job_id,
            r.job_status@ == status_name(self.job.status),
            r.deleted == self.deleted,
            r.retained == self.retained,
            r.deleted@.len() + r.retained@.len() == self.labels@.len(),
    {
        CleanupReport {
            schema_version: 1,
            hub: self.options.hub.to_text(),
            bucket: self.options.bucket.to_text(),
            job_id: self.options.job_id,
            job_status: owned(self.job.status.name()),
            deleted: self.deleted,
            retained: self.retained,
        }
    }
}

/// The message for a file that could not be looked at before its deletion.
pub fn inspection_failure(file_id: u32, error: &str) -> (r: String)
    ensures
        r@ == "inspect transcode output "@ + decimal(file_id as nat) + " before cleanup: "@ + error@,
{
    cat4("inspect transcode output ", decimal_text(file_id as u64).as_str(), " before cleanup: ", error)
}

/// The message for a file that could not be deleted.
pub fn deletion_failure(file_id: u32, error: &SyncError) -> (r: String)
    ensures
        r@ == "delete transcode output "@ + decimal(file_id as nat) + ": "@ + fault_debug(error@),
{
    cat4(
        "delete transcode output ",
        decimal_text(file_id as u64).as_str(),
        ": ",
        error.debug_form().as_str(),
    )
}

/// A deletion that was prepared asks, whenever it is taken up again, for the
/// very file that was looked at, under the request identifier that was chosen
/// then.
pub proof fn law_prepared_deletions_are_taken_up_again(
    label: Seq<char>,
    record: OutputRecord,
    target: CleanupTarget,
    remote: FileInfo,
    request_id: Seq<u8>,
    input: &DeleteEntryIfInput,
    file_id: u32,
)
    requires
        asks_for(input, file_id, prepared_record(record, target, remote, request_id).cleanup->0),
    ensures
        intent_fault(label, prepared_record(record, target, remote, request_id).cleanup->0) is None,
        input.request_id@ == request_id,
        input.expected_parent == remote.parent,
        input.expected_revision == remote.revision,
        input.expected_hash->0@ == target.hash@,
{
    law_hex_round_trip(request_id);
    law_hex_round_trip(target.hash@);
}

/// Outputs of a job that is ready, still at work, or has registered assets are
/// never cleaned up.
pub proof fn law_only_abandoned_jobs_are_cleaned(journal: &WorkerJournal, job: &TranscodeJob)
    requires
        cleanup_fault(journal, job) is None,
    ensures
        job.status is Failed || job.status is Cancelled,
        forall|i: int| 0 <= i < job.variants@.len() ==> (#[trigger] job.variants@[i]).asset_id is None,
        journal.source_hash_hex@ == hex_text(job.source_hash@),
{
}

/// A job is cleaned up exactly where the journal is about its source, knows only
/// labels of its variants, the job failed or was cancelled, and none of its
/// outputs is an asset.
pub proof fn law_abandoned_jobs_are_cleaned(journal: &WorkerJournal, job: &TranscodeJob)
    ensures
        cleanup_fault(journal, job) is None <==> {
            &&& journal.source_hash_hex@ == hex_text(job.source_hash@)
            &&& forall|i: int|
                0 <= i < journal.variants.keys().len() ==> variant_place(
                    job.variants@,
                    #[trigger] journal.variants.keys()[i],
                ) is Some
            &&& job.status is Failed || job.status is Cancelled
            &&& forall|i: int| 0 <= i < job.variants@.len() ==> (#[trigger] job.variants@[i]).asset_id is None
        },
{
}

/// A file is kept exactly where the job failed and some variant has it, in the
/// bucket that is cleaned, as its candidate; a cancelled job keeps none.
pub proof fn law_candidates_of_failed_jobs_are_kept(run: &CleanupRun, file_id: u32, at: int)
    ensures
        run.job.status is Failed && 0 <= at < run.job.variants@.len() && run.job.variants@[at].candidate is Some
            && run.job.variants@[at].candidate->0.bucket@ == run.options.bucket@
            && run.job.variants@[at].candidate->0.file_id == file_id ==> run.keeps(file_id),
        run.keeps(file_id) ==> run.job.status is Failed && exists|i: int|
            0 <= i < run.job.variants@.len() && (#[trigger] run.job.variants@[i]).candidate is Some
                && run.job.variants@[i].candidate->0.bucket@ == run.options.bucket@
                && run.job.variants@[i].candidate->0.file_id == file_id,
        run.job.status is Cancelled ==> !run.keeps(file_id),
{
}

/// What a file has to be like to be deleted comes from the journal where that
/// holds a digest and a size.  A local output only has to agree with it.
pub proof fn law_deletions_go_by_the_journal(
    label: Seq<char>,
    record: OutputRecord,
    hash: Seq<u8>,
    size: u64,
    local: Option<LocalFile>,
    length: Result<u64, String>,
)
    requires
        record.content_hash_hex == Some(hex_text(hash)),
        record.size == Some(size),
    ensures
        cleanup_target(label, record, local, length) is Ok <==> hash.len() == 32 && (local matches Some(local)
            ==> local.hash@ == hash && local.size == size),
        cleanup_target(label, record, local, length) matches Ok(target) ==> target == (hash, size),
{
    law_hex_round_trip(hash);
}

/// Where the journal holds no digest, a file is deleted only by the digest of
/// the local output, and without a local output not at all.
pub proof fn law_outputs_without_a_digest_go_by_the_local_file(
    label: Seq<char>,
    record: OutputRecord,
    local: Option<LocalFile>,
    length: Result<u64, String>,
)
    requires
        record.content_hash_hex is None,
    ensures
        local is None ==> cleanup_target(label, record, local, length) is Err,
        local matches Some(local) ==> ({
            let target = cleanup_target(label, record, Some(local), length);
            let size = match record.size {
                Some(size) => Some(size),
                None => match length {
                    Ok(length) => Some(length),
                    Err(_) => None,
                },
            };
            &&& target is Ok <==> size == Some(local.size)
            &&& target matches Ok(found) ==> found == (local.hash@, local.size)
        }),
{
}

/// A deletion is prepared exactly for the file that was asked for, with the size
/// and the digest that are expected; a file without a digest is left alone.
pub proof fn law_only_files_with_the_expected_content_are_deleted(
    remote: FileInfo,
    file_id: u32,
    target: CleanupTarget,
)
    ensures
        is_target(remote, file_id, target) <==> {
            &&& remote.id == file_id
            &&& remote.size == target.size
            &&& remote.hash matches Some(hash)
            &&& hash@ == target.hash@
        },
{
}

/// A prepared deletion is about the parent and revision that the bucket showed,
/// the digest that is expected and the identifier that was chosen; the output
/// keeps its path and its file.
pub proof fn law_prepared_deletions_hold_what_was_seen(
    record: OutputRecord,
    target: CleanupTarget,
    remote: FileInfo,
    request_id: Seq<u8>,
)
    ensures
        ({
            let after = prepared_record(record, target, remote, request_id);
            &&& after.output_path == record.output_path
            &&& after.file_id == record.file_id
            &&& after.size == Some(target.size)
            &&& after.content_hash_hex matches Some(text)
            &&& hex_bytes(utf8(text)) == target.hash@
            &&& after.cleanup matches Some(intent)
            &&& intent.parent == remote.parent
            &&& intent.revision == remote.revision
            &&& hex_bytes(utf8(intent.request_id_hex)) == request_id
            &&& hex_bytes(utf8(intent.expected_hash_hex)) == target.hash@
        }),
{
    law_hex_round_trip(request_id);
    law_hex_round_trip(target.hash@);
}

/// A prepared deletion is asked for exactly where its identifier and its digest
/// are in hexadecimal notation and the digest has 32 bytes.
pub proof fn law_readable_deletions_are_asked_for(label: Seq<char>, intent: IntentModel)
    ensures
        intent_fault(label, intent) is None <==> {
            &&& is_hex(utf8(intent.request_id_hex))
            &&& is_hex(utf8(intent.expected_hash_hex))
            &&& hex_bytes(utf8(intent.expected_hash_hex)).len() == 32
        },
{
}

/// A deletion asks for the file itself, and only as it was when it was looked
/// at.
pub proof fn law_deletions_ask_for_the_file_as_it_was(
    input: &DeleteEntryIfInput,
    file_id: u32,
    record: OutputRecord,
    target: CleanupTarget,
    remote: FileInfo,
    request_id: Seq<u8>,
)
    requires
        asks_for(input, file_id, prepared_record(record, target, remote, request_id).cleanup->0),
    ensures
        input.id == file_id,
        input.kind is File,
        input.request_id@ == request_id,
        input.expected_parent == remote.parent,
        input.expected_revision == remote.revision,
        input.expected_hash matches Some(hash) && hash@ == target.hash@,
{
    law_hex_round_trip(request_id);
    law_hex_round_trip(target.hash@);
}

/// A line of the report names the output, its file and the reason.
pub proof fn law_report_lines_name_their_output(
    output: CleanupOutput,
    label: Seq<char>,
    file_id: Option<u32>,
    reason: Seq<char>,
)
    ensures
        output_is(output, label, file_id, reason) <==> {
            &&& output.label@ == label
            &&& output.file_id == file_id
            &&& output.reason@ == reason
        },
{
}

/// What a clean-up deals with next is the output at its place in the order of
/// labels, and every output before that is either deleted or kept.
pub proof fn law_cleanups_go_through_the_labels(run: &CleanupRun)
    requires
        run.valid(),
        run.index < run.labels@.len(),
    ensures
        run.label() == run.labels@[run.index as int]@,
        run.journal.records().contains_key(run.label()),
        run.record() == run.journal.records()[run.label()],
        run.deleted@.len() + run.retained@.len() == run.index,
        run.job.status is Failed || run.job.status is Cancelled,
        forall|i: int| 0 <= i < run.job.variants@.len() ==> (#[trigger] run.job.variants@[i]).asset_id is None,
{
    assert(run.journal.records().contains_key((run.labels@[run.index as int])@));
}

/// A clean-up keeps its options, its job, its labels and the work that its
/// journal is about.
pub proof fn law_cleanups_keep_what_they_are_about(after: &CleanupRun, before: &CleanupRun)
    ensures
        after.same_run(before) <==> {
            &&& after.options == before.options
            &&& after.job == before.job
            &&& after.labels == before.labels
            &&& after.journal.same_work(&before.journal)
        },
{
}

/// Why nothing may be cleaned up is told: the source first, then an unknown
/// label, then the status of the job, and last its assets.
pub proof fn law_refused_cleanups_are_told(journal: &WorkerJournal, job: &TranscodeJob)
    ensures
        ({
            let known = forall|i: int|
                0 <= i < journal.variants.keys().len() ==> variant_place(
                    job.variants@,
                    #[trigger] journal.variants.keys()[i],
                ) is Some;
            let same_source = journal.source_hash_hex@ == hex_text(job.source_hash@);
            &&& !same_source ==> cleanup_fault(journal, job) == Some(
                "transcode journal source hash does not match the Hub job"@,
            )
            &&& same_source && !known ==> cleanup_fault(journal, job) == Some(
                "transcode journal contains a variant that is not in the Hub job"@,
            )
            &&& same_source && known && job.status is Ready ==> cleanup_fault(journal, job) == Some(
                "ready transcode outputs are registered Assets and cannot be cleaned"@,
            )
            &&& same_source && known && (job.status is Queued || job.status is Running || job.status
                is AwaitingVerification) ==> cleanup_fault(journal, job) == Some(
                "transcode cleanup requires a failed or cancelled job, found "@ + status_name(job.status),
            )
        }),
{
}

/// Why a file is not deleted is told with its variant.
pub proof fn law_refused_deletions_are_told(
    label: Seq<char>,
    record: OutputRecord,
    local: Option<LocalFile>,
    length: Result<u64, String>,
)
    ensures
        record.content_hash_hex is None && local is None ==> cleanup_target(label, record, local, length) == Err::<
            (Seq<u8>, u64),
            Seq<char>,
        >("variant "@ + label + " has neither a recorded hash nor a local output; cleanup refused"@),
        record.content_hash_hex matches Some(text) ==> {
            &&& !is_hex(utf8(text)) ==> cleanup_target(label, record, local, length) == Err::<(Seq<u8>, u64), Seq<char>>(
                "journal hash for variant "@ + label + " is invalid: "@ + hex_error(utf8(text)),
            )
            &&& is_hex(utf8(text)) && hex_bytes(utf8(text)).len() != 32 ==> cleanup_target(label, record, local, length)
                == Err::<(Seq<u8>, u64), Seq<char>>("journal hash for variant "@ + label + " is not SHA3-256"@)
            &&& is_hex(utf8(text)) && hex_bytes(utf8(text)).len() == 32 && record.size is Some && local is Some && (
            local->0.hash@ != hex_bytes(utf8(text)) || local->0.size != record.size->0) ==> cleanup_target(
                label,
                record,
                local,
                length,
            ) == Err::<(Seq<u8>, u64), Seq<char>>(
                "local output for variant "@ + label + " no longer matches the journal size/hash; cleanup refused"@,
            )
            &&& is_hex(utf8(text)) && hex_bytes(utf8(text)).len() == 32 && record.size is None && length is Err
                ==> cleanup_target(label, record, local, length) == Err::<(Seq<u8>, u64), Seq<char>>(length->Err_0@)
        },
{
}

/// What is wrong with a prepared deletion is told with its variant.
pub proof fn law_unreadable_deletions_are_told(label: Seq<char>, intent: IntentModel)
    ensures
        !is_hex(utf8(intent.request_id_hex)) ==> intent_fault(label, intent) == Some(
            "cleanup request ID for variant "@ + label + " is invalid: "@ + hex_error(utf8(intent.request_id_hex)),
        ),
        is_hex(utf8(intent.request_id_hex)) && !is_hex(utf8(intent.expected_hash_hex)) ==> intent_fault(label, intent)
            == Some(
            "cleanup hash for variant "@ + label + " is invalid: "@ + hex_error(utf8(intent.expected_hash_hex)),
        ),
        is_hex(utf8(intent.request_id_hex)) && is_hex(utf8(intent.expected_hash_hex)) && hex_bytes(
            utf8(intent.expected_hash_hex),
        ).len() != 32 ==> intent_fault(label, intent) == Some(
            "cleanup hash for variant "@ + label + " is not a SHA3-256 digest"@,
        ),
{
}

} // verus!

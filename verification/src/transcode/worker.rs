//! The course of a transcode worker.
use vstd::prelude::*;

use crate::outside::{debug_quoted, debug_text, hex_encode, hex_text, principal_text, text_principal};
use crate::text::{
    cat2, cat3, cat4, cat5, cat6, cat7, decimal, decimal_text, lower, lowered, owned, owned_option, same_bytes,
    same_text, split, split_text, text_option, trim, trimmed,
};
use crate::transcode::ffmpeg::{build_ffmpeg_args, ffmpeg_args, texts};
use crate::transcode::journal::{OutputRecord, VariantJournal, WorkerJournal};
use crate::transcode::labels::{bounded, bounded_error};
use crate::transcode::probe::{probe_result, validate_probe, FfprobeOutput};
use crate::transcode::types::{
    status_name, ApprovalInput, CandidateSubmitError, MediaVariant, MediaVariantCandidate, MediaVariantSpec,
    ProbeModel, ProbeResult, SpecModel, TranscodeJob, TranscodeJobStatus, WorkerOptions, WorkerReport, SHA3_256_BYTES,
};

verus! {

/// The most bytes of a failure that are reported to the Hub.
pub const MAX_REPORTED_BYTES: usize = 1000;

/// Checks that the local source is the one that the job was made for.
pub fn check_source(job: &TranscodeJob, size: u64, hash: &[u8]) -> (r: Result<(), String>)
    ensures
        match r {
            Ok(_) => job.source_size == size && job.source_hash@ == hash@,
            Err(message) => !(job.source_size == size && job.source_hash@ == hash@) && message@
                == "local source size/hash does not match the immutable Hub job snapshot"@,
        },
{
    if job.source_size != size || !same_bytes(job.source_hash.as_slice(), hash) {
        return Err(owned("local source size/hash does not match the immutable Hub job snapshot"));
    }
    Ok(())
}

/// Decides whether a job has to be started before it is worked on.
pub fn must_start(status: TranscodeJobStatus) -> (r: Result<bool, String>)
    ensures
        match r {
            Ok(start) => status !is Cancelled && start == (status is Queued || status is Failed),
            Err(message) => status is Cancelled && message@ == "transcode job is cancelled"@,
        },
{
    match status {
        TranscodeJobStatus::Queued | TranscodeJobStatus::Failed => Ok(true),
        TranscodeJobStatus::Cancelled => Err(owned("transcode job is cancelled")),
        _ => Ok(false),
    }
}

/// The place of the first variant with a label.
pub open spec fn variant_place(variants: Seq<MediaVariant>, label: Seq<char>) -> Option<int>
    decreases variants.len(),
{
    if variants.len() == 0 {
        None
    } else if variant_place(variants.drop_last(), label) is Some {
        variant_place(variants.drop_last(), label)
    } else if variants.last().spec.label@ == label {
        Some(variants.len() - 1)
    } else {
        None
    }
}

proof fn lemma_place_stays(variants: Seq<MediaVariant>, label: Seq<char>, n: int)
    requires
        0 <= n <= variants.len(),
        variant_place(variants.take(n), label) is Some,
    ensures
        variant_place(variants, label) == variant_place(variants.take(n), label),
    decreases variants.len(),
{
    if n == variants.len() {
        assert(variants.take(n) =~= variants);
    } else {
        assert(variants.drop_last().take(n) =~= variants.take(n));
        lemma_place_stays(variants.drop_last(), label, n);
    }
}

/// The place of the first variant with a label.
pub fn find_variant(variants: &Vec<MediaVariant>, label: &str) -> (r: Option<usize>)
    ensures
        match r {
            Some(at) => {
                &&& at < variants@.len()
                &&& variants@[at as int].spec.label@ == label@
                &&& variant_place(variants@, label@) == Some(at as int)
            },
            None => variant_place(variants@, label@) is None,
        },
{
    for i in 0..variants.len()
        invariant
            variant_place(variants@.take(i as int), label@) is None,
    {
        assert(variants@.take(i + 1).drop_last() =~= variants@.take(i as int));
        if same_text(variants[i].spec.label.as_str(), label) {
            proof {
                lemma_place_stays(variants@, label@, i + 1);
            }
            return Some(i);
        }
    }
    assert(variants@.take(variants@.len() as int) =~= variants@);
    None
}

/// The candidate of the first variant with a label.
pub open spec fn candidate_of(variants: Seq<MediaVariant>, label: Seq<char>) -> Option<MediaVariantCandidate> {
    match variant_place(variants, label) {
        Some(at) => variants[at].candidate,
        None => None,
    }
}

/// Whether a job shows that a file is the candidate of a variant with the
/// given label.
pub open spec fn shows_candidate(
    variants: Seq<MediaVariant>,
    label: Seq<char>,
    bucket: Seq<u8>,
    file_id: u32,
) -> bool {
    exists|i: int|
        0 <= i < variants.len() && (#[trigger] variants[i]).spec.label@ == label && variants[i].candidate is Some
            && variants[i].candidate->0.bucket@ == bucket && variants[i].candidate->0.file_id == file_id
}

fn has_candidate(
    variants: &Vec<MediaVariant>,
    label: &str,
    bucket: &crate::principal::Principal,
    file_id: u32,
) -> (r: bool)
    ensures
        r == shows_candidate(variants@, label@, bucket@, file_id),
{
    for i in 0..variants.len()
        invariant
            forall|j: int|
                0 <= j < i ==> !((#[trigger] variants@[j]).spec.label@ == label@ && variants@[j].candidate is Some
                    && variants@[j].candidate->0.bucket@ == bucket@ && variants@[j].candidate->0.file_id == file_id),
    {
        if same_text(variants[i].spec.label.as_str(), label) {
            match &variants[i].candidate {
                Some(candidate) => {
                    if candidate.bucket == *bucket && candidate.file_id == file_id {
                        return true;
                    }
                },
                None => {},
            }
        }
    }
    false
}

/// What the Hub's reply to a submission means: a refusal allows to remove the
/// file.
pub fn submission_reply(reply: Result<TranscodeJob, String>) -> (r: Result<TranscodeJob, CandidateSubmitError>)
    ensures
        match reply {
            Ok(job) => r == Ok::<TranscodeJob, CandidateSubmitError>(job),
            Err(message) => r matches Err(error) && error.message == message && error.cleanup_allowed,
        },
{
    match reply {
        Ok(job) => Ok(job),
        Err(message) => Err(CandidateSubmitError { message, cleanup_allowed: true }),
    }
}

/// What follows a submission whose reply was lost: the job, asked for again,
/// may show that the candidate was taken.  The file is never removed then.
pub fn recover_submission(
    transport_error: &str,
    query: Result<TranscodeJob, String>,
    label: &str,
    bucket: &crate::principal::Principal,
    file_id: u32,
) -> (r: Result<TranscodeJob, CandidateSubmitError>)
    ensures
        r matches Err(error) ==> !error.cleanup_allowed,
        match query {
            Ok(job) => if shows_candidate(job.variants@, label@, bucket@, file_id) {
                r == Ok::<TranscodeJob, CandidateSubmitError>(job)
            } else {
                r matches Err(error) && error.message@
                    == "candidate submission response was lost and Hub has not exposed the candidate; rerun without deleting Bucket file "@
                    + decimal(file_id as nat) + ": "@ + transport_error@
            },
            Err(query_error) => r matches Err(error) && error.message@
                == "candidate submission response was lost and recovery query failed; rerun without deleting Bucket file "@
                + decimal(file_id as nat) + ": "@ + transport_error@ + "; "@ + query_error@,
        },
{
    match query {
        Ok(job) => {
            if has_candidate(&job.variants, label, bucket, file_id) {
                return Ok(job);
            }
            Err(
                CandidateSubmitError {
                    message: cat4(
                        "candidate submission response was lost and Hub has not exposed the candidate; rerun without deleting Bucket file ",
                        decimal_text(file_id as u64).as_str(),
                        ": ",
                        transport_error,
                    ),
                    cleanup_allowed: false,
                },
            )
        },
        Err(query_error) => Err(
            CandidateSubmitError {
                message: cat6(
                    "candidate submission response was lost and recovery query failed; rerun without deleting Bucket file ",
                    decimal_text(file_id as u64).as_str(),
                    ": ",
                    transport_error,
                    "; ",
                    query_error.as_str(),
                ),
                cleanup_allowed: false,
            },
        ),
    }
}

/// What a bucket says of a file.
#[derive(Clone, Debug)]
pub struct FileDescriptor {
    pub id: u32,
    pub content_type: String,
    pub size: u64,
    pub hash: Option<[u8; 32]>,
}

/// The media type of a content type, without parameters and in lower case.
pub open spec fn media_type(content_type: Seq<char>) -> Seq<char> {
    lower(trim(split(content_type, ';')[0]))
}

/// Whether a bucket's file is the local output.
pub open spec fn descriptor_matches(
    descriptor: FileDescriptor,
    spec: SpecModel,
    file_id: u32,
    size: u64,
    hash: Seq<u8>,
) -> bool {
    &&& descriptor.id == file_id
    &&& descriptor.size == size
    &&& descriptor.hash is Some
    &&& descriptor.hash->0@ == hash
    &&& media_type(descriptor.content_type@) == spec.content_type
}

/// The message for a bucket's file that is not the local output.
pub open spec fn descriptor_error(descriptor: FileDescriptor, spec: SpecModel, file_id: u32, size: u64) -> Seq<char> {
    "Bucket descriptor for variant "@ + spec.label + " does not match local output: id="@ + decimal(
        descriptor.id as nat,
    ) + "/"@ + decimal(file_id as nat) + ", size="@ + decimal(descriptor.size as nat) + "/"@ + decimal(size as nat)
        + ", hash="@ + (match descriptor.hash {
        Some(hash) => hex_text(hash@),
        None => "none"@,
    }) + ", content_type="@ + descriptor.content_type@ + "/"@ + spec.content_type
}

fn check_descriptor(
    descriptor: &FileDescriptor,
    spec: &MediaVariantSpec,
    file_id: u32,
    size: u64,
    hash: &[u8; 32],
) -> (r: Result<(), String>)
    ensures
        match r {
            Ok(_) => descriptor_matches(*descriptor, spec@, file_id, size, hash@),
            Err(message) => !descriptor_matches(*descriptor, spec@, file_id, size, hash@) && message@
                == descriptor_error(*descriptor, spec@, file_id, size),
        },
{
    let parts = split_text(descriptor.content_type.as_str(), ';');
    proof {
        crate::text::lemma_split_parts(descriptor.content_type@, ';');
        assert(Seq::new(parts@.len(), |i: int| parts@[i]@)[0] == split(descriptor.content_type@, ';')[0]);
    }
    let kind = lowered(trimmed(parts[0].as_str()));
    let same_hash = match &descriptor.hash {
        Some(found) => same_bytes(found.as_slice(), hash.as_slice()),
        None => false,
    };
    if descriptor.id != file_id || descriptor.size != size || !same_hash || !same_text(
        kind.as_str(),
        spec.content_type.as_str(),
    ) {
        let found_hash = match &descriptor.hash {
            Some(found) => hex_encode(found.as_slice()),
            None => owned("none"),
        };
        let ids = cat6(
            "Bucket descriptor for variant ",
            spec.label.as_str(),
            " does not match local output: id=",
            decimal_text(descriptor.id as u64).as_str(),
            "/",
            decimal_text(file_id as u64).as_str(),
        );
        let sizes = cat5(
            ids.as_str(),
            ", size=",
            decimal_text(descriptor.size).as_str(),
            "/",
            decimal_text(size).as_str(),
        );
        let message = cat7(
            sizes.as_str(),
            ", hash=",
            found_hash.as_str(),
            ", content_type=",
            descriptor.content_type.as_str(),
            "/",
            spec.content_type.as_str(),
        );
        return Err(message);
    }
    Ok(())
}

/// Whether an approval says what a candidate and its probe show.
pub open spec fn approval_is(
    approval: &ApprovalInput,
    label: Seq<char>,
    candidate: &MediaVariantCandidate,
    probe: ProbeModel,
    output_path: Seq<char>,
) -> bool {
    &&& approval.label@ == label
    &&& approval.output_path@ == output_path
    &&& approval.bucket@ == principal_text(candidate.bucket@)
    &&& text_principal(approval.bucket@) == Ok::<Seq<u8>, Seq<char>>(candidate.bucket@)
    &&& approval.file_id == candidate.file_id
    &&& approval.content_hash_hex@ == hex_text(candidate.content_hash@)
    &&& approval.generation == candidate.generation
    &&& approval.probe() == probe
}

/// What is put up for approval of a candidate.
pub fn approval_from(
    spec: &MediaVariantSpec,
    candidate: &MediaVariantCandidate,
    probe: &ProbeResult,
    output_path: &str,
) -> (r: Result<ApprovalInput, String>)
    ensures
        match r {
            Ok(approval) => candidate.content_hash@.len() == SHA3_256_BYTES && approval_is(
                &approval,
                spec.label@,
                candidate,
                probe@,
                output_path@,
            ),
            Err(message) => candidate.content_hash@.len() != SHA3_256_BYTES && message@ == "variant "@ + spec.label@
                + " candidate does not contain a SHA3-256 hash"@,
        },
{
    if candidate.content_hash.len() != SHA3_256_BYTES {
        return Err(cat3("variant ", spec.label.as_str(), " candidate does not contain a SHA3-256 hash"));
    }
    let approval = ApprovalInput {
        label: owned(spec.label.as_str()),
        output_path: owned(output_path),
        bucket: candidate.bucket.to_text(),
        file_id: candidate.file_id,
        content_hash_hex: hex_encode(candidate.content_hash.as_slice()),
        generation: candidate.generation,
        codec: owned(probe.codec.as_str()),
        width: probe.width,
        height: probe.height,
        bitrate_bps: probe.bitrate_bps,
        observed_video_codec: owned(probe.observed_video_codec.as_str()),
        observed_video_profile: owned_option(&probe.observed_video_profile),
        observed_video_level: probe.observed_video_level,
        observed_audio_codec: owned_option(&probe.observed_audio_codec),
        observed_format: owned(probe.observed_format.as_str()),
    };
    assert(approval.probe() =~= probe@);
    Ok(approval)
}

/// Why a candidate cannot stand for the local output.
pub open spec fn settle_fault(
    label: Seq<char>,
    record: OutputRecord,
    candidate: MediaVariantCandidate,
    bucket: Seq<u8>,
    hash: Seq<u8>,
    size: u64,
) -> Option<Seq<char>> {
    if candidate.size != size || candidate.content_hash@ != hash {
        Some("local output for variant "@ + label + " does not match the submitted candidate size/hash"@)
    } else if candidate.bucket@ == bucket && record.file_id is Some && record.file_id->0 != candidate.file_id {
        Some(
            "journal output for variant "@ + label
                + " differs from the current Hub candidate; preserving both remote files for explicit cleanup"@,
        )
    } else {
        None
    }
}

/// Whether the journal has to take over what a candidate shows.
pub open spec fn must_record(
    record: OutputRecord,
    candidate: MediaVariantCandidate,
    bucket: Seq<u8>,
    hash: Seq<u8>,
    size: u64,
) -> bool {
    candidate.bucket@ == bucket && (record.file_id is None || record.content_hash_hex != Some(hex_text(hash))
        || record.size != Some(size))
}

/// What the journal holds of an output whose file is known.
pub open spec fn recorded(record: OutputRecord, file_id: u32, hash: Seq<u8>, size: u64) -> OutputRecord {
    OutputRecord {
        output_path: record.output_path,
        file_id: Some(file_id),
        content_hash_hex: Some(hex_text(hash)),
        size: Some(size),
        cleanup: None,
    }
}

fn record_file(journal: &mut WorkerJournal, label: &str, file_id: u32, hash: &[u8; 32], size: u64)
    requires
        old(journal).records().contains_key(label@),
    ensures
        final(journal).same_work(old(journal)),
        final(journal).records() == old(journal).records().insert(
            label@,
            recorded(old(journal).records()[label@], file_id, hash@, size),
        ),
{
    let output_path = match journal.record(label) {
        Some(record) => owned(record.output_path.as_str()),
        None => owned(""),
    };
    let record = VariantJournal {
        output_path,
        file_id: Some(file_id),
        content_hash_hex: Some(hex_encode(hash.as_slice())),
        size: Some(size),
        cleanup: None,
    };
    journal.set_record(label, record);
}

fn settle(
    journal: &mut WorkerJournal,
    label: &str,
    candidate: &MediaVariantCandidate,
    bucket: &crate::principal::Principal,
    hash: &[u8; 32],
    size: u64,
) -> (r: Result<bool, String>)
    requires
        old(journal).records().contains_key(label@),
    ensures
        final(journal).same_work(old(journal)),
        match r {
            Ok(save) => {
                &&& settle_fault(label@, old(journal).records()[label@], *candidate, bucket@, hash@, size) is None
                &&& save == must_record(old(journal).records()[label@], *candidate, bucket@, hash@, size)
                &&& final(journal).records() == if save {
                    old(journal).records().insert(
                        label@,
                        recorded(old(journal).records()[label@], candidate.file_id, hash@, size),
                    )
                } else {
                    old(journal).records()
                }
            },
            Err(message) => {
                &&& settle_fault(label@, old(journal).records()[label@], *candidate, bucket@, hash@, size) == Some(
                    message@,
                )
                &&& final(journal).records() == old(journal).records()
            },
        },
{
    if candidate.size != size || !same_bytes(candidate.content_hash.as_slice(), hash.as_slice()) {
        return Err(
            cat3("local output for variant ", label, " does not match the submitted candidate size/hash"),
        );
    }
    if candidate.bucket != *bucket {
        return Ok(false);
    }
    let (file_id, recorded_hash, recorded_size) = match journal.record(label) {
        Some(record) => (
            record.file_id,
            match &record.content_hash_hex {
                Some(text) => same_text(text.as_str(), hex_encode(hash.as_slice()).as_str()),
                None => false,
            },
            record.size,
        ),
        None => (None, false, None),
    };
    match file_id {
        Some(file_id) => {
            if file_id != candidate.file_id {
                return Err(
                    cat3(
                        "journal output for variant ",
                        label,
                        " differs from the current Hub candidate; preserving both remote files for explicit cleanup",
                    ),
                );
            }
        },
        None => {},
    }
    let same_size = match recorded_size {
        Some(recorded_size) => recorded_size == size,
        None => false,
    };
    if file_id.is_none() || !recorded_hash || !same_size {
        record_file(journal, label, candidate.file_id, hash, size);
        return Ok(true);
    }
    Ok(false)
}

/// A variant that is being worked on.
pub struct VariantWork {
    pub spec: MediaVariantSpec,
    pub output_path: String,
}

/// What is known of a local output.
pub struct LocalOutput {
    pub probe: ProbeResult,
    pub hash: [u8; 32],
    pub size: u64,
}

/// What a worker does next.
pub enum WorkerPhase {
    /// Take up the next variant.
    Idle,
    /// See whether the output is there.
    CheckOutput(VariantWork),
    /// Make the output with the given arguments.
    Transcode(VariantWork, Vec<String>),
    /// Inspect the output.
    Probe(VariantWork),
    /// Hash and measure the output.
    Measure(VariantWork, ProbeResult),
    /// Upload the output.
    Upload(VariantWork, LocalOutput),
    /// Ask the bucket for the file.
    Describe(VariantWork, LocalOutput, u32),
    /// Submit the file to the Hub.
    Submit(VariantWork, LocalOutput, u32),
    /// Remove a file that the Hub refused.
    Discard(VariantWork, u32, String),
}

/// The variant that is being worked on.
pub open spec fn work_of(phase: WorkerPhase) -> Option<VariantWork> {
    match phase {
        WorkerPhase::Idle => None,
        WorkerPhase::CheckOutput(work) => Some(work),
        WorkerPhase::Transcode(work, _) => Some(work),
        WorkerPhase::Probe(work) => Some(work),
        WorkerPhase::Measure(work, _) => Some(work),
        WorkerPhase::Upload(work, _) => Some(work),
        WorkerPhase::Describe(work, _, _) => Some(work),
        WorkerPhase::Submit(work, _, _) => Some(work),
        WorkerPhase::Discard(work, _, _) => Some(work),
    }
}

/// The course of a worker through the variants of a job.
pub struct WorkerRun {
    pub options: WorkerOptions,
    pub source_hash_hex: String,
    pub job: TranscodeJob,
    pub journal: WorkerJournal,
    pub approvals: Vec<ApprovalInput>,
    pub index: usize,
    pub count: usize,
    pub phase: WorkerPhase,
}

impl WorkerRun {
    /// What holds of a run at every moment: each variant before the current
    /// one has its approval, and the journal knows the current one.
    pub open spec fn valid(&self) -> bool {
        &&& self.index <= self.count
        &&& self.approvals@.len() == self.index
        &&& work_of(self.phase) matches Some(work) ==> {
            &&& self.index < self.count
            &&& self.index < self.job.variants@.len()
            &&& self.journal.records().contains_key(work.spec.label@)
            &&& self.journal.records()[work.spec.label@].output_path == work.output_path@
        }
    }

    /// The run is about the same work as before.
    pub open spec fn same_run(&self, other: &WorkerRun) -> bool {
        &&& self.options == other.options
        &&& self.source_hash_hex == other.source_hash_hex
        &&& self.count == other.count
        &&& self.journal.same_work(&other.journal)
    }

    /// Nothing but the phase changed.
    pub open spec fn only_phase_differs(&self, other: &WorkerRun) -> bool {
        &&& self.same_run(other)
        &&& self.job == other.job
        &&& self.journal == other.journal
        &&& self.approvals == other.approvals
        &&& self.index == other.index
    }

    /// The run ends in the middle of a variant: it settled no more variants
    /// than before.
    pub open spec fn stopped(&self, other: &WorkerRun) -> bool {
        &&& self.approvals == other.approvals
        &&& self.index == other.index
        &&& self.phase is Idle
    }

    /// A run before its first variant.
    pub fn start(
        options: WorkerOptions,
        source_hash_hex: String,
        job: TranscodeJob,
        journal: WorkerJournal,
    ) -> (r: WorkerRun)
        ensures
            r.valid(),
            r.options == options,
            r.source_hash_hex == source_hash_hex,
            r.job == job,
            r.journal == journal,
            r.approvals@.len() == 0,
            r.index == 0,
            r.count == job.variants@.len(),
            r.phase is Idle,
    {
        let count: usize = job.variants.len();
        WorkerRun {
            options,
            source_hash_hex,
            job,
            journal,
            approvals: Vec::new(),
            index: 0,
            count,
            phase: WorkerPhase::Idle,
        }
    }

    /// Takes up the next variant; tells whether there was one.
    pub fn begin(&mut self) -> (r: Result<bool, String>)
        requires
            old(self).valid(),
            old(self).phase is Idle,
            old(self).index < old(self).count ==> old(self).index < old(self).job.variants@.len(),
        ensures
            final(self).valid(),
            final(self).only_phase_differs(old(self)),
            r is Err ==> final(self).stopped(old(self)),
            match r {
                Ok(false) => old(self).index == old(self).count && final(self).phase is Idle,
                Ok(true) => {
                    let spec = old(self).job.variants@[old(self).index as int].spec;
                    &&& old(self).index < old(self).count
                    &&& old(self).journal.records().contains_key(spec.label@)
                    &&& final(self).phase matches WorkerPhase::CheckOutput(work)
                    &&& work.spec@ == spec@
                    &&& work.output_path@ == old(self).journal.records()[spec.label@].output_path
                },
                Err(message) => {
                    let spec = old(self).job.variants@[old(self).index as int].spec;
                    &&& old(self).index < old(self).count
                    &&& !old(self).journal.records().contains_key(spec.label@)
                    &&& message@ == "journal is missing variant "@ + spec.label@
                },
            },
    {
        if self.index == self.count {
            return Ok(false);
        }
        let spec = self.job.variants[self.index].spec.duplicate();
        let output_path = match self.journal.record(spec.label.as_str()) {
            Some(record) => owned(record.output_path.as_str()),
            None => return Err(cat2("journal is missing variant ", spec.label.as_str())),
        };
        self.phase = WorkerPhase::CheckOutput(VariantWork { spec, output_path });
        Ok(true)
    }

    /// Takes in whether the output is there; if not, it is made.
    pub fn on_output(&mut self, exists: bool) -> (r: Result<(), String>)
        requires
            old(self).valid(),
            old(self).phase is CheckOutput,
        ensures
            final(self).valid(),
            final(self).only_phase_differs(old(self)),
            r is Err ==> final(self).stopped(old(self)),
            ({
                let work = old(self).phase->CheckOutput_0;
                let args = ffmpeg_args(text_option(old(self).options.source), Some(work.output_path@), work.spec@);
                match r {
                    Ok(_) => if exists {
                        final(self).phase == WorkerPhase::Probe(work)
                    } else {
                        &&& final(self).phase matches WorkerPhase::Transcode(next, made)
                        &&& next == work
                        &&& args == Ok::<Seq<Seq<char>>, Seq<char>>(texts(made@))
                    },
                    Err(message) => !exists && args == Err::<Seq<Seq<char>>, Seq<char>>(message@),
                }
            }),
    {
        let mut phase = WorkerPhase::Idle;
        std::mem::swap(&mut phase, &mut self.phase);
        match phase {
            WorkerPhase::CheckOutput(work) => {
                if exists {
                    self.phase = WorkerPhase::Probe(work);
                    return Ok(());
                }
                let source = match &self.options.source {
                    Some(source) => Some(source.as_str()),
                    None => None,
                };
                match build_ffmpeg_args(source, Some(work.output_path.as_str()), &work.spec) {
                    Ok(args) => {
                        self.phase = WorkerPhase::Transcode(work, args);
                        Ok(())
                    },
                    Err(message) => Err(message),
                }
            },
            _ => Ok(()),
        }
    }

    /// Takes in that the output is made.
    pub fn on_transcoded(&mut self)
        requires
            old(self).valid(),
            old(self).phase is Transcode,
        ensures
            final(self).valid(),
            final(self).only_phase_differs(old(self)),
            final(self).phase == WorkerPhase::Probe(old(self).phase->Transcode_0),
    {
        let mut phase = WorkerPhase::Idle;
        std::mem::swap(&mut phase, &mut self.phase);
        match phase {
            WorkerPhase::Transcode(work, _) => {
                self.phase = WorkerPhase::Probe(work);
            },
            _ => {},
        }
    }

    /// Takes in what the inspection of the output shows.
    pub fn on_probed(&mut self, output: &FfprobeOutput) -> (r: Result<(), String>)
        requires
            old(self).valid(),
            old(self).phase is Probe,
        ensures
            final(self).valid(),
            final(self).only_phase_differs(old(self)),
            r is Err ==> final(self).stopped(old(self)),
            ({
                let work = old(self).phase->Probe_0;
                let result = probe_result(work.spec@, output.streams@, output.format.format_name@);
                match r {
                    Ok(_) => {
                        &&& final(self).phase matches WorkerPhase::Measure(next, probe)
                        &&& next == work
                        &&& result == Ok::<ProbeModel, Seq<char>>(probe@)
                    },
                    Err(message) => result == Err::<ProbeModel, Seq<char>>(message@),
                }
            }),
    {
        let mut phase = WorkerPhase::Idle;
        std::mem::swap(&mut phase, &mut self.phase);
        match phase {
            WorkerPhase::Probe(work) => match validate_probe(&work.spec, output) {
                Ok(probe) => {
                    self.phase = WorkerPhase::Measure(work, probe);
                    Ok(())
                },
                Err(message) => Err(message),
            },
            _ => Ok(()),
        }
    }

    /// A variant is settled: its candidate stands for the local output, and an
    /// approval of it is added.
    pub open spec fn settled(
        &self,
        before: &WorkerRun,
        work: VariantWork,
        local: LocalOutput,
        candidate: MediaVariantCandidate,
        save: bool,
    ) -> bool {
        let record = before.journal.records()[work.spec.label@];
        let bucket = before.options.bucket@;
        &&& settle_fault(work.spec.label@, record, candidate, bucket, local.hash@, local.size) is None
        &&& save == must_record(record, candidate, bucket, local.hash@, local.size)
        &&& self.journal.records() == if save {
            before.journal.records().insert(
                work.spec.label@,
                recorded(record, candidate.file_id, local.hash@, local.size),
            )
        } else {
            before.journal.records()
        }
        &&& self.index == before.index + 1
        &&& self.approvals@.len() == before.approvals@.len() + 1
        &&& self.approvals@.drop_last() == before.approvals@
        &&& approval_is(
            &self.approvals@.last(),
            work.spec.label@,
            &candidate,
            local.probe@,
            work.output_path@,
        )
        &&& self.phase is Idle
    }

    /// Takes in the digest and size of the output.  A variant that has a
    /// candidate is settled; otherwise its file is uploaded, unless the journal
    /// knows it.  Tells whether the journal has to be saved.
    pub fn on_measured(&mut self, hash: [u8; 32], size: u64) -> (r: Result<bool, String>)
        requires
            old(self).valid(),
            old(self).phase is Measure,
        ensures
            final(self).valid(),
            final(self).same_run(old(self)),
            final(self).job == old(self).job,
            r is Err ==> final(self).stopped(old(self)),
            ({
                let work = old(self).phase->Measure_0;
                let local = LocalOutput { probe: old(self).phase->Measure_1, hash, size };
                let records = old(self).journal.records();
                let record = records[work.spec.label@];
                match old(self).job.variants@[old(self).index as int].candidate {
                    Some(candidate) => match r {
                        Ok(save) => final(self).settled(old(self), work, local, candidate, save),
                        Err(message) => {
                            &&& settle_fault(
                                work.spec.label@,
                                record,
                                candidate,
                                old(self).options.bucket@,
                                hash@,
                                size,
                            ) == Some(message@)
                            &&& final(self).journal.records() == records
                        },
                    },
                    None => match r {
                        Ok(save) => {
                            &&& old(self).job.status is Running
                            &&& !save
                            &&& final(self).only_phase_differs(old(self))
                            &&& final(self).phase == match record.file_id {
                                Some(file_id) => WorkerPhase::Describe(work, local, file_id),
                                None => WorkerPhase::Upload(work, local),
                            }
                        },
                        Err(message) => {
                            &&& old(self).job.status !is Running
                            &&& message@ == "variant "@ + work.spec.label@ + " has no candidate while job is "@
                                + status_name(old(self).job.status)
                            &&& final(self).journal.records() == records
                        },
                    },
                }
            }),
    {
        let mut phase = WorkerPhase::Idle;
        std::mem::swap(&mut phase, &mut self.phase);
        match phase {
            WorkerPhase::Measure(work, probe) => {
                let label = work.spec.label.as_str();
                match &self.job.variants[self.index].candidate {
                    Some(candidate) => {
                        let save = match settle(
                            &mut self.journal,
                            label,
                            candidate,
                            &self.options.bucket,
                            &hash,
                            size,
                        ) {
                            Ok(save) => save,
                            Err(message) => return Err(message),
                        };
                        let approval = match approval_from(&work.spec, candidate, &probe, work.output_path.as_str()) {
                            Ok(approval) => approval,
                            Err(message) => return Err(message),
                        };
                        let ghost approvals = self.approvals@;
                        self.approvals.push(approval);
                        assert(self.approvals@.drop_last() =~= approvals);
                        self.index = self.index + 1;
                        Ok(save)
                    },
                    None => {
                        if self.job.status != TranscodeJobStatus::Running {
                            return Err(
                                cat4(
                                    "variant ",
                                    label,
                                    " has no candidate while job is ",
                                    self.job.status.name(),
                                ),
                            );
                        }
                        let file_id = match self.journal.record(label) {
                            Some(record) => record.file_id,
                            None => None,
                        };
                        let local = LocalOutput { probe, hash, size };
                        self.phase = match file_id {
                            Some(file_id) => WorkerPhase::Describe(work, local, file_id),
                            None => WorkerPhase::Upload(work, local),
                        };
                        Ok(false)
                    },
                }
            },
            _ => Ok(false),
        }
    }

    /// Takes in that the output is uploaded.  The journal has to be saved then.
    pub fn on_uploaded(&mut self, file_id: u32)
        requires
            old(self).valid(),
            old(self).phase is Upload,
        ensures
            final(self).valid(),
            final(self).same_run(old(self)),
            final(self).job == old(self).job,
            final(self).index == old(self).index,
            final(self).approvals == old(self).approvals,
            ({
                let work = old(self).phase->Upload_0;
                let local = old(self).phase->Upload_1;
                let records = old(self).journal.records();
                &&& final(self).phase == WorkerPhase::Describe(work, local, file_id)
                &&& final(self).journal.records() == records.insert(
                    work.spec.label@,
                    recorded(records[work.spec.label@], file_id, local.hash@, local.size),
                )
            }),
    {
        let mut phase = WorkerPhase::Idle;
        std::mem::swap(&mut phase, &mut self.phase);
        match phase {
            WorkerPhase::Upload(work, local) => {
                record_file(&mut self.journal, work.spec.label.as_str(), file_id, &local.hash, local.size);
                self.phase = WorkerPhase::Describe(work, local, file_id);
            },
            _ => {},
        }
    }

    /// Takes in what the bucket says of the file.
    pub fn on_described(&mut self, descriptor: &FileDescriptor) -> (r: Result<(), String>)
        requires
            old(self).valid(),
            old(self).phase is Describe,
        ensures
            final(self).valid(),
            final(self).only_phase_differs(old(self)),
            r is Err ==> final(self).stopped(old(self)),
            ({
                let work = old(self).phase->Describe_0;
                let local = old(self).phase->Describe_1;
                let file_id = old(self).phase->Describe_2;
                match r {
                    Ok(_) => {
                        &&& descriptor_matches(*descriptor, work.spec@, file_id, local.size, local.hash@)
                        &&& final(self).phase == WorkerPhase::Submit(work, local, file_id)
                    },
                    Err(message) => {
                        &&& !descriptor_matches(*descriptor, work.spec@, file_id, local.size, local.hash@)
                        &&& message@ == descriptor_error(*descriptor, work.spec@, file_id, local.size)
                    },
                }
            }),
    {
        let mut phase = WorkerPhase::Idle;
        std::mem::swap(&mut phase, &mut self.phase);
        match phase {
            WorkerPhase::Describe(work, local, file_id) => {
                match check_descriptor(descriptor, &work.spec, file_id, local.size, &local.hash) {
                    Ok(_) => {
                        self.phase = WorkerPhase::Submit(work, local, file_id);
                        Ok(())
                    },
                    Err(message) => Err(message),
                }
            },
            _ => Ok(()),
        }
    }

    /// Takes in what became of the submission.  Tells whether the journal has
    /// to be saved.
    pub fn on_submitted(&mut self, outcome: Result<TranscodeJob, CandidateSubmitError>) -> (r: Result<bool, String>)
        requires
            old(self).valid(),
            old(self).phase is Submit,
        ensures
            final(self).valid(),
            final(self).same_run(old(self)),
            r is Err ==> final(self).stopped(old(self)),
            ({
                let work = old(self).phase->Submit_0;
                let local = old(self).phase->Submit_1;
                let file_id = old(self).phase->Submit_2;
                let records = old(self).journal.records();
                match outcome {
                    Ok(job) => {
                        &&& final(self).job == job
                        &&& match candidate_of(job.variants@, work.spec.label@) {
                            Some(candidate) => match r {
                                Ok(save) => final(self).settled(old(self), work, local, candidate, save),
                                Err(message) => {
                                    &&& settle_fault(
                                        work.spec.label@,
                                        records[work.spec.label@],
                                        candidate,
                                        old(self).options.bucket@,
                                        local.hash@,
                                        local.size,
                                    ) == Some(message@)
                                    &&& final(self).journal.records() == records
                                },
                            },
                            None => {
                                &&& r matches Err(message)
                                &&& message@ == "Hub accepted variant "@ + work.spec.label@
                                    + " without returning its candidate"@
                                &&& final(self).journal.records() == records
                            },
                        }
                    },
                    Err(error) => if error.cleanup_allowed {
                        &&& r == Ok::<bool, String>(false)
                        &&& final(self).only_phase_differs(old(self))
                        &&& final(self).phase == WorkerPhase::Discard(work, file_id, error.message)
                    } else {
                        &&& r == Err::<bool, String>(error.message)
                        &&& final(self).only_phase_differs(old(self))
                    },
                }
            }),
    {
        let mut phase = WorkerPhase::Idle;
        std::mem::swap(&mut phase, &mut self.phase);
        match phase {
            WorkerPhase::Submit(work, local, file_id) => match outcome {
                Ok(job) => {
                    self.job = job;
                    let label = work.spec.label.as_str();
                    let place = find_variant(&self.job.variants, label);
                    let candidate = match place {
                        Some(at) => match &self.job.variants[at].candidate {
                            Some(candidate) => candidate,
                            None => return Err(
                                cat3("Hub accepted variant ", label, " without returning its candidate"),
                            ),
                        },
                        None => return Err(
                            cat3("Hub accepted variant ", label, " without returning its candidate"),
                        ),
                    };
                    let save = match settle(
                        &mut self.journal,
                        label,
                        candidate,
                        &self.options.bucket,
                        &local.hash,
                        local.size,
                    ) {
                        Ok(save) => save,
                        Err(message) => return Err(message),
                    };
                    let approval = match approval_from(
                        &work.spec,
                        candidate,
                        &local.probe,
                        work.output_path.as_str(),
                    ) {
                        Ok(approval) => approval,
                        Err(message) => return Err(message),
                    };
                    let ghost approvals = self.approvals@;
                    self.approvals.push(approval);
                    assert(self.approvals@.drop_last() =~= approvals);
                    self.index = self.index + 1;
                    Ok(save)
                },
                Err(error) => {
                    if error.cleanup_allowed {
                        self.phase = WorkerPhase::Discard(work, file_id, error.message);
                        return Ok(false);
                    }
                    Err(error.message)
                },
            },
            _ => Ok(false),
        }
    }

    /// Takes in what became of removing a file that the Hub refused.  The run
    /// ends with the error given back; the journal has to be saved where the
    /// file was removed.
    pub fn on_discarded(&mut self, cleanup: Result<bool, String>) -> (r: (bool, String))
        requires
            old(self).valid(),
            old(self).phase is Discard,
        ensures
            final(self).valid(),
            final(self).same_run(old(self)),
            final(self).job == old(self).job,
            final(self).stopped(old(self)),
            ({
                let work = old(self).phase->Discard_0;
                let file_id = old(self).phase->Discard_1;
                let refusal = old(self).phase->Discard_2;
                let label = work.spec.label@;
                let records = old(self).journal.records();
                &&& r.0 == (cleanup == Ok::<bool, String>(true))
                &&& if r.0 {
                    &&& r.1@ == "Hub rejected variant "@ + label + " and remote file "@ + decimal(file_id as nat)
                        + " was deleted: "@ + refusal@
                    &&& final(self).journal.records() == records.insert(
                        label,
                        OutputRecord { file_id: None, ..records[label] },
                    )
                } else {
                    &&& r.1@ == "Hub rejected variant "@ + label + ": "@ + refusal@ + "; remote cleanup for file "@
                        + decimal(file_id as nat) + " failed: "@ + (match cleanup {
                        Ok(_) => "Ok(false)"@,
                        Err(message) => "Err("@ + debug_text(message@) + ")"@,
                    })
                    &&& final(self).journal.records() == records
                }
            }),
    {
        let mut phase = WorkerPhase::Idle;
        std::mem::swap(&mut phase, &mut self.phase);
        match phase {
            WorkerPhase::Discard(work, file_id, refusal) => {
                let label = work.spec.label.as_str();
                let failure = match cleanup {
                    Ok(true) => {
                        let record = match self.journal.record(label) {
                            Some(record) => {
                                let mut record = record.duplicate();
                                record.file_id = None;
                                Some(record)
                            },
                            None => None,
                        };
                        match record {
                            Some(record) => {
                                self.journal.set_record(label, record);
                            },
                            None => {},
                        }
                        return (
                            true,
                            cat6(
                                "Hub rejected variant ",
                                label,
                                " and remote file ",
                                decimal_text(file_id as u64).as_str(),
                                " was deleted: ",
                                refusal.as_str(),
                            ),
                        );
                    },
                    Ok(false) => owned("Ok(false)"),
                    Err(message) => cat3("Err(", debug_quoted(message.as_str()).as_str(), ")"),
                };
                let refused = cat4("Hub rejected variant ", label, ": ", refusal.as_str());
                (
                    false,
                    cat5(
                        refused.as_str(),
                        "; remote cleanup for file ",
                        decimal_text(file_id as u64).as_str(),
                        " failed: ",
                        failure.as_str(),
                    ),
                )
            },
            _ => (false, owned("")),
        }
    }

    /// The report of a run through all variants.
    pub fn finish(self) -> (r: WorkerReport)
        requires
            self.valid(),
            self.phase is Idle,
            self.index == self.count,
        ensures
            r.schema_version == 1,
            r.hub@ == principal_text(self.options.hub@),
            r.job_id == self.options.job_id,
            r.source_hash_hex == self.source_hash_hex,
            r.status@ == status_name(self.job.status),
            r.approvals == self.approvals,
            r.approvals@.len() == self.count,
    {
        WorkerReport {
            schema_version: 1,
            hub: self.options.hub.to_text(),
            job_id: self.options.job_id,
            source_hash_hex: self.source_hash_hex,
            status: owned(self.job.status.name()),
            approvals: self.approvals,
        }
    }
}

/// What is reported of a failed run: the failure of a running job is sent to
/// the Hub, cut to a length that the Hub takes; a job that no longer runs is
/// left as it is.
pub fn failure_report(status: TranscodeJobStatus, error: &str) -> (r: Option<String>)
    ensures
        match r {
            Some(message) => status is Running && message@ == bounded(error@, MAX_REPORTED_BYTES as nat),
            None => status !is Running,
        },
{
    if status != TranscodeJobStatus::Running {
        return None;
    }
    Some(bounded_error(error, MAX_REPORTED_BYTES))
}

/// The error of a failed run; where reporting it failed too, that is added.
pub fn run_failure(error: String, report_error: Option<&str>) -> (r: String)
    ensures
        r@ == match report_error {
            Some(report_error) => error@ + "; additionally failed to report the worker failure to Hub: "@
                + report_error@,
            None => error@,
        },
{
    match report_error {
        Some(report_error) => cat3(
            error.as_str(),
            "; additionally failed to report the worker failure to Hub: ",
            report_error,
        ),
        None => error,
    }
}

/// An output that was uploaded once is not uploaded again: whoever takes up the
/// journal finds its file, and neither its path nor any other output changes.
pub proof fn law_uploaded_outputs_are_remembered(
    records: Map<Seq<char>, OutputRecord>,
    label: Seq<char>,
    other: Seq<char>,
    file_id: u32,
    hash: Seq<u8>,
    size: u64,
)
    requires
        records.contains_key(label),
    ensures
        ({
            let after = records.insert(label, recorded(records[label], file_id, hash, size));
            &&& after[label].file_id == Some(file_id)
            &&& after[label].output_path == records[label].output_path
            &&& other != label ==> after.contains_key(other) == records.contains_key(other) && after[other]
                == records[other]
        }),
{
}

/// A candidate that stands for an output has its content, and the journal
/// never points to another file of the same bucket.
pub proof fn law_settled_candidates_match_the_output(
    label: Seq<char>,
    record: OutputRecord,
    candidate: MediaVariantCandidate,
    bucket: Seq<u8>,
    hash: Seq<u8>,
    size: u64,
)
    requires
        settle_fault(label, record, candidate, bucket, hash, size) is None,
    ensures
        candidate.content_hash@ == hash,
        candidate.size == size,
        candidate.bucket@ == bucket && record.file_id is Some ==> record.file_id == Some(candidate.file_id),
{
}

/// The variant with a label is the first one that has it; without such a
/// variant there is none, and the candidate is that of this variant.
pub proof fn law_variants_are_found_by_their_label(variants: Seq<MediaVariant>, label: Seq<char>)
    ensures
        match variant_place(variants, label) {
            Some(at) => {
                &&& 0 <= at < variants.len()
                &&& variants[at].spec.label@ == label
                &&& candidate_of(variants, label) == variants[at].candidate
                &&& forall|j: int| 0 <= j < at ==> (#[trigger] variants[j]).spec.label@ != label
            },
            None => {
                &&& candidate_of(variants, label) is None
                &&& forall|j: int| 0 <= j < variants.len() ==> (#[trigger] variants[j]).spec.label@ != label
            },
        },
    decreases variants.len(),
{
    if variants.len() > 0 {
        let rest = variants.drop_last();
        law_variants_are_found_by_their_label(rest, label);
        assert(variants.last() == variants[variants.len() - 1]);
        match variant_place(rest, label) {
            Some(at) => {
                assert(rest[at] == variants[at]);
                assert forall|j: int| 0 <= j < at implies (#[trigger] variants[j]).spec.label@ != label by {
                    assert(rest[j] == variants[j]);
                }
            },
            None => {
                assert forall|j: int| 0 <= j < rest.len() implies (#[trigger] variants[j]).spec.label@ != label by {
                    assert(rest[j] == variants[j]);
                }
            },
        }
    }
}

/// A lost reply is made good exactly where some variant of the job has the
/// label and, as its candidate, the file in the bucket.
pub proof fn law_taken_candidates_are_seen(
    variants: Seq<MediaVariant>,
    label: Seq<char>,
    bucket: Seq<u8>,
    file_id: u32,
    at: int,
)
    requires
        0 <= at < variants.len(),
        variants[at].spec.label@ == label,
        variants[at].candidate is Some,
        variants[at].candidate->0.bucket@ == bucket,
        variants[at].candidate->0.file_id == file_id,
    ensures
        shows_candidate(variants, label, bucket, file_id),
{
}

/// A candidate is shown only where a variant with the label has the file in the
/// bucket as its candidate.
pub proof fn law_only_taken_candidates_are_seen(
    variants: Seq<MediaVariant>,
    label: Seq<char>,
    bucket: Seq<u8>,
    file_id: u32,
) -> (at: int)
    requires
        shows_candidate(variants, label, bucket, file_id),
    ensures
        0 <= at < variants.len(),
        variants[at].spec.label@ == label,
        variants[at].candidate matches Some(candidate) && candidate.bucket@ == bucket && candidate.file_id == file_id,
{
    choose|i: int|
        0 <= i < variants.len() && (#[trigger] variants[i]).spec.label@ == label && variants[i].candidate is Some
            && variants[i].candidate->0.bucket@ == bucket && variants[i].candidate->0.file_id == file_id
}

/// A file of the bucket is submitted exactly where it is the one that was asked
/// for, with the size and the digest of the local output, and its content type
/// is that of the variant; a file without a digest is never submitted.
pub proof fn law_only_files_with_the_same_content_are_submitted(
    descriptor: FileDescriptor,
    spec: SpecModel,
    file_id: u32,
    size: u64,
    hash: Seq<u8>,
)
    ensures
        descriptor_matches(descriptor, spec, file_id, size, hash) <==> {
            &&& descriptor.id == file_id
            &&& descriptor.size == size
            &&& descriptor.hash matches Some(found)
            &&& found@ == hash
            &&& media_type(descriptor.content_type@) == spec.content_type
        },
{
}

/// The media type of a content type does not depend on its parameters, on the
/// case of its letters or on the white space around it.
pub proof fn law_parameters_do_not_change_the_media_type(kind: Seq<char>, parameters: Seq<char>)
    requires
        !kind.contains(';'),
    ensures
        media_type(kind + seq![';'] + parameters) == media_type(kind),
        media_type(kind) == lower(trim(kind)),
{
    crate::text::law_texts_are_split_at_every_separator(kind, parameters, ';');
    assert((split(kind, ';') + split(parameters, ';'))[0] == kind);
}

/// A candidate stands for the local output exactly where it has its size and
/// its digest, and the journal does not know another file in the same bucket.
pub proof fn law_candidates_with_the_same_content_are_settled(
    label: Seq<char>,
    record: OutputRecord,
    candidate: MediaVariantCandidate,
    bucket: Seq<u8>,
    hash: Seq<u8>,
    size: u64,
)
    ensures
        settle_fault(label, record, candidate, bucket, hash, size) is None <==> {
            &&& candidate.size == size
            &&& candidate.content_hash@ == hash
            &&& candidate.bucket@ != bucket || record.file_id is None || record.file_id == Some(candidate.file_id)
        },
{
}

/// The journal takes over the file of a candidate in its own bucket exactly
/// where it does not hold the same already, and then holds just the file, digest
/// and size of the candidate, beside the path it held before.
pub proof fn law_settled_candidates_are_written_down(
    record: OutputRecord,
    candidate: MediaVariantCandidate,
    bucket: Seq<u8>,
    hash: Seq<u8>,
    size: u64,
)
    ensures
        candidate.bucket@ != bucket ==> !must_record(record, candidate, bucket, hash, size),
        candidate.bucket@ == bucket ==> (!must_record(record, candidate, bucket, hash, size) <==> {
            &&& record.file_id is Some
            &&& record.content_hash_hex == Some(hex_text(hash))
            &&& record.size == Some(size)
        }),
        ({
            let after = recorded(record, candidate.file_id, hash, size);
            &&& after.file_id == Some(candidate.file_id)
            &&& after.content_hash_hex == Some(hex_text(hash))
            &&& after.size == Some(size)
            &&& after.output_path == record.output_path
            &&& after.cleanup is None
            &&& !must_record(after, candidate, bucket, hash, size)
        }),
{
}

/// What is put up for approval names the candidate's own bucket, file, digest
/// and generation, and the observations of the local output.
pub proof fn law_approvals_name_their_candidate(
    approval: &ApprovalInput,
    label: Seq<char>,
    candidate: &MediaVariantCandidate,
    probe: &ProbeResult,
    output_path: Seq<char>,
)
    requires
        approval_is(approval, label, candidate, probe@, output_path),
    ensures
        approval.label@ == label,
        approval.output_path@ == output_path,
        approval.bucket@ == principal_text(candidate.bucket@),
        text_principal(approval.bucket@) == Ok::<Seq<u8>, Seq<char>>(candidate.bucket@),
        approval.file_id == candidate.file_id,
        approval.content_hash_hex@ == hex_text(candidate.content_hash@),
        crate::outside::hex_bytes(crate::text::utf8(approval.content_hash_hex@)) == candidate.content_hash@,
        approval.generation == candidate.generation,
        approval.codec@ == probe.codec@,
        approval.width == probe.width,
        approval.height == probe.height,
        approval.bitrate_bps == probe.bitrate_bps,
        approval.observed_video_codec@ == probe.observed_video_codec@,
        text_option(approval.observed_video_profile) == text_option(probe.observed_video_profile),
        approval.observed_video_level == probe.observed_video_level,
        text_option(approval.observed_audio_codec) == text_option(probe.observed_audio_codec),
        approval.observed_format@ == probe.observed_format@,
{
    crate::outside::law_hex_round_trip(candidate.content_hash@);
    crate::transcode::types::law_observations_are_compared_one_by_one(approval, probe);
}

/// A run is in the middle of a variant exactly where it is not idle, and what it
/// does next is about that variant.
pub proof fn law_phases_are_about_their_variant(phase: WorkerPhase)
    ensures
        work_of(phase) is None <==> phase is Idle,
        phase matches WorkerPhase::CheckOutput(work) ==> work_of(phase) == Some(work),
        phase matches WorkerPhase::Transcode(work, _) ==> work_of(phase) == Some(work),
        phase matches WorkerPhase::Probe(work) ==> work_of(phase) == Some(work),
        phase matches WorkerPhase::Measure(work, _) ==> work_of(phase) == Some(work),
        phase matches WorkerPhase::Upload(work, _) ==> work_of(phase) == Some(work),
        phase matches WorkerPhase::Describe(work, _, _) ==> work_of(phase) == Some(work),
        phase matches WorkerPhase::Submit(work, _, _) ==> work_of(phase) == Some(work),
        phase matches WorkerPhase::Discard(work, _, _) ==> work_of(phase) == Some(work),
{
}

/// A variant that is settled takes the run to the next one: the journal, where
/// it is saved, holds the file, digest and size of the candidate for this
/// variant and is unchanged for every other, the approvals made before stay, and
/// the new one names the candidate.
pub proof fn law_settled_variants_are_approved(
    after: &WorkerRun,
    before: &WorkerRun,
    work: VariantWork,
    local: LocalOutput,
    candidate: MediaVariantCandidate,
    save: bool,
    other: Seq<char>,
)
    requires
        before.valid(),
        before.journal.records().contains_key(work.spec.label@),
        after.settled(before, work, local, candidate, save),
    ensures
        candidate.content_hash@ == local.hash@,
        candidate.size == local.size,
        save ==> candidate.bucket@ == before.options.bucket@ && after.journal.records()[work.spec.label@].file_id
            == Some(candidate.file_id) && after.journal.records()[work.spec.label@].size == Some(local.size),
        candidate.bucket@ == before.options.bucket@ ==> after.journal.records()[work.spec.label@].file_id == Some(
            candidate.file_id,
        ),
        other != work.spec.label@ ==> after.journal.records().contains_key(other)
            == before.journal.records().contains_key(other) && after.journal.records()[other]
            == before.journal.records()[other],
        after.approvals@.len() == before.approvals@.len() + 1,
        forall|i: int| 0 <= i < before.approvals@.len() ==> after.approvals@[i] == before.approvals@[i],
        after.approvals@.last().file_id == candidate.file_id,
        after.approvals@.last().label@ == work.spec.label@,
        after.index == before.index + 1,
        after.phase is Idle,
{
    assert forall|i: int| 0 <= i < before.approvals@.len() implies after.approvals@[i] == before.approvals@[i] by {
        assert(after.approvals@.drop_last()[i] == before.approvals@[i]);
    }
}

/// A run that changes only its phase keeps its job, journal, approvals and
/// place, and every run keeps its options, source, number of variants and the
/// work that its journal is about.
pub proof fn law_runs_keep_what_they_are_about(after: &WorkerRun, before: &WorkerRun)
    ensures
        after.only_phase_differs(before) ==> {
            &&& after.job == before.job
            &&& after.journal == before.journal
            &&& after.approvals == before.approvals
            &&& after.index == before.index
            &&& after.options == before.options
            &&& after.source_hash_hex == before.source_hash_hex
            &&& after.count == before.count
        },
        after.same_run(before) ==> {
            &&& after.options == before.options
            &&& after.source_hash_hex == before.source_hash_hex
            &&& after.count == before.count
            &&& after.journal.hub@ == before.journal.hub@
            &&& after.journal.bucket@ == before.journal.bucket@
            &&& after.journal.job_id == before.journal.job_id
            &&& after.journal.source_hash_hex@ == before.journal.source_hash_hex@
            &&& after.journal.schema_version == before.journal.schema_version
        },
        after.stopped(before) ==> {
            &&& after.phase is Idle
            &&& after.index == before.index
            &&& after.approvals == before.approvals
        },
        before.valid() ==> before.approvals@.len() == before.index <= before.count,
{
}

/// A failure is reported in at most 1000 bytes, or by its replacement.
pub proof fn law_reported_failures_are_short(error: Seq<char>)
    ensures
        crate::text::utf8(bounded(error, MAX_REPORTED_BYTES as nat)).len() <= 1000,
{
    crate::transcode::labels::law_messages_are_cut_and_never_empty(error, MAX_REPORTED_BYTES as nat);
    crate::transcode::labels::lemma_replacement_is_short();
}

/// Why a candidate cannot stand for the local output is told with its variant:
/// its content first, then another file.
pub proof fn law_refused_candidates_are_told(
    label: Seq<char>,
    record: OutputRecord,
    candidate: MediaVariantCandidate,
    bucket: Seq<u8>,
    hash: Seq<u8>,
    size: u64,
)
    ensures
        candidate.size != size || candidate.content_hash@ != hash ==> settle_fault(
            label,
            record,
            candidate,
            bucket,
            hash,
            size,
        ) == Some("local output for variant "@ + label + " does not match the submitted candidate size/hash"@),
        candidate.size == size && candidate.content_hash@ == hash && settle_fault(
            label,
            record,
            candidate,
            bucket,
            hash,
            size,
        ) is Some ==> settle_fault(label, record, candidate, bucket, hash, size) == Some(
            "journal output for variant "@ + label
                + " differs from the current Hub candidate; preserving both remote files for explicit cleanup"@,
        ),
{
}

/// A file that is not the local output is told with what was found and what was
/// expected of it: its identifier, its size, its digest and its content type.
pub proof fn law_other_files_are_told(descriptor: FileDescriptor, spec: SpecModel, file_id: u32, size: u64)
    ensures
        descriptor.hash is None ==> descriptor_error(descriptor, spec, file_id, size) == "Bucket descriptor for variant "@
            + spec.label + " does not match local output: id="@ + decimal(descriptor.id as nat) + "/"@ + decimal(
            file_id as nat,
        ) + ", size="@ + decimal(descriptor.size as nat) + "/"@ + decimal(size as nat) + ", hash="@ + "none"@
            + ", content_type="@ + descriptor.content_type@ + "/"@ + spec.content_type,
        descriptor.hash matches Some(hash) ==> descriptor_error(descriptor, spec, file_id, size)
            == "Bucket descriptor for variant "@ + spec.label + " does not match local output: id="@ + decimal(
            descriptor.id as nat,
        ) + "/"@ + decimal(file_id as nat) + ", size="@ + decimal(descriptor.size as nat) + "/"@ + decimal(size as nat)
            + ", hash="@ + hex_text(hash@) + ", content_type="@ + descriptor.content_type@ + "/"@ + spec.content_type,
{
}

} // verus!

//! The owner's approval of a worker's report.
use vstd::prelude::*;

use crate::ordered::PathSet;
use crate::outside::{hex_bytes, decode_hex, hex_error, is_hex, law_hex_round_trip, principal_text, text_principal};
use crate::principal::Principal;
use crate::text::{cat2, cat3, cat4, decimal, decimal_text, owned, same_bytes, same_text, text_option, utf8};
use crate::transcode::probe::{probe_result, validate_probe, FfprobeOutput};
use crate::transcode::types::{
    ApprovalInput, MediaVariantCandidate, ProbeModel, ProbeResult, TranscodeJob, VerifyTranscodeOutputInput,
    WorkerReport, SHA3_256_BYTES,
};
use crate::transcode::worker::{approval_is, candidate_of, find_variant, variant_place};

verus! {

/// What is wrong with a report as a whole.
pub open spec fn report_fault(report: &WorkerReport, hub: Seq<u8>) -> Option<Seq<char>> {
    if report.schema_version != 1 {
        Some("unsupported approval report schema "@ + decimal(report.schema_version as nat))
    } else if report.hub@ != principal_text(hub) {
        Some("approval report Hub does not match --hub"@)
    } else if report.approvals@.len() == 0 {
        Some("approval report contains no variants"@)
    } else {
        None
    }
}

/// Checks a report as a whole.
pub fn check_report(report: &WorkerReport, expected_hub: &Principal) -> (r: Result<(), String>)
    ensures
        match r {
            Ok(_) => report_fault(report, expected_hub@) is None,
            Err(message) => report_fault(report, expected_hub@) == Some(message@),
        },
{
    if report.schema_version != 1 {
        return Err(
            cat2("unsupported approval report schema ", decimal_text(report.schema_version as u64).as_str()),
        );
    }
    if !same_text(report.hub.as_str(), expected_hub.to_text().as_str()) {
        return Err(owned("approval report Hub does not match --hub"));
    }
    if report.approvals.len() == 0 {
        return Err(owned("approval report contains no variants"));
    }
    Ok(())
}

/// Whether a candidate is the one that an approval speaks of.
pub open spec fn is_current(approval: &ApprovalInput, candidate: MediaVariantCandidate, bucket: Seq<u8>) -> bool {
    &&& candidate.bucket@ == bucket
    &&& candidate.file_id == approval.file_id
    &&& candidate.content_hash@ == hex_bytes(utf8(approval.content_hash_hex@))
    &&& candidate.generation == approval.generation
}

/// What is wrong with one approval, given the labels that came before it and
/// the job as the Hub shows it.
pub open spec fn approval_fault(approval: &ApprovalInput, labels: Set<Seq<char>>, job: &TranscodeJob) -> Option<
    Seq<char>,
> {
    let label = approval.label@;
    let digits = utf8(approval.content_hash_hex@);
    if labels.contains(label) {
        Some("approval report repeats variant "@ + label)
    } else if !is_hex(digits) {
        Some("approval "@ + label + " contains an invalid hash: "@ + hex_error(digits))
    } else if hex_bytes(digits).len() != SHA3_256_BYTES {
        Some("approval "@ + label + " hash is not SHA3-256"@)
    } else if variant_place(job.variants@, label) is None {
        Some("job has no variant "@ + label)
    } else if candidate_of(job.variants@, label) is None {
        Some("variant "@ + label + " has no current candidate"@)
    } else {
        match text_principal(approval.bucket@) {
            Err(message) => Some("approval Bucket is invalid: "@ + message),
            Ok(bucket) => if !is_current(approval, candidate_of(job.variants@, label)->0, bucket) {
                Some("approval "@ + label + " does not match the current Hub candidate"@)
            } else {
                None
            },
        }
    }
}

/// An approval that fits the job; its local media is still to be looked at.
pub struct PendingApproval {
    pub variant: usize,
    pub bucket: Principal,
    pub content_hash: Vec<u8>,
}

/// The course of an owner's approval.
pub struct ApprovalRun {
    pub report: WorkerReport,
    pub job: TranscodeJob,
    pub labels: PathSet,
    pub index: usize,
}

fn same_text_option(a: &Option<String>, b: &Option<String>) -> (r: bool)
    ensures
        r == (text_option(*a) == text_option(*b)),
{
    match (a, b) {
        (Some(a), Some(b)) => same_text(a.as_str(), b.as_str()),
        (None, None) => true,
        _ => false,
    }
}

fn same_probe(approval: &ApprovalInput, probe: &ProbeResult) -> (r: bool)
    ensures
        r == (approval.probe() == probe@),
{
    let r = same_text(approval.codec.as_str(), probe.codec.as_str()) && approval.width == probe.width
        && approval.height == probe.height && approval.bitrate_bps == probe.bitrate_bps && same_text(
        approval.observed_video_codec.as_str(),
        probe.observed_video_codec.as_str(),
    ) && same_text_option(&approval.observed_video_profile, &probe.observed_video_profile)
        && approval.observed_video_level == probe.observed_video_level && same_text_option(
        &approval.observed_audio_codec,
        &probe.observed_audio_codec,
    ) && same_text(approval.observed_format.as_str(), probe.observed_format.as_str());
    proof {
        if r {
            assert(approval.probe() =~= probe@);
        }
    }
    r
}

impl ApprovalRun {
    /// A run before its first approval.
    pub fn start(report: WorkerReport, job: TranscodeJob) -> (r: ApprovalRun)
        ensures
            r.report == report,
            r.job == job,
            r.labels@ == Set::<Seq<char>>::empty(),
            r.index == 0,
    {
        ApprovalRun { report, job, labels: PathSet::new(), index: 0 }
    }

    /// Whether a pending approval is the current one.
    pub open spec fn is_pending(&self, pending: &PendingApproval) -> bool {
        &&& self.index < self.report.approvals@.len()
        &&& pending.variant < self.job.variants@.len()
        &&& self.job.variants@[pending.variant as int].candidate is Some
        &&& ({
            let approval = self.report.approvals@[self.index as int];
            &&& variant_place(self.job.variants@, approval.label@) == Some(pending.variant as int)
            &&& text_principal(approval.bucket@) == Ok::<Seq<u8>, Seq<char>>(pending.bucket@)
            &&& pending.content_hash@ == hex_bytes(utf8(approval.content_hash_hex@))
            &&& is_current(
                &approval,
                self.job.variants@[pending.variant as int].candidate->0,
                pending.bucket@,
            )
        })
    }

    /// Takes up the next approval, if there is one.
    pub fn begin(&mut self) -> (r: Result<Option<PendingApproval>, String>)
        ensures
            final(self).report == old(self).report,
            final(self).job == old(self).job,
            final(self).index == old(self).index,
            if old(self).index < old(self).report.approvals@.len() {
                let approval = old(self).report.approvals@[old(self).index as int];
                let fault = approval_fault(&approval, old(self).labels@, &old(self).job);
                &&& final(self).labels@ == old(self).labels@.insert(approval.label@)
                &&& match r {
                    Ok(Some(pending)) => fault is None && final(self).is_pending(&pending),
                    Ok(None) => false,
                    Err(message) => fault == Some(message@),
                }
            } else {
                r matches Ok(None) && final(self).labels@ == old(self).labels@
            },
    {
        if self.index >= self.report.approvals.len() {
            return Ok(None);
        }
        let approval = &self.report.approvals[self.index];
        let label = approval.label.as_str();
        if self.labels.contains(label) {
            assert(self.labels@ =~= self.labels@.insert(label@));
            return Err(cat2("approval report repeats variant ", label));
        }
        self.labels.insert(owned(label));
        let content_hash = match decode_hex(approval.content_hash_hex.as_str()) {
            Ok(bytes) => bytes,
            Err(message) => return Err(
                cat4("approval ", label, " contains an invalid hash: ", message.as_str()),
            ),
        };
        if content_hash.len() != SHA3_256_BYTES {
            return Err(cat3("approval ", label, " hash is not SHA3-256"));
        }
        let variant: usize = match find_variant(&self.job.variants, label) {
            Some(at) => at,
            None => return Err(cat2("job has no variant ", label)),
        };
        let candidate = match &self.job.variants[variant].candidate {
            Some(candidate) => candidate,
            None => return Err(cat3("variant ", label, " has no current candidate")),
        };
        let bucket = match Principal::from_text(approval.bucket.as_str()) {
            Ok(bucket) => bucket,
            Err(message) => return Err(cat2("approval Bucket is invalid: ", message.as_str())),
        };
        if candidate.bucket != bucket || candidate.file_id != approval.file_id || !same_bytes(
            candidate.content_hash.as_slice(),
            content_hash.as_slice(),
        ) || candidate.generation != approval.generation {
            return Err(cat3("approval ", label, " does not match the current Hub candidate"));
        }
        Ok(Some(PendingApproval { variant, bucket, content_hash }))
    }

    /// Checks that the local media is the candidate.
    pub fn check_media(&self, pending: &PendingApproval, hash: &[u8; 32], size: u64) -> (r: Result<(), String>)
        requires
            self.is_pending(pending),
        ensures
            ({
                let label = self.report.approvals@[self.index as int].label@;
                let candidate = self.job.variants@[pending.variant as int].candidate->0;
                match r {
                    Ok(_) => candidate.content_hash@ == hash@ && candidate.size == size,
                    Err(message) => !(candidate.content_hash@ == hash@ && candidate.size == size) && message@
                        == "approval media for "@ + label + " does not match the Hub candidate size/hash"@,
                }
            }),
    {
        let matches_candidate = match &self.job.variants[pending.variant].candidate {
            Some(candidate) => same_bytes(candidate.content_hash.as_slice(), hash.as_slice()) && candidate.size
                == size,
            None => false,
        };
        if !matches_candidate {
            return Err(
                cat3(
                    "approval media for ",
                    self.report.approvals[self.index].label.as_str(),
                    " does not match the Hub candidate size/hash",
                ),
            );
        }
        Ok(())
    }

    /// Checks that an inspection of the local media shows what the worker
    /// reported, and makes the request that verifies the output.
    pub fn confirm(&self, pending: PendingApproval, output: &FfprobeOutput) -> (r: Result<
        VerifyTranscodeOutputInput,
        String,
    >)
        requires
            self.is_pending(&pending),
        ensures
            ({
                let approval = self.report.approvals@[self.index as int];
                let spec = self.job.variants@[pending.variant as int].spec@;
                let result = probe_result(spec, output.streams@, output.format.format_name@);
                match r {
                    Ok(input) => {
                        &&& result == Ok::<ProbeModel, Seq<char>>(approval.probe())
                        &&& input.label@ == approval.label@
                        &&& input.bucket == pending.bucket
                        &&& input.file_id == approval.file_id
                        &&& input.content_hash == pending.content_hash
                        &&& input.generation == approval.generation
                        &&& input.codec@ == approval.codec@
                        &&& input.width == approval.width
                        &&& input.height == approval.height
                        &&& input.bitrate_bps == approval.bitrate_bps
                    },
                    Err(message) => match result {
                        Err(fault) => message@ == fault,
                        Ok(probe) => probe != approval.probe() && message@ == "independent ffprobe result for "@
                            + approval.label@ + " differs from the worker report"@,
                    },
                }
            }),
    {
        let approval = &self.report.approvals[self.index];
        let probe = match validate_probe(&self.job.variants[pending.variant].spec, output) {
            Ok(probe) => probe,
            Err(message) => return Err(message),
        };
        if !same_probe(approval, &probe) {
            return Err(
                cat3(
                    "independent ffprobe result for ",
                    approval.label.as_str(),
                    " differs from the worker report",
                ),
            );
        }
        assert(approval.probe().codec == probe@.codec);
        Ok(
            VerifyTranscodeOutputInput {
                label: owned(approval.label.as_str()),
                bucket: pending.bucket,
                file_id: approval.file_id,
                content_hash: pending.content_hash,
                generation: approval.generation,
                codec: probe.codec,
                width: probe.width,
                height: probe.height,
                bitrate_bps: probe.bitrate_bps,
            },
        )
    }

    /// Takes in the job after an output was verified.
    pub fn on_verified(&mut self, job: TranscodeJob)
        requires
            old(self).index < old(self).report.approvals@.len(),
        ensures
            final(self).report == old(self).report,
            final(self).job == job,
            final(self).labels@ == old(self).labels@,
            final(self).index == old(self).index + 1,
    {
        let count: usize = self.report.approvals.len();
        self.job = job;
        if self.index < count {
            self.index = self.index + 1;
        }
    }
}

/// What a worker puts up for approval is accepted by the owner as long as the
/// Hub shows the same candidate and the label did not come before.
pub proof fn law_worker_reports_fit_the_job(
    approval: &ApprovalInput,
    candidate: &MediaVariantCandidate,
    probe: ProbeModel,
    output_path: Seq<char>,
    labels: Set<Seq<char>>,
    job: &TranscodeJob,
)
    requires
        approval_is(approval, approval.label@, candidate, probe, output_path),
        candidate.content_hash@.len() == SHA3_256_BYTES,
        candidate_of(job.variants@, approval.label@) == Some(*candidate),
        !labels.contains(approval.label@),
    ensures
        approval_fault(approval, labels, job) is None,
{
    law_hex_round_trip(candidate.content_hash@);
}

/// An approval is accepted only for the candidate that the Hub shows: the same
/// bucket, file, generation and content.
pub proof fn law_only_current_candidates_are_approved(
    approval: &ApprovalInput,
    labels: Set<Seq<char>>,
    job: &TranscodeJob,
)
    requires
        approval_fault(approval, labels, job) is None,
    ensures
        !labels.contains(approval.label@),
        candidate_of(job.variants@, approval.label@) is Some,
        ({
            let candidate = candidate_of(job.variants@, approval.label@)->0;
            &&& text_principal(approval.bucket@) == Ok::<Seq<u8>, Seq<char>>(candidate.bucket@)
            &&& candidate.file_id == approval.file_id
            &&& candidate.generation == approval.generation
            &&& candidate.content_hash@ == hex_bytes(utf8(approval.content_hash_hex@))
            &&& candidate.content_hash@.len() == SHA3_256_BYTES
        }),
{
}

/// A report is looked at exactly where it has version 1, names the Hub and puts
/// something up for approval.
pub proof fn law_reports_for_the_hub_are_looked_at(report: &WorkerReport, hub: Seq<u8>)
    ensures
        report_fault(report, hub) is None <==> {
            &&& report.schema_version == 1
            &&& report.hub@ == principal_text(hub)
            &&& report.approvals@.len() > 0
        },
{
}

/// An approval is taken up exactly where its label did not come before, its
/// digest is 32 bytes in hexadecimal notation, its bucket is a principal, and
/// the first variant with the label has, as its candidate, the same file of the
/// same bucket with the same digest and generation.
pub proof fn law_current_candidates_are_approved(
    approval: &ApprovalInput,
    labels: Set<Seq<char>>,
    job: &TranscodeJob,
    at: int,
)
    requires
        0 <= at < job.variants@.len(),
        job.variants@[at].spec.label@ == approval.label@,
        forall|j: int| 0 <= j < at ==> (#[trigger] job.variants@[j]).spec.label@ != approval.label@,
    ensures
        approval_fault(approval, labels, job) is None <==> {
            &&& !labels.contains(approval.label@)
            &&& is_hex(utf8(approval.content_hash_hex@))
            &&& hex_bytes(utf8(approval.content_hash_hex@)).len() == 32
            &&& job.variants@[at].candidate matches Some(candidate)
            &&& text_principal(approval.bucket@) == Ok::<Seq<u8>, Seq<char>>(candidate.bucket@)
            &&& candidate.file_id == approval.file_id
            &&& candidate.generation == approval.generation
            &&& candidate.content_hash@ == hex_bytes(utf8(approval.content_hash_hex@))
        },
{
    crate::transcode::worker::law_variants_are_found_by_their_label(job.variants@, approval.label@);
    match variant_place(job.variants@, approval.label@) {
        Some(place) => {
            if place < at {
                assert(job.variants@[place].spec.label@ != approval.label@);
            } else if at < place {
                assert(job.variants@[at].spec.label@ != approval.label@);
            }
        },
        None => {
            assert(job.variants@[at].spec.label@ != approval.label@);
        },
    }
}

/// An approval for a label that no variant has is refused.
pub proof fn law_unknown_variants_are_not_approved(
    approval: &ApprovalInput,
    labels: Set<Seq<char>>,
    job: &TranscodeJob,
)
    requires
        forall|j: int| 0 <= j < job.variants@.len() ==> (#[trigger] job.variants@[j]).spec.label@ != approval.label@,
    ensures
        approval_fault(approval, labels, job) is Some,
{
    crate::transcode::worker::law_variants_are_found_by_their_label(job.variants@, approval.label@);
}

/// A pending approval is about the first variant with its label, and about the
/// bucket and digest that the approval names; that variant has this candidate.
pub proof fn law_pending_approvals_are_about_their_variant(run: &ApprovalRun, pending: &PendingApproval)
    requires
        run.is_pending(pending),
    ensures
        ({
            let approval = run.report.approvals@[run.index as int];
            let variant = run.job.variants@[pending.variant as int];
            &&& run.index < run.report.approvals@.len()
            &&& pending.variant < run.job.variants@.len()
            &&& variant.spec.label@ == approval.label@
            &&& forall|j: int|
                0 <= j < pending.variant ==> (#[trigger] run.job.variants@[j]).spec.label@ != approval.label@
            &&& text_principal(approval.bucket@) == Ok::<Seq<u8>, Seq<char>>(pending.bucket@)
            &&& pending.content_hash@ == hex_bytes(utf8(approval.content_hash_hex@))
            &&& variant.candidate matches Some(candidate)
            &&& candidate.bucket@ == pending.bucket@
            &&& candidate.file_id == approval.file_id
            &&& candidate.content_hash@ == pending.content_hash@
            &&& candidate.generation == approval.generation
        }),
{
    crate::transcode::worker::law_variants_are_found_by_their_label(
        run.job.variants@,
        run.report.approvals@[run.index as int].label@,
    );
}

/// What is wrong with a report is told: its version first, then its Hub, then
/// that it is empty.
pub proof fn law_refused_reports_are_told(report: &WorkerReport, hub: Seq<u8>)
    ensures
        report.schema_version != 1 ==> report_fault(report, hub) == Some(
            "unsupported approval report schema "@ + decimal(report.schema_version as nat),
        ),
        report.schema_version == 1 && report.hub@ != principal_text(hub) ==> report_fault(report, hub) == Some(
            "approval report Hub does not match --hub"@,
        ),
        report.schema_version == 1 && report.hub@ == principal_text(hub) && report.approvals@.len() == 0
            ==> report_fault(report, hub) == Some("approval report contains no variants"@),
{
}

/// What is wrong with an approval is told with its label: that it came before,
/// that its digest is none, that the job has no such variant or no candidate
/// for it, that its bucket is none, or that the candidate is another one.
pub proof fn law_refused_approvals_are_told(approval: &ApprovalInput, labels: Set<Seq<char>>, job: &TranscodeJob)
    ensures
        ({
            let label = approval.label@;
            let digits = utf8(approval.content_hash_hex@);
            let fault = approval_fault(approval, labels, job);
            let readable = is_hex(digits) && hex_bytes(digits).len() == 32;
            &&& labels.contains(label) ==> fault == Some("approval report repeats variant "@ + label)
            &&& !labels.contains(label) && !is_hex(digits) ==> fault == Some(
                "approval "@ + label + " contains an invalid hash: "@ + hex_error(digits),
            )
            &&& !labels.contains(label) && is_hex(digits) && hex_bytes(digits).len() != 32 ==> fault == Some(
                "approval "@ + label + " hash is not SHA3-256"@,
            )
            &&& !labels.contains(label) && readable && variant_place(job.variants@, label) is None ==> fault == Some(
                "job has no variant "@ + label,
            )
            &&& !labels.contains(label) && readable && variant_place(job.variants@, label) is Some && candidate_of(
                job.variants@,
                label,
            ) is None ==> fault == Some("variant "@ + label + " has no current candidate"@)
            &&& !labels.contains(label) && readable && candidate_of(job.variants@, label) is Some ==> (text_principal(
                approval.bucket@,
            ) matches Err(message) ==> fault == Some("approval Bucket is invalid: "@ + message))
            &&& !labels.contains(label) && readable && candidate_of(job.variants@, label) is Some && text_principal(
                approval.bucket@,
            ) is Ok && fault is Some ==> fault == Some(
                "approval "@ + label + " does not match the current Hub candidate"@,
            )
        }),
{
}

} // verus!

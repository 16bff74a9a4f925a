//! Transcode jobs as the Hub keeps them, and what is reported of them.
use vstd::prelude::*;

use crate::principal::Principal;
use crate::text::{owned, text_option};

verus! {

/// The number of bytes in a SHA3-256 digest.
pub const SHA3_256_BYTES: usize = 32;

/// What a variant is made for.
#[derive(Clone, Debug, PartialEq, Eq)]
pub enum MediaVariantKind {
    Poster,
    Thumbnail,
    Transcode { profile: String },
}

/// What a variant has to be like.
#[derive(Clone, Debug, PartialEq, Eq)]
pub struct MediaVariantSpec {
    pub label: String,
    pub kind: MediaVariantKind,
    pub content_type: String,
    pub codec: String,
    pub width: Option<u32>,
    pub height: Option<u32>,
    pub bitrate_bps: Option<u64>,
}

/// What a variant is made for, in terms of texts.
#[verifier::ext_equal]
pub enum KindModel {
    Poster,
    Thumbnail,
    Transcode { profile: Seq<char> },
}

/// What a variant has to be like, in terms of texts.
#[verifier::ext_equal]
pub struct SpecModel {
    pub label: Seq<char>,
    pub kind: KindModel,
    pub content_type: Seq<char>,
    pub codec: Seq<char>,
    pub width: Option<u32>,
    pub height: Option<u32>,
    pub bitrate_bps: Option<u64>,
}

impl View for MediaVariantKind {
    type V = KindModel;

    open spec fn view(&self) -> KindModel {
        match self {
            MediaVariantKind::Poster => KindModel::Poster,
            MediaVariantKind::Thumbnail => KindModel::Thumbnail,
            MediaVariantKind::Transcode { profile } => KindModel::Transcode { profile: profile@ },
        }
    }
}

impl View for MediaVariantSpec {
    type V = SpecModel;

    open spec fn view(&self) -> SpecModel {
        SpecModel {
            label: self.label@,
            kind: self.kind@,
            content_type: self.content_type@,
            codec: self.codec@,
            width: self.width,
            height: self.height,
            bitrate_bps: self.bitrate_bps,
        }
    }
}

impl MediaVariantSpec {
    /// A copy.
    pub fn duplicate(&self) -> (r: MediaVariantSpec)
        ensures
            r@ == self@,
    {
        MediaVariantSpec {
            label: owned(self.label.as_str()),
            kind: match &self.kind {
                MediaVariantKind::Poster => MediaVariantKind::Poster,
                MediaVariantKind::Thumbnail => MediaVariantKind::Thumbnail,
                MediaVariantKind::Transcode { profile } => MediaVariantKind::Transcode {
                    profile: owned(profile.as_str()),
                },
            },
            content_type: owned(self.content_type.as_str()),
            codec: owned(self.codec.as_str()),
            width: self.width,
            height: self.height,
            bitrate_bps: self.bitrate_bps,
        }
    }
}

/// How far a variant is.
#[derive(Clone, Copy, Debug, PartialEq, Eq, Structural)]
pub enum MediaVariantStatus {
    Pending,
    Verifying,
    Ready,
    Failed,
}

/// An output that was submitted for a variant.
#[derive(Clone, Debug, PartialEq, Eq)]
pub struct MediaVariantCandidate {
    pub bucket: Principal,
    pub file_id: u32,
    pub content_type: String,
    pub size: u64,
    pub content_hash: Vec<u8>,
    pub generation: u64,
    pub submitted_by: Principal,
    pub submitted_at_ms: u64,
}

/// A submission that the Hub works on.
#[derive(Clone, Debug, PartialEq, Eq)]
pub struct MediaVariantSubmission {
    pub bucket: Principal,
    pub file_id: u32,
    pub attempt: u16,
}

/// What was found out about a variant's output.
#[derive(Clone, Debug, PartialEq, Eq)]
pub struct MediaVariantVerification {
    pub bucket: Principal,
    pub file_id: u32,
    pub content_hash: Vec<u8>,
    pub generation: u64,
    pub codec: String,
    pub width: Option<u32>,
    pub height: Option<u32>,
    pub bitrate_bps: Option<u64>,
    pub verified_by: Principal,
    pub verified_at_ms: u64,
}

/// A variant of a job's source.
#[derive(Clone, Debug, PartialEq, Eq)]
pub struct MediaVariant {
    pub spec: MediaVariantSpec,
    pub status: MediaVariantStatus,
    pub asset_id: Option<u64>,
    pub content_hash: Option<Vec<u8>>,
    pub last_error: Option<String>,
    pub candidate: Option<MediaVariantCandidate>,
    pub submission: Option<MediaVariantSubmission>,
    pub verification: Option<MediaVariantVerification>,
}

/// How far a job is.
#[derive(Clone, Copy, Debug, PartialEq, Eq, Structural)]
pub enum TranscodeJobStatus {
    Queued,
    Running,
    AwaitingVerification,
    Ready,
    Failed,
    Cancelled,
}

/// The name of a job status.
pub open spec fn status_name(status: TranscodeJobStatus) -> Seq<char> {
    match status {
        TranscodeJobStatus::Queued => "Queued"@,
        TranscodeJobStatus::Running => "Running"@,
        TranscodeJobStatus::AwaitingVerification => "AwaitingVerification"@,
        TranscodeJobStatus::Ready => "Ready"@,
        TranscodeJobStatus::Failed => "Failed"@,
        TranscodeJobStatus::Cancelled => "Cancelled"@,
    }
}

impl TranscodeJobStatus {
    /// The name of the status.
    pub fn name(&self) -> (r: &'static str)
        ensures
            r@ == status_name(*self),
    {
        match self {
            TranscodeJobStatus::Queued => "Queued",
            TranscodeJobStatus::Running => "Running",
            TranscodeJobStatus::AwaitingVerification => "AwaitingVerification",
            TranscodeJobStatus::Ready => "Ready",
            TranscodeJobStatus::Failed => "Failed",
            TranscodeJobStatus::Cancelled => "Cancelled",
        }
    }
}

/// What happens to a job's source.
#[derive(Clone, Copy, Debug, PartialEq, Eq, Structural)]
pub enum SourceRetentionPolicy {
    RetainOwnerOnly,
    AllowOriginalDownload,
}

/// Who may read from a bucket.
#[derive(Clone, Copy, Debug, PartialEq, Eq, Structural)]
pub enum BucketClass {
    Public,
    Protected,
}

/// A transcode job.
#[derive(Clone, Debug, PartialEq, Eq)]
pub struct TranscodeJob {
    pub id: u64,
    pub idempotency_key: String,
    pub source_asset_id: u64,
    pub source_size: u64,
    pub source_hash: Vec<u8>,
    pub source_generation: u64,
    pub source_retention: Option<SourceRetentionPolicy>,
    pub security: BucketClass,
    pub worker: Principal,
    pub status: TranscodeJobStatus,
    pub attempts: u16,
    pub variants: Vec<MediaVariant>,
    pub last_error: Option<String>,
    pub created_at_ms: u64,
    pub updated_at_ms: u64,
}

/// What an owner tells the Hub about an output that was approved.
#[derive(Clone, Debug, PartialEq, Eq)]
pub struct VerifyTranscodeOutputInput {
    pub label: String,
    pub bucket: Principal,
    pub file_id: u32,
    pub content_hash: Vec<u8>,
    pub generation: u64,
    pub codec: String,
    pub width: Option<u32>,
    pub height: Option<u32>,
    pub bitrate_bps: Option<u64>,
}

/// Why a candidate was not taken, and whether its file may be removed.
#[derive(Clone, Debug, PartialEq, Eq)]
pub struct CandidateSubmitError {
    pub message: String,
    pub cleanup_allowed: bool,
}

/// What a worker is asked to do.  The source is the text of its path, where
/// that is a text.
#[derive(Clone, Debug)]
pub struct WorkerOptions {
    pub hub: Principal,
    pub job_id: u64,
    pub source: Option<String>,
    pub bucket: Principal,
    pub parent: u32,
    pub work_dir: String,
    pub ffmpeg: String,
    pub ffprobe: String,
    pub retry: u8,
}

/// What a clean-up is asked to do.
#[derive(Clone, Debug)]
pub struct CleanupOptions {
    pub hub: Principal,
    pub job_id: u64,
    pub bucket: Principal,
    pub work_dir: String,
}

/// What was observed of an output.
#[derive(Clone, Debug, PartialEq, Eq)]
pub struct ProbeResult {
    pub codec: String,
    pub width: Option<u32>,
    pub height: Option<u32>,
    pub bitrate_bps: Option<u64>,
    pub observed_video_codec: String,
    pub observed_video_profile: Option<String>,
    pub observed_video_level: Option<u32>,
    pub observed_audio_codec: Option<String>,
    pub observed_format: String,
}

/// What was observed of an output, in terms of texts.
#[verifier::ext_equal]
pub struct ProbeModel {
    pub codec: Seq<char>,
    pub width: Option<u32>,
    pub height: Option<u32>,
    pub bitrate_bps: Option<u64>,
    pub observed_video_codec: Seq<char>,
    pub observed_video_profile: Option<Seq<char>>,
    pub observed_video_level: Option<u32>,
    pub observed_audio_codec: Option<Seq<char>>,
    pub observed_format: Seq<char>,
}

impl View for ProbeResult {
    type V = ProbeModel;

    open spec fn view(&self) -> ProbeModel {
        ProbeModel {
            codec: self.codec@,
            width: self.width,
            height: self.height,
            bitrate_bps: self.bitrate_bps,
            observed_video_codec: self.observed_video_codec@,
            observed_video_profile: text_option(self.observed_video_profile),
            observed_video_level: self.observed_video_level,
            observed_audio_codec: text_option(self.observed_audio_codec),
            observed_format: self.observed_format@,
        }
    }
}

/// An output that is up for approval.
#[derive(Clone, Debug, PartialEq, Eq)]
pub struct ApprovalInput {
    pub label: String,
    pub output_path: String,
    pub bucket: String,
    pub file_id: u32,
    pub content_hash_hex: String,
    pub generation: u64,
    pub codec: String,
    pub width: Option<u32>,
    pub height: Option<u32>,
    pub bitrate_bps: Option<u64>,
    pub observed_video_codec: String,
    pub observed_video_profile: Option<String>,
    pub observed_video_level: Option<u32>,
    pub observed_audio_codec: Option<String>,
    pub observed_format: String,
}

impl ApprovalInput {
    /// What the approval says was observed.
    pub open spec fn probe(&self) -> ProbeModel {
        ProbeModel {
            codec: self.codec@,
            width: self.width,
            height: self.height,
            bitrate_bps: self.bitrate_bps,
            observed_video_codec: self.observed_video_codec@,
            observed_video_profile: text_option(self.observed_video_profile),
            observed_video_level: self.observed_video_level,
            observed_audio_codec: text_option(self.observed_audio_codec),
            observed_format: self.observed_format@,
        }
    }
}

/// What a worker reports to the owner.
#[derive(Clone, Debug, PartialEq, Eq)]
pub struct WorkerReport {
    pub schema_version: u16,
    pub hub: String,
    pub job_id: u64,
    pub source_hash_hex: String,
    pub status: String,
    pub approvals: Vec<ApprovalInput>,
}

/// What a clean-up did with one output.
#[derive(Clone, Debug, PartialEq, Eq)]
pub struct CleanupOutput {
    pub label: String,
    pub file_id: Option<u32>,
    pub reason: String,
}

/// What a clean-up did.
#[derive(Clone, Debug, PartialEq, Eq)]
pub struct CleanupReport {
    pub schema_version: u16,
    pub hub: String,
    pub bucket: String,
    pub job_id: u64,
    pub job_status: String,
    pub deleted: Vec<CleanupOutput>,
    pub retained: Vec<CleanupOutput>,
}

/// A variant is seen with the label, kind, content type, codec, dimensions and
/// bit rate that it has.
pub proof fn law_variants_are_seen_as_they_are(spec: &MediaVariantSpec)
    ensures
        spec@.label == spec.label@,
        spec@.content_type == spec.content_type@,
        spec@.codec == spec.codec@,
        spec@.width == spec.width,
        spec@.height == spec.height,
        spec@.bitrate_bps == spec.bitrate_bps,
        spec.kind is Poster <==> spec@.kind is Poster,
        spec.kind is Thumbnail <==> spec@.kind is Thumbnail,
        spec.kind matches MediaVariantKind::Transcode { profile } ==> spec@.kind == (KindModel::Transcode {
            profile: profile@,
        }),
{
}

/// An approval and a probe say the same exactly where every observation is the
/// same.
pub proof fn law_observations_are_compared_one_by_one(approval: &ApprovalInput, probe: &ProbeResult)
    ensures
        approval.probe() == probe@ <==> {
            &&& approval.codec@ == probe.codec@
            &&& approval.width == probe.width
            &&& approval.height == probe.height
            &&& approval.bitrate_bps == probe.bitrate_bps
            &&& approval.observed_video_codec@ == probe.observed_video_codec@
            &&& text_option(approval.observed_video_profile) == text_option(probe.observed_video_profile)
            &&& approval.observed_video_level == probe.observed_video_level
            &&& text_option(approval.observed_audio_codec) == text_option(probe.observed_audio_codec)
            &&& approval.observed_format@ == probe.observed_format@
        },
        probe@.codec == probe.codec@,
        probe@.width == probe.width,
        probe@.height == probe.height,
        probe@.bitrate_bps == probe.bitrate_bps,
        probe@.observed_video_codec == probe.observed_video_codec@,
        probe@.observed_video_profile == text_option(probe.observed_video_profile),
        probe@.observed_video_level == probe.observed_video_level,
        probe@.observed_audio_codec == text_option(probe.observed_audio_codec),
        probe@.observed_format == probe.observed_format@,
{
}

/// No two job statuses share a name.
pub proof fn law_statuses_are_told_apart_by_name(a: TranscodeJobStatus, b: TranscodeJobStatus)
    ensures
        status_name(a) == status_name(b) ==> a == b,
        status_name(a) == "Failed"@ <==> a is Failed,
        status_name(a) == "Cancelled"@ <==> a is Cancelled,
        status_name(a) == "Ready"@ <==> a is Ready,
        status_name(a) == "Running"@ <==> a is Running,
        status_name(a) == "Queued"@ <==> a is Queued,
        status_name(a) == "AwaitingVerification"@ <==> a is AwaitingVerification,
{
    reveal_strlit("Queued");
    reveal_strlit("Running");
    reveal_strlit("AwaitingVerification");
    reveal_strlit("Ready");
    reveal_strlit("Failed");
    reveal_strlit("Cancelled");
    assert("Queued"@[0] == 'Q' && "Running"@[1] == 'u' && "AwaitingVerification"@[0] == 'A' && "Ready"@[1] == 'e'
        && "Failed"@[0] == 'F' && "Cancelled"@[0] == 'C' && "Running"@[0] == 'R' && "Ready"@[0] == 'R');
}

} // verus!

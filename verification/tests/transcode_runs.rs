use ic_oss_cli::entry::SyncError;
use ic_oss_cli::file::FileInfo;
use ic_oss_cli::outside::digest_of;
use ic_oss_cli::principal::Principal;
use ic_oss_cli::transcode::approve::{check_report, ApprovalRun};
use ic_oss_cli::transcode::cleanup::{
    deletion_failure, find_cleanup_target, inspection_failure, CleanupRun, CleanupStep, CleanupTarget, LocalFile,
};
use ic_oss_cli::transcode::journal::{
    load_cleanup_journal, load_or_initialize_journal, supported_journal_schema, VariantJournal, WorkerJournal,
};
use ic_oss_cli::transcode::probe::{FfprobeFormat, FfprobeOutput, FfprobeStream};
use ic_oss_cli::transcode::types::{
    BucketClass, CleanupOptions, MediaVariant, MediaVariantCandidate, MediaVariantKind, MediaVariantSpec,
    MediaVariantStatus, TranscodeJob, TranscodeJobStatus, WorkerOptions, WorkerReport,
};
use ic_oss_cli::transcode::worker::{
    check_source, failure_report, must_start, recover_submission, run_failure, submission_reply, FileDescriptor,
    WorkerPhase, WorkerRun,
};

fn principal(seed: u8) -> Principal {
    Principal::from_slice(&[seed; 29])
}

fn spec(label: &str) -> MediaVariantSpec {
    MediaVariantSpec {
        label: label.into(),
        kind: MediaVariantKind::Poster,
        content_type: "image/png".into(),
        codec: "png".into(),
        width: Some(64),
        height: Some(32),
        bitrate_bps: None,
    }
}

fn output() -> FfprobeOutput {
    FfprobeOutput {
        streams: vec![FfprobeStream {
            codec_type: "video".into(),
            codec_name: "png".into(),
            profile: None,
            level: None,
            width: Some(64),
            height: Some(32),
            bit_rate: None,
        }],
        format: FfprobeFormat { format_name: "png_pipe".into() },
    }
}

fn variant(label: &str, candidate: Option<MediaVariantCandidate>) -> MediaVariant {
    MediaVariant {
        spec: spec(label),
        status: MediaVariantStatus::Pending,
        asset_id: None,
        content_hash: None,
        last_error: None,
        candidate,
        submission: None,
        verification: None,
    }
}

fn candidate(file_id: u32, content: &[u8]) -> MediaVariantCandidate {
    MediaVariantCandidate {
        bucket: principal(2),
        file_id,
        content_type: "image/png".into(),
        size: content.len() as u64,
        content_hash: digest_of(content).to_vec(),
        generation: 3,
        submitted_by: principal(9),
        submitted_at_ms: 1,
    }
}

fn job(status: TranscodeJobStatus, variants: Vec<MediaVariant>) -> TranscodeJob {
    TranscodeJob {
        id: 42,
        idempotency_key: "key".into(),
        source_asset_id: 1,
        source_size: 6,
        source_hash: digest_of(b"source").to_vec(),
        source_generation: 1,
        source_retention: None,
        security: BucketClass::Public,
        worker: principal(9),
        status,
        attempts: 1,
        variants,
        last_error: None,
        created_at_ms: 0,
        updated_at_ms: 0,
    }
}

fn options() -> WorkerOptions {
    WorkerOptions {
        hub: principal(1),
        job_id: 42,
        source: Some("in.mov".into()),
        bucket: principal(2),
        parent: 0,
        work_dir: "/work".into(),
        ffmpeg: "ffmpeg".into(),
        ffprobe: "ffprobe".into(),
        retry: 3,
    }
}

fn cleanup_options() -> CleanupOptions {
    CleanupOptions { hub: principal(1), job_id: 42, bucket: principal(2), work_dir: "/work".into() }
}

fn source_hex() -> String {
    digest_of(b"source").iter().map(|byte| format!("{byte:02x}")).collect()
}

fn new_journal(variants: &Vec<MediaVariant>) -> WorkerJournal {
    let (journal, save) = load_or_initialize_journal(None, &options(), &source_hex(), variants).unwrap();
    assert!(save);
    journal
}

fn start(job: TranscodeJob) -> WorkerRun {
    let journal = new_journal(&job.variants);
    WorkerRun::start(options(), source_hex(), job, journal)
}

fn to_measured(run: &mut WorkerRun, content: &[u8]) -> Result<bool, String> {
    assert!(run.begin().unwrap());
    run.on_output(true).unwrap();
    run.on_probed(&output()).unwrap();
    run.on_measured(digest_of(content), content.len() as u64)
}

#[test]
fn sources_and_states_are_checked_first() {
    let job = job(TranscodeJobStatus::Queued, Vec::new());
    assert!(check_source(&job, 6, &digest_of(b"source")).is_ok());
    assert!(check_source(&job, 7, &digest_of(b"source")).is_err());
    assert_eq!(
        check_source(&job, 6, &digest_of(b"other")).unwrap_err(),
        "local source size/hash does not match the immutable Hub job snapshot"
    );
    assert_eq!(must_start(TranscodeJobStatus::Queued), Ok(true));
    assert_eq!(must_start(TranscodeJobStatus::Failed), Ok(true));
    assert_eq!(must_start(TranscodeJobStatus::Running), Ok(false));
    assert_eq!(must_start(TranscodeJobStatus::Cancelled).unwrap_err(), "transcode job is cancelled");
}

#[test]
fn new_journals_name_an_output_for_each_variant() {
    let journal = new_journal(&vec![variant("../a b", None), variant("b", None)]);
    assert_eq!(journal.schema_version, 2);
    assert_eq!(journal.record("../a b").unwrap().output_path, "/work/00-___a_b.png");
    assert_eq!(journal.record("b").unwrap().output_path, "/work/01-b.png");
    let mut wrong = variant("c", None);
    wrong.spec.content_type = "text/plain".into();
    assert_eq!(
        load_or_initialize_journal(None, &options(), &source_hex(), &vec![wrong]).unwrap_err(),
        "variant c content type text/plain is unsupported"
    );
    assert!(supported_journal_schema(1) && supported_journal_schema(2));
    assert!(!supported_journal_schema(3));
}

#[test]
fn saved_journals_are_taken_up_by_the_same_work_only() {
    let variants = vec![variant("a", None)];
    let mut old = new_journal(&variants);
    old.schema_version = 1;
    let (journal, save) = load_or_initialize_journal(Some(old), &options(), &source_hex(), &variants).unwrap();
    assert!(save);
    assert_eq!(journal.schema_version, 2);
    let (journal, save) = load_cleanup_journal(journal, &cleanup_options()).unwrap();
    assert!(!save);
    let mut other = options();
    other.job_id = 43;
    assert_eq!(
        load_or_initialize_journal(Some(journal), &other, &source_hex(), &variants).unwrap_err(),
        "existing transcode journal does not match this invocation"
    );
    let mut other = cleanup_options();
    other.bucket = principal(7);
    assert_eq!(
        load_cleanup_journal(new_journal(&variants), &other).unwrap_err(),
        "existing transcode journal does not match this cleanup invocation"
    );
}

#[test]
fn workers_make_upload_and_submit_missing_outputs() {
    let mut run = start(job(TranscodeJobStatus::Running, vec![variant("a", None)]));
    assert!(run.begin().unwrap());
    run.on_output(false).unwrap();
    match &run.phase {
        WorkerPhase::Transcode(work, args) => {
            assert_eq!(work.output_path, "/work/00-a.png");
            assert_eq!(args.last().unwrap(), "/work/00-a.png");
            assert_eq!(args[6], "in.mov");
        }
        _ => panic!("the output has to be made"),
    }
    run.on_transcoded();
    run.on_probed(&output()).unwrap();
    assert!(!run.on_measured(digest_of(b"png"), 3).unwrap());
    assert!(matches!(run.phase, WorkerPhase::Upload(..)));
    run.on_uploaded(11);
    assert_eq!(run.journal.record("a").unwrap().file_id, Some(11));
    assert_eq!(run.journal.record("a").unwrap().size, Some(3));
    let descriptor = FileDescriptor {
        id: 11,
        content_type: "Image/PNG; charset=x".into(),
        size: 3,
        hash: Some(digest_of(b"png")),
    };
    run.on_described(&descriptor).unwrap();
    assert!(matches!(run.phase, WorkerPhase::Submit(_, _, 11)));
    let updated = job(TranscodeJobStatus::AwaitingVerification, vec![variant("a", Some(candidate(11, b"png")))]);
    assert!(!run.on_submitted(Ok(updated)).unwrap());
    assert!(!run.begin().unwrap());
    let report = run.finish();
    assert_eq!(report.status, "AwaitingVerification");
    assert_eq!(report.hub, principal(1).to_text());
    assert_eq!(report.approvals.len(), 1);
    assert_eq!(report.approvals[0].file_id, 11);
    assert_eq!(report.approvals[0].bucket, principal(2).to_text());
}

#[test]
fn known_files_are_not_uploaded_again() {
    let variants = vec![variant("a", None)];
    let mut journal = new_journal(&variants);
    let mut record = journal.record("a").unwrap().clone();
    record.file_id = Some(11);
    journal.set_record("a", record);
    let mut run = WorkerRun::start(options(), source_hex(), job(TranscodeJobStatus::Running, variants), journal);
    to_measured(&mut run, b"png").unwrap();
    assert!(matches!(run.phase, WorkerPhase::Describe(_, _, 11)));
    let wrong = FileDescriptor { id: 11, content_type: "image/png".into(), size: 4, hash: None };
    assert_eq!(
        run.on_described(&wrong).unwrap_err(),
        "Bucket descriptor for variant a does not match local output: id=11/11, size=4/3, hash=none, content_type=image/png/image/png"
    );
}

#[test]
fn current_candidates_are_taken_over() {
    let mut run = start(job(TranscodeJobStatus::Ready, vec![variant("a", Some(candidate(11, b"png")))]));
    assert!(to_measured(&mut run, b"png").unwrap());
    let record = run.journal.record("a").unwrap();
    assert_eq!(record.file_id, Some(11));
    assert_eq!(run.approvals.len(), 1);

    let mut run = start(job(TranscodeJobStatus::Ready, vec![variant("a", Some(candidate(11, b"png")))]));
    assert_eq!(
        to_measured(&mut run, b"other").unwrap_err(),
        "local output for variant a does not match the submitted candidate size/hash"
    );
    let variants = vec![variant("a", Some(candidate(11, b"png")))];
    let mut journal = new_journal(&variants);
    let mut record = journal.record("a").unwrap().clone();
    record.file_id = Some(12);
    journal.set_record("a", record);
    let mut run = WorkerRun::start(options(), source_hex(), job(TranscodeJobStatus::Ready, variants), journal);
    assert!(to_measured(&mut run, b"png").unwrap_err().contains("preserving both remote files"));

    let mut run = start(job(TranscodeJobStatus::Ready, vec![variant("a", None)]));
    assert_eq!(
        to_measured(&mut run, b"png").unwrap_err(),
        "variant a has no candidate while job is Ready"
    );
}

fn submitted() -> WorkerRun {
    let mut run = start(job(TranscodeJobStatus::Running, vec![variant("a", None)]));
    to_measured(&mut run, b"png").unwrap();
    run.on_uploaded(11);
    run.on_described(&FileDescriptor {
        id: 11,
        content_type: "image/png".into(),
        size: 3,
        hash: Some(digest_of(b"png")),
    })
    .unwrap();
    run
}

#[test]
fn refused_files_are_removed_and_lost_replies_keep_them() {
    let mut run = submitted();
    assert!(!run.on_submitted(submission_reply(Err("too large".into()))).unwrap());
    let (save, error) = run.on_discarded(Ok(true));
    assert!(save);
    assert_eq!(error, "Hub rejected variant a and remote file 11 was deleted: too large");
    assert_eq!(run.journal.record("a").unwrap().file_id, None);

    let mut run = submitted();
    run.on_submitted(submission_reply(Err("too large".into()))).unwrap();
    let (save, error) = run.on_discarded(Err("offline".into()));
    assert!(!save);
    assert_eq!(
        error,
        "Hub rejected variant a: too large; remote cleanup for file 11 failed: Err(\"offline\")"
    );
    assert_eq!(run.journal.record("a").unwrap().file_id, Some(11));

    let mut run = submitted();
    let lost = recover_submission(
        "timeout",
        Ok(job(TranscodeJobStatus::Running, vec![variant("a", None)])),
        "a",
        &principal(2),
        11,
    );
    assert!(!lost.as_ref().unwrap_err().cleanup_allowed);
    assert!(run.on_submitted(lost).unwrap_err().contains("rerun without deleting Bucket file 11: timeout"));
    let found = recover_submission(
        "timeout",
        Ok(job(TranscodeJobStatus::Running, vec![variant("a", Some(candidate(11, b"png")))])),
        "a",
        &principal(2),
        11,
    );
    assert!(found.is_ok());
    let failed = recover_submission("timeout", Err("offline".into()), "a", &principal(2), 11).unwrap_err();
    assert!(failed.message.ends_with("file 11: timeout; offline"));

    let mut run = submitted();
    assert_eq!(
        run.on_submitted(Ok(job(TranscodeJobStatus::Running, vec![variant("a", None)]))).unwrap_err(),
        "Hub accepted variant a without returning its candidate"
    );
}

#[test]
fn failures_of_running_jobs_are_reported() {
    assert_eq!(failure_report(TranscodeJobStatus::Running, " broken "), Some("broken".to_string()));
    assert_eq!(failure_report(TranscodeJobStatus::Ready, "broken"), None);
    assert_eq!(run_failure("a".into(), None), "a");
    assert_eq!(
        run_failure("a".into(), Some("b")),
        "a; additionally failed to report the worker failure to Hub: b"
    );
}

fn worker_report() -> WorkerReport {
    let mut run = start(job(TranscodeJobStatus::Ready, vec![variant("a", Some(candidate(11, b"png")))]));
    to_measured(&mut run, b"png").unwrap();
    run.finish()
}

#[test]
fn worker_reports_are_approved_against_the_same_candidate() {
    let report = worker_report();
    assert!(check_report(&report, &principal(1)).is_ok());
    assert_eq!(
        check_report(&report, &principal(5)).unwrap_err(),
        "approval report Hub does not match --hub"
    );
    let shown = job(TranscodeJobStatus::AwaitingVerification, vec![variant("a", Some(candidate(11, b"png")))]);
    let mut run = ApprovalRun::start(report, shown.clone());
    let pending = run.begin().unwrap().unwrap();
    assert!(run.check_media(&pending, &digest_of(b"png"), 3).is_ok());
    assert_eq!(
        run.check_media(&pending, &digest_of(b"png"), 4).unwrap_err(),
        "approval media for a does not match the Hub candidate size/hash"
    );
    let input = run.confirm(pending, &output()).unwrap();
    assert_eq!((input.label.as_str(), input.file_id, input.generation), ("a", 11, 3));
    assert_eq!(input.content_hash, digest_of(b"png").to_vec());
    run.on_verified(shown);
    assert!(run.begin().unwrap().is_none());
}

#[test]
fn approvals_fail_where_anything_differs() {
    let fault = |change: fn(&mut WorkerReport, &mut TranscodeJob)| {
        let mut report = worker_report();
        let mut shown = job(TranscodeJobStatus::Ready, vec![variant("a", Some(candidate(11, b"png")))]);
        change(&mut report, &mut shown);
        match ApprovalRun::start(report, shown).begin() {
            Err(message) => message,
            Ok(_) => panic!("must be refused"),
        }
    };
    assert_eq!(
        fault(|report, _| report.approvals[0].content_hash_hex = "0".into()),
        "approval a contains an invalid hash: Odd number of digits"
    );
    assert_eq!(
        fault(|report, _| report.approvals[0].content_hash_hex = "00".into()),
        "approval a hash is not SHA3-256"
    );
    assert_eq!(fault(|_, job| job.variants[0].spec.label = "b".into()), "job has no variant a");
    assert_eq!(fault(|_, job| job.variants[0].candidate = None), "variant a has no current candidate");
    assert!(fault(|report, _| report.approvals[0].bucket = "?".into()).starts_with("approval Bucket is invalid: "));
    assert_eq!(
        fault(|report, _| report.approvals[0].generation = 4),
        "approval a does not match the current Hub candidate"
    );

    let mut report = worker_report();
    let again = report.approvals[0].clone();
    report.approvals.push(again);
    let shown = job(TranscodeJobStatus::Ready, vec![variant("a", Some(candidate(11, b"png")))]);
    let mut run = ApprovalRun::start(report, shown.clone());
    let pending = run.begin().unwrap().unwrap();
    let mut other = output();
    other.format.format_name = "image2".into();
    assert_eq!(
        run.confirm(pending, &other).unwrap_err(),
        "independent ffprobe result for a differs from the worker report"
    );
    run.on_verified(shown);
    match run.begin() {
        Err(message) => assert_eq!(message, "approval report repeats variant a"),
        Ok(_) => panic!("must be refused"),
    }
    let mut report = worker_report();
    report.schema_version = 2;
    assert_eq!(
        check_report(&report, &principal(1)).unwrap_err(),
        "unsupported approval report schema 2"
    );
    let mut report = worker_report();
    report.approvals.clear();
    assert_eq!(check_report(&report, &principal(1)).unwrap_err(), "approval report contains no variants");
}

fn journal_with(files: Vec<(&str, Option<u32>)>) -> WorkerJournal {
    let variants: Vec<MediaVariant> = files.iter().map(|(label, _)| variant(label, None)).collect();
    let mut journal = new_journal(&variants);
    for (label, file_id) in files {
        let mut record = journal.record(label).unwrap().clone();
        record.file_id = file_id;
        journal.set_record(label, record);
    }
    journal
}

fn remote(id: u32, content: &[u8]) -> FileInfo {
    FileInfo {
        id,
        parent: 6,
        name: "x".into(),
        content_type: "image/png".into(),
        size: content.len() as u64,
        filled: content.len() as u64,
        created_at: 0,
        updated_at: 0,
        chunks: 1,
        status: 0,
        revision: 8,
        generation: 1,
        hash: Some(digest_of(content)),
    }
}

#[test]
fn cleanups_delete_what_is_no_current_candidate() {
    let failed = job(
        TranscodeJobStatus::Failed,
        vec![variant("a", Some(candidate(11, b"png"))), variant("b", None), variant("c", None)],
    );
    let journal = journal_with(vec![("a", Some(11)), ("b", Some(12)), ("c", None)]);
    let mut run = CleanupRun::start(cleanup_options(), journal, failed).unwrap();
    assert_eq!(run.step(), CleanupStep::Retained);
    assert_eq!(run.step(), CleanupStep::Prepare { file_id: 12 });
    let target = find_cleanup_target(
        "b",
        run.journal.record("b").unwrap(),
        Some(LocalFile { hash: digest_of(b"out"), size: 3 }),
        Ok(3),
    )
    .unwrap();
    assert_eq!(
        run.prepare_cleanup_intent(12, &target, &remote(12, b"changed")).unwrap_err(),
        "remote file 12 no longer matches the journal size/hash; cleanup refused"
    );
    run.prepare_cleanup_intent(12, &target, &remote(12, b"out")).unwrap();
    assert_eq!(run.step(), CleanupStep::Delete { file_id: 12 });
    let input = run.delete_input(12).unwrap();
    assert_eq!((input.id, input.expected_parent, input.expected_revision), (12, 6, 8));
    assert_eq!(input.expected_hash, Some(digest_of(b"out")));
    assert_eq!(input.request_id.len(), 16);
    assert_eq!(run.delete_input(12).unwrap().request_id, input.request_id);
    run.on_deleted(12, true);
    assert_eq!(run.journal.record("b").unwrap().file_id, None);
    assert!(run.journal.record("b").unwrap().cleanup.is_none());
    assert_eq!(run.step(), CleanupStep::Retained);
    assert_eq!(run.step(), CleanupStep::Done);
    let report = run.finish();
    assert_eq!(report.job_status, "Failed");
    assert_eq!((report.deleted.len(), report.retained.len()), (1, 2));
    assert_eq!(report.deleted[0].reason, "remote output deleted with hash/revision preconditions");
    assert_eq!(report.retained[0].reason, "current failed-job candidate is retained for a safe retry");
    assert_eq!(report.retained[1].reason, "journal has no remote output");
}

#[test]
fn cancelled_jobs_keep_nothing() {
    let cancelled = job(TranscodeJobStatus::Cancelled, vec![variant("a", Some(candidate(11, b"png")))]);
    let mut run = CleanupRun::start(cleanup_options(), journal_with(vec![("a", Some(11))]), cancelled).unwrap();
    assert_eq!(run.step(), CleanupStep::Prepare { file_id: 11 });
    run.record_intent(&CleanupTarget { hash: digest_of(b"png"), size: 3 }, &remote(11, b"png"), &[7; 16]);
    assert_eq!(run.delete_input(11).unwrap().request_id, vec![7; 16]);
    run.on_deleted(11, false);
    assert_eq!(run.deleted[0].reason, "remote output was already absent");
}

#[test]
fn cleanups_are_refused_while_outputs_are_in_use() {
    let fault = |job: TranscodeJob, journal: WorkerJournal| {
        match CleanupRun::start(cleanup_options(), journal, job) {
            Err(message) => message,
            Ok(_) => panic!("must be refused"),
        }
    };
    let journal = || journal_with(vec![("a", Some(11))]);
    assert_eq!(
        fault(job(TranscodeJobStatus::Running, vec![variant("a", None)]), journal()),
        "transcode cleanup requires a failed or cancelled job, found Running"
    );
    assert_eq!(
        fault(job(TranscodeJobStatus::Ready, vec![variant("a", None)]), journal()),
        "ready transcode outputs are registered Assets and cannot be cleaned"
    );
    assert_eq!(
        fault(job(TranscodeJobStatus::Failed, vec![variant("b", None)]), journal()),
        "transcode journal contains a variant that is not in the Hub job"
    );
    let mut other = job(TranscodeJobStatus::Failed, vec![variant("a", None)]);
    other.source_hash = vec![0];
    assert_eq!(fault(other, journal()), "transcode journal source hash does not match the Hub job");
    let mut asset = variant("a", None);
    asset.asset_id = Some(5);
    assert_eq!(
        fault(job(TranscodeJobStatus::Failed, vec![asset]), journal()),
        "transcode cleanup refused a job containing registered Assets"
    );
}

#[test]
fn cleanup_targets_come_from_the_journal_and_the_local_output() {
    let record = |hash: Option<String>, size: Option<u64>| VariantJournal {
        output_path: "/work/00-a.png".into(),
        file_id: Some(11),
        content_hash_hex: hash,
        size,
        cleanup: None,
    };
    let hex: String = digest_of(b"out").iter().map(|byte| format!("{byte:02x}")).collect();
    let target = find_cleanup_target("a", &record(Some(hex.clone()), Some(3)), None, Err("no file".into())).unwrap();
    assert_eq!((target.hash, target.size), (digest_of(b"out"), 3));
    let fault = |record: VariantJournal, local: Option<LocalFile>, length: Result<u64, String>| {
        match find_cleanup_target("a", &record, local, length) {
            Err(message) => message,
            Ok(_) => panic!("must be refused"),
        }
    };
    assert_eq!(
        fault(record(None, None), None, Ok(0)),
        "variant a has neither a recorded hash nor a local output; cleanup refused"
    );
    assert_eq!(
        fault(record(Some("zz".into()), None), None, Ok(0)),
        "journal hash for variant a is invalid: Invalid character 'z' at position 0"
    );
    assert_eq!(
        fault(record(Some("00".into()), None), None, Ok(0)),
        "journal hash for variant a is not SHA3-256"
    );
    assert_eq!(fault(record(Some(hex.clone()), None), None, Err("no file".into())), "no file");
    assert_eq!(
        fault(record(Some(hex), Some(3)), Some(LocalFile { hash: digest_of(b"new"), size: 3 }), Ok(3)),
        "local output for variant a no longer matches the journal size/hash; cleanup refused"
    );
    assert_eq!(inspection_failure(11, "x"), "inspect transcode output 11 before cleanup: x");
    assert_eq!(
        deletion_failure(11, &SyncError::Internal("x".into())),
        "delete transcode output 11: Internal(\"x\")"
    );
}

use ic_oss_cli::entry::{BucketCapabilities, EntryKind as ApiEntryKind, MigrationState, SyncError};
use ic_oss_cli::file::{FileChunk, FileInfo, CHUNK_SIZE};
use ic_oss_cli::folder::FolderInfo;
use ic_oss_cli::outside::digest_of;
use ic_oss_cli::sync::atomic::{
    begin_upload_input, is_session_gone, session_fits, validate_upload_status, AtomicUpload, UploadCommand, UploadPhase, UploadSummary,
};
use ic_oss_cli::sync::download::{
    check_deletion, check_directory, check_download_retries, check_download_root, check_parent, check_pull_executable, check_unchanged,
    expected_entry, prepare_countable_pull, prepare_pull, recheck_download_root, validate_destination, validate_remote_file, Download,
    PathState, PullOptions,
};
use ic_oss_cli::sync::execute::{
    check_executable, ensure_folder_failure, ensure_folder_input, ensure_folder_request, entry_name, initial_folders, manifest_hash,
    parent_depth, prepare_sync, random_request_id, sync_support, PreparedSync, SyncOptions,
};
use ic_oss_cli::sync::journal::{RecoveryJournal, SavedJournal};
use ic_oss_cli::sync::planner::PlanAction;
use ic_oss_cli::sync::run::{
    action_path, check_deleted, check_synchronised, delete_directory_input, delete_file_input, folder_requests,
    small_file_input, BatchKind, SyncRun, SyncStep,
};
use ic_oss_cli::sync::types::{EntryKind, LocalEntry, LocalManifest, RemoteEntry, RemoteManifest};
use ic_oss_cli::upload::{BeginUploadOutput, CommitUploadOutput, UploadStatusOutput, UploadedChunkRange};

fn capabilities(ready: bool, batches: bool) -> BucketCapabilities {
    BucketCapabilities {
        api_version: 1,
        storage_version: 2,
        unique_names: true,
        get_entry: true,
        ensure_folder: true,
        conditional_delete: true,
        upload_sessions: true,
        atomic_commit: true,
        incremental_gc: true,
        manifest: true,
        batch_operations: Some(batches),
        reader_grants: None,
        http_read_modes: None,
        storage_metrics: None,
        migration_state: if ready { MigrationState::Ready } else { MigrationState::Migrating },
    }
}

fn options() -> SyncOptions {
    SyncOptions {
        bucket: "aaaaa-aa".to_string(),
        local_root: "/data".to_string(),
        remote_parent: 7,
        delete: true,
        overwrite: true,
        excludes: Vec::new(),
    }
}

fn local_entry(path: &str, content: &[u8]) -> LocalEntry {
    LocalEntry {
        path: path.to_string(),
        kind: EntryKind::File,
        size: content.len() as u64,
        hash: Some(digest_of(content)),
    }
}

fn remote_entry(path: &str, id: u32, kind: EntryKind) -> RemoteEntry {
    RemoteEntry {
        path: path.to_string(),
        id,
        parent: 7,
        kind,
        size: 3,
        filled: 3,
        hash: Some([9; 32]),
        status: 0,
    }
}

fn sample(ready: bool, batches: bool) -> PreparedSync {
    let mut local = LocalManifest::default();
    local.entries.insert(
        "docs".to_string(),
        LocalEntry { path: "docs".to_string(), kind: EntryKind::Directory, size: 0, hash: None },
    );
    local.entries.insert("docs/a.txt".to_string(), local_entry("docs/a.txt", b"abc"));
    let mut remote = RemoteManifest::default();
    remote.entries.insert("old".to_string(), remote_entry("old", 3, EntryKind::Directory));
    prepare_sync(options(), local, remote, true, Ok(capabilities(ready, batches)), &SavedJournal::Missing)
}

fn start(prepared: &PreparedSync) -> SyncRun {
    SyncRun {
        journal: RecoveryJournal::start(
            &prepared.options.bucket,
            prepared.options.remote_parent,
            &prepared.options.local_root,
            &prepared.local_manifest_hash,
            &prepared.plan.actions,
            None,
        ),
        folders: initial_folders(prepared.options.remote_parent, &prepared.remote),
        position: 0,
    }
}

fn info(id: u32, size: u64, chunks: u32, hash: Option<[u8; 32]>) -> FileInfo {
    FileInfo {
        id,
        parent: 7,
        name: "a.bin".to_string(),
        content_type: "text/plain".to_string(),
        size,
        filled: size,
        created_at: 0,
        updated_at: 0,
        chunks,
        status: 0,
        revision: 4,
        generation: 1,
        hash,
    }
}

#[test]
fn capabilities_decide_what_is_used() {
    let ready = sync_support(Some(&capabilities(true, true)));
    assert!(ready.manifest && ready.ensure_folder && ready.atomic_upload);
    assert!(ready.incremental_delete && ready.batch_operations);
    let migrating = sync_support(Some(&capabilities(false, false)));
    assert!(migrating.ensure_folder);
    assert!(!migrating.manifest && !migrating.atomic_upload && !migrating.incremental_delete);
    assert!(!migrating.batch_operations);
    assert!(!sync_support(None).ensure_folder);
    assert_eq!(parent_depth(0, 4), 0);
    assert_eq!(parent_depth(7, 4), 5);
}

#[test]
fn plans_wait_for_what_they_need() {
    assert!(check_executable(&sample(true, false)).is_ok());
    assert!(check_executable(&sample(false, false))
        .unwrap_err()
        .starts_with("refusing to execute delete actions"));
    let prepared = prepare_sync(
        options(),
        LocalManifest::default(),
        RemoteManifest::default(),
        true,
        Err("no method".to_string()),
        &SavedJournal::Missing,
    );
    assert_eq!(
        prepared.plan.warnings,
        vec!["capability discovery is unavailable (no method); safe optimizations are disabled"]
    );
}

#[test]
fn steps_are_done_one_by_one_without_batches() {
    let prepared = sample(true, false);
    let mut run = start(&prepared);
    let (index, step) = run.next_step(&prepared).unwrap().unwrap();
    assert!(matches!(step, SyncStep::CreateDirectory { parent: 7, name } if name == "docs"));
    run.finish_step(&prepared.plan.actions[index], 21).unwrap();
    let (index, step) = run.next_step(&prepared).unwrap().unwrap();
    assert!(matches!(
        step,
        SyncStep::UploadFile { parent: 21, hash: Some(hash), atomic: true } if hash == digest_of(b"abc")
    ));
    assert_eq!(action_path(&prepared.plan.actions[index]), "docs/a.txt");
    run.finish_step(&prepared.plan.actions[index], 22).unwrap();
    let (index, step) = run.next_step(&prepared).unwrap().unwrap();
    assert!(matches!(step, SyncStep::DeleteDirectory { remote_id: 3 }));
    run.finish_step(&prepared.plan.actions[index], 0).unwrap();
    assert!(run.next_step(&prepared).unwrap().is_none());
    assert_eq!(run.journal.data.actions[2].remote_id, Some(3));
    assert!(!run.folders.contains_key("old"));
}

#[test]
fn batches_take_directories_and_small_files() {
    let prepared = sample(true, true);
    let mut run = start(&prepared);
    let directories = vec![&prepared.plan.actions[0]];
    let requests = folder_requests(&directories, &run.folders).unwrap();
    assert_eq!((requests[0].parent, requests[0].name.as_str()), (7, "docs"));
    run.start_batch(&directories).unwrap();
    run.finish_batch(BatchKind::Folders, &directories, &vec![Ok(31)]).unwrap();

    let files = vec![&prepared.plan.actions[1]];
    let input = small_file_input(
        files[0],
        &run.folders,
        &prepared.local,
        b"abc".to_vec(),
        "text/plain".to_string(),
    )
    .unwrap();
    assert_eq!((input.parent, input.name.as_str(), input.size), (31, "a.txt", Some(3)));
    assert_eq!(input.hash, Some(digest_of(b"abc")));
    assert!(small_file_input(files[0], &run.folders, &prepared.local, b"abd".to_vec(), String::new())
        .unwrap_err()
        .ends_with("hash differs"));
    assert_eq!(
        small_file_input(files[0], &run.folders, &prepared.local, b"ab".to_vec(), String::new()).unwrap_err(),
        "local file changed after scan: docs/a.txt size was 3, now 2"
    );
    run.start_batch(&files).unwrap();
    assert_eq!(
        run.finish_batch(BatchKind::Files, &files, &vec![Err(SyncError::Internal("x".to_string()))]).unwrap_err(),
        "batch small-file upload failed for docs/a.txt: Internal(\"x\")"
    );
    assert_eq!(
        run.finish_batch(BatchKind::Files, &files, &Vec::new()).unwrap_err(),
        "batch file result count mismatch: expected 1, got 0"
    );
    assert!(matches!(
        run.next_step(&prepared).unwrap(),
        Some((2, SyncStep::DeleteDirectory { remote_id: 3 }))
    ));
}

#[test]
fn deletions_name_what_was_last_seen() {
    let input = delete_file_input(vec![1], 9, &info(9, 3, 1, Some([4; 32])));
    assert_eq!((input.id, input.kind, input.expected_parent), (9, ApiEntryKind::File, 7));
    assert_eq!((input.expected_revision, input.expected_hash), (4, Some([4; 32])));
    let folder = FolderInfo {
        id: 3,
        parent: 7,
        name: "old".to_string(),
        created_at: 0,
        updated_at: 0,
        status: 0,
        revision: 6,
    };
    let input = delete_directory_input(vec![1], 3, &folder);
    assert_eq!((input.kind, input.expected_revision, input.expected_hash), (ApiEntryKind::Folder, 6, None));
    assert!(check_deleted(true, false, "a").is_ok());
    assert_eq!(check_deleted(false, true, "a").unwrap_err(), "remote directory disappeared before deletion: a");
    assert!(check_synchronised(&sample(true, true).plan).is_err());
}

#[test]
fn manifest_digests_tell_manifests_apart() {
    let mut one = LocalManifest::default();
    one.entries.insert("a".to_string(), local_entry("a", b"abc"));
    let mut two = LocalManifest::default();
    two.entries.insert("a".to_string(), local_entry("a", b"abd"));
    assert_ne!(manifest_hash(&one), manifest_hash(&two));
    let mut bytes = vec![0, 0, 0, 0, 0, 0, 0, 1, b'a', 0, 0, 0, 0, 0, 0, 0, 0, 3, 1];
    bytes.extend_from_slice(&digest_of(b"abc"));
    assert_eq!(manifest_hash(&one), digest_of(&bytes));
    assert_eq!(manifest_hash(&LocalManifest::default()), digest_of(b""));
}

#[test]
fn entries_are_named_by_their_last_component() {
    assert_eq!(entry_name("docs/a.txt").unwrap(), "a.txt");
    assert_eq!(entry_name("a").unwrap(), "a");
    assert_eq!(entry_name("a/").unwrap_err(), "invalid empty entry name in relative path \"a/\"");
    let id = random_request_id().unwrap();
    assert_eq!(id.len(), 16);
    assert_ne!(id, random_request_id().unwrap());
}

fn upload_action() -> PlanAction {
    PlanAction::UploadFile { path: "big.bin".to_string(), size: 600_000 }
}

fn summary() -> UploadSummary {
    UploadSummary { file_id: 5, size: 600_000, total_chunks: 3 }
}

#[test]
fn atomic_uploads_send_each_chunk_and_commit() {
    let action = upload_action();
    let mut journal = RecoveryJournal::start("b", 7, "/r", &[1; 32], &[action.clone()], None);
    let checkpoint = journal.prepare_upload(&action, [2; 32], vec![3; 16]).unwrap();
    let mut upload = AtomicUpload::start(600_000, None, checkpoint);
    assert_eq!(upload.command(), UploadCommand::Begin);
    let session = BeginUploadOutput {
        session_id: vec![8; 32],
        file_id: 5,
        generation: 1,
        chunk_size: CHUNK_SIZE,
        total_chunks: 3,
        expires_at: 0,
    };
    assert!(session_fits(600_000, session.total_chunks));
    assert!(!session_fits(600_000, 4));
    upload.on_begun(session, &mut journal, &action).unwrap();
    let mut sent = Vec::new();
    while let UploadCommand::Chunk { index, offset, len } = upload.command() {
        sent.push((index, offset, len));
        upload.on_chunk_stored(&mut journal, &action).unwrap();
    }
    assert_eq!(sent, vec![(0, 0, 262_144), (1, 262_144, 262_144), (2, 524_288, 75_712)]);
    assert_eq!(upload.command(), UploadCommand::Commit);
    let wrong = CommitUploadOutput { id: 6, created: true, revision: 1, generation: 1, committed_at: 0 };
    assert_eq!(
        upload.on_committed(&wrong, &mut journal, &action).unwrap_err(),
        "atomic upload returned unexpected file id 6 (created=true)"
    );
    let done = CommitUploadOutput { id: 5, created: true, revision: 1, generation: 1, committed_at: 0 };
    assert_eq!(upload.on_committed(&done, &mut journal, &action).unwrap(), 5);
    assert_eq!(upload.command(), UploadCommand::Finished { id: 5 });
    assert!(journal.data.actions[0].upload.is_none());
}

#[test]
fn atomic_uploads_are_resumed() {
    let action = upload_action();
    let mut journal = RecoveryJournal::start("b", 7, "/r", &[1; 32], &[action.clone()], None);
    journal.prepare_upload(&action, [2; 32], vec![3; 16]).unwrap();
    journal.set_upload_session(&action, vec![8; 32]).unwrap();
    let checkpoint = journal.prepare_upload(&action, [2; 32], vec![4; 16]).unwrap();
    let mut upload = AtomicUpload::start(600_000, None, checkpoint);
    assert_eq!(upload.command(), UploadCommand::Status { start: None });
    let page = |ranges: Vec<UploadedChunkRange>, next: Option<u32>| UploadStatusOutput {
        file_id: 5,
        generation: 1,
        size: 600_000,
        filled: 0,
        total_chunks: 3,
        uploaded_chunks: 2,
        ranges,
        next,
        expires_at: 0,
    };
    upload
        .on_status_page(&page(vec![UploadedChunkRange { start: 0, end: 0 }], Some(1)), &mut journal, &action)
        .unwrap();
    assert_eq!(upload.command(), UploadCommand::Status { start: Some(1) });
    upload
        .on_status_page(&page(vec![UploadedChunkRange { start: 2, end: 2 }], None), &mut journal, &action)
        .unwrap();
    assert_eq!(upload.command(), UploadCommand::Renew);
    upload.on_renewed();
    assert!(matches!(upload.command(), UploadCommand::Chunk { index: 1, .. }));
    upload.on_chunk_stored(&mut journal, &action).unwrap();
    assert_eq!(upload.phase, UploadPhase::Commit);
}

#[test]
fn lost_sessions_begin_again() {
    let action = upload_action();
    let mut journal = RecoveryJournal::start("b", 7, "/r", &[1; 32], &[action.clone()], None);
    journal.prepare_upload(&action, [2; 32], vec![3; 16]).unwrap();
    journal.set_upload_session(&action, vec![8; 32]).unwrap();
    let checkpoint = journal.prepare_upload(&action, [2; 32], vec![4; 16]).unwrap();
    let mut upload = AtomicUpload::start(600_000, None, checkpoint.clone());
    upload
        .on_status_error(&SyncError::NotFound("gone".to_string()), &mut journal, &action, [2; 32], vec![6; 16])
        .unwrap();
    assert_eq!(upload.command(), UploadCommand::Begin);
    assert_eq!(upload.request_id, vec![6; 16]);
    let mut upload = AtomicUpload::start(600_000, None, checkpoint);
    assert_eq!(
        upload
            .on_status_error(&SyncError::Internal("x".to_string()), &mut journal, &action, [2; 32], vec![7; 16])
            .unwrap_err(),
        "failed to resume upload session: Internal(\"x\")"
    );
}

#[test]
fn saved_sessions_must_match_the_file() {
    assert!(validate_upload_status(&summary(), 600_000, None).is_ok());
    assert!(validate_upload_status(&summary(), 600_000, Some(5)).is_ok());
    assert_eq!(
        validate_upload_status(&summary(), 600_001, None).unwrap_err(),
        "saved upload session no longer matches the local file size"
    );
    assert_eq!(
        validate_upload_status(&summary(), 600_000, Some(6)).unwrap_err(),
        "saved upload session no longer matches the replacement target"
    );
    let input = begin_upload_input(7, "a.bin", "text/plain".to_string(), 3, None, 4, Some((9, &info(9, 3, 1, None))))
        .unwrap();
    assert_eq!(input.replace.unwrap().expected_revision, 4);
    assert_eq!(
        begin_upload_input(8, "a.bin", "text/plain".to_string(), 3, None, 4, Some((9, &info(9, 3, 1, None))))
            .unwrap_err(),
        "remote replacement target changed: expected 8/9 at a.bin, got 7/9 at a.bin"
    );
}

#[test]
fn downloads_put_chunks_in_order_and_check_the_digest() {
    let first = vec![1u8; CHUNK_SIZE as usize];
    let last = vec![2u8; 10];
    let whole = [first.clone(), last.clone()].concat();
    let file = info(9, whole.len() as u64, 2, Some(digest_of(&whole)));
    let mut download = Download::start("a.bin", &file);
    assert!(download.wants_more());
    let pieces = download.accept(vec![FileChunk(1, last.clone()), FileChunk(0, first.clone())]).unwrap();
    assert_eq!(pieces[0].1, first);
    assert_eq!(pieces[1].1, last);
    assert!(!download.wants_more());
    assert_eq!(download.finish().unwrap(), digest_of(&whole));

    let mut download = Download::start("a.bin", &file);
    assert_eq!(
        download.accept(vec![FileChunk(1, last.clone())]).unwrap_err(),
        "remote file returned unexpected chunk 1, expected 0: a.bin"
    );
    let mut download = Download::start("a.bin", &file);
    assert_eq!(
        download.accept(vec![FileChunk(0, last)]).unwrap_err(),
        "remote file returned an invalid chunk: a.bin"
    );
    let long = info(9, 2 * CHUNK_SIZE as u64, 2, None);
    let mut download = Download::start("a.bin", &long);
    assert_eq!(
        download.accept(vec![FileChunk(0, vec![1u8; CHUNK_SIZE as usize + 1])]).unwrap_err(),
        "remote file returned an invalid chunk: a.bin"
    );
    let mut download = Download::start("a.bin", &file);
    assert_eq!(download.accept(Vec::new()).unwrap_err(), "remote file returned no chunk at index 0: a.bin");
    let wrong = info(9, 1, 1, Some([0; 32]));
    let mut download = Download::start("a.bin", &wrong);
    download.accept(vec![FileChunk(0, vec![5])]).unwrap();
    assert!(download.finish().unwrap_err().starts_with("downloaded file hash mismatch for a.bin: expected 0000"));
}

#[test]
fn local_state_is_checked_before_it_is_touched() {
    assert_eq!(check_download_root(PathState::Missing, "r"), Ok(false));
    assert_eq!(check_download_root(PathState::Directory, "r"), Ok(true));
    assert!(check_download_root(PathState::Symlink, "r").is_err());
    assert!(check_download_root(PathState::File, "r").is_err());
    assert_eq!(
        recheck_download_root(PathState::Symlink, "\"r\"").unwrap_err(),
        "local download root became a symbolic link: \"r\""
    );
    assert_eq!(check_directory(PathState::Directory, "d"), Ok(true));
    assert_eq!(
        check_directory(PathState::File, "\"d\"").unwrap_err(),
        "local directory path is occupied by a file: \"d\""
    );
    assert_eq!(check_parent(PathState::Missing, "p"), Ok(false));
    assert_eq!(check_parent(PathState::Other, "\"p\"").unwrap_err(), "local parent is not a directory: \"p\"");
    assert!(validate_destination(PathState::Missing, false, "f").is_ok());
    assert_eq!(
        validate_destination(PathState::Missing, true, "\"f\"").unwrap_err(),
        "local replacement target disappeared: \"f\""
    );
    assert_eq!(
        validate_destination(PathState::File, false, "\"f\"").unwrap_err(),
        "local file appeared during sync: \"f\""
    );
    assert!(validate_destination(PathState::File, true, "f").is_ok());
    assert!(check_deletion(PathState::File, false, "f").is_ok());
    assert_eq!(
        check_deletion(PathState::Symlink, false, "\"f\"").unwrap_err(),
        "refusing to delete non-regular local file \"f\""
    );
}

#[test]
fn remote_files_must_stay_as_planned() {
    let mut expected = remote_entry("a.bin", 9, EntryKind::File);
    expected.hash = None;
    assert!(validate_remote_file(&info(9, 3, 1, None), &expected).is_ok());
    assert_eq!(
        validate_remote_file(&info(9, 4, 1, None), &expected).unwrap_err(),
        "remote file changed after planning: a.bin (id 9)"
    );
    let before = info(9, 3, 1, None);
    let mut after = before.clone();
    assert!(check_unchanged(&before, &after, "a.bin", 9).is_ok());
    after.revision = 5;
    assert_eq!(
        check_unchanged(&before, &after, "a.bin", 9).unwrap_err(),
        "remote file changed during download: a.bin (id 9)"
    );
}

#[test]
fn downloads_are_prepared_with_a_warning_about_missing_hashes() {
    let mut remote = RemoteManifest::default();
    let mut entry = remote_entry("a.bin", 9, EntryKind::File);
    entry.hash = None;
    remote.entries.insert("a.bin".to_string(), entry);
    let options = PullOptions {
        local_root: "/data".to_string(),
        remote_parent: 7,
        delete: false,
        overwrite: false,
        excludes: Vec::new(),
    };
    let prepared = prepare_pull(options, &LocalManifest::default(), remote, false).unwrap();
    assert!(prepared.plan.warnings[0].starts_with("the bucket does not expose hashes"));
    assert!(check_pull_executable(&prepared.plan, 10).is_ok());
    assert!(check_download_retries(10).is_ok());
    assert_eq!(check_download_retries(11).unwrap_err(), "retry count 11 exceeds maximum 10");
    assert_eq!(check_pull_executable(&prepared.plan, 11).unwrap_err(), "retry count 11 exceeds maximum 10");
    assert_eq!(expected_entry(&prepared.remote, "a.bin").unwrap().id, 9);
    assert_eq!(
        expected_entry(&prepared.remote, "b").unwrap_err(),
        "missing prepared remote entry for b"
    );
}

#[test]
fn downloads_that_cannot_be_counted_are_not_planned() {
    let options = |excludes: Vec<String>| PullOptions {
        local_root: "/data".to_string(),
        remote_parent: 7,
        delete: false,
        overwrite: false,
        excludes,
    };
    let remote = || {
        let mut remote = RemoteManifest::default();
        for name in ["a.bin", "b.bin"] {
            let mut entry = remote_entry(name, 9, EntryKind::File);
            entry.size = u64::MAX;
            remote.entries.insert(name.to_string(), entry);
        }
        remote
    };
    let local = LocalManifest::default();
    assert!(prepare_countable_pull(options(Vec::new()), &local, remote(), true).is_none());
    let one = prepare_countable_pull(options(vec!["b.*".to_string()]), &local, remote(), true).unwrap().unwrap();
    assert_eq!((one.plan.download_files, one.plan.download_bytes), (1, u64::MAX));
    assert!(prepare_countable_pull(options(vec!["[".to_string()]), &local, remote(), true).unwrap().is_err());
}

#[test]
fn lost_sessions_are_told_from_other_refusals() {
    assert!(is_session_gone(&SyncError::NotFound("no session".to_string())));
    assert!(!is_session_gone(&SyncError::Internal("expired".to_string())));
}

#[test]
fn folders_are_made_sure_of_under_fresh_requests() {
    let given = ensure_folder_request(vec![3; 16], 7, "photos");
    assert_eq!((given.request_id, given.parent, given.name.as_str()), (vec![3; 16], 7, "photos"));
    let first = ensure_folder_input(7, "photos").expect("a request");
    let second = ensure_folder_input(7, "photos").expect("a request");
    assert_eq!(first.parent, 7);
    assert_eq!(first.name, "photos");
    assert_eq!(first.request_id.len(), 16);
    assert_ne!(first.request_id, second.request_id);
    let refused = SyncError::PermissionDenied("not a manager".to_string());
    assert_eq!(ensure_folder_failure(&refused), "ensure_folder failed: PermissionDenied(\"not a manager\")");
}

use ic_oss_cli::client::{
    finish_upload, fits_one_request, inline_result, prepare_inline_content, prepare_inline_upload, try_read_all,
    ChunkedUpload, ChunksCodec, Client, FrameDecision, Progress,
};
use ic_oss_cli::content::{choose_content_type, content_type, ContentHasher};
use ic_oss_cli::entry::SyncError;
use ic_oss_cli::file::CreateFileInput;
use ic_oss_cli::outside::digest_of;
use ic_oss_cli::principal::Principal;
use ic_oss_cli::retry::{retry_delay, retry_file_chunks, retry_file_info, retry_sync_call, RetryDecision};
use ic_oss_cli::upload_file::{check_upload_retries, choose_upload_content_type, retry_upload, upload_input};
use std::collections::BTreeSet;
use std::sync::{Arc, Mutex};

#[test]
fn access_token_provider_refreshes_and_fixed_setter_clears_it() {
    let token = Arc::new(Mutex::new(Some(vec![1u8])));
    let provider_token = Arc::clone(&token);
    let mut client = Client::new(Principal::anonymous());
    client.set_access_token_provider(move || {
        provider_token
            .lock()
            .map(|token| token.clone())
            .map_err(|_| "token provider lock is poisoned".to_string())
    });

    assert_eq!(client.current_access_token().unwrap(), Some(vec![1]));
    *token.lock().expect("replace provider token") = Some(vec![2]);
    assert_eq!(client.current_access_token().unwrap(), Some(vec![2]));

    client.set_access_token(Some(vec![3]));
    *token.lock().expect("replace stale provider token") = Some(vec![4]);
    assert_eq!(client.current_access_token().unwrap(), Some(vec![3]));
}

#[test]
fn a_failing_provider_is_an_internal_error_of_a_synchronisation() {
    let client = Client::new(Principal::anonymous())
        .with_access_token(Some(vec![1]))
        .with_access_token_provider(|| Err("expired".to_string()));
    assert_eq!(client.current_access_token(), Err("expired".to_string()));
    assert_eq!(client.current_sync_access_token(), Err(SyncError::Internal("expired".to_string())));
    assert_eq!(client.with_access_token(Some(vec![9])).current_sync_access_token(), Ok(Some(vec![9])));
}

#[test]
fn concurrency_stays_between_one_and_sixty_four() {
    let mut client = Client::new(Principal::anonymous()).with_access_token_provider(|| Ok(None));
    assert_eq!(client.concurrency, 16);
    client.set_concurrency(64);
    assert_eq!(client.concurrency, 64);
    client.set_concurrency(0);
    client.set_concurrency(65);
    assert_eq!(client.concurrency, 64);
    client.set_readonly(true);
    assert!(client.set_readonly);
}

#[test]
fn empty_inline_content_is_created_without_an_empty_blob() {
    let mut file = CreateFileInput::default();
    let apply_readonly_after_create = prepare_inline_content(&mut file, &[], true);

    assert!(file.content.is_none());
    assert!(file.status.is_none());
    assert!(apply_readonly_after_create);
}

#[test]
fn non_empty_inline_content_applies_readonly_during_create() {
    let mut file = CreateFileInput::default();
    let apply_readonly_after_create = prepare_inline_content(&mut file, b"data", true);

    assert_eq!(file.content.as_deref(), Some(b"data".as_slice()));
    assert_eq!(file.status, Some(1));
    assert!(!apply_readonly_after_create);
}

#[test]
fn zero_sized_read_returns_empty_content() {
    let content = try_read_all(0, None, false).unwrap();
    assert!(content.is_empty());
}

#[test]
fn small_files_are_read_exactly() {
    assert_eq!(try_read_all(3, None, false).unwrap_err(), "no bytes to read");
    assert_eq!(try_read_all(3, Some(Ok(vec![1, 2, 3])), true).unwrap_err(), "too many bytes to read");
    assert_eq!(try_read_all(3, Some(Err("disk".to_string())), false).unwrap_err(), "disk");
    assert_eq!(try_read_all(3, Some(Ok(vec![1, 2])), false).unwrap_err(), "insufficient bytes to read");
    assert_eq!(try_read_all(3, Some(Ok(vec![1, 2, 3])), false).unwrap(), vec![1, 2, 3]);
}

#[test]
fn small_files_go_with_the_request_that_makes_them() {
    assert!(fits_one_request(Some(2_048_000)));
    assert!(!fits_one_request(Some(2_048_001)));
    assert!(!fits_one_request(None));

    let mut file = CreateFileInput::default();
    assert!(!prepare_inline_upload(&mut file, b"abc", false));
    assert_eq!(file.hash, Some(digest_of(b"abc")));
    assert_eq!(file.status, None);

    let (result, progress) = inline_result(7, 3);
    assert_eq!((result.id, result.filled), (7, 3));
    assert!(result.uploaded_chunks.is_empty());
    assert_eq!(progress, Progress { filled: 3, size: Some(3), chunk_index: 0, concurrency: 1 });
}

#[test]
fn digests_are_those_of_sha3() {
    assert_eq!(
        digest_of(b"abc")[..8],
        [0x3a, 0x98, 0x5d, 0xa7, 0x4f, 0xe2, 0x25, 0xb2]
    );
    let mut hasher = ContentHasher::new();
    hasher.update(b"a");
    hasher.update(b"bc");
    assert_eq!(hasher.finish(), digest_of(b"abc"));
}

#[test]
fn streams_are_cut_into_full_chunks_and_a_rest() {
    let codec = ChunksCodec::new(4);
    let stream: Vec<u8> = (0..10).collect();
    let mut rest = stream.clone();
    let mut chunks: Vec<Vec<u8>> = Vec::new();
    while let Some(len) = codec.decode(rest.len()) {
        chunks.push(rest.drain(..len).collect());
    }
    if let Some(len) = codec.decode_eof(rest.len()) {
        chunks.push(rest.drain(..len).collect());
    }
    assert_eq!(chunks.iter().map(Vec::len).collect::<Vec<_>>(), vec![4, 4, 2]);
    assert_eq!(chunks.concat(), stream);
    assert_eq!(codec.decode_eof(0), None);
}

#[test]
fn resumed_uploads_send_only_missing_chunks_and_hash_everything() {
    let stored: BTreeSet<u32> = [0, 2].into_iter().collect();
    let mut upload = ChunkedUpload::start(5, Some(6), None, &stored, true);
    assert_eq!(
        upload.on_frame(b"ab"),
        FrameDecision::Skip { progress: Progress { filled: 2, size: Some(6), chunk_index: 0, concurrency: 0 } }
    );
    assert_eq!(upload.on_frame(b"cd"), FrameDecision::Send { chunk_index: 1 });
    assert_eq!(
        upload.on_frame(b"ef"),
        FrameDecision::Skip { progress: Progress { filled: 4, size: Some(6), chunk_index: 2, concurrency: 0 } }
    );
    assert_eq!(
        upload.on_stored(1, 2, 6, 3),
        Progress { filled: 6, size: Some(6), chunk_index: 1, concurrency: 3 }
    );
    assert_eq!(upload.output.filled, 6);
    let input = upload.commit_input();
    assert_eq!(input.id, 5);
    assert_eq!(input.hash, Some(digest_of(b"abcdef")));
    assert_eq!(input.status, Some(1));
    assert_eq!(input.size, Some(6));
    let result = finish_upload(upload.output, Some("commit failed".to_string()));
    assert_eq!(result.uploaded_chunks, [0, 1, 2].into_iter().collect());
    assert_eq!(result.error.as_deref(), Some("commit failed"));
}

#[test]
fn a_known_hash_is_kept() {
    let mut upload = ChunkedUpload::start(5, None, Some([9; 32]), &BTreeSet::new(), false);
    assert_eq!(upload.on_frame(b"ab"), FrameDecision::Send { chunk_index: 0 });
    let input = upload.commit_input();
    assert_eq!((input.hash, input.status, input.size), (Some([9; 32]), None, None));
}

#[test]
fn retry_backoff_is_bounded_and_empty_progress_is_complete() {
    assert_eq!(retry_delay(1), 1);
    assert_eq!(retry_delay(5), 16);
    assert_eq!(retry_delay(10), 30);
}

#[test]
fn uploads_are_retried_a_limited_number_of_times() {
    assert!(check_upload_retries(10).is_ok());
    assert_eq!(check_upload_retries(11).unwrap_err(), "retry count 11 exceeds maximum 10");
    match retry_upload(1, 3, "timeout") {
        RetryDecision::Again { attempt, delay, notice } => {
            assert_eq!((attempt, delay), (2, 2));
            assert_eq!(notice, "upload error: timeout.\ntry resumable upload 2 after 2s:");
        }
        RetryDecision::Fail { .. } => panic!("must be retried"),
    }
    match retry_upload(3, 3, "timeout") {
        RetryDecision::Fail { error } => assert_eq!(error, "upload failed: timeout"),
        RetryDecision::Again { .. } => panic!("must fail"),
    }
}

#[test]
fn queries_are_retried_with_a_notice() {
    assert!(matches!(retry_file_info(0, 1, 4, "x"), RetryDecision::Again { attempt: 1, delay: 1, .. }));
    assert!(matches!(retry_file_info(1, 1, 4, "x"), RetryDecision::Fail { .. }));
    assert!(matches!(retry_file_chunks(2, 3, 4, 6, "x"), RetryDecision::Again { attempt: 3, delay: 4, .. }));
    assert!(matches!(retry_sync_call(0, 3, &SyncError::Internal("x".to_string())), RetryDecision::Again { .. }));
    assert!(matches!(
        retry_sync_call(0, 3, &SyncError::InvalidInput("x".to_string())),
        RetryDecision::Fail { .. }
    ));
}

#[test]
fn content_types_come_from_the_content_before_the_name() {
    let png = [0x89, b'P', b'N', b'G', 0x0d, 0x0a, 0x1a, 0x0a];
    assert_eq!(content_type(&png, Some("a.txt")), "image/png");
    assert_eq!(content_type(b"plain", Some("a.html")), "text/html");
    assert_eq!(content_type(b"plain", Some("a")), "application/octet-stream");
    assert_eq!(content_type(b"plain", None), "application/octet-stream");
    assert_eq!(choose_content_type(None, Some("text/css".to_string())), "text/css");
}

#[test]
fn content_types_may_be_overridden_with_safe_text() {
    assert_eq!(choose_upload_content_type(Some(" Video/MP4 "), None, None).unwrap(), "video/mp4");
    let refused = "content type override must contain 1 to 256 safe bytes";
    assert_eq!(choose_upload_content_type(Some("  "), None, None).unwrap_err(), refused);
    assert_eq!(choose_upload_content_type(Some("a\u{7f}b"), None, None).unwrap_err(), refused);
    assert_eq!(choose_upload_content_type(Some(&"a".repeat(257)), None, None).unwrap_err(), refused);
    assert!(choose_upload_content_type(Some(&"a".repeat(256)), None, None).is_ok());

    let input = upload_input(3, "dir/a.html", "a.html", b"plain", 5, Some([1; 32]), None).unwrap();
    assert_eq!((input.parent, input.name.as_str(), input.content_type.as_str()), (3, "a.html", "text/html"));
    assert_eq!((input.size, input.hash, input.content), (Some(5), Some([1; 32]), None));
}

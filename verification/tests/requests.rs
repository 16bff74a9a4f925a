use ic_oss_cli::batch::{
    BatchCreateSmallFilesInput, BatchEnsureFoldersInput, MAX_BATCH_FILE_BYTES, MAX_BATCH_INLINE_BYTES, MAX_BATCH_ITEMS,
};
use ic_oss_cli::bucket::{normalize_custom_domains, HttpReadMode, ReaderPolicy, UpdateBucketInput, MAX_CUSTOM_DOMAINS};
use ic_oss_cli::entry::{
    DeleteEntryIfInput, EnsureFolderInput, EntryKind, EntryRef, GetEntryInput, SyncError,
};
use ic_oss_cli::file::{valid_file_name, CreateFileInput, MAX_FILE_SIZE};
use ic_oss_cli::folder::CreateFolderInput;
use ic_oss_cli::principal::Principal;
use ic_oss_cli::reader::{
    BatchUpsertReaderGrantsInput, ReaderGrantError, ReaderGrantSpec, RevokeReaderGrantInput, UpsertReaderGrantInput,
    MAX_READER_GRANT_BATCH_ITEMS,
};
use ic_oss_cli::upload::{BeginUploadInput, GetUploadStatusInput, UPLOAD_SESSION_ID_SIZE};

fn file(content: Vec<u8>) -> CreateFileInput {
    CreateFileInput {
        parent: 0,
        name: "a.txt".to_string(),
        content_type: "text/plain".to_string(),
        size: Some(content.len() as u64),
        content: if content.is_empty() { None } else { Some(content) },
        ..Default::default()
    }
}

fn principal(seed: u8) -> Principal {
    Principal::from_slice(&[seed; 29])
}

#[test]
fn validates_batch_bounds() {
    assert!(BatchEnsureFoldersInput { request_id: vec![1], folders: vec![] }.validate().is_err());

    assert!(BatchCreateSmallFilesInput {
        request_id: vec![1],
        files: vec![file(vec![1; MAX_BATCH_FILE_BYTES + 1])],
    }
    .validate()
    .is_err());

    assert!(BatchCreateSmallFilesInput { request_id: vec![1], files: vec![file(vec![1; 16])] }.validate().is_ok());
}

#[test]
fn batches_are_limited_in_items_and_bytes() {
    let folder = CreateFolderInput { parent: 0, name: "docs".to_string() };
    assert!(BatchEnsureFoldersInput {
        request_id: vec![1],
        folders: vec![folder.clone(); MAX_BATCH_ITEMS],
    }
    .validate()
    .is_ok());
    assert!(BatchEnsureFoldersInput {
        request_id: vec![1],
        folders: vec![folder; MAX_BATCH_ITEMS + 1],
    }
    .validate()
    .is_err());
    let full = MAX_BATCH_INLINE_BYTES / MAX_BATCH_FILE_BYTES;
    assert_eq!(full, 6);
    assert!(BatchCreateSmallFilesInput {
        request_id: vec![1],
        files: vec![file(vec![1; MAX_BATCH_FILE_BYTES]); full],
    }
    .validate()
    .is_ok());
    assert!(BatchCreateSmallFilesInput {
        request_id: vec![1],
        files: vec![file(vec![1; MAX_BATCH_FILE_BYTES]); full + 1],
    }
    .validate()
    .is_err());
}

#[test]
fn update_bucket_max_file_size_accepts_supported_range() {
    assert!(UpdateBucketInput { max_file_size: Some(1), ..Default::default() }.validate().is_ok());
    assert!(UpdateBucketInput { max_file_size: Some(MAX_FILE_SIZE), ..Default::default() }.validate().is_ok());
}

#[test]
fn update_bucket_max_file_size_rejects_invalid_values() {
    assert!(UpdateBucketInput { max_file_size: Some(0), ..Default::default() }.validate().is_err());
    assert!(UpdateBucketInput { max_file_size: Some(MAX_FILE_SIZE + 1), ..Default::default() }.validate().is_err());
}

#[test]
fn reader_policy_defaults_to_legacy_compatible_behavior() {
    let policy = ReaderPolicy::default();
    assert!(!policy.enabled);
    assert_eq!(policy.authority, None);
    assert!(policy.allow_by_hash);
    assert_eq!(HttpReadMode::default(), HttpReadMode::Legacy);
    assert!(policy.validate().is_ok());
}

#[test]
fn enabled_reader_policy_requires_authority_and_disables_by_hash() {
    assert!(ReaderPolicy { enabled: true, authority: None, allow_by_hash: false }.validate().is_err());
    assert!(ReaderPolicy { enabled: true, authority: Some(Principal::anonymous()), allow_by_hash: false }
        .validate()
        .is_err());
    assert!(ReaderPolicy {
        enabled: true,
        authority: Some(Principal::from_slice(&[1; 29])),
        allow_by_hash: true,
    }
    .validate()
    .is_err());
    assert!(ReaderPolicy {
        enabled: true,
        authority: Some(Principal::from_slice(&[1; 29])),
        allow_by_hash: false,
    }
    .validate()
    .is_ok());
}

#[test]
fn custom_domains_are_normalized_deduplicated_and_limited() {
    assert_eq!(
        normalize_custom_domains(&[
            "OSS.Example.com".to_string(),
            "oss.example.com".to_string(),
            "files.example.com".to_string(),
        ])
        .unwrap(),
        vec!["files.example.com", "oss.example.com"]
    );
    for invalid in
        ["localhost", "https://oss.example.com", "oss.example.com/path", "127.0.0.1", "*.example.com"]
    {
        assert!(normalize_custom_domains(&[invalid.to_string()]).is_err());
    }
    assert!(normalize_custom_domains(
        &(0..=MAX_CUSTOM_DOMAINS).map(|index| format!("{index}.example.com")).collect::<Vec<_>>()
    )
    .is_err());
}

#[test]
fn validates_entry_inputs() {
    assert!(GetEntryInput { parent: 0, name: "docs".to_string() }.validate().is_ok());
    assert!(GetEntryInput { parent: 0, name: "../docs".to_string() }.validate().is_err());
    assert!(EnsureFolderInput { request_id: vec![1], parent: 0, name: "docs".to_string() }.validate().is_ok());
    assert!(EnsureFolderInput { request_id: Vec::new(), parent: 0, name: "docs".to_string() }.validate().is_err());
    assert!(DeleteEntryIfInput {
        request_id: vec![1],
        id: 1,
        kind: EntryKind::Folder,
        expected_parent: 0,
        expected_revision: 1,
        expected_hash: Some([1; 32]),
    }
    .validate()
    .is_err());
}

#[test]
fn names_are_single_path_components() {
    assert!(valid_file_name("a.txt"));
    for invalid in ["", ".", "..", "a/b", " a", "a "] {
        assert!(!valid_file_name(invalid), "accepted {invalid:?}");
    }
}

#[test]
fn request_identifiers_have_one_to_sixty_four_bytes() {
    let input = |bytes: usize| EnsureFolderInput { request_id: vec![7; bytes], parent: 0, name: "docs".to_string() };
    assert!(input(64).validate().is_ok());
    assert_eq!(
        input(65).validate(),
        Err(SyncError::InvalidInput("request_id must contain 1 to 64 bytes".to_string()))
    );
}

#[test]
fn validates_upsert_input() {
    let input = UpsertReaderGrantInput {
        subject: principal(1),
        expires_at_ms: Some(11),
        entitlement_version: 1,
        request_id: vec![1],
    };
    assert_eq!(input.validate(10), Ok(()));
    assert_eq!(
        UpsertReaderGrantInput { expires_at_ms: Some(10), ..input.clone() }.validate(10),
        Err(ReaderGrantError::InvalidExpiry)
    );
    assert_eq!(
        UpsertReaderGrantInput { subject: Principal::anonymous(), ..input.clone() }.validate(10),
        Err(ReaderGrantError::AnonymousNotAllowed)
    );
    assert!(matches!(
        UpsertReaderGrantInput { entitlement_version: 0, ..input }.validate(10),
        Err(ReaderGrantError::InvalidInput(_))
    ));
}

#[test]
fn validates_request_and_batch_bounds() {
    let input = BatchUpsertReaderGrantsInput {
        request_id: vec![1],
        grants: vec![ReaderGrantSpec { subject: principal(2), expires_at_ms: None, entitlement_version: 1 }],
    };
    assert_eq!(input.validate(), Ok(()));
    assert!(matches!(
        BatchUpsertReaderGrantsInput { grants: Vec::new(), ..input.clone() }.validate(),
        Err(ReaderGrantError::InvalidInput(_))
    ));
    assert_eq!(
        BatchUpsertReaderGrantsInput {
            grants: vec![input.grants[0].clone(); MAX_READER_GRANT_BATCH_ITEMS + 1],
            ..input
        }
        .validate(),
        Err(ReaderGrantError::TooManyItems { max: MAX_READER_GRANT_BATCH_ITEMS as u16 })
    );
}

#[test]
fn revocations_name_a_version_and_a_request() {
    let input = RevokeReaderGrantInput { subject: principal(3), entitlement_version: 2, request_id: vec![1; 64] };
    assert_eq!(input.validate(), Ok(()));
    assert!(matches!(
        RevokeReaderGrantInput { request_id: vec![1; 65], ..input }.validate(),
        Err(ReaderGrantError::InvalidInput(_))
    ));
}

#[test]
fn validates_upload_inputs() {
    let valid = BeginUploadInput {
        request_id: vec![1],
        parent: 0,
        name: "file.txt".to_string(),
        content_type: "text/plain".to_string(),
        size: 0,
        status: 0,
        hash: None,
        dek: None,
        custom: None,
        expected_parent_revision: 1,
        replace: None,
    };
    assert!(valid.validate().is_ok());

    let mut readonly = valid;
    readonly.status = 1;
    assert!(readonly.validate().is_err());

    assert!(GetUploadStatusInput { session_id: vec![0; UPLOAD_SESSION_ID_SIZE], start: None, take: None }
        .validate()
        .is_ok());
}

#[test]
fn refusals_have_a_debug_notation() {
    assert_eq!(
        SyncError::NotFound("no \"a\"".to_string()).debug_form(),
        format!("{:?}", SyncError::NotFound("no \"a\"".to_string()))
    );
    let conflict = SyncError::Conflict {
        message: "exists".to_string(),
        entries: vec![EntryRef { kind: EntryKind::File, id: 1 }, EntryRef { kind: EntryKind::Folder, id: 20 }],
    };
    assert_eq!(conflict.debug_form(), format!("{conflict:?}"));
}

#[test]
fn principals_are_written_and_read_as_text() {
    let management = Principal::from_text("aaaaa-aa").unwrap();
    assert_eq!(management.as_slice(), &[] as &[u8]);
    assert_eq!(management.to_text(), "aaaaa-aa");
    assert_eq!(Principal::anonymous().to_text(), "2vxsx-fae");
    for seed in [0u8, 1, 200, 255] {
        let text = principal(seed).to_text();
        assert_eq!(Principal::from_text(&text).unwrap(), principal(seed));
    }
    assert!(Principal::from_text("not a principal").is_err());
    assert!(Principal::anonymous().is_anonymous());
    assert!(!management.is_anonymous());
}

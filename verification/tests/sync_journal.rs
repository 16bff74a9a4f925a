use ic_oss_cli::sync::journal::{
    chunk_ranges, insert_chunk, journal_file_name, recovery_warning, ActionState, ChunkRange, RecoveryJournal,
    SavedJournal,
};
use ic_oss_cli::sync::planner::PlanAction;

#[test]
fn uploaded_chunks_are_compacted_into_ranges() {
    let mut ranges = Vec::new();
    for chunk in [2, 0, 4, 1, 3, 3] {
        insert_chunk(&mut ranges, chunk);
    }
    assert_eq!(ranges, vec![ChunkRange { start: 0, end: 4 }]);
}

#[test]
fn chunks_in_any_order_give_the_same_ranges() {
    let wanted = vec![ChunkRange { start: 1, end: 2 }, ChunkRange { start: 5, end: 5 }];
    for order in [[1, 2, 5], [5, 2, 1], [2, 5, 1]] {
        let mut ranges = Vec::new();
        for chunk in order {
            insert_chunk(&mut ranges, chunk);
        }
        assert_eq!(ranges, wanted);
    }
    assert_eq!(chunk_ranges(&[5, 1, 2].into_iter().collect()), wanted);
    let mut last = vec![ChunkRange { start: u32::MAX - 1, end: u32::MAX - 1 }];
    insert_chunk(&mut last, u32::MAX);
    assert_eq!(last, vec![ChunkRange { start: u32::MAX - 1, end: u32::MAX }]);
}

#[test]
fn journal_tracks_actions_and_detects_changed_manifest() {
    let root = "/tmp/ic-oss-journal";
    let actions = vec![PlanAction::UploadFile { path: "a.txt".to_string(), size: 1 }];
    let hash = [1u8; 32];
    let mut journal = RecoveryJournal::start("bucket", 7, root, &hash, &actions, None);
    journal.mark_started(&actions[0]).unwrap();
    let checkpoint = journal.prepare_upload(&actions[0], [3u8; 32], vec![4u8; 16]).unwrap();
    assert_eq!(checkpoint.begin_request_id, vec![4u8; 16]);
    journal.set_upload_session(&actions[0], vec![5u8; 32]).unwrap();
    journal.mark_uploaded_chunk(&actions[0], 2).unwrap();
    let saved = journal.data;

    let mut journal = RecoveryJournal::start("bucket", 7, root, &hash, &actions, Some(&saved));
    let checkpoint = journal.prepare_upload(&actions[0], [3u8; 32], vec![6u8; 16]).unwrap();
    assert_eq!(checkpoint.begin_request_id, vec![4u8; 16]);
    assert_eq!(checkpoint.session_id, Some(vec![5u8; 32]));
    assert_eq!(checkpoint.uploaded_ranges, vec![ChunkRange { start: 2, end: 2 }]);
    journal.mark_completed(&actions[0], Some(9)).unwrap();
    assert_eq!(journal.data.actions[0].state, ActionState::Completed);
    assert_eq!(journal.data.actions[0].remote_id, Some(9));

    let saved = SavedJournal::Loaded { data: journal.data };
    assert!(recovery_warning(&saved, &hash).unwrap().contains("incomplete prior sync"));
    assert!(recovery_warning(&saved, &[2u8; 32]).unwrap().contains("local manifest changed"));

    assert!(recovery_warning(&SavedJournal::Missing, &hash).is_none());
}

#[test]
fn another_fingerprint_starts_a_new_upload() {
    let actions = vec![PlanAction::UploadFile { path: "a.txt".to_string(), size: 1 }];
    let mut journal = RecoveryJournal::start("bucket", 7, "/r", &[1; 32], &actions, None);
    journal.prepare_upload(&actions[0], [3u8; 32], vec![4u8; 16]).unwrap();
    journal.set_upload_session(&actions[0], vec![5u8; 32]).unwrap();
    journal.set_uploaded_chunks(&actions[0], [0, 1, 3].into_iter().collect()).unwrap();
    let checkpoint = journal.prepare_upload(&actions[0], [8u8; 32], vec![6u8; 16]).unwrap();
    assert_eq!(checkpoint.begin_request_id, vec![6u8; 16]);
    assert_eq!(checkpoint.session_id, None);
    assert!(checkpoint.uploaded_ranges.is_empty());
    journal.reset_upload(&actions[0]).unwrap();
    assert!(journal.data.actions[0].upload.is_none());
    let unknown = PlanAction::UploadFile { path: "b.txt".to_string(), size: 1 };
    assert!(journal.mark_started(&unknown).is_err());
}

#[test]
fn journals_of_different_targets_have_different_names() {
    let name = journal_file_name("bucket", 7, "/root/a");
    assert_eq!(name, journal_file_name("bucket", 7, "/root/a"));
    assert_ne!(name, journal_file_name("bucket", 8, "/root/a"));
    assert_ne!(name, journal_file_name("bucket", 7, "/root/b"));
    assert!(name.ends_with(".json"));
}

use ic_oss_cli::sync::batches::{directory_action_batches, small_file_action_batches};
use ic_oss_cli::batch::MAX_BATCH_FILE_BYTES;
use ic_oss_cli::sync::excludes::{compile_excludes, is_entry_excluded, is_excluded, validate_excludes};
use ic_oss_cli::sync::planner::{plan_sync, sync_fits, Plan, PlanAction, PlanOptions};
use ic_oss_cli::sync::pull::{local_path, plan_pull, pull_fits, validate_relative_path, PullAction};
use ic_oss_cli::sync::types::{
    join_path, parent_path, path_depth, EntryKind, LocalEntry, LocalManifest, RemoteEntry, RemoteManifest,
};

fn local_file(path: &str, hash: u8) -> LocalEntry {
    LocalEntry { path: path.to_string(), kind: EntryKind::File, size: 10, hash: Some([hash; 32]) }
}

fn remote_file(path: &str, id: u32, hash: Option<u8>) -> RemoteEntry {
    RemoteEntry {
        path: path.to_string(),
        id,
        parent: 0,
        kind: EntryKind::File,
        size: 10,
        filled: 10,
        hash: hash.map(|value| [value; 32]),
        status: 0,
    }
}

fn local_directory(path: &str) -> LocalEntry {
    LocalEntry { path: path.to_string(), kind: EntryKind::Directory, size: 0, hash: None }
}

fn remote_directory(path: &str, id: u32) -> RemoteEntry {
    RemoteEntry {
        path: path.to_string(),
        id,
        parent: 0,
        kind: EntryKind::Directory,
        size: 0,
        filled: 0,
        hash: None,
        status: 0,
    }
}

#[test]
fn equal_hash_is_unchanged() {
    let mut local = LocalManifest::default();
    local.entries.insert("a".into(), local_file("a", 1));
    let mut remote = RemoteManifest::default();
    remote.entries.insert("a".into(), remote_file("a", 7, Some(1)));

    let plan = plan_sync(&local, &remote, PlanOptions::default());
    assert!(plan.actions.is_empty());
    assert_eq!(plan.unchanged, 1);
}

#[test]
fn changed_file_requires_overwrite() {
    let mut local = LocalManifest::default();
    local.entries.insert("a".into(), local_file("a", 1));
    let mut remote = RemoteManifest::default();
    remote.entries.insert("a".into(), remote_file("a", 7, Some(2)));

    let plan = plan_sync(&local, &remote, PlanOptions::default());
    assert!(matches!(plan.actions[0], PlanAction::Conflict { .. }));

    let plan = plan_sync(&local, &remote, PlanOptions { overwrite: true, ..Default::default() });
    assert!(matches!(plan.actions[0], PlanAction::ReplaceFile { .. }));
}

#[test]
fn remote_only_entries_are_deleted_deepest_first() {
    let local = LocalManifest::default();
    let mut remote = RemoteManifest::default();
    remote.entries.insert("old".into(), remote_directory("old", 1));
    remote.entries.insert("old/a".into(), remote_file("old/a", 2, Some(1)));

    let plan = plan_sync(&local, &remote, PlanOptions { delete: true, ..Default::default() });
    assert!(matches!(plan.actions[0], PlanAction::DeleteFile { .. }));
    assert!(matches!(plan.actions[1], PlanAction::DeleteDirectory { .. }));
}

#[test]
fn protected_local_paths_are_never_mirror_deleted() {
    let mut local = LocalManifest::default();
    local.protected_paths.insert("cache".into());
    let mut remote = RemoteManifest::default();
    remote.entries.insert("cache/a.bin".into(), remote_file("cache/a.bin", 9, Some(1)));

    let plan = plan_sync(&local, &remote, PlanOptions { delete: true, overwrite: false });
    assert!(plan.actions.is_empty());
    assert_eq!(plan.retained_remote, 1);
}

#[test]
fn upload_only_plans_are_idempotent_for_small_manifests() {
    let paths = ["a", "b", "c"];
    for local_mask in 0u8..8 {
        for remote_mask in 0u8..8 {
            let mut local = LocalManifest::default();
            let mut remote = RemoteManifest::default();
            for (index, path) in paths.iter().enumerate() {
                let bit = 1 << index;
                if local_mask & bit != 0 {
                    local.entries.insert((*path).into(), local_file(path, index as u8));
                }
                if remote_mask & bit != 0 {
                    remote.entries.insert((*path).into(), remote_file(path, index as u32, Some(index as u8)));
                }
            }

            let plan = plan_sync(&local, &remote, PlanOptions::default());
            assert!(!plan.has_conflicts());
            assert!(plan.actions.iter().all(|action| matches!(
                action,
                PlanAction::UploadFile { .. } | PlanAction::CreateDirectory { .. }
            )));

            for action in &plan.actions {
                if let PlanAction::UploadFile { path, .. } = action {
                    let local_entry = local.entries.get(path).unwrap();
                    remote.entries.insert(
                        path.clone(),
                        RemoteEntry {
                            path: path.clone(),
                            id: 100,
                            parent: 0,
                            kind: EntryKind::File,
                            size: local_entry.size,
                            filled: local_entry.size,
                            hash: local_entry.hash,
                            status: 0,
                        },
                    );
                }
            }

            let verification = plan_sync(&local, &remote, PlanOptions::default());
            assert!(verification.actions.is_empty());
        }
    }
}

#[test]
fn plans_are_ordered_and_tallied() {
    let mut local = LocalManifest::default();
    local.entries.insert("docs".into(), local_directory("docs"));
    local.entries.insert("docs/b.txt".into(), local_file("docs/b.txt", 1));
    local.entries.insert("a.txt".into(), local_file("a.txt", 2));
    local.warnings.push("local".into());
    let mut remote = RemoteManifest::default();
    remote.entries.insert("old.txt".into(), remote_file("old.txt", 4, Some(3)));
    remote.conflicts.push(("broken".into(), "remote file is incomplete".into()));
    remote.warnings.push("remote".into());

    assert!(sync_fits(&local, &remote, PlanOptions { delete: true, overwrite: false }));
    let plan: Plan = plan_sync(&local, &remote, PlanOptions { delete: true, overwrite: false });
    assert!(matches!(&plan.actions[0], PlanAction::Conflict { path, .. } if path == "broken"));
    assert!(matches!(&plan.actions[1], PlanAction::CreateDirectory { path } if path == "docs"));
    assert!(matches!(&plan.actions[2], PlanAction::UploadFile { path, size: 10 } if path == "a.txt"));
    assert!(matches!(&plan.actions[3], PlanAction::UploadFile { path, .. } if path == "docs/b.txt"));
    assert!(matches!(&plan.actions[4], PlanAction::DeleteFile { path, remote_id: 4 } if path == "old.txt"));
    assert_eq!(plan.actions.len(), 5);
    assert_eq!((plan.conflicts, plan.create_directories, plan.upload_files), (1, 1, 2));
    assert_eq!((plan.delete_files, plan.upload_bytes), (1, 20));
    assert_eq!(plan.warnings, vec!["local", "remote"]);
    assert!(plan.has_conflicts());
}

#[test]
fn only_what_is_sent_is_added_up() {
    let mut local = LocalManifest::default();
    let mut remote = RemoteManifest::default();
    for name in ["a", "b"] {
        let mut here = local_file(name, 1);
        here.size = u64::MAX;
        local.entries.insert(name.into(), here);
        let mut there = remote_file(name, 4, Some(1));
        there.size = u64::MAX;
        remote.entries.insert(name.into(), there);
    }
    let overwrite = PlanOptions { overwrite: true, ..Default::default() };
    assert!(sync_fits(&local, &remote, overwrite));
    assert!(pull_fits(&local, &remote, false, true, &[]));
    let plan = plan_sync(&local, &remote, overwrite);
    assert_eq!((plan.unchanged, plan.upload_bytes), (2, 0));
    let plan = plan_pull(&local, &remote, false, true, &[]).unwrap();
    assert_eq!((plan.unchanged, plan.download_bytes), (2, 0));

    for name in ["a", "b"] {
        let mut other = local_file(name, 9);
        other.size = u64::MAX;
        local.entries.insert(name.into(), other);
    }
    assert!(sync_fits(&local, &remote, PlanOptions::default()));
    assert!(!sync_fits(&local, &remote, overwrite));
    assert!(pull_fits(&local, &remote, false, false, &[]));
    assert!(!pull_fits(&local, &remote, false, true, &[]));
    assert!(pull_fits(&local, &remote, false, true, &["a".to_string()]));
    assert!(pull_fits(&local, &remote, false, true, &["[".to_string()]));
}

#[test]
fn sizes_that_cannot_be_added_up_are_told() {
    let mut local = LocalManifest::default();
    let mut large = local_file("a", 1);
    large.size = u64::MAX;
    local.entries.insert("a".into(), large);
    assert!(sync_fits(&local, &RemoteManifest::default(), PlanOptions::default()));
    local.entries.insert("b".into(), local_file("b", 1));
    assert!(!sync_fits(&local, &RemoteManifest::default(), PlanOptions::default()));
    assert!(pull_fits(&local, &RemoteManifest::default(), false, false, &[]));
}

#[test]
fn plans_recursive_downloads_and_detects_changed_local_files() {
    let mut remote = RemoteManifest::default();
    remote.entries.insert("docs".into(), remote_directory("docs", 1));
    remote.entries.insert("docs/readme.md".into(), remote_file("docs/readme.md", 2, Some(7)));
    let plan = plan_pull(&LocalManifest::default(), &remote, false, false, &[]).unwrap();
    assert!(matches!(plan.actions[0], PullAction::CreateDirectory { .. }));
    assert!(matches!(plan.actions[1], PullAction::DownloadFile { .. }));

    let mut local = LocalManifest::default();
    local.entries.insert("docs/readme.md".into(), local_file("docs/readme.md", 8));
    let plan = plan_pull(&local, &remote, false, false, &[]).unwrap();
    assert!(plan.has_conflicts());
    let plan = plan_pull(&local, &remote, false, true, &[]).unwrap();
    assert!(plan.actions.iter().any(|action| matches!(action, PullAction::ReplaceFile { .. })));
}

#[test]
fn local_only_entries_are_deleted_deepest_first() {
    let mut local = LocalManifest::default();
    local.entries.insert("old".into(), local_directory("old"));
    local.entries.insert("old/file.txt".into(), local_file("old/file.txt", 1));
    let plan = plan_pull(&local, &RemoteManifest::default(), true, false, &[]).unwrap();
    assert!(matches!(plan.actions[0], PullAction::DeleteFile { .. }));
    assert!(matches!(plan.actions[1], PullAction::DeleteDirectory { .. }));
}

#[test]
fn protected_descendants_keep_their_parent_directory() {
    let mut local = LocalManifest::default();
    local.entries.insert("cache".into(), local_directory("cache"));
    local.protected_paths.insert("cache/link".into());
    let plan = plan_pull(&local, &RemoteManifest::default(), true, false, &[]).unwrap();
    assert!(plan.actions.is_empty());
    assert_eq!(plan.retained_local, 1);
}

#[test]
fn rejects_unsafe_remote_paths_and_honors_excluded_subtrees() {
    for path in ["../secret", "a/../secret", "/absolute", "a\\b"] {
        assert!(validate_relative_path(path).is_err(), "accepted {path}");
    }
    assert!(validate_relative_path("docs/指南.txt").is_ok());

    let excludes = compile_excludes(&["cache".to_string()]).unwrap();
    assert!(is_excluded(&excludes, "cache/a.bin"));
    assert!(!is_excluded(&excludes, "docs/cache/a.bin"));
}

#[test]
fn hashless_remote_file_requires_explicit_overwrite() {
    let mut local = LocalManifest::default();
    local.entries.insert("a.bin".into(), local_file("a.bin", 1));
    let mut remote = RemoteManifest::default();
    remote.entries.insert("a.bin".into(), remote_file("a.bin", 9, None));
    assert!(plan_pull(&local, &remote, false, false, &[]).unwrap().has_conflicts());
    assert!(matches!(
        plan_pull(&local, &remote, false, true, &[]).unwrap().actions[0],
        PullAction::ReplaceFile { .. }
    ));
}

#[test]
fn paths_become_components() {
    assert_eq!(local_path("docs/a.txt").unwrap(), vec!["docs", "a.txt"]);
    assert!(local_path("docs//a.txt").is_err());
    assert!(local_path("").is_err());
}

#[test]
fn a_complete_copy_needs_no_download() {
    let mut remote = RemoteManifest::default();
    remote.entries.insert("docs".into(), remote_directory("docs", 1));
    remote.entries.insert("docs/a".into(), remote_file("docs/a", 2, Some(7)));
    let mut local = LocalManifest::default();
    local.entries.insert("docs".into(), local_directory("docs"));
    local.entries.insert("docs/a".into(), local_file("docs/a", 7));
    local.entries.insert("mine".into(), local_file("mine", 9));
    let plan = plan_pull(&local, &remote, false, false, &[]).unwrap();
    assert!(plan.actions.is_empty());
    assert_eq!((plan.unchanged, plan.retained_local, plan.download_bytes), (2, 1, 0));
    let plan = plan_pull(&local, &remote, true, false, &["mine".to_string()]).unwrap();
    assert!(plan.actions.is_empty());
    assert!(plan_pull(&local, &remote, true, false, &["[".to_string()]).is_err());
}

#[test]
fn exclusion_covers_what_lies_below() {
    let excludes = compile_excludes(&["*.tmp".to_string(), "cache/**".to_string()]).unwrap();
    assert!(is_entry_excluded(&excludes, "a.tmp"));
    assert!(is_entry_excluded(&excludes, "cache/x"));
    assert!(!is_entry_excluded(&excludes, "docs/a.txt"));
    assert!(is_excluded(&excludes, "a.tmp/deep/file"));
    assert!(validate_excludes(&["[".to_string()]).is_err());
    assert!(validate_excludes(&["**/*.bak".to_string()]).is_ok());
    let none = compile_excludes(&[]).unwrap();
    assert!(!is_excluded(&none, "anything"));
}

#[test]
fn paths_are_joined_and_taken_apart() {
    assert_eq!(join_path("", "a"), "a");
    assert_eq!(join_path("docs", "a"), "docs/a");
    assert_eq!(parent_path("docs/a"), "docs");
    assert_eq!(parent_path("a"), "");
    assert_eq!(path_depth("docs/a"), 2);
}

#[test]
fn directory_batches_respect_depth_and_item_limit() {
    let mut actions = (0..34)
        .map(|index| PlanAction::CreateDirectory { path: format!("folder-{index:02}") })
        .collect::<Vec<_>>();
    actions.push(PlanAction::CreateDirectory { path: "folder-00/nested".to_string() });
    actions.push(PlanAction::UploadFile { path: "ignored.txt".to_string(), size: 1 });

    let batches = directory_action_batches(&actions);
    assert_eq!(batches.iter().map(Vec::len).collect::<Vec<_>>(), vec![32, 2, 1]);
    assert!(batches[0].iter().all(|action| matches!(
        action,
        PlanAction::CreateDirectory { path } if path_depth(path) == 1
    )));
    assert!(matches!(
        batches[2][0],
        PlanAction::CreateDirectory { path } if path == "folder-00/nested"
    ));
}

#[test]
fn small_file_batches_respect_byte_item_and_per_file_limits() {
    let byte_limited = (0..7)
        .map(|index| PlanAction::UploadFile {
            path: format!("file-{index}.bin"),
            size: MAX_BATCH_FILE_BYTES as u64,
        })
        .collect::<Vec<_>>();
    let batches = small_file_action_batches(&byte_limited);
    assert_eq!(batches.iter().map(Vec::len).collect::<Vec<_>>(), vec![6, 1]);

    let mut count_limited = (0..33)
        .map(|index| PlanAction::UploadFile { path: format!("empty-{index}.bin"), size: 0 })
        .collect::<Vec<_>>();
    count_limited.push(PlanAction::UploadFile {
        path: "large.bin".to_string(),
        size: MAX_BATCH_FILE_BYTES as u64 + 1,
    });
    let batches = small_file_action_batches(&count_limited);
    assert_eq!(batches.iter().map(Vec::len).collect::<Vec<_>>(), vec![32, 1]);
    assert!(batches.iter().flatten().all(|action| matches!(
        action,
        PlanAction::UploadFile { path, .. } if path != "large.bin"
    )));
}

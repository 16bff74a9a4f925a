use ic_oss_cli::bucket::BucketInfo;
use ic_oss_cli::entry::{EntryInfoV2, EntryKind as ApiEntryKind, SyncError};
use ic_oss_cli::file::FileInfo;
use ic_oss_cli::folder::FolderInfo;
use ic_oss_cli::outside::digest_of;
use ic_oss_cli::storage::{ManifestEntry, SubtreeManifestCursor, SubtreeManifestOutput};
use ic_oss_cli::sync::download::{pull_scan, PullOptions};
use ic_oss_cli::sync::execute::{sync_scan, SyncOptions};
use ic_oss_cli::sync::local::{
    decode_hash, hash_cache_file_name, scan_local, usable_cache, CachedHash, EntryState, FileStat, FileTime,
    HashCache, ListedName, LocalScan, SavedCache, ScanCommand,
};
use ic_oss_cli::ordered::PathMap;
use ic_oss_cli::sync::remote::{
    file_page, folder_page, insert_manifest_entry, manifest_scan_failed, LegacyScan, ManifestRetry, ManifestScan,
};
use ic_oss_cli::sync::types::{parent_path, path_depth, EntryKind, RemoteManifest};
use ic_oss_cli::text::is_below;
use std::collections::BTreeMap;

enum Node {
    Directory,
    File(Vec<u8>),
    Symlink,
}

fn tree(entries: Vec<(&str, Node)>) -> BTreeMap<String, Node> {
    entries.into_iter().map(|(path, node)| (path.to_string(), node)).collect()
}

fn stat(content: &[u8]) -> FileStat {
    FileStat {
        size: content.len() as u64,
        modified: Some(FileTime { before_epoch: false, secs: 100, nanos: 5 }),
    }
}

fn children(tree: &BTreeMap<String, Node>, parent: &str) -> Vec<ListedName> {
    let prefix = if parent.is_empty() { String::new() } else { format!("{parent}/") };
    let mut names: Vec<ListedName> = tree
        .keys()
        .filter_map(|path| path.strip_prefix(prefix.as_str()))
        .filter(|name| !name.is_empty() && !name.contains('/'))
        .map(|name| ListedName { bytes: name.as_bytes().to_vec(), shown: format!("{prefix}{name}") })
        .collect();
    names.reverse();
    names
}

fn drive(scan: &mut LocalScan, tree: &BTreeMap<String, Node>) -> Result<(), String> {
    loop {
        match scan.command() {
            ScanCommand::List { path } => scan.on_listing(children(tree, &path)),
            ScanCommand::Proceed => scan.advance()?,
            ScanCommand::Inspect { path } => scan.on_entry(match &tree[&path] {
                Node::Directory => EntryState::Directory,
                Node::Symlink => EntryState::Symlink,
                Node::File(content) => EntryState::File { stat: stat(content) },
            })?,
            ScanCommand::Hash { path } => match &tree[&path] {
                Node::File(content) => scan.on_hash(digest_of(content)),
                _ => panic!("only files are hashed"),
            },
            ScanCommand::Recheck { path } => match &tree[&path] {
                Node::File(content) => scan.on_recheck(stat(content))?,
                _ => panic!("only files are looked at again"),
            },
            ScanCommand::Done => return Ok(()),
        }
    }
}

fn sample() -> BTreeMap<String, Node> {
    tree(vec![
        ("docs", Node::Directory),
        ("docs/readme.md", Node::File(b"hello".to_vec())),
        ("empty.txt", Node::File(Vec::new())),
        ("ignored.tmp", Node::File(b"ignored".to_vec())),
    ])
}

#[test]
fn scans_empty_files_directories_and_excludes() {
    let files = sample();
    let mut scan = scan_local(&["*.tmp".to_string()], 1024, 10, 0, 100, Some(SavedCache::Missing)).unwrap();
    drive(&mut scan, &files).unwrap();
    let manifest = &scan.manifest;
    assert_eq!(manifest.entries.get("docs").unwrap().kind, EntryKind::Directory);
    assert_eq!(manifest.entries.get("empty.txt").unwrap().size, 0);
    assert!(manifest.entries.get("empty.txt").unwrap().hash.is_some());
    assert_eq!(manifest.entries.get("docs/readme.md").unwrap().size, 5);
    assert!(!manifest.entries.contains_key("ignored.tmp"));
    assert!(manifest.protects("ignored.tmp"));
    assert_eq!(manifest.hashed_files, 2);
    assert_eq!(manifest.cache_hits, 0);

    let saved = SavedCache::Loaded { path: "\"cache.json\"".to_string(), cache: scan.next_cache };
    let mut cached = scan_local(&[], 1024, 10, 0, 100, Some(saved)).unwrap();
    drive(&mut cached, &files).unwrap();
    assert_eq!(cached.manifest.cache_hits, 2);
    assert_eq!(cached.manifest.hashed_files, 1);
}

#[test]
fn finished_scans_found_a_whole_tree() {
    let files = tree(vec![
        ("a", Node::Directory),
        ("a/b", Node::Directory),
        ("a/b/one.txt", Node::File(b"one".to_vec())),
        ("a/b/two.tmp", Node::File(b"two".to_vec())),
        ("a/link", Node::Symlink),
        ("skipped", Node::Directory),
        ("skipped/three.txt", Node::File(b"three".to_vec())),
        ("zero.txt", Node::File(Vec::new())),
    ]);
    let mut cache = HashCache { version: 1, entries: PathMap::new() };
    cache.entries.insert(
        "zero.txt".to_string(),
        CachedHash { size: 0, modified_secs: 100, modified_nanos: 5, hash: "07".repeat(32) },
    );
    let saved = SavedCache::Loaded { path: "cache.json".to_string(), cache };
    let excludes = ["*.tmp".to_string(), "skipped".to_string()];
    let mut scan = scan_local(&excludes, 3, 4, 2, 2, Some(saved)).unwrap();
    drive(&mut scan, &files).unwrap();
    let manifest = &scan.manifest;
    let mut paths: Vec<&str> = Vec::new();
    let mut hashed = 0;
    for at in 0..manifest.entries.len() {
        let path = manifest.entries.path_at(at).as_str();
        let entry = manifest.entries.value_at(at);
        paths.push(path);
        assert_eq!(entry.path, path);
        let parent = parent_path(path);
        assert!(parent.is_empty() || manifest.entries.get(parent).unwrap().kind == EntryKind::Directory);
        match entry.kind {
            EntryKind::File => {
                hashed += 1;
                assert!(entry.hash.is_some() && entry.size <= 3);
            }
            EntryKind::Directory => assert!(entry.hash.is_none() && 2 + path_depth(path) <= 4),
        }
        for left in 0..manifest.protected_paths.len() {
            let left = manifest.protected_paths.path_at(left);
            assert!(path != left && !is_below(path, left));
        }
    }
    assert_eq!(paths, ["a", "a/b", "a/b/one.txt", "zero.txt"]);
    for path in files.keys().filter(|path| !is_below(path, "skipped")) {
        assert!(manifest.entries.contains_key(path) != manifest.protected_paths.contains(path));
    }
    assert_eq!(manifest.protected_paths.len(), 3);
    assert_eq!((manifest.cache_hits, manifest.hashed_files), (1, 1));
    assert_eq!(manifest.cache_hits + manifest.hashed_files, hashed);
    assert_eq!(manifest.entries.get("zero.txt").unwrap().hash, Some([7; 32]));
    for at in 0..scan.next_cache.entries.len() {
        let found = manifest.entries.get(scan.next_cache.entries.path_at(at)).unwrap();
        let kept = scan.next_cache.entries.value_at(at);
        assert_eq!((found.size, found.hash), (kept.size, decode_hash(&kept.hash)));
    }
    assert_eq!((scan.cache.version, scan.next_cache.version), (1, 1));
}

#[test]
fn symbolic_links_are_skipped_and_protected() {
    let files = tree(vec![("link", Node::Symlink), ("a", Node::File(b"x".to_vec()))]);
    let mut scan = scan_local(&[], 1024, 10, 0, 100, None).unwrap();
    drive(&mut scan, &files).unwrap();
    assert!(!scan.manifest.entries.contains_key("link"));
    assert!(scan.manifest.protects("link"));
    assert_eq!(scan.manifest.warnings, vec!["skipped symbolic link link"]);
    assert_eq!(scan.manifest.entries.get("a").unwrap().hash, Some(digest_of(b"x")));
}

fn small_bucket() -> BucketInfo {
    BucketInfo {
        name: "bucket".to_string(),
        file_id: 1,
        folder_id: 1,
        max_file_size: 4,
        max_folder_depth: 2,
        max_children: 3,
        max_custom_data_size: 1024,
        enable_hash_index: true,
        status: 0,
        visibility: 0,
        total_files: 0,
        total_chunks: 0,
        total_folders: 0,
        managers: Vec::new(),
        auditors: Vec::new(),
        trusted_ecdsa_pub_keys: Vec::new(),
        trusted_eddsa_pub_keys: Vec::new(),
        governance_canister: None,
        http_read_mode: None,
        reader_policy: None,
    }
}

fn upload_options(remote_parent: u32, excludes: Vec<String>) -> SyncOptions {
    SyncOptions {
        bucket: "aaaaa-aa".to_string(),
        local_root: "/root".to_string(),
        remote_parent,
        delete: false,
        overwrite: false,
        excludes,
    }
}

#[test]
fn trees_with_symbolic_links_are_not_uploaded() {
    let files = tree(vec![("a", Node::File(b"x".to_vec())), ("link", Node::Symlink)]);
    let options = upload_options(0, Vec::new());
    let mut scan = sync_scan(&options, &small_bucket(), 0, SavedCache::Missing).unwrap();
    assert_eq!(drive(&mut scan, &files).unwrap_err(), "symbolic link is not supported: link");

    let options = upload_options(0, vec!["link".to_string()]);
    let mut scan = sync_scan(&options, &small_bucket(), 0, SavedCache::Missing).unwrap();
    drive(&mut scan, &files).unwrap();
    assert!(scan.manifest.protects("link"));
    assert!(scan.manifest.warnings.is_empty());
}

#[test]
fn upload_scans_keep_the_limits_of_the_bucket() {
    let bad = upload_options(0, vec!["[".to_string()]);
    assert!(sync_scan(&bad, &small_bucket(), 0, SavedCache::Missing)
        .unwrap_err()
        .starts_with("invalid exclude pattern \"[\": "));

    let files = tree(vec![("big", Node::File(b"12345".to_vec()))]);
    let mut scan = sync_scan(&upload_options(0, Vec::new()), &small_bucket(), 0, SavedCache::Missing).unwrap();
    assert_eq!(drive(&mut scan, &files).unwrap_err(), "file size 5 exceeds bucket limit 4: big");

    let files = tree(vec![("d", Node::Directory)]);
    let mut scan = sync_scan(&upload_options(7, Vec::new()), &small_bucket(), 1, SavedCache::Missing).unwrap();
    assert_eq!(drive(&mut scan, &files).unwrap_err(), "folder depth exceeds bucket limit 2: d");
    let mut scan = sync_scan(&upload_options(7, Vec::new()), &small_bucket(), 0, SavedCache::Missing).unwrap();
    drive(&mut scan, &files).unwrap();
}

#[test]
fn download_scans_have_no_limits_and_leave_links_alone() {
    let options = PullOptions {
        local_root: "/root".to_string(),
        remote_parent: 0,
        delete: true,
        overwrite: false,
        excludes: Vec::new(),
    };
    let files = tree(vec![("big", Node::File(b"12345".to_vec())), ("link", Node::Symlink)]);
    let mut scan = pull_scan(&options, SavedCache::Missing).unwrap();
    drive(&mut scan, &files).unwrap();
    assert!(scan.manifest.entries.contains_key("big"));
    assert!(scan.manifest.protects("link"));
    assert_eq!(scan.manifest.warnings, vec!["skipped symbolic link link"]);
}

#[test]
fn bucket_limits_hold_for_local_trees() {
    let files = sample();
    let mut scan = scan_local(&[], 4, 10, 0, 100, None).unwrap();
    assert_eq!(
        drive(&mut scan, &files).unwrap_err(),
        "file size 5 exceeds bucket limit 4: docs/readme.md"
    );
    let mut scan = scan_local(&[], 1024, 2, 2, 100, None).unwrap();
    assert_eq!(drive(&mut scan, &files).unwrap_err(), "folder depth exceeds bucket limit 2: docs");
    let mut scan = scan_local(&[], 1024, 10, 1, 2, None).unwrap();
    assert_eq!(
        drive(&mut scan, &files).unwrap_err(),
        "directory  has 3 children, exceeding bucket limit 2"
    );
    let mut scan = scan_local(&[], 1024, 10, 0, 2, None).unwrap();
    assert!(drive(&mut scan, &files).is_ok());
    assert!(scan_local(&["[".to_string()], 1, 1, 0, 1, None).is_err());
}

#[test]
fn changed_files_stop_the_scan() {
    let mut scan = scan_local(&[], 1024, 10, 0, 100, None).unwrap();
    scan.on_listing(vec![ListedName { bytes: b"a".to_vec(), shown: "a".to_string() }]);
    scan.advance().unwrap();
    scan.on_entry(EntryState::File { stat: stat(b"x") }).unwrap();
    scan.on_hash(digest_of(b"x"));
    assert_eq!(scan.on_recheck(stat(b"xy")).unwrap_err(), "local file changed while scanning: a");
}

#[test]
fn names_must_be_text_and_valid() {
    let mut scan = scan_local(&[], 1024, 10, 0, 100, None).unwrap();
    scan.on_listing(vec![ListedName { bytes: vec![0xff], shown: "\"\\xFF\"".to_string() }]);
    assert_eq!(scan.advance().unwrap_err(), "non-UTF-8 filename is not supported: \"\\xFF\"");
    let mut scan = scan_local(&[], 1024, 10, 0, 100, None).unwrap();
    scan.on_listing(vec![ListedName { bytes: b" a".to_vec(), shown: "\" a\"".to_string() }]);
    assert_eq!(scan.advance().unwrap_err(), "invalid filename for IC-OSS: \" a\"");
}

#[test]
fn unusable_caches_are_replaced() {
    let (cache, warning) = usable_cache(SavedCache::Missing);
    assert!(cache.entries.is_empty());
    assert_eq!(warning, None);
    let mut entries = PathMap::new();
    entries.insert(
        "a".to_string(),
        CachedHash { size: 1, modified_secs: 2, modified_nanos: 3, hash: "00".repeat(32) },
    );
    let (cache, warning) = usable_cache(SavedCache::Loaded {
        path: "\"c\"".to_string(),
        cache: HashCache { version: 9, entries },
    });
    assert!(cache.entries.is_empty());
    assert_eq!(warning.unwrap(), "ignored unsupported hash cache version at \"c\"");
    let (_, warning) =
        usable_cache(SavedCache::Unreadable { path: "\"c\"".to_string(), error: "denied".to_string() });
    assert_eq!(warning.unwrap(), "ignored unreadable hash cache \"c\": denied");
    assert_eq!(decode_hash(&"0a".repeat(32)), Some([10; 32]));
    assert_eq!(decode_hash("0a"), None);
    assert_ne!(hash_cache_file_name("/a"), hash_cache_file_name("/b"));
}

fn api_entry(kind: ApiEntryKind, id: u32) -> EntryInfoV2 {
    EntryInfoV2 {
        kind,
        id,
        parent: 0,
        name: "entry".to_string(),
        created_at: 1,
        updated_at: 1,
        status: 0,
        revision: 1,
        size: (kind == ApiEntryKind::File).then_some(3),
        filled: (kind == ApiEntryKind::File).then_some(3),
        hash: (kind == ApiEntryKind::File).then_some([7; 32]),
        content_type: (kind == ApiEntryKind::File).then_some("text/plain".to_string()),
    }
}

#[test]
fn manifest_entries_convert_and_report_invalid_remote_state() {
    let mut manifest = RemoteManifest::default();
    insert_manifest_entry(
        &mut manifest,
        ManifestEntry { path: "docs".to_string(), entry: api_entry(ApiEntryKind::Folder, 1) },
    );
    insert_manifest_entry(
        &mut manifest,
        ManifestEntry { path: "docs/readme.md".to_string(), entry: api_entry(ApiEntryKind::File, 2) },
    );
    assert_eq!(manifest.entries.get("docs").unwrap().kind, EntryKind::Directory);
    assert_eq!(manifest.entries.get("docs/readme.md").unwrap().hash, Some([7; 32]));

    let mut incomplete = api_entry(ApiEntryKind::File, 3);
    incomplete.filled = Some(2);
    insert_manifest_entry(&mut manifest, ManifestEntry { path: "broken.bin".to_string(), entry: incomplete });
    insert_manifest_entry(
        &mut manifest,
        ManifestEntry { path: "docs".to_string(), entry: api_entry(ApiEntryKind::Folder, 4) },
    );
    assert!(manifest
        .conflicts
        .iter()
        .any(|(path, reason)| path == "broken.bin" && reason.contains("incomplete")));
    assert!(manifest.conflicts.iter().any(|(path, reason)| path == "docs" && reason.contains("duplicate")));
}

#[test]
fn manifests_are_read_page_by_page() {
    let mut scan = ManifestScan::new(5, 0);
    let request = scan.next_request();
    assert_eq!((request.root, request.take, request.cursor.is_none()), (5, Some(1000), true));
    let cursor = SubtreeManifestCursor { revision: 3, stack: Vec::new() };
    let complete = scan
        .accept(SubtreeManifestOutput {
            entries: vec![ManifestEntry { path: "a".to_string(), entry: api_entry(ApiEntryKind::File, 2) }],
            next: Some(cursor.clone()),
            revision: 3,
        })
        .unwrap();
    assert!(!complete);
    assert_eq!(scan.next_request().cursor, Some(cursor.clone()));
    assert!(scan
        .accept(SubtreeManifestOutput { entries: Vec::new(), next: Some(cursor), revision: 3 })
        .is_err());
    let mut scan = ManifestScan::new(5, 0);
    assert!(scan.accept(SubtreeManifestOutput { entries: Vec::new(), next: None, revision: 3 }).unwrap());
}

#[test]
fn manifest_scans_are_repeated_after_conflicts() {
    let conflict = SyncError::Conflict { message: "moved".to_string(), entries: Vec::new() };
    assert!(matches!(
        manifest_scan_failed(1, &conflict),
        ManifestRetry::Again { notice } if notice == "remote manifest changed during scan (moved); retry 1/2"
    ));
    assert!(matches!(manifest_scan_failed(3, &conflict), ManifestRetry::GiveUp { .. }));
    assert!(matches!(
        manifest_scan_failed(1, &SyncError::Internal("x".to_string())),
        ManifestRetry::GiveUp { error } if error == "subtree manifest scan failed: Internal(\"x\")"
    ));
}

fn folder(id: u32, name: &str) -> FolderInfo {
    FolderInfo { id, parent: 0, name: name.to_string(), created_at: 0, updated_at: 0, status: 0, revision: 1 }
}

fn file(id: u32, name: &str, filled: u64) -> FileInfo {
    FileInfo {
        id,
        parent: 0,
        name: name.to_string(),
        content_type: "text/plain".to_string(),
        size: 3,
        filled,
        created_at: 0,
        updated_at: 0,
        chunks: 1,
        status: 0,
        revision: 1,
        generation: 1,
        hash: None,
    }
}

#[test]
fn legacy_listings_visit_every_folder_once() {
    let mut scan = LegacyScan::new(0, 1);
    assert_eq!(scan.next_folder(), Some((0, String::new())));
    scan.add_folder("", folder(1, "docs"));
    scan.add_folder("", folder(1, "again"));
    scan.add_folder("", folder(2, "docs"));
    scan.add_file("", file(7, "a.txt", 2));
    scan.add_file("", file(8, "docs", 3));
    assert_eq!(scan.next_folder(), Some((1, "docs".to_string())));
    scan.add_file("docs", file(9, "b.txt", 3));
    assert_eq!(scan.next_folder(), None);
    assert_eq!(scan.manifest.root_status, 1);
    assert_eq!(scan.manifest.entries.get("docs/b.txt").unwrap().id, 9);
    assert_eq!(scan.manifest.entries.get("docs").unwrap().id, 1);
    assert_eq!(
        scan.manifest.conflicts,
        vec![
            ("again".to_string(), "remote folder cycle or duplicate id 1".to_string()),
            ("docs".to_string(), "duplicate remote name (ids 1 and 2)".to_string()),
            ("a.txt".to_string(), "remote file 7 is incomplete (2/3)".to_string()),
            ("docs".to_string(), "duplicate remote name (ids 1 and 8)".to_string()),
        ]
    );
}

#[test]
fn listings_go_on_behind_the_last_entry() {
    let mut files = Vec::new();
    assert_eq!(file_page(&mut files, vec![file(1, "a", 3), file(4, "b", 3)]), Some(4));
    assert_eq!(file_page(&mut files, Vec::new()), None);
    assert_eq!(files.len(), 2);
    let mut folders = Vec::new();
    assert_eq!(folder_page(&mut folders, vec![folder(3, "x")]), Some(3));
    assert_eq!(folder_page(&mut folders, Vec::new()), None);
    assert_eq!(folders.len(), 1);
}

//! Scanning a bucket folder, by manifest pages or folder by folder.
use std::collections::HashSet;
use std::collections::VecDeque;
use vstd::prelude::*;

use crate::entry::{fault_debug, EntryInfoV2, EntryKind as ApiEntryKind, SyncError, SyncFault};
use crate::file::FileInfo;
use crate::folder::FolderInfo;
use crate::storage::{ManifestEntry, SubtreeManifestCursor, SubtreeManifestInput, SubtreeManifestOutput};
use crate::sync::types::{join_path, joined, EntryKind, RemoteEntry, RemoteManifest};
use crate::text::{cat2, cat3, cat5, cat7, decimal, decimal_text, owned};

verus! {

broadcast use vstd::std_specs::hash::group_hash_axioms;

/// The entries of a manifest page.
pub const MANIFEST_PAGE_SIZE: u16 = 1000;

/// How often a manifest scan is tried.
pub const MANIFEST_SCAN_ATTEMPTS: u8 = 3;

/// The mathematical form of an entry of the bucket.
pub struct RemoteItem {
    pub path: Seq<char>,
    pub id: u32,
    pub parent: u32,
    pub kind: EntryKind,
    pub size: u64,
    pub filled: u64,
    pub hash: Option<[u8; 32]>,
    pub status: i8,
}

impl View for RemoteEntry {
    type V = RemoteItem;

    open spec fn view(&self) -> RemoteItem {
        RemoteItem {
            path: self.path@,
            id: self.id,
            parent: self.parent,
            kind: self.kind,
            size: self.size,
            filled: self.filled,
            hash: self.hash,
            status: self.status,
        }
    }
}

/// The mathematical form of a remote manifest: its entries and its conflicts.
#[verifier::ext_equal]
pub struct RemoteState {
    pub entries: Map<Seq<char>, RemoteItem>,
    pub root_status: i8,
    pub warnings: Seq<Seq<char>>,
    pub conflicts: Seq<(Seq<char>, Seq<char>)>,
}

/// The view of a list of conflicts.
pub open spec fn conflict_views(conflicts: Seq<(String, String)>) -> Seq<(Seq<char>, Seq<char>)> {
    Seq::new(conflicts.len(), |i: int| (conflicts[i].0@, conflicts[i].1@))
}

/// The view of the entries of a manifest.
pub open spec fn entry_views(entries: Map<Seq<char>, RemoteEntry>) -> Map<Seq<char>, RemoteItem> {
    Map::new(|path: Seq<char>| entries.contains_key(path), |path: Seq<char>| entries[path]@)
}

impl View for RemoteManifest {
    type V = RemoteState;

    open spec fn view(&self) -> RemoteState {
        RemoteState {
            entries: entry_views(self.entries@),
            root_status: self.root_status,
            warnings: crate::sync::arrange::views(self.warnings@),
            conflicts: conflict_views(self.conflicts@),
        }
    }
}

impl RemoteState {
    /// The state with one more conflict.
    pub open spec fn with_conflict(self, path: Seq<char>, reason: Seq<char>) -> RemoteState {
        RemoteState { conflicts: self.conflicts.push((path, reason)), ..self }
    }

    /// The state with an entry.
    pub open spec fn with_entry(self, item: RemoteItem) -> RemoteState {
        RemoteState { entries: self.entries.insert(item.path, item), ..self }
    }
}

/// The state of a scan before it has found anything.
pub open spec fn nothing_found(root_status: i8) -> RemoteState {
    RemoteState { entries: Map::empty(), root_status, warnings: Seq::empty(), conflicts: Seq::empty() }
}

/// Why a file is not complete.
pub open spec fn incomplete_reason(id: u32, filled: u64, size: u64) -> Seq<char> {
    "remote file "@ + decimal(id as nat) + " is incomplete ("@ + decimal(filled as nat) + "/"@ + decimal(size as nat)
        + ")"@
}

fn incomplete_text(id: u32, filled: u64, size: u64) -> (r: String)
    ensures
        r@ == incomplete_reason(id, filled, size),
{
    cat7(
        "remote file ",
        decimal_text(id as u64).as_str(),
        " is incomplete (",
        decimal_text(filled).as_str(),
        "/",
        decimal_text(size).as_str(),
        ")",
    )
}

/// Whether a file of a manifest comes without its size.
pub open spec fn lacks_size(entry: EntryInfoV2) -> bool {
    entry.kind is File && (entry.size is None || entry.filled is None)
}

/// The item that an entry of a manifest stands for.
pub open spec fn manifest_item(path: Seq<char>, entry: EntryInfoV2) -> RemoteItem {
    RemoteItem {
        path,
        id: entry.id,
        parent: entry.parent,
        kind: if entry.kind is File { EntryKind::File } else { EntryKind::Directory },
        size: if entry.kind is File { entry.size->0 } else { 0 },
        filled: if entry.kind is File { entry.filled->0 } else { 0 },
        hash: entry.hash,
        status: entry.status,
    }
}

/// The state after one more entry of a manifest.
pub open spec fn manifest_entry_added(state: RemoteState, path: Seq<char>, entry: EntryInfoV2) -> RemoteState {
    if path.len() == 0 {
        state.with_conflict(path, "remote manifest contains an empty path"@)
    } else if lacks_size(entry) {
        state.with_conflict(path, "remote file "@ + decimal(entry.id as nat) + " is missing size metadata"@)
    } else {
        let item = manifest_item(path, entry);
        let noted = if item.kind is File && item.filled != item.size {
            state.with_conflict(path, incomplete_reason(item.id, item.filled, item.size))
        } else {
            state
        };
        if state.entries.contains_key(path) {
            noted.with_conflict(
                path,
                "duplicate remote manifest path (ids "@ + decimal(state.entries[path].id as nat) + " and "@ + decimal(
                    entry.id as nat,
                ) + ")"@,
            )
        } else {
            noted.with_entry(item)
        }
    }
}

fn add_conflict(manifest: &mut RemoteManifest, path: String, reason: String)
    ensures
        final(manifest)@ == old(manifest)@.with_conflict(path@, reason@),
        final(manifest).entries == old(manifest).entries,
{
    let ghost before = manifest@;
    manifest.conflicts.push((path, reason));
    assert(manifest@.conflicts =~= before.conflicts.push((path@, reason@)));
}

fn add_entry(manifest: &mut RemoteManifest, entry: RemoteEntry)
    ensures
        final(manifest)@ == old(manifest)@.with_entry(entry@),
{
    let ghost before = manifest@;
    let path = entry.path.clone();
    manifest.entries.insert(path, entry);
    assert(manifest@.entries =~= before.entries.insert(entry@.path, entry@));
}

/// Takes in one entry of a manifest.
pub fn insert_manifest_entry(manifest: &mut RemoteManifest, item: ManifestEntry)
    ensures
        final(manifest)@ == manifest_entry_added(old(manifest)@, item.path@, item.entry),
{
    let ManifestEntry { path, entry } = item;
    if path.as_str().is_empty() {
        add_conflict(manifest, path, owned("remote manifest contains an empty path"));
        return;
    }
    let (kind, size, filled) = match entry.kind {
        ApiEntryKind::Folder => (EntryKind::Directory, 0u64, 0u64),
        ApiEntryKind::File => match (entry.size, entry.filled) {
            (Some(size), Some(filled)) => (EntryKind::File, size, filled),
            _ => {
                add_conflict(
                    manifest,
                    path,
                    cat3("remote file ", decimal_text(entry.id as u64).as_str(), " is missing size metadata"),
                );
                return;
            },
        },
    };
    let known: Option<u32> = match manifest.entries.get(path.as_str()) {
        Some(existing) => Some(existing.id),
        None => None,
    };
    if kind == EntryKind::File && filled != size {
        add_conflict(manifest, path.clone(), incomplete_text(entry.id, filled, size));
    }
    match known {
        Some(id) => {
            add_conflict(
                manifest,
                path,
                cat5(
                    "duplicate remote manifest path (ids ",
                    decimal_text(id as u64).as_str(),
                    " and ",
                    decimal_text(entry.id as u64).as_str(),
                    ")",
                ),
            );
        },
        None => {
            add_entry(
                manifest,
                RemoteEntry {
                    path,
                    id: entry.id,
                    parent: entry.parent,
                    kind,
                    size,
                    filled,
                    hash: entry.hash,
                    status: entry.status,
                },
            );
        },
    }
}

/// The state after the first entries of a page.
pub open spec fn manifest_entries_added(state: RemoteState, items: Seq<ManifestEntry>) -> RemoteState
    decreases items.len(),
{
    if items.len() == 0 {
        state
    } else {
        manifest_entry_added(
            manifest_entries_added(state, items.drop_last()),
            items.last().path@,
            items.last().entry,
        )
    }
}

/// A scan by manifest pages.
#[derive(Debug)]
pub struct ManifestScan {
    pub root: u32,
    pub manifest: RemoteManifest,
    pub cursor: Option<SubtreeManifestCursor>,
}

impl ManifestScan {
    /// A scan of a folder that has not begun.
    pub fn new(root: u32, root_status: i8) -> (r: ManifestScan)
        ensures
            r.root == root,
            r.manifest@ == nothing_found(root_status),
            r.cursor is None,
    {
        let mut manifest = RemoteManifest::default();
        manifest.root_status = root_status;
        assert(manifest@.entries =~= Map::empty());
        assert(manifest@.warnings =~= Seq::empty());
        assert(manifest@.conflicts =~= Seq::empty());
        ManifestScan { root, manifest, cursor: None }
    }

    /// The request for the next page.
    pub fn next_request(&mut self) -> (r: SubtreeManifestInput)
        ensures
            r.root == old(self).root,
            r.cursor == old(self).cursor,
            r.take == Some(MANIFEST_PAGE_SIZE),
            final(self).root == old(self).root,
            final(self).manifest == old(self).manifest,
            final(self).cursor is None,
    {
        SubtreeManifestInput { root: self.root, cursor: self.cursor.take(), take: Some(MANIFEST_PAGE_SIZE) }
    }

    /// Takes in a page.  Tells whether the scan is complete; a page that is
    /// empty and yet not the last one ends the scan with an error.
    pub fn accept(&mut self, page: SubtreeManifestOutput) -> (r: Result<bool, SyncError>)
        ensures
            final(self).root == old(self).root,
            final(self).manifest@ == manifest_entries_added(old(self).manifest@, page.entries@),
            match r {
                Ok(done) => {
                    &&& done == page.next is None
                    &&& final(self).cursor == page.next
                    &&& page.next is Some ==> page.entries@.len() > 0
                },
                Err(err) => page.next is Some && page.entries@.len() == 0 && err@ == SyncFault::Internal(
                    "subtree manifest returned an empty page with a continuation cursor"@,
                ) && final(self).cursor == old(self).cursor,
            },
    {
        let SubtreeManifestOutput { entries, next, revision: _ } = page;
        let count: usize = entries.len();
        let ghost items = entries@;
        let ghost start = self.manifest@;
        let ghost root = self.root;
        assert(items.take(0) =~= Seq::empty());
        let mut rest = entries;
        let mut stack: Vec<ManifestEntry> = Vec::new();
        while rest.len() > 0
            invariant
                items =~= rest@ + Seq::new(stack@.len(), |i: int| stack@[stack@.len() - 1 - i]),
            decreases rest@.len(),
        {
            let item = rest.pop().unwrap();
            stack.push(item);
        }
        assert(items =~= Seq::new(stack@.len(), |i: int| stack@[stack@.len() - 1 - i]));
        while stack.len() > 0
            invariant
                stack@.len() <= items.len(),
                items.skip(items.len() - stack@.len()) =~= Seq::new(
                    stack@.len(),
                    |i: int| stack@[stack@.len() - 1 - i],
                ),
                self.manifest@ == manifest_entries_added(start, items.take(items.len() - stack@.len())),
                self.root == root,
                self.cursor == old(self).cursor,
            decreases stack@.len(),
        {
            let ghost n = items.len() - stack@.len();
            proof {
                assert(items.skip(n)[0] == stack@[stack@.len() - 1]);
                assert(items.take(n + 1).drop_last() =~= items.take(n));
                assert(items.take(n + 1).last() == items[n]);
            }
            let item = stack.pop().unwrap();
            insert_manifest_entry(&mut self.manifest, item);
            assert(items.skip(n + 1) =~= items.skip(n).drop_first());
        }
        assert(items.take(items.len() as int) =~= items);
        if next.is_some() && count == 0 {
            return Err(
                SyncError::Internal(
                    owned("subtree manifest returned an empty page with a continuation cursor"),
                ),
            );
        }
        self.cursor = next;
        Ok(self.cursor.is_none())
    }
}

/// What to do after a manifest scan failed.
#[derive(Debug)]
pub enum ManifestRetry {
    /// Scan again; the text says why.
    Again { notice: String },
    /// Stop with an error.
    GiveUp { error: String },
}

/// Decides what follows a manifest scan that failed: a scan that the bucket
/// interrupted because its content changed is tried again, as long as attempts
/// are left.
pub fn manifest_scan_failed(attempt: u8, err: &SyncError) -> (r: ManifestRetry)
    requires
        1 <= attempt <= MANIFEST_SCAN_ATTEMPTS,
    ensures
        match r {
            ManifestRetry::Again { notice } => {
                &&& attempt < MANIFEST_SCAN_ATTEMPTS
                &&& err@ matches SyncFault::Conflict { message, .. }
                &&& notice@ == "remote manifest changed during scan ("@ + message + "); retry "@ + decimal(
                    attempt as nat,
                ) + "/2"@
            },
            ManifestRetry::GiveUp { error } => {
                &&& !(attempt < MANIFEST_SCAN_ATTEMPTS && err@ is Conflict)
                &&& error@ == "subtree manifest scan failed: "@ + fault_debug(err@)
            },
        },
{
    if attempt < MANIFEST_SCAN_ATTEMPTS {
        if let SyncError::Conflict { message, .. } = err {
            return ManifestRetry::Again {
                notice: cat5(
                    "remote manifest changed during scan (",
                    message.as_str(),
                    "); retry ",
                    decimal_text(attempt as u64).as_str(),
                    "/2",
                ),
            };
        }
    }
    ManifestRetry::GiveUp { error: cat2("subtree manifest scan failed: ", err.debug_form().as_str()) }
}

/// Why two entries with one path are a conflict.
pub open spec fn duplicate_reason(known: u32, id: u32) -> Seq<char> {
    "duplicate remote name (ids "@ + decimal(known as nat) + " and "@ + decimal(id as nat) + ")"@
}

fn duplicate_text(known: u32, id: u32) -> (r: String)
    ensures
        r@ == duplicate_reason(known, id),
{
    cat5(
        "duplicate remote name (ids ",
        decimal_text(known as u64).as_str(),
        " and ",
        decimal_text(id as u64).as_str(),
        ")",
    )
}

/// A scan folder by folder.
#[derive(Debug)]
pub struct LegacyScan {
    pub manifest: RemoteManifest,
    queue: VecDeque<(u32, String)>,
    visited: HashSet<u32>,
}

/// The mathematical form of a scan: what was found, the folders that are still
/// to be listed, and all folders that were ever to be listed.
#[verifier::ext_equal]
pub struct ScanState {
    pub found: RemoteState,
    pub queue: Seq<(u32, Seq<char>)>,
    pub visited: Set<u32>,
}

impl View for LegacyScan {
    type V = ScanState;

    closed spec fn view(&self) -> ScanState {
        ScanState {
            found: self.manifest@,
            queue: Seq::new(self.queue@.len(), |i: int| (self.queue@[i].0, self.queue@[i].1@)),
            visited: self.visited@,
        }
    }
}

impl ScanState {
    /// No folder waits twice, and every folder that waits counts as visited.
    pub open spec fn sound(self) -> bool {
        &&& forall|i: int| 0 <= i < self.queue.len() ==> self.visited.contains((#[trigger] self.queue[i]).0)
        &&& forall|i: int, j: int|
            0 <= i < j < self.queue.len() ==> (#[trigger] self.queue[i]).0 != (#[trigger] self.queue[j]).0
    }
}

/// The scan after a folder was found in the folder with path `parent`.
pub open spec fn folder_found(state: ScanState, parent: Seq<char>, folder: FolderInfo) -> ScanState {
    let path = joined(parent, folder.name@);
    if state.found.entries.contains_key(path) {
        ScanState {
            found: state.found.with_conflict(path, duplicate_reason(state.found.entries[path].id, folder.id)),
            ..state
        }
    } else {
        let found = state.found.with_entry(
            RemoteItem {
                path,
                id: folder.id,
                parent: folder.parent,
                kind: EntryKind::Directory,
                size: 0,
                filled: 0,
                hash: None,
                status: folder.status,
            },
        );
        if state.visited.contains(folder.id) {
            ScanState {
                found: found.with_conflict(
                    path,
                    "remote folder cycle or duplicate id "@ + decimal(folder.id as nat),
                ),
                ..state
            }
        } else {
            ScanState {
                found,
                queue: state.queue.push((folder.id, path)),
                visited: state.visited.insert(folder.id),
            }
        }
    }
}

/// The scan after a file was found in the folder with path `parent`.
pub open spec fn file_found(state: ScanState, parent: Seq<char>, file: FileInfo) -> ScanState {
    let path = joined(parent, file.name@);
    if state.found.entries.contains_key(path) {
        ScanState {
            found: state.found.with_conflict(path, duplicate_reason(state.found.entries[path].id, file.id)),
            ..state
        }
    } else {
        let noted = if file.filled != file.size {
            state.found.with_conflict(path, incomplete_reason(file.id, file.filled, file.size))
        } else {
            state.found
        };
        ScanState {
            found: noted.with_entry(
                RemoteItem {
                    path,
                    id: file.id,
                    parent: file.parent,
                    kind: EntryKind::File,
                    size: file.size,
                    filled: file.filled,
                    hash: file.hash,
                    status: file.status,
                },
            ),
            ..state
        }
    }
}

impl LegacyScan {
    /// A scan of a folder that has not begun.
    pub fn new(remote_parent: u32, root_status: i8) -> (r: LegacyScan)
        ensures
            r@.found == nothing_found(root_status),
            r@.queue == seq![(remote_parent, Seq::<char>::empty())],
            r@.visited == set![remote_parent],
            r@.sound(),
    {
        let mut manifest = RemoteManifest::default();
        manifest.root_status = root_status;
        assert(manifest@.entries =~= Map::empty());
        assert(manifest@.warnings =~= Seq::empty());
        assert(manifest@.conflicts =~= Seq::empty());
        let mut queue: VecDeque<(u32, String)> = VecDeque::new();
        queue.push_back((remote_parent, String::new()));
        let mut visited: HashSet<u32> = HashSet::new();
        visited.insert(remote_parent);
        let r = LegacyScan { manifest, queue, visited };
        assert(r@.queue =~= seq![(remote_parent, Seq::<char>::empty())]);
        assert(r@.visited =~= set![remote_parent]);
        r
    }

    /// The folder to list next, with its path; none once the scan is complete.
    pub fn next_folder(&mut self) -> (r: Option<(u32, String)>)
        ensures
            final(self)@.found == old(self)@.found,
            final(self)@.visited == old(self)@.visited,
            r is None == (old(self)@.queue.len() == 0),
            match r {
                Some((id, path)) => old(self)@.queue[0] == (id, path@) && final(self)@.queue
                    == old(self)@.queue.drop_first(),
                None => final(self)@.queue == old(self)@.queue,
            },
            old(self)@.sound() ==> final(self)@.sound(),
    {
        let ghost before = self@;
        let r = self.queue.pop_front();
        proof {
            if r is Some {
                assert(self@.queue =~= before.queue.drop_first());
            } else {
                assert(self@.queue =~= before.queue);
            }
        }
        r
    }

    /// Takes in a folder that was listed in the folder with path `parent_path`.
    pub fn add_folder(&mut self, parent_path: &str, folder: FolderInfo)
        ensures
            final(self)@ == folder_found(old(self)@, parent_path@, folder),
            old(self)@.sound() ==> final(self)@.sound(),
    {
        let ghost before = self@;
        let path = join_path(parent_path, folder.name.as_str());
        if let Some(existing) = self.manifest.entries.get(path.as_str()) {
            let reason = duplicate_text(existing.id, folder.id);
            add_conflict(&mut self.manifest, path, reason);
            assert(self@ =~= folder_found(before, parent_path@, folder));
            return;
        }
        add_entry(
            &mut self.manifest,
            RemoteEntry {
                path: path.clone(),
                id: folder.id,
                parent: folder.parent,
                kind: EntryKind::Directory,
                size: 0,
                filled: 0,
                hash: None,
                status: folder.status,
            },
        );
        if !self.visited.insert(folder.id) {
            add_conflict(
                &mut self.manifest,
                path,
                cat2("remote folder cycle or duplicate id ", decimal_text(folder.id as u64).as_str()),
            );
            assert(self@.visited =~= before.visited);
            assert(self@ =~= folder_found(before, parent_path@, folder));
            return;
        }
        let ghost waiting = path@;
        self.queue.push_back((folder.id, path));
        assert(self@.queue =~= before.queue.push((folder.id, waiting)));
        assert(self@ =~= folder_found(before, parent_path@, folder));
    }

    /// Takes in a file that was listed in the folder with path `parent_path`.
    pub fn add_file(&mut self, parent_path: &str, file: FileInfo)
        ensures
            final(self)@ == file_found(old(self)@, parent_path@, file),
            old(self)@.sound() ==> final(self)@.sound(),
    {
        let ghost before = self@;
        let path = join_path(parent_path, file.name.as_str());
        if let Some(existing) = self.manifest.entries.get(path.as_str()) {
            let reason = duplicate_text(existing.id, file.id);
            add_conflict(&mut self.manifest, path, reason);
            assert(self@ =~= file_found(before, parent_path@, file));
            return;
        }
        if file.filled != file.size {
            add_conflict(&mut self.manifest, path.clone(), incomplete_text(file.id, file.filled, file.size));
        }
        add_entry(
            &mut self.manifest,
            RemoteEntry {
                path,
                id: file.id,
                parent: file.parent,
                kind: EntryKind::File,
                size: file.size,
                filled: file.filled,
                hash: file.hash,
                status: file.status,
            },
        );
        assert(self@ =~= file_found(before, parent_path@, file));
    }
}

/// No folder is listed twice: once a folder has been taken from the queue, it
/// is visited and does not wait again, and no folder that is found later makes
/// it wait.
pub proof fn law_no_folder_is_listed_twice(state: ScanState, id: u32, parent: Seq<char>, folder: FolderInfo, file: FileInfo)
    requires
        state.visited.contains(id),
        forall|i: int| 0 <= i < state.queue.len() ==> (#[trigger] state.queue[i]).0 != id,
    ensures
        folder_found(state, parent, folder).visited.contains(id),
        file_found(state, parent, file).visited.contains(id),
        forall|i: int|
            0 <= i < folder_found(state, parent, folder).queue.len() ==> (#[trigger] folder_found(
                state,
                parent,
                folder,
            ).queue[i]).0 != id,
        forall|i: int|
            0 <= i < file_found(state, parent, file).queue.len() ==> (#[trigger] file_found(
                state,
                parent,
                file,
            ).queue[i]).0 != id,
{
}

/// A path that was found keeps its first entry: later entries of the same path
/// are conflicts.
pub proof fn law_first_entry_of_a_path_stays(state: RemoteState, path: Seq<char>, other: Seq<char>, entry: EntryInfoV2)
    requires
        state.entries.contains_key(path),
    ensures
        manifest_entry_added(state, other, entry).entries.contains_key(path),
        manifest_entry_added(state, other, entry).entries[path] == state.entries[path],
        other == path ==> manifest_entry_added(state, other, entry).conflicts.len() > state.conflicts.len(),
{
}

/// Adds a page of files to those listed before.  Gives the file behind which
/// the next page begins, and nothing where the listing is complete.
pub fn file_page(listed: &mut Vec<FileInfo>, page: Vec<FileInfo>) -> (r: Option<u32>)
    ensures
        final(listed)@ == old(listed)@ + page@,
        r == if page@.len() == 0 { None::<u32> } else { Some(page@.last().id) },
{
    let n: usize = page.len();
    let last: Option<u32> = if n == 0 { None } else { Some(page[n - 1].id) };
    let mut page = page;
    listed.append(&mut page);
    last
}

/// Adds a page of folders to those listed before.  Gives the folder behind
/// which the next page begins, and nothing where the listing is complete.
pub fn folder_page(listed: &mut Vec<FolderInfo>, page: Vec<FolderInfo>) -> (r: Option<u32>)
    ensures
        final(listed)@ == old(listed)@ + page@,
        r == if page@.len() == 0 { None::<u32> } else { Some(page@.last().id) },
{
    let n: usize = page.len();
    let last: Option<u32> = if n == 0 { None } else { Some(page[n - 1].id) };
    let mut page = page;
    listed.append(&mut page);
    last
}

/// A complete entry of a manifest is found as the bucket describes it, under
/// its path, and is no conflict.
pub proof fn law_manifest_entries_are_found_as_described(state: RemoteState, path: Seq<char>, entry: EntryInfoV2)
    requires
        path.len() > 0,
        !state.entries.contains_key(path),
        entry.kind is File ==> entry.size is Some && entry.filled == entry.size,
    ensures
        ({
            let next = manifest_entry_added(state, path, entry);
            &&& next.conflicts == state.conflicts
            &&& next.warnings == state.warnings
            &&& next.root_status == state.root_status
            &&& next.entries.contains_key(path)
            &&& next.entries[path].path == path
            &&& next.entries[path].id == entry.id
            &&& next.entries[path].parent == entry.parent
            &&& next.entries[path].status == entry.status
            &&& next.entries[path].hash == entry.hash
            &&& next.entries[path].kind is File == entry.kind is File
            &&& entry.kind is File ==> next.entries[path].size == entry.size->0 && next.entries[path].filled
                == entry.filled->0
            &&& entry.kind is Folder ==> next.entries[path].size == 0 && next.entries[path].filled == 0
            &&& forall|other: Seq<char>|
                other != path ==> (next.entries.contains_key(other) <==> #[trigger] state.entries.contains_key(other))
                    && (state.entries.contains_key(other) ==> next.entries[other] == state.entries[other])
        }),
{
}

/// An entry that cannot be used as it is is a conflict of its path: one without
/// a path, a file of unknown size, a file that is not complete, and one whose
/// path is taken.
pub proof fn law_unusable_manifest_entries_are_conflicts(state: RemoteState, path: Seq<char>, entry: EntryInfoV2)
    requires
        path.len() == 0 || state.entries.contains_key(path) || (entry.kind is File && (entry.size is None || entry.filled
            is None || entry.filled != entry.size)),
    ensures
        ({
            let next = manifest_entry_added(state, path, entry);
            &&& next.conflicts.len() > state.conflicts.len()
            &&& next.conflicts.take(state.conflicts.len() as int) == state.conflicts
            &&& next.conflicts.last().0 == path
        }),
{
    let next = manifest_entry_added(state, path, entry);
    assert(next.conflicts.take(state.conflicts.len() as int) =~= state.conflicts);
}

/// Every entry of a page that has a path and, for a file, a size is found.
pub proof fn law_pages_are_taken_in_whole(state: RemoteState, items: Seq<ManifestEntry>, i: int)
    requires
        0 <= i < items.len(),
        items[i].path@.len() > 0,
        items[i].entry.kind is File ==> items[i].entry.size is Some && items[i].entry.filled is Some,
    ensures
        manifest_entries_added(state, items).entries.contains_key(items[i].path@),
    decreases items.len(),
{
    let before = manifest_entries_added(state, items.drop_last());
    if i < items.len() - 1 {
        law_pages_are_taken_in_whole(state, items.drop_last(), i);
        law_first_entry_of_a_path_stays(before, items[i].path@, items.last().path@, items.last().entry);
    }
}

/// A folder that is listed is found as the bucket describes it, under its name
/// in the folder that was listed, and is itself listed later unless it was
/// already.
pub proof fn law_listed_folders_are_found_as_described(state: ScanState, parent: Seq<char>, folder: FolderInfo)
    requires
        !state.found.entries.contains_key(joined(parent, folder.name@)),
    ensures
        ({
            let path = joined(parent, folder.name@);
            let next = folder_found(state, parent, folder);
            &&& next.found.entries.contains_key(path)
            &&& next.found.entries[path].path == path
            &&& next.found.entries[path].id == folder.id
            &&& next.found.entries[path].parent == folder.parent
            &&& next.found.entries[path].kind is Directory
            &&& next.found.entries[path].status == folder.status
            &&& next.found.entries[path].hash is None
            &&& next.visited.contains(folder.id)
            &&& if state.visited.contains(folder.id) {
                next.queue == state.queue && next.found.conflicts.len() == state.found.conflicts.len() + 1
                    && next.found.conflicts.last().0 == path
            } else {
                next.queue == state.queue.push((folder.id, path)) && next.found.conflicts == state.found.conflicts
            }
        }),
{
}

/// A file that is listed is found as the bucket describes it, under its name in
/// the folder that was listed; one that is not complete is a conflict too.
pub proof fn law_listed_files_are_found_as_described(state: ScanState, parent: Seq<char>, file: FileInfo)
    requires
        !state.found.entries.contains_key(joined(parent, file.name@)),
    ensures
        ({
            let path = joined(parent, file.name@);
            let next = file_found(state, parent, file);
            &&& next.queue == state.queue
            &&& next.visited == state.visited
            &&& next.found.entries.contains_key(path)
            &&& next.found.entries[path].path == path
            &&& next.found.entries[path].id == file.id
            &&& next.found.entries[path].parent == file.parent
            &&& next.found.entries[path].kind is File
            &&& next.found.entries[path].size == file.size
            &&& next.found.entries[path].filled == file.filled
            &&& next.found.entries[path].hash == file.hash
            &&& next.found.entries[path].status == file.status
            &&& if file.filled == file.size {
                next.found.conflicts == state.found.conflicts
            } else {
                next.found.conflicts.len() == state.found.conflicts.len() + 1 && next.found.conflicts.last().0 == path
            }
        }),
{
}

/// Two entries of one name in a folder are a conflict, and the first one stays.
pub proof fn law_duplicate_names_are_conflicts(
    state: ScanState,
    parent: Seq<char>,
    folder: FolderInfo,
    file: FileInfo,
)
    ensures
        state.found.entries.contains_key(joined(parent, folder.name@)) ==> {
            let next = folder_found(state, parent, folder);
            &&& next.found.entries == state.found.entries
            &&& next.queue == state.queue
            &&& next.found.conflicts.len() == state.found.conflicts.len() + 1
            &&& next.found.conflicts.last().0 == joined(parent, folder.name@)
        },
        state.found.entries.contains_key(joined(parent, file.name@)) ==> {
            let next = file_found(state, parent, file);
            &&& next.found.entries == state.found.entries
            &&& next.found.conflicts.len() == state.found.conflicts.len() + 1
            &&& next.found.conflicts.last().0 == joined(parent, file.name@)
        },
{
}

/// What a scan has found is seen as it is stored.
pub proof fn law_found_entries_are_seen_as_stored(entry: RemoteEntry)
    ensures
        entry@.path == entry.path@,
        entry@.id == entry.id,
        entry@.parent == entry.parent,
        entry@.kind == entry.kind,
        entry@.size == entry.size,
        entry@.filled == entry.filled,
        entry@.hash == entry.hash,
        entry@.status == entry.status,
{
}

/// A folder has no size, and what is told of an entry that is in the way names
/// both entries, the one that was found first in front.
pub proof fn law_conflicts_of_a_listing_tell_their_reason(
    state: ScanState,
    parent: Seq<char>,
    folder: FolderInfo,
    file: FileInfo,
)
    ensures
        ({
            let path = joined(parent, folder.name@);
            let next = folder_found(state, parent, folder);
            if state.found.entries.contains_key(path) {
                next.found.conflicts.last() == (
                    path,
                    "duplicate remote name (ids "@ + decimal(state.found.entries[path].id as nat) + " and "@ + decimal(
                        folder.id as nat,
                    ) + ")"@,
                )
            } else {
                &&& next.found.entries[path].size == 0
                &&& next.found.entries[path].filled == 0
                &&& state.visited.contains(folder.id) ==> next.found.conflicts.last() == (
                    path,
                    "remote folder cycle or duplicate id "@ + decimal(folder.id as nat),
                )
            }
        }),
        ({
            let path = joined(parent, file.name@);
            let next = file_found(state, parent, file);
            if state.found.entries.contains_key(path) {
                next.found.conflicts.last() == (
                    path,
                    "duplicate remote name (ids "@ + decimal(state.found.entries[path].id as nat) + " and "@ + decimal(
                        file.id as nat,
                    ) + ")"@,
                )
            } else {
                file.filled != file.size ==> next.found.conflicts.last() == (
                    path,
                    "remote file "@ + decimal(file.id as nat) + " is incomplete ("@ + decimal(file.filled as nat) + "/"@
                        + decimal(file.size as nat) + ")"@,
                )
            }
        }),
        folder_found(state, parent, folder).found.warnings == state.found.warnings,
        file_found(state, parent, file).found.warnings == state.found.warnings,
        folder_found(state, parent, folder).found.root_status == state.found.root_status,
        file_found(state, parent, file).found.root_status == state.found.root_status,
{
}

/// What is told of an entry of a manifest that is in the way names it, and the
/// entry that was found first.
pub proof fn law_conflicts_of_a_manifest_tell_their_reason(state: RemoteState, path: Seq<char>, entry: EntryInfoV2, root_status: i8)
    ensures
        ({
            let next = manifest_entry_added(state, path, entry);
            let unknown = entry.kind is File && (entry.size is None || entry.filled is None);
            &&& path.len() == 0 ==> next.conflicts.last() == (path, "remote manifest contains an empty path"@)
                && next.entries == state.entries
            &&& path.len() > 0 && unknown ==> next.conflicts.last() == (
                path,
                "remote file "@ + decimal(entry.id as nat) + " is missing size metadata"@,
            ) && next.entries == state.entries
            &&& path.len() > 0 && !unknown && state.entries.contains_key(path) ==> next.conflicts.last() == (
                path,
                "duplicate remote manifest path (ids "@ + decimal(state.entries[path].id as nat) + " and "@ + decimal(
                    entry.id as nat,
                ) + ")"@,
            ) && next.entries == state.entries
            &&& path.len() > 0 && !unknown && !state.entries.contains_key(path) && entry.kind is File && entry.filled
                != entry.size ==> next.conflicts.last() == (
                path,
                "remote file "@ + decimal(entry.id as nat) + " is incomplete ("@ + decimal(entry.filled->0 as nat) + "/"@
                    + decimal(entry.size->0 as nat) + ")"@,
            ) && next.entries.contains_key(path)
        }),
        nothing_found(root_status).entries == Map::<Seq<char>, RemoteItem>::empty(),
        nothing_found(root_status).root_status == root_status,
        nothing_found(root_status).warnings.len() == 0,
        nothing_found(root_status).conflicts.len() == 0,
{
}

/// What was found is seen entry by entry and conflict by conflict, as it is.
pub proof fn law_manifests_are_seen_as_they_are(manifest: &RemoteManifest, path: Seq<char>, i: int)
    ensures
        manifest@.entries.contains_key(path) <==> manifest.entries@.contains_key(path),
        manifest.entries@.contains_key(path) ==> manifest@.entries[path] == manifest.entries@[path]@,
        manifest@.root_status == manifest.root_status,
        manifest@.warnings == crate::sync::arrange::views(manifest.warnings@),
        manifest@.conflicts.len() == manifest.conflicts@.len(),
        0 <= i < manifest.conflicts@.len() ==> manifest@.conflicts[i] == (
            manifest.conflicts@[i].0@,
            manifest.conflicts@[i].1@,
        ),
{
}

} // verus!

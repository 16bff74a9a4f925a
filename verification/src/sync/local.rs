//! Scanning the local tree: which entries count, and which files have to be
//! hashed again.
use vstd::prelude::*;

use crate::file::{valid_file_name, valid_name};
use crate::ordered::PathMap;
use crate::outside::{
    digest_of, hex_bytes, decode_hex, hex_encode, hex_text, is_hex, set_patterns, sha3_256, text_from_utf8,
};
use crate::sync::arrange::{arrange, arrangement_of, views, Arranged, SortKey};
use crate::sync::excludes::{compile_excludes, entry_excluded, excludes_error, is_entry_excluded};
use crate::sync::tree::{
    hashes_found, law_advancing_keeps_scans_sound, law_advancing_misses_nothing, law_entries_are_not_missed,
    law_entries_keep_scans_sound, law_finished_scans_found_a_whole_tree, law_hashed_files_are_not_missed,
    law_hashes_keep_scans_sound, law_listings_keep_scans_sound, law_listings_miss_nothing,
    law_rechecked_files_are_not_missed, law_rechecks_keep_scans_sound, law_refusing_links_keeps_scans_sound,
    law_scans_start_sound, law_scans_start_with_nothing_missed, listed_once, nothing_missed, scan_sound, whole_tree,
};
use crate::sync::types::{
    depth_of, join_path, joined, path_depth, EntryKind, LocalEntry, LocalManifest,
};
use crate::text::{bytes_before, cat2, cat4, cat6, decimal, decimal_size, decimal_text, utf8};

verus! {

/// The version of the hash cache.
pub const HASH_CACHE_VERSION: u8 = 1;

/// A hash that was computed before, and what the file was like then.
#[derive(Clone, Debug)]
pub struct CachedHash {
    pub size: u64,
    pub modified_secs: u64,
    pub modified_nanos: u32,
    pub hash: String,
}

/// The mathematical form of a cached hash.
pub struct KnownHash {
    pub size: u64,
    pub modified_secs: u64,
    pub modified_nanos: u32,
    pub hash: Seq<char>,
}

impl View for CachedHash {
    type V = KnownHash;

    open spec fn view(&self) -> KnownHash {
        KnownHash {
            size: self.size,
            modified_secs: self.modified_secs,
            modified_nanos: self.modified_nanos,
            hash: self.hash@,
        }
    }
}

/// The hashes of an earlier scan.
#[derive(Debug)]
pub struct HashCache {
    pub version: u8,
    pub entries: PathMap<CachedHash>,
}

impl Default for HashCache {
    fn default() -> (r: Self)
        ensures
            r.version == 0,
            r.entries@ == Map::<Seq<char>, CachedHash>::empty(),
    {
        HashCache { version: 0, entries: PathMap::new() }
    }
}

/// What was found at the place of the hash cache.
#[derive(Debug)]
pub enum SavedCache {
    /// There is no cache.
    Missing,
    /// The file could not be read; its path in debug notation, and the error.
    Unreadable { path: String, error: String },
    /// The file holds no cache; its path in debug notation, and the error.
    Invalid { path: String, error: String },
    /// The cache, and the path of its file in debug notation.
    Loaded { path: String, cache: HashCache },
}

/// The cache to use, and what to tell about one that is not used.
pub fn usable_cache(saved: SavedCache) -> (r: (HashCache, Option<String>))
    ensures
        r.0.version == known_version(Some(saved)),
        match saved {
            SavedCache::Missing => r.0.entries@ == Map::<Seq<char>, CachedHash>::empty() && r.1 is None,
            SavedCache::Unreadable { path, error } => r.0.entries@ == Map::<Seq<char>, CachedHash>::empty()
                && r.1 is Some && r.1->0@ == "ignored unreadable hash cache "@ + path@ + ": "@ + error@,
            SavedCache::Invalid { path, error } => r.0.entries@ == Map::<Seq<char>, CachedHash>::empty() && r.1 is Some
                && r.1->0@ == "ignored invalid hash cache "@ + path@ + ": "@ + error@,
            SavedCache::Loaded { path, cache } => if cache.version == HASH_CACHE_VERSION {
                r.0 == cache && r.1 is None
            } else {
                r.0.entries@ == Map::<Seq<char>, CachedHash>::empty() && r.1 is Some && r.1->0@
                    == "ignored unsupported hash cache version at "@ + path@
            },
        },
{
    match saved {
        SavedCache::Missing => (HashCache::default(), None),
        SavedCache::Unreadable { path, error } => (
            HashCache::default(),
            Some(cat4("ignored unreadable hash cache ", path.as_str(), ": ", error.as_str())),
        ),
        SavedCache::Invalid { path, error } => (
            HashCache::default(),
            Some(cat4("ignored invalid hash cache ", path.as_str(), ": ", error.as_str())),
        ),
        SavedCache::Loaded { path, cache } => {
            if cache.version == HASH_CACHE_VERSION {
                (cache, None)
            } else {
                (HashCache::default(), Some(cat2("ignored unsupported hash cache version at ", path.as_str())))
            }
        },
    }
}

/// The name of the file that holds the hash cache of a directory.
pub fn hash_cache_file_name(root: &str) -> (r: String)
    ensures
        r@ == hex_text(sha3_256(utf8(root@))) + ".json"@,
{
    let digest = digest_of(root.as_bytes());
    cat2(hex_encode(digest.as_slice()).as_str(), ".json")
}

/// The digest that a text is the hexadecimal notation of, if it is that of one.
pub open spec fn digest_from(text: Seq<char>) -> Option<Seq<u8>> {
    if is_hex(utf8(text)) && hex_bytes(utf8(text)).len() == 32 {
        Some(hex_bytes(utf8(text)))
    } else {
        None
    }
}

/// A digest from thirty-two bytes.
pub fn digest_of_bytes(bytes: &[u8]) -> (r: Option<[u8; 32]>)
    ensures
        r is Some == (bytes@.len() == 32),
        r matches Some(digest) ==> digest@ == bytes@,
{
    if bytes.len() != 32 {
        return None;
    }
    let mut digest = [0u8; 32];
    for i in 0..32
        invariant
            bytes@.len() == 32,
            forall|j: int| 0 <= j < i ==> digest@[j] == bytes@[j],
    {
        digest[i] = bytes[i];
    }
    assert(digest@ =~= bytes@);
    Some(digest)
}

/// The digest that a text is the hexadecimal notation of, if it is that of one.
pub fn decode_hash(value: &str) -> (r: Option<[u8; 32]>)
    ensures
        r is Some == digest_from(value@) is Some,
        r matches Some(digest) ==> digest_from(value@) == Some(digest@),
{
    match decode_hex(value) {
        Ok(bytes) => digest_of_bytes(bytes.as_slice()),
        Err(_) => None,
    }
}

/// A cached hash is read back as it was written.
pub proof fn law_cached_digests_are_read_back(digest: Seq<u8>)
    requires
        digest.len() == 32,
    ensures
        digest_from(hex_text(digest)) == Some(digest),
{
    crate::outside::law_hex_round_trip(digest);
}

/// When a file was changed, as seconds and nanoseconds after or before the
/// epoch.
#[derive(Clone, Copy, Debug, PartialEq, Eq, Structural)]
pub struct FileTime {
    pub before_epoch: bool,
    pub secs: u64,
    pub nanos: u32,
}

/// What the system tells about a file.
#[derive(Clone, Copy, Debug, PartialEq, Eq, Structural)]
pub struct FileStat {
    pub size: u64,
    pub modified: Option<FileTime>,
}

/// The time that a file is cached under, if it has one.
pub open spec fn cache_time(stat: FileStat) -> Option<FileTime> {
    if stat.modified is Some && !stat.modified->0.before_epoch {
        stat.modified
    } else {
        None
    }
}

/// The hash that the cache has for a file as it is, if it has one.
pub open spec fn cached_digest(cache: Map<Seq<char>, CachedHash>, path: Seq<char>, stat: FileStat) -> Option<Seq<u8>> {
    match cache_time(stat) {
        Some(time) => if cache.contains_key(path) && cache[path].size == stat.size && cache[path].modified_secs
            == time.secs && cache[path].modified_nanos == time.nanos {
            digest_from(cache[path].hash@)
        } else {
            None
        },
        None => None,
    }
}

fn find_cached(cache: &HashCache, path: &str, stat: &FileStat) -> (r: Option<[u8; 32]>)
    ensures
        r is Some == cached_digest(cache.entries@, path@, *stat) is Some,
        r matches Some(digest) ==> cached_digest(cache.entries@, path@, *stat) == Some(digest@),
{
    match stat.modified {
        Some(time) => {
            if time.before_epoch {
                return None;
            }
            match cache.entries.get(path) {
                Some(cached) => {
                    if cached.size == stat.size && cached.modified_secs == time.secs && cached.modified_nanos
                        == time.nanos {
                        decode_hash(cached.hash.as_str())
                    } else {
                        None
                    }
                },
                None => None,
            }
        },
        None => None,
    }
}

/// The limits that a scan keeps.
#[derive(Clone, Copy, Debug, PartialEq, Eq, Structural)]
pub struct ScanLimits {
    pub max_file_size: u64,
    pub max_folder_depth: usize,
    pub parent_depth: usize,
    pub max_children: usize,
}

/// A name as a directory lists it: its bytes, and the whole path in debug
/// notation.
#[derive(Debug)]
pub struct ListedName {
    pub bytes: Vec<u8>,
    pub shown: String,
}

/// The mathematical form of a listed name.
pub struct NameView {
    pub bytes: Seq<u8>,
    pub shown: Seq<char>,
}

impl View for ListedName {
    type V = NameView;

    open spec fn view(&self) -> NameView {
        NameView { bytes: self.bytes@, shown: self.shown@ }
    }
}

impl Arranged for ListedName {
    /// Names come in the order of their bytes.
    open spec fn sort_key(view: NameView) -> SortKey {
        SortKey { rank: 0, depth: 0, path: view.bytes }
    }

    fn comes_before(&self, other: &Self) -> (r: bool) {
        bytes_before(self.bytes.as_slice(), other.bytes.as_slice())
    }
}

/// What an entry of a directory is.
#[derive(Clone, Copy, Debug, PartialEq, Eq, Structural)]
pub enum EntryState {
    Symlink,
    Directory,
    File { stat: FileStat },
    Other,
}

/// A directory that is being scanned: its path, the names that are left, the
/// last one first, and how many of its entries count.
#[derive(Debug)]
pub struct ScanFrame {
    pub path: String,
    pub names: Vec<ListedName>,
    pub children: usize,
}

/// Where a scan is.
#[derive(Debug)]
pub enum ScanPhase {
    /// Waiting for the names of a directory.
    Listing { path: String },
    /// Going on with the next name.
    Walking,
    /// Waiting for what an entry is.
    Inspecting { path: String },
    /// Waiting for the hash of a file.
    Hashing { path: String, stat: FileStat },
    /// Waiting for what a file is like after it was hashed.
    Rechecking { path: String, stat: FileStat, hash: [u8; 32] },
    /// Done.
    Finished,
}

/// The mathematical form of where a scan is.
pub enum PhaseView {
    Listing { path: Seq<char> },
    Walking,
    Inspecting { path: Seq<char> },
    Hashing { path: Seq<char>, stat: FileStat },
    Rechecking { path: Seq<char>, stat: FileStat, hash: [u8; 32] },
    Finished,
}

impl View for ScanPhase {
    type V = PhaseView;

    open spec fn view(&self) -> PhaseView {
        match *self {
            ScanPhase::Listing { path } => PhaseView::Listing { path: path@ },
            ScanPhase::Walking => PhaseView::Walking,
            ScanPhase::Inspecting { path } => PhaseView::Inspecting { path: path@ },
            ScanPhase::Hashing { path, stat } => PhaseView::Hashing { path: path@, stat },
            ScanPhase::Rechecking { path, stat, hash } => PhaseView::Rechecking { path: path@, stat, hash },
            ScanPhase::Finished => PhaseView::Finished,
        }
    }
}

/// The mathematical form of an entry that was found.
pub struct LocalItem {
    pub path: Seq<char>,
    pub kind: EntryKind,
    pub size: u64,
    pub hash: Option<[u8; 32]>,
}

impl View for LocalEntry {
    type V = LocalItem;

    open spec fn view(&self) -> LocalItem {
        LocalItem { path: self.path@, kind: self.kind, size: self.size, hash: self.hash }
    }
}

/// The mathematical form of a local manifest.
#[verifier::ext_equal]
pub struct LocalState {
    pub entries: Map<Seq<char>, LocalItem>,
    pub protected: Set<Seq<char>>,
    pub warnings: Seq<Seq<char>>,
    pub cache_hits: int,
    pub hashed_files: int,
}

/// The view of the entries of a map of paths.
pub open spec fn map_views<V: View>(entries: Map<Seq<char>, V>) -> Map<Seq<char>, V::V> {
    Map::new(|path: Seq<char>| entries.contains_key(path), |path: Seq<char>| entries[path]@)
}

impl View for LocalManifest {
    type V = LocalState;

    open spec fn view(&self) -> LocalState {
        LocalState {
            entries: map_views(self.entries@),
            protected: self.protected_paths@,
            warnings: views(self.warnings@),
            cache_hits: self.cache_hits as int,
            hashed_files: self.hashed_files as int,
        }
    }
}

impl LocalState {
    /// The state with a path that is left alone.
    pub open spec fn with_protected(self, path: Seq<char>) -> LocalState {
        LocalState { protected: self.protected.insert(path), ..self }
    }

    /// The state with one more warning.
    pub open spec fn with_warning(self, text: Seq<char>) -> LocalState {
        LocalState { warnings: self.warnings.push(text), ..self }
    }

    /// The state with an entry.
    pub open spec fn with_entry(self, item: LocalItem) -> LocalState {
        LocalState { entries: self.entries.insert(item.path, item), ..self }
    }
}

/// The mathematical form of a directory that is being scanned: its path, the
/// names that are left, and how many of its entries count.
pub struct FrameView {
    pub path: Seq<char>,
    pub names: Seq<NameView>,
    pub children: int,
}

impl View for ScanFrame {
    type V = FrameView;

    open spec fn view(&self) -> FrameView {
        FrameView {
            path: self.path@,
            names: Seq::new(self.names@.len(), |i: int| self.names@[self.names@.len() - 1 - i]@),
            children: self.children as int,
        }
    }
}

/// A scan of the local tree.  Symbolic links either end it or are skipped.
#[derive(Debug)]
pub struct LocalScan {
    pub excludes: globset::GlobSet,
    pub limits: ScanLimits,
    pub links_refused: bool,
    pub cache: HashCache,
    pub next_cache: HashCache,
    pub manifest: LocalManifest,
    pub frames: Vec<ScanFrame>,
    pub phase: ScanPhase,
}

/// The mathematical form of a scan.
#[verifier::ext_equal]
pub struct LocalScanState {
    pub patterns: Seq<Seq<char>>,
    pub limits: ScanLimits,
    pub links_refused: bool,
    pub cache_version: u8,
    pub cache: Map<Seq<char>, CachedHash>,
    pub next_version: u8,
    pub next_cache: Map<Seq<char>, KnownHash>,
    pub found: LocalState,
    pub frames: Seq<FrameView>,
    pub phase: PhaseView,
}

impl LocalScanState {
    /// A scan that an error has ended: what it had found, and what it goes by,
    /// are as they were.
    pub open spec fn ended_from(self, before: LocalScanState) -> bool {
        self == LocalScanState { frames: self.frames, phase: self.phase, ..before }
    }
}

impl View for LocalScan {
    type V = LocalScanState;

    open spec fn view(&self) -> LocalScanState {
        LocalScanState {
            patterns: set_patterns(self.excludes),
            limits: self.limits,
            links_refused: self.links_refused,
            cache_version: self.cache.version,
            cache: self.cache.entries@,
            next_version: self.next_cache.version,
            next_cache: map_views(self.next_cache.entries@),
            found: self.manifest@,
            frames: views(self.frames@),
            phase: self.phase@,
        }
    }
}

/// What a scan needs next.
#[derive(Debug)]
pub enum ScanCommand {
    /// List the names of a directory.
    List { path: String },
    /// Go on with `advance`.
    Proceed,
    /// Tell what an entry is.
    Inspect { path: String },
    /// Hash a file.
    Hash { path: String },
    /// Tell what a file is like now.
    Recheck { path: String },
    /// The scan is complete.
    Done,
}

/// A scan that has found nothing but, where there is one, a warning about the
/// hash cache.
pub open spec fn scan_begun(warning: Option<Seq<char>>) -> LocalState {
    LocalState {
        entries: Map::empty(),
        protected: Set::empty(),
        warnings: match warning {
            Some(text) => seq![text],
            None => Seq::empty(),
        },
        cache_hits: 0,
        hashed_files: 0,
    }
}

/// The entries of a saved hash cache that a scan goes by.
pub open spec fn known_hashes(saved: Option<SavedCache>) -> Map<Seq<char>, CachedHash> {
    match saved {
        Some(SavedCache::Loaded { cache, .. }) => if cache.version == HASH_CACHE_VERSION {
            cache.entries@
        } else {
            Map::empty()
        },
        _ => Map::empty(),
    }
}

/// The version of the hash cache that a scan goes by; an empty one has none.
pub open spec fn known_version(saved: Option<SavedCache>) -> u8 {
    match saved {
        Some(SavedCache::Loaded { cache, .. }) => if cache.version == HASH_CACHE_VERSION {
            HASH_CACHE_VERSION
        } else {
            0
        },
        _ => 0,
    }
}

/// The warning about a saved hash cache that a scan does not go by.
pub open spec fn cache_warning(saved: Option<SavedCache>) -> Option<Seq<char>> {
    match saved {
        Some(SavedCache::Loaded { path, cache }) => if cache.version == HASH_CACHE_VERSION {
            None
        } else {
            Some("ignored unsupported hash cache version at "@ + path@)
        },
        Some(SavedCache::Unreadable { path, error }) => Some(
            "ignored unreadable hash cache "@ + path@ + ": "@ + error@,
        ),
        Some(SavedCache::Invalid { path, error }) => Some("ignored invalid hash cache "@ + path@ + ": "@ + error@),
        _ => None,
    }
}

/// A scan at its start: the root is to be listed.
pub open spec fn scan_start(
    patterns: Seq<Seq<char>>,
    limits: ScanLimits,
    links_refused: bool,
    saved: Option<SavedCache>,
) -> LocalScanState {
    LocalScanState {
        patterns,
        limits,
        links_refused,
        cache_version: known_version(saved),
        cache: known_hashes(saved),
        next_version: HASH_CACHE_VERSION,
        next_cache: Map::empty(),
        found: scan_begun(cache_warning(saved)),
        frames: Seq::empty(),
        phase: PhaseView::Listing { path: Seq::empty() },
    }
}

/// Begins the scan of a local tree that skips symbolic links.  `saved` is what
/// was found at the place of the hash cache, where there is such a place.
pub fn scan_local(
    excludes: &[String],
    max_file_size: u64,
    max_folder_depth: usize,
    parent_depth: usize,
    max_children: usize,
    saved: Option<SavedCache>,
) -> (r: Result<LocalScan, String>)
    ensures
        match r {
            Ok(scan) => {
                let limits = ScanLimits { max_file_size, max_folder_depth, parent_depth, max_children };
                &&& excludes_error(views(excludes@)) is None
                &&& scan@ == scan_start(views(excludes@), limits, false, saved)
                &&& scan_sound(scan@)
                &&& nothing_missed(scan@, Map::empty())
            },
            Err(message) => excludes_error(views(excludes@)) == Some(message@),
        },
{
    let set = match compile_excludes(excludes) {
        Ok(set) => set,
        Err(message) => {
            return Err(message);
        },
    };
    let (cache, warning) = match saved {
        Some(saved) => usable_cache(saved),
        None => (HashCache::default(), None),
    };
    let mut manifest = LocalManifest::default();
    if let Some(text) = warning {
        manifest.warnings.push(text);
        assert(manifest@.warnings =~= seq![text@]);
    } else {
        assert(manifest@.warnings =~= Seq::empty());
    }
    let next_cache = HashCache { version: HASH_CACHE_VERSION, entries: PathMap::new() };
    let r = LocalScan {
        excludes: set,
        limits: ScanLimits { max_file_size, max_folder_depth, parent_depth, max_children },
        links_refused: false,
        cache,
        next_cache,
        manifest,
        frames: Vec::new(),
        phase: ScanPhase::Listing { path: String::new() },
    };
    assert(r@.found.entries =~= Map::empty());
    assert(r@.next_cache =~= Map::empty());
    assert(r@.frames =~= Seq::empty());
    proof {
        law_scans_start_sound(r@.patterns, r@.limits, false, saved);
        law_scans_start_with_nothing_missed(r@.patterns, r@.limits, false, saved);
    }
    Ok(r)
}

/// The text of a name.
pub open spec fn name_text(name: NameView) -> Seq<char> {
    vstd::utf8::decode_utf8(name.bytes)
}

/// The state after the names of a directory came in, in their order.
pub open spec fn names_listed(state: LocalScanState, sorted: Seq<NameView>) -> LocalScanState {
    LocalScanState {
        frames: state.frames.push(FrameView { path: state.phase->Listing_path, names: sorted, children: 0 }),
        phase: PhaseView::Walking,
        ..state
    }
}

/// The frames with the first name of the innermost directory taken.
pub open spec fn name_taken(frames: Seq<FrameView>) -> Seq<FrameView> {
    let top = frames.last();
    frames.drop_last().push(FrameView { names: top.names.drop_first(), ..top })
}

/// What follows the next name, or the end of a directory.
pub open spec fn advanced(state: LocalScanState) -> Result<LocalScanState, Seq<char>> {
    if state.frames.len() == 0 {
        Ok(LocalScanState { phase: PhaseView::Finished, ..state })
    } else {
        let top = state.frames.last();
        if top.names.len() == 0 {
            if (state.limits.parent_depth > 0 || top.path.len() > 0) && top.children > state.limits.max_children {
                Err(
                    "directory "@ + top.path + " has "@ + decimal(top.children as nat)
                        + " children, exceeding bucket limit "@ + decimal(state.limits.max_children as nat),
                )
            } else {
                Ok(LocalScanState { frames: state.frames.drop_last(), ..state })
            }
        } else {
            let name = top.names[0];
            let frames = name_taken(state.frames);
            if !vstd::utf8::valid_utf8(name.bytes) {
                Err("non-UTF-8 filename is not supported: "@ + name.shown)
            } else if !valid_name(name_text(name)) {
                Err("invalid filename for IC-OSS: "@ + name.shown)
            } else {
                let path = joined(top.path, name_text(name));
                if entry_excluded(state.patterns, path) {
                    Ok(LocalScanState { frames, found: state.found.with_protected(path), ..state })
                } else {
                    Ok(LocalScanState { frames, phase: PhaseView::Inspecting { path }, ..state })
                }
            }
        }
    }
}

/// The frames with one more entry that counts in the innermost directory.
pub open spec fn one_more_child(frames: Seq<FrameView>) -> Seq<FrameView> {
    let top = frames.last();
    frames.drop_last().push(FrameView { children: top.children + 1, ..top })
}

/// What follows once it is known what an entry is.
pub open spec fn entry_seen(state: LocalScanState, path: Seq<char>, entry: EntryState) -> Result<LocalScanState, Seq<char>> {
    match entry {
        EntryState::Symlink => if state.links_refused {
            Err("symbolic link is not supported: "@ + path)
        } else {
            Ok(
                LocalScanState {
                    found: state.found.with_protected(path).with_warning("skipped symbolic link "@ + path),
                    phase: PhaseView::Walking,
                    ..state
                },
            )
        },
        EntryState::Other => Ok(
            LocalScanState {
                found: state.found.with_protected(path).with_warning("skipped unsupported filesystem entry "@ + path),
                phase: PhaseView::Walking,
                ..state
            },
        ),
        EntryState::Directory => if state.limits.parent_depth + depth_of(path) > state.limits.max_folder_depth {
            Err(
                "folder depth exceeds bucket limit "@ + decimal(state.limits.max_folder_depth as nat) + ": "@ + path,
            )
        } else {
            Ok(
                LocalScanState {
                    found: state.found.with_entry(
                        LocalItem { path, kind: EntryKind::Directory, size: 0, hash: None },
                    ),
                    frames: one_more_child(state.frames),
                    phase: PhaseView::Listing { path },
                    ..state
                },
            )
        },
        EntryState::File { stat } => if stat.size > state.limits.max_file_size {
            Err(
                "file size "@ + decimal(stat.size as nat) + " exceeds bucket limit "@ + decimal(
                    state.limits.max_file_size as nat,
                ) + ": "@ + path,
            )
        } else {
            Ok(
                match cached_digest(state.cache, path, stat) {
                    Some(digest) => LocalScanState {
                        found: LocalState { cache_hits: state.found.cache_hits + 1, ..state.found },
                        frames: one_more_child(state.frames),
                        phase: PhaseView::Rechecking { path, stat, hash: digest_array(digest) },
                        ..state
                    },
                    None => LocalScanState {
                        found: LocalState { hashed_files: state.found.hashed_files + 1, ..state.found },
                        frames: one_more_child(state.frames),
                        phase: PhaseView::Hashing { path, stat },
                        ..state
                    },
                },
            )
        },
    }
}

/// The array with the given bytes.
pub open spec fn digest_array(bytes: Seq<u8>) -> [u8; 32] {
    choose|digest: [u8; 32]| digest@ == bytes
}

/// What follows once it is known what a file is like after it was hashed.
pub open spec fn file_rechecked(
    state: LocalScanState,
    path: Seq<char>,
    stat: FileStat,
    hash: [u8; 32],
    now: FileStat,
) -> Result<LocalScanState, Seq<char>> {
    if stat != now {
        Err("local file changed while scanning: "@ + path)
    } else {
        Ok(
            LocalScanState {
                found: state.found.with_entry(
                    LocalItem { path, kind: EntryKind::File, size: stat.size, hash: Some(hash) },
                ),
                next_cache: match cache_time(stat) {
                    Some(time) => state.next_cache.insert(
                        path,
                        KnownHash {
                            size: stat.size,
                            modified_secs: time.secs,
                            modified_nanos: time.nanos,
                            hash: hex_text(hash@),
                        },
                    ),
                    None => state.next_cache,
                },
                phase: PhaseView::Walking,
                ..state
            },
        )
    }
}

impl LocalScan {
    /// The same scan, ended by the first symbolic link that it comes to.
    pub fn refusing_links(self) -> (r: LocalScan)
        ensures
            r@ == (LocalScanState { links_refused: true, ..self@ }),
            r.next_cache == self.next_cache,
            scan_sound(self@) ==> scan_sound(r@),
    {
        let r = LocalScan { links_refused: true, ..self };
        proof {
            if scan_sound(self@) {
                law_refusing_links_keeps_scans_sound(self@);
            }
        }
        r
    }

    /// What the scan needs next.
    pub fn command(&self) -> (r: ScanCommand)
        ensures
            match self@.phase {
                PhaseView::Listing { path } => r matches ScanCommand::List { path: asked } && asked@ == path,
                PhaseView::Walking => r is Proceed,
                PhaseView::Inspecting { path } => r matches ScanCommand::Inspect { path: asked } && asked@ == path,
                PhaseView::Hashing { path, .. } => r matches ScanCommand::Hash { path: asked } && asked@ == path,
                PhaseView::Rechecking { path, .. } => r matches ScanCommand::Recheck { path: asked } && asked@ == path,
                PhaseView::Finished => r is Done,
            },
    {
        match &self.phase {
            ScanPhase::Listing { path } => ScanCommand::List { path: path.clone() },
            ScanPhase::Walking => ScanCommand::Proceed,
            ScanPhase::Inspecting { path } => ScanCommand::Inspect { path: path.clone() },
            ScanPhase::Hashing { path, .. } => ScanCommand::Hash { path: path.clone() },
            ScanPhase::Rechecking { path, .. } => ScanCommand::Recheck { path: path.clone() },
            ScanPhase::Finished => ScanCommand::Done,
        }
    }

    /// Takes in the names of a directory; they are scanned in the order of
    /// their bytes.
    pub fn on_listing(&mut self, names: Vec<ListedName>)
        requires
            old(self)@.phase is Listing,
        ensures
            exists|sorted: Seq<NameView>|
                arrangement_of::<ListedName>(views(names@), sorted) && final(self)@ == names_listed(old(self)@, sorted),
            scan_sound(old(self)@) && listed_once(views(names@)) ==> scan_sound(final(self)@),
            forall|listings: Map<Seq<char>, Seq<NameView>>| #[trigger]
                nothing_missed(old(self)@, listings) ==> nothing_missed(
                    final(self)@,
                    listings.insert(old(self)@.phase->Listing_path, views(names@)),
                ),
    {
        let ghost before = self@;
        let ghost listed = views(names@);
        let sorted = arrange(names);
        let ghost order = views(sorted@);
        let names = reversed(sorted);
        let mut phase = ScanPhase::Walking;
        std::mem::swap(&mut phase, &mut self.phase);
        if let ScanPhase::Listing { path } = phase {
            let frame = ScanFrame { path, names, children: 0 };
            assert(frame@.names =~= order);
            self.frames.push(frame);
            assert(self@.frames =~= before.frames.push(frame@));
        }
        assert(arrangement_of::<ListedName>(listed, order));
        assert(self@ =~= names_listed(before, order));
        proof {
            if scan_sound(before) && listed_once(listed) {
                law_listings_keep_scans_sound(before, listed, order);
            }
            assert forall|listings: Map<Seq<char>, Seq<NameView>>| #[trigger] nothing_missed(before, listings) implies nothing_missed(
                self@,
                listings.insert(before.phase->Listing_path, listed),
            ) by {
                law_listings_miss_nothing(before, listings, listed, order);
            }
        }
    }

    /// Goes on with the next name of the innermost directory, or leaves it
    /// where none is left.
    pub fn advance(&mut self) -> (r: Result<(), String>)
        requires
            old(self)@.phase is Walking,
        ensures
            match advanced(old(self)@) {
                Ok(next) => r is Ok && final(self)@ == next,
                Err(reason) => r matches Err(message) && message@ == reason && final(self)@.ended_from(old(self)@),
            },
            r is Ok && scan_sound(old(self)@) ==> scan_sound(final(self)@),
            r is Ok ==> forall|listings: Map<Seq<char>, Seq<NameView>>| #[trigger]
                nothing_missed(old(self)@, listings) ==> nothing_missed(final(self)@, listings),
            scan_sound(old(self)@) && final(self)@.phase is Finished ==> whole_tree(
                final(self)@.found,
                final(self)@.patterns,
                final(self)@.limits,
            ) && hashes_found(final(self)@.found, final(self)@.next_cache),
    {
        let ghost before = self@;
        proof {
            if scan_sound(before) {
                law_advancing_keeps_scans_sound(before);
            }
            assert forall|listings: Map<Seq<char>, Seq<NameView>>| #[trigger] nothing_missed(before, listings) implies (advanced(
                before,
            ) matches Ok(next) ==> nothing_missed(next, listings)) by {
                law_advancing_misses_nothing(before, listings);
            }
        }
        let n: usize = self.frames.len();
        if n == 0 {
            self.phase = ScanPhase::Finished;
            assert(self@ =~= advanced(before)->Ok_0);
            proof {
                if scan_sound(before) {
                    law_finished_scans_found_a_whole_tree(self@);
                }
            }
            return Ok(());
        }
        let ghost top = before.frames.last();
        assert(top == self.frames@[n - 1]@);
        let mut frame = match self.frames.pop() {
            Some(frame) => frame,
            None => {
                return Ok(());
            },
        };
        assert(views(self.frames@) =~= before.frames.drop_last());
        if frame.names.len() == 0 {
            if (self.limits.parent_depth > 0 || !frame.path.as_str().is_empty()) && frame.children
                > self.limits.max_children {
                return Err(
                    cat6(
                        "directory ",
                        frame.path.as_str(),
                        " has ",
                        decimal_size(frame.children).as_str(),
                        " children, exceeding bucket limit ",
                        decimal_size(self.limits.max_children).as_str(),
                    ),
                );
            }
            assert(self@ =~= advanced(before)->Ok_0);
            return Ok(());
        }
        let ghost first = top.names[0];
        let name = match frame.names.pop() {
            Some(name) => name,
            None => {
                return Ok(());
            },
        };
        assert(name@ == first);
        assert(frame@.names =~= top.names.drop_first());
        let ListedName { bytes, shown } = name;
        let text = match text_from_utf8(bytes) {
            Some(text) => text,
            None => {
                return Err(cat2("non-UTF-8 filename is not supported: ", shown.as_str()));
            },
        };
        proof {
            vstd::utf8::encode_utf8_decode_utf8(text@);
        }
        if !valid_file_name(text.as_str()) {
            return Err(cat2("invalid filename for IC-OSS: ", shown.as_str()));
        }
        let path = join_path(frame.path.as_str(), text.as_str());
        let ghost view = frame@;
        let ghost rest = views(self.frames@);
        self.frames.push(frame);
        assert(views(self.frames@) =~= rest.push(view));
        if is_entry_excluded(&self.excludes, path.as_str()) {
            self.manifest.protected_paths.insert(path);
            assert(self@ =~= advanced(before)->Ok_0);
        } else {
            self.phase = ScanPhase::Inspecting { path };
            assert(self@ =~= advanced(before)->Ok_0);
        }
        Ok(())
    }

    fn count_child(&mut self)
        requires
            old(self).frames@.len() > 0,
            old(self).frames@.last().children < usize::MAX,
        ensures
            final(self)@ == (LocalScanState { frames: one_more_child(old(self)@.frames), ..old(self)@ }),
            final(self).manifest == old(self).manifest,
            final(self).cache == old(self).cache,
            final(self).next_cache == old(self).next_cache,
            final(self).phase == old(self).phase,
    {
        let ghost before = self@;
        let n: usize = self.frames.len();
        let children: usize = self.frames[n - 1].children + 1;
        self.frames[n - 1].children = children;
        assert(self@.frames =~= one_more_child(before.frames));
        assert(self@ =~= (LocalScanState { frames: one_more_child(before.frames), ..before }));
    }

    /// Takes in what an entry is.
    pub fn on_entry(&mut self, entry: EntryState) -> (r: Result<(), String>)
        requires
            old(self)@.phase is Inspecting,
            old(self).frames@.len() > 0,
            old(self).frames@.last().children < usize::MAX,
            old(self).manifest.cache_hits < usize::MAX,
            old(self).manifest.hashed_files < usize::MAX,
        ensures
            match entry_seen(old(self)@, old(self)@.phase->Inspecting_path, entry) {
                Ok(next) => r is Ok && final(self)@ == next,
                Err(reason) => r matches Err(message) && message@ == reason && final(self)@.ended_from(old(self)@),
            },
            r is Ok && scan_sound(old(self)@) ==> scan_sound(final(self)@),
            r is Ok ==> forall|listings: Map<Seq<char>, Seq<NameView>>| #[trigger]
                nothing_missed(old(self)@, listings) ==> nothing_missed(final(self)@, listings),
    {
        let ghost before = self@;
        proof {
            if scan_sound(before) {
                law_entries_keep_scans_sound(before, before.phase->Inspecting_path, entry);
            }
            assert forall|listings: Map<Seq<char>, Seq<NameView>>| #[trigger] nothing_missed(before, listings) implies (entry_seen(
                before,
                before.phase->Inspecting_path,
                entry,
            ) matches Ok(next) ==> nothing_missed(next, listings)) by {
                law_entries_are_not_missed(before, listings, before.phase->Inspecting_path, entry);
            }
        }
        let mut phase = ScanPhase::Walking;
        std::mem::swap(&mut phase, &mut self.phase);
        let path = match phase {
            ScanPhase::Inspecting { path } => path,
            _ => String::new(),
        };
        assert(before.phase == PhaseView::Inspecting { path: path@ });
        match entry {
            EntryState::Symlink => {
                if self.links_refused {
                    return Err(cat2("symbolic link is not supported: ", path.as_str()));
                }
                self.manifest.protected_paths.insert(path.clone());
                let warning = cat2("skipped symbolic link ", path.as_str());
                self.manifest.warnings.push(warning);
                assert(self@.found.warnings =~= before.found.warnings.push(warning@));
                assert(self@ =~= entry_seen(before, path@, entry)->Ok_0);
                Ok(())
            },
            EntryState::Other => {
                self.manifest.protected_paths.insert(path.clone());
                let warning = cat2("skipped unsupported filesystem entry ", path.as_str());
                self.manifest.warnings.push(warning);
                assert(self@.found.warnings =~= before.found.warnings.push(warning@));
                assert(self@ =~= entry_seen(before, path@, entry)->Ok_0);
                Ok(())
            },
            EntryState::Directory => {
                let depth: u128 = self.limits.parent_depth as u128 + path_depth(path.as_str()) as u128;
                if depth > self.limits.max_folder_depth as u128 {
                    return Err(
                        cat4(
                            "folder depth exceeds bucket limit ",
                            decimal_size(self.limits.max_folder_depth).as_str(),
                            ": ",
                            path.as_str(),
                        ),
                    );
                }
                self.count_child();
                let item = LocalEntry { path: path.clone(), kind: EntryKind::Directory, size: 0, hash: None };
                self.manifest.entries.insert(path.clone(), item);
                assert(self@.found.entries =~= before.found.entries.insert(path@, item@));
                self.phase = ScanPhase::Listing { path };
                assert(self@ =~= entry_seen(before, path@, entry)->Ok_0);
                Ok(())
            },
            EntryState::File { stat } => {
                if stat.size > self.limits.max_file_size {
                    return Err(
                        cat6(
                            "file size ",
                            decimal_text(stat.size).as_str(),
                            " exceeds bucket limit ",
                            decimal_text(self.limits.max_file_size).as_str(),
                            ": ",
                            path.as_str(),
                        ),
                    );
                }
                self.count_child();
                match find_cached(&self.cache, path.as_str(), &stat) {
                    Some(hash) => {
                        proof {
                            assert(digest_array(hash@)@ == hash@);
                            assert(digest_array(hash@) =~= hash);
                        }
                        self.manifest.cache_hits += 1;
                        self.phase = ScanPhase::Rechecking { path, stat, hash };
                    },
                    None => {
                        self.manifest.hashed_files += 1;
                        self.phase = ScanPhase::Hashing { path, stat };
                    },
                }
                assert(self@ =~= entry_seen(before, path@, entry)->Ok_0);
                Ok(())
            },
        }
    }

    /// Takes in the hash of a file.
    pub fn on_hash(&mut self, hash: [u8; 32])
        requires
            old(self)@.phase is Hashing,
        ensures
            old(self)@.phase matches PhaseView::Hashing { path, stat } && final(self)@ == (LocalScanState {
                phase: PhaseView::Rechecking { path, stat, hash },
                ..old(self)@
            }),
            scan_sound(old(self)@) ==> scan_sound(final(self)@),
            forall|listings: Map<Seq<char>, Seq<NameView>>| #[trigger]
                nothing_missed(old(self)@, listings) ==> nothing_missed(final(self)@, listings),
    {
        let ghost before = self@;
        proof {
            if scan_sound(before) {
                law_hashes_keep_scans_sound(before, before.phase->Hashing_path, before.phase->Hashing_stat, hash);
            }
            assert forall|listings: Map<Seq<char>, Seq<NameView>>| #[trigger] nothing_missed(before, listings) implies nothing_missed(
                LocalScanState {
                    phase: PhaseView::Rechecking {
                        path: before.phase->Hashing_path,
                        stat: before.phase->Hashing_stat,
                        hash,
                    },
                    ..before
                },
                listings,
            ) by {
                law_hashed_files_are_not_missed(
                    before,
                    listings,
                    before.phase->Hashing_path,
                    before.phase->Hashing_stat,
                    hash,
                );
            }
        }
        let mut phase = ScanPhase::Walking;
        std::mem::swap(&mut phase, &mut self.phase);
        if let ScanPhase::Hashing { path, stat } = phase {
            self.phase = ScanPhase::Rechecking { path, stat, hash };
        }
        assert(self@ =~= (LocalScanState {
            phase: PhaseView::Rechecking {
                path: before.phase->Hashing_path,
                stat: before.phase->Hashing_stat,
                hash,
            },
            ..before
        }));
    }

    /// Takes in what a file is like after it was hashed.  A file that has
    /// changed meanwhile stops the scan; otherwise it is an entry, and its hash
    /// is kept for the next scan.
    pub fn on_recheck(&mut self, now: FileStat) -> (r: Result<(), String>)
        requires
            old(self)@.phase is Rechecking,
        ensures
            old(self)@.phase matches PhaseView::Rechecking { path, stat, hash } && match file_rechecked(
                old(self)@,
                path,
                stat,
                hash,
                now,
            ) {
                Ok(next) => r is Ok && final(self)@ == next,
                Err(reason) => r matches Err(message) && message@ == reason && final(self)@.ended_from(old(self)@),
            },
            r is Ok && scan_sound(old(self)@) ==> scan_sound(final(self)@),
            r is Ok ==> forall|listings: Map<Seq<char>, Seq<NameView>>| #[trigger]
                nothing_missed(old(self)@, listings) ==> nothing_missed(final(self)@, listings),
    {
        let ghost before = self@;
        proof {
            if scan_sound(before) {
                law_rechecks_keep_scans_sound(
                    before,
                    before.phase->Rechecking_path,
                    before.phase->Rechecking_stat,
                    before.phase->Rechecking_hash,
                    now,
                );
            }
            assert forall|listings: Map<Seq<char>, Seq<NameView>>| #[trigger] nothing_missed(before, listings) implies (file_rechecked(
                before,
                before.phase->Rechecking_path,
                before.phase->Rechecking_stat,
                before.phase->Rechecking_hash,
                now,
            ) matches Ok(next) ==> nothing_missed(next, listings)) by {
                law_rechecked_files_are_not_missed(
                    before,
                    listings,
                    before.phase->Rechecking_path,
                    before.phase->Rechecking_stat,
                    before.phase->Rechecking_hash,
                    now,
                );
            }
        }
        let mut phase = ScanPhase::Walking;
        std::mem::swap(&mut phase, &mut self.phase);
        if let ScanPhase::Rechecking { path, stat, hash } = phase {
            if stat.size != now.size || !same_time(&stat.modified, &now.modified) {
                return Err(cat2("local file changed while scanning: ", path.as_str()));
            }
            if let Some(time) = stat.modified {
                if !time.before_epoch {
                    let cached = CachedHash {
                        size: stat.size,
                        modified_secs: time.secs,
                        modified_nanos: time.nanos,
                        hash: hex_encode(hash.as_slice()),
                    };
                    self.next_cache.entries.insert(path.clone(), cached);
                    assert(self@.next_cache =~= before.next_cache.insert(path@, cached@));
                }
            }
            let item = LocalEntry { path: path.clone(), kind: EntryKind::File, size: stat.size, hash: Some(hash) };
            self.manifest.entries.insert(path.clone(), item);
            assert(self@.found.entries =~= before.found.entries.insert(path@, item@));
            assert(self@ =~= file_rechecked(before, path@, stat, hash, now)->Ok_0);
        }
        Ok(())
    }
}

fn same_time(a: &Option<FileTime>, b: &Option<FileTime>) -> (r: bool)
    ensures
        r == (*a == *b),
{
    match (a, b) {
        (Some(x), Some(y)) => x.before_epoch == y.before_epoch && x.secs == y.secs && x.nanos == y.nanos,
        (None, None) => true,
        _ => false,
    }
}

fn reversed(values: Vec<ListedName>) -> (r: Vec<ListedName>)
    ensures
        Seq::new(r@.len(), |i: int| r@[r@.len() - 1 - i]@) == views(values@),
{
    let mut values = values;
    let ghost all = views(values@);
    let mut r: Vec<ListedName> = Vec::new();
    while values.len() > 0
        invariant
            all == views(values@) + Seq::new(r@.len(), |i: int| r@[r@.len() - 1 - i]@),
        decreases values@.len(),
    {
        let ghost before = views(values@);
        let ghost done = Seq::new(r@.len(), |i: int| r@[r@.len() - 1 - i]@);
        let value = values.pop().unwrap();
        r.push(value);
        proof {
            assert(before =~= views(values@).push(value@));
            assert(Seq::new(r@.len(), |i: int| r@[r@.len() - 1 - i]@) =~= seq![value@] + done);
            assert(views(values@) + Seq::new(r@.len(), |i: int| r@[r@.len() - 1 - i]@) =~= before + done);
        }
    }
    assert(views(values@) + Seq::new(r@.len(), |i: int| r@[r@.len() - 1 - i]@) =~= Seq::new(
        r@.len(),
        |i: int| r@[r@.len() - 1 - i]@,
    ));
    r
}

/// A file that has not changed since the last scan is not hashed again: the
/// hash that was kept of it is found.
pub proof fn law_unchanged_files_are_found_in_the_cache(
    cache: Map<Seq<char>, CachedHash>,
    state: LocalScanState,
    path: Seq<char>,
    stat: FileStat,
    hash: [u8; 32],
)
    requires
        cache_time(stat) is Some,
        cache.contains_key(path),
        file_rechecked(state, path, stat, hash, stat) matches Ok(next) && cache[path]@ == next.next_cache[path],
    ensures
        cached_digest(cache, path, stat) == Some(hash@),
{
    law_cached_digests_are_read_back(hash@);
}

/// What is skipped is no entry, and is protected from deletion; a symbolic link
/// is skipped unless the scan refuses it.
pub proof fn law_skipped_entries_are_protected(state: LocalScanState, path: Seq<char>, entry: EntryState)
    requires
        entry is Other || (entry is Symlink && !state.links_refused),
    ensures
        entry_seen(state, path, entry) matches Ok(next) && next.found.entries == state.found.entries
            && next.found.protected.contains(path),
{
}

/// A cached hash is used only for a file that is as it was when it was cached,
/// and then it is used: a file that is not hashed has an entry in the cache
/// with its size and its time of change, to the nanosecond, and is taken to
/// have the hash of that entry; every other file is hashed.
pub proof fn law_cached_hashes_are_of_unchanged_files(state: LocalScanState, path: Seq<char>, stat: FileStat)
    requires
        stat.size <= state.limits.max_file_size,
    ensures
        entry_seen(state, path, EntryState::File { stat }) matches Ok(next) && ({
            let unchanged = {
                &&& stat.modified matches Some(time)
                &&& !time.before_epoch
                &&& state.cache.contains_key(path)
                &&& state.cache[path].size == stat.size
                &&& state.cache[path].modified_secs == time.secs
                &&& state.cache[path].modified_nanos == time.nanos
            };
            let written = utf8(state.cache[path].hash@);
            if unchanged && is_hex(written) && hex_bytes(written).len() == 32 {
                &&& next.found.cache_hits == state.found.cache_hits + 1
                &&& next.found.hashed_files == state.found.hashed_files
                &&& next.phase matches PhaseView::Rechecking { path: at, stat: seen, hash }
                &&& at == path
                &&& seen == stat
                &&& forall|digest: [u8; 32]| #[trigger] digest@ == hex_bytes(written) ==> hash == digest
            } else {
                &&& next.found.hashed_files == state.found.hashed_files + 1
                &&& next.found.cache_hits == state.found.cache_hits
                &&& next.phase == (PhaseView::Hashing { path, stat })
            }
        }),
{
    let written = utf8(state.cache[path].hash@);
    assert forall|digest: [u8; 32]| #[trigger] digest@ == hex_bytes(written) implies digest_array(hex_bytes(written))
        == digest by {
        assert(digest_array(hex_bytes(written))@ == digest@);
        assert(digest_array(hex_bytes(written)) =~= digest);
    }
}

/// What an entry is decides what becomes of it: a directory within the depth of
/// the bucket and a file within its size are counted, a directory is then
/// listed, and anything else is left alone with a warning.  Only what is too
/// deep, too large or a link that is refused ends the scan.
pub proof fn law_entries_within_limits_are_taken(state: LocalScanState, path: Seq<char>, entry: EntryState)
    requires
        state.frames.len() > 0,
    ensures
        entry_seen(state, path, entry) is Ok <==> match entry {
            EntryState::Symlink => !state.links_refused,
            EntryState::Other => true,
            EntryState::Directory => state.limits.parent_depth + depth_of(path) <= state.limits.max_folder_depth,
            EntryState::File { stat } => stat.size <= state.limits.max_file_size,
        },
        entry_seen(state, path, entry) matches Ok(next) ==> match entry {
            EntryState::Directory => {
                &&& next.phase == (PhaseView::Listing { path })
                &&& next.found.entries.contains_key(path)
                &&& next.found.entries[path].kind is Directory
                &&& next.found.warnings == state.found.warnings
                &&& next.frames.last().children == state.frames.last().children + 1
            },
            EntryState::File { .. } => {
                &&& next.found.entries == state.found.entries
                &&& next.found.warnings == state.found.warnings
                &&& next.frames.last().children == state.frames.last().children + 1
            },
            _ => {
                &&& next.phase is Walking
                &&& next.found.protected == state.found.protected.insert(path)
                &&& next.found.warnings.len() == state.found.warnings.len() + 1
                &&& next.frames == state.frames
            },
        },
{
}

/// A scan goes on unless a name is no valid name or a directory has more
/// entries than the bucket allows; the root of a bucket may have any number.
pub proof fn law_scans_go_on_within_the_limits(state: LocalScanState)
    requires
        state.frames.len() > 0,
    ensures
        ({
            let top = state.frames.last();
            if top.names.len() > 0 {
                let name = top.names[0];
                advanced(state) is Ok <==> vstd::utf8::valid_utf8(name.bytes) && valid_name(
                    vstd::utf8::decode_utf8(name.bytes),
                )
            } else {
                advanced(state) is Ok <==> top.children <= state.limits.max_children || (top.path.len() == 0
                    && state.limits.parent_depth == 0)
            }
        }),
{
}

/// The next name becomes the entry that is looked at, unless it is excluded;
/// then it is left alone.
pub proof fn law_next_names_are_looked_at(state: LocalScanState)
    requires
        state.phase is Walking,
        state.frames.len() > 0,
        state.frames.last().names.len() > 0,
    ensures
        advanced(state) matches Ok(next) ==> ({
            let top = state.frames.last();
            let path = joined(top.path, vstd::utf8::decode_utf8(top.names[0].bytes));
            &&& next.frames.last().names == top.names.drop_first()
            &&& next.found.entries == state.found.entries
            &&& if entry_excluded(state.patterns, path) {
                next.phase is Walking && next.found.protected == state.found.protected.insert(path)
            } else {
                next.phase == (PhaseView::Inspecting { path }) && next.found.protected == state.found.protected
            }
        }),
{
}

/// A file that did not change while it was hashed is an entry with its size and
/// that hash, and its hash is kept for the next scan under its time of change;
/// a file without a time that can be kept is not cached.  A file that changed
/// ends the scan.
pub proof fn law_hashed_files_are_entries(
    state: LocalScanState,
    path: Seq<char>,
    stat: FileStat,
    hash: [u8; 32],
    now: FileStat,
)
    ensures
        file_rechecked(state, path, stat, hash, now) is Ok <==> stat.size == now.size && stat.modified == now.modified,
        file_rechecked(state, path, stat, hash, now) matches Ok(next) ==> {
            &&& next.phase is Walking
            &&& next.found.entries == state.found.entries.insert(
                path,
                LocalItem { path, kind: EntryKind::File, size: now.size, hash: Some(hash) },
            )
            &&& match now.modified {
                Some(FileTime { before_epoch: false, secs, nanos }) => {
                    &&& next.next_cache.contains_key(path)
                    &&& next.next_cache[path].size == now.size
                    &&& next.next_cache[path].modified_secs == secs
                    &&& next.next_cache[path].modified_nanos == nanos
                    &&& next.next_cache[path].hash == hex_text(hash@)
                },
                _ => next.next_cache == state.next_cache,
            }
        },
{
}

/// A scan goes by a saved hash cache only where that has the current version,
/// and warns where there is one that it does not go by.
pub proof fn law_only_current_caches_are_used(saved: Option<SavedCache>)
    ensures
        match saved {
            None => known_hashes(saved) == Map::<Seq<char>, CachedHash>::empty() && cache_warning(saved) is None,
            Some(SavedCache::Missing) => known_hashes(saved) == Map::<Seq<char>, CachedHash>::empty() && cache_warning(
                saved,
            ) is None,
            Some(SavedCache::Loaded { cache, .. }) => if cache.version == 1 {
                known_hashes(saved) == cache.entries@ && cache_warning(saved) is None && known_version(saved) == 1
            } else {
                known_hashes(saved) == Map::<Seq<char>, CachedHash>::empty() && cache_warning(saved) is Some
            },
            _ => known_hashes(saved) == Map::<Seq<char>, CachedHash>::empty() && cache_warning(saved) is Some,
        },
{
}

/// A scan starts with the root, which is to be listed, and with what its caller
/// and the usable hash cache give; it has found nothing yet but a warning about
/// a cache that is not used.
pub proof fn law_scans_start_at_the_root(
    patterns: Seq<Seq<char>>,
    limits: ScanLimits,
    links_refused: bool,
    saved: Option<SavedCache>,
)
    ensures
        ({
            let start = scan_start(patterns, limits, links_refused, saved);
            &&& start.patterns == patterns
            &&& start.limits == limits
            &&& start.links_refused == links_refused
            &&& start.cache == known_hashes(saved)
            &&& start.next_cache == Map::<Seq<char>, KnownHash>::empty()
            &&& start.next_version == 1
            &&& start.phase == (PhaseView::Listing { path: Seq::empty() })
            &&& start.frames.len() == 0
            &&& start.found.entries == Map::<Seq<char>, LocalItem>::empty()
            &&& start.found.protected == Set::<Seq<char>>::empty()
            &&& start.found.cache_hits == 0
            &&& start.found.hashed_files == 0
            &&& cache_warning(saved) is None ==> start.found.warnings.len() == 0
            &&& cache_warning(saved) matches Some(text) ==> start.found.warnings == seq![text]
        }),
{
}

/// Why a saved hash cache is not used is told, with its place.
pub proof fn law_unused_caches_are_told(path: String, cache: HashCache, error: String)
    ensures
        cache.version != 1 ==> cache_warning(Some(SavedCache::Loaded { path, cache })) == Some(
            "ignored unsupported hash cache version at "@ + path@,
        ),
        cache_warning(Some(SavedCache::Unreadable { path, error })) == Some(
            "ignored unreadable hash cache "@ + path@ + ": "@ + error@,
        ),
        cache_warning(Some(SavedCache::Invalid { path, error })) == Some(
            "ignored invalid hash cache "@ + path@ + ": "@ + error@,
        ),
{
}

/// Looking at an entry changes nothing of what a scan goes by.  A directory
/// becomes an entry without size and hash, and what is skipped is told.
pub proof fn law_seen_entries_change_nothing_else(state: LocalScanState, path: Seq<char>, entry: EntryState)
    requires
        state.frames.len() > 0,
    ensures
        entry_seen(state, path, entry) matches Ok(next) ==> {
            &&& next.patterns == state.patterns
            &&& next.limits == state.limits
            &&& next.links_refused == state.links_refused
            &&& next.cache == state.cache
            &&& next.cache_version == state.cache_version
            &&& next.next_cache == state.next_cache
            &&& next.next_version == state.next_version
            &&& next.frames.len() == state.frames.len()
            &&& next.frames.drop_last() == state.frames.drop_last()
            &&& next.frames.last().path == state.frames.last().path
            &&& next.frames.last().names == state.frames.last().names
            &&& entry is Directory ==> next.found.entries == state.found.entries.insert(
                path,
                LocalItem { path, kind: EntryKind::Directory, size: 0, hash: None },
            ) && next.found.protected == state.found.protected && next.found.cache_hits == state.found.cache_hits
                && next.found.hashed_files == state.found.hashed_files
            &&& entry is File ==> next.found.protected == state.found.protected
            &&& entry is Symlink ==> next.found.warnings == state.found.warnings.push("skipped symbolic link "@ + path)
            &&& entry is Other ==> next.found.warnings == state.found.warnings.push(
                "skipped unsupported filesystem entry "@ + path,
            )
        },
        entry_seen(state, path, entry) matches Err(message) ==> match entry {
            EntryState::Directory => message == "folder depth exceeds bucket limit "@ + decimal(
                state.limits.max_folder_depth as nat,
            ) + ": "@ + path,
            EntryState::File { stat } => message == "file size "@ + decimal(stat.size as nat)
                + " exceeds bucket limit "@ + decimal(state.limits.max_file_size as nat) + ": "@ + path,
            _ => message == "symbolic link is not supported: "@ + path,
        },
{
    if entry is Directory || entry is File {
        let frames = one_more_child(state.frames);
        assert(frames.drop_last() =~= state.frames.drop_last());
    }
}

/// Going on to the next name changes nothing of what a scan goes by, nor what it
/// has found but for an excluded path; at the end of a directory the one above
/// it goes on, and after the root the scan is finished.
pub proof fn law_going_on_changes_nothing_else(state: LocalScanState)
    ensures
        state.frames.len() == 0 ==> (advanced(state) matches Ok(next) && next.phase is Finished && next.found
            == state.found),
        state.frames.len() > 0 && state.frames.last().names.len() == 0 ==> (advanced(state) matches Ok(next)
            ==> next.frames == state.frames.drop_last() && next.found == state.found && next.phase == state.phase),
        advanced(state) matches Ok(next) ==> {
            &&& next.patterns == state.patterns
            &&& next.limits == state.limits
            &&& next.links_refused == state.links_refused
            &&& next.cache == state.cache
            &&& next.next_cache == state.next_cache
            &&& next.next_version == state.next_version
            &&& next.found.entries == state.found.entries
            &&& next.found.warnings == state.found.warnings
            &&& next.found.cache_hits == state.found.cache_hits
            &&& next.found.hashed_files == state.found.hashed_files
        },
        state.frames.len() > 0 && state.frames.last().names.len() > 0 ==> (advanced(state) matches Ok(next) ==> {
            &&& next.frames.len() == state.frames.len()
            &&& next.frames.drop_last() == state.frames.drop_last()
            &&& next.frames.last().path == state.frames.last().path
            &&& next.frames.last().children == state.frames.last().children
        }),
        advanced(state) matches Err(message) ==> {
            let top = state.frames.last();
            if top.names.len() == 0 {
                message == "directory "@ + top.path + " has "@ + decimal(top.children as nat)
                    + " children, exceeding bucket limit "@ + decimal(state.limits.max_children as nat)
            } else if !vstd::utf8::valid_utf8(top.names[0].bytes) {
                message == "non-UTF-8 filename is not supported: "@ + top.names[0].shown
            } else {
                message == "invalid filename for IC-OSS: "@ + top.names[0].shown
            }
        },
{
    if state.frames.len() > 0 && state.frames.last().names.len() > 0 {
        assert(name_taken(state.frames).drop_last() =~= state.frames.drop_last());
    }
}

/// The names of a directory are taken in below its path, in their order, and
/// none of them counts yet.
pub proof fn law_listed_names_are_walked(state: LocalScanState, sorted: Seq<NameView>)
    requires
        state.phase is Listing,
    ensures
        ({
            let next = names_listed(state, sorted);
            &&& next.phase is Walking
            &&& next.frames.len() == state.frames.len() + 1
            &&& next.frames.drop_last() == state.frames
            &&& next.frames.last().path == state.phase->Listing_path
            &&& next.frames.last().names == sorted
            &&& next.frames.last().children == 0
            &&& next.found == state.found
            &&& next.patterns == state.patterns
            &&& next.limits == state.limits
            &&& next.links_refused == state.links_refused
            &&& next.cache == state.cache
            &&& next.next_cache == state.next_cache
        }),
{
    assert(names_listed(state, sorted).frames.drop_last() =~= state.frames);
}

/// Taking in the hash of a file changes nothing of what a scan goes by, and of
/// what it found only that the file is an entry.
pub proof fn law_hashed_files_change_nothing_else(
    state: LocalScanState,
    path: Seq<char>,
    stat: FileStat,
    hash: [u8; 32],
    now: FileStat,
)
    ensures
        file_rechecked(state, path, stat, hash, now) matches Ok(next) ==> {
            &&& next.patterns == state.patterns
            &&& next.limits == state.limits
            &&& next.links_refused == state.links_refused
            &&& next.cache == state.cache
            &&& next.next_version == state.next_version
            &&& next.frames == state.frames
            &&& next.found.protected == state.found.protected
            &&& next.found.warnings == state.found.warnings
            &&& next.found.cache_hits == state.found.cache_hits
            &&& next.found.hashed_files == state.found.hashed_files
            &&& forall|other: Seq<char>|
                other != path ==> (next.next_cache.contains_key(other) <==> #[trigger] state.next_cache.contains_key(
                    other,
                )) && (state.next_cache.contains_key(other) ==> next.next_cache[other] == state.next_cache[other])
        },
        file_rechecked(state, path, stat, hash, now) matches Err(message) ==> message
            == "local file changed while scanning: "@ + path,
{
}

/// What a scan has found and keeps is seen as it is.
pub proof fn law_scans_are_seen_as_they_are(
    cached: &CachedHash,
    name: &ListedName,
    entry: &LocalEntry,
    manifest: &LocalManifest,
    path: Seq<char>,
)
    ensures
        cached@.size == cached.size,
        cached@.modified_secs == cached.modified_secs,
        cached@.modified_nanos == cached.modified_nanos,
        cached@.hash == cached.hash@,
        name@.bytes == name.bytes@,
        name@.shown == name.shown@,
        entry@.path == entry.path@,
        entry@.kind == entry.kind,
        entry@.size == entry.size,
        entry@.hash == entry.hash,
        manifest@.entries.contains_key(path) <==> manifest.entries@.contains_key(path),
        manifest.entries@.contains_key(path) ==> manifest@.entries[path] == manifest.entries@[path]@,
        manifest@.protected == manifest.protected_paths@,
        manifest@.warnings == views(manifest.warnings@),
        manifest@.cache_hits == manifest.cache_hits,
        manifest@.hashed_files == manifest.hashed_files,
{
}

/// A scan is seen with what it goes by, what it keeps, the directories it is in
/// and what it does next; the names of a directory that are left come in the
/// reverse of the order in which they are stored.
pub proof fn law_walks_are_seen_as_they_are(scan: &LocalScan, frame: &ScanFrame, phase: &ScanPhase, i: int)
    ensures
        scan@.limits == scan.limits,
        scan@.links_refused == scan.links_refused,
        scan@.cache == scan.cache.entries@,
        scan@.found == scan.manifest@,
        scan@.frames == views(scan.frames@),
        scan@.phase == scan.phase@,
        scan@.next_version == scan.next_cache.version,
        scan@.patterns == set_patterns(scan.excludes),
        frame@.path == frame.path@,
        frame@.names.len() == frame.names@.len(),
        0 <= i < frame.names@.len() ==> frame@.names[i] == frame.names@[frame.names@.len() - 1 - i]@,
        frame@.children == frame.children,
        *phase matches ScanPhase::Listing { path } ==> phase@ == (PhaseView::Listing { path: path@ }),
        *phase is Walking ==> phase@ is Walking,
        *phase matches ScanPhase::Inspecting { path } ==> phase@ == (PhaseView::Inspecting { path: path@ }),
        *phase matches ScanPhase::Hashing { path, stat } ==> phase@ == (PhaseView::Hashing { path: path@, stat }),
        *phase matches ScanPhase::Rechecking { path, stat, hash } ==> phase@ == (PhaseView::Rechecking {
            path: path@,
            stat,
            hash,
        }),
        *phase is Finished ==> phase@ is Finished,
{
}

/// A scan that an error has ended keeps what it goes by and what it had found.
pub proof fn law_ended_scans_keep_what_they_found(after: LocalScanState, before: LocalScanState)
    ensures
        after.ended_from(before) <==> {
            &&& after.patterns == before.patterns
            &&& after.limits == before.limits
            &&& after.links_refused == before.links_refused
            &&& after.cache_version == before.cache_version
            &&& after.cache == before.cache
            &&& after.next_version == before.next_version
            &&& after.next_cache == before.next_cache
            &&& after.found == before.found
        },
{
}

} // verus!

//! Carrying out a download synchronisation: what may be written where, and
//! whether what was received is the file.
use vstd::prelude::*;

use crate::file::{FileChunk, FileInfo, CHUNK_SIZE};
use crate::outside::{absorbed, hasher_finalize, hasher_new, hasher_update, hex_encode, hex_text, sha3_256};
use crate::sync::arrange::{arrange, arrangement_of, views, Arranged, SortKey};
use crate::sync::excludes::excludes_error;
use crate::sync::local::{scan_local, scan_start, LocalScan, SavedCache, ScanLimits};
use crate::sync::pull::{count_retained, count_unchanged, fits, plan_pull, planned, pull_fits, PullAction, PullPlan, PullScope};
use crate::sync::tree::{nothing_missed, scan_sound};
use crate::sync::types::{same_hash, EntryKind, LocalManifest, RemoteEntry, RemoteManifest};
use crate::text::{cat2, cat3, cat4, cat5, cat6, cat7, decimal, decimal_text, owned};

verus! {

/// The most retries of a download.
pub const MAX_DOWNLOAD_RETRIES: u8 = 10;

/// How many chunks are asked for at once.
pub const DOWNLOAD_CHUNKS_PER_CALL: u32 = 6;

/// What a download synchronisation is to do.
#[derive(Clone, Debug)]
pub struct PullOptions {
    pub local_root: String,
    pub remote_parent: u32,
    pub delete: bool,
    pub overwrite: bool,
    pub excludes: Vec<String>,
}

/// Begins the scan of the local tree that is to be brought up to date.  No limit
/// of the bucket holds for it, and symbolic links in it are left alone.
pub fn pull_scan(options: &PullOptions, saved: SavedCache) -> (r: Result<LocalScan, String>)
    ensures
        match r {
            Ok(scan) => {
                let limits = ScanLimits {
                    max_file_size: u64::MAX,
                    max_folder_depth: usize::MAX,
                    parent_depth: 0,
                    max_children: usize::MAX,
                };
                &&& excludes_error(views(options.excludes@)) is None
                &&& scan@ == scan_start(views(options.excludes@), limits, false, Some(saved))
                &&& scan_sound(scan@)
                &&& nothing_missed(scan@, Map::empty())
            },
            Err(message) => excludes_error(views(options.excludes@)) == Some(message@),
        },
{
    scan_local(options.excludes.as_slice(), u64::MAX, usize::MAX, 0, usize::MAX, Some(saved))
}

/// A download synchronisation that is planned.
#[derive(Debug)]
pub struct PreparedPull {
    pub plan: PullPlan,
    pub options: PullOptions,
    pub remote: RemoteManifest,
}

/// Whether a file of the bucket has no known hash.
pub open spec fn hashless_file(remote: RemoteManifest) -> bool {
    exists|path: Seq<char>|
        #[trigger] remote.entries@.contains_key(path) && remote.entries@[path].kind is File
            && remote.entries@[path].hash is None
}

fn has_hashless_file(remote: &RemoteManifest) -> (r: bool)
    ensures
        r == hashless_file(*remote),
{
    let n: usize = remote.entries.len();
    let ghost keys = remote.entries.keys();
    proof {
        remote.entries.lemma_contents();
    }
    for i in 0..n
        invariant
            keys == remote.entries.keys(),
            n == keys.len(),
            forall|path: Seq<char>| #[trigger] remote.entries@.contains_key(path) <==> keys.contains(path),
            forall|j: int|
                0 <= j < i ==> !(remote.entries@[#[trigger] keys[j]].kind is File && remote.entries@[keys[j]].hash is None),
    {
        let entry = remote.entries.value_at(i);
        if entry.kind == EntryKind::File && entry.hash.is_none() {
            assert(keys.contains(keys[i as int]));
            assert(remote.entries@.contains_key(keys[i as int]));
            return true;
        }
    }
    proof {
        assert forall|path: Seq<char>| #[trigger] remote.entries@.contains_key(path) implies !(remote.entries@[path].kind is File
            && remote.entries@[path].hash is None) by {
            let j = keys.index_of(path);
            assert(keys[j] == path);
        }
    }
    false
}

/// What a download takes into account, as its options say.
pub open spec fn scope_of(options: PullOptions) -> PullScope {
    PullScope { delete: options.delete, overwrite: options.overwrite, excludes: views(options.excludes@) }
}

/// Whether the numbers of a plan are large enough for a download.  Where the
/// exclude patterns are refused there is no plan.
pub open spec fn pull_countable(options: PullOptions, local: LocalManifest, remote: RemoteManifest) -> bool {
    excludes_error(views(options.excludes@)) is None ==> fits(local, remote, scope_of(options))
}

/// Whether a download was planned as its options say, or refused for its
/// exclude patterns.
pub open spec fn is_prepared(
    r: Result<PreparedPull, String>,
    options: PullOptions,
    local: LocalManifest,
    remote: RemoteManifest,
    enable_hash_index: bool,
) -> bool {
    match r {
        Ok(prepared) => {
            let scope = scope_of(options);
            &&& excludes_error(views(options.excludes@)) is None
            &&& prepared.options == options
            &&& prepared.remote == remote
            &&& arrangement_of::<PullAction>(planned(local, remote, scope), views(prepared.plan.actions@))
            &&& prepared.plan.tallied()
            &&& prepared.plan.unchanged == count_unchanged(remote.entries.keys(), local, remote, scope)
            &&& prepared.plan.retained_local == count_retained(local.entries.keys(), local, remote, scope)
            &&& views(prepared.plan.warnings@) == if !enable_hash_index && hashless_file(remote) {
                (views(local.warnings@) + views(remote.warnings@)).push(
                    "the bucket does not expose hashes for every file; existing same-size files remain conflicts unless --overwrite is used"@,
                )
            } else {
                views(local.warnings@) + views(remote.warnings@)
            }
        },
        Err(message) => excludes_error(views(options.excludes@)) == Some(message@),
    }
}

/// Plans a download of what was scanned, unless it has more entries or bytes
/// than a plan can count.
pub fn prepare_countable_pull(
    options: PullOptions,
    local: &LocalManifest,
    remote: RemoteManifest,
    enable_hash_index: bool,
) -> (r: Option<Result<PreparedPull, String>>)
    ensures
        r is Some == pull_countable(options, *local, remote),
        r matches Some(result) ==> is_prepared(result, options, *local, remote, enable_hash_index),
{
    if pull_fits(local, &remote, options.delete, options.overwrite, options.excludes.as_slice()) {
        Some(prepare_pull(options, local, remote, enable_hash_index))
    } else {
        None
    }
}

/// Plans a download of what was scanned.
pub fn prepare_pull(options: PullOptions, local: &LocalManifest, remote: RemoteManifest, enable_hash_index: bool) -> (r:
    Result<PreparedPull, String>)
    requires
        pull_countable(options, *local, remote),
    ensures
        is_prepared(r, options, *local, remote, enable_hash_index),
{
    let mut plan = match plan_pull(local, &remote, options.delete, options.overwrite, options.excludes.as_slice()) {
        Ok(plan) => plan,
        Err(message) => {
            return Err(message);
        },
    };
    if !enable_hash_index && has_hashless_file(&remote) {
        let ghost before = views(plan.warnings@);
        let warning = owned(
            "the bucket does not expose hashes for every file; existing same-size files remain conflicts unless --overwrite is used",
        );
        plan.warnings.push(warning);
        assert(views(plan.warnings@) =~= before.push(warning@));
    }
    Ok(PreparedPull { plan, options, remote })
}

/// Checks how often a query is to be tried again.
pub fn check_download_retries(retry: u8) -> (r: Result<(), String>)
    ensures
        match r {
            Ok(_) => retry <= MAX_DOWNLOAD_RETRIES,
            Err(message) => retry > MAX_DOWNLOAD_RETRIES && message@ == "retry count "@ + decimal(retry as nat)
                + " exceeds maximum 10"@,
        },
{
    if retry > MAX_DOWNLOAD_RETRIES {
        return Err(cat3("retry count ", decimal_text(retry as u64).as_str(), " exceeds maximum 10"));
    }
    Ok(())
}

/// Why a download is not carried out, if it is not.
pub open spec fn pull_refusal(plan: PullPlan, retry: u8) -> Option<Seq<char>> {
    if retry > MAX_DOWNLOAD_RETRIES {
        Some("retry count "@ + decimal(retry as nat) + " exceeds maximum 10"@)
    } else if plan.conflicts > 0 {
        Some("refusing to execute a download plan containing conflicts"@)
    } else {
        None
    }
}

/// Checks that a download may be carried out.
pub fn check_pull_executable(plan: &PullPlan, retry: u8) -> (r: Result<(), String>)
    ensures
        match r {
            Ok(_) => pull_refusal(*plan, retry) is None,
            Err(message) => pull_refusal(*plan, retry) == Some(message@),
        },
{
    if let Err(message) = check_download_retries(retry) {
        return Err(message);
    }
    if plan.has_conflicts() {
        return Err(owned("refusing to execute a download plan containing conflicts"));
    }
    Ok(())
}

/// The entry that a download was planned for.
pub fn expected_entry<'a>(remote: &'a RemoteManifest, path: &str) -> (r: Result<&'a RemoteEntry, String>)
    ensures
        match r {
            Ok(entry) => remote.entries@.contains_key(path@) && *entry == remote.entries@[path@],
            Err(message) => !remote.entries@.contains_key(path@) && message@ == "missing prepared remote entry for "@
                + path@,
        },
{
    match remote.entries.get(path) {
        Some(entry) => Ok(entry),
        None => Err(cat2("missing prepared remote entry for ", path)),
    }
}

/// What is at a local path, not following a symbolic link.
#[derive(Clone, Copy, Debug, PartialEq, Eq, Structural)]
pub enum PathState {
    Missing,
    Symlink,
    Directory,
    File,
    Other,
}

/// Checks the directory that is downloaded into, when the plan is made; tells
/// whether it is there.
pub fn check_download_root(state: PathState, shown: &str) -> (r: Result<bool, String>)
    ensures
        match r {
            Ok(present) => (state is Missing && !present) || (state is Directory && present),
            Err(message) => if state is Symlink {
                message@ == "local download root must not be a symbolic link: "@ + shown@
            } else {
                (state is File || state is Other) && message@ == "local download path is not a directory: "@ + shown@
            },
        },
{
    match state {
        PathState::Missing => Ok(false),
        PathState::Directory => Ok(true),
        PathState::Symlink => Err(cat2("local download root must not be a symbolic link: ", shown)),
        _ => Err(cat2("local download path is not a directory: ", shown)),
    }
}

/// Checks the directory that is downloaded into, when the plan is carried out;
/// tells whether it is there.
pub fn recheck_download_root(state: PathState, shown: &str) -> (r: Result<bool, String>)
    ensures
        match r {
            Ok(present) => (state is Missing && !present) || (state is Directory && present),
            Err(message) => if state is Symlink {
                message@ == "local download root became a symbolic link: "@ + shown@
            } else {
                (state is File || state is Other) && message@ == "local download root is not a directory: "@ + shown@
            },
        },
{
    match state {
        PathState::Missing => Ok(false),
        PathState::Directory => Ok(true),
        PathState::Symlink => Err(cat2("local download root became a symbolic link: ", shown)),
        _ => Err(cat2("local download root is not a directory: ", shown)),
    }
}

/// Checks a directory that is to be there; tells whether it is.
pub fn check_directory(state: PathState, shown: &str) -> (r: Result<bool, String>)
    ensures
        match r {
            Ok(present) => (state is Missing && !present) || (state is Directory && present),
            Err(message) => if state is Symlink {
                message@ == "refusing to traverse symbolic link "@ + shown@
            } else {
                (state is File || state is Other) && message@ == "local directory path is occupied by a file: "@ + shown@
            },
        },
{
    match state {
        PathState::Missing => Ok(false),
        PathState::Directory => Ok(true),
        PathState::Symlink => Err(cat2("refusing to traverse symbolic link ", shown)),
        _ => Err(cat2("local directory path is occupied by a file: ", shown)),
    }
}

/// Checks a directory on the way to an entry; tells whether it is there.
pub fn check_parent(state: PathState, shown: &str) -> (r: Result<bool, String>)
    ensures
        match r {
            Ok(present) => (state is Missing && !present) || (state is Directory && present),
            Err(message) => if state is Symlink {
                message@ == "refusing to traverse symbolic link "@ + shown@
            } else {
                (state is File || state is Other) && message@ == "local parent is not a directory: "@ + shown@
            },
        },
{
    match state {
        PathState::Missing => Ok(false),
        PathState::Directory => Ok(true),
        PathState::Symlink => Err(cat2("refusing to traverse symbolic link ", shown)),
        _ => Err(cat2("local parent is not a directory: ", shown)),
    }
}

/// Why a file may not be written at a path, if it may not.
pub open spec fn destination_error(state: PathState, replace: bool, shown: Seq<char>) -> Option<Seq<char>> {
    match state {
        PathState::Symlink => Some("refusing to replace symbolic link "@ + shown),
        PathState::Directory => Some("local file path is occupied by a directory: "@ + shown),
        PathState::Other => Some("local file path is occupied by a directory: "@ + shown),
        PathState::File => if replace {
            None
        } else {
            Some("local file appeared during sync: "@ + shown)
        },
        PathState::Missing => if replace {
            Some("local replacement target disappeared: "@ + shown)
        } else {
            None
        },
    }
}

/// Checks that a file may be written at a path: one that is replaced has to be
/// there, one that is new may not.
pub fn validate_destination(state: PathState, replace: bool, shown: &str) -> (r: Result<(), String>)
    ensures
        match r {
            Ok(_) => destination_error(state, replace, shown@) is None,
            Err(message) => destination_error(state, replace, shown@) == Some(message@),
        },
{
    match state {
        PathState::Symlink => Err(cat2("refusing to replace symbolic link ", shown)),
        PathState::Directory => Err(cat2("local file path is occupied by a directory: ", shown)),
        PathState::Other => Err(cat2("local file path is occupied by a directory: ", shown)),
        PathState::File => {
            if replace {
                Ok(())
            } else {
                Err(cat2("local file appeared during sync: ", shown))
            }
        },
        PathState::Missing => {
            if replace {
                Err(cat2("local replacement target disappeared: ", shown))
            } else {
                Ok(())
            }
        },
    }
}

/// Checks that what is to be deleted is of the kind that was planned.
pub fn check_deletion(state: PathState, directory: bool, shown: &str) -> (r: Result<(), String>)
    requires
        !(state is Missing),
    ensures
        match r {
            Ok(_) => if directory { state is Directory } else { state is File },
            Err(message) => if directory {
                !(state is Directory) && message@ == "refusing to delete non-directory local entry "@ + shown@
            } else {
                !(state is File) && message@ == "refusing to delete non-regular local file "@ + shown@
            },
        },
{
    if directory {
        if state != PathState::Directory {
            return Err(cat2("refusing to delete non-directory local entry ", shown));
        }
    } else if state != PathState::File {
        return Err(cat2("refusing to delete non-regular local file ", shown));
    }
    Ok(())
}

/// Why a file of the bucket is not the one that was planned for, if it is not.
pub open spec fn remote_file_error(info: FileInfo, expected: RemoteEntry) -> Option<Seq<char>> {
    if info.id != expected.id || info.size != expected.size || info.filled != expected.filled || info.hash
        != expected.hash {
        Some("remote file changed after planning: "@ + expected.path@ + " (id "@ + decimal(expected.id as nat) + ")"@)
    } else if info.size != info.filled {
        Some(
            "remote file is incomplete: "@ + expected.path@ + " ("@ + decimal(info.filled as nat) + "/"@ + decimal(
                info.size as nat,
            ) + ")"@,
        )
    } else {
        None
    }
}

/// Checks that a file of the bucket is the one that was planned for.
pub fn validate_remote_file(info: &FileInfo, expected: &RemoteEntry) -> (r: Result<(), String>)
    ensures
        match r {
            Ok(_) => remote_file_error(*info, *expected) is None,
            Err(message) => remote_file_error(*info, *expected) == Some(message@),
        },
{
    if info.id != expected.id || info.size != expected.size || info.filled != expected.filled || !same_hash(
        &info.hash,
        &expected.hash,
    ) {
        return Err(
            cat5(
                "remote file changed after planning: ",
                expected.path.as_str(),
                " (id ",
                decimal_text(expected.id as u64).as_str(),
                ")",
            ),
        );
    }
    if info.size != info.filled {
        return Err(
            cat7(
                "remote file is incomplete: ",
                expected.path.as_str(),
                " (",
                decimal_text(info.filled).as_str(),
                "/",
                decimal_text(info.size).as_str(),
                ")",
            ),
        );
    }
    Ok(())
}

/// Checks that a file of the bucket did not change while it was downloaded.
pub fn check_unchanged(before: &FileInfo, after: &FileInfo, relative: &str, remote_id: u32) -> (r: Result<(), String>)
    ensures
        ({
            let same = before.revision == after.revision && before.generation == after.generation && before.size
                == after.size && before.filled == after.filled && before.hash == after.hash;
            match r {
                Ok(_) => same,
                Err(message) => !same && message@ == "remote file changed during download: "@ + relative@ + " (id "@
                    + decimal(remote_id as nat) + ")"@,
            }
        }),
{
    if before.revision != after.revision || before.generation != after.generation || before.size != after.size
        || before.filled != after.filled || !same_hash(&before.hash, &after.hash) {
        return Err(
            cat5(
                "remote file changed during download: ",
                relative,
                " (id ",
                decimal_text(remote_id as u64).as_str(),
                ")",
            ),
        );
    }
    Ok(())
}

/// The mathematical form of a chunk.
pub struct ChunkView {
    pub index: u32,
    pub bytes: Seq<u8>,
}

impl View for FileChunk {
    type V = ChunkView;

    open spec fn view(&self) -> ChunkView {
        ChunkView { index: self.0, bytes: self.1@ }
    }
}

impl Arranged for FileChunk {
    /// Chunks come in the order of their indexes.
    open spec fn sort_key(view: ChunkView) -> SortKey {
        SortKey { rank: view.index as int, depth: 0, path: Seq::empty() }
    }

    fn comes_before(&self, other: &Self) -> (r: bool) {
        proof {
            crate::text::lemma_bytes_less_irreflexive(Seq::empty());
        }
        self.0 < other.0
    }
}

/// A file that is being downloaded.
pub struct Download {
    pub relative: String,
    pub size: u64,
    pub chunks: u32,
    pub hash: Option<[u8; 32]>,
    pub next_chunk: u32,
    pub downloaded: u64,
    pub hasher: sha3::Sha3_256,
}

/// Why a chunk is not the next one of a file, if it is not.
pub open spec fn chunk_error(
    relative: Seq<char>,
    size: u64,
    chunks: u32,
    next: int,
    downloaded: int,
    chunk: ChunkView,
) -> Option<Seq<char>> {
    let remaining = if size >= downloaded { size - downloaded } else { 0 };
    if chunk.index != next {
        Some(
            "remote file returned unexpected chunk "@ + decimal(chunk.index as nat) + ", expected "@ + decimal(
                next as nat,
            ) + ": "@ + relative,
        )
    } else if chunk.bytes.len() > remaining || (chunk.bytes.len() != CHUNK_SIZE && next + 1 < chunks) {
        Some("remote file returned an invalid chunk: "@ + relative)
    } else {
        None
    }
}

/// The bytes of the first chunks.
pub open spec fn chunk_bytes(chunks: Seq<ChunkView>) -> Seq<u8>
    decreases chunks.len(),
{
    if chunks.len() == 0 {
        Seq::empty()
    } else {
        chunk_bytes(chunks.drop_last()) + chunks.last().bytes
    }
}

/// The message for the first chunk that is not in order, counted from `from`.
pub open spec fn chunks_error(
    relative: Seq<char>,
    size: u64,
    chunks: u32,
    next: int,
    downloaded: int,
    received: Seq<ChunkView>,
    from: int,
) -> Option<Seq<char>>
    decreases received.len() - from,
{
    if from < 0 || from >= received.len() {
        None
    } else {
        match chunk_error(
            relative,
            size,
            chunks,
            next + from,
            downloaded + chunk_bytes(received.take(from)).len(),
            received[from],
        ) {
            Some(message) => Some(message),
            None => chunks_error(relative, size, chunks, next, downloaded, received, from + 1),
        }
    }
}

impl Download {
    /// The bytes that were received so far.
    pub open spec fn received(&self) -> Seq<u8> {
        absorbed(self.hasher)
    }

    /// As many bytes are counted as were received, and no more than the file
    /// has.
    pub open spec fn sound(&self) -> bool {
        self.downloaded == self.received().len() && self.downloaded <= self.size
    }

    /// What the download is of is as in `other`.
    pub open spec fn same_file(&self, other: &Download) -> bool {
        &&& self.relative == other.relative
        &&& self.size == other.size
        &&& self.chunks == other.chunks
        &&& self.hash == other.hash
    }

    /// The download of a file, before anything was received.
    pub fn start(relative: &str, info: &FileInfo) -> (r: Download)
        ensures
            r.sound(),
            r.relative@ == relative@,
            r.size == info.size,
            r.chunks == info.chunks,
            r.hash == info.hash,
            r.next_chunk == 0,
            r.received() == Seq::<u8>::empty(),
    {
        Download {
            relative: owned(relative),
            size: info.size,
            chunks: info.chunks,
            hash: info.hash,
            next_chunk: 0,
            downloaded: 0,
            hasher: hasher_new(),
        }
    }

    /// Whether chunks are missing.
    pub fn wants_more(&self) -> (r: bool)
        ensures
            r == (self.next_chunk < self.chunks),
    {
        self.next_chunk < self.chunks
    }

    /// Takes in chunks that the bucket sent, and gives them back in the order
    /// in which they are to be written.
    pub fn accept(&mut self, chunks: Vec<FileChunk>) -> (r: Result<Vec<FileChunk>, String>)
        requires
            old(self).sound(),
            old(self).next_chunk + chunks@.len() <= u32::MAX,
        ensures
            final(self).sound(),
            final(self).same_file(old(self)),
            if chunks@.len() == 0 {
                &&& r matches Err(message)
                &&& message@ == "remote file returned no chunk at index "@ + decimal(old(self).next_chunk as nat) + ": "@
                    + old(self).relative@
                &&& *final(self) == *old(self)
            } else {
                exists|sorted: Seq<ChunkView>| #[trigger]
                    arrangement_of::<FileChunk>(views(chunks@), sorted) && match chunks_error(
                        old(self).relative@,
                        old(self).size,
                        old(self).chunks,
                        old(self).next_chunk as int,
                        old(self).downloaded as int,
                        sorted,
                        0,
                    ) {
                        Some(reason) => {
                            &&& r matches Err(message)
                            &&& message@ == reason
                            &&& exists|n: int|
                                0 <= n < sorted.len() && final(self).next_chunk == old(self).next_chunk + n
                                    && final(self).received() == old(self).received() + #[trigger] chunk_bytes(
                                    sorted.take(n),
                                )
                        },
                        None => {
                            &&& r matches Ok(pieces)
                            &&& views(pieces@) == sorted
                            &&& final(self).received() == old(self).received() + chunk_bytes(sorted)
                            &&& final(self).next_chunk == old(self).next_chunk + sorted.len()
                            &&& final(self).downloaded == old(self).downloaded + chunk_bytes(sorted).len()
                        },
                    }
            },
    {
        if chunks.len() == 0 {
            return Err(
                cat4(
                    "remote file returned no chunk at index ",
                    decimal_text(self.next_chunk as u64).as_str(),
                    ": ",
                    self.relative.as_str(),
                ),
            );
        }
        let ghost given = views(chunks@);
        let ghost count = chunks@.len();
        let pieces = arrange(chunks);
        let ghost sorted = views(pieces@);
        let ghost start = *self;
        proof {
            vstd::seq_lib::to_multiset_len(given);
            vstd::seq_lib::to_multiset_len(sorted);
            assert(sorted.take(0) =~= Seq::empty());
            assert(start.received() + chunk_bytes(sorted.take(0)) =~= start.received());
        }
        for i in 0..pieces.len()
            invariant
                arrangement_of::<FileChunk>(given, sorted),
                given == views(chunks@),
                sorted == views(pieces@),
                sorted.len() == count,
                chunks@.len() == count,
                count > 0,
                start == *old(self),
                start.next_chunk + count <= u32::MAX,
                self.sound(),
                self.same_file(&start),
                self.next_chunk == start.next_chunk + i,
                self.received() == start.received() + chunk_bytes(sorted.take(i as int)),
                chunks_error(
                    start.relative@,
                    start.size,
                    start.chunks,
                    start.next_chunk as int,
                    start.downloaded as int,
                    sorted,
                    0,
                ) == chunks_error(
                    start.relative@,
                    start.size,
                    start.chunks,
                    start.next_chunk as int,
                    start.downloaded as int,
                    sorted,
                    i as int,
                ),
                start.sound(),
        {
            let chunk = &pieces[i];
            assert(sorted[i as int] == chunk@);
            if chunk.0 != self.next_chunk {
                return Err(
                    cat6(
                        "remote file returned unexpected chunk ",
                        decimal_text(chunk.0 as u64).as_str(),
                        ", expected ",
                        decimal_text(self.next_chunk as u64).as_str(),
                        ": ",
                        self.relative.as_str(),
                    ),
                );
            }
            let remaining: u64 = self.size - self.downloaded;
            let len: u64 = chunk.1.len() as u64;
            if len > remaining || (len != CHUNK_SIZE as u64 && (self.next_chunk as u64) + 1 < self.chunks as u64) {
                return Err(cat2("remote file returned an invalid chunk: ", self.relative.as_str()));
            }
            hasher_update(&mut self.hasher, chunk.1.as_slice());
            self.downloaded = self.downloaded + len;
            self.next_chunk = self.next_chunk + 1;
            proof {
                assert(sorted.take(i + 1).drop_last() =~= sorted.take(i as int));
                assert(self.received() =~= start.received() + chunk_bytes(sorted.take(i + 1)));
            }
        }
        assert(sorted.take(sorted.len() as int) =~= sorted);
        Ok(pieces)
    }

    /// Ends the download: the file has to have its length, and its hash where
    /// one is known.
    pub fn finish(self) -> (r: Result<[u8; 32], String>)
        requires
            self.sound(),
        ensures
            if self.downloaded != self.size || self.next_chunk != self.chunks {
                r matches Err(message) && message@ == "downloaded file length mismatch for "@ + self.relative@ + ": "@
                    + decimal(self.downloaded as nat) + "/"@ + decimal(self.size as nat) + " bytes"@
            } else if self.hash is Some && self.hash->0@ != sha3_256(self.received()) {
                r matches Err(message) && message@ == "downloaded file hash mismatch for "@ + self.relative@
                    + ": expected "@ + hex_text(self.hash->0@) + ", got "@ + hex_text(sha3_256(self.received()))
            } else {
                r matches Ok(digest) && digest@ == sha3_256(self.received())
            },
            r is Ok ==> self.received().len() == self.size && (self.hash is Some ==> self.hash->0@ == sha3_256(
                self.received(),
            )),
    {
        if self.downloaded != self.size || self.next_chunk != self.chunks {
            return Err(
                cat7(
                    "downloaded file length mismatch for ",
                    self.relative.as_str(),
                    ": ",
                    decimal_text(self.downloaded).as_str(),
                    "/",
                    decimal_text(self.size).as_str(),
                    " bytes",
                ),
            );
        }
        let Download { relative, size: _, chunks: _, hash, next_chunk: _, downloaded: _, hasher } = self;
        let digest = hasher_finalize(hasher);
        if let Some(expected) = hash {
            if !crate::text::same_bytes(expected.as_slice(), digest.as_slice()) {
                return Err(
                    cat6(
                        "downloaded file hash mismatch for ",
                        relative.as_str(),
                        ": expected ",
                        hex_encode(expected.as_slice()).as_str(),
                        ", got ",
                        hex_encode(digest.as_slice()).as_str(),
                    ),
                );
            }
        }
        Ok(digest)
    }
}

/// A download is carried out exactly where no step of its plan is a conflict
/// and queries are tried again at most ten times.
pub proof fn law_conflicting_downloads_are_refused(plan: PullPlan, retry: u8)
    requires
        plan.tallied(),
    ensures
        pull_refusal(plan, retry) is None <==> retry <= 10 && forall|i: int|
            0 <= i < plan.actions@.len() ==> !(#[trigger] plan.actions@[i]@ is Conflict),
{
    crate::sync::pull::law_pull_conflicts_are_counted(plan);
}

/// A file is written exactly where nothing is, if it is new, and exactly over a
/// file, if it replaces one.  No link and no directory is ever written over.
pub proof fn law_only_files_are_written_over(state: PathState, replace: bool, shown: Seq<char>)
    ensures
        destination_error(state, replace, shown) is None <==> if replace {
            state is File
        } else {
            state is Missing
        },
{
}

/// A file is downloaded exactly where it is still the one that was planned for,
/// with the same identifier, size and hash, and is complete.
pub proof fn law_only_planned_files_are_downloaded(info: FileInfo, expected: RemoteEntry)
    ensures
        remote_file_error(info, expected) is None <==> {
            &&& info.id == expected.id
            &&& info.size == expected.size
            &&& info.hash == expected.hash
            &&& info.filled == expected.filled
            &&& info.filled == info.size
        },
{
}

proof fn lemma_chunk_bytes_take(received: Seq<ChunkView>, n: int)
    requires
        0 <= n < received.len(),
    ensures
        chunk_bytes(received.take(n + 1)).len() == chunk_bytes(received.take(n)).len() + received[n].bytes.len(),
{
    assert(received.take(n + 1).drop_last() =~= received.take(n));
}

proof fn lemma_accepted_chunks(
    relative: Seq<char>,
    size: u64,
    chunks: u32,
    next: int,
    downloaded: int,
    received: Seq<ChunkView>,
    from: int,
)
    requires
        0 <= from <= received.len(),
        0 <= downloaded + chunk_bytes(received.take(from)).len() <= size,
    ensures
        chunks_error(relative, size, chunks, next, downloaded, received, from) is None <==> {
            &&& forall|i: int|
                from <= i < received.len() ==> (#[trigger] received[i]).index == next + i && (next + i + 1 < chunks
                    ==> received[i].bytes.len() == CHUNK_SIZE)
            &&& downloaded + chunk_bytes(received).len() <= size
        },
    decreases received.len() - from,
{
    assert(received.take(received.len() as int) =~= received);
    if from < received.len() {
        lemma_chunk_bytes_take(received, from);
        lemma_chunk_bytes_grow(received, from + 1);
        if chunk_error(
            relative,
            size,
            chunks,
            next + from,
            downloaded + chunk_bytes(received.take(from)).len(),
            received[from],
        ) is None {
            lemma_accepted_chunks(relative, size, chunks, next, downloaded, received, from + 1);
        } else {
            assert(received[from].index == next + from ==> received[from].bytes.len() > size - (downloaded + chunk_bytes(
                received.take(from),
            ).len()) || received[from].bytes.len() != CHUNK_SIZE);
        }
    }
}

proof fn lemma_chunk_bytes_grow(received: Seq<ChunkView>, n: int)
    requires
        0 <= n <= received.len(),
    ensures
        chunk_bytes(received.take(n)).len() <= chunk_bytes(received).len(),
    decreases received.len() - n,
{
    assert(received.take(received.len() as int) =~= received);
    if n < received.len() {
        lemma_chunk_bytes_take(received, n);
        lemma_chunk_bytes_grow(received, n + 1);
    }
}

/// What a bucket sends is taken exactly where it goes on with the file: the
/// chunks follow each other from the one that is next, every one but the last
/// of the file is full, and there are no more bytes than the file has.
pub proof fn law_only_the_next_chunks_are_taken(
    relative: Seq<char>,
    size: u64,
    chunks: u32,
    next: int,
    downloaded: int,
    received: Seq<ChunkView>,
)
    requires
        0 <= downloaded <= size,
    ensures
        chunks_error(relative, size, chunks, next, downloaded, received, 0) is None <==> {
            &&& forall|i: int|
                0 <= i < received.len() ==> (#[trigger] received[i]).index == next + i && (next + i + 1 < chunks
                    ==> received[i].bytes.len() == 262144)
            &&& downloaded + chunk_bytes(received).len() <= size
        },
{
    assert(received.take(0) =~= Seq::empty());
    lemma_accepted_chunks(relative, size, chunks, next, downloaded, received, 0);
}

proof fn lemma_chunk_bytes_add(a: Seq<ChunkView>, b: Seq<ChunkView>)
    ensures
        chunk_bytes(a + b) == chunk_bytes(a) + chunk_bytes(b),
    decreases b.len(),
{
    if b.len() == 0 {
        assert(a + b =~= a);
        assert(chunk_bytes(a) + chunk_bytes(b) =~= chunk_bytes(a));
    } else {
        assert((a + b).drop_last() =~= a + b.drop_last());
        lemma_chunk_bytes_add(a, b.drop_last());
        assert(chunk_bytes(a + b) =~= chunk_bytes(a) + chunk_bytes(b));
    }
}

/// The bytes of chunks are those of the first, then those of the rest, each as
/// it is.
pub proof fn law_chunk_bytes_are_in_order(chunk: ChunkView, rest: Seq<ChunkView>)
    ensures
        chunk_bytes(seq![chunk] + rest) == chunk.bytes + chunk_bytes(rest),
        chunk_bytes(Seq::empty()).len() == 0,
{
    lemma_chunk_bytes_add(seq![chunk], rest);
    assert(seq![chunk].drop_last() =~= Seq::empty());
    reveal_with_fuel(chunk_bytes, 2);
    assert(chunk_bytes(seq![chunk]) =~= chunk.bytes);
}

/// Chunks are put in the order of their indexes.
pub proof fn law_chunks_are_sorted_by_index(input: Seq<ChunkView>, output: Seq<ChunkView>, i: int, j: int)
    requires
        arrangement_of::<FileChunk>(input, output),
        0 <= i < j < output.len(),
    ensures
        output[i].index <= output[j].index,
{
    assert(!crate::sync::arrange::key_less(FileChunk::sort_key(output[j]), FileChunk::sort_key(output[i])));
}

/// A download deletes and overwrites only as its options say, and leaves out
/// what they exclude.
pub proof fn law_options_are_the_scope(options: PullOptions)
    ensures
        scope_of(options).delete == options.delete,
        scope_of(options).overwrite == options.overwrite,
        scope_of(options).excludes.len() == options.excludes@.len(),
        forall|i: int| 0 <= i < options.excludes@.len() ==> #[trigger] scope_of(options).excludes[i] == options.excludes@[i]@,
{
}

/// A chunk is seen with its index and its bytes, and a download stays that of
/// its file.
pub proof fn law_chunks_are_seen_as_they_are(chunk: &FileChunk, after: &Download, before: &Download)
    ensures
        chunk@.index == chunk.0,
        chunk@.bytes == chunk.1@,
        after.same_file(before) <==> {
            &&& after.relative == before.relative
            &&& after.size == before.size
            &&& after.chunks == before.chunks
            &&& after.hash == before.hash
        },
        before.sound() ==> before.downloaded == before.received().len() <= before.size,
{
}

/// A download is planned for the entries of both sides and keeps its options,
/// and the warnings of the scans come with it, in front of the one about files
/// without a hash.
pub proof fn law_downloads_are_planned_with_their_warnings(
    prepared: PreparedPull,
    options: PullOptions,
    local: LocalManifest,
    remote: RemoteManifest,
    enable_hash_index: bool,
)
    requires
        is_prepared(Ok(prepared), options, local, remote, enable_hash_index),
    ensures
        prepared.options == options,
        prepared.remote == remote,
        excludes_error(views(options.excludes@)) is None,
        ({
            let scanned = views(local.warnings@) + views(remote.warnings@);
            let warned = views(prepared.plan.warnings@);
            let hashless = exists|path: Seq<char>|
                #[trigger] remote.entries@.contains_key(path) && remote.entries@[path].kind is File
                    && remote.entries@[path].hash is None;
            if hashless && !enable_hash_index {
                warned.len() == scanned.len() + 1 && warned.drop_last() == scanned
            } else {
                warned == scanned
            }
        }),
        prepared.plan.tallied(),
        arrangement_of::<PullAction>(planned(local, remote, scope_of(options)), views(prepared.plan.actions@)),
{
    let scanned = views(local.warnings@) + views(remote.warnings@);
    assert(
        scanned.push(
            "the bucket does not expose hashes for every file; existing same-size files remain conflicts unless --overwrite is used"@,
        ).drop_last() =~= scanned);
}

} // verus!

//! Preparing and carrying out an upload synchronisation.
use vstd::prelude::*;

use crate::bucket::BucketInfo;
use crate::entry::{fault_debug, BucketCapabilities, EnsureFolderInput, MigrationState, SyncError};
use crate::framing::{be64, framed, push_be64, push_bytes, push_framed};
use crate::ordered::PathMap;
use crate::outside::{debug_quoted, debug_text, digest_of, random_bytes, sha3_256};
use crate::sync::arrange::{arrangement_of, views};
use crate::sync::excludes::excludes_error;
use crate::sync::journal::{recovery_text, recovery_warning, SavedJournal};
use crate::sync::local::{scan_local, scan_start, LocalScan, SavedCache, ScanLimits};
use crate::sync::planner::{
    count_retained, count_unchanged, fits, plan_sync, planned, Plan, PlanAction, PlanOptions, PlanStep,
};
use crate::sync::tree::{nothing_missed, scan_sound};
use crate::sync::types::{parent_of, parent_path, EntryKind, LocalEntry, LocalManifest, RemoteEntry, RemoteManifest};
use crate::text::{after_last, cat2, cat3, cat4, chars_of, find_last, owned, utf8};

verus! {

/// What a synchronisation can use of a bucket.
#[derive(Clone, Copy, Debug, PartialEq, Eq, Structural)]
pub struct SyncSupport {
    pub manifest: bool,
    pub ensure_folder: bool,
    pub atomic_upload: bool,
    pub incremental_delete: bool,
    pub batch_operations: bool,
}

/// What a synchronisation can use of a bucket with the given capabilities;
/// nothing where they are not known.
pub fn sync_support(capabilities: Option<&BucketCapabilities>) -> (r: SyncSupport)
    ensures
        match capabilities {
            Some(value) => {
                &&& r.manifest == (value.manifest && value.migration_state is Ready)
                &&& r.ensure_folder == value.ensure_folder
                &&& r.atomic_upload == (value.upload_sessions && value.atomic_commit && value.migration_state is Ready)
                &&& r.incremental_delete == (value.conditional_delete && value.incremental_gc
                    && value.migration_state is Ready)
                &&& r.batch_operations == (value.batch_operations == Some(true))
            },
            None => !r.manifest && !r.ensure_folder && !r.atomic_upload && !r.incremental_delete && !r.batch_operations,
        },
{
    match capabilities {
        Some(value) => {
            let ready = value.migration_state == MigrationState::Ready;
            SyncSupport {
                manifest: value.manifest && ready,
                ensure_folder: value.ensure_folder,
                atomic_upload: value.upload_sessions && value.atomic_commit && ready,
                incremental_delete: value.conditional_delete && value.incremental_gc && ready,
                batch_operations: match value.batch_operations {
                    Some(enabled) => enabled,
                    None => false,
                },
            }
        },
        None => SyncSupport {
            manifest: false,
            ensure_folder: false,
            atomic_upload: false,
            incremental_delete: false,
            batch_operations: false,
        },
    }
}

/// How deep the folder is that is synchronised, given how many folders stand
/// above it.
pub fn parent_depth(remote_parent: u32, ancestors: usize) -> (r: usize)
    requires
        ancestors < usize::MAX,
    ensures
        r == if remote_parent == 0 { 0 } else { ancestors + 1 },
{
    if remote_parent == 0 {
        0
    } else {
        ancestors + 1
    }
}

/// The bytes that stand for an entry in the hash of a manifest.
#[verifier::opaque]
pub open spec fn entry_bytes(path: Seq<char>, entry: LocalEntry) -> Seq<u8> {
    framed(utf8(path)) + seq![if entry.kind is File { 0u8 } else { 1u8 }] + be64(entry.size) + match entry.hash {
        Some(hash) => seq![1u8] + hash@,
        None => seq![0u8],
    }
}

/// The bytes that stand for the entries with the given paths.
pub open spec fn manifest_bytes(paths: Seq<Seq<char>>, entries: Map<Seq<char>, LocalEntry>) -> Seq<u8>
    decreases paths.len(),
{
    if paths.len() == 0 {
        Seq::empty()
    } else {
        entry_bytes(paths[0], entries[paths[0]]) + manifest_bytes(paths.drop_first(), entries)
    }
}

proof fn lemma_manifest_bytes_push(paths: Seq<Seq<char>>, path: Seq<char>, entries: Map<Seq<char>, LocalEntry>)
    ensures
        manifest_bytes(paths.push(path), entries) == manifest_bytes(paths, entries) + entry_bytes(path, entries[path]),
    decreases paths.len(),
{
    if paths.len() == 0 {
        assert(paths.push(path).drop_first() =~= Seq::empty());
        reveal_with_fuel(manifest_bytes, 2);
        assert(manifest_bytes(paths.push(path), entries) =~= manifest_bytes(paths, entries) + entry_bytes(
            path,
            entries[path],
        ));
    } else {
        assert(paths.push(path).drop_first() =~= paths.drop_first().push(path));
        lemma_manifest_bytes_push(paths.drop_first(), path, entries);
        assert(manifest_bytes(paths.push(path), entries) =~= manifest_bytes(paths, entries) + entry_bytes(
            path,
            entries[path],
        ));
    }
}

fn push_entry(out: &mut Vec<u8>, path: &str, entry: &LocalEntry)
    ensures
        final(out)@ == old(out)@ + entry_bytes(path@, *entry),
{
    let ghost before = out@;
    push_framed(out, path.as_bytes());
    match entry.kind {
        EntryKind::File => {
            out.push(0);
        },
        EntryKind::Directory => {
            out.push(1);
        },
    }
    push_be64(out, entry.size);
    match &entry.hash {
        Some(hash) => {
            out.push(1);
            push_bytes(out, hash.as_slice());
        },
        None => {
            out.push(0);
        },
    }
    proof {
        reveal(entry_bytes);
    }
    assert(out@ =~= before + entry_bytes(path@, *entry));
}

/// The hash of a local manifest: of its paths, kinds, sizes and content hashes.
pub fn manifest_hash(manifest: &LocalManifest) -> (r: [u8; 32])
    ensures
        r@ == sha3_256(manifest_bytes(manifest.entries.keys(), manifest.entries@)),
{
    let n: usize = manifest.entries.len();
    let ghost keys = manifest.entries.keys();
    let mut bytes: Vec<u8> = Vec::new();
    assert(keys.take(0) =~= Seq::empty());
    for i in 0..n
        invariant
            keys == manifest.entries.keys(),
            n == keys.len(),
            bytes@ == manifest_bytes(keys.take(i as int), manifest.entries@),
    {
        push_entry(&mut bytes, manifest.entries.path_at(i).as_str(), manifest.entries.value_at(i));
        proof {
            assert(keys.take(i + 1) =~= keys.take(i as int).push(keys[i as int]));
            lemma_manifest_bytes_push(keys.take(i as int), keys[i as int], manifest.entries@);
        }
    }
    assert(keys.take(keys.len() as int) =~= keys);
    digest_of(bytes.as_slice())
}

/// Whether two entries look the same to the hash of a manifest.
pub open spec fn same_content(a: LocalEntry, b: LocalEntry) -> bool {
    a.kind == b.kind && a.size == b.size && a.hash == b.hash
}

proof fn lemma_entry_bytes_injective(a: Seq<char>, x: LocalEntry, s: Seq<u8>, b: Seq<char>, y: LocalEntry, t: Seq<u8>)
    requires
        utf8(a).len() <= u64::MAX,
        utf8(b).len() <= u64::MAX,
        entry_bytes(a, x) + s == entry_bytes(b, y) + t,
    ensures
        a == b,
        same_content(x, y),
        s == t,
{
    reveal(entry_bytes);
    crate::framing::lemma_be_len(0, x.size);
    crate::framing::lemma_be_len(0, y.size);
    let xs = seq![if x.kind is File { 0u8 } else { 1u8 }] + be64(x.size) + match x.hash {
        Some(hash) => seq![1u8] + hash@,
        None => seq![0u8],
    };
    let ys = seq![if y.kind is File { 0u8 } else { 1u8 }] + be64(y.size) + match y.hash {
        Some(hash) => seq![1u8] + hash@,
        None => seq![0u8],
    };
    assert(entry_bytes(a, x) + s =~= framed(utf8(a)) + (xs + s));
    assert(entry_bytes(b, y) + t =~= framed(utf8(b)) + (ys + t));
    crate::framing::law_framing_is_unambiguous(utf8(a), xs + s, utf8(b), ys + t);
    crate::text::lemma_utf8_injective(a, b);
    let p = xs + s;
    let q = ys + t;
    assert(p[0] == q[0]);
    assert(p.subrange(1, 9) =~= be64(x.size));
    assert(q.subrange(1, 9) =~= be64(y.size));
    crate::framing::lemma_be64_injective(x.size, y.size);
    assert(p[9] == q[9]);
    match (x.hash, y.hash) {
        (Some(g), Some(h)) => {
            assert(p.subrange(10, 42) =~= g@);
            assert(q.subrange(10, 42) =~= h@);
            assert(g =~= h);
            assert(p.skip(42) =~= s);
            assert(q.skip(42) =~= t);
        },
        (None, None) => {
            assert(p.skip(10) =~= s);
            assert(q.skip(10) =~= t);
        },
        _ => {},
    }
}

proof fn lemma_entry_bytes_len(path: Seq<char>, entry: LocalEntry)
    ensures
        entry_bytes(path, entry).len() > 0,
{
    reveal(entry_bytes);
}

/// What a manifest is hashed as determines it: two manifests that are hashed
/// as the same bytes have the same paths, and the same kind, size and content
/// hash for each.
pub proof fn law_manifest_bytes_are_unambiguous(
    a: Seq<Seq<char>>,
    x: Map<Seq<char>, LocalEntry>,
    b: Seq<Seq<char>>,
    y: Map<Seq<char>, LocalEntry>,
)
    requires
        manifest_bytes(a, x) == manifest_bytes(b, y),
        forall|i: int| 0 <= i < a.len() ==> utf8(#[trigger] a[i]).len() <= u64::MAX,
        forall|i: int| 0 <= i < b.len() ==> utf8(#[trigger] b[i]).len() <= u64::MAX,
    ensures
        a == b,
        forall|i: int| 0 <= i < a.len() ==> same_content(x[#[trigger] a[i]], y[a[i]]),
    decreases a.len(),
{
    if a.len() == 0 {
        if b.len() > 0 {
            lemma_entry_bytes_len(b[0], y[b[0]]);
            assert(manifest_bytes(b, y).len() > 0);
        }
        assert(a =~= b);
    } else if b.len() == 0 {
        lemma_entry_bytes_len(a[0], x[a[0]]);
        assert(manifest_bytes(a, x).len() > 0);
    } else {
        let s = manifest_bytes(a.drop_first(), x);
        let t = manifest_bytes(b.drop_first(), y);
        assert(utf8(a[0]).len() <= u64::MAX && utf8(b[0]).len() <= u64::MAX);
        assert(manifest_bytes(a, x) == entry_bytes(a[0], x[a[0]]) + s);
        assert(manifest_bytes(b, y) == entry_bytes(b[0], y[b[0]]) + t);
        lemma_entry_bytes_injective(a[0], x[a[0]], s, b[0], y[b[0]], t);
        assert forall|i: int| 0 <= i < a.drop_first().len() implies utf8(#[trigger] a.drop_first()[i]).len() <= u64::MAX by {
            assert(a.drop_first()[i] == a[i + 1]);
        }
        assert forall|i: int| 0 <= i < b.drop_first().len() implies utf8(#[trigger] b.drop_first()[i]).len() <= u64::MAX by {
            assert(b.drop_first()[i] == b[i + 1]);
        }
        law_manifest_bytes_are_unambiguous(a.drop_first(), x, b.drop_first(), y);
        assert(a =~= seq![a[0]] + a.drop_first());
        assert(b =~= seq![b[0]] + b.drop_first());
        assert forall|i: int| 0 <= i < a.len() implies same_content(x[#[trigger] a[i]], y[a[i]]) by {
            if i > 0 {
                assert(a.drop_first()[i - 1] == a[i]);
            }
        }
    }
}

/// What a synchronisation is to do.
#[derive(Clone, Debug)]
pub struct SyncOptions {
    pub bucket: String,
    pub local_root: String,
    pub remote_parent: u32,
    pub delete: bool,
    pub overwrite: bool,
    pub excludes: Vec<String>,
}

/// Begins the scan of the local tree that is to be uploaded, within the limits
/// of the bucket.  A symbolic link in it is refused.  `ancestors` is the number
/// of folders above the remote folder.
pub fn sync_scan(options: &SyncOptions, bucket: &BucketInfo, ancestors: usize, saved: SavedCache) -> (r: Result<
    LocalScan,
    String,
>)
    requires
        ancestors < usize::MAX,
    ensures
        match r {
            Ok(scan) => {
                let limits = ScanLimits {
                    max_file_size: bucket.max_file_size,
                    max_folder_depth: bucket.max_folder_depth as usize,
                    parent_depth: if options.remote_parent == 0 {
                        0
                    } else {
                        (ancestors + 1) as usize
                    },
                    max_children: bucket.max_children as usize,
                };
                &&& excludes_error(views(options.excludes@)) is None
                &&& scan@ == scan_start(views(options.excludes@), limits, true, Some(saved))
                &&& scan_sound(scan@)
                &&& nothing_missed(scan@, Map::empty())
            },
            Err(message) => excludes_error(views(options.excludes@)) == Some(message@),
        },
{
    let depth: usize = parent_depth(options.remote_parent, ancestors);
    match scan_local(
        options.excludes.as_slice(),
        bucket.max_file_size,
        bucket.max_folder_depth as usize,
        depth,
        bucket.max_children as usize,
        Some(saved),
    ) {
        Ok(scan) => Ok(scan.refusing_links()),
        Err(message) => Err(message),
    }
}

/// A synchronisation that is planned.
#[derive(Debug)]
pub struct PreparedSync {
    pub plan: Plan,
    pub options: SyncOptions,
    pub local: LocalManifest,
    pub remote: RemoteManifest,
    pub enable_hash_index: bool,
    pub local_manifest_hash: [u8; 32],
    pub support: SyncSupport,
}

/// The warnings of a plan: those of the scans, then what is to tell of an
/// earlier run, then that the capabilities are not known.
pub open spec fn prepared_warnings(
    scanned: Seq<Seq<char>>,
    recovery: Option<Seq<char>>,
    capability_error: Option<Seq<char>>,
) -> Seq<Seq<char>> {
    let first = match recovery {
        Some(text) => scanned.push(text),
        None => scanned,
    };
    match capability_error {
        Some(err) => first.push(
            "capability discovery is unavailable ("@ + err + "); safe optimizations are disabled"@,
        ),
        None => first,
    }
}

/// Plans a synchronisation of what was scanned.  The capabilities are those
/// the bucket reported, or the error that it gave instead.
pub fn prepare_sync(
    options: SyncOptions,
    local: LocalManifest,
    remote: RemoteManifest,
    enable_hash_index: bool,
    capabilities: Result<BucketCapabilities, String>,
    saved: &SavedJournal,
) -> (r: PreparedSync)
    requires
        fits(local, remote, PlanOptions { delete: options.delete, overwrite: options.overwrite }),
    ensures
        r.options == options,
        r.local == local,
        r.remote == remote,
        r.enable_hash_index == enable_hash_index,
        r.local_manifest_hash@ == sha3_256(manifest_bytes(local.entries.keys(), local.entries@)),
        ({
            let plan_options = PlanOptions { delete: options.delete, overwrite: options.overwrite };
            &&& arrangement_of::<PlanAction>(planned(local, remote, plan_options), views(r.plan.actions@))
            &&& r.plan.tallied()
            &&& r.plan.unchanged == count_unchanged(local.entries.keys(), local, remote)
            &&& r.plan.retained_remote == count_retained(remote.entries.keys(), local, plan_options)
        }),
        views(r.plan.warnings@) == prepared_warnings(
            views(local.warnings@) + views(remote.warnings@),
            recovery_text(*saved, r.local_manifest_hash@),
            match capabilities {
                Ok(_) => None,
                Err(err) => Some(err@),
            },
        ),
        match capabilities {
            Ok(value) => {
                &&& r.support.manifest == (value.manifest && value.migration_state is Ready)
                &&& r.support.ensure_folder == value.ensure_folder
                &&& r.support.atomic_upload == (value.upload_sessions && value.atomic_commit
                    && value.migration_state is Ready)
                &&& r.support.incremental_delete == (value.conditional_delete && value.incremental_gc
                    && value.migration_state is Ready)
                &&& r.support.batch_operations == (value.batch_operations == Some(true))
            },
            Err(_) => r.support == (SyncSupport {
                manifest: false,
                ensure_folder: false,
                atomic_upload: false,
                incremental_delete: false,
                batch_operations: false,
            }),
        },
{
    let local_manifest_hash = manifest_hash(&local);
    let mut plan = plan_sync(
        &local,
        &remote,
        PlanOptions { delete: options.delete, overwrite: options.overwrite },
    );
    let ghost scanned = views(plan.warnings@);
    if let Some(warning) = recovery_warning(saved, &local_manifest_hash) {
        plan.warnings.push(warning);
        assert(views(plan.warnings@) =~= scanned.push(warning@));
    }
    let ghost first = views(plan.warnings@);
    let support = match &capabilities {
        Ok(value) => sync_support(Some(value)),
        Err(err) => {
            let warning = cat3(
                "capability discovery is unavailable (",
                err.as_str(),
                "); safe optimizations are disabled",
            );
            plan.warnings.push(warning);
            assert(views(plan.warnings@) =~= first.push(warning@));
            sync_support(None)
        },
    };
    PreparedSync { plan, options, local, remote, enable_hash_index, local_manifest_hash, support }
}

/// Whether a plan deletes something.
pub open spec fn deletes(steps: Seq<PlanStep>) -> bool {
    exists|i: int| 0 <= i < steps.len() && (#[trigger] steps[i] is DeleteFile || steps[i] is DeleteDirectory)
}

/// Why a plan is not carried out, if it is not.
pub open spec fn refusal(prepared: PreparedSync) -> Option<Seq<char>> {
    if prepared.plan.conflicts > 0 {
        Some("refusing to execute a sync plan containing conflicts"@)
    } else if !prepared.support.incremental_delete && deletes(views(prepared.plan.actions@)) {
        Some(
            "refusing to execute delete actions because the bucket is not Ready with conditional deletion plus incremental garbage collection"@,
        )
    } else if prepared.plan.replace_files > 0 && !prepared.support.atomic_upload {
        Some("refusing to replace files because the bucket is not Ready with atomic upload support"@)
    } else {
        None
    }
}

/// Checks that a plan may be carried out.
pub fn check_executable(prepared: &PreparedSync) -> (r: Result<(), String>)
    ensures
        match r {
            Ok(_) => refusal(*prepared) is None,
            Err(message) => refusal(*prepared) == Some(message@),
        },
{
    if prepared.plan.has_conflicts() {
        return Err(owned("refusing to execute a sync plan containing conflicts"));
    }
    let ghost steps = views(prepared.plan.actions@);
    let mut found = false;
    for i in 0..prepared.plan.actions.len()
        invariant
            steps == views(prepared.plan.actions@),
            found == exists|j: int| 0 <= j < i && (#[trigger] steps[j] is DeleteFile || steps[j] is DeleteDirectory),
    {
        assert(steps[i as int] == prepared.plan.actions@[i as int]@);
        match &prepared.plan.actions[i] {
            PlanAction::DeleteFile { .. } => {
                found = true;
            },
            PlanAction::DeleteDirectory { .. } => {
                found = true;
            },
            _ => {},
        }
    }
    if !prepared.support.incremental_delete && found {
        return Err(
            owned(
                "refusing to execute delete actions because the bucket is not Ready with conditional deletion plus incremental garbage collection",
            ),
        );
    }
    if prepared.plan.replace_files > 0 && !prepared.support.atomic_upload {
        return Err(
            owned("refusing to replace files because the bucket is not Ready with atomic upload support"),
        );
    }
    Ok(())
}

/// The folders of the bucket by their path; the empty path is the folder that
/// is synchronised.
pub open spec fn known_folders(remote_parent: u32, entries: Map<Seq<char>, RemoteEntry>) -> Map<Seq<char>, u32> {
    Map::new(
        |path: Seq<char>| path.len() == 0 || (entries.contains_key(path) && entries[path].kind is Directory),
        |path: Seq<char>|
            if entries.contains_key(path) && entries[path].kind is Directory {
                entries[path].id
            } else {
                remote_parent
            },
    )
}

/// The folders of the bucket by their path.
pub fn initial_folders(remote_parent: u32, remote: &RemoteManifest) -> (r: PathMap<u32>)
    ensures
        r@ == known_folders(remote_parent, remote.entries@),
{
    let mut folders: PathMap<u32> = PathMap::new();
    folders.insert(String::new(), remote_parent);
    let n: usize = remote.entries.len();
    let ghost keys = remote.entries.keys();
    proof {
        remote.entries.lemma_contents();
    }
    let ghost root = Map::<Seq<char>, u32>::empty().insert(Seq::empty(), remote_parent);
    assert(folders@ =~= root);
    assert forall|path: Seq<char>| path.len() == 0 implies path == Seq::<char>::empty() by {
        assert(path =~= Seq::<char>::empty());
    }
    for i in 0..n
        invariant
            keys == remote.entries.keys(),
            n == keys.len(),
            keys.no_duplicates(),
            forall|path: Seq<char>| #[trigger] folders@.contains_key(path) <==> path.len() == 0 || exists|j: int|
                0 <= j < i && #[trigger] keys[j] == path && remote.entries@[path].kind is Directory,
            forall|path: Seq<char>|
                #[trigger] folders@.contains_key(path) ==> folders@[path] == if exists|j: int|
                    0 <= j < i && #[trigger] keys[j] == path && remote.entries@[path].kind is Directory {
                    remote.entries@[path].id
                } else {
                    remote_parent
                },
    {
        let entry = remote.entries.value_at(i);
        let ghost before = folders@;
        let ghost own = keys[i as int];
        if entry.kind == EntryKind::Directory {
            let path = remote.entries.path_at(i);
            folders.insert(path.clone(), entry.id);
        }
        assert forall|path: Seq<char>| #[trigger] folders@.contains_key(path) <==> path.len() == 0 || exists|j: int|
            0 <= j < i + 1 && #[trigger] keys[j] == path && remote.entries@[path].kind is Directory by {
            if exists|j: int| 0 <= j < i && #[trigger] keys[j] == path && remote.entries@[path].kind is Directory {
                assert(before.contains_key(path));
            }
            if path == own {
                assert(keys[i as int] == path);
            }
            assert(before.contains_key(path) ==> folders@.contains_key(path));
        }
        assert forall|path: Seq<char>| #[trigger] folders@.contains_key(path) implies folders@[path] == if exists|j: int|
            0 <= j < i + 1 && #[trigger] keys[j] == path && remote.entries@[path].kind is Directory {
            remote.entries@[path].id
        } else {
            remote_parent
        } by {
            if path != own {
                assert(before.contains_key(path));
                if exists|j: int| 0 <= j < i + 1 && #[trigger] keys[j] == path && remote.entries@[path].kind is Directory {
                    let j = choose|j: int| 0 <= j < i + 1 && #[trigger] keys[j] == path && remote.entries@[path].kind is Directory;
                    assert(j < i);
                }
            } else {
                assert(keys[i as int] == path);
                if !(entry.kind is Directory) {
                    assert(before.contains_key(path));
                }
            }
        }
    }
    proof {
        assert forall|path: Seq<char>| folders@.contains_key(path) <==> known_folders(
            remote_parent,
            remote.entries@,
        ).contains_key(path) by {
            if remote.entries@.contains_key(path) {
                let j = keys.index_of(path);
                assert(keys[j] == path);
            }
            if exists|j: int| 0 <= j < keys.len() && #[trigger] keys[j] == path {
                assert(keys.contains(path));
            }
        }
        assert forall|path: Seq<char>| #[trigger] folders@.contains_key(path) implies folders@[path] == known_folders(
            remote_parent,
            remote.entries@,
        )[path] by {
            if remote.entries@.contains_key(path) {
                let j = keys.index_of(path);
                assert(keys[j] == path);
            }
            if exists|j: int| 0 <= j < keys.len() && #[trigger] keys[j] == path {
                assert(keys.contains(path));
            }
        }
        assert(folders@ =~= known_folders(remote_parent, remote.entries@));
    }
    folders
}

/// The name of an entry: what stands behind the last slash of its path.
pub open spec fn name_of(path: Seq<char>) -> Result<Seq<char>, Seq<char>> {
    if after_last(path, '/').len() == 0 {
        Err("invalid empty entry name in relative path "@ + debug_text(path))
    } else {
        Ok(after_last(path, '/'))
    }
}

/// The name of an entry.
pub fn entry_name(path: &str) -> (r: Result<&str, String>)
    ensures
        match r {
            Ok(name) => name_of(path@) == Ok::<Seq<char>, Seq<char>>(name@),
            Err(message) => name_of(path@) == Err::<Seq<char>, Seq<char>>(message@),
        },
{
    let chars = chars_of(path);
    let size: usize = chars.len();
    let name = match find_last(chars.as_slice(), '/') {
        Some(at) => {
            assert(chars@.subrange(at + 1, chars@.len() as int) =~= chars@.skip(at + 1));
            path.substring_char(at + 1, size)
        },
        None => path,
    };
    if name.is_empty() {
        return Err(cat2("invalid empty entry name in relative path ", debug_quoted(path).as_str()));
    }
    Ok(name)
}

/// The folder that an entry goes into, or why it is not known.
pub open spec fn parent_folder(folders: Map<Seq<char>, u32>, path: Seq<char>, what: Seq<char>) -> Result<u32, Seq<char>> {
    if folders.contains_key(parent_of(path)) {
        Ok(folders[parent_of(path)])
    } else {
        Err("missing remote parent id for "@ + what + " "@ + path)
    }
}

/// Finds the folder that an entry goes into.
pub(crate) fn find_parent(folders: &PathMap<u32>, path: &str, what: &str) -> (r: Result<u32, String>)
    ensures
        match r {
            Ok(id) => parent_folder(folders@, path@, what@) == Ok::<u32, Seq<char>>(id),
            Err(message) => parent_folder(folders@, path@, what@) == Err::<u32, Seq<char>>(message@),
        },
{
    match folders.get(parent_path(path)) {
        Some(id) => Ok(*id),
        None => Err(cat4("missing remote parent id for ", what, " ", path)),
    }
}

/// The number of bytes in a request identifier.
pub const REQUEST_ID_BYTES: usize = 16;

/// A fresh request identifier: sixteen bytes from the operating system's
/// source of randomness.
pub fn random_request_id() -> (r: Result<Vec<u8>, String>)
    ensures
        match r {
            Ok(id) => id@.len() == 16,
            Err(message) => message@ == "failed to generate upload request id"@,
        },
{
    match random_bytes(REQUEST_ID_BYTES) {
        Some(bytes) => Ok(bytes),
        None => Err(owned("failed to generate upload request id")),
    }
}

/// The request that makes sure of a folder, under a request identifier.
pub fn ensure_folder_request(request_id: Vec<u8>, parent: u32, name: &str) -> (r: EnsureFolderInput)
    ensures
        r.request_id == request_id,
        r.parent == parent,
        r.name@ == name@,
{
    EnsureFolderInput { request_id, parent, name: owned(name) }
}

/// The request that makes sure of a folder, under a fresh request identifier.
pub fn ensure_folder_input(parent: u32, name: &str) -> (r: Result<EnsureFolderInput, String>)
    ensures
        match r {
            Ok(input) => input.request_id@.len() == 16 && input.parent == parent && input.name@ == name@,
            Err(message) => message@ == "failed to generate ensure_folder request id"@,
        },
{
    match random_bytes(REQUEST_ID_BYTES) {
        Some(request_id) => Ok(ensure_folder_request(request_id, parent, name)),
        None => Err(owned("failed to generate ensure_folder request id")),
    }
}

/// The message for a folder that the bucket did not make sure of.
pub fn ensure_folder_failure(err: &SyncError) -> (r: String)
    ensures
        r@ == "ensure_folder failed: "@ + fault_debug(err@),
{
    crate::text::cat2("ensure_folder failed: ", err.debug_form().as_str())
}

/// A plan is carried out exactly where it has no conflict, deletes nothing or
/// the bucket can delete safely, and replaces nothing or the bucket takes
/// atomic uploads.
pub proof fn law_unsafe_plans_are_refused(prepared: PreparedSync)
    requires
        prepared.plan.tallied(),
    ensures
        ({
            let steps = views(prepared.plan.actions@);
            refusal(prepared) is None <==> {
                &&& forall|i: int| 0 <= i < steps.len() ==> !(#[trigger] steps[i] is Conflict)
                &&& prepared.support.incremental_delete || forall|i: int|
                    0 <= i < steps.len() ==> !(#[trigger] steps[i] is DeleteFile) && !(steps[i] is DeleteDirectory)
                &&& prepared.support.atomic_upload || forall|i: int|
                    0 <= i < steps.len() ==> !(#[trigger] steps[i] is ReplaceFile)
            }
        }),
{
    let steps = views(prepared.plan.actions@);
    crate::sync::planner::lemma_rank_positive(steps, 0);
    crate::sync::planner::lemma_rank_positive(steps, 3);
    if exists|i: int| 0 <= i < steps.len() && #[trigger] steps[i] is Conflict {
        let i = choose|i: int| 0 <= i < steps.len() && #[trigger] steps[i] is Conflict;
        assert(steps[i].rank() == 0);
    }
    if exists|i: int| 0 <= i < steps.len() && #[trigger] steps[i] is ReplaceFile {
        let i = choose|i: int| 0 <= i < steps.len() && #[trigger] steps[i] is ReplaceFile;
        assert(steps[i].rank() == 3);
    }
    if prepared.plan.conflicts > 0 {
        let i = choose|i: int| 0 <= i < steps.len() && (#[trigger] steps[i]).rank() == 0;
        assert(steps[i] is Conflict);
    }
    if prepared.plan.replace_files > 0 {
        let i = choose|i: int| 0 <= i < steps.len() && (#[trigger] steps[i]).rank() == 3;
        assert(steps[i] is ReplaceFile);
    }
}

/// Every folder of the bucket is known by its path and identifier, the root is
/// the folder that is synchronised, and a file is no folder.
pub proof fn law_folders_are_known_by_their_path(
    remote_parent: u32,
    entries: Map<Seq<char>, RemoteEntry>,
    path: Seq<char>,
)
    ensures
        entries.contains_key(path) && entries[path].kind is Directory ==> known_folders(
            remote_parent,
            entries,
        ).contains_key(path) && known_folders(remote_parent, entries)[path] == entries[path].id,
        path.len() == 0 && !entries.contains_key(path) ==> known_folders(remote_parent, entries).contains_key(path)
            && known_folders(remote_parent, entries)[path] == remote_parent,
        path.len() > 0 && !(entries.contains_key(path) && entries[path].kind is Directory) ==> !known_folders(
            remote_parent,
            entries,
        ).contains_key(path),
{
}

/// The directory of a path and the name of its entry make up the path again,
/// and every path that does not end in a slash has a name.
pub proof fn law_paths_are_directory_and_name(path: Seq<char>)
    ensures
        name_of(path) is Ok <==> path.len() > 0 && path.last() != '/',
        name_of(path) matches Ok(name) ==> name.len() > 0 && !name.contains('/') && path == if path.contains('/') {
            parent_of(path).push('/') + name
        } else {
            name
        },
{
    crate::text::law_texts_are_cut_at_the_last_separator(path, '/');
    let name = after_last(path, '/');
    if path.len() > 0 && path.contains('/') {
        let before = crate::text::before_last(path, '/');
        if name.len() == 0 {
            assert(name =~= Seq::<char>::empty());
            assert(path =~= before.push('/'));
        } else {
            assert(path.last() == name.last());
            assert(name.contains(name.last()));
        }
    } else if path.len() > 0 {
        assert(path.contains(path.last()));
    }
}

/// The folder that an entry goes into is the one that its directory is known
/// by.
pub proof fn law_entries_go_into_their_directory(folders: Map<Seq<char>, u32>, path: Seq<char>, what: Seq<char>)
    ensures
        parent_folder(folders, path, what) is Ok <==> folders.contains_key(parent_of(path)),
        parent_folder(folders, path, what) matches Ok(id) ==> id == folders[parent_of(path)],
{
}

/// The warnings of a plan are those of the scans, in their order, and one more
/// for an earlier run and one more for unknown capabilities.
pub proof fn law_warnings_are_kept(scanned: Seq<Seq<char>>, recovery: Option<Seq<char>>, capability: Option<Seq<char>>)
    ensures
        prepared_warnings(scanned, recovery, capability).take(scanned.len() as int) == scanned,
        prepared_warnings(scanned, recovery, capability).len() == scanned.len() + (if recovery is Some {
            1int
        } else {
            0int
        }) + (if capability is Some {
            1int
        } else {
            0int
        }),
        recovery matches Some(text) ==> prepared_warnings(scanned, recovery, capability)[scanned.len() as int] == text,
{
    assert(prepared_warnings(scanned, recovery, capability).take(scanned.len() as int) =~= scanned);
}

/// The hash of a manifest goes over its entries in the order of their paths:
/// for each the path behind its length, a byte for its kind, its size, and its
/// hash behind a byte that tells whether there is one.
pub proof fn law_manifests_are_hashed_entry_by_entry(
    path: Seq<char>,
    entry: LocalEntry,
    paths: Seq<Seq<char>>,
    entries: Map<Seq<char>, LocalEntry>,
)
    ensures
        entry.kind is File && entry.hash is Some ==> entry_bytes(path, entry) == framed(utf8(path)) + seq![0u8] + be64(
            entry.size,
        ) + (seq![1u8] + entry.hash->0@),
        entry.kind is File && entry.hash is None ==> entry_bytes(path, entry) == framed(utf8(path)) + seq![0u8] + be64(
            entry.size,
        ) + seq![0u8],
        entry.kind is Directory && entry.hash is None ==> entry_bytes(path, entry) == framed(utf8(path)) + seq![1u8]
            + be64(entry.size) + seq![0u8],
        manifest_bytes(Seq::empty(), entries) == Seq::<u8>::empty(),
        manifest_bytes(seq![path] + paths, entries) == entry_bytes(path, entries[path]) + manifest_bytes(paths, entries),
{
    reveal(entry_bytes);
    assert((seq![path] + paths).drop_first() =~= paths);
}

/// A plan that is not carried out is refused for its conflicts first, then for
/// what it deletes, and last for what it replaces.
pub proof fn law_refusals_of_plans_tell_their_reason(prepared: PreparedSync)
    ensures
        prepared.plan.conflicts > 0 ==> refusal(prepared) == Some(
            "refusing to execute a sync plan containing conflicts"@,
        ),
        prepared.plan.conflicts == 0 && !prepared.support.incremental_delete && (exists|i: int|
            0 <= i < prepared.plan.actions@.len() && (#[trigger] views(prepared.plan.actions@)[i] is DeleteFile || views(
                prepared.plan.actions@,
            )[i] is DeleteDirectory)) ==> refusal(prepared) == Some(
            "refusing to execute delete actions because the bucket is not Ready with conditional deletion plus incremental garbage collection"@,
        ),
        prepared.plan.conflicts == 0 && prepared.support.incremental_delete && prepared.plan.replace_files > 0
            && !prepared.support.atomic_upload ==> refusal(prepared) == Some(
            "refusing to replace files because the bucket is not Ready with atomic upload support"@,
        ),
{
}

/// What is missing of an entry is told with its path.
pub proof fn law_missing_places_are_told(folders: Map<Seq<char>, u32>, path: Seq<char>, what: Seq<char>)
    ensures
        parent_folder(folders, path, what) matches Err(message) ==> message == "missing remote parent id for "@ + what
            + " "@ + path,
        name_of(path) matches Err(message) ==> message == "invalid empty entry name in relative path "@ + debug_text(
            path,
        ),
{
}

/// Unknown capabilities are told with the reason, as the last warning.
pub proof fn law_unknown_capabilities_are_told(scanned: Seq<Seq<char>>, recovery: Option<Seq<char>>, error: Seq<char>)
    ensures
        prepared_warnings(scanned, recovery, Some(error)).last() == "capability discovery is unavailable ("@ + error
            + "); safe optimizations are disabled"@,
{
}

/// Two entries look the same to the hash of a manifest exactly where their kind,
/// size and hash are the same.
pub proof fn law_entries_look_the_same(a: LocalEntry, b: LocalEntry)
    ensures
        same_content(a, b) <==> a.kind == b.kind && a.size == b.size && a.hash == b.hash,
{
}

} // verus!

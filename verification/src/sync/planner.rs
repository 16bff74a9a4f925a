//! The plan of an upload synchronisation.
use vstd::prelude::*;

use crate::sync::arrange::{
    arrange, arrangement_of, key_less, lemma_total_permutation, lemma_total_push, total, views, Arranged, SortKey,
};
use crate::sync::types::{
    depth_of, kind_name, kind_text, parent_of, parent_path, path_depth, path_protected, same_hash, EntryKind, LocalEntry, LocalManifest,
    RemoteEntry, RemoteManifest,
};
use crate::text::{bytes_before, cat3, cat6, decimal, decimal_text, owned, utf8};

verus! {

/// What a plan may do beyond adding what is missing.
#[derive(Clone, Copy, Debug)]
pub struct PlanOptions {
    pub delete: bool,
    pub overwrite: bool,
}

impl Default for PlanOptions {
    fn default() -> (r: Self)
        ensures
            !r.delete,
            !r.overwrite,
    {
        PlanOptions { delete: false, overwrite: false }
    }
}

/// One step of a plan.
#[derive(Clone, Debug)]
pub enum PlanAction {
    Conflict { path: String, reason: String },
    CreateDirectory { path: String },
    UploadFile { path: String, size: u64 },
    ReplaceFile { path: String, remote_id: u32, size: u64 },
    DeleteFile { path: String, remote_id: u32 },
    DeleteDirectory { path: String, remote_id: u32 },
}

/// The mathematical form of a step.
pub enum PlanStep {
    Conflict { path: Seq<char>, reason: Seq<char> },
    CreateDirectory { path: Seq<char> },
    UploadFile { path: Seq<char>, size: u64 },
    ReplaceFile { path: Seq<char>, remote_id: u32, size: u64 },
    DeleteFile { path: Seq<char>, remote_id: u32 },
    DeleteDirectory { path: Seq<char>, remote_id: u32 },
}

impl View for PlanAction {
    type V = PlanStep;

    open spec fn view(&self) -> PlanStep {
        match *self {
            PlanAction::Conflict { path, reason } => PlanStep::Conflict { path: path@, reason: reason@ },
            PlanAction::CreateDirectory { path } => PlanStep::CreateDirectory { path: path@ },
            PlanAction::UploadFile { path, size } => PlanStep::UploadFile { path: path@, size },
            PlanAction::ReplaceFile { path, remote_id, size } => PlanStep::ReplaceFile { path: path@, remote_id, size },
            PlanAction::DeleteFile { path, remote_id } => PlanStep::DeleteFile { path: path@, remote_id },
            PlanAction::DeleteDirectory { path, remote_id } => PlanStep::DeleteDirectory { path: path@, remote_id },
        }
    }
}

impl PlanStep {
    /// The path that the step is about.
    pub open spec fn path(self) -> Seq<char> {
        match self {
            PlanStep::Conflict { path, .. } => path,
            PlanStep::CreateDirectory { path } => path,
            PlanStep::UploadFile { path, .. } => path,
            PlanStep::ReplaceFile { path, .. } => path,
            PlanStep::DeleteFile { path, .. } => path,
            PlanStep::DeleteDirectory { path, .. } => path,
        }
    }

    /// The rank of the kind of step: conflicts first, then what adds, then
    /// what removes.
    pub open spec fn rank(self) -> int {
        match self {
            PlanStep::Conflict { .. } => 0,
            PlanStep::CreateDirectory { .. } => 1,
            PlanStep::UploadFile { .. } => 2,
            PlanStep::ReplaceFile { .. } => 3,
            PlanStep::DeleteFile { .. } => 4,
            PlanStep::DeleteDirectory { .. } => 5,
        }
    }

    /// The bytes that the step uploads.
    pub open spec fn bytes(self) -> nat {
        match self {
            PlanStep::UploadFile { size, .. } => size as nat,
            PlanStep::ReplaceFile { size, .. } => size as nat,
            _ => 0,
        }
    }
}

impl Arranged for PlanAction {
    /// Steps that remove go from the deepest path up, all others from the top down.
    open spec fn sort_key(view: PlanStep) -> SortKey {
        SortKey {
            rank: view.rank(),
            depth: if view.rank() < 4 {
                depth_of(view.path()) as int
            } else {
                -(depth_of(view.path()) as int)
            },
            path: utf8(view.path()),
        }
    }

    fn comes_before(&self, other: &Self) -> (r: bool) {
        let (left_rank, left_depth, left_path) = action_sort_key(self);
        let (right_rank, right_depth, right_path) = action_sort_key(other);
        if left_rank != right_rank {
            left_rank < right_rank
        } else if left_depth != right_depth {
            left_depth < right_depth
        } else {
            bytes_before(left_path.as_bytes(), right_path.as_bytes())
        }
    }
}

/// The depth of a path, negated where the deepest path is to come first.
pub(crate) fn signed_depth(path: &str, deepest_first: bool) -> (r: i128)
    ensures
        r == if deepest_first { -(depth_of(path@) as int) } else { depth_of(path@) as int },
{
    let depth = path_depth(path) as i128;
    if deepest_first {
        -depth
    } else {
        depth
    }
}

fn action_sort_key(action: &PlanAction) -> (r: (u8, i128, &str))
    ensures
        (SortKey { rank: r.0 as int, depth: r.1 as int, path: utf8(r.2@) }) == PlanAction::sort_key(action@),
{
    match action {
        PlanAction::Conflict { path, .. } => (0, signed_depth(path.as_str(), false), path.as_str()),
        PlanAction::CreateDirectory { path } => (1, signed_depth(path.as_str(), false), path.as_str()),
        PlanAction::UploadFile { path, .. } => (2, signed_depth(path.as_str(), false), path.as_str()),
        PlanAction::ReplaceFile { path, .. } => (3, signed_depth(path.as_str(), false), path.as_str()),
        PlanAction::DeleteFile { path, .. } => (4, signed_depth(path.as_str(), true), path.as_str()),
        PlanAction::DeleteDirectory { path, .. } => (5, signed_depth(path.as_str(), true), path.as_str()),
    }
}

/// A plan: its steps in the order of their execution, and their counts.
#[derive(Clone, Debug)]
pub struct Plan {
    pub actions: Vec<PlanAction>,
    pub warnings: Vec<String>,
    pub create_directories: usize,
    pub upload_files: usize,
    pub replace_files: usize,
    pub delete_files: usize,
    pub delete_directories: usize,
    pub conflicts: usize,
    pub unchanged: usize,
    pub retained_remote: usize,
    pub upload_bytes: u64,
}

impl Default for Plan {
    fn default() -> (r: Self)
        ensures
            r.actions@.len() == 0,
            r.warnings@.len() == 0,
            r.tallied(),
            r.unchanged == 0,
            r.retained_remote == 0,
    {
        Plan {
            actions: Vec::new(),
            warnings: Vec::new(),
            create_directories: 0,
            upload_files: 0,
            replace_files: 0,
            delete_files: 0,
            delete_directories: 0,
            conflicts: 0,
            unchanged: 0,
            retained_remote: 0,
            upload_bytes: 0,
        }
    }
}

/// Counts the steps of a rank.
pub open spec fn of_rank(rank: int) -> spec_fn(PlanStep) -> nat {
    |step: PlanStep| if step.rank() == rank { 1nat } else { 0nat }
}

/// Counts the bytes of a step.
pub open spec fn step_bytes() -> spec_fn(PlanStep) -> nat {
    |step: PlanStep| step.bytes()
}

/// No list has more steps of a rank than steps.
pub proof fn lemma_rank_count(steps: Seq<PlanStep>, rank: int)
    ensures
        total(steps, of_rank(rank)) <= steps.len(),
    decreases steps.len(),
{
    if steps.len() > 0 {
        lemma_rank_count(steps.drop_last(), rank);
    }
}

impl Plan {
    /// The counts are those of the steps.
    pub open spec fn tallied(&self) -> bool {
        let steps = views(self.actions@);
        &&& self.conflicts == total(steps, of_rank(0))
        &&& self.create_directories == total(steps, of_rank(1))
        &&& self.upload_files == total(steps, of_rank(2))
        &&& self.replace_files == total(steps, of_rank(3))
        &&& self.delete_files == total(steps, of_rank(4))
        &&& self.delete_directories == total(steps, of_rank(5))
        &&& self.upload_bytes == total(steps, step_bytes())
    }

    /// Whether the plan holds a conflict.
    pub fn has_conflicts(&self) -> (r: bool)
        ensures
            r == (self.conflicts > 0),
    {
        self.conflicts > 0
    }

    fn push(&mut self, action: PlanAction)
        requires
            old(self).tallied(),
            old(self).actions@.len() < usize::MAX,
            old(self).upload_bytes + action@.bytes() <= u64::MAX,
        ensures
            final(self).tallied(),
            final(self).actions@ == old(self).actions@.push(action),
            views(final(self).actions@) == views(old(self).actions@).push(action@),
            final(self).warnings == old(self).warnings,
            final(self).unchanged == old(self).unchanged,
            final(self).retained_remote == old(self).retained_remote,
            final(self).upload_bytes == old(self).upload_bytes + action@.bytes(),
    {
        let ghost before = views(self.actions@);
        proof {
            lemma_rank_count(before, 0);
            lemma_rank_count(before, 1);
            lemma_rank_count(before, 2);
            lemma_rank_count(before, 3);
            lemma_rank_count(before, 4);
            lemma_rank_count(before, 5);
            lemma_total_push(before, action@, of_rank(0));
            lemma_total_push(before, action@, of_rank(1));
            lemma_total_push(before, action@, of_rank(2));
            lemma_total_push(before, action@, of_rank(3));
            lemma_total_push(before, action@, of_rank(4));
            lemma_total_push(before, action@, of_rank(5));
            lemma_total_push(before, action@, step_bytes());
        }
        match &action {
            PlanAction::Conflict { .. } => {
                self.conflicts += 1;
            },
            PlanAction::CreateDirectory { .. } => {
                self.create_directories += 1;
            },
            PlanAction::UploadFile { size, .. } => {
                self.upload_files += 1;
                self.upload_bytes += *size;
            },
            PlanAction::ReplaceFile { size, .. } => {
                self.replace_files += 1;
                self.upload_bytes += *size;
            },
            PlanAction::DeleteFile { .. } => {
                self.delete_files += 1;
            },
            PlanAction::DeleteDirectory { .. } => {
                self.delete_directories += 1;
            },
        }
        self.actions.push(action);
        assert(views(self.actions@) =~= before.push(action@));
    }
}

/// Whether an entry may be written below the directory of `path`: that
/// directory is writable, or is not there yet.
pub open spec fn parent_writable(remote: RemoteManifest, path: Seq<char>) -> bool {
    let parent = parent_of(path);
    if parent.len() == 0 {
        remote.root_status == 0
    } else if remote.entries@.contains_key(parent) {
        remote.entries@[parent].kind is Directory && remote.entries@[parent].status == 0
    } else {
        true
    }
}

fn parent_is_writable(remote: &RemoteManifest, path: &str) -> (r: bool)
    ensures
        r == parent_writable(*remote, path@),
{
    let parent = parent_path(path);
    if parent.is_empty() {
        remote.root_status == 0
    } else {
        match remote.entries.get(parent) {
            Some(entry) => entry.kind == EntryKind::Directory && entry.status == 0,
            None => true,
        }
    }
}

/// The step that a local entry asks for.
pub open spec fn local_step(
    remote: RemoteManifest,
    options: PlanOptions,
    path: Seq<char>,
    entry: LocalEntry,
) -> Option<PlanStep> {
    if !remote.entries@.contains_key(path) {
        if !parent_writable(remote, path) {
            Some(PlanStep::Conflict { path, reason: "remote parent folder is not writable"@ })
        } else if entry.kind is Directory {
            Some(PlanStep::CreateDirectory { path })
        } else {
            Some(PlanStep::UploadFile { path, size: entry.size })
        }
    } else {
        let known = remote.entries@[path];
        if entry.kind != known.kind {
            Some(
                PlanStep::Conflict {
                    path,
                    reason: "local "@ + kind_text(entry.kind) + " conflicts with remote "@ + kind_text(known.kind)
                        + " id "@ + decimal(known.id as nat),
                },
            )
        } else if entry.kind is Directory {
            if known.status < 0 {
                Some(PlanStep::Conflict { path, reason: "remote directory is archived"@ })
            } else {
                None
            }
        } else if entry.hash is Some && entry.hash == known.hash {
            None
        } else if !options.overwrite {
            Some(
                PlanStep::Conflict {
                    path,
                    reason: "remote file "@ + decimal(known.id as nat)
                        + " differs; rerun with --overwrite after atomic replacement is available"@,
                },
            )
        } else if known.status != 0 || !parent_writable(remote, path) {
            Some(PlanStep::Conflict { path, reason: "remote file or parent folder is not writable"@ })
        } else {
            Some(PlanStep::ReplaceFile { path, remote_id: known.id, size: entry.size })
        }
    }
}

/// Whether a local entry counts as unchanged: a directory that is there, or a
/// file that is there with the same content.
pub open spec fn local_unchanged(remote: RemoteManifest, path: Seq<char>, entry: LocalEntry) -> bool {
    &&& remote.entries@.contains_key(path)
    &&& entry.kind == remote.entries@[path].kind
    &&& entry.kind is Directory || (entry.hash is Some && entry.hash == remote.entries@[path].hash)
}

/// Whether an entry that is only in the bucket is left alone.
pub open spec fn remote_retained(local: LocalManifest, options: PlanOptions, path: Seq<char>) -> bool {
    path_protected(local.protected_paths.keys(), path) || !options.delete
}

/// The step that an entry of the bucket asks for.
pub open spec fn remote_step(
    local: LocalManifest,
    options: PlanOptions,
    path: Seq<char>,
    entry: RemoteEntry,
) -> Option<PlanStep> {
    if local.entries@.contains_key(path) || remote_retained(local, options, path) {
        None
    } else if entry.status != 0 {
        Some(PlanStep::Conflict { path, reason: "remote-only entry is not writable and cannot be deleted"@ })
    } else if entry.kind is File {
        Some(PlanStep::DeleteFile { path, remote_id: entry.id })
    } else {
        Some(PlanStep::DeleteDirectory { path, remote_id: entry.id })
    }
}

/// The steps for the conflicts that the scan of the bucket reported.
pub open spec fn conflict_steps(conflicts: Seq<(String, String)>) -> Seq<PlanStep> {
    Seq::new(conflicts.len(), |i: int| PlanStep::Conflict { path: conflicts[i].0@, reason: conflicts[i].1@ })
}

/// Adds a step to a list, if there is one.
pub open spec fn with_step(steps: Seq<PlanStep>, step: Option<PlanStep>) -> Seq<PlanStep> {
    match step {
        Some(step) => steps.push(step),
        None => steps,
    }
}

/// The steps of the local entries with the given paths.
pub open spec fn local_steps(
    paths: Seq<Seq<char>>,
    local: LocalManifest,
    remote: RemoteManifest,
    options: PlanOptions,
) -> Seq<PlanStep>
    decreases paths.len(),
{
    if paths.len() == 0 {
        Seq::empty()
    } else {
        let path = paths.last();
        with_step(
            local_steps(paths.drop_last(), local, remote, options),
            local_step(remote, options, path, local.entries@[path]),
        )
    }
}

/// The steps of the bucket's entries with the given paths.
pub open spec fn remote_steps(
    paths: Seq<Seq<char>>,
    local: LocalManifest,
    remote: RemoteManifest,
    options: PlanOptions,
) -> Seq<PlanStep>
    decreases paths.len(),
{
    if paths.len() == 0 {
        Seq::empty()
    } else {
        let path = paths.last();
        with_step(
            remote_steps(paths.drop_last(), local, remote, options),
            remote_step(local, options, path, remote.entries@[path]),
        )
    }
}

/// All steps, before they are put in order.
pub open spec fn planned(local: LocalManifest, remote: RemoteManifest, options: PlanOptions) -> Seq<PlanStep> {
    conflict_steps(remote.conflicts@) + local_steps(local.entries.keys(), local, remote, options) + remote_steps(
        remote.entries.keys(),
        local,
        remote,
        options,
    )
}

/// The bytes that are uploaded for a local entry.
pub open spec fn upload_bytes(remote: RemoteManifest, options: PlanOptions, path: Seq<char>, entry: LocalEntry) -> nat {
    match local_step(remote, options, path, entry) {
        Some(step) => step.bytes(),
        None => 0,
    }
}

/// The bytes that are uploaded for the local entries with the given paths.
pub open spec fn local_bytes(
    paths: Seq<Seq<char>>,
    local: LocalManifest,
    remote: RemoteManifest,
    options: PlanOptions,
) -> nat {
    total(paths, |path: Seq<char>| upload_bytes(remote, options, path, local.entries@[path]))
}

/// How many of the paths are unchanged.
pub open spec fn count_unchanged(paths: Seq<Seq<char>>, local: LocalManifest, remote: RemoteManifest) -> nat {
    total(paths, |path: Seq<char>| if local_unchanged(remote, path, local.entries@[path]) { 1nat } else { 0nat })
}

/// How many of the paths are only in the bucket and left alone.
pub open spec fn count_retained(paths: Seq<Seq<char>>, local: LocalManifest, options: PlanOptions) -> nat {
    total(
        paths,
        |path: Seq<char>|
            if !local.entries@.contains_key(path) && remote_retained(local, options, path) {
                1nat
            } else {
                0nat
            },
    )
}

/// Copies of two lists of warnings, one after the other.
pub(crate) fn joined_warnings(first: &Vec<String>, second: &Vec<String>) -> (r: Vec<String>)
    ensures
        views(r@) == views(first@) + views(second@),
{
    let mut r: Vec<String> = Vec::new();
    for i in 0..first.len()
        invariant
            views(r@) == views(first@).take(i as int),
    {
        let ghost before = views(r@);
        r.push(first[i].clone());
        assert(views(r@) =~= before.push(first@[i as int]@));
        assert(views(first@).take(i + 1) =~= before.push(first@[i as int]@));
    }
    for i in 0..second.len()
        invariant
            views(r@) == views(first@) + views(second@).take(i as int),
    {
        let ghost before = views(r@);
        r.push(second[i].clone());
        assert(views(r@) =~= before.push(second@[i as int]@));
        assert(views(first@) + views(second@).take(i + 1) =~= before.push(second@[i as int]@));
    }
    assert(views(second@).take(second@.len() as int) =~= views(second@));
    r
}

fn decide_local(
    remote: &RemoteManifest,
    options: PlanOptions,
    path: &String,
    entry: &LocalEntry,
) -> (r: Option<PlanAction>)
    ensures
        r is Some == local_step(*remote, options, path@, *entry) is Some,
        r matches Some(action) ==> Some(action@) == local_step(*remote, options, path@, *entry),
{
    match remote.entries.get(path.as_str()) {
        None => {
            if !parent_is_writable(remote, path.as_str()) {
                Some(
                    PlanAction::Conflict { path: path.clone(), reason: owned("remote parent folder is not writable") },
                )
            } else if entry.kind == EntryKind::Directory {
                Some(PlanAction::CreateDirectory { path: path.clone() })
            } else {
                Some(PlanAction::UploadFile { path: path.clone(), size: entry.size })
            }
        },
        Some(known) => {
            if entry.kind != known.kind {
                Some(
                    PlanAction::Conflict {
                        path: path.clone(),
                        reason: cat6(
                            "local ",
                            kind_name(entry.kind),
                            " conflicts with remote ",
                            kind_name(known.kind),
                            " id ",
                            decimal_text(known.id as u64).as_str(),
                        ),
                    },
                )
            } else if entry.kind == EntryKind::Directory {
                if known.status < 0 {
                    Some(PlanAction::Conflict { path: path.clone(), reason: owned("remote directory is archived") })
                } else {
                    None
                }
            } else if entry.hash.is_some() && same_hash(&entry.hash, &known.hash) {
                None
            } else if !options.overwrite {
                Some(
                    PlanAction::Conflict {
                        path: path.clone(),
                        reason: cat3(
                            "remote file ",
                            decimal_text(known.id as u64).as_str(),
                            " differs; rerun with --overwrite after atomic replacement is available",
                        ),
                    },
                )
            } else if known.status != 0 || !parent_is_writable(remote, path.as_str()) {
                Some(
                    PlanAction::Conflict {
                        path: path.clone(),
                        reason: owned("remote file or parent folder is not writable"),
                    },
                )
            } else {
                Some(PlanAction::ReplaceFile { path: path.clone(), remote_id: known.id, size: entry.size })
            }
        },
    }
}

fn upload_size(remote: &RemoteManifest, options: PlanOptions, path: &String, entry: &LocalEntry) -> (r: u64)
    ensures
        r == upload_bytes(*remote, options, path@, *entry),
{
    match decide_local(remote, options, path, entry) {
        Some(PlanAction::UploadFile { size, .. }) => size,
        Some(PlanAction::ReplaceFile { size, .. }) => size,
        _ => 0,
    }
}

fn is_unchanged(remote: &RemoteManifest, path: &str, entry: &LocalEntry) -> (r: bool)
    ensures
        r == local_unchanged(*remote, path@, *entry),
{
    match remote.entries.get(path) {
        None => false,
        Some(known) => entry.kind == known.kind && (entry.kind == EntryKind::Directory || (entry.hash.is_some()
            && same_hash(&entry.hash, &known.hash))),
    }
}

fn decide_remote(
    local: &LocalManifest,
    options: PlanOptions,
    path: &String,
    entry: &RemoteEntry,
) -> (r: PlanAction)
    requires
        !local.entries@.contains_key(path@),
        !remote_retained(*local, options, path@),
    ensures
        Some(r@) == remote_step(*local, options, path@, *entry),
{
    if entry.status != 0 {
        PlanAction::Conflict {
            path: path.clone(),
            reason: owned("remote-only entry is not writable and cannot be deleted"),
        }
    } else if entry.kind == EntryKind::File {
        PlanAction::DeleteFile { path: path.clone(), remote_id: entry.id }
    } else {
        PlanAction::DeleteDirectory { path: path.clone(), remote_id: entry.id }
    }
}

/// A sum over the first paths is at most the sum over all.
pub proof fn lemma_total_prefix<T>(values: Seq<T>, n: int, measure: spec_fn(T) -> nat)
    requires
        0 <= n < values.len(),
    ensures
        total(values.take(n + 1), measure) == total(values.take(n), measure) + measure(values[n]),
        total(values.take(n + 1), measure) <= total(values, measure),
{
    assert(values.take(n + 1) =~= values.take(n).push(values[n]));
    lemma_total_push(values.take(n), values[n], measure);
    assert(values =~= values.take(n + 1) + values.skip(n + 1));
    crate::sync::arrange::lemma_total_add(values.take(n + 1), values.skip(n + 1), measure);
}

/// Whether the entries of both sides can be counted, and the bytes that are
/// uploaded added up, in the numbers that a plan keeps.
pub open spec fn fits(local: LocalManifest, remote: RemoteManifest, options: PlanOptions) -> bool {
    &&& remote.conflicts@.len() + local.entries.keys().len() + remote.entries.keys().len() <= usize::MAX
    &&& local_bytes(local.entries.keys(), local, remote, options) <= u64::MAX
}

/// Whether the entries of both sides can be counted, and the bytes that are
/// uploaded added up, in the numbers that a plan keeps.
pub fn sync_fits(local: &LocalManifest, remote: &RemoteManifest, options: PlanOptions) -> (r: bool)
    ensures
        r == fits(*local, *remote, options),
{
    let conflicts: usize = remote.conflicts.len();
    let locals: usize = local.entries.len();
    let remotes: usize = remote.entries.len();
    if conflicts > usize::MAX - locals || conflicts + locals > usize::MAX - remotes {
        return false;
    }
    let ghost paths = local.entries.keys();
    let ghost sizes = |path: Seq<char>| upload_bytes(*remote, options, path, local.entries@[path]);
    let count: usize = local.entries.len();
    let mut bytes: u64 = 0;
    assert(paths.take(0) =~= Seq::empty());
    for i in 0..count
        invariant
            paths == local.entries.keys(),
            count == paths.len(),
            sizes == |path: Seq<char>| upload_bytes(*remote, options, path, local.entries@[path]),
            bytes == total(paths.take(i as int), sizes),
            local_bytes(paths, *local, *remote, options) == total(paths, sizes),
    {
        let size: u64 = upload_size(remote, options, local.entries.path_at(i), local.entries.value_at(i));
        proof {
            lemma_total_prefix(paths, i as int, sizes);
        }
        if size > u64::MAX - bytes {
            return false;
        }
        bytes = bytes + size;
    }
    assert(paths.take(count as int) =~= paths);
    true
}

/// The plan that brings the bucket folder to the state of the local tree, as
/// far as the options allow: every step in the order of its execution.
pub fn plan_sync(local: &LocalManifest, remote: &RemoteManifest, options: PlanOptions) -> (r: Plan)
    requires
        fits(*local, *remote, options),
    ensures
        arrangement_of::<PlanAction>(planned(*local, *remote, options), views(r.actions@)),
        r.tallied(),
        r.unchanged == count_unchanged(local.entries.keys(), *local, *remote),
        r.retained_remote == count_retained(remote.entries.keys(), *local, options),
        views(r.warnings@) == views(local.warnings@) + views(remote.warnings@),
{
    let mut plan = Plan::default();
    plan.warnings = joined_warnings(&local.warnings, &remote.warnings);
    let ghost conflicts = conflict_steps(remote.conflicts@);
    assert(views(plan.actions@) =~= conflicts.take(0));
    for i in 0..remote.conflicts.len()
        invariant
            conflicts == conflict_steps(remote.conflicts@),
            remote.conflicts@.len() <= usize::MAX,
            views(plan.actions@) == conflicts.take(i as int),
            plan.tallied(),
            plan.upload_bytes == 0,
            plan.unchanged == 0,
            plan.retained_remote == 0,
            views(plan.warnings@) == views(local.warnings@) + views(remote.warnings@),
    {
        let conflict = &remote.conflicts[i];
        plan.push(PlanAction::Conflict { path: conflict.0.clone(), reason: conflict.1.clone() });
        assert(conflicts.take(i + 1) =~= conflicts.take(i as int).push(conflicts[i as int]));
    }
    assert(conflicts.take(conflicts.len() as int) =~= conflicts);
    let ghost local_paths = local.entries.keys();
    let local_len: usize = local.entries.len();
    assert(local_paths.take(0) =~= Seq::empty());
    assert(conflicts + local_steps(local_paths.take(0), *local, *remote, options) =~= conflicts);
    let ghost sizes = |path: Seq<char>| upload_bytes(*remote, options, path, local.entries@[path]);
    let ghost same = |path: Seq<char>|
        if local_unchanged(*remote, path, local.entries@[path]) { 1nat } else { 0nat };
    for i in 0..local_len
        invariant
            conflicts == conflict_steps(remote.conflicts@),
            local_paths == local.entries.keys(),
            local_len == local_paths.len(),
            sizes == |path: Seq<char>| upload_bytes(*remote, options, path, local.entries@[path]),
            same == |path: Seq<char>|
                if local_unchanged(*remote, path, local.entries@[path]) { 1nat } else { 0nat },
            remote.conflicts@.len() + local_paths.len() + remote.entries.keys().len() <= usize::MAX,
            local_bytes(local_paths, *local, *remote, options) <= u64::MAX,
            views(plan.actions@) == conflicts + local_steps(local_paths.take(i as int), *local, *remote, options),
            plan.actions@.len() <= remote.conflicts@.len() + i,
            plan.tallied(),
            plan.upload_bytes == total(local_paths.take(i as int), sizes),
            plan.unchanged == total(local_paths.take(i as int), same),
            plan.unchanged <= i,
            plan.retained_remote == 0,
            views(plan.warnings@) == views(local.warnings@) + views(remote.warnings@),
    {
        let path = local.entries.path_at(i);
        let entry = local.entries.value_at(i);
        proof {
            lemma_total_prefix(local_paths, i as int, sizes);
            lemma_total_prefix(local_paths, i as int, same);
            assert(local_paths.take(i + 1).drop_last() =~= local_paths.take(i as int));
            assert(local_paths.take(i + 1).last() == path@);
        }
        let ghost before = views(plan.actions@);
        if is_unchanged(remote, path.as_str(), entry) {
            plan.unchanged += 1;
        }
        if let Some(action) = decide_local(remote, options, path, entry) {
            plan.push(action);
        }
        proof {
            let steps = local_steps(local_paths.take(i as int), *local, *remote, options);
            let next = local_steps(local_paths.take(i + 1), *local, *remote, options);
            assert(conflicts + next =~= with_step(
                conflicts + steps,
                local_step(*remote, options, path@, *entry),
            ));
            assert(views(plan.actions@) == conflicts + next);
        }
    }
    assert(local_paths.take(local_paths.len() as int) =~= local_paths);
    let ghost added = conflicts + local_steps(local_paths, *local, *remote, options);
    let ghost remote_paths = remote.entries.keys();
    let remote_len: usize = remote.entries.len();
    assert(remote_paths.take(0) =~= Seq::empty());
    assert(added + remote_steps(remote_paths.take(0), *local, *remote, options) =~= added);
    let ghost kept = |path: Seq<char>|
        if !local.entries@.contains_key(path) && remote_retained(*local, options, path) { 1nat } else { 0nat };
    for i in 0..remote_len
        invariant
            remote_paths == remote.entries.keys(),
            remote_len == remote_paths.len(),
            kept == |path: Seq<char>|
                if !local.entries@.contains_key(path) && remote_retained(*local, options, path) { 1nat } else { 0nat },
            remote.conflicts@.len() + local_paths.len() + remote_paths.len() <= usize::MAX,
            views(plan.actions@) == added + remote_steps(remote_paths.take(i as int), *local, *remote, options),
            plan.actions@.len() <= remote.conflicts@.len() + local_paths.len() + i,
            plan.tallied(),
            plan.unchanged == count_unchanged(local_paths, *local, *remote),
            plan.retained_remote == total(remote_paths.take(i as int), kept),
            plan.retained_remote <= i,
            views(plan.warnings@) == views(local.warnings@) + views(remote.warnings@),
    {
        let path = remote.entries.path_at(i);
        let entry = remote.entries.value_at(i);
        proof {
            lemma_total_prefix(remote_paths, i as int, kept);
            assert(remote_paths.take(i + 1).drop_last() =~= remote_paths.take(i as int));
            assert(remote_paths.take(i + 1).last() == path@);
        }
        let ghost before = views(plan.actions@);
        let ghost steps = remote_steps(remote_paths.take(i as int), *local, *remote, options);
        let ghost next = remote_steps(remote_paths.take(i + 1), *local, *remote, options);
        assert(added + next =~= with_step(added + steps, remote_step(*local, options, path@, *entry)));
        if !local.entries.contains_key(path.as_str()) {
            if local.protects(path.as_str()) || !options.delete {
                plan.retained_remote += 1;
            } else {
                plan.push(decide_remote(local, options, path, entry));
            }
        }
    }
    assert(remote_paths.take(remote_paths.len() as int) =~= remote_paths);
    let ghost steps = views(plan.actions@);
    let mut actions: Vec<PlanAction> = Vec::new();
    std::mem::swap(&mut actions, &mut plan.actions);
    plan.actions = arrange(actions);
    proof {
        let sorted = views(plan.actions@);
        lemma_total_permutation(sorted, steps, of_rank(0));
        lemma_total_permutation(sorted, steps, of_rank(1));
        lemma_total_permutation(sorted, steps, of_rank(2));
        lemma_total_permutation(sorted, steps, of_rank(3));
        lemma_total_permutation(sorted, steps, of_rank(4));
        lemma_total_permutation(sorted, steps, of_rank(5));
        lemma_total_permutation(sorted, steps, step_bytes());
    }
    plan
}

/// Every step for the local entries comes from one of their paths.
proof fn lemma_local_origin(
    paths: Seq<Seq<char>>,
    local: LocalManifest,
    remote: RemoteManifest,
    options: PlanOptions,
    step: PlanStep,
) -> (path: Seq<char>)
    requires
        local_steps(paths, local, remote, options).contains(step),
    ensures
        paths.contains(path),
        local_step(remote, options, path, local.entries@[path]) == Some(step),
    decreases paths.len(),
{
    let steps = local_steps(paths, local, remote, options);
    let rest = local_steps(paths.drop_last(), local, remote, options);
    let at = steps.index_of(step);
    assert(steps[at] == step);
    if rest.contains(step) {
        let path = lemma_local_origin(paths.drop_last(), local, remote, options, step);
        let i = paths.drop_last().index_of(path);
        assert(paths[i] == path);
        path
    } else {
        if at < rest.len() {
            assert(rest[at] == step);
        }
        assert(paths.contains(paths.last()));
        paths.last()
    }
}

/// Every step for the bucket's entries comes from one of their paths.
proof fn lemma_remote_origin(
    paths: Seq<Seq<char>>,
    local: LocalManifest,
    remote: RemoteManifest,
    options: PlanOptions,
    step: PlanStep,
) -> (path: Seq<char>)
    requires
        remote_steps(paths, local, remote, options).contains(step),
    ensures
        paths.contains(path),
        remote_step(local, options, path, remote.entries@[path]) == Some(step),
    decreases paths.len(),
{
    let steps = remote_steps(paths, local, remote, options);
    let rest = remote_steps(paths.drop_last(), local, remote, options);
    let at = steps.index_of(step);
    assert(steps[at] == step);
    if rest.contains(step) {
        let path = lemma_remote_origin(paths.drop_last(), local, remote, options, step);
        let i = paths.drop_last().index_of(path);
        assert(paths[i] == path);
        path
    } else {
        if at < rest.len() {
            assert(rest[at] == step);
        }
        assert(paths.contains(paths.last()));
        paths.last()
    }
}

/// A plan changes nothing that is in the bucket unless it is told to: it
/// replaces files only with `overwrite` and deletes only with `delete`.  What
/// it deletes is not in the local tree and not protected; what it replaces is
/// there, writable, and differs from the local file.
pub proof fn law_plan_is_safe_by_default(
    local: LocalManifest,
    remote: RemoteManifest,
    options: PlanOptions,
    step: PlanStep,
)
    requires
        planned(local, remote, options).contains(step),
        local.entries.ordered(),
        remote.entries.ordered(),
    ensures
        step is ReplaceFile ==> options.overwrite && local.entries@.contains_key(step.path())
            && remote.entries@.contains_key(step.path()) && remote.entries@[step.path()].status == 0
            && !local_unchanged(remote, step.path(), local.entries@[step.path()]),
        step is DeleteFile || step is DeleteDirectory ==> options.delete && !local.entries@.contains_key(step.path())
            && !path_protected(local.protected_paths.keys(), step.path()) && remote.entries@.contains_key(
            step.path(),
        ) && remote.entries@[step.path()].status == 0,
        step is CreateDirectory || step is UploadFile ==> local.entries@.contains_key(step.path())
            && !remote.entries@.contains_key(step.path()) && parent_writable(remote, step.path()),
{
    local.entries.lemma_contents();
    remote.entries.lemma_contents();
    let a = conflict_steps(remote.conflicts@);
    let b = local_steps(local.entries.keys(), local, remote, options);
    let c = remote_steps(remote.entries.keys(), local, remote, options);
    let at = planned(local, remote, options).index_of(step);
    assert(planned(local, remote, options)[at] == step);
    if at < a.len() {
        assert(a[at] == step);
    } else if at < a.len() + b.len() {
        assert(b[at - a.len()] == step);
        let path = lemma_local_origin(local.entries.keys(), local, remote, options, step);
    } else {
        assert(c[at - a.len() - b.len()] == step);
        let path = lemma_remote_origin(remote.entries.keys(), local, remote, options, step);
    }
}

/// The steps of a plan come in the order of their rank; within a rank, what
/// removes goes from the deepest path up and all else from the top down.
pub proof fn law_plan_order(input: Seq<PlanStep>, output: Seq<PlanStep>, i: int, j: int)
    requires
        arrangement_of::<PlanAction>(input, output),
        0 <= i < j < output.len(),
    ensures
        output[i].rank() <= output[j].rank(),
        output[i].rank() == output[j].rank() && output[i].rank() < 4 ==> depth_of(output[i].path()) <= depth_of(
            output[j].path(),
        ),
        output[i].rank() == output[j].rank() && output[i].rank() >= 4 ==> depth_of(output[i].path()) >= depth_of(
            output[j].path(),
        ),
{
    assert(!key_less(PlanAction::sort_key(output[j]), PlanAction::sort_key(output[i])));
}

/// A directory is created before anything below it is created, uploaded or
/// replaced, and deleted after everything below it is deleted.
pub proof fn law_directories_frame_their_contents(input: Seq<PlanStep>, output: Seq<PlanStep>, i: int, j: int)
    requires
        arrangement_of::<PlanAction>(input, output),
        0 <= i < output.len(),
        0 <= j < output.len(),
        output[i].path().len() > 0,
        crate::text::below(output[j].path(), output[i].path()),
    ensures
        output[i] is CreateDirectory && 1 <= output[j].rank() <= 3 ==> i < j,
        output[i] is DeleteDirectory && output[j].rank() >= 4 ==> j < i,
{
    crate::sync::types::lemma_below_is_deeper(output[j].path(), output[i].path());
    if i < j {
        law_plan_order(input, output, i, j);
    } else if j < i {
        law_plan_order(input, output, j, i);
    }
}

/// A plan has conflicts exactly where one of its steps is a conflict.
pub proof fn law_conflicts_are_counted(plan: Plan)
    requires
        plan.tallied(),
    ensures
        plan.conflicts > 0 <==> exists|i: int| 0 <= i < plan.actions@.len() && #[trigger] plan.actions@[i]@ is Conflict,
{
    let steps = views(plan.actions@);
    lemma_rank_positive(steps, 0);
    if exists|i: int| 0 <= i < plan.actions@.len() && #[trigger] plan.actions@[i]@ is Conflict {
        let i = choose|i: int| 0 <= i < plan.actions@.len() && #[trigger] plan.actions@[i]@ is Conflict;
        assert(steps[i].rank() == 0);
    } else if plan.conflicts > 0 {
        let i = choose|i: int| 0 <= i < steps.len() && (#[trigger] steps[i]).rank() == 0;
        assert(plan.actions@[i]@ is Conflict);
    }
}

/// A rank is counted exactly where a step has it.
pub proof fn lemma_rank_positive(steps: Seq<PlanStep>, rank: int)
    ensures
        total(steps, of_rank(rank)) > 0 <==> exists|i: int|
            0 <= i < steps.len() && (#[trigger] steps[i]).rank() == rank,
    decreases steps.len(),
{
    if steps.len() > 0 {
        let rest = steps.drop_last();
        lemma_rank_positive(rest, rank);
        if steps.last().rank() == rank {
            assert(steps[steps.len() - 1].rank() == rank);
        }
        if exists|i: int| 0 <= i < rest.len() && (#[trigger] rest[i]).rank() == rank {
            let i = choose|i: int| 0 <= i < rest.len() && (#[trigger] rest[i]).rank() == rank;
            assert(steps[i].rank() == rank);
        }
        if exists|i: int| 0 <= i < steps.len() && (#[trigger] steps[i]).rank() == rank {
            let i = choose|i: int| 0 <= i < steps.len() && (#[trigger] steps[i]).rank() == rank;
            if i < rest.len() {
                assert(rest[i].rank() == rank);
            }
        }
    }
}

proof fn lemma_local_steps_empty(
    paths: Seq<Seq<char>>,
    local: LocalManifest,
    remote: RemoteManifest,
    options: PlanOptions,
)
    ensures
        local_steps(paths, local, remote, options).len() == 0 <==> forall|i: int|
            0 <= i < paths.len() ==> local_step(remote, options, #[trigger] paths[i], local.entries@[paths[i]]) is None,
    decreases paths.len(),
{
    if paths.len() > 0 {
        let rest = paths.drop_last();
        lemma_local_steps_empty(rest, local, remote, options);
        assert forall|i: int| 0 <= i < rest.len() implies rest[i] == paths[i] by {}
        if local_steps(paths, local, remote, options).len() == 0 {
            assert forall|i: int| 0 <= i < paths.len() implies local_step(
                remote,
                options,
                #[trigger] paths[i],
                local.entries@[paths[i]],
            ) is None by {
                if i < rest.len() {
                    assert(rest[i] == paths[i]);
                }
            }
        } else if forall|i: int|
            0 <= i < paths.len() ==> local_step(remote, options, #[trigger] paths[i], local.entries@[paths[i]]) is None {
            assert(paths[paths.len() - 1] == paths.last());
            assert forall|i: int| 0 <= i < rest.len() implies local_step(
                remote,
                options,
                #[trigger] rest[i],
                local.entries@[rest[i]],
            ) is None by {
                assert(rest[i] == paths[i]);
            }
        }
    }
}

proof fn lemma_remote_steps_empty(
    paths: Seq<Seq<char>>,
    local: LocalManifest,
    remote: RemoteManifest,
    options: PlanOptions,
)
    ensures
        remote_steps(paths, local, remote, options).len() == 0 <==> forall|i: int|
            0 <= i < paths.len() ==> remote_step(local, options, #[trigger] paths[i], remote.entries@[paths[i]]) is None,
    decreases paths.len(),
{
    if paths.len() > 0 {
        let rest = paths.drop_last();
        lemma_remote_steps_empty(rest, local, remote, options);
        if remote_steps(paths, local, remote, options).len() == 0 {
            assert forall|i: int| 0 <= i < paths.len() implies remote_step(
                local,
                options,
                #[trigger] paths[i],
                remote.entries@[paths[i]],
            ) is None by {
                if i < rest.len() {
                    assert(rest[i] == paths[i]);
                }
            }
        } else if forall|i: int|
            0 <= i < paths.len() ==> remote_step(local, options, #[trigger] paths[i], remote.entries@[paths[i]]) is None {
            assert(paths[paths.len() - 1] == paths.last());
            assert forall|i: int| 0 <= i < rest.len() implies remote_step(
                local,
                options,
                #[trigger] rest[i],
                remote.entries@[rest[i]],
            ) is None by {
                assert(rest[i] == paths[i]);
            }
        }
    }
}

/// Whether a local entry is stored in the bucket as it is.
pub open spec fn stored(remote: RemoteManifest, path: Seq<char>, entry: LocalEntry) -> bool {
    &&& local_unchanged(remote, path, entry)
    &&& entry.kind is Directory ==> remote.entries@[path].status >= 0
}

/// A plan has nothing to do exactly where the bucket is in step: no conflict
/// was found, every local entry is stored as it is, and every entry of the
/// bucket is in the local tree or is left alone.
pub proof fn law_nothing_to_do_means_in_step(local: LocalManifest, remote: RemoteManifest, options: PlanOptions)
    requires
        local.entries.ordered(),
        remote.entries.ordered(),
    ensures
        planned(local, remote, options).len() == 0 <==> {
            &&& remote.conflicts@.len() == 0
            &&& forall|path: Seq<char>| #[trigger] local.entries@.contains_key(path) ==> stored(
                remote,
                path,
                local.entries@[path],
            )
            &&& forall|path: Seq<char>| #[trigger] remote.entries@.contains_key(path) ==> local.entries@.contains_key(path)
                || remote_retained(local, options, path)
        },
{
    local.entries.lemma_contents();
    remote.entries.lemma_contents();
    let locals = local.entries.keys();
    let remotes = remote.entries.keys();
    lemma_local_steps_empty(locals, local, remote, options);
    lemma_remote_steps_empty(remotes, local, remote, options);
    if planned(local, remote, options).len() == 0 {
        assert forall|path: Seq<char>| #[trigger] local.entries@.contains_key(path) implies stored(
            remote,
            path,
            local.entries@[path],
        ) by {
            let i = locals.index_of(path);
            assert(locals[i] == path);
        }
        assert forall|path: Seq<char>| #[trigger] remote.entries@.contains_key(path) implies local.entries@.contains_key(path)
            || remote_retained(local, options, path) by {
            let i = remotes.index_of(path);
            assert(remotes[i] == path);
        }
    }
    if {
        &&& remote.conflicts@.len() == 0
        &&& forall|path: Seq<char>| #[trigger] local.entries@.contains_key(path) ==> stored(
            remote,
            path,
            local.entries@[path],
        )
        &&& forall|path: Seq<char>| #[trigger] remote.entries@.contains_key(path) ==> local.entries@.contains_key(path)
            || remote_retained(local, options, path)
    } {
        assert forall|i: int| 0 <= i < locals.len() implies local_step(
            remote,
            options,
            #[trigger] locals[i],
            local.entries@[locals[i]],
        ) is None by {
            assert(locals.contains(locals[i]));
            assert(local.entries@.contains_key(locals[i]));
        }
        assert forall|i: int| 0 <= i < remotes.len() implies remote_step(
            local,
            options,
            #[trigger] remotes[i],
            remote.entries@[remotes[i]],
        ) is None by {
            assert(remotes.contains(remotes[i]));
            assert(remote.entries@.contains_key(remotes[i]));
        }
    }
}

/// What the bucket holds after the missing entries were added to it.
pub open spec fn missing_added(local: LocalManifest, before: RemoteManifest, after: RemoteManifest) -> bool {
    &&& after.conflicts@.len() == 0
    &&& forall|path: Seq<char>|
        #[trigger] local.entries@.contains_key(path) ==> if before.entries@.contains_key(path) {
            after.entries@.contains_key(path) && after.entries@[path] == before.entries@[path]
        } else {
            after.entries@.contains_key(path) && after.entries@[path].kind == local.entries@[path].kind
                && after.entries@[path].hash == local.entries@[path].hash && after.entries@[path].status == 0
        }
}

/// An upload without `delete` and `overwrite` is idempotent: where its plan
/// has no conflict and its steps were carried out, the next plan is empty.
pub proof fn law_upload_is_idempotent(
    local: LocalManifest,
    before: RemoteManifest,
    after: RemoteManifest,
    options: PlanOptions,
)
    requires
        local.entries.ordered(),
        before.entries.ordered(),
        after.entries.ordered(),
        !options.delete,
        !options.overwrite,
        forall|path: Seq<char>| #[trigger] local.entries@.contains_key(path) && local.entries@[path].kind is File ==>
            local.entries@[path].hash is Some,
        forall|i: int|
            0 <= i < planned(local, before, options).len() ==> !(#[trigger] planned(local, before, options)[i] is Conflict),
        missing_added(local, before, after),
    ensures
        planned(local, after, options).len() == 0,
{
    local.entries.lemma_contents();
    let keys = local.entries.keys();
    let steps = planned(local, before, options);
    assert forall|path: Seq<char>| #[trigger] local.entries@.contains_key(path) implies stored(
        after,
        path,
        local.entries@[path],
    ) by {
        let entry = local.entries@[path];
        if before.entries@.contains_key(path) {
            match local_step(before, options, path, entry) {
                Some(step) => {
                    lemma_local_step_listed(keys, local, before, options, path);
                    let listed = local_steps(keys, local, before, options);
                    let i = listed.index_of(step);
                    assert(listed[i] == step);
                    assert(steps[before.conflicts@.len() + i] == step);
                },
                None => {},
            }
        }
    }
    law_nothing_to_do_means_in_step(local, after, options);
}

proof fn lemma_local_step_listed(
    paths: Seq<Seq<char>>,
    local: LocalManifest,
    remote: RemoteManifest,
    options: PlanOptions,
    path: Seq<char>,
)
    requires
        paths.contains(path),
        local_step(remote, options, path, local.entries@[path]) is Some,
    ensures
        local_steps(paths, local, remote, options).contains(
            local_step(remote, options, path, local.entries@[path])->0,
        ),
    decreases paths.len(),
{
    let rest = paths.drop_last();
    let steps = local_steps(paths, local, remote, options);
    let step = local_step(remote, options, path, local.entries@[path])->0;
    if paths.last() == path {
        assert(steps[steps.len() - 1] == step);
    } else {
        let i = paths.index_of(path);
        assert(rest[i] == path);
        lemma_local_step_listed(rest, local, remote, options, path);
        let j = local_steps(rest, local, remote, options).index_of(step);
        assert(steps[j] == step);
    }
}

/// The step that a local entry asks for is in the plan.
proof fn lemma_local_step_planned(local: LocalManifest, remote: RemoteManifest, options: PlanOptions, path: Seq<char>)
    requires
        local.entries.ordered(),
        local.entries@.contains_key(path),
        local_step(remote, options, path, local.entries@[path]) is Some,
    ensures
        planned(local, remote, options).contains(local_step(remote, options, path, local.entries@[path])->0),
{
    local.entries.lemma_contents();
    let keys = local.entries.keys();
    let step = local_step(remote, options, path, local.entries@[path])->0;
    lemma_local_step_listed(keys, local, remote, options, path);
    let listed = local_steps(keys, local, remote, options);
    let i = listed.index_of(step);
    assert(listed[i] == step);
    assert(planned(local, remote, options)[remote.conflicts@.len() + i] == step);
}

proof fn lemma_remote_step_listed(
    paths: Seq<Seq<char>>,
    local: LocalManifest,
    remote: RemoteManifest,
    options: PlanOptions,
    path: Seq<char>,
)
    requires
        paths.contains(path),
        remote_step(local, options, path, remote.entries@[path]) is Some,
    ensures
        remote_steps(paths, local, remote, options).contains(
            remote_step(local, options, path, remote.entries@[path])->0,
        ),
    decreases paths.len(),
{
    let rest = paths.drop_last();
    let steps = remote_steps(paths, local, remote, options);
    let step = remote_step(local, options, path, remote.entries@[path])->0;
    if paths.last() == path {
        assert(steps[steps.len() - 1] == step);
    } else {
        let i = paths.index_of(path);
        assert(rest[i] == path);
        lemma_remote_step_listed(rest, local, remote, options, path);
        let j = remote_steps(rest, local, remote, options).index_of(step);
        assert(steps[j] == step);
    }
}

/// The step that an entry of the bucket asks for is in the plan.
proof fn lemma_remote_step_planned(local: LocalManifest, remote: RemoteManifest, options: PlanOptions, path: Seq<char>)
    requires
        remote.entries.ordered(),
        remote.entries@.contains_key(path),
        remote_step(local, options, path, remote.entries@[path]) is Some,
    ensures
        planned(local, remote, options).contains(remote_step(local, options, path, remote.entries@[path])->0),
{
    remote.entries.lemma_contents();
    let keys = remote.entries.keys();
    let step = remote_step(local, options, path, remote.entries@[path])->0;
    lemma_remote_step_listed(keys, local, remote, options, path);
    let first = conflict_steps(remote.conflicts@) + local_steps(local.entries.keys(), local, remote, options);
    let listed = remote_steps(keys, local, remote, options);
    let i = listed.index_of(step);
    assert(listed[i] == step);
    assert(planned(local, remote, options)[first.len() + i] == step);
}

/// Where a step of a plan comes from.
proof fn lemma_step_origin(local: LocalManifest, remote: RemoteManifest, options: PlanOptions, step: PlanStep)
    requires
        planned(local, remote, options).contains(step),
        local.entries.ordered(),
        remote.entries.ordered(),
    ensures
        ({
            ||| step is Conflict && exists|i: int|
                0 <= i < remote.conflicts@.len() && (#[trigger] remote.conflicts@[i]).0@ == step.path()
            ||| local.entries@.contains_key(step.path()) && local_step(
                remote,
                options,
                step.path(),
                local.entries@[step.path()],
            ) == Some(step)
            ||| remote.entries@.contains_key(step.path()) && remote_step(
                local,
                options,
                step.path(),
                remote.entries@[step.path()],
            ) == Some(step)
        }),
{
    local.entries.lemma_contents();
    remote.entries.lemma_contents();
    let a = conflict_steps(remote.conflicts@);
    let b = local_steps(local.entries.keys(), local, remote, options);
    let c = remote_steps(remote.entries.keys(), local, remote, options);
    let at = planned(local, remote, options).index_of(step);
    assert(planned(local, remote, options)[at] == step);
    if at < a.len() {
        assert(a[at] == step);
        assert(remote.conflicts@[at].0@ == step.path());
    } else if at < a.len() + b.len() {
        assert(b[at - a.len()] == step);
        let path = lemma_local_origin(local.entries.keys(), local, remote, options, step);
    } else {
        assert(c[at - a.len() - b.len()] == step);
        let path = lemma_remote_origin(remote.entries.keys(), local, remote, options, step);
    }
}

/// Every step names the very entry that it is about: what is uploaded is a file
/// of the local tree with its size, what is made is one of its directories, and
/// what is replaced or deleted has the identifier that the bucket gave it.
pub proof fn law_steps_name_their_entries(
    local: LocalManifest,
    remote: RemoteManifest,
    options: PlanOptions,
    step: PlanStep,
)
    requires
        planned(local, remote, options).contains(step),
        local.entries.ordered(),
        remote.entries.ordered(),
    ensures
        match step {
            PlanStep::Conflict { .. } => true,
            PlanStep::CreateDirectory { path } => local.entries@.contains_key(path) && local.entries@[path].kind
                is Directory,
            PlanStep::UploadFile { path, size } => local.entries@.contains_key(path) && local.entries@[path].kind is File
                && size == local.entries@[path].size,
            PlanStep::ReplaceFile { path, remote_id, size } => {
                &&& local.entries@.contains_key(path)
                &&& local.entries@[path].kind is File
                &&& size == local.entries@[path].size
                &&& remote.entries@.contains_key(path)
                &&& remote.entries@[path].kind is File
                &&& remote_id == remote.entries@[path].id
            },
            PlanStep::DeleteFile { path, remote_id } => remote.entries@.contains_key(path)
                && remote.entries@[path].kind is File && remote_id == remote.entries@[path].id,
            PlanStep::DeleteDirectory { path, remote_id } => remote.entries@.contains_key(path)
                && remote.entries@[path].kind is Directory && remote_id == remote.entries@[path].id,
        },
{
    lemma_step_origin(local, remote, options, step);
}

/// What the bucket lacks is added: a file is uploaded and a directory made, in
/// the root where it is writable, in a folder that is writable, or in one that
/// is not there yet.  Below anything else there is a conflict instead.
pub proof fn law_missing_entries_are_added(
    local: LocalManifest,
    remote: RemoteManifest,
    options: PlanOptions,
    path: Seq<char>,
)
    requires
        local.entries.ordered(),
        local.entries@.contains_key(path),
        !remote.entries@.contains_key(path),
    ensures
        ({
            let parent = parent_of(path);
            let writable = if parent.len() == 0 {
                remote.root_status == 0
            } else {
                remote.entries@.contains_key(parent) ==> remote.entries@[parent].kind is Directory
                    && remote.entries@[parent].status == 0
            };
            if writable {
                planned(local, remote, options).contains(
                    match local.entries@[path].kind {
                        EntryKind::File => PlanStep::UploadFile { path, size: local.entries@[path].size },
                        EntryKind::Directory => PlanStep::CreateDirectory { path },
                    },
                )
            } else {
                exists|reason: Seq<char>| #[trigger]
                    planned(local, remote, options).contains(PlanStep::Conflict { path, reason })
            }
        }),
{
    lemma_local_step_planned(local, remote, options, path);
}

/// A file whose content is not known to be that of the bucket is replaced where
/// overwriting is allowed and the file and its folder are writable; otherwise
/// it is a conflict.
pub proof fn law_changed_files_are_replaced_or_reported(
    local: LocalManifest,
    remote: RemoteManifest,
    options: PlanOptions,
    path: Seq<char>,
)
    requires
        local.entries.ordered(),
        local.entries@.contains_key(path),
        remote.entries@.contains_key(path),
        local.entries@[path].kind is File,
        remote.entries@[path].kind is File,
        local.entries@[path].hash is None || local.entries@[path].hash != remote.entries@[path].hash,
    ensures
        ({
            let parent = parent_of(path);
            let writable = remote.entries@[path].status == 0 && if parent.len() == 0 {
                remote.root_status == 0
            } else {
                remote.entries@.contains_key(parent) ==> remote.entries@[parent].kind is Directory
                    && remote.entries@[parent].status == 0
            };
            if options.overwrite && writable {
                planned(local, remote, options).contains(
                    PlanStep::ReplaceFile {
                        path,
                        remote_id: remote.entries@[path].id,
                        size: local.entries@[path].size,
                    },
                )
            } else {
                exists|reason: Seq<char>| #[trigger]
                    planned(local, remote, options).contains(PlanStep::Conflict { path, reason })
            }
        }),
{
    lemma_local_step_planned(local, remote, options, path);
}

/// A file and a directory of the same path are a conflict, and so is a local
/// directory whose folder is archived.
pub proof fn law_clashing_entries_are_conflicts(
    local: LocalManifest,
    remote: RemoteManifest,
    options: PlanOptions,
    path: Seq<char>,
)
    requires
        local.entries.ordered(),
        local.entries@.contains_key(path),
        remote.entries@.contains_key(path),
        local.entries@[path].kind != remote.entries@[path].kind || (local.entries@[path].kind is Directory
            && remote.entries@[path].status < 0),
    ensures
        exists|reason: Seq<char>| #[trigger]
            planned(local, remote, options).contains(PlanStep::Conflict { path, reason }),
{
    lemma_local_step_planned(local, remote, options, path);
}

/// What the bucket holds as it is locally is left alone: a file with the same
/// known hash, or a directory that is not archived, has no step but a conflict
/// that the scan of the bucket reported.
pub proof fn law_entries_in_step_are_left_alone(
    local: LocalManifest,
    remote: RemoteManifest,
    options: PlanOptions,
    path: Seq<char>,
    step: PlanStep,
)
    requires
        local.entries.ordered(),
        remote.entries.ordered(),
        local.entries@.contains_key(path),
        remote.entries@.contains_key(path),
        local.entries@[path].kind == remote.entries@[path].kind,
        local.entries@[path].kind is File ==> local.entries@[path].hash is Some && local.entries@[path].hash
            == remote.entries@[path].hash,
        local.entries@[path].kind is Directory ==> remote.entries@[path].status >= 0,
        planned(local, remote, options).contains(step),
        step.path() == path,
    ensures
        step is Conflict,
        exists|i: int| 0 <= i < remote.conflicts@.len() && (#[trigger] remote.conflicts@[i]).0@ == path,
{
    lemma_step_origin(local, remote, options, step);
}

/// What is only in the bucket is deleted where deleting is asked for, unless a
/// protected path is or holds it; what is not writable is a conflict instead.
/// Without deleting, or under protection, no step deletes it.
pub proof fn law_remote_only_entries_are_mirrored(
    local: LocalManifest,
    remote: RemoteManifest,
    options: PlanOptions,
    path: Seq<char>,
)
    requires
        local.entries.ordered(),
        remote.entries.ordered(),
        remote.entries@.contains_key(path),
        !local.entries@.contains_key(path),
    ensures
        ({
            let protected = exists|i: int|
                0 <= i < local.protected_paths.keys().len() && ({
                    let held = #[trigger] local.protected_paths.keys()[i];
                    path == held || (held.len() < path.len() && path.take(held.len() as int) == held
                        && path[held.len() as int] == '/')
                });
            let entry = remote.entries@[path];
            if options.delete && !protected {
                if entry.status == 0 {
                    planned(local, remote, options).contains(
                        match entry.kind {
                            EntryKind::File => PlanStep::DeleteFile { path, remote_id: entry.id },
                            EntryKind::Directory => PlanStep::DeleteDirectory { path, remote_id: entry.id },
                        },
                    )
                } else {
                    exists|reason: Seq<char>| #[trigger]
                        planned(local, remote, options).contains(PlanStep::Conflict { path, reason })
                }
            } else {
                forall|step: PlanStep| #[trigger]
                    planned(local, remote, options).contains(step) && step.path() == path ==> step is Conflict
            }
        }),
{
    if remote_step(local, options, path, remote.entries@[path]) is Some {
        lemma_remote_step_planned(local, remote, options, path);
    }
    let protected = exists|i: int|
        0 <= i < local.protected_paths.keys().len() && ({
            let held = #[trigger] local.protected_paths.keys()[i];
            path == held || (held.len() < path.len() && path.take(held.len() as int) == held && path[held.len() as int]
                == '/')
        });
    assert(protected == path_protected(local.protected_paths.keys(), path));
    if !options.delete || protected {
        assert forall|step: PlanStep| #[trigger]
            planned(local, remote, options).contains(step) && step.path() == path implies step is Conflict by {
            lemma_step_origin(local, remote, options, step);
        }
    }
}

/// Every conflict that the scan of the bucket reported is in the plan.
pub proof fn law_reported_conflicts_are_planned(
    local: LocalManifest,
    remote: RemoteManifest,
    options: PlanOptions,
    i: int,
)
    requires
        0 <= i < remote.conflicts@.len(),
    ensures
        planned(local, remote, options).contains(
            PlanStep::Conflict { path: remote.conflicts@[i].0@, reason: remote.conflicts@[i].1@ },
        ),
{
    assert(planned(local, remote, options)[i] == PlanStep::Conflict {
        path: remote.conflicts@[i].0@,
        reason: remote.conflicts@[i].1@,
    });
}

/// A plan begins with its conflicts; then come the directories that are made,
/// the uploads, the replacements, the files that are deleted, and last the
/// directories that are.
pub proof fn law_kinds_of_steps_come_in_order(input: Seq<PlanStep>, output: Seq<PlanStep>, i: int, j: int)
    requires
        arrangement_of::<PlanAction>(input, output),
        0 <= i < j < output.len(),
    ensures
        match output[j] {
            PlanStep::Conflict { .. } => output[i] is Conflict,
            PlanStep::CreateDirectory { .. } => output[i] is Conflict || output[i] is CreateDirectory,
            PlanStep::UploadFile { .. } => output[i] is Conflict || output[i] is CreateDirectory || output[i]
                is UploadFile,
            PlanStep::ReplaceFile { .. } => !(output[i] is DeleteFile) && !(output[i] is DeleteDirectory),
            PlanStep::DeleteFile { .. } => !(output[i] is DeleteDirectory),
            PlanStep::DeleteDirectory { .. } => true,
        },
        output[i].rank() == output[j].rank() && depth_of(output[i].path()) == depth_of(output[j].path())
            ==> !crate::text::bytes_less(utf8(output[j].path()), utf8(output[i].path())),
{
    assert(!key_less(PlanAction::sort_key(output[j]), PlanAction::sort_key(output[i])));
}

proof fn lemma_total_same(steps: Seq<PlanStep>, f: spec_fn(PlanStep) -> nat, g: spec_fn(PlanStep) -> nat)
    requires
        forall|step: PlanStep| #[trigger] f(step) == g(step),
    ensures
        total(steps, f) == total(steps, g),
    decreases steps.len(),
{
    if steps.len() > 0 {
        lemma_total_same(steps.drop_last(), f, g);
        assert(f(steps.last()) == g(steps.last()));
    }
}

/// The counts of a plan are the numbers of its steps of each kind, and its
/// bytes are the sizes of what it uploads and replaces, added up.
pub proof fn law_plans_count_their_steps(plan: Plan)
    requires
        plan.tallied(),
    ensures
        ({
            let steps = views(plan.actions@);
            &&& plan.conflicts == total(steps, |step: PlanStep| if step is Conflict { 1nat } else { 0nat })
            &&& plan.create_directories == total(
                steps,
                |step: PlanStep| if step is CreateDirectory { 1nat } else { 0nat },
            )
            &&& plan.upload_files == total(steps, |step: PlanStep| if step is UploadFile { 1nat } else { 0nat })
            &&& plan.replace_files == total(steps, |step: PlanStep| if step is ReplaceFile { 1nat } else { 0nat })
            &&& plan.delete_files == total(steps, |step: PlanStep| if step is DeleteFile { 1nat } else { 0nat })
            &&& plan.delete_directories == total(
                steps,
                |step: PlanStep| if step is DeleteDirectory { 1nat } else { 0nat },
            )
            &&& plan.upload_bytes == total(
                steps,
                |step: PlanStep|
                    match step {
                        PlanStep::UploadFile { size, .. } => size as nat,
                        PlanStep::ReplaceFile { size, .. } => size as nat,
                        _ => 0nat,
                    },
            )
        }),
{
    let steps = views(plan.actions@);
    lemma_total_same(steps, of_rank(0), |step: PlanStep| if step is Conflict { 1nat } else { 0nat });
    lemma_total_same(steps, of_rank(1), |step: PlanStep| if step is CreateDirectory { 1nat } else { 0nat });
    lemma_total_same(steps, of_rank(2), |step: PlanStep| if step is UploadFile { 1nat } else { 0nat });
    lemma_total_same(steps, of_rank(3), |step: PlanStep| if step is ReplaceFile { 1nat } else { 0nat });
    lemma_total_same(steps, of_rank(4), |step: PlanStep| if step is DeleteFile { 1nat } else { 0nat });
    lemma_total_same(steps, of_rank(5), |step: PlanStep| if step is DeleteDirectory { 1nat } else { 0nat });
    lemma_total_same(
        steps,
        step_bytes(),
        |step: PlanStep|
            match step {
                PlanStep::UploadFile { size, .. } => size as nat,
                PlanStep::ReplaceFile { size, .. } => size as nat,
                _ => 0nat,
            },
    );
}

/// What counts as unchanged is what the bucket holds under the same path: a
/// directory for a directory, or a file with the same known hash for a file.
pub proof fn law_unchanged_means_the_same_content(remote: RemoteManifest, path: Seq<char>, entry: LocalEntry)
    ensures
        local_unchanged(remote, path, entry) <==> {
            &&& remote.entries@.contains_key(path)
            &&& match (entry.kind, remote.entries@[path].kind) {
                (EntryKind::Directory, EntryKind::Directory) => true,
                (EntryKind::File, EntryKind::File) => entry.hash matches Some(hash) && remote.entries@[path].hash
                    == Some(hash),
                _ => false,
            }
        },
{
}

/// A step is seen as the kind it is, with its own path, file, size and reason.
pub proof fn law_steps_are_seen_as_they_are(action: &PlanAction)
    ensures
        *action matches PlanAction::Conflict { path, reason } ==> action@ == (PlanStep::Conflict {
            path: path@,
            reason: reason@,
        }),
        *action matches PlanAction::CreateDirectory { path } ==> action@ == (PlanStep::CreateDirectory { path: path@ }),
        *action matches PlanAction::UploadFile { path, size } ==> action@ == (PlanStep::UploadFile { path: path@, size }),
        *action matches PlanAction::ReplaceFile { path, remote_id, size } ==> action@ == (PlanStep::ReplaceFile {
            path: path@,
            remote_id,
            size,
        }),
        *action matches PlanAction::DeleteFile { path, remote_id } ==> action@ == (PlanStep::DeleteFile {
            path: path@,
            remote_id,
        }),
        *action matches PlanAction::DeleteDirectory { path, remote_id } ==> action@ == (PlanStep::DeleteDirectory {
            path: path@,
            remote_id,
        }),
{
}

/// A conflict tells why its entry cannot be brought in step, and where a file or
/// folder of the bucket is in the way, which one.
pub proof fn law_conflicts_tell_their_reason(
    local: LocalManifest,
    remote: RemoteManifest,
    options: PlanOptions,
    path: Seq<char>,
)
    requires
        local.entries.ordered(),
        remote.entries.ordered(),
        local.entries@.contains_key(path),
        remote.entries@.contains_key(path),
    ensures
        ({
            let steps = planned(local, remote, options);
            let entry = local.entries@[path];
            let known = remote.entries@[path];
            &&& entry.kind is File && known.kind is Directory ==> steps.contains(
                PlanStep::Conflict {
                    path,
                    reason: "local "@ + "File"@ + " conflicts with remote "@ + "Directory"@ + " id "@ + decimal(
                        known.id as nat,
                    ),
                },
            )
            &&& entry.kind is Directory && known.kind is File ==> steps.contains(
                PlanStep::Conflict {
                    path,
                    reason: "local "@ + "Directory"@ + " conflicts with remote "@ + "File"@ + " id "@ + decimal(
                        known.id as nat,
                    ),
                },
            )
            &&& entry.kind is Directory && known.kind is Directory && known.status < 0 ==> steps.contains(
                PlanStep::Conflict { path, reason: "remote directory is archived"@ },
            )
            &&& entry.kind is File && known.kind is File && (entry.hash is None || entry.hash != known.hash)
                && !options.overwrite ==> steps.contains(
                PlanStep::Conflict {
                    path,
                    reason: "remote file "@ + decimal(known.id as nat)
                        + " differs; rerun with --overwrite after atomic replacement is available"@,
                },
            )
            &&& entry.kind is File && known.kind is File && (entry.hash is None || entry.hash != known.hash)
                && options.overwrite && known.status != 0 ==> steps.contains(
                PlanStep::Conflict { path, reason: "remote file or parent folder is not writable"@ },
            )
        }),
{
    if local_step(remote, options, path, local.entries@[path]) is Some {
        lemma_local_step_planned(local, remote, options, path);
    }
}

/// What is only on one side and cannot be added or deleted is a conflict that
/// says so.
pub proof fn law_one_sided_conflicts_tell_their_reason(
    local: LocalManifest,
    remote: RemoteManifest,
    options: PlanOptions,
    path: Seq<char>,
)
    requires
        local.entries.ordered(),
        remote.entries.ordered(),
    ensures
        local.entries@.contains_key(path) && !remote.entries@.contains_key(path) && !parent_writable(remote, path)
            ==> planned(local, remote, options).contains(
            PlanStep::Conflict { path, reason: "remote parent folder is not writable"@ },
        ),
        remote.entries@.contains_key(path) && !local.entries@.contains_key(path) && options.delete && !path_protected(
            local.protected_paths.keys(),
            path,
        ) && remote.entries@[path].status != 0 ==> planned(local, remote, options).contains(
            PlanStep::Conflict { path, reason: "remote-only entry is not writable and cannot be deleted"@ },
        ),
{
    if local.entries@.contains_key(path) && local_step(remote, options, path, local.entries@[path]) is Some {
        lemma_local_step_planned(local, remote, options, path);
    }
    if remote.entries@.contains_key(path) && remote_step(local, options, path, remote.entries@[path]) is Some {
        lemma_remote_step_planned(local, remote, options, path);
    }
}

/// The entries that count as unchanged are those that have the same kind on both
/// sides and, for files, the same known hash; those that count as retained are
/// only in the bucket and protected, or not to be deleted.
pub proof fn law_entries_are_counted_one_by_one(
    paths: Seq<Seq<char>>,
    path: Seq<char>,
    local: LocalManifest,
    remote: RemoteManifest,
    options: PlanOptions,
)
    ensures
        count_unchanged(Seq::empty(), local, remote) == 0,
        count_unchanged(paths.push(path), local, remote) == count_unchanged(paths, local, remote) + if {
            &&& remote.entries@.contains_key(path)
            &&& local.entries@[path].kind == remote.entries@[path].kind
            &&& local.entries@[path].kind is File ==> local.entries@[path].hash is Some && local.entries@[path].hash
                == remote.entries@[path].hash
        } {
            1nat
        } else {
            0nat
        },
        count_retained(Seq::empty(), local, options) == 0,
        count_retained(paths.push(path), local, options) == count_retained(paths, local, options) + if {
            &&& !local.entries@.contains_key(path)
            &&& path_protected(local.protected_paths.keys(), path) || !options.delete
        } {
            1nat
        } else {
            0nat
        },
{
    assert(paths.push(path).drop_last() =~= paths);
}

/// A plan is made where its numbers are large enough: the entries of both sides
/// and the conflicts can be counted, and the sizes of what is uploaded added up.
pub proof fn law_bytes_of_a_plan_are_those_of_its_uploads(
    paths: Seq<Seq<char>>,
    path: Seq<char>,
    local: LocalManifest,
    remote: RemoteManifest,
    options: PlanOptions,
)
    ensures
        fits(local, remote, options) <==> {
            &&& remote.conflicts@.len() + local.entries.keys().len() + remote.entries.keys().len() <= usize::MAX
            &&& local_bytes(local.entries.keys(), local, remote, options) <= u64::MAX
        },
        local_bytes(Seq::empty(), local, remote, options) == 0,
        local_bytes(paths.push(path), local, remote, options) == local_bytes(paths, local, remote, options) + (
        match local_step(remote, options, path, local.entries@[path]) {
            Some(PlanStep::UploadFile { size, .. }) => size as nat,
            Some(PlanStep::ReplaceFile { size, .. }) => size as nat,
            _ => 0nat,
        }),
{
    assert(paths.push(path).drop_last() =~= paths);
}

proof fn lemma_local_steps_apart(paths: Seq<Seq<char>>, local: LocalManifest, remote: RemoteManifest, options: PlanOptions)
    requires
        paths.no_duplicates(),
    ensures
        forall|a: int| 0 <= a < local_steps(paths, local, remote, options).len() ==> paths.contains((#[trigger] local_steps(paths, local, remote, options)[a]).path()),
        forall|a: int, b: int|
            0 <= a < b < local_steps(paths, local, remote, options).len() ==> (#[trigger] local_steps(paths, local, remote, options)[a]).path() != (
            #[trigger] local_steps(paths, local, remote, options)[b]).path(),
    decreases paths.len(),
{
    if paths.len() > 0 {
        let rest = paths.drop_last();
        lemma_local_steps_apart(rest, local, remote, options);
        let before = local_steps(rest, local, remote, options);
        let all = local_steps(paths, local, remote, options);
        assert forall|p: Seq<char>| #[trigger] rest.contains(p) implies paths.contains(p) && p != paths.last() by {
            let i = rest.index_of(p);
            assert(paths[i] == p);
            assert(paths[paths.len() - 1] == paths.last());
        }
        assert(paths[paths.len() - 1] == paths.last());
        assert forall|a: int| 0 <= a < all.len() implies paths.contains((#[trigger] all[a]).path()) by {
            if a < before.len() {
                assert(all[a] == before[a]);
                assert(rest.contains(before[a].path()));
            }
        }
        assert forall|a: int, b: int| 0 <= a < b < all.len() implies (#[trigger] all[a]).path() != (
        #[trigger] all[b]).path() by {
            assert(all[a] == before[a]);
            assert(rest.contains(before[a].path()));
            if b < before.len() {
                assert(all[b] == before[b]);
            }
        }
    }
}

proof fn lemma_remote_steps_apart(paths: Seq<Seq<char>>, local: LocalManifest, remote: RemoteManifest, options: PlanOptions)
    requires
        paths.no_duplicates(),
    ensures
        forall|a: int| 0 <= a < remote_steps(paths, local, remote, options).len() ==> paths.contains((#[trigger] remote_steps(paths, local, remote, options)[a]).path()) && !local.entries@.contains_key(
            remote_steps(paths, local, remote, options)[a].path(),
        ),
        forall|a: int, b: int|
            0 <= a < b < remote_steps(paths, local, remote, options).len() ==> (#[trigger] remote_steps(paths, local, remote, options)[a]).path() != (
            #[trigger] remote_steps(paths, local, remote, options)[b]).path(),
    decreases paths.len(),
{
    if paths.len() > 0 {
        let rest = paths.drop_last();
        lemma_remote_steps_apart(rest, local, remote, options);
        let before = remote_steps(rest, local, remote, options);
        let all = remote_steps(paths, local, remote, options);
        assert forall|p: Seq<char>| #[trigger] rest.contains(p) implies paths.contains(p) && p != paths.last() by {
            let i = rest.index_of(p);
            assert(paths[i] == p);
            assert(paths[paths.len() - 1] == paths.last());
        }
        assert(paths[paths.len() - 1] == paths.last());
        assert forall|a: int| 0 <= a < all.len() implies paths.contains((#[trigger] all[a]).path()) && !local.entries@.contains_key(
            all[a].path(),
        ) by {
            if a < before.len() {
                assert(all[a] == before[a]);
                assert(rest.contains(before[a].path()));
            }
        }
        assert forall|a: int, b: int| 0 <= a < b < all.len() implies (#[trigger] all[a]).path() != (
        #[trigger] all[b]).path() by {
            assert(all[a] == before[a]);
            assert(rest.contains(before[a].path()));
            if b < before.len() {
                assert(all[b] == before[b]);
            }
        }
    }
}

/// Beside the conflicts that the scan of the bucket reported, a plan has at most
/// one step for each path.
pub proof fn law_each_path_has_one_step(
    local: LocalManifest,
    remote: RemoteManifest,
    options: PlanOptions,
    i: int,
    j: int,
)
    requires
        local.entries.ordered(),
        remote.entries.ordered(),
        remote.conflicts@.len() <= i < j < planned(local, remote, options).len(),
    ensures
        planned(local, remote, options)[i].path() != planned(local, remote, options)[j].path(),
{
    local.entries.lemma_contents();
    remote.entries.lemma_contents();
    let a = conflict_steps(remote.conflicts@);
    let b = local_steps(local.entries.keys(), local, remote, options);
    let c = remote_steps(remote.entries.keys(), local, remote, options);
    let all = planned(local, remote, options);
    lemma_local_steps_apart(local.entries.keys(), local, remote, options);
    lemma_remote_steps_apart(remote.entries.keys(), local, remote, options);
    if i < a.len() + b.len() {
        assert(all[i] == b[i - a.len()]);
        if j < a.len() + b.len() {
            assert(all[j] == b[j - a.len()]);
        } else {
            assert(all[j] == c[j - a.len() - b.len()]);
            assert(local.entries@.contains_key(b[i - a.len()].path()));
        }
    } else {
        assert(all[i] == c[i - a.len() - b.len()]);
        assert(all[j] == c[j - a.len() - b.len()]);
    }
}

} // verus!

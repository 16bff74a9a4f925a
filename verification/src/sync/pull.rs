//! The plan of a download synchronisation, and the checks on what it writes.
use vstd::prelude::*;

use crate::outside::{debug_quoted, debug_text};
use crate::outside::set_patterns;
use crate::sync::arrange::{
    arrange, arrangement_of, key_less, lemma_total_permutation, lemma_total_push, total, views, Arranged, SortKey,
};
use crate::sync::excludes::{compile_excludes, excludes_error, is_excluded, path_excluded};
use crate::sync::planner::{joined_warnings, lemma_total_prefix, signed_depth};
use crate::sync::types::{
    depth_of, kind_name, kind_text, same_hash, EntryKind, LocalEntry, LocalManifest, RemoteEntry, RemoteManifest,
};
use crate::text::{
    below, bytes_before, cat2, cat3, cat5, decimal, decimal_text, has_char, is_below, owned, same_text, split, split_text, utf8,
};

verus! {

/// Whether a part of a path is no plain name.
pub open spec fn unsafe_component(component: Seq<char>) -> bool {
    ||| component.len() == 0
    ||| component == "."@
    ||| component == ".."@
    ||| component.contains('\\')
    ||| component.contains('\0')
}

/// The first part that is no plain name, counted from `from`.
pub open spec fn first_unsafe(components: Seq<Seq<char>>, from: int) -> Option<Seq<char>>
    decreases components.len() - from,
{
    if from < 0 || from >= components.len() {
        None
    } else if unsafe_component(components[from]) {
        Some(components[from])
    } else {
        first_unsafe(components, from + 1)
    }
}

/// Why a path of the bucket may not be used below a local directory, if it may
/// not.
pub open spec fn relative_path_error(path: Seq<char>) -> Option<Seq<char>> {
    if path.len() == 0 || path[0] == '/' || path.last() == '/' {
        Some("remote entry has an invalid relative path"@)
    } else {
        match first_unsafe(split(path, '/'), 0) {
            Some(component) => Some("remote entry contains an unsafe path component "@ + debug_text(component)),
            None => None,
        }
    }
}

fn is_unsafe_component(component: &str) -> (r: bool)
    ensures
        r == unsafe_component(component@),
{
    component.is_empty() || same_text(component, ".") || same_text(component, "..") || has_char(component, '\\')
        || has_char(component, '\0')
}

/// The names of a safe path, from the top down.
pub fn local_path(relative: &str) -> (r: Result<Vec<String>, String>)
    ensures
        match r {
            Ok(names) => relative_path_error(relative@) is None && views(names@) == split(relative@, '/'),
            Err(message) => relative_path_error(relative@) == Some(message@),
        },
{
    if relative.is_empty() {
        return Err(owned("remote entry has an invalid relative path"));
    }
    let chars = crate::text::chars_of(relative);
    if chars[0] == '/' || chars[chars.len() - 1] == '/' {
        return Err(owned("remote entry has an invalid relative path"));
    }
    let names = split_text(relative, '/');
    let ghost all = split(relative@, '/');
    assert(views(names@) =~= all);
    for i in 0..names.len()
        invariant
            all == split(relative@, '/'),
            views(names@) == all,
            names@.len() == all.len(),
            relative@.len() > 0 && relative@[0] != '/' && relative@.last() != '/',
            first_unsafe(all, 0) == first_unsafe(all, i as int),
    {
        let name = names[i].as_str();
        assert(views(names@)[i as int] == name@);
        if is_unsafe_component(name) {
            return Err(cat2("remote entry contains an unsafe path component ", debug_quoted(name).as_str()));
        }
    }
    Ok(names)
}

/// Checks that a path of the bucket may be used below a local directory.
pub fn validate_relative_path(path: &str) -> (r: Result<(), String>)
    ensures
        match r {
            Ok(_) => relative_path_error(path@) is None,
            Err(message) => relative_path_error(path@) == Some(message@),
        },
{
    match local_path(path) {
        Ok(_) => Ok(()),
        Err(message) => Err(message),
    }
}

proof fn lemma_none_unsafe(components: Seq<Seq<char>>, from: int, i: int)
    requires
        first_unsafe(components, from) is None,
        0 <= from <= i < components.len(),
    ensures
        !unsafe_component(components[i]),
    decreases i - from,
{
    if from < i {
        lemma_none_unsafe(components, from + 1, i);
    }
}

/// A path that is accepted stays below the directory it is used in: each of
/// its parts is a plain name, none of them empty, `.` or `..`, and none holds
/// a separator.
pub proof fn law_accepted_paths_stay_below_the_root(path: Seq<char>, i: int)
    requires
        relative_path_error(path) is None,
        0 <= i < split(path, '/').len(),
    ensures
        split(path, '/')[i].len() > 0,
        split(path, '/')[i] != "."@,
        split(path, '/')[i] != ".."@,
        !split(path, '/')[i].contains('/'),
        !split(path, '/')[i].contains('\\'),
        !split(path, '/')[i].contains('\0'),
{
    lemma_none_unsafe(split(path, '/'), 0, i);
    crate::text::lemma_split_parts(path, '/');
}

/// One step of a download plan.
#[derive(Clone, Debug)]
pub enum PullAction {
    Conflict { path: String, reason: String },
    CreateDirectory { path: String },
    DownloadFile { path: String, remote_id: u32, size: u64 },
    ReplaceFile { path: String, remote_id: u32, size: u64 },
    DeleteFile { path: String },
    DeleteDirectory { path: String },
}

/// The mathematical form of a step.
pub enum PullStep {
    Conflict { path: Seq<char>, reason: Seq<char> },
    CreateDirectory { path: Seq<char> },
    DownloadFile { path: Seq<char>, remote_id: u32, size: u64 },
    ReplaceFile { path: Seq<char>, remote_id: u32, size: u64 },
    DeleteFile { path: Seq<char> },
    DeleteDirectory { path: Seq<char> },
}

impl View for PullAction {
    type V = PullStep;

    open spec fn view(&self) -> PullStep {
        match *self {
            PullAction::Conflict { path, reason } => PullStep::Conflict { path: path@, reason: reason@ },
            PullAction::CreateDirectory { path } => PullStep::CreateDirectory { path: path@ },
            PullAction::DownloadFile { path, remote_id, size } => PullStep::DownloadFile { path: path@, remote_id, size },
            PullAction::ReplaceFile { path, remote_id, size } => PullStep::ReplaceFile { path: path@, remote_id, size },
            PullAction::DeleteFile { path } => PullStep::DeleteFile { path: path@ },
            PullAction::DeleteDirectory { path } => PullStep::DeleteDirectory { path: path@ },
        }
    }
}

impl PullStep {
    /// The path that the step is about.
    pub open spec fn path(self) -> Seq<char> {
        match self {
            PullStep::Conflict { path, .. } => path,
            PullStep::CreateDirectory { path } => path,
            PullStep::DownloadFile { path, .. } => path,
            PullStep::ReplaceFile { path, .. } => path,
            PullStep::DeleteFile { path } => path,
            PullStep::DeleteDirectory { path } => path,
        }
    }

    /// The rank of the kind of step: conflicts first, then what adds, then
    /// what removes.
    pub open spec fn rank(self) -> int {
        match self {
            PullStep::Conflict { .. } => 0,
            PullStep::CreateDirectory { .. } => 1,
            PullStep::DownloadFile { .. } => 2,
            PullStep::ReplaceFile { .. } => 3,
            PullStep::DeleteFile { .. } => 4,
            PullStep::DeleteDirectory { .. } => 5,
        }
    }

    /// The bytes that the step downloads.
    pub open spec fn bytes(self) -> nat {
        match self {
            PullStep::DownloadFile { size, .. } => size as nat,
            PullStep::ReplaceFile { size, .. } => size as nat,
            _ => 0,
        }
    }
}

impl Arranged for PullAction {
    /// Steps that remove go from the deepest path up, all others from the top down.
    open spec fn sort_key(view: PullStep) -> SortKey {
        SortKey {
            rank: view.rank(),
            depth: if view.rank() < 4 {
                depth_of(view.path()) as int
            } else {
                -(depth_of(view.path()) as int)
            },
            path: utf8(view.path()),
        }
    }

    fn comes_before(&self, other: &Self) -> (r: bool) {
        let (left_rank, left_depth, left_path) = action_sort_key(self);
        let (right_rank, right_depth, right_path) = action_sort_key(other);
        if left_rank != right_rank {
            left_rank < right_rank
        } else if left_depth != right_depth {
            left_depth < right_depth
        } else {
            bytes_before(left_path.as_bytes(), right_path.as_bytes())
        }
    }
}

fn action_sort_key(action: &PullAction) -> (r: (u8, i128, &str))
    ensures
        (SortKey { rank: r.0 as int, depth: r.1 as int, path: utf8(r.2@) }) == PullAction::sort_key(action@),
{
    match action {
        PullAction::Conflict { path, .. } => (0, signed_depth(path.as_str(), false), path.as_str()),
        PullAction::CreateDirectory { path } => (1, signed_depth(path.as_str(), false), path.as_str()),
        PullAction::DownloadFile { path, .. } => (2, signed_depth(path.as_str(), false), path.as_str()),
        PullAction::ReplaceFile { path, .. } => (3, signed_depth(path.as_str(), false), path.as_str()),
        PullAction::DeleteFile { path } => (4, signed_depth(path.as_str(), true), path.as_str()),
        PullAction::DeleteDirectory { path } => (5, signed_depth(path.as_str(), true), path.as_str()),
    }
}

/// A download plan: its steps in the order of their execution, and their
/// counts.
#[derive(Clone, Debug)]
pub struct PullPlan {
    pub actions: Vec<PullAction>,
    pub warnings: Vec<String>,
    pub create_directories: usize,
    pub download_files: usize,
    pub replace_files: usize,
    pub delete_files: usize,
    pub delete_directories: usize,
    pub conflicts: usize,
    pub unchanged: usize,
    pub retained_local: usize,
    pub download_bytes: u64,
}

impl Default for PullPlan {
    fn default() -> (r: Self)
        ensures
            r.actions@.len() == 0,
            r.warnings@.len() == 0,
            r.tallied(),
            r.unchanged == 0,
            r.retained_local == 0,
    {
        PullPlan {
            actions: Vec::new(),
            warnings: Vec::new(),
            create_directories: 0,
            download_files: 0,
            replace_files: 0,
            delete_files: 0,
            delete_directories: 0,
            conflicts: 0,
            unchanged: 0,
            retained_local: 0,
            download_bytes: 0,
        }
    }
}

/// Counts the steps of a rank.
pub open spec fn of_rank(rank: int) -> spec_fn(PullStep) -> nat {
    |step: PullStep| if step.rank() == rank { 1nat } else { 0nat }
}

/// Counts the bytes of a step.
pub open spec fn step_bytes() -> spec_fn(PullStep) -> nat {
    |step: PullStep| step.bytes()
}

proof fn lemma_rank_count(steps: Seq<PullStep>, rank: int)
    ensures
        total(steps, of_rank(rank)) <= steps.len(),
    decreases steps.len(),
{
    if steps.len() > 0 {
        lemma_rank_count(steps.drop_last(), rank);
    }
}

impl PullPlan {
    /// The counts are those of the steps.
    pub open spec fn tallied(&self) -> bool {
        let steps = views(self.actions@);
        &&& self.conflicts == total(steps, of_rank(0))
        &&& self.create_directories == total(steps, of_rank(1))
        &&& self.download_files == total(steps, of_rank(2))
        &&& self.replace_files == total(steps, of_rank(3))
        &&& self.delete_files == total(steps, of_rank(4))
        &&& self.delete_directories == total(steps, of_rank(5))
        &&& self.download_bytes == total(steps, step_bytes())
    }

    /// Whether the plan holds a conflict.
    pub fn has_conflicts(&self) -> (r: bool)
        ensures
            r == (self.conflicts > 0),
    {
        self.conflicts > 0
    }

    fn push(&mut self, action: PullAction)
        requires
            old(self).tallied(),
            old(self).actions@.len() < usize::MAX,
            old(self).download_bytes + action@.bytes() <= u64::MAX,
        ensures
            final(self).tallied(),
            final(self).actions@ == old(self).actions@.push(action),
            views(final(self).actions@) == views(old(self).actions@).push(action@),
            final(self).warnings == old(self).warnings,
            final(self).unchanged == old(self).unchanged,
            final(self).retained_local == old(self).retained_local,
            final(self).download_bytes == old(self).download_bytes + action@.bytes(),
    {
        let ghost before = views(self.actions@);
        proof {
            lemma_rank_count(before, 0);
            lemma_rank_count(before, 1);
            lemma_rank_count(before, 2);
            lemma_rank_count(before, 3);
            lemma_rank_count(before, 4);
            lemma_rank_count(before, 5);
            lemma_total_push(before, action@, of_rank(0));
            lemma_total_push(before, action@, of_rank(1));
            lemma_total_push(before, action@, of_rank(2));
            lemma_total_push(before, action@, of_rank(3));
            lemma_total_push(before, action@, of_rank(4));
            lemma_total_push(before, action@, of_rank(5));
            lemma_total_push(before, action@, step_bytes());
        }
        match &action {
            PullAction::Conflict { .. } => {
                self.conflicts += 1;
            },
            PullAction::CreateDirectory { .. } => {
                self.create_directories += 1;
            },
            PullAction::DownloadFile { size, .. } => {
                self.download_files += 1;
                self.download_bytes += *size;
            },
            PullAction::ReplaceFile { size, .. } => {
                self.replace_files += 1;
                self.download_bytes += *size;
            },
            PullAction::DeleteFile { .. } => {
                self.delete_files += 1;
            },
            PullAction::DeleteDirectory { .. } => {
                self.delete_directories += 1;
            },
        }
        self.actions.push(action);
        assert(views(self.actions@) =~= before.push(action@));
    }
}

/// Whether a path has to stay: it is protected, or lies below or above a
/// protected path.
pub open spec fn held_by_protection(protected: Seq<Seq<char>>, path: Seq<char>) -> bool {
    exists|i: int|
        0 <= i < protected.len() && (#[trigger] protected[i] == path || below(protected[i], path) || below(
            path,
            protected[i],
        ))
}

fn is_path_protected(local: &LocalManifest, path: &str) -> (r: bool)
    ensures
        r == held_by_protection(local.protected_paths.keys(), path@),
{
    let n: usize = local.protected_paths.len();
    for i in 0..n
        invariant
            n == local.protected_paths.keys().len(),
            forall|j: int|
                0 <= j < i ==> !(#[trigger] local.protected_paths.keys()[j] == path@ || below(
                    local.protected_paths.keys()[j],
                    path@,
                ) || below(path@, local.protected_paths.keys()[j])),
    {
        let protected = local.protected_paths.path_at(i).as_str();
        if same_text(protected, path) || is_below(protected, path) || is_below(path, protected) {
            return true;
        }
    }
    false
}

/// What the user allows a download to do, and what it leaves out.
pub struct PullScope {
    pub delete: bool,
    pub overwrite: bool,
    pub excludes: Seq<Seq<char>>,
}

/// The step that an entry of the bucket asks for.
pub open spec fn remote_step(local: LocalManifest, scope: PullScope, path: Seq<char>, entry: RemoteEntry) -> Option<
    PullStep,
> {
    if path_excluded(scope.excludes, path) {
        None
    } else if let Some(reason) = relative_path_error(path) {
        Some(PullStep::Conflict { path, reason })
    } else if !local.entries@.contains_key(path) {
        if entry.kind is Directory {
            Some(PullStep::CreateDirectory { path })
        } else {
            Some(PullStep::DownloadFile { path, remote_id: entry.id, size: entry.size })
        }
    } else {
        let known = local.entries@[path];
        if known.kind != entry.kind {
            Some(
                PullStep::Conflict {
                    path,
                    reason: "remote "@ + kind_text(entry.kind) + " conflicts with local "@ + kind_text(known.kind)
                        + "; move or remove the local entry first"@,
                },
            )
        } else if entry.kind is Directory || (entry.hash is Some && entry.hash == known.hash) {
            None
        } else if !scope.overwrite {
            Some(
                PullStep::Conflict {
                    path,
                    reason: "local file differs from remote file "@ + decimal(entry.id as nat)
                        + "; rerun with --overwrite after reviewing the plan"@,
                },
            )
        } else {
            Some(PullStep::ReplaceFile { path, remote_id: entry.id, size: entry.size })
        }
    }
}

/// Whether an entry of the bucket is already there: a directory of the same
/// name, or a file with the same content.
pub open spec fn remote_unchanged(local: LocalManifest, scope: PullScope, path: Seq<char>, entry: RemoteEntry) -> bool {
    &&& !path_excluded(scope.excludes, path)
    &&& relative_path_error(path) is None
    &&& local.entries@.contains_key(path)
    &&& local.entries@[path].kind == entry.kind
    &&& entry.kind is Directory || (entry.hash is Some && entry.hash == local.entries@[path].hash)
}

/// Whether a local entry is subject to mirroring: it is not in the bucket and
/// not excluded.
pub open spec fn local_only(remote: RemoteManifest, scope: PullScope, path: Seq<char>) -> bool {
    !remote.entries@.contains_key(path) && !path_excluded(scope.excludes, path)
}

/// Whether a local-only entry is left alone.
pub open spec fn local_retained(local: LocalManifest, scope: PullScope, path: Seq<char>) -> bool {
    !scope.delete || held_by_protection(local.protected_paths.keys(), path)
}

/// The step that a local entry asks for.
pub open spec fn local_step(
    local: LocalManifest,
    remote: RemoteManifest,
    scope: PullScope,
    path: Seq<char>,
    entry: LocalEntry,
) -> Option<PullStep> {
    if !local_only(remote, scope, path) || local_retained(local, scope, path) {
        None
    } else if entry.kind is File {
        Some(PullStep::DeleteFile { path })
    } else {
        Some(PullStep::DeleteDirectory { path })
    }
}

/// Adds a step to a list, if there is one.
pub open spec fn with_step(steps: Seq<PullStep>, step: Option<PullStep>) -> Seq<PullStep> {
    match step {
        Some(step) => steps.push(step),
        None => steps,
    }
}

/// The steps for the conflicts that the scan of the bucket reported, without
/// those of excluded paths.
pub open spec fn conflict_steps(conflicts: Seq<(String, String)>, scope: PullScope) -> Seq<PullStep>
    decreases conflicts.len(),
{
    if conflicts.len() == 0 {
        Seq::empty()
    } else {
        let (path, reason) = conflicts.last();
        with_step(
            conflict_steps(conflicts.drop_last(), scope),
            if path_excluded(scope.excludes, path@) {
                None
            } else {
                Some(PullStep::Conflict { path: path@, reason: reason@ })
            },
        )
    }
}

/// The steps of the bucket's entries with the given paths.
pub open spec fn remote_steps(
    paths: Seq<Seq<char>>,
    local: LocalManifest,
    remote: RemoteManifest,
    scope: PullScope,
) -> Seq<PullStep>
    decreases paths.len(),
{
    if paths.len() == 0 {
        Seq::empty()
    } else {
        let path = paths.last();
        with_step(
            remote_steps(paths.drop_last(), local, remote, scope),
            remote_step(local, scope, path, remote.entries@[path]),
        )
    }
}

/// The steps of the local entries with the given paths.
pub open spec fn local_steps(
    paths: Seq<Seq<char>>,
    local: LocalManifest,
    remote: RemoteManifest,
    scope: PullScope,
) -> Seq<PullStep>
    decreases paths.len(),
{
    if paths.len() == 0 {
        Seq::empty()
    } else {
        let path = paths.last();
        with_step(
            local_steps(paths.drop_last(), local, remote, scope),
            local_step(local, remote, scope, path, local.entries@[path]),
        )
    }
}

/// All steps, before they are put in order.
pub open spec fn planned(local: LocalManifest, remote: RemoteManifest, scope: PullScope) -> Seq<PullStep> {
    conflict_steps(remote.conflicts@, scope) + remote_steps(remote.entries.keys(), local, remote, scope) + local_steps(
        local.entries.keys(),
        local,
        remote,
        scope,
    )
}

/// The bytes that are downloaded for an entry of the bucket.
pub open spec fn download_bytes(local: LocalManifest, scope: PullScope, path: Seq<char>, entry: RemoteEntry) -> nat {
    match remote_step(local, scope, path, entry) {
        Some(step) => step.bytes(),
        None => 0,
    }
}

/// The bytes that are downloaded for the bucket's entries with the given paths.
pub open spec fn remote_bytes(
    paths: Seq<Seq<char>>,
    local: LocalManifest,
    remote: RemoteManifest,
    scope: PullScope,
) -> nat {
    total(paths, |path: Seq<char>| download_bytes(local, scope, path, remote.entries@[path]))
}

/// How many of the paths are unchanged.
pub open spec fn count_unchanged(
    paths: Seq<Seq<char>>,
    local: LocalManifest,
    remote: RemoteManifest,
    scope: PullScope,
) -> nat {
    total(
        paths,
        |path: Seq<char>| if remote_unchanged(local, scope, path, remote.entries@[path]) { 1nat } else { 0nat },
    )
}

/// How many of the paths are local only and left alone.
pub open spec fn count_retained(
    paths: Seq<Seq<char>>,
    local: LocalManifest,
    remote: RemoteManifest,
    scope: PullScope,
) -> nat {
    total(
        paths,
        |path: Seq<char>|
            if local_only(remote, scope, path) && local_retained(local, scope, path) { 1nat } else { 0nat },
    )
}

/// What becomes of an entry of the bucket.
enum Verdict {
    Leave,
    Unchanged,
    Act(PullAction),
}

fn decide_remote(
    local: &LocalManifest,
    excludes: &globset::GlobSet,
    overwrite: bool,
    path: &String,
    entry: &RemoteEntry,
    Ghost(scope): Ghost<PullScope>,
) -> (r: Verdict)
    requires
        scope.excludes == set_patterns(*excludes),
        scope.overwrite == overwrite,
    ensures
        r is Unchanged == remote_unchanged(*local, scope, path@, *entry),
        r is Act == remote_step(*local, scope, path@, *entry) is Some,
        r matches Verdict::Act(action) ==> Some(action@) == remote_step(*local, scope, path@, *entry),
{
    if is_excluded(excludes, path.as_str()) {
        return Verdict::Leave;
    }
    if let Err(reason) = validate_relative_path(path.as_str()) {
        return Verdict::Act(PullAction::Conflict { path: path.clone(), reason });
    }
    match local.entries.get(path.as_str()) {
        None => {
            if entry.kind == EntryKind::Directory {
                Verdict::Act(PullAction::CreateDirectory { path: path.clone() })
            } else {
                Verdict::Act(PullAction::DownloadFile { path: path.clone(), remote_id: entry.id, size: entry.size })
            }
        },
        Some(known) => {
            if known.kind != entry.kind {
                Verdict::Act(
                    PullAction::Conflict {
                        path: path.clone(),
                        reason: cat5(
                            "remote ",
                            kind_name(entry.kind),
                            " conflicts with local ",
                            kind_name(known.kind),
                            "; move or remove the local entry first",
                        ),
                    },
                )
            } else if entry.kind == EntryKind::Directory || (entry.hash.is_some() && same_hash(
                &entry.hash,
                &known.hash,
            )) {
                Verdict::Unchanged
            } else if !overwrite {
                Verdict::Act(
                    PullAction::Conflict {
                        path: path.clone(),
                        reason: cat3(
                            "local file differs from remote file ",
                            decimal_text(entry.id as u64).as_str(),
                            "; rerun with --overwrite after reviewing the plan",
                        ),
                    },
                )
            } else {
                Verdict::Act(PullAction::ReplaceFile { path: path.clone(), remote_id: entry.id, size: entry.size })
            }
        },
    }
}

/// Whether the entries of both sides can be counted, and the bytes that are
/// downloaded added up, in the numbers that a plan keeps.
pub open spec fn fits(local: LocalManifest, remote: RemoteManifest, scope: PullScope) -> bool {
    &&& remote.conflicts@.len() + local.entries.keys().len() + remote.entries.keys().len() <= usize::MAX
    &&& remote_bytes(remote.entries.keys(), local, remote, scope) <= u64::MAX
}

/// Whether the entries of both sides can be counted, and the bytes that are
/// downloaded added up, in the numbers that a plan keeps.  Where the exclude
/// patterns are refused nothing is counted.
pub fn pull_fits(
    local: &LocalManifest,
    remote: &RemoteManifest,
    delete: bool,
    overwrite: bool,
    excludes: &[String],
) -> (r: bool)
    ensures
        r == (excludes_error(views(excludes@)) is None ==> fits(
            *local,
            *remote,
            PullScope { delete, overwrite, excludes: views(excludes@) },
        )),
{
    let ghost scope = PullScope { delete, overwrite, excludes: views(excludes@) };
    let set = match compile_excludes(excludes) {
        Ok(set) => set,
        Err(_) => {
            return true;
        },
    };
    let conflicts: usize = remote.conflicts.len();
    let locals: usize = local.entries.len();
    let remotes: usize = remote.entries.len();
    if conflicts > usize::MAX - locals || conflicts + locals > usize::MAX - remotes {
        return false;
    }
    let ghost paths = remote.entries.keys();
    let ghost sizes = |path: Seq<char>| download_bytes(*local, scope, path, remote.entries@[path]);
    let count: usize = remote.entries.len();
    let mut bytes: u64 = 0;
    assert(paths.take(0) =~= Seq::empty());
    for i in 0..count
        invariant
            paths == remote.entries.keys(),
            count == paths.len(),
            sizes == |path: Seq<char>| download_bytes(*local, scope, path, remote.entries@[path]),
            bytes == total(paths.take(i as int), sizes),
            remote_bytes(paths, *local, *remote, scope) == total(paths, sizes),
            excludes_error(views(excludes@)) is None,
            scope == (PullScope { delete, overwrite, excludes: views(excludes@) }),
            scope.excludes == set_patterns(set),
    {
        let path = remote.entries.path_at(i);
        let entry = remote.entries.value_at(i);
        let size: u64 = match decide_remote(local, &set, overwrite, path, entry, Ghost(scope)) {
            Verdict::Act(PullAction::DownloadFile { size, .. }) => size,
            Verdict::Act(PullAction::ReplaceFile { size, .. }) => size,
            _ => 0,
        };
        proof {
            lemma_total_prefix(paths, i as int, sizes);
        }
        if size > u64::MAX - bytes {
            return false;
        }
        bytes = bytes + size;
    }
    assert(paths.take(count as int) =~= paths);
    true
}

/// The plan that brings the local directory to the state of the bucket folder,
/// as far as `delete` and `overwrite` allow: every step in the order of its
/// execution.
pub fn plan_pull(
    local: &LocalManifest,
    remote: &RemoteManifest,
    delete: bool,
    overwrite: bool,
    excludes: &[String],
) -> (r: Result<PullPlan, String>)
    requires
        excludes_error(views(excludes@)) is None ==> fits(
            *local,
            *remote,
            PullScope { delete, overwrite, excludes: views(excludes@) },
        ),
    ensures
        match r {
            Ok(plan) => {
                let scope = PullScope { delete, overwrite, excludes: views(excludes@) };
                &&& excludes_error(views(excludes@)) is None
                &&& arrangement_of::<PullAction>(planned(*local, *remote, scope), views(plan.actions@))
                &&& plan.tallied()
                &&& plan.unchanged == count_unchanged(remote.entries.keys(), *local, *remote, scope)
                &&& plan.retained_local == count_retained(local.entries.keys(), *local, *remote, scope)
                &&& views(plan.warnings@) == views(local.warnings@) + views(remote.warnings@)
            },
            Err(message) => excludes_error(views(excludes@)) == Some(message@),
        },
{
    let ghost scope = PullScope { delete, overwrite, excludes: views(excludes@) };
    let set = match compile_excludes(excludes) {
        Ok(set) => set,
        Err(message) => {
            return Err(message);
        },
    };
    let mut plan = PullPlan::default();
    plan.warnings = joined_warnings(&local.warnings, &remote.warnings);
    assert(remote.conflicts@.take(0) =~= Seq::empty());
    assert(views(plan.actions@) =~= conflict_steps(remote.conflicts@.take(0), scope));
    for i in 0..remote.conflicts.len()
        invariant
            scope.excludes == set_patterns(set),
            views(plan.actions@) == conflict_steps(remote.conflicts@.take(i as int), scope),
            plan.actions@.len() <= i,
            plan.tallied(),
            plan.download_bytes == 0,
            plan.unchanged == 0,
            plan.retained_local == 0,
            views(plan.warnings@) == views(local.warnings@) + views(remote.warnings@),
    {
        let conflict = &remote.conflicts[i];
        assert(remote.conflicts@.take(i + 1).drop_last() =~= remote.conflicts@.take(i as int));
        if !is_excluded(&set, conflict.0.as_str()) {
            plan.push(PullAction::Conflict { path: conflict.0.clone(), reason: conflict.1.clone() });
        }
    }
    assert(remote.conflicts@.take(remote.conflicts@.len() as int) =~= remote.conflicts@);
    let ghost conflicts = conflict_steps(remote.conflicts@, scope);
    let ghost remote_paths = remote.entries.keys();
    let remote_len: usize = remote.entries.len();
    assert(remote_paths.take(0) =~= Seq::empty());
    assert(conflicts + remote_steps(remote_paths.take(0), *local, *remote, scope) =~= conflicts);
    let ghost sizes = |path: Seq<char>| download_bytes(*local, scope, path, remote.entries@[path]);
    let ghost same = |path: Seq<char>|
        if remote_unchanged(*local, scope, path, remote.entries@[path]) { 1nat } else { 0nat };
    for i in 0..remote_len
        invariant
            scope.excludes == set_patterns(set),
            scope.overwrite == overwrite,
            remote_paths == remote.entries.keys(),
            remote_len == remote_paths.len(),
            sizes == |path: Seq<char>| download_bytes(*local, scope, path, remote.entries@[path]),
            same == |path: Seq<char>|
                if remote_unchanged(*local, scope, path, remote.entries@[path]) { 1nat } else { 0nat },
            remote.conflicts@.len() + local.entries.keys().len() + remote_paths.len() <= usize::MAX,
            remote_bytes(remote_paths, *local, *remote, scope) <= u64::MAX,
            views(plan.actions@) == conflicts + remote_steps(remote_paths.take(i as int), *local, *remote, scope),
            plan.actions@.len() <= remote.conflicts@.len() + i,
            plan.tallied(),
            plan.download_bytes == total(remote_paths.take(i as int), sizes),
            plan.unchanged == total(remote_paths.take(i as int), same),
            plan.unchanged <= i,
            plan.retained_local == 0,
            views(plan.warnings@) == views(local.warnings@) + views(remote.warnings@),
    {
        let path = remote.entries.path_at(i);
        let entry = remote.entries.value_at(i);
        proof {
            lemma_total_prefix(remote_paths, i as int, sizes);
            lemma_total_prefix(remote_paths, i as int, same);
            assert(remote_paths.take(i + 1).drop_last() =~= remote_paths.take(i as int));
            assert(remote_paths.take(i + 1).last() == path@);
            let steps = remote_steps(remote_paths.take(i as int), *local, *remote, scope);
            let next = remote_steps(remote_paths.take(i + 1), *local, *remote, scope);
            assert(conflicts + next =~= with_step(conflicts + steps, remote_step(*local, scope, path@, *entry)));
        }
        match decide_remote(local, &set, overwrite, path, entry, Ghost(scope)) {
            Verdict::Leave => {},
            Verdict::Unchanged => {
                plan.unchanged += 1;
            },
            Verdict::Act(action) => {
                plan.push(action);
            },
        }
    }
    assert(remote_paths.take(remote_paths.len() as int) =~= remote_paths);
    let ghost added = conflicts + remote_steps(remote_paths, *local, *remote, scope);
    let ghost local_paths = local.entries.keys();
    let local_len: usize = local.entries.len();
    assert(local_paths.take(0) =~= Seq::empty());
    assert(added + local_steps(local_paths.take(0), *local, *remote, scope) =~= added);
    let ghost kept = |path: Seq<char>|
        if local_only(*remote, scope, path) && local_retained(*local, scope, path) { 1nat } else { 0nat };
    for i in 0..local_len
        invariant
            scope.excludes == set_patterns(set),
            scope.delete == delete,
            local_paths == local.entries.keys(),
            local_len == local_paths.len(),
            kept == |path: Seq<char>|
                if local_only(*remote, scope, path) && local_retained(*local, scope, path) { 1nat } else { 0nat },
            remote.conflicts@.len() + local_paths.len() + remote_paths.len() <= usize::MAX,
            views(plan.actions@) == added + local_steps(local_paths.take(i as int), *local, *remote, scope),
            plan.actions@.len() <= remote.conflicts@.len() + remote_paths.len() + i,
            plan.tallied(),
            plan.unchanged == count_unchanged(remote_paths, *local, *remote, scope),
            plan.retained_local == total(local_paths.take(i as int), kept),
            plan.retained_local <= i,
            views(plan.warnings@) == views(local.warnings@) + views(remote.warnings@),
    {
        let path = local.entries.path_at(i);
        let entry = local.entries.value_at(i);
        proof {
            lemma_total_prefix(local_paths, i as int, kept);
            assert(local_paths.take(i + 1).drop_last() =~= local_paths.take(i as int));
            assert(local_paths.take(i + 1).last() == path@);
            let steps = local_steps(local_paths.take(i as int), *local, *remote, scope);
            let next = local_steps(local_paths.take(i + 1), *local, *remote, scope);
            assert(added + next =~= with_step(added + steps, local_step(*local, *remote, scope, path@, *entry)));
        }
        if !remote.entries.contains_key(path.as_str()) && !is_excluded(&set, path.as_str()) {
            if !delete || is_path_protected(local, path.as_str()) {
                plan.retained_local += 1;
            } else if entry.kind == EntryKind::File {
                plan.push(PullAction::DeleteFile { path: path.clone() });
            } else {
                plan.push(PullAction::DeleteDirectory { path: path.clone() });
            }
        }
    }
    assert(local_paths.take(local_paths.len() as int) =~= local_paths);
    let ghost steps = views(plan.actions@);
    let mut actions: Vec<PullAction> = Vec::new();
    std::mem::swap(&mut actions, &mut plan.actions);
    plan.actions = arrange(actions);
    proof {
        let sorted = views(plan.actions@);
        lemma_total_permutation(sorted, steps, of_rank(0));
        lemma_total_permutation(sorted, steps, of_rank(1));
        lemma_total_permutation(sorted, steps, of_rank(2));
        lemma_total_permutation(sorted, steps, of_rank(3));
        lemma_total_permutation(sorted, steps, of_rank(4));
        lemma_total_permutation(sorted, steps, of_rank(5));
        lemma_total_permutation(sorted, steps, step_bytes());
    }
    Ok(plan)
}

proof fn lemma_conflict_origin(conflicts: Seq<(String, String)>, scope: PullScope, step: PullStep)
    requires
        conflict_steps(conflicts, scope).contains(step),
    ensures
        step is Conflict,
        !path_excluded(scope.excludes, step.path()),
    decreases conflicts.len(),
{
    let steps = conflict_steps(conflicts, scope);
    let rest = conflict_steps(conflicts.drop_last(), scope);
    let at = steps.index_of(step);
    assert(steps[at] == step);
    if at < rest.len() {
        assert(rest[at] == step);
        lemma_conflict_origin(conflicts.drop_last(), scope, step);
    }
}

proof fn lemma_remote_origin(
    paths: Seq<Seq<char>>,
    local: LocalManifest,
    remote: RemoteManifest,
    scope: PullScope,
    step: PullStep,
) -> (path: Seq<char>)
    requires
        remote_steps(paths, local, remote, scope).contains(step),
    ensures
        paths.contains(path),
        remote_step(local, scope, path, remote.entries@[path]) == Some(step),
    decreases paths.len(),
{
    let steps = remote_steps(paths, local, remote, scope);
    let rest = remote_steps(paths.drop_last(), local, remote, scope);
    let at = steps.index_of(step);
    assert(steps[at] == step);
    if at < rest.len() {
        assert(rest[at] == step);
        let path = lemma_remote_origin(paths.drop_last(), local, remote, scope, step);
        let i = paths.drop_last().index_of(path);
        assert(paths[i] == path);
        path
    } else {
        assert(paths.contains(paths.last()));
        paths.last()
    }
}

proof fn lemma_local_origin(
    paths: Seq<Seq<char>>,
    local: LocalManifest,
    remote: RemoteManifest,
    scope: PullScope,
    step: PullStep,
) -> (path: Seq<char>)
    requires
        local_steps(paths, local, remote, scope).contains(step),
    ensures
        paths.contains(path),
        local_step(local, remote, scope, path, local.entries@[path]) == Some(step),
    decreases paths.len(),
{
    let steps = local_steps(paths, local, remote, scope);
    let rest = local_steps(paths.drop_last(), local, remote, scope);
    let at = steps.index_of(step);
    assert(steps[at] == step);
    if at < rest.len() {
        assert(rest[at] == step);
        let path = lemma_local_origin(paths.drop_last(), local, remote, scope, step);
        let i = paths.drop_last().index_of(path);
        assert(paths[i] == path);
        path
    } else {
        assert(paths.contains(paths.last()));
        paths.last()
    }
}

/// A download changes nothing that is there unless it is told to: it replaces
/// files only with `overwrite` and deletes only with `delete`.  What it
/// deletes is not in the bucket and is held by no protected path; what it
/// writes has a path that stays below the local directory.  Excluded paths
/// have no step at all.
pub proof fn law_pull_is_safe_by_default(local: LocalManifest, remote: RemoteManifest, scope: PullScope, step: PullStep)
    requires
        planned(local, remote, scope).contains(step),
        local.entries.ordered(),
        remote.entries.ordered(),
    ensures
        !path_excluded(scope.excludes, step.path()),
        step is ReplaceFile ==> scope.overwrite && local.entries@.contains_key(step.path())
            && remote.entries@.contains_key(step.path()) && relative_path_error(step.path()) is None,
        step is CreateDirectory || step is DownloadFile ==> !local.entries@.contains_key(step.path())
            && remote.entries@.contains_key(step.path()) && relative_path_error(step.path()) is None,
        step is DeleteFile || step is DeleteDirectory ==> scope.delete && local.entries@.contains_key(step.path())
            && !remote.entries@.contains_key(step.path()) && !held_by_protection(
            local.protected_paths.keys(),
            step.path(),
        ),
{
    local.entries.lemma_contents();
    remote.entries.lemma_contents();
    let a = conflict_steps(remote.conflicts@, scope);
    let b = remote_steps(remote.entries.keys(), local, remote, scope);
    let c = local_steps(local.entries.keys(), local, remote, scope);
    let at = planned(local, remote, scope).index_of(step);
    assert(planned(local, remote, scope)[at] == step);
    if at < a.len() {
        assert(a[at] == step);
        lemma_conflict_origin(remote.conflicts@, scope, step);
    } else if at < a.len() + b.len() {
        assert(b[at - a.len()] == step);
        let path = lemma_remote_origin(remote.entries.keys(), local, remote, scope, step);
    } else {
        assert(c[at - a.len() - b.len()] == step);
        let path = lemma_local_origin(local.entries.keys(), local, remote, scope, step);
    }
}

/// The steps of a download come in the order of their rank; within a rank,
/// what removes goes from the deepest path up and all else from the top down.
pub proof fn law_pull_order(input: Seq<PullStep>, output: Seq<PullStep>, i: int, j: int)
    requires
        arrangement_of::<PullAction>(input, output),
        0 <= i < j < output.len(),
    ensures
        output[i].rank() <= output[j].rank(),
        output[i].rank() == output[j].rank() && output[i].rank() < 4 ==> depth_of(output[i].path()) <= depth_of(
            output[j].path(),
        ),
        output[i].rank() == output[j].rank() && output[i].rank() >= 4 ==> depth_of(output[i].path()) >= depth_of(
            output[j].path(),
        ),
{
    assert(!key_less(PullAction::sort_key(output[j]), PullAction::sort_key(output[i])));
}

/// A local directory is created before anything below it is written, and
/// deleted after everything below it is deleted.
pub proof fn law_pull_directories_frame_their_contents(input: Seq<PullStep>, output: Seq<PullStep>, i: int, j: int)
    requires
        arrangement_of::<PullAction>(input, output),
        0 <= i < output.len(),
        0 <= j < output.len(),
        output[i].path().len() > 0,
        below(output[j].path(), output[i].path()),
    ensures
        output[i] is CreateDirectory && 1 <= output[j].rank() <= 3 ==> i < j,
        output[i] is DeleteDirectory && output[j].rank() >= 4 ==> j < i,
{
    crate::sync::types::lemma_below_is_deeper(output[j].path(), output[i].path());
    if i < j {
        law_pull_order(input, output, i, j);
    } else if j < i {
        law_pull_order(input, output, j, i);
    }
}

proof fn lemma_rank_positive(steps: Seq<PullStep>, rank: int)
    ensures
        total(steps, of_rank(rank)) > 0 <==> exists|i: int|
            0 <= i < steps.len() && (#[trigger] steps[i]).rank() == rank,
    decreases steps.len(),
{
    if steps.len() > 0 {
        let rest = steps.drop_last();
        lemma_rank_positive(rest, rank);
        if steps.last().rank() == rank {
            assert(steps[steps.len() - 1].rank() == rank);
        }
        if exists|i: int| 0 <= i < rest.len() && (#[trigger] rest[i]).rank() == rank {
            let i = choose|i: int| 0 <= i < rest.len() && (#[trigger] rest[i]).rank() == rank;
            assert(steps[i].rank() == rank);
        }
        if exists|i: int| 0 <= i < steps.len() && (#[trigger] steps[i]).rank() == rank {
            let i = choose|i: int| 0 <= i < steps.len() && (#[trigger] steps[i]).rank() == rank;
            if i < rest.len() {
                assert(rest[i].rank() == rank);
            }
        }
    }
}

/// A download plan has conflicts exactly where one of its steps is a conflict.
pub proof fn law_pull_conflicts_are_counted(plan: PullPlan)
    requires
        plan.tallied(),
    ensures
        plan.conflicts > 0 <==> exists|i: int| 0 <= i < plan.actions@.len() && #[trigger] plan.actions@[i]@ is Conflict,
{
    let steps = views(plan.actions@);
    lemma_rank_positive(steps, 0);
    if exists|i: int| 0 <= i < plan.actions@.len() && #[trigger] plan.actions@[i]@ is Conflict {
        let i = choose|i: int| 0 <= i < plan.actions@.len() && #[trigger] plan.actions@[i]@ is Conflict;
        assert(steps[i].rank() == 0);
    } else if plan.conflicts > 0 {
        let i = choose|i: int| 0 <= i < steps.len() && (#[trigger] steps[i]).rank() == 0;
        assert(plan.actions@[i]@ is Conflict);
    }
}

proof fn lemma_no_remote_steps(paths: Seq<Seq<char>>, local: LocalManifest, remote: RemoteManifest, scope: PullScope)
    requires
        forall|i: int|
            0 <= i < paths.len() ==> remote_step(local, scope, #[trigger] paths[i], remote.entries@[paths[i]]) is None,
    ensures
        remote_steps(paths, local, remote, scope).len() == 0,
    decreases paths.len(),
{
    if paths.len() > 0 {
        assert(paths[paths.len() - 1] == paths.last());
        assert forall|i: int| 0 <= i < paths.drop_last().len() implies remote_step(
            local,
            scope,
            #[trigger] paths.drop_last()[i],
            remote.entries@[paths.drop_last()[i]],
        ) is None by {
            assert(paths.drop_last()[i] == paths[i]);
        }
        lemma_no_remote_steps(paths.drop_last(), local, remote, scope);
    }
}

proof fn lemma_no_local_steps(paths: Seq<Seq<char>>, local: LocalManifest, remote: RemoteManifest, scope: PullScope)
    requires
        forall|i: int|
            0 <= i < paths.len() ==> local_step(local, remote, scope, #[trigger] paths[i], local.entries@[paths[i]]) is None,
    ensures
        local_steps(paths, local, remote, scope).len() == 0,
    decreases paths.len(),
{
    if paths.len() > 0 {
        assert(paths[paths.len() - 1] == paths.last());
        assert forall|i: int| 0 <= i < paths.drop_last().len() implies local_step(
            local,
            remote,
            scope,
            #[trigger] paths.drop_last()[i],
            local.entries@[paths.drop_last()[i]],
        ) is None by {
            assert(paths.drop_last()[i] == paths[i]);
        }
        lemma_no_local_steps(paths.drop_last(), local, remote, scope);
    }
}

/// A second download has nothing to do: where every entry of the bucket that
/// is not excluded is there with the same kind and, for a file, the same
/// known hash, and every other local entry is excluded or left alone, the plan
/// is empty.
pub proof fn law_pull_of_a_complete_copy_is_empty(local: LocalManifest, remote: RemoteManifest, scope: PullScope)
    requires
        local.entries.ordered(),
        remote.entries.ordered(),
        remote.conflicts@.len() == 0,
        forall|path: Seq<char>|
            #[trigger] remote.entries@.contains_key(path) ==> path_excluded(scope.excludes, path) || remote_unchanged(
                local,
                scope,
                path,
                remote.entries@[path],
            ),
        forall|path: Seq<char>|
            #[trigger] local.entries@.contains_key(path) ==> !local_only(remote, scope, path) || local_retained(
                local,
                scope,
                path,
            ),
    ensures
        planned(local, remote, scope).len() == 0,
{
    local.entries.lemma_contents();
    remote.entries.lemma_contents();
    let remotes = remote.entries.keys();
    let locals = local.entries.keys();
    assert forall|i: int| 0 <= i < remotes.len() implies remote_step(
        local,
        scope,
        #[trigger] remotes[i],
        remote.entries@[remotes[i]],
    ) is None by {
        assert(remotes.contains(remotes[i]));
        assert(remote.entries@.contains_key(remotes[i]));
    }
    lemma_no_remote_steps(remotes, local, remote, scope);
    assert forall|i: int| 0 <= i < locals.len() implies local_step(
        local,
        remote,
        scope,
        #[trigger] locals[i],
        local.entries@[locals[i]],
    ) is None by {
        assert(locals.contains(locals[i]));
        assert(local.entries@.contains_key(locals[i]));
    }
    lemma_no_local_steps(locals, local, remote, scope);
}

proof fn lemma_remote_step_listed(
    paths: Seq<Seq<char>>,
    local: LocalManifest,
    remote: RemoteManifest,
    scope: PullScope,
    path: Seq<char>,
)
    requires
        paths.contains(path),
        remote_step(local, scope, path, remote.entries@[path]) is Some,
    ensures
        remote_steps(paths, local, remote, scope).contains(remote_step(local, scope, path, remote.entries@[path])->0),
    decreases paths.len(),
{
    let rest = paths.drop_last();
    let steps = remote_steps(paths, local, remote, scope);
    let step = remote_step(local, scope, path, remote.entries@[path])->0;
    if paths.last() == path {
        assert(steps[steps.len() - 1] == step);
    } else {
        let i = paths.index_of(path);
        assert(rest[i] == path);
        lemma_remote_step_listed(rest, local, remote, scope, path);
        let j = remote_steps(rest, local, remote, scope).index_of(step);
        assert(steps[j] == step);
    }
}

proof fn lemma_local_step_listed(
    paths: Seq<Seq<char>>,
    local: LocalManifest,
    remote: RemoteManifest,
    scope: PullScope,
    path: Seq<char>,
)
    requires
        paths.contains(path),
        local_step(local, remote, scope, path, local.entries@[path]) is Some,
    ensures
        local_steps(paths, local, remote, scope).contains(
            local_step(local, remote, scope, path, local.entries@[path])->0,
        ),
    decreases paths.len(),
{
    let rest = paths.drop_last();
    let steps = local_steps(paths, local, remote, scope);
    let step = local_step(local, remote, scope, path, local.entries@[path])->0;
    if paths.last() == path {
        assert(steps[steps.len() - 1] == step);
    } else {
        let i = paths.index_of(path);
        assert(rest[i] == path);
        lemma_local_step_listed(rest, local, remote, scope, path);
        let j = local_steps(rest, local, remote, scope).index_of(step);
        assert(steps[j] == step);
    }
}

proof fn lemma_remote_step_planned(local: LocalManifest, remote: RemoteManifest, scope: PullScope, path: Seq<char>)
    requires
        remote.entries.ordered(),
        remote.entries@.contains_key(path),
        remote_step(local, scope, path, remote.entries@[path]) is Some,
    ensures
        planned(local, remote, scope).contains(remote_step(local, scope, path, remote.entries@[path])->0),
{
    remote.entries.lemma_contents();
    let keys = remote.entries.keys();
    let step = remote_step(local, scope, path, remote.entries@[path])->0;
    lemma_remote_step_listed(keys, local, remote, scope, path);
    let listed = remote_steps(keys, local, remote, scope);
    let i = listed.index_of(step);
    assert(listed[i] == step);
    assert(planned(local, remote, scope)[conflict_steps(remote.conflicts@, scope).len() + i] == step);
}

proof fn lemma_local_step_planned(local: LocalManifest, remote: RemoteManifest, scope: PullScope, path: Seq<char>)
    requires
        local.entries.ordered(),
        local.entries@.contains_key(path),
        local_step(local, remote, scope, path, local.entries@[path]) is Some,
    ensures
        planned(local, remote, scope).contains(local_step(local, remote, scope, path, local.entries@[path])->0),
{
    local.entries.lemma_contents();
    let keys = local.entries.keys();
    let step = local_step(local, remote, scope, path, local.entries@[path])->0;
    lemma_local_step_listed(keys, local, remote, scope, path);
    let first = conflict_steps(remote.conflicts@, scope) + remote_steps(remote.entries.keys(), local, remote, scope);
    let listed = local_steps(keys, local, remote, scope);
    let i = listed.index_of(step);
    assert(listed[i] == step);
    assert(planned(local, remote, scope)[first.len() + i] == step);
}

proof fn lemma_conflict_reported(conflicts: Seq<(String, String)>, scope: PullScope, step: PullStep) -> (i: int)
    requires
        conflict_steps(conflicts, scope).contains(step),
    ensures
        0 <= i < conflicts.len(),
        step == (PullStep::Conflict { path: conflicts[i].0@, reason: conflicts[i].1@ }),
    decreases conflicts.len(),
{
    let steps = conflict_steps(conflicts, scope);
    let rest = conflict_steps(conflicts.drop_last(), scope);
    let at = steps.index_of(step);
    assert(steps[at] == step);
    if at < rest.len() {
        assert(rest[at] == step);
        lemma_conflict_reported(conflicts.drop_last(), scope, step)
    } else {
        conflicts.len() - 1
    }
}

proof fn lemma_reported_listed(conflicts: Seq<(String, String)>, scope: PullScope, i: int)
    requires
        0 <= i < conflicts.len(),
        !path_excluded(scope.excludes, conflicts[i].0@),
    ensures
        conflict_steps(conflicts, scope).contains(
            PullStep::Conflict { path: conflicts[i].0@, reason: conflicts[i].1@ },
        ),
    decreases conflicts.len(),
{
    let steps = conflict_steps(conflicts, scope);
    let step = PullStep::Conflict { path: conflicts[i].0@, reason: conflicts[i].1@ };
    if i < conflicts.len() - 1 {
        lemma_reported_listed(conflicts.drop_last(), scope, i);
        let j = conflict_steps(conflicts.drop_last(), scope).index_of(step);
        assert(steps[j] == step);
    } else {
        assert(steps[steps.len() - 1] == step);
    }
}

proof fn lemma_step_origin(local: LocalManifest, remote: RemoteManifest, scope: PullScope, step: PullStep)
    requires
        planned(local, remote, scope).contains(step),
        local.entries.ordered(),
        remote.entries.ordered(),
    ensures
        ({
            ||| step is Conflict && exists|i: int|
                0 <= i < remote.conflicts@.len() && (#[trigger] remote.conflicts@[i]).0@ == step.path()
            ||| remote.entries@.contains_key(step.path()) && remote_step(
                local,
                scope,
                step.path(),
                remote.entries@[step.path()],
            ) == Some(step)
            ||| local.entries@.contains_key(step.path()) && local_step(
                local,
                remote,
                scope,
                step.path(),
                local.entries@[step.path()],
            ) == Some(step)
        }),
{
    local.entries.lemma_contents();
    remote.entries.lemma_contents();
    let a = conflict_steps(remote.conflicts@, scope);
    let b = remote_steps(remote.entries.keys(), local, remote, scope);
    let c = local_steps(local.entries.keys(), local, remote, scope);
    let at = planned(local, remote, scope).index_of(step);
    assert(planned(local, remote, scope)[at] == step);
    if at < a.len() {
        assert(a[at] == step);
        let i = lemma_conflict_reported(remote.conflicts@, scope, step);
        assert(remote.conflicts@[i].0@ == step.path());
    } else if at < a.len() + b.len() {
        assert(b[at - a.len()] == step);
        let path = lemma_remote_origin(remote.entries.keys(), local, remote, scope, step);
    } else {
        assert(c[at - a.len() - b.len()] == step);
        let path = lemma_local_origin(local.entries.keys(), local, remote, scope, step);
    }
}

/// Every step names the very entry that it is about: what is downloaded is a
/// file of the bucket with its identifier and size, what is made is one of its
/// folders, and what is deleted is a local entry of that kind.
pub proof fn law_pull_steps_name_their_entries(
    local: LocalManifest,
    remote: RemoteManifest,
    scope: PullScope,
    step: PullStep,
)
    requires
        planned(local, remote, scope).contains(step),
        local.entries.ordered(),
        remote.entries.ordered(),
    ensures
        match step {
            PullStep::Conflict { .. } => true,
            PullStep::CreateDirectory { path } => remote.entries@.contains_key(path) && remote.entries@[path].kind
                is Directory,
            PullStep::DownloadFile { path, remote_id, size } => {
                &&& remote.entries@.contains_key(path)
                &&& remote.entries@[path].kind is File
                &&& remote_id == remote.entries@[path].id
                &&& size == remote.entries@[path].size
            },
            PullStep::ReplaceFile { path, remote_id, size } => {
                &&& remote.entries@.contains_key(path)
                &&& remote.entries@[path].kind is File
                &&& remote_id == remote.entries@[path].id
                &&& size == remote.entries@[path].size
                &&& local.entries@.contains_key(path)
                &&& local.entries@[path].kind is File
                &&& remote.entries@[path].hash is None || remote.entries@[path].hash != local.entries@[path].hash
            },
            PullStep::DeleteFile { path } => local.entries@.contains_key(path) && local.entries@[path].kind is File,
            PullStep::DeleteDirectory { path } => local.entries@.contains_key(path) && local.entries@[path].kind
                is Directory,
        },
{
    lemma_step_origin(local, remote, scope, step);
}

/// What the local directory lacks of the bucket is brought: a file is
/// downloaded and a directory made, unless it is excluded or its path may not
/// be used, which is a conflict.
pub proof fn law_missing_entries_are_downloaded(
    local: LocalManifest,
    remote: RemoteManifest,
    scope: PullScope,
    path: Seq<char>,
)
    requires
        remote.entries.ordered(),
        remote.entries@.contains_key(path),
        !local.entries@.contains_key(path),
        !path_excluded(scope.excludes, path),
    ensures
        match relative_path_error(path) {
            None => planned(local, remote, scope).contains(
                match remote.entries@[path].kind {
                    EntryKind::File => PullStep::DownloadFile {
                        path,
                        remote_id: remote.entries@[path].id,
                        size: remote.entries@[path].size,
                    },
                    EntryKind::Directory => PullStep::CreateDirectory { path },
                },
            ),
            Some(reason) => planned(local, remote, scope).contains(PullStep::Conflict { path, reason }),
        },
{
    lemma_remote_step_planned(local, remote, scope, path);
}

/// A local file whose content is not known to be that of the bucket is replaced
/// where overwriting is allowed, and is a conflict otherwise; entries of
/// different kinds are always a conflict.
pub proof fn law_changed_copies_are_replaced_or_reported(
    local: LocalManifest,
    remote: RemoteManifest,
    scope: PullScope,
    path: Seq<char>,
)
    requires
        remote.entries.ordered(),
        remote.entries@.contains_key(path),
        local.entries@.contains_key(path),
        !path_excluded(scope.excludes, path),
        relative_path_error(path) is None,
        local.entries@[path].kind != remote.entries@[path].kind || (remote.entries@[path].kind is File && (
        remote.entries@[path].hash is None || remote.entries@[path].hash != local.entries@[path].hash)),
    ensures
        if scope.overwrite && local.entries@[path].kind == remote.entries@[path].kind {
            planned(local, remote, scope).contains(
                PullStep::ReplaceFile {
                    path,
                    remote_id: remote.entries@[path].id,
                    size: remote.entries@[path].size,
                },
            )
        } else {
            exists|reason: Seq<char>| #[trigger]
                planned(local, remote, scope).contains(PullStep::Conflict { path, reason })
        },
{
    lemma_remote_step_planned(local, remote, scope, path);
}

/// A local entry that is as the bucket has it is left alone: it has no step but
/// a conflict that the scan of the bucket reported.
pub proof fn law_equal_copies_are_left_alone(
    local: LocalManifest,
    remote: RemoteManifest,
    scope: PullScope,
    path: Seq<char>,
    step: PullStep,
)
    requires
        local.entries.ordered(),
        remote.entries.ordered(),
        remote.entries@.contains_key(path),
        local.entries@.contains_key(path),
        relative_path_error(path) is None,
        local.entries@[path].kind == remote.entries@[path].kind,
        remote.entries@[path].kind is File ==> remote.entries@[path].hash is Some && remote.entries@[path].hash
            == local.entries@[path].hash,
        planned(local, remote, scope).contains(step),
        step.path() == path,
    ensures
        step is Conflict,
        exists|i: int| 0 <= i < remote.conflicts@.len() && (#[trigger] remote.conflicts@[i]).0@ == path,
{
    lemma_step_origin(local, remote, scope, step);
}

/// What is only local is deleted where deleting is asked for, unless it is
/// excluded or has to stay for a protected path that is it, holds it or lies
/// below it.  Otherwise no step deletes it.
pub proof fn law_local_only_entries_are_mirrored(
    local: LocalManifest,
    remote: RemoteManifest,
    scope: PullScope,
    path: Seq<char>,
)
    requires
        local.entries.ordered(),
        remote.entries.ordered(),
        local.entries@.contains_key(path),
        !remote.entries@.contains_key(path),
    ensures
        ({
            let held = exists|i: int|
                0 <= i < local.protected_paths.keys().len() && ({
                    let kept = #[trigger] local.protected_paths.keys()[i];
                    path == kept || (kept.len() < path.len() && path.take(kept.len() as int) == kept
                        && path[kept.len() as int] == '/') || (path.len() < kept.len() && kept.take(path.len() as int)
                        == path && kept[path.len() as int] == '/')
                });
            if scope.delete && !held && !path_excluded(scope.excludes, path) {
                planned(local, remote, scope).contains(
                    match local.entries@[path].kind {
                        EntryKind::File => PullStep::DeleteFile { path },
                        EntryKind::Directory => PullStep::DeleteDirectory { path },
                    },
                )
            } else {
                forall|step: PullStep| #[trigger]
                    planned(local, remote, scope).contains(step) && step.path() == path ==> step is Conflict
            }
        }),
{
    if local_step(local, remote, scope, path, local.entries@[path]) is Some {
        lemma_local_step_planned(local, remote, scope, path);
    }
    let keys = local.protected_paths.keys();
    let held = exists|i: int|
        0 <= i < keys.len() && ({
            let kept = #[trigger] keys[i];
            path == kept || (kept.len() < path.len() && path.take(kept.len() as int) == kept && path[kept.len() as int]
                == '/') || (path.len() < kept.len() && kept.take(path.len() as int) == path && kept[path.len() as int]
                == '/')
        });
    if held {
        let i = choose|i: int|
            0 <= i < keys.len() && ({
                let kept = #[trigger] keys[i];
                path == kept || (kept.len() < path.len() && path.take(kept.len() as int) == kept
                    && path[kept.len() as int] == '/') || (path.len() < kept.len() && kept.take(path.len() as int) == path
                    && kept[path.len() as int] == '/')
            });
        assert(keys[i] == path || below(keys[i], path) || below(path, keys[i]));
    }
    assert(held == held_by_protection(keys, path));
    if !(scope.delete && !held && !path_excluded(scope.excludes, path)) {
        assert forall|step: PullStep| #[trigger]
            planned(local, remote, scope).contains(step) && step.path() == path implies step is Conflict by {
            lemma_step_origin(local, remote, scope, step);
        }
    }
}

/// Every conflict that the scan of the bucket reported is in the plan, unless
/// its path is excluded.
pub proof fn law_reported_conflicts_stop_a_download(
    local: LocalManifest,
    remote: RemoteManifest,
    scope: PullScope,
    i: int,
)
    requires
        0 <= i < remote.conflicts@.len(),
        !path_excluded(scope.excludes, remote.conflicts@[i].0@),
    ensures
        planned(local, remote, scope).contains(
            PullStep::Conflict { path: remote.conflicts@[i].0@, reason: remote.conflicts@[i].1@ },
        ),
{
    let step = PullStep::Conflict { path: remote.conflicts@[i].0@, reason: remote.conflicts@[i].1@ };
    lemma_reported_listed(remote.conflicts@, scope, i);
    let listed = conflict_steps(remote.conflicts@, scope);
    let j = listed.index_of(step);
    assert(listed[j] == step);
    assert(planned(local, remote, scope)[j] == step);
}

/// A download plan begins with its conflicts; then come the directories that
/// are made, the downloads, the replacements, the files that are deleted, and
/// last the directories that are.
pub proof fn law_kinds_of_pull_steps_come_in_order(input: Seq<PullStep>, output: Seq<PullStep>, i: int, j: int)
    requires
        arrangement_of::<PullAction>(input, output),
        0 <= i < j < output.len(),
    ensures
        match output[j] {
            PullStep::Conflict { .. } => output[i] is Conflict,
            PullStep::CreateDirectory { .. } => output[i] is Conflict || output[i] is CreateDirectory,
            PullStep::DownloadFile { .. } => output[i] is Conflict || output[i] is CreateDirectory || output[i]
                is DownloadFile,
            PullStep::ReplaceFile { .. } => !(output[i] is DeleteFile) && !(output[i] is DeleteDirectory),
            PullStep::DeleteFile { .. } => !(output[i] is DeleteDirectory),
            PullStep::DeleteDirectory { .. } => true,
        },
        output[i].rank() == output[j].rank() && depth_of(output[i].path()) == depth_of(output[j].path())
            ==> !crate::text::bytes_less(utf8(output[j].path()), utf8(output[i].path())),
{
    assert(!key_less(PullAction::sort_key(output[j]), PullAction::sort_key(output[i])));
}

proof fn lemma_total_same(steps: Seq<PullStep>, f: spec_fn(PullStep) -> nat, g: spec_fn(PullStep) -> nat)
    requires
        forall|step: PullStep| #[trigger] f(step) == g(step),
    ensures
        total(steps, f) == total(steps, g),
    decreases steps.len(),
{
    if steps.len() > 0 {
        lemma_total_same(steps.drop_last(), f, g);
        assert(f(steps.last()) == g(steps.last()));
    }
}

/// The counts of a download plan are the numbers of its steps of each kind, and
/// its bytes are the sizes of what it downloads and replaces, added up.
pub proof fn law_pull_plans_count_their_steps(plan: PullPlan)
    requires
        plan.tallied(),
    ensures
        ({
            let steps = views(plan.actions@);
            &&& plan.conflicts == total(steps, |step: PullStep| if step is Conflict { 1nat } else { 0nat })
            &&& plan.create_directories == total(
                steps,
                |step: PullStep| if step is CreateDirectory { 1nat } else { 0nat },
            )
            &&& plan.download_files == total(steps, |step: PullStep| if step is DownloadFile { 1nat } else { 0nat })
            &&& plan.replace_files == total(steps, |step: PullStep| if step is ReplaceFile { 1nat } else { 0nat })
            &&& plan.delete_files == total(steps, |step: PullStep| if step is DeleteFile { 1nat } else { 0nat })
            &&& plan.delete_directories == total(
                steps,
                |step: PullStep| if step is DeleteDirectory { 1nat } else { 0nat },
            )
            &&& plan.download_bytes == total(
                steps,
                |step: PullStep|
                    match step {
                        PullStep::DownloadFile { size, .. } => size as nat,
                        PullStep::ReplaceFile { size, .. } => size as nat,
                        _ => 0nat,
                    },
            )
        }),
{
    let steps = views(plan.actions@);
    lemma_total_same(steps, of_rank(0), |step: PullStep| if step is Conflict { 1nat } else { 0nat });
    lemma_total_same(steps, of_rank(1), |step: PullStep| if step is CreateDirectory { 1nat } else { 0nat });
    lemma_total_same(steps, of_rank(2), |step: PullStep| if step is DownloadFile { 1nat } else { 0nat });
    lemma_total_same(steps, of_rank(3), |step: PullStep| if step is ReplaceFile { 1nat } else { 0nat });
    lemma_total_same(steps, of_rank(4), |step: PullStep| if step is DeleteFile { 1nat } else { 0nat });
    lemma_total_same(steps, of_rank(5), |step: PullStep| if step is DeleteDirectory { 1nat } else { 0nat });
    lemma_total_same(
        steps,
        step_bytes(),
        |step: PullStep|
            match step {
                PullStep::DownloadFile { size, .. } => size as nat,
                PullStep::ReplaceFile { size, .. } => size as nat,
                _ => 0nat,
            },
    );
}

proof fn lemma_split_ends(path: Seq<char>)
    ensures
        split(path, '/').len() > 0,
        path.len() == 0 ==> split(path, '/')[0].len() == 0,
        path.len() > 0 && path[0] == '/' ==> split(path, '/').len() > 1 && split(path, '/')[0].len() == 0,
        path.len() > 0 && path.last() == '/' ==> split(path, '/').last().len() == 0,
    decreases path.len(),
{
    if path.len() > 0 {
        lemma_split_ends(path.drop_last());
    }
}

proof fn lemma_all_safe(components: Seq<Seq<char>>, from: int)
    requires
        0 <= from,
        forall|i: int| 0 <= i < components.len() ==> !unsafe_component(#[trigger] components[i]),
    ensures
        first_unsafe(components, from) is None,
    decreases components.len() - from,
{
    if from < components.len() {
        lemma_all_safe(components, from + 1);
    }
}

/// Every path of plain names is accepted: where no part is empty, `.` or `..`,
/// and none holds a backslash or a null character.
pub proof fn law_plain_paths_are_accepted(path: Seq<char>)
    requires
        forall|i: int|
            0 <= i < split(path, '/').len() ==> (#[trigger] split(path, '/')[i]).len() > 0 && split(path, '/')[i]
                != "."@ && split(path, '/')[i] != ".."@ && !split(path, '/')[i].contains('\\') && !split(
                path,
                '/',
            )[i].contains('\0'),
    ensures
        relative_path_error(path) is None,
{
    lemma_split_ends(path);
    let parts = split(path, '/');
    assert(parts[0].len() > 0);
    assert(parts[parts.len() - 1].len() > 0);
    lemma_all_safe(parts, 0);
}

/// An entry of the bucket counts as unchanged exactly where it is neither
/// excluded nor refused and the local directory holds it: a directory for a
/// directory, or a file with the same known hash for a file.
pub proof fn law_unchanged_copies_have_the_same_content(
    local: LocalManifest,
    scope: PullScope,
    path: Seq<char>,
    entry: RemoteEntry,
)
    ensures
        remote_unchanged(local, scope, path, entry) <==> {
            &&& !path_excluded(scope.excludes, path)
            &&& relative_path_error(path) is None
            &&& local.entries@.contains_key(path)
            &&& match (entry.kind, local.entries@[path].kind) {
                (EntryKind::Directory, EntryKind::Directory) => true,
                (EntryKind::File, EntryKind::File) => entry.hash matches Some(hash) && local.entries@[path].hash == Some(
                    hash,
                ),
                _ => false,
            }
        },
{
}

/// A step is seen as the kind it is, with its own path, file, size and reason.
pub proof fn law_pull_steps_are_seen_as_they_are(action: &PullAction)
    ensures
        *action matches PullAction::Conflict { path, reason } ==> action@ == (PullStep::Conflict {
            path: path@,
            reason: reason@,
        }),
        *action matches PullAction::CreateDirectory { path } ==> action@ == (PullStep::CreateDirectory { path: path@ }),
        *action matches PullAction::DownloadFile { path, remote_id, size } ==> action@ == (PullStep::DownloadFile {
            path: path@,
            remote_id,
            size,
        }),
        *action matches PullAction::ReplaceFile { path, remote_id, size } ==> action@ == (PullStep::ReplaceFile {
            path: path@,
            remote_id,
            size,
        }),
        *action matches PullAction::DeleteFile { path } ==> action@ == (PullStep::DeleteFile { path: path@ }),
        *action matches PullAction::DeleteDirectory { path } ==> action@ == (PullStep::DeleteDirectory { path: path@ }),
{
}

/// Entries are counted one by one: the unchanged ones of the bucket, and the
/// local ones that are left alone.
pub proof fn law_pull_entries_are_counted_one_by_one(
    paths: Seq<Seq<char>>,
    path: Seq<char>,
    local: LocalManifest,
    remote: RemoteManifest,
    scope: PullScope,
)
    ensures
        count_unchanged(Seq::empty(), local, remote, scope) == 0,
        count_unchanged(paths.push(path), local, remote, scope) == count_unchanged(paths, local, remote, scope) + if remote_unchanged(
            local,
            scope,
            path,
            remote.entries@[path],
        ) {
            1nat
        } else {
            0nat
        },
        count_retained(Seq::empty(), local, remote, scope) == 0,
        count_retained(paths.push(path), local, remote, scope) == count_retained(paths, local, remote, scope) + if local_only(
            remote,
            scope,
            path,
        ) && local_retained(local, scope, path) {
            1nat
        } else {
            0nat
        },
{
    assert(paths.push(path).drop_last() =~= paths);
}

/// A download is planned where its numbers are large enough: the entries of both
/// sides and the conflicts can be counted, and the sizes of what is downloaded
/// added up.
pub proof fn law_bytes_of_a_download_are_those_of_its_files(
    paths: Seq<Seq<char>>,
    path: Seq<char>,
    local: LocalManifest,
    remote: RemoteManifest,
    scope: PullScope,
)
    ensures
        fits(local, remote, scope) <==> {
            &&& remote.conflicts@.len() + local.entries.keys().len() + remote.entries.keys().len() <= usize::MAX
            &&& remote_bytes(remote.entries.keys(), local, remote, scope) <= u64::MAX
        },
        remote_bytes(Seq::empty(), local, remote, scope) == 0,
        remote_bytes(paths.push(path), local, remote, scope) == remote_bytes(paths, local, remote, scope) + (
        match remote_step(local, scope, path, remote.entries@[path]) {
            Some(PullStep::DownloadFile { size, .. }) => size as nat,
            Some(PullStep::ReplaceFile { size, .. }) => size as nat,
            _ => 0nat,
        }),
{
    assert(paths.push(path).drop_last() =~= paths);
}

proof fn lemma_remote_steps_apart(paths: Seq<Seq<char>>, local: LocalManifest, remote: RemoteManifest, scope: PullScope)
    requires
        paths.no_duplicates(),
    ensures
        forall|a: int| 0 <= a < remote_steps(paths, local, remote, scope).len() ==> paths.contains((#[trigger] remote_steps(paths, local, remote, scope)[a]).path()),
        forall|a: int, b: int|
            0 <= a < b < remote_steps(paths, local, remote, scope).len() ==> (#[trigger] remote_steps(paths, local, remote, scope)[a]).path() != (
            #[trigger] remote_steps(paths, local, remote, scope)[b]).path(),
    decreases paths.len(),
{
    if paths.len() > 0 {
        let rest = paths.drop_last();
        lemma_remote_steps_apart(rest, local, remote, scope);
        let before = remote_steps(rest, local, remote, scope);
        let all = remote_steps(paths, local, remote, scope);
        assert forall|p: Seq<char>| #[trigger] rest.contains(p) implies paths.contains(p) && p != paths.last() by {
            let i = rest.index_of(p);
            assert(paths[i] == p);
            assert(paths[paths.len() - 1] == paths.last());
        }
        assert(paths[paths.len() - 1] == paths.last());
        assert forall|a: int| 0 <= a < all.len() implies paths.contains((#[trigger] all[a]).path()) by {
            if a < before.len() {
                assert(all[a] == before[a]);
                assert(rest.contains(before[a].path()));
            }
        }
        assert forall|a: int, b: int| 0 <= a < b < all.len() implies (#[trigger] all[a]).path() != (
        #[trigger] all[b]).path() by {
            assert(all[a] == before[a]);
            assert(rest.contains(before[a].path()));
            if b < before.len() {
                assert(all[b] == before[b]);
            }
        }
    }
}

proof fn lemma_local_steps_apart(paths: Seq<Seq<char>>, local: LocalManifest, remote: RemoteManifest, scope: PullScope)
    requires
        paths.no_duplicates(),
    ensures
        forall|a: int| 0 <= a < local_steps(paths, local, remote, scope).len() ==> paths.contains((#[trigger] local_steps(paths, local, remote, scope)[a]).path()) && !remote.entries@.contains_key(
            local_steps(paths, local, remote, scope)[a].path(),
        ),
        forall|a: int, b: int|
            0 <= a < b < local_steps(paths, local, remote, scope).len() ==> (#[trigger] local_steps(paths, local, remote, scope)[a]).path() != (
            #[trigger] local_steps(paths, local, remote, scope)[b]).path(),
    decreases paths.len(),
{
    if paths.len() > 0 {
        let rest = paths.drop_last();
        lemma_local_steps_apart(rest, local, remote, scope);
        let before = local_steps(rest, local, remote, scope);
        let all = local_steps(paths, local, remote, scope);
        assert forall|p: Seq<char>| #[trigger] rest.contains(p) implies paths.contains(p) && p != paths.last() by {
            let i = rest.index_of(p);
            assert(paths[i] == p);
            assert(paths[paths.len() - 1] == paths.last());
        }
        assert(paths[paths.len() - 1] == paths.last());
        assert forall|a: int| 0 <= a < all.len() implies paths.contains((#[trigger] all[a]).path()) && !remote.entries@.contains_key(
            all[a].path(),
        ) by {
            if a < before.len() {
                assert(all[a] == before[a]);
                assert(rest.contains(before[a].path()));
            }
        }
        assert forall|a: int, b: int| 0 <= a < b < all.len() implies (#[trigger] all[a]).path() != (
        #[trigger] all[b]).path() by {
            assert(all[a] == before[a]);
            assert(rest.contains(before[a].path()));
            if b < before.len() {
                assert(all[b] == before[b]);
            }
        }
    }
}

/// Beside the conflicts that the scan of the bucket reported, a download has at
/// most one step for each path.
pub proof fn law_each_path_has_one_pull_step(
    local: LocalManifest,
    remote: RemoteManifest,
    scope: PullScope,
    i: int,
    j: int,
)
    requires
        local.entries.ordered(),
        remote.entries.ordered(),
        conflict_steps(remote.conflicts@, scope).len() <= i < j < planned(local, remote, scope).len(),
    ensures
        planned(local, remote, scope)[i].path() != planned(local, remote, scope)[j].path(),
{
    local.entries.lemma_contents();
    remote.entries.lemma_contents();
    let a = conflict_steps(remote.conflicts@, scope);
    let b = remote_steps(remote.entries.keys(), local, remote, scope);
    let c = local_steps(local.entries.keys(), local, remote, scope);
    let all = planned(local, remote, scope);
    lemma_remote_steps_apart(remote.entries.keys(), local, remote, scope);
    lemma_local_steps_apart(local.entries.keys(), local, remote, scope);
    if i < a.len() + b.len() {
        assert(all[i] == b[i - a.len()]);
        if j < a.len() + b.len() {
            assert(all[j] == b[j - a.len()]);
        } else {
            assert(all[j] == c[j - a.len() - b.len()]);
            assert(remote.entries@.contains_key(b[i - a.len()].path()));
        }
    } else {
        assert(all[i] == c[i - a.len() - b.len()]);
        assert(all[j] == c[j - a.len() - b.len()]);
    }
}

/// A conflict of a download tells what is in the way.
pub proof fn law_pull_conflicts_tell_their_reason(
    local: LocalManifest,
    remote: RemoteManifest,
    scope: PullScope,
    path: Seq<char>,
)
    requires
        remote.entries.ordered(),
        remote.entries@.contains_key(path),
        local.entries@.contains_key(path),
        !path_excluded(scope.excludes, path),
        relative_path_error(path) is None,
    ensures
        ({
            let steps = planned(local, remote, scope);
            let entry = remote.entries@[path];
            let known = local.entries@[path];
            &&& entry.kind is File && known.kind is Directory ==> steps.contains(
                PullStep::Conflict {
                    path,
                    reason: "remote "@ + "File"@ + " conflicts with local "@ + "Directory"@
                        + "; move or remove the local entry first"@,
                },
            )
            &&& entry.kind is Directory && known.kind is File ==> steps.contains(
                PullStep::Conflict {
                    path,
                    reason: "remote "@ + "Directory"@ + " conflicts with local "@ + "File"@
                        + "; move or remove the local entry first"@,
                },
            )
            &&& entry.kind is File && known.kind is File && (entry.hash is None || entry.hash != known.hash)
                && !scope.overwrite ==> steps.contains(
                PullStep::Conflict {
                    path,
                    reason: "local file differs from remote file "@ + decimal(entry.id as nat)
                        + "; rerun with --overwrite after reviewing the plan"@,
                },
            )
        }),
{
    if remote_step(local, scope, path, remote.entries@[path]) is Some {
        lemma_remote_step_planned(local, remote, scope, path);
    }
}

/// A path of the bucket that may not be used is told as such: as no relative
/// path, or with its first part that is no plain name.
pub proof fn law_unusable_paths_are_told(path: Seq<char>, i: int)
    ensures
        path.len() == 0 || path[0] == '/' || path.last() == '/' ==> relative_path_error(path) == Some(
            "remote entry has an invalid relative path"@,
        ),
        path.len() > 0 && path[0] != '/' && path.last() != '/' && 0 <= i < split(path, '/').len() && unsafe_component(
            split(path, '/')[i],
        ) && (forall|j: int| 0 <= j < i ==> !unsafe_component(#[trigger] split(path, '/')[j])) ==> relative_path_error(
            path,
        ) == Some("remote entry contains an unsafe path component "@ + debug_text(split(path, '/')[i])),
{
    if 0 <= i < split(path, '/').len() && unsafe_component(split(path, '/')[i]) && (forall|j: int|
        0 <= j < i ==> !unsafe_component(#[trigger] split(path, '/')[j])) {
        lemma_first_unsafe_is(split(path, '/'), 0, i);
    }
}

proof fn lemma_first_unsafe_is(components: Seq<Seq<char>>, from: int, at: int)
    requires
        0 <= from <= at < components.len(),
        unsafe_component(components[at]),
        forall|j: int| from <= j < at ==> !unsafe_component(#[trigger] components[j]),
    ensures
        first_unsafe(components, from) == Some(components[at]),
    decreases at - from,
{
    if from < at {
        lemma_first_unsafe_is(components, from + 1, at);
    }
}

/// What is excluded is left alone: it is neither made nor downloaded, replaced
/// or deleted.
pub proof fn law_excluded_paths_have_no_step(
    local: LocalManifest,
    remote: RemoteManifest,
    scope: PullScope,
    step: PullStep,
)
    requires
        planned(local, remote, scope).contains(step),
        local.entries.ordered(),
        remote.entries.ordered(),
        !(step is Conflict),
    ensures
        !path_excluded(scope.excludes, step.path()),
{
    lemma_step_origin(local, remote, scope, step);
}

} // verus!

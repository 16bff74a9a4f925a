//! The course of an upload synchronisation: which step comes next, and what is
//! noted once it is done.
use vstd::prelude::*;

use crate::batch::MAX_BATCH_FILE_BYTES;
use crate::entry::{fault_debug, DeleteEntryIfInput, EntryKind as ApiEntryKind, SyncError};
use crate::file::{CreateFileInput, FileInfo};
use crate::folder::{CreateFolderInput, FolderInfo};
use crate::ordered::PathMap;
use crate::outside::{digest_of, sha3_256};
use crate::sync::arrange::views;
use crate::sync::batches::steps_of;
use crate::sync::execute::{entry_name, find_parent, name_of, parent_folder, PreparedSync};
use crate::sync::journal::{entry_of, ActionState, JournalEntry, RecoveryJournal};
use crate::sync::planner::{Plan, PlanAction, PlanStep};
use crate::sync::types::{parent_of, LocalEntry, LocalManifest};
use crate::text::{cat2, cat4, cat5, decimal, decimal_size, decimal_text, owned};

verus! {

/// What has to be done for a step.
#[derive(Debug)]
pub enum SyncStep {
    CreateDirectory { parent: u32, name: String },
    UploadFile { parent: u32, hash: Option<[u8; 32]>, atomic: bool },
    ReplaceFile { parent: u32, hash: Option<[u8; 32]>, remote_id: u32 },
    DeleteFile { remote_id: u32 },
    DeleteDirectory { remote_id: u32 },
}

/// The mathematical form of what has to be done.
pub enum StepOrder {
    CreateDirectory { parent: u32, name: Seq<char> },
    UploadFile { parent: u32, hash: Option<[u8; 32]>, atomic: bool },
    ReplaceFile { parent: u32, hash: Option<[u8; 32]>, remote_id: u32 },
    DeleteFile { remote_id: u32 },
    DeleteDirectory { remote_id: u32 },
}

impl View for SyncStep {
    type V = StepOrder;

    open spec fn view(&self) -> StepOrder {
        match *self {
            SyncStep::CreateDirectory { parent, name } => StepOrder::CreateDirectory { parent, name: name@ },
            SyncStep::UploadFile { parent, hash, atomic } => StepOrder::UploadFile { parent, hash, atomic },
            SyncStep::ReplaceFile { parent, hash, remote_id } => StepOrder::ReplaceFile { parent, hash, remote_id },
            SyncStep::DeleteFile { remote_id } => StepOrder::DeleteFile { remote_id },
            SyncStep::DeleteDirectory { remote_id } => StepOrder::DeleteDirectory { remote_id },
        }
    }
}

/// The folder of a file and its local hash, or why one is not known.
pub open spec fn file_source(
    path: Seq<char>,
    folders: Map<Seq<char>, u32>,
    local: Map<Seq<char>, LocalEntry>,
) -> Result<(u32, Option<[u8; 32]>), Seq<char>> {
    match parent_folder(folders, path, "file"@) {
        Err(message) => Err(message),
        Ok(parent) => if local.contains_key(path) {
            Ok((parent, local[path].hash))
        } else {
            Err("missing local metadata for "@ + path)
        },
    }
}

/// What has to be done for a step, or why it cannot be.
pub open spec fn order_of(
    step: PlanStep,
    folders: Map<Seq<char>, u32>,
    local: Map<Seq<char>, LocalEntry>,
    atomic: bool,
) -> Result<StepOrder, Seq<char>> {
    match step {
        PlanStep::CreateDirectory { path } => match parent_folder(folders, path, "directory"@) {
            Err(message) => Err(message),
            Ok(parent) => match name_of(path) {
                Err(message) => Err(message),
                Ok(name) => Ok(StepOrder::CreateDirectory { parent, name }),
            },
        },
        PlanStep::UploadFile { path, .. } => match file_source(path, folders, local) {
            Err(message) => Err(message),
            Ok((parent, hash)) => Ok(StepOrder::UploadFile { parent, hash, atomic }),
        },
        PlanStep::ReplaceFile { path, remote_id, .. } => match file_source(path, folders, local) {
            Err(message) => Err(message),
            Ok((parent, hash)) => Ok(StepOrder::ReplaceFile { parent, hash, remote_id }),
        },
        PlanStep::DeleteFile { remote_id, .. } => Ok(StepOrder::DeleteFile { remote_id }),
        PlanStep::DeleteDirectory { remote_id, .. } => Ok(StepOrder::DeleteDirectory { remote_id }),
        PlanStep::Conflict { .. } => Err("unsupported action in recovery journal"@),
    }
}

fn find_source(path: &str, folders: &PathMap<u32>, local: &LocalManifest) -> (r: Result<(u32, Option<[u8; 32]>), String>)
    ensures
        match r {
            Ok(source) => file_source(path@, folders@, local.entries@) == Ok::<(u32, Option<[u8; 32]>), Seq<char>>(source),
            Err(message) => file_source(path@, folders@, local.entries@) == Err::<(u32, Option<[u8; 32]>), Seq<char>>(
                message@,
            ),
        },
{
    match find_parent(folders, path, "file") {
        Err(message) => Err(message),
        Ok(parent) => match local.entries.get(path) {
            Some(entry) => Ok((parent, entry.hash)),
            None => Err(cat2("missing local metadata for ", path)),
        },
    }
}

fn find_order(action: &PlanAction, folders: &PathMap<u32>, local: &LocalManifest, atomic: bool) -> (r: Result<
    SyncStep,
    String,
>)
    ensures
        match r {
            Ok(step) => order_of(action@, folders@, local.entries@, atomic) == Ok::<StepOrder, Seq<char>>(step@),
            Err(message) => order_of(action@, folders@, local.entries@, atomic) == Err::<StepOrder, Seq<char>>(message@),
        },
{
    match action {
        PlanAction::CreateDirectory { path } => match find_parent(folders, path.as_str(), "directory") {
            Err(message) => Err(message),
            Ok(parent) => match entry_name(path.as_str()) {
                Err(message) => Err(message),
                Ok(name) => Ok(SyncStep::CreateDirectory { parent, name: owned(name) }),
            },
        },
        PlanAction::UploadFile { path, .. } => match find_source(path.as_str(), folders, local) {
            Err(message) => Err(message),
            Ok((parent, hash)) => Ok(SyncStep::UploadFile { parent, hash, atomic }),
        },
        PlanAction::ReplaceFile { path, remote_id, .. } => match find_source(path.as_str(), folders, local) {
            Err(message) => Err(message),
            Ok((parent, hash)) => Ok(SyncStep::ReplaceFile { parent, hash, remote_id: *remote_id }),
        },
        PlanAction::DeleteFile { remote_id, .. } => Ok(SyncStep::DeleteFile { remote_id: *remote_id }),
        PlanAction::DeleteDirectory { remote_id, .. } => Ok(SyncStep::DeleteDirectory { remote_id: *remote_id }),
        PlanAction::Conflict { .. } => Err(owned("unsupported action in recovery journal")),
    }
}

/// Whether a step is done in a batch where the bucket takes batches.
pub open spec fn is_batched(step: PlanStep) -> bool {
    step is CreateDirectory || (step is UploadFile && step.bytes() <= MAX_BATCH_FILE_BYTES)
}

fn goes_into_batch(action: &PlanAction) -> (r: bool)
    ensures
        r == is_batched(action@),
{
    match action {
        PlanAction::CreateDirectory { .. } => true,
        PlanAction::UploadFile { size, .. } => *size <= MAX_BATCH_FILE_BYTES as u64,
        _ => false,
    }
}

/// The first step from `from` on that is done on its own.
pub open spec fn next_single(steps: Seq<PlanStep>, from: int, batches: bool) -> Option<int>
    decreases steps.len() - from,
{
    if from < 0 || from >= steps.len() {
        None
    } else if batches && is_batched(steps[from]) {
        next_single(steps, from + 1, batches)
    } else {
        Some(from)
    }
}

/// The entries with one of them begun.
pub open spec fn entry_started(entries: Seq<JournalEntry>, at: int) -> Seq<JournalEntry> {
    entries.update(at, JournalEntry { state: ActionState::InProgress, ..entries[at] })
}

/// The entries with one of them done.
pub open spec fn entry_completed(entries: Seq<JournalEntry>, at: int, id: u32) -> Seq<JournalEntry> {
    entries.update(at, JournalEntry { state: ActionState::Completed, remote_id: Some(id), ..entries[at] })
}

/// A synchronisation that is under way.
#[derive(Debug)]
pub struct SyncRun {
    pub journal: RecoveryJournal,
    pub folders: PathMap<u32>,
    pub position: usize,
}

/// The folders after a step was done.
pub open spec fn folders_after(folders: Map<Seq<char>, u32>, step: PlanStep, id: u32) -> Map<Seq<char>, u32> {
    match step {
        PlanStep::CreateDirectory { path } => folders.insert(path, id),
        PlanStep::DeleteDirectory { path, .. } => folders.remove(path),
        _ => folders,
    }
}

/// The entry of the bucket that a step is about, once it is done: the one that
/// it made, or the one that it deleted.
pub open spec fn subject_of(step: PlanStep, id: u32) -> u32 {
    match step {
        PlanStep::DeleteFile { remote_id, .. } => remote_id,
        PlanStep::DeleteDirectory { remote_id, .. } => remote_id,
        _ => id,
    }
}

impl SyncRun {
    /// Finds the next step that is done on its own, and notes that it begins.
    /// Gives its place in the plan and what has to be done for it; nothing
    /// where the plan is at its end.
    pub fn next_step(&mut self, prepared: &PreparedSync) -> (r: Result<Option<(usize, SyncStep)>, String>)
        ensures
            final(self).folders == old(self).folders,
            final(self).journal.same_header(&old(self).journal),
            ({
                let steps = views(prepared.plan.actions@);
                match next_single(steps, old(self).position as int, prepared.support.batch_operations) {
                    None => {
                        &&& r matches Ok(None)
                        &&& final(self).journal.entries() == old(self).journal.entries()
                        &&& final(self).position == old(self).position
                    },
                    Some(i) => match entry_of(old(self).journal.entries(), steps[i]) {
                        Err(reason) => {
                            &&& r matches Err(message)
                            &&& message@ == reason
                            &&& final(self).journal.entries() == old(self).journal.entries()
                            &&& final(self).position == old(self).position
                        },
                        Ok(at) => {
                            &&& final(self).journal.entries() == entry_started(old(self).journal.entries(), at)
                            &&& final(self).position == i + 1
                            &&& match order_of(
                                steps[i],
                                old(self).folders@,
                                prepared.local.entries@,
                                prepared.support.atomic_upload,
                            ) {
                                Ok(order) => r matches Ok(Some((index, step))) && index == i && step@ == order,
                                Err(reason) => r matches Err(message) && message@ == reason,
                            }
                        },
                    },
                }
            }),
    {
        let ghost steps = views(prepared.plan.actions@);
        let batches = prepared.support.batch_operations;
        let mut i: usize = self.position;
        let n: usize = prepared.plan.actions.len();
        while i < n && batches && goes_into_batch(&prepared.plan.actions[i])
            invariant
                steps == views(prepared.plan.actions@),
                n == steps.len(),
                next_single(steps, self.position as int, batches) == next_single(steps, i as int, batches),
            decreases n - i,
        {
            assert(steps[i as int] == prepared.plan.actions@[i as int]@);
            i += 1;
        }
        if i >= n {
            return Ok(None);
        }
        assert(steps[i as int] == prepared.plan.actions@[i as int]@);
        let action = &prepared.plan.actions[i];
        if let Err(message) = self.journal.mark_started(action) {
            return Err(message);
        }
        self.position = i + 1;
        match find_order(action, &self.folders, &prepared.local, prepared.support.atomic_upload) {
            Ok(step) => Ok(Some((i, step))),
            Err(message) => Err(message),
        }
    }

    /// Notes that a step is done: `id` is the entry of the bucket that it made.
    pub fn finish_step(&mut self, action: &PlanAction, id: u32) -> (r: Result<(), String>)
        ensures
            final(self).position == old(self).position,
            final(self).journal.same_header(&old(self).journal),
            final(self).folders@ == folders_after(old(self).folders@, action@, id),
            match entry_of(old(self).journal.entries(), action@) {
                Ok(at) => r is Ok && final(self).journal.entries() == entry_completed(
                    old(self).journal.entries(),
                    at,
                    subject_of(action@, id),
                ),
                Err(reason) => r matches Err(message) && message@ == reason && final(self).journal.entries()
                    == old(self).journal.entries(),
            },
    {
        let subject: u32 = match action {
            PlanAction::CreateDirectory { path } => {
                self.folders.insert(path.clone(), id);
                id
            },
            PlanAction::DeleteDirectory { path, remote_id } => {
                self.folders.remove(path.as_str());
                *remote_id
            },
            PlanAction::DeleteFile { remote_id, .. } => *remote_id,
            _ => id,
        };
        self.journal.mark_completed(action, Some(subject))
    }
}

/// A step that is done on its own is begun only once: the next search goes on
/// behind it.
pub proof fn law_single_steps_come_in_order(steps: Seq<PlanStep>, from: int, batches: bool)
    requires
        0 <= from,
    ensures
        next_single(steps, from, batches) matches Some(i) ==> from <= i < steps.len() && !(batches && is_batched(
            steps[i],
        )) && forall|j: int| from <= j < i ==> batches && is_batched(#[trigger] steps[j]),
        next_single(steps, from, batches) is None ==> forall|j: int|
            from <= j < steps.len() ==> batches && is_batched(#[trigger] steps[j]),
    decreases steps.len() - from,
{
    if from < steps.len() && batches && is_batched(steps[from]) {
        law_single_steps_come_in_order(steps, from + 1, batches);
    }
}

/// What goes into batches is exactly what is left out of the single steps:
/// directories and small uploads.
pub proof fn law_batches_and_single_steps_share_nothing(step: PlanStep)
    ensures
        is_batched(step) <==> step is CreateDirectory || crate::sync::batches::is_small_upload(step),
{
}

/// The folder request of a step, or why there is none.
pub open spec fn folder_request(step: PlanStep, folders: Map<Seq<char>, u32>) -> Result<(u32, Seq<char>), Seq<char>> {
    match parent_folder(folders, step.path(), "directory"@) {
        Err(message) => Err(message),
        Ok(parent) => match name_of(step.path()) {
            Err(message) => Err(message),
            Ok(name) => Ok((parent, name)),
        },
    }
}

/// The message for the first step without a folder request, counted from
/// `from`.
pub open spec fn folder_requests_error(steps: Seq<PlanStep>, folders: Map<Seq<char>, u32>, from: int) -> Option<Seq<char>>
    decreases steps.len() - from,
{
    if from < 0 || from >= steps.len() {
        None
    } else {
        match folder_request(steps[from], folders) {
            Err(message) => Some(message),
            Ok(_) => folder_requests_error(steps, folders, from + 1),
        }
    }
}

/// The folder requests of a batch of directories.
pub fn folder_requests(batch: &Vec<&PlanAction>, folders: &PathMap<u32>) -> (r: Result<Vec<CreateFolderInput>, String>)
    requires
        forall|i: int| 0 <= i < batch@.len() ==> (#[trigger] steps_of(batch@)[i]) is CreateDirectory,
    ensures
        match r {
            Ok(inputs) => {
                &&& folder_requests_error(steps_of(batch@), folders@, 0) is None
                &&& inputs@.len() == batch@.len()
                &&& forall|i: int|
                    0 <= i < batch@.len() ==> folder_request(#[trigger] steps_of(batch@)[i], folders@) == Ok::<
                        (u32, Seq<char>),
                        Seq<char>,
                    >((inputs@[i].parent, inputs@[i].name@))
            },
            Err(message) => folder_requests_error(steps_of(batch@), folders@, 0) == Some(message@),
        },
{
    let ghost steps = steps_of(batch@);
    let mut inputs: Vec<CreateFolderInput> = Vec::new();
    for i in 0..batch.len()
        invariant
            steps == steps_of(batch@),
            forall|j: int| 0 <= j < batch@.len() ==> (#[trigger] steps[j]) is CreateDirectory,
            folder_requests_error(steps, folders@, 0) == folder_requests_error(steps, folders@, i as int),
            inputs@.len() == i,
            forall|j: int|
                0 <= j < i ==> folder_request(#[trigger] steps[j], folders@) == Ok::<(u32, Seq<char>), Seq<char>>(
                    (inputs@[j].parent, inputs@[j].name@),
                ),
    {
        let action = batch[i];
        assert(steps[i as int] == action@);
        if let PlanAction::CreateDirectory { path } = action {
            let parent: u32 = match find_parent(folders, path.as_str(), "directory") {
                Ok(parent) => parent,
                Err(message) => {
                    return Err(message);
                },
            };
            let name = match entry_name(path.as_str()) {
                Ok(name) => owned(name),
                Err(message) => {
                    return Err(message);
                },
            };
            inputs.push(CreateFolderInput { parent, name });
        }
    }
    Ok(inputs)
}

/// The request for a small file, or why there is none.
pub open spec fn small_file_error(
    step: PlanStep,
    folders: Map<Seq<char>, u32>,
    local: Map<Seq<char>, LocalEntry>,
    content: Seq<u8>,
) -> Option<Seq<char>> {
    match file_source(step.path(), folders, local) {
        Err(message) => Some(message),
        Ok((_, hash)) => if content.len() != step.bytes() {
            Some(
                "local file changed after scan: "@ + step.path() + " size was "@ + decimal(step.bytes()) + ", now "@
                    + decimal(content.len()),
            )
        } else if !(hash is Some && hash->0@ == sha3_256(content)) {
            Some("local file changed after scan: "@ + step.path() + " hash differs"@)
        } else {
            match name_of(step.path()) {
                Err(message) => Some(message),
                Ok(_) => None,
            }
        },
    }
}

/// The request that makes a small file from what was read of it.  A file that
/// is not as it was scanned is refused.
pub fn small_file_input(
    action: &PlanAction,
    folders: &PathMap<u32>,
    local: &LocalManifest,
    content: Vec<u8>,
    content_type: String,
) -> (r: Result<CreateFileInput, String>)
    requires
        action@ is UploadFile,
    ensures
        match r {
            Ok(input) => {
                &&& small_file_error(action@, folders@, local.entries@, content@) is None
                &&& parent_folder(folders@, action@.path(), "file"@) == Ok::<u32, Seq<char>>(input.parent)
                &&& name_of(action@.path()) == Ok::<Seq<char>, Seq<char>>(input.name@)
                &&& input.content_type == content_type
                &&& input.size is Some && input.size->0 == content@.len()
                &&& input.content is Some == (content@.len() > 0)
                &&& input.content matches Some(bytes) ==> bytes@ == content@
                &&& input.status is None
                &&& input.hash is Some && input.hash->0@ == sha3_256(content@)
                &&& input.dek is None
                &&& input.custom is None
            },
            Err(message) => small_file_error(action@, folders@, local.entries@, content@) == Some(message@),
        },
{
    let (path, size) = match action {
        PlanAction::UploadFile { path, size } => (path.as_str(), *size),
        _ => {
            return Err(owned("unsupported action in recovery journal"));
        },
    };
    let (parent, known) = match find_source(path, folders, local) {
        Ok(source) => source,
        Err(message) => {
            return Err(message);
        },
    };
    if content.len() as u64 != size {
        return Err(
            cat5(
                cat2("local file changed after scan: ", path).as_str(),
                " size was ",
                decimal_text(size).as_str(),
                ", now ",
                decimal_size(content.len()).as_str(),
            ),
        );
    }
    let digest = digest_of(content.as_slice());
    let unchanged = match &known {
        Some(hash) => crate::text::same_bytes(hash.as_slice(), digest.as_slice()),
        None => false,
    };
    if !unchanged {
        return Err(crate::text::cat3("local file changed after scan: ", path, " hash differs"));
    }
    let name = match entry_name(path) {
        Ok(name) => owned(name),
        Err(message) => {
            return Err(message);
        },
    };
    let content = if content.len() == 0 { None } else { Some(content) };
    Ok(
        CreateFileInput {
            parent,
            name,
            content_type,
            size: Some(size),
            content,
            status: None,
            hash: Some(digest),
            dek: None,
            custom: None,
        },
    )
}

/// The entries after the steps of a batch have begun; the first step without
/// an entry stops it, for the reason given beside the entries.
pub open spec fn batch_started(entries: Seq<JournalEntry>, steps: Seq<PlanStep>) -> (Seq<JournalEntry>, Option<Seq<char>>)
    decreases steps.len(),
{
    if steps.len() == 0 {
        (entries, None)
    } else {
        let before = batch_started(entries, steps.drop_last());
        if before.1 is Some {
            before
        } else {
            match entry_of(before.0, steps.last()) {
                Err(message) => (before.0, Some(message)),
                Ok(at) => (entry_started(before.0, at), None),
            }
        }
    }
}

proof fn lemma_batch_started_error(entries: Seq<JournalEntry>, steps: Seq<PlanStep>, n: int)
    requires
        0 <= n <= steps.len(),
        batch_started(entries, steps.take(n)).1 is Some,
    ensures
        batch_started(entries, steps) == batch_started(entries, steps.take(n)),
    decreases steps.len() - n,
{
    if n < steps.len() {
        assert(steps.take(n + 1).drop_last() =~= steps.take(n));
        lemma_batch_started_error(entries, steps, n + 1);
    } else {
        assert(steps.take(n) =~= steps);
    }
}

/// What a batch is for.
#[derive(Clone, Copy, Debug, PartialEq, Eq, Structural)]
pub enum BatchKind {
    Folders,
    Files,
}

/// What a batch is for, as it is told.
pub open spec fn batch_text(kind: BatchKind) -> Seq<char> {
    match kind {
        BatchKind::Folders => "batch directory creation failed for "@,
        BatchKind::Files => "batch small-file upload failed for "@,
    }
}

/// What has come of a batch so far: the journal, the folders, the message for
/// the first step that the bucket refused, and why the batch was stopped.
#[verifier::ext_equal]
pub struct BatchState {
    pub entries: Seq<JournalEntry>,
    pub folders: Map<Seq<char>, u32>,
    pub refused: Option<Seq<char>>,
    pub stopped: Option<Seq<char>>,
}

/// The view of what the bucket answered for each step: the entry it made, or
/// its refusal in debug notation.
pub open spec fn answers(results: Seq<Result<u32, SyncError>>) -> Seq<Result<u32, Seq<char>>> {
    Seq::new(
        results.len(),
        |i: int|
            match results[i] {
                Ok(id) => Ok::<u32, Seq<char>>(id),
                Err(err) => Err::<u32, Seq<char>>(fault_debug(err@)),
            },
    )
}

/// What has come of a batch after the first `n` answers; an answer for a step
/// without a journal entry stops it.
pub open spec fn batch_answered(
    start: BatchState,
    kind: BatchKind,
    steps: Seq<PlanStep>,
    answers: Seq<Result<u32, Seq<char>>>,
    n: int,
) -> BatchState
    decreases n,
{
    if n <= 0 {
        start
    } else {
        let before = batch_answered(start, kind, steps, answers, n - 1);
        if before.stopped is Some {
            before
        } else {
            match answers[n - 1] {
                Ok(id) => {
                    let folders = folders_after(before.folders, steps[n - 1], id);
                    match entry_of(before.entries, steps[n - 1]) {
                        Err(message) => BatchState { folders, stopped: Some(message), ..before },
                        Ok(at) => BatchState {
                            entries: entry_completed(before.entries, at, subject_of(steps[n - 1], id)),
                            folders,
                            ..before
                        },
                    }
                },
                Err(reason) => BatchState {
                    refused: if before.refused is Some {
                        before.refused
                    } else {
                        Some(batch_text(kind) + steps[n - 1].path() + ": "@ + reason)
                    },
                    ..before
                },
            }
        }
    }
}

proof fn lemma_batch_answered_error(
    start: BatchState,
    kind: BatchKind,
    steps: Seq<PlanStep>,
    given: Seq<Result<u32, Seq<char>>>,
    n: int,
    m: int,
)
    requires
        0 <= n <= m,
        batch_answered(start, kind, steps, given, n).stopped is Some,
    ensures
        batch_answered(start, kind, steps, given, m) == batch_answered(start, kind, steps, given, n),
    decreases m - n,
{
    if n < m {
        lemma_batch_answered_error(start, kind, steps, given, n, m - 1);
    }
}

/// The path of an action.
pub fn action_path(action: &PlanAction) -> (r: &str)
    ensures
        r@ == action@.path(),
{
    match action {
        PlanAction::Conflict { path, .. } => path.as_str(),
        PlanAction::CreateDirectory { path } => path.as_str(),
        PlanAction::UploadFile { path, .. } => path.as_str(),
        PlanAction::ReplaceFile { path, .. } => path.as_str(),
        PlanAction::DeleteFile { path, .. } => path.as_str(),
        PlanAction::DeleteDirectory { path, .. } => path.as_str(),
    }
}

impl SyncRun {
    /// Notes that the steps of a batch begin.
    pub fn start_batch(&mut self, batch: &Vec<&PlanAction>) -> (r: Result<(), String>)
        ensures
            final(self).folders == old(self).folders,
            final(self).position == old(self).position,
            final(self).journal.same_header(&old(self).journal),
            ({
                let started = batch_started(old(self).journal.entries(), steps_of(batch@));
                &&& final(self).journal.entries() == started.0
                &&& match started.1 {
                    None => r is Ok,
                    Some(reason) => r matches Err(message) && message@ == reason,
                }
            }),
    {
        let ghost steps = steps_of(batch@);
        let ghost start = self.journal.entries();
        assert(steps.take(0) =~= Seq::empty());
        for i in 0..batch.len()
            invariant
                steps == steps_of(batch@),
                start == old(self).journal.entries(),
                self.folders == old(self).folders,
                self.position == old(self).position,
                self.journal.same_header(&old(self).journal),
                batch_started(start, steps.take(i as int)) == (self.journal.entries(), None::<Seq<char>>),
        {
            assert(steps[i as int] == batch@[i as int]@);
            assert(steps.take(i + 1).drop_last() =~= steps.take(i as int));
            if let Err(message) = self.journal.mark_started(batch[i]) {
                proof {
                    lemma_batch_started_error(start, steps, i + 1);
                }
                return Err(message);
            }
        }
        assert(steps.take(steps.len() as int) =~= steps);
        Ok(())
    }

    /// Notes what the bucket answered for the steps of a batch.  Every step
    /// that was done is noted, also where another one was refused; the first
    /// refusal is the error.
    pub fn finish_batch(&mut self, kind: BatchKind, batch: &Vec<&PlanAction>, results: &Vec<Result<u32, SyncError>>) -> (r:
        Result<(), String>)
        ensures
            final(self).position == old(self).position,
            final(self).journal.same_header(&old(self).journal),
            ({
                let start = BatchState {
                    entries: old(self).journal.entries(),
                    folders: old(self).folders@,
                    refused: None,
                    stopped: None,
                };
                if results@.len() != batch@.len() {
                    &&& r matches Err(message)
                    &&& message@ == (if kind is Folders {
                        "batch folder result count mismatch: expected "@
                    } else {
                        "batch file result count mismatch: expected "@
                    }) + decimal(batch@.len()) + ", got "@ + decimal(results@.len())
                    &&& final(self).journal.entries() == start.entries
                    &&& final(self).folders@ == start.folders
                } else {
                    let end = batch_answered(
                        start,
                        kind,
                        steps_of(batch@),
                        answers(results@),
                        batch@.len() as int,
                    );
                    &&& final(self).journal.entries() == end.entries
                    &&& final(self).folders@ == end.folders
                    &&& match (end.stopped, end.refused) {
                        (Some(reason), _) => r matches Err(message) && message@ == reason,
                        (None, Some(reason)) => r matches Err(message) && message@ == reason,
                        (None, None) => r is Ok,
                    }
                }
            }),
    {
        if results.len() != batch.len() {
            let prefix = match kind {
                BatchKind::Folders => "batch folder result count mismatch: expected ",
                BatchKind::Files => "batch file result count mismatch: expected ",
            };
            return Err(
                cat4(
                    prefix,
                    decimal_size(batch.len()).as_str(),
                    ", got ",
                    decimal_size(results.len()).as_str(),
                ),
            );
        }
        let ghost steps = steps_of(batch@);
        let ghost given = answers(results@);
        let ghost start = BatchState { entries: self.journal.entries(), folders: self.folders@, refused: None, stopped: None };
        let mut refused: Option<String> = None;
        for i in 0..batch.len()
            invariant
                results@.len() == batch@.len(),
                steps == steps_of(batch@),
                given == answers(results@),
                start == (BatchState {
                    entries: old(self).journal.entries(),
                    folders: old(self).folders@,
                    refused: None,
                    stopped: None,
                }),
                self.position == old(self).position,
                self.journal.same_header(&old(self).journal),
                batch_answered(start, kind, steps, given, i as int) == (BatchState {
                    entries: self.journal.entries(),
                    folders: self.folders@,
                    refused: match refused {
                        Some(text) => Some(text@),
                        None => None,
                    },
                    stopped: None,
                }),
        {
            let action = batch[i];
            assert(steps[i as int] == action@);
            match &results[i] {
                Ok(id) => {
                    if let Err(message) = self.finish_step(action, *id) {
                        proof {
                            lemma_batch_answered_error(start, kind, steps, given, i + 1, batch@.len() as int);
                        }
                        return Err(message);
                    }
                },
                Err(err) => {
                    if refused.is_none() {
                        let prefix = match kind {
                            BatchKind::Folders => "batch directory creation failed for ",
                            BatchKind::Files => "batch small-file upload failed for ",
                        };
                        refused = Some(cat4(prefix, action_path(action), ": ", err.debug_form().as_str()));
                    }
                },
            }
        }
        match refused {
            Some(message) => Err(message),
            None => Ok(()),
        }
    }
}

/// The request that deletes a file as it was last seen.
pub fn delete_file_input(request_id: Vec<u8>, remote_id: u32, file: &FileInfo) -> (r: DeleteEntryIfInput)
    ensures
        r.request_id == request_id,
        r.id == remote_id,
        r.kind is File,
        r.expected_parent == file.parent,
        r.expected_revision == file.revision,
        r.expected_hash == file.hash,
{
    DeleteEntryIfInput {
        request_id,
        id: remote_id,
        kind: ApiEntryKind::File,
        expected_parent: file.parent,
        expected_revision: file.revision,
        expected_hash: file.hash,
    }
}

/// The request that deletes a folder as it was last seen.
pub fn delete_directory_input(request_id: Vec<u8>, remote_id: u32, folder: &FolderInfo) -> (r: DeleteEntryIfInput)
    ensures
        r.request_id == request_id,
        r.id == remote_id,
        r.kind is Folder,
        r.expected_parent == folder.parent,
        r.expected_revision == folder.revision,
        r.expected_hash is None,
{
    DeleteEntryIfInput {
        request_id,
        id: remote_id,
        kind: ApiEntryKind::Folder,
        expected_parent: folder.parent,
        expected_revision: folder.revision,
        expected_hash: None,
    }
}

/// Checks the answer to a deletion.
pub fn check_deleted(deleted: bool, directory: bool, path: &str) -> (r: Result<(), String>)
    ensures
        match r {
            Ok(_) => deleted,
            Err(message) => !deleted && message@ == (if directory {
                "remote directory disappeared before deletion: "@
            } else {
                "remote file disappeared before deletion: "@
            }) + path@,
        },
{
    if deleted {
        Ok(())
    } else if directory {
        Err(cat2("remote directory disappeared before deletion: ", path))
    } else {
        Err(cat2("remote file disappeared before deletion: ", path))
    }
}

/// Checks the plan that was made once a synchronisation was carried out:
/// nothing may be left to do.
pub fn check_synchronised(verification: &Plan) -> (r: Result<(), String>)
    ensures
        match r {
            Ok(_) => verification.conflicts == 0 && verification.actions@.len() == 0,
            Err(message) => (verification.conflicts > 0 || verification.actions@.len() > 0) && message@
                == "post-sync verification found remaining differences"@,
        },
{
    if verification.has_conflicts() || verification.actions.len() > 0 {
        return Err(owned("post-sync verification found remaining differences"));
    }
    Ok(())
}

/// What has to be done for a step is what the step says, at its place: a new
/// directory goes by its own name into the folder above it, a file goes with
/// its local hash into the folder above it, and what is replaced or deleted is
/// the entry that the step names.
pub proof fn law_orders_carry_out_their_step(
    step: PlanStep,
    folders: Map<Seq<char>, u32>,
    local: Map<Seq<char>, LocalEntry>,
    atomic: bool,
    order: StepOrder,
)
    requires
        order_of(step, folders, local, atomic) == Ok::<StepOrder, Seq<char>>(order),
    ensures
        match step {
            PlanStep::Conflict { .. } => false,
            PlanStep::CreateDirectory { path } => order matches StepOrder::CreateDirectory { parent, name }
                && folders.contains_key(parent_of(path)) && parent == folders[parent_of(path)] && name.len() > 0
                && !name.contains('/') && path == if path.contains('/') {
                parent_of(path).push('/') + name
            } else {
                name
            },
            PlanStep::UploadFile { path, .. } => order matches StepOrder::UploadFile { parent, hash, atomic: whole }
                && folders.contains_key(parent_of(path)) && parent == folders[parent_of(path)] && local.contains_key(path)
                && hash == local[path].hash && whole == atomic,
            PlanStep::ReplaceFile { path, remote_id, .. } => order matches StepOrder::ReplaceFile {
                parent,
                hash,
                remote_id: id,
            } && folders.contains_key(parent_of(path)) && parent == folders[parent_of(path)] && local.contains_key(path)
                && hash == local[path].hash && id == remote_id,
            PlanStep::DeleteFile { remote_id, .. } => order == (StepOrder::DeleteFile { remote_id }),
            PlanStep::DeleteDirectory { remote_id, .. } => order == (StepOrder::DeleteDirectory { remote_id }),
        },
{
    crate::text::law_texts_are_cut_at_the_last_separator(step.path(), '/');
}

/// A step can be done wherever what it needs is known: the folder above a new
/// entry, and for a file what was found of it locally.  What is deleted needs
/// neither.
pub proof fn law_steps_with_a_known_place_can_be_done(
    step: PlanStep,
    folders: Map<Seq<char>, u32>,
    local: Map<Seq<char>, LocalEntry>,
    atomic: bool,
)
    ensures
        step is DeleteFile || step is DeleteDirectory ==> order_of(step, folders, local, atomic) is Ok,
        (step is UploadFile || step is ReplaceFile) && folders.contains_key(parent_of(step.path()))
            && local.contains_key(step.path()) ==> order_of(step, folders, local, atomic) is Ok,
        step is CreateDirectory && folders.contains_key(parent_of(step.path())) && step.path().len() > 0
            && step.path().last() != '/' ==> order_of(step, folders, local, atomic) is Ok,
{
    let path = step.path();
    crate::text::law_texts_are_cut_at_the_last_separator(path, '/');
    if path.len() > 0 && path.last() != '/' && path.contains('/') && crate::text::after_last(path, '/').len() == 0 {
        let before = crate::text::before_last(path, '/');
        assert(before.push('/') + Seq::<char>::empty() =~= before.push('/'));
        assert(crate::text::after_last(path, '/') =~= Seq::<char>::empty());
        assert(path.last() == '/');
    }
}

/// A directory that was made is a place for what goes into it, one that was
/// deleted is none any more, and no other folder changes.
pub proof fn law_folders_follow_the_steps(folders: Map<Seq<char>, u32>, step: PlanStep, id: u32, other: Seq<char>)
    ensures
        step is CreateDirectory ==> folders_after(folders, step, id).contains_key(step.path()) && folders_after(
            folders,
            step,
            id,
        )[step.path()] == id,
        step is DeleteDirectory ==> !folders_after(folders, step, id).contains_key(step.path()),
        other != step.path() || !(step is CreateDirectory || step is DeleteDirectory) ==> (folders_after(
            folders,
            step,
            id,
        ).contains_key(other) <==> folders.contains_key(other)) && folders_after(folders, step, id)[other]
            == folders[other],
{
}

/// A step that is begun is noted as such and one that is done is noted with the
/// entry that it made or deleted; nothing else of the journal changes.
pub proof fn law_progress_is_noted_where_it_belongs(entries: Seq<JournalEntry>, at: int, step: PlanStep, id: u32)
    requires
        0 <= at < entries.len(),
    ensures
        entry_started(entries, at).len() == entries.len(),
        entry_started(entries, at)[at].state is InProgress,
        entry_started(entries, at)[at].kind == entries[at].kind,
        entry_started(entries, at)[at].path == entries[at].path,
        entry_started(entries, at)[at].upload == entries[at].upload,
        entry_started(entries, at)[at].remote_id == entries[at].remote_id,
        entry_completed(entries, at, subject_of(step, id)).len() == entries.len(),
        entry_completed(entries, at, subject_of(step, id))[at].state is Completed,
        entry_completed(entries, at, subject_of(step, id))[at].kind == entries[at].kind,
        entry_completed(entries, at, subject_of(step, id))[at].path == entries[at].path,
        entry_completed(entries, at, subject_of(step, id))[at].upload == entries[at].upload,
        entry_completed(entries, at, subject_of(step, id))[at].remote_id == Some(
            match step {
                PlanStep::DeleteFile { remote_id, .. } => remote_id,
                PlanStep::DeleteDirectory { remote_id, .. } => remote_id,
                _ => id,
            },
        ),
        forall|i: int|
            0 <= i < entries.len() && i != at ==> #[trigger] entry_started(entries, at)[i] == entries[i],
        forall|i: int|
            0 <= i < entries.len() && i != at ==> #[trigger] entry_completed(entries, at, subject_of(step, id))[i]
                == entries[i],
{
}

/// What goes into a batch is a directory or an upload of at most 256 KiB.
pub proof fn law_batches_take_directories_and_small_files(step: PlanStep)
    ensures
        is_batched(step) <==> match step {
            PlanStep::CreateDirectory { .. } => true,
            PlanStep::UploadFile { size, .. } => size <= 262144,
            _ => false,
        },
{
}

/// A folder request makes the directory of its step: by its name, in the folder
/// above it.
pub proof fn law_folder_requests_make_their_directory(step: PlanStep, folders: Map<Seq<char>, u32>)
    ensures
        folder_request(step, folders) matches Ok((parent, name)) ==> {
            let path = step.path();
            &&& folders.contains_key(parent_of(path))
            &&& parent == folders[parent_of(path)]
            &&& name.len() > 0
            &&& !name.contains('/')
            &&& path == if path.contains('/') {
                parent_of(path).push('/') + name
            } else {
                name
            }
        },
{
    crate::text::law_texts_are_cut_at_the_last_separator(step.path(), '/');
}

proof fn lemma_folder_requests_error(steps: Seq<PlanStep>, folders: Map<Seq<char>, u32>, from: int)
    requires
        0 <= from,
    ensures
        folder_requests_error(steps, folders, from) is None <==> forall|i: int|
            from <= i < steps.len() ==> folder_request(#[trigger] steps[i], folders) is Ok,
    decreases steps.len() - from,
{
    if from < steps.len() {
        lemma_folder_requests_error(steps, folders, from + 1);
    }
}

/// A batch of directories is asked for exactly where every one of them has a
/// folder request.
pub proof fn law_directory_batches_are_asked_for_whole(steps: Seq<PlanStep>, folders: Map<Seq<char>, u32>)
    ensures
        folder_requests_error(steps, folders, 0) is None <==> forall|i: int|
            0 <= i < steps.len() ==> folder_request(#[trigger] steps[i], folders) is Ok,
{
    lemma_folder_requests_error(steps, folders, 0);
}

/// A small file is sent exactly where its folder is known, it has a name, and
/// what was read of it is what was scanned: the same number of bytes with the
/// same hash.
pub proof fn law_only_scanned_content_is_sent(
    path: Seq<char>,
    size: u64,
    folders: Map<Seq<char>, u32>,
    local: Map<Seq<char>, LocalEntry>,
    content: Seq<u8>,
)
    ensures
        small_file_error(PlanStep::UploadFile { path, size }, folders, local, content) is None <==> {
            &&& folders.contains_key(parent_of(path))
            &&& local.contains_key(path)
            &&& content.len() == size
            &&& local[path].hash matches Some(hash) && hash@ == sha3_256(content)
            &&& path.len() > 0 && path.last() != '/'
        },
{
    crate::text::law_texts_are_cut_at_the_last_separator(path, '/');
    let name = crate::text::after_last(path, '/');
    if path.len() > 0 && path.contains('/') {
        let before = crate::text::before_last(path, '/');
        if name.len() == 0 {
            assert(name =~= Seq::<char>::empty());
            assert(path =~= before.push('/'));
        } else {
            assert(path.last() == name.last());
            assert(name.contains(name.last()));
        }
    } else if path.len() > 0 {
        assert(path.contains(path.last()));
    }
}

/// What the bucket answered is kept: an entry it made, or its refusal.
pub proof fn law_answers_are_kept(results: Seq<Result<u32, SyncError>>, i: int)
    requires
        0 <= i < results.len(),
    ensures
        answers(results).len() == results.len(),
        results[i] matches Ok(id) ==> answers(results)[i] == Ok::<u32, Seq<char>>(id),
        results[i] is Err ==> answers(results)[i] is Err,
{
}

proof fn lemma_completed_stays(start: BatchState, kind: BatchKind, steps: Seq<PlanStep>, given: Seq<Result<u32, Seq<char>>>, n: int, m: int, at: int)
    requires
        0 <= n <= m,
        0 <= at < start.entries.len(),
        batch_answered(start, kind, steps, given, n).entries[at].state is Completed,
        batch_answered(start, kind, steps, given, m).entries.len() == start.entries.len(),
    ensures
        batch_answered(start, kind, steps, given, m).entries[at].state is Completed,
    decreases m - n,
{
    if n < m {
        lemma_batch_shape(start, kind, steps, given, m - 1);
        lemma_completed_stays(start, kind, steps, given, n, m - 1, at);
        crate::sync::journal::lemma_entry_of_sound(
            batch_answered(start, kind, steps, given, m - 1).entries,
            steps[m - 1],
        );
    }
}

proof fn lemma_batch_shape(start: BatchState, kind: BatchKind, steps: Seq<PlanStep>, given: Seq<Result<u32, Seq<char>>>, n: int)
    requires
        0 <= n,
    ensures
        batch_answered(start, kind, steps, given, n).entries.len() == start.entries.len(),
        forall|i: int|
            0 <= i < start.entries.len() ==> (#[trigger] batch_answered(start, kind, steps, given, n).entries[i]).kind
                == start.entries[i].kind && batch_answered(start, kind, steps, given, n).entries[i].path
                == start.entries[i].path,
    decreases n,
{
    if n > 0 {
        lemma_batch_shape(start, kind, steps, given, n - 1);
        let before = batch_answered(start, kind, steps, given, n - 1).entries;
        let after = batch_answered(start, kind, steps, given, n).entries;
        crate::sync::journal::lemma_entry_of_sound(before, steps[n - 1]);
        assert forall|i: int| 0 <= i < start.entries.len() implies (#[trigger] after[i]).kind == start.entries[i].kind
            && after[i].path == start.entries[i].path by {
            assert(before[i].kind == start.entries[i].kind);
        }
    }
}

/// Every step that the bucket has done is noted as done, whatever it answered
/// to the others; and the batch succeeds exactly where nothing was refused.
pub proof fn law_batches_note_every_step_that_was_done(
    start: BatchState,
    kind: BatchKind,
    steps: Seq<PlanStep>,
    given: Seq<Result<u32, Seq<char>>>,
    n: int,
)
    requires
        0 <= n <= steps.len(),
        given.len() == steps.len(),
        start.refused is None,
        batch_answered(start, kind, steps, given, n).stopped is None,
    ensures
        batch_answered(start, kind, steps, given, n).refused is None <==> forall|i: int|
            0 <= i < n ==> #[trigger] given[i] is Ok,
        forall|i: int|
            0 <= i < n && (#[trigger] given[i]) is Ok ==> exists|at: int|
                0 <= at < start.entries.len() && (#[trigger] batch_answered(start, kind, steps, given, n).entries[at]).state
                    is Completed && crate::sync::journal::identity_of(steps[i]) == Some(
                    (start.entries[at].kind, start.entries[at].path),
                ),
    decreases n,
{
    if n > 0 {
        let before = batch_answered(start, kind, steps, given, n - 1);
        let after = batch_answered(start, kind, steps, given, n);
        law_batches_note_every_step_that_was_done(start, kind, steps, given, n - 1);
        lemma_batch_shape(start, kind, steps, given, n - 1);
        lemma_batch_shape(start, kind, steps, given, n);
        crate::sync::journal::lemma_entry_of_sound(before.entries, steps[n - 1]);
        assert forall|i: int| 0 <= i < n && (#[trigger] given[i]) is Ok implies exists|at: int|
            0 <= at < start.entries.len() && (#[trigger] after.entries[at]).state is Completed
                && crate::sync::journal::identity_of(steps[i]) == Some((start.entries[at].kind, start.entries[at].path)) by {
            if i < n - 1 {
                let at = choose|at: int|
                    0 <= at < start.entries.len() && (#[trigger] before.entries[at]).state is Completed
                        && crate::sync::journal::identity_of(steps[i]) == Some(
                        (start.entries[at].kind, start.entries[at].path),
                    );
                lemma_completed_stays(start, kind, steps, given, n - 1, n, at);
                assert(after.entries[at].state is Completed);
            } else {
                let at = entry_of(before.entries, steps[n - 1])->Ok_0;
                assert(before.entries[at].kind == start.entries[at].kind);
                assert(after.entries[at].state is Completed);
            }
        }
        assert(given[n - 1] is Ok ==> after.refused == before.refused);
    }
}

proof fn lemma_started_shape(entries: Seq<JournalEntry>, steps: Seq<PlanStep>)
    ensures
        batch_started(entries, steps).0.len() == entries.len(),
        forall|i: int|
            0 <= i < entries.len() ==> (#[trigger] batch_started(entries, steps).0[i]).kind == entries[i].kind
                && batch_started(entries, steps).0[i].path == entries[i].path && batch_started(entries, steps).0[i].upload
                == entries[i].upload && (batch_started(entries, steps).0[i] == entries[i] || batch_started(
                entries,
                steps,
            ).0[i].state is InProgress),
    decreases steps.len(),
{
    if steps.len() > 0 {
        let before = batch_started(entries, steps.drop_last());
        let after = batch_started(entries, steps);
        lemma_started_shape(entries, steps.drop_last());
        crate::sync::journal::lemma_entry_of_sound(before.0, steps.last());
        assert forall|i: int| 0 <= i < entries.len() implies (#[trigger] after.0[i]).kind == entries[i].kind
            && after.0[i].path == entries[i].path && after.0[i].upload == entries[i].upload && (after.0[i] == entries[i]
            || after.0[i].state is InProgress) by {
            assert(before.0[i].kind == entries[i].kind);
        }
    }
}

/// Where a batch could begin, every one of its steps is noted as begun.
pub proof fn law_batches_begin_all_their_steps(entries: Seq<JournalEntry>, steps: Seq<PlanStep>, i: int)
    requires
        0 <= i < steps.len(),
        batch_started(entries, steps).1 is None,
    ensures
        exists|at: int|
            0 <= at < entries.len() && (#[trigger] batch_started(entries, steps).0[at]).state is InProgress
                && crate::sync::journal::identity_of(steps[i]) == Some((entries[at].kind, entries[at].path)),
    decreases steps.len(),
{
    let rest = steps.drop_last();
    let before = batch_started(entries, rest);
    let after = batch_started(entries, steps);
    lemma_started_shape(entries, rest);
    crate::sync::journal::lemma_entry_of_sound(before.0, steps.last());
    let last = entry_of(before.0, steps.last())->Ok_0;
    if i < rest.len() {
        law_batches_begin_all_their_steps(entries, rest, i);
        let at = choose|at: int|
            0 <= at < entries.len() && (#[trigger] before.0[at]).state is InProgress
                && crate::sync::journal::identity_of(rest[i]) == Some((entries[at].kind, entries[at].path));
        assert(rest[i] == steps[i]);
        assert(after.0[at].state is InProgress);
    } else {
        assert(before.0[last].kind == entries[last].kind);
        assert(after.0[last].state is InProgress);
    }
}

/// An order is seen as the kind it is, with its own folder, name, hash and file.
pub proof fn law_orders_are_seen_as_they_are(order: &SyncStep)
    ensures
        *order matches SyncStep::CreateDirectory { parent, name } ==> order@ == (StepOrder::CreateDirectory {
            parent,
            name: name@,
        }),
        *order matches SyncStep::UploadFile { parent, hash, atomic } ==> order@ == (StepOrder::UploadFile {
            parent,
            hash,
            atomic,
        }),
        *order matches SyncStep::ReplaceFile { parent, hash, remote_id } ==> order@ == (StepOrder::ReplaceFile {
            parent,
            hash,
            remote_id,
        }),
        *order matches SyncStep::DeleteFile { remote_id } ==> order@ == (StepOrder::DeleteFile { remote_id }),
        *order matches SyncStep::DeleteDirectory { remote_id } ==> order@ == (StepOrder::DeleteDirectory { remote_id }),
{
}

/// The first step of a batch that was refused is told, with what the batch was
/// for; later refusals do not replace it.
pub proof fn law_the_first_refusal_of_a_batch_is_told(
    start: BatchState,
    kind: BatchKind,
    steps: Seq<PlanStep>,
    answers: Seq<Result<u32, Seq<char>>>,
    n: int,
    reason: Seq<char>,
)
    requires
        n > 0,
        answers[n - 1] == Err::<u32, Seq<char>>(reason),
        batch_answered(start, kind, steps, answers, n - 1).stopped is None,
    ensures
        ({
            let before = batch_answered(start, kind, steps, answers, n - 1);
            let after = batch_answered(start, kind, steps, answers, n);
            &&& after.entries == before.entries
            &&& after.folders == before.folders
            &&& after.stopped is None
            &&& before.refused is Some ==> after.refused == before.refused
            &&& before.refused is None ==> after.refused == Some(
                (match kind {
                    BatchKind::Folders => "batch directory creation failed for "@,
                    BatchKind::Files => "batch small-file upload failed for "@,
                }) + steps[n - 1].path() + ": "@ + reason,
            )
        }),
        batch_answered(start, kind, steps, answers, 0) == start,
{
}

/// The folder of a file and its local hash are known exactly where the folder of
/// its directory is and the scan found it.
pub proof fn law_sources_are_what_was_scanned(
    path: Seq<char>,
    folders: Map<Seq<char>, u32>,
    local: Map<Seq<char>, LocalEntry>,
)
    ensures
        file_source(path, folders, local) is Ok <==> folders.contains_key(parent_of(path)) && local.contains_key(path),
        file_source(path, folders, local) matches Ok((parent, hash)) ==> parent == folders[parent_of(path)] && hash
            == local[path].hash,
        folders.contains_key(parent_of(path)) && !local.contains_key(path) ==> file_source(path, folders, local) == Err::<
            (u32, Option<[u8; 32]>),
            Seq<char>,
        >("missing local metadata for "@ + path),
{
}

/// Why a small file is not sent is told: that it is not known, that its size or
/// its hash changed.
pub proof fn law_changed_files_are_told(
    path: Seq<char>,
    size: u64,
    folders: Map<Seq<char>, u32>,
    local: Map<Seq<char>, LocalEntry>,
    content: Seq<u8>,
)
    requires
        folders.contains_key(parent_of(path)),
        local.contains_key(path),
    ensures
        content.len() != size ==> small_file_error(PlanStep::UploadFile { path, size }, folders, local, content) == Some(
            "local file changed after scan: "@ + path + " size was "@ + decimal(size as nat) + ", now "@ + decimal(
                content.len(),
            ),
        ),
        content.len() == size && !(local[path].hash is Some && local[path].hash->0@ == sha3_256(content))
            ==> small_file_error(PlanStep::UploadFile { path, size }, folders, local, content) == Some(
            "local file changed after scan: "@ + path + " hash differs"@,
        ),
{
}

/// A step that is done on its own is the first one from a place on that is not
/// done in a batch; where batches are off, it is the step at that place.
pub proof fn law_single_steps_are_the_next_ones(steps: Seq<PlanStep>, from: int, batches: bool)
    requires
        0 <= from,
    ensures
        match next_single(steps, from, batches) {
            Some(at) => {
                &&& from <= at < steps.len()
                &&& !(batches && is_batched(steps[at]))
                &&& forall|i: int| from <= i < at ==> batches && is_batched(#[trigger] steps[i])
            },
            None => forall|i: int| from <= i < steps.len() ==> batches && is_batched(#[trigger] steps[i]),
        },
    decreases steps.len() - from,
{
    if from < steps.len() && batches && is_batched(steps[from]) {
        law_single_steps_are_the_next_ones(steps, from + 1, batches);
    }
}

} // verus!

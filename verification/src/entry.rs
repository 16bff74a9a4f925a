//! Entries of a bucket: names, kinds, and the requests about them.
use vstd::prelude::*;

use crate::file::{valid_file_name, valid_name};
use crate::outside::{debug_quoted, debug_text};
use crate::text::{cat3, cat5, decimal, decimal_text, owned};

verus! {

/// What an entry of a bucket is.
#[derive(Clone, Copy, Debug, PartialEq, Eq, Structural)]
pub enum EntryKind {
    File,
    Folder,
}

/// An entry by its kind and number.
#[derive(Clone, Copy, Debug, PartialEq, Eq, Structural)]
pub struct EntryRef {
    pub kind: EntryKind,
    pub id: u32,
}

/// What a bucket tells about an entry.
#[derive(Clone, Debug, PartialEq, Eq)]
pub struct EntryInfoV2 {
    pub kind: EntryKind,
    pub id: u32,
    pub parent: u32,
    pub name: String,
    pub created_at: u64,
    pub updated_at: u64,
    pub status: i8,
    pub revision: u64,
    pub size: Option<u64>,
    pub filled: Option<u64>,
    pub hash: Option<[u8; 32]>,
    pub content_type: Option<String>,
}

/// Why a bucket refused a request.
#[derive(Clone, Debug, PartialEq, Eq)]
pub enum SyncError {
    InvalidInput(String),
    Unauthorized(String),
    PermissionDenied(String),
    NotFound(String),
    Conflict { message: String, entries: Vec<EntryRef> },
    LimitExceeded(String),
    Internal(String),
}

/// The mathematical form of a refusal.
pub enum SyncFault {
    InvalidInput(Seq<char>),
    Unauthorized(Seq<char>),
    PermissionDenied(Seq<char>),
    NotFound(Seq<char>),
    Conflict { message: Seq<char>, entries: Seq<EntryRef> },
    LimitExceeded(Seq<char>),
    Internal(Seq<char>),
}

impl View for SyncError {
    type V = SyncFault;

    open spec fn view(&self) -> SyncFault {
        match *self {
            SyncError::InvalidInput(text) => SyncFault::InvalidInput(text@),
            SyncError::Unauthorized(text) => SyncFault::Unauthorized(text@),
            SyncError::PermissionDenied(text) => SyncFault::PermissionDenied(text@),
            SyncError::NotFound(text) => SyncFault::NotFound(text@),
            SyncError::Conflict { message, entries } => SyncFault::Conflict { message: message@, entries: entries@ },
            SyncError::LimitExceeded(text) => SyncFault::LimitExceeded(text@),
            SyncError::Internal(text) => SyncFault::Internal(text@),
        }
    }
}

/// What a check returns, given what it finds wrong.
pub open spec fn checked(result: Result<(), SyncError>, fault: Option<SyncFault>) -> bool {
    match result {
        Ok(_) => fault is None,
        Err(err) => fault == Some(err@),
    }
}

/// Asks for an entry by its name.
#[derive(Clone, Debug)]
pub struct GetEntryInput {
    pub parent: u32,
    pub name: String,
}

impl GetEntryInput {
    /// What is wrong with the request.
    pub open spec fn fault(&self) -> Option<SyncFault> {
        if !valid_name(self.name@) {
            Some(SyncFault::InvalidInput("invalid entry name"@))
        } else {
            None
        }
    }

    /// Checks the request.
    pub fn validate(&self) -> (r: Result<(), SyncError>)
        ensures
            checked(r, self.fault()),
    {
        if !valid_file_name(self.name.as_str()) {
            return Err(SyncError::InvalidInput(owned("invalid entry name")));
        }
        Ok(())
    }
}

/// Asks for a folder to be there.
#[derive(Clone, Debug)]
pub struct EnsureFolderInput {
    pub request_id: Vec<u8>,
    pub parent: u32,
    pub name: String,
}

impl EnsureFolderInput {
    /// What is wrong with the request.
    pub open spec fn fault(&self) -> Option<SyncFault> {
        if let Some(fault) = request_id_fault(self.request_id@) {
            Some(fault)
        } else if !valid_name(self.name@) {
            Some(SyncFault::InvalidInput("invalid folder name"@))
        } else {
            None
        }
    }

    /// Checks the request.
    pub fn validate(&self) -> (r: Result<(), SyncError>)
        ensures
            checked(r, self.fault()),
    {
        validate_request_id(self.request_id.as_slice())?;
        if !valid_file_name(self.name.as_str()) {
            return Err(SyncError::InvalidInput(owned("invalid folder name")));
        }
        Ok(())
    }
}

/// The folder that is there.
#[derive(Clone, Copy, Debug, PartialEq, Eq, Structural)]
pub struct EnsureFolderOutput {
    pub id: u32,
    pub created: bool,
    pub created_at: u64,
    pub revision: u64,
}

/// Asks for an entry to be deleted if it is still as expected.
#[derive(Clone, Debug)]
pub struct DeleteEntryIfInput {
    pub request_id: Vec<u8>,
    pub id: u32,
    pub kind: EntryKind,
    pub expected_parent: u32,
    pub expected_revision: u64,
    pub expected_hash: Option<[u8; 32]>,
}

impl DeleteEntryIfInput {
    /// What is wrong with the request.
    pub open spec fn fault(&self) -> Option<SyncFault> {
        if let Some(fault) = request_id_fault(self.request_id@) {
            Some(fault)
        } else if self.kind is Folder && self.expected_hash is Some {
            Some(SyncFault::InvalidInput("expected_hash is only valid for files"@))
        } else {
            None
        }
    }

    /// Checks the request.
    pub fn validate(&self) -> (r: Result<(), SyncError>)
        ensures
            checked(r, self.fault()),
    {
        validate_request_id(self.request_id.as_slice())?;
        if self.kind == EntryKind::Folder && self.expected_hash.is_some() {
            return Err(SyncError::InvalidInput(owned("expected_hash is only valid for files")));
        }
        Ok(())
    }
}

/// What is wrong with a request identifier.
pub open spec fn request_id_fault(request_id: Seq<u8>) -> Option<SyncFault> {
    if request_id.len() == 0 || request_id.len() > 64 {
        Some(SyncFault::InvalidInput("request_id must contain 1 to 64 bytes"@))
    } else {
        None
    }
}

/// Checks a request identifier.
pub(crate) fn validate_request_id(request_id: &[u8]) -> (r: Result<(), SyncError>)
    ensures
        checked(r, request_id_fault(request_id@)),
{
    if request_id.len() == 0 || request_id.len() > 64 {
        return Err(SyncError::InvalidInput(owned("request_id must contain 1 to 64 bytes")));
    }
    Ok(())
}

/// How far a bucket's move to the current directory storage is.
#[derive(Clone, Copy, Debug, PartialEq, Eq, Structural)]
pub enum MigrationState {
    Legacy,
    Migrating,
    Ready,
    Failed,
}

/// What a bucket can do.
#[derive(Clone, Debug, PartialEq, Eq)]
pub struct BucketCapabilities {
    pub api_version: u16,
    pub storage_version: u16,
    pub unique_names: bool,
    pub get_entry: bool,
    pub ensure_folder: bool,
    pub conditional_delete: bool,
    pub upload_sessions: bool,
    pub atomic_commit: bool,
    pub incremental_gc: bool,
    pub manifest: bool,
    pub batch_operations: Option<bool>,
    pub reader_grants: Option<bool>,
    pub http_read_modes: Option<bool>,
    pub storage_metrics: Option<bool>,
    pub migration_state: MigrationState,
}

/// The debug notation of an entry.
pub open spec fn entry_debug(entry: EntryRef) -> Seq<char> {
    "EntryRef { kind: "@ + match entry.kind {
        EntryKind::File => "File"@,
        EntryKind::Folder => "Folder"@,
    } + ", id: "@ + decimal(entry.id as nat) + " }"@
}

/// The debug notation of entries, separated by commas.
pub open spec fn entries_debug(entries: Seq<EntryRef>) -> Seq<char>
    decreases entries.len(),
{
    if entries.len() == 0 {
        Seq::empty()
    } else if entries.len() == 1 {
        entry_debug(entries[0])
    } else {
        entries_debug(entries.drop_last()) + ", "@ + entry_debug(entries.last())
    }
}

/// The debug notation of a refusal.
pub open spec fn fault_debug(fault: SyncFault) -> Seq<char> {
    match fault {
        SyncFault::InvalidInput(text) => "InvalidInput("@ + debug_text(text) + ")"@,
        SyncFault::Unauthorized(text) => "Unauthorized("@ + debug_text(text) + ")"@,
        SyncFault::PermissionDenied(text) => "PermissionDenied("@ + debug_text(text) + ")"@,
        SyncFault::NotFound(text) => "NotFound("@ + debug_text(text) + ")"@,
        SyncFault::Conflict { message, entries } => "Conflict { message: "@ + debug_text(message) + ", entries: ["@
            + entries_debug(entries) + "] }"@,
        SyncFault::LimitExceeded(text) => "LimitExceeded("@ + debug_text(text) + ")"@,
        SyncFault::Internal(text) => "Internal("@ + debug_text(text) + ")"@,
    }
}

fn entry_text(entry: &EntryRef) -> (r: String)
    ensures
        r@ == entry_debug(*entry),
{
    let kind = match entry.kind {
        EntryKind::File => "File",
        EntryKind::Folder => "Folder",
    };
    cat5("EntryRef { kind: ", kind, ", id: ", decimal_text(entry.id as u64).as_str(), " }")
}

fn entries_text(entries: &Vec<EntryRef>) -> (r: String)
    ensures
        r@ == entries_debug(entries@),
{
    let mut r = String::new();
    for i in 0..entries.len()
        invariant
            r@ == entries_debug(entries@.take(i as int)),
    {
        let ghost next = entries@.take(i + 1);
        assert(next.drop_last() =~= entries@.take(i as int));
        if i > 0 {
            r.append(", ");
        }
        r.append(entry_text(&entries[i]).as_str());
        assert(r@ =~= entries_debug(next));
    }
    assert(entries@.take(entries@.len() as int) =~= entries@);
    r
}

impl SyncError {
    /// The debug notation of the refusal.
    pub fn debug_form(&self) -> (r: String)
        ensures
            r@ == fault_debug(self@),
    {
        match self {
            SyncError::InvalidInput(text) => cat3("InvalidInput(", debug_quoted(text.as_str()).as_str(), ")"),
            SyncError::Unauthorized(text) => cat3("Unauthorized(", debug_quoted(text.as_str()).as_str(), ")"),
            SyncError::PermissionDenied(text) => cat3("PermissionDenied(", debug_quoted(text.as_str()).as_str(), ")"),
            SyncError::NotFound(text) => cat3("NotFound(", debug_quoted(text.as_str()).as_str(), ")"),
            SyncError::Conflict { message, entries } => cat5(
                "Conflict { message: ",
                debug_quoted(message.as_str()).as_str(),
                ", entries: [",
                entries_text(entries).as_str(),
                "] }",
            ),
            SyncError::LimitExceeded(text) => cat3("LimitExceeded(", debug_quoted(text.as_str()).as_str(), ")"),
            SyncError::Internal(text) => cat3("Internal(", debug_quoted(text.as_str()).as_str(), ")"),
        }
    }
}

/// A request identifier is accepted exactly where it has 1 to 64 bytes.
pub proof fn law_identifiers_have_1_to_64_bytes(request_id: Seq<u8>)
    ensures
        request_id_fault(request_id) is None <==> 1 <= request_id.len() <= 64,
        request_id_fault(request_id) is Some ==> request_id_fault(request_id)->0 is InvalidInput,
{
}

/// An entry is asked for exactly where its name is in order; a folder exactly
/// where both its identifier and its name are; and a deletion exactly where its
/// identifier is and a digest is expected only of a file.
pub proof fn law_requests_about_entries_are_accepted(
    get: &GetEntryInput,
    ensure: &EnsureFolderInput,
    delete: &DeleteEntryIfInput,
)
    ensures
        get.fault() is None <==> valid_name(get.name@),
        !valid_name(get.name@) ==> get.fault() == Some(SyncFault::InvalidInput("invalid entry name"@)),
        ensure.fault() is None <==> 1 <= ensure.request_id@.len() <= 64 && valid_name(ensure.name@),
        !(1 <= ensure.request_id@.len() <= 64) ==> ensure.fault() == Some(
            SyncFault::InvalidInput("request_id must contain 1 to 64 bytes"@),
        ),
        1 <= ensure.request_id@.len() <= 64 && !valid_name(ensure.name@) ==> ensure.fault() == Some(
            SyncFault::InvalidInput("invalid folder name"@),
        ),
        delete.fault() is None <==> 1 <= delete.request_id@.len() <= 64 && (delete.kind is File
            || delete.expected_hash is None),
        !(1 <= delete.request_id@.len() <= 64) ==> delete.fault() == Some(
            SyncFault::InvalidInput("request_id must contain 1 to 64 bytes"@),
        ),
        1 <= delete.request_id@.len() <= 64 && delete.kind is Folder && delete.expected_hash is Some ==> delete.fault()
            == Some(SyncFault::InvalidInput("expected_hash is only valid for files"@)),
{
}

/// A refusal is seen as the kind it is, with its own message and entries, and a
/// check passes exactly where nothing is wrong and otherwise tells just that.
pub proof fn law_refusals_are_seen_as_they_are(err: SyncError, fault: Option<SyncFault>)
    ensures
        err matches SyncError::InvalidInput(text) ==> err@ == SyncFault::InvalidInput(text@),
        err matches SyncError::Unauthorized(text) ==> err@ == SyncFault::Unauthorized(text@),
        err matches SyncError::PermissionDenied(text) ==> err@ == SyncFault::PermissionDenied(text@),
        err matches SyncError::NotFound(text) ==> err@ == SyncFault::NotFound(text@),
        err matches SyncError::Conflict { message, entries } ==> err@ == (SyncFault::Conflict {
            message: message@,
            entries: entries@,
        }),
        err matches SyncError::LimitExceeded(text) ==> err@ == SyncFault::LimitExceeded(text@),
        err matches SyncError::Internal(text) ==> err@ == SyncFault::Internal(text@),
        checked(Ok(()), fault) <==> fault is None,
        checked(Err(err), fault) <==> fault == Some(err@),
{
}

/// A refusal is shown by its kind and its message, quoted; a conflict also by
/// its entries.
pub proof fn law_refusals_are_shown_by_kind_and_message(text: Seq<char>, entries: Seq<EntryRef>, id: u32)
    ensures
        fault_debug(SyncFault::InvalidInput(text)) == "InvalidInput("@ + debug_text(text) + ")"@,
        fault_debug(SyncFault::Unauthorized(text)) == "Unauthorized("@ + debug_text(text) + ")"@,
        fault_debug(SyncFault::PermissionDenied(text)) == "PermissionDenied("@ + debug_text(text) + ")"@,
        fault_debug(SyncFault::NotFound(text)) == "NotFound("@ + debug_text(text) + ")"@,
        fault_debug(SyncFault::LimitExceeded(text)) == "LimitExceeded("@ + debug_text(text) + ")"@,
        fault_debug(SyncFault::Internal(text)) == "Internal("@ + debug_text(text) + ")"@,
        fault_debug((SyncFault::Conflict { message: text, entries })) == "Conflict { message: "@ + debug_text(text)
            + ", entries: ["@ + entries_debug(entries) + "] }"@,
        entry_debug((EntryRef { kind: EntryKind::File, id })) == "EntryRef { kind: "@ + "File"@ + ", id: "@ + decimal(
            id as nat,
        ) + " }"@,
        entry_debug((EntryRef { kind: EntryKind::Folder, id })) == "EntryRef { kind: "@ + "Folder"@ + ", id: "@
            + decimal(id as nat) + " }"@,
{
}

/// Entries are shown one behind the other, with a comma and a space between two
/// of them.
pub proof fn law_entries_are_shown_in_order(first: EntryRef, rest: Seq<EntryRef>)
    ensures
        entries_debug(Seq::empty()) == Seq::<char>::empty(),
        entries_debug(seq![first]) == entry_debug(first),
        rest.len() > 0 ==> entries_debug(seq![first] + rest) == entry_debug(first) + ", "@ + entries_debug(rest),
    decreases rest.len(),
{
    if rest.len() == 1 {
        let all = seq![first] + rest;
        assert(all.drop_last() =~= seq![first]);
        assert(entries_debug(seq![first]) == entry_debug(first));
        assert(all.last() == rest[0]);
        assert(entries_debug(all) == entries_debug(all.drop_last()) + ", "@ + entry_debug(all.last()));
    } else if rest.len() > 1 {
        let all = seq![first] + rest;
        assert(all.drop_last() =~= seq![first] + rest.drop_last());
        law_entries_are_shown_in_order(first, rest.drop_last());
        assert(entries_debug(all) =~= entry_debug(first) + ", "@ + entries_debug(rest));
    }
}

} // verus!

//! Directory storage of a bucket: listings, manifests and migration.
use vstd::prelude::*;

use crate::entry::{checked, EntryInfoV2, EntryKind, EntryRef, MigrationState, SyncError, SyncFault};
use crate::text::owned;

verus! {

/// Where a listing goes on.
#[derive(Clone, Copy, Debug, PartialEq, Eq, Structural)]
pub struct EntryCursor {
    pub parent_revision: u64,
    pub kind: EntryKind,
    pub id: u32,
}

/// Asks for the entries of a folder.
#[derive(Clone, Debug)]
pub struct ListEntriesInput {
    pub parent: u32,
    pub cursor: Option<EntryCursor>,
    pub take: Option<u16>,
}

/// What is wrong with the size of a page.
pub open spec fn take_fault(take: Option<u16>) -> Option<SyncFault> {
    if take == Some(0u16) {
        Some(SyncFault::InvalidInput("take must be greater than zero"@))
    } else {
        None
    }
}

fn validate_take(take: Option<u16>) -> (r: Result<(), SyncError>)
    ensures
        checked(r, take_fault(take)),
{
    match take {
        Some(count) => {
            if count == 0 {
                return Err(SyncError::InvalidInput(owned("take must be greater than zero")));
            }
            Ok(())
        },
        None => Ok(()),
    }
}

impl ListEntriesInput {
    /// Checks the request.
    pub fn validate(&self) -> (r: Result<(), SyncError>)
        ensures
            checked(r, take_fault(self.take)),
    {
        validate_take(self.take)
    }
}

/// A page of a listing.
#[derive(Clone, Debug, PartialEq, Eq)]
pub struct ListEntriesOutput {
    pub entries: Vec<EntryInfoV2>,
    pub next: Option<EntryCursor>,
    pub parent_revision: u64,
}

/// How far a folder of a manifest is read.
#[derive(Clone, Debug, PartialEq, Eq)]
pub struct ManifestFrame {
    pub folder_id: u32,
    pub path: String,
    pub after: Option<EntryRef>,
}

/// Where a manifest goes on.
#[derive(Clone, Debug, PartialEq, Eq)]
pub struct SubtreeManifestCursor {
    pub revision: u64,
    pub stack: Vec<ManifestFrame>,
}

/// Asks for a page of the manifest of a folder.
#[derive(Clone, Debug)]
pub struct SubtreeManifestInput {
    pub root: u32,
    pub cursor: Option<SubtreeManifestCursor>,
    pub take: Option<u16>,
}

impl SubtreeManifestInput {
    /// What is wrong with the request.
    pub open spec fn fault(&self) -> Option<SyncFault> {
        if let Some(fault) = take_fault(self.take) {
            Some(fault)
        } else if self.cursor is Some && self.cursor->0.stack@.len() > 1024 {
            Some(SyncFault::LimitExceeded("manifest cursor depth exceeds 1024"@))
        } else {
            None
        }
    }

    /// Checks the request.
    pub fn validate(&self) -> (r: Result<(), SyncError>)
        ensures
            checked(r, self.fault()),
    {
        validate_take(self.take)?;
        if let Some(cursor) = &self.cursor {
            if cursor.stack.len() > 1024 {
                return Err(SyncError::LimitExceeded(owned("manifest cursor depth exceeds 1024")));
            }
        }
        Ok(())
    }
}

/// An entry of a manifest, by its path.
#[derive(Clone, Debug, PartialEq, Eq)]
pub struct ManifestEntry {
    pub path: String,
    pub entry: EntryInfoV2,
}

/// A page of a manifest.
#[derive(Clone, Debug, PartialEq, Eq)]
pub struct SubtreeManifestOutput {
    pub entries: Vec<ManifestEntry>,
    pub next: Option<SubtreeManifestCursor>,
    pub revision: u64,
}

/// Asks for a step of the migration.
#[derive(Clone, Debug)]
pub struct MigrateDirectoryStorageInput {
    pub max_items: Option<u16>,
}

/// What a step of the migration did.
#[derive(Clone, Debug, PartialEq, Eq)]
pub struct MigrateDirectoryStorageOutput {
    pub state: MigrationState,
    pub processed: u16,
    pub folder_cursor: Option<u32>,
    pub file_cursor: Option<u32>,
    pub error: Option<String>,
}

/// The state of the directory storage.
#[derive(Clone, Debug, PartialEq, Eq)]
pub struct DirectoryStorageHealth {
    pub legacy_folders: u64,
    pub stable_folders: u64,
    pub stable_children: u64,
    pub stable_names: u64,
    pub duplicate_names: u64,
    pub dangling_entries: u64,
    pub migration_error: Option<String>,
}

/// A page is asked for with any size above zero, or none; a manifest goes on at
/// a depth of at most 1024.
pub proof fn law_pages_are_asked_for(take: Option<u16>, input: &SubtreeManifestInput)
    ensures
        take_fault(take) is None <==> (take matches Some(count) ==> count > 0),
        take == Some(0u16) ==> take_fault(take) == Some(SyncFault::InvalidInput("take must be greater than zero"@)),
        input.fault() is None <==> {
            &&& input.take matches Some(count) ==> count > 0
            &&& input.cursor matches Some(cursor) ==> cursor.stack@.len() <= 1024
        },
        input.take == Some(0u16) ==> input.fault() == Some(SyncFault::InvalidInput("take must be greater than zero"@)),
        input.take != Some(0u16) && input.cursor is Some && input.cursor->0.stack@.len() > 1024 ==> input.fault() == Some(
            SyncFault::LimitExceeded("manifest cursor depth exceeds 1024"@),
        ),
{
}

} // verus!

//! Folders of a bucket.
use vstd::prelude::*;

verus! {

/// Asks for a folder to be made.
#[derive(Clone, Debug)]
pub struct CreateFolderInput {
    pub parent: u32,
    pub name: String,
}

/// The folder that was made.
#[derive(Clone, Copy, Debug, PartialEq, Eq, Structural)]
pub struct CreateFolderOutput {
    pub id: u32,
    pub created_at: u64,
}

/// What a bucket tells about a folder.
#[derive(Clone, Debug)]
pub struct FolderInfo {
    pub id: u32,
    pub parent: u32,
    pub name: String,
    pub created_at: u64,
    pub updated_at: u64,
    pub status: i8,
    pub revision: u64,
}

} // verus!

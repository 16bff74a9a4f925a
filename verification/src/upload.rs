//! Upload sessions: the requests and replies of a resumable upload.
use vstd::prelude::*;

use crate::entry::{checked, request_id_fault, validate_request_id, SyncError, SyncFault};
use crate::file::{valid_file_name, valid_name, MetadataValue};
use crate::text::owned;

verus! {

/// The size of a session identifier.
pub const UPLOAD_SESSION_ID_SIZE: usize = 32;

/// The sessions of a bucket.
#[derive(Clone, Copy, Debug, PartialEq, Eq, Structural)]
pub struct UploadHealth {
    pub active_sessions: u64,
    pub max_active_sessions: u16,
}

/// The file that an upload replaces, and what it has to be like.
#[derive(Clone, Copy, Debug, PartialEq, Eq, Structural)]
pub struct ReplaceFileInput {
    pub id: u32,
    pub expected_revision: u64,
}

/// Asks for an upload to begin.
#[derive(Clone, Debug)]
pub struct BeginUploadInput {
    pub request_id: Vec<u8>,
    pub parent: u32,
    pub name: String,
    pub content_type: String,
    pub size: u64,
    pub status: i8,
    pub hash: Option<[u8; 32]>,
    pub dek: Option<Vec<u8>>,
    pub custom: Option<Vec<(String, MetadataValue)>>,
    pub expected_parent_revision: u64,
    pub replace: Option<ReplaceFileInput>,
}

impl BeginUploadInput {
    /// What is wrong with the request.
    pub open spec fn fault(&self) -> Option<SyncFault> {
        if let Some(fault) = request_id_fault(self.request_id@) {
            Some(fault)
        } else if !valid_name(self.name@) {
            Some(SyncFault::InvalidInput("invalid file name"@))
        } else if self.content_type@.len() == 0 {
            Some(SyncFault::InvalidInput("content_type cannot be empty"@))
        } else if !(0 <= self.status <= 1) {
            Some(SyncFault::InvalidInput("status must be 0 or 1"@))
        } else if self.status == 1 && self.hash is None {
            Some(SyncFault::InvalidInput("readonly uploads require a hash"@))
        } else {
            None
        }
    }

    /// Checks the request.
    pub fn validate(&self) -> (r: Result<(), SyncError>)
        ensures
            checked(r, self.fault()),
    {
        validate_request_id(self.request_id.as_slice())?;
        if !valid_file_name(self.name.as_str()) {
            return Err(SyncError::InvalidInput(owned("invalid file name")));
        }
        if self.content_type.as_str().is_empty() {
            return Err(SyncError::InvalidInput(owned("content_type cannot be empty")));
        }
        if self.status < 0 || self.status > 1 {
            return Err(SyncError::InvalidInput(owned("status must be 0 or 1")));
        }
        if self.status == 1 && self.hash.is_none() {
            return Err(SyncError::InvalidInput(owned("readonly uploads require a hash")));
        }
        Ok(())
    }
}

/// The session of an upload that has begun.
#[derive(Clone, Debug, PartialEq, Eq)]
pub struct BeginUploadOutput {
    pub session_id: Vec<u8>,
    pub file_id: u32,
    pub generation: u64,
    pub chunk_size: u32,
    pub total_chunks: u32,
    pub expires_at: u64,
}

/// Brings one chunk.
#[derive(Clone, Debug)]
pub struct UploadChunkInput {
    pub request_id: Vec<u8>,
    pub session_id: Vec<u8>,
    pub chunk_index: u32,
    pub content: Vec<u8>,
}

impl UploadChunkInput {
    /// What is wrong with the request.
    pub open spec fn fault(&self) -> Option<SyncFault> {
        if let Some(fault) = session_request_fault(self.request_id@, self.session_id@) {
            Some(fault)
        } else if self.content@.len() == 0 {
            Some(SyncFault::InvalidInput("chunk cannot be empty"@))
        } else {
            None
        }
    }

    /// Checks the request.
    pub fn validate(&self) -> (r: Result<(), SyncError>)
        ensures
            checked(r, self.fault()),
    {
        validate_request_id(self.request_id.as_slice())?;
        validate_session_id(self.session_id.as_slice())?;
        if self.content.len() == 0 {
            return Err(SyncError::InvalidInput(owned("chunk cannot be empty")));
        }
        Ok(())
    }
}

/// The state of an upload after a chunk was stored.
#[derive(Clone, Copy, Debug, PartialEq, Eq, Structural)]
pub struct UploadChunkOutput {
    pub filled: u64,
    pub uploaded_chunks: u32,
    pub expires_at: u64,
}

/// Asks for the state of an upload.
#[derive(Clone, Debug)]
pub struct GetUploadStatusInput {
    pub session_id: Vec<u8>,
    pub start: Option<u32>,
    pub take: Option<u16>,
}

impl GetUploadStatusInput {
    /// Checks the request.
    pub fn validate(&self) -> (r: Result<(), SyncError>)
        ensures
            checked(r, session_id_fault(self.session_id@)),
    {
        validate_session_id(self.session_id.as_slice())
    }
}

/// The chunks from `start` to `end`, both among them.
#[derive(Clone, Copy, Debug, PartialEq, Eq, Structural)]
pub struct UploadedChunkRange {
    /// Inclusive first chunk index.
    pub start: u32,
    /// Inclusive last chunk index.
    pub end: u32,
}

/// A page of the state of an upload.
#[derive(Clone, Debug, PartialEq, Eq)]
pub struct UploadStatusOutput {
    pub file_id: u32,
    pub generation: u64,
    pub size: u64,
    pub filled: u64,
    pub total_chunks: u32,
    pub uploaded_chunks: u32,
    pub ranges: Vec<UploadedChunkRange>,
    pub next: Option<u32>,
    pub expires_at: u64,
}

/// Asks for more time.
#[derive(Clone, Debug)]
pub struct RenewUploadInput {
    pub request_id: Vec<u8>,
    pub session_id: Vec<u8>,
}

impl RenewUploadInput {
    /// Checks the request.
    pub fn validate(&self) -> (r: Result<(), SyncError>)
        ensures
            checked(r, session_request_fault(self.request_id@, self.session_id@)),
    {
        validate_request_id(self.request_id.as_slice())?;
        validate_session_id(self.session_id.as_slice())
    }
}

/// The time there is.
#[derive(Clone, Copy, Debug, PartialEq, Eq, Structural)]
pub struct RenewUploadOutput {
    pub expires_at: u64,
}

/// Gives up an upload.
#[derive(Clone, Debug)]
pub struct AbortUploadInput {
    pub request_id: Vec<u8>,
    pub session_id: Vec<u8>,
}

impl AbortUploadInput {
    /// Checks the request.
    pub fn validate(&self) -> (r: Result<(), SyncError>)
        ensures
            checked(r, session_request_fault(self.request_id@, self.session_id@)),
    {
        validate_request_id(self.request_id.as_slice())?;
        validate_session_id(self.session_id.as_slice())
    }
}

/// Ends an upload.
#[derive(Clone, Debug)]
pub struct CommitUploadInput {
    pub request_id: Vec<u8>,
    pub session_id: Vec<u8>,
}

impl CommitUploadInput {
    /// Checks the request.
    pub fn validate(&self) -> (r: Result<(), SyncError>)
        ensures
            checked(r, session_request_fault(self.request_id@, self.session_id@)),
    {
        validate_request_id(self.request_id.as_slice())?;
        validate_session_id(self.session_id.as_slice())
    }
}

/// The file that an upload made or replaced.
#[derive(Clone, Copy, Debug, PartialEq, Eq, Structural)]
pub struct CommitUploadOutput {
    pub id: u32,
    pub created: bool,
    pub revision: u64,
    pub generation: u64,
    pub committed_at: u64,
}

/// What is wrong with a session identifier.
pub open spec fn session_id_fault(session_id: Seq<u8>) -> Option<SyncFault> {
    if session_id.len() != UPLOAD_SESSION_ID_SIZE {
        Some(SyncFault::InvalidInput("session_id must contain 32 bytes"@))
    } else {
        None
    }
}

/// What is wrong with the identifiers of a request about a session.
pub open spec fn session_request_fault(request_id: Seq<u8>, session_id: Seq<u8>) -> Option<SyncFault> {
    if let Some(fault) = request_id_fault(request_id) {
        Some(fault)
    } else {
        session_id_fault(session_id)
    }
}

fn validate_session_id(session_id: &[u8]) -> (r: Result<(), SyncError>)
    ensures
        checked(r, session_id_fault(session_id@)),
{
    if session_id.len() != UPLOAD_SESSION_ID_SIZE {
        return Err(SyncError::InvalidInput(owned("session_id must contain 32 bytes")));
    }
    Ok(())
}

/// An upload begins exactly where its identifier, name and content type are in
/// order, its status is 0 or 1, and a read-only file has a digest.
pub proof fn law_uploads_are_begun(input: &BeginUploadInput)
    ensures
        input.fault() is None <==> {
            &&& 1 <= input.request_id@.len() <= 64
            &&& valid_name(input.name@)
            &&& input.content_type@.len() > 0
            &&& input.status == 0 || input.status == 1 && input.hash is Some
        },
        input.fault() is Some ==> input.fault()->0 is InvalidInput,
        1 <= input.request_id@.len() <= 64 && !valid_name(input.name@) ==> input.fault() == Some(
            SyncFault::InvalidInput("invalid file name"@),
        ),
        1 <= input.request_id@.len() <= 64 && valid_name(input.name@) && input.content_type@.len() == 0
            ==> input.fault() == Some(SyncFault::InvalidInput("content_type cannot be empty"@)),
        1 <= input.request_id@.len() <= 64 && valid_name(input.name@) && input.content_type@.len() > 0 && (input.status
            < 0 || input.status > 1) ==> input.fault() == Some(SyncFault::InvalidInput("status must be 0 or 1"@)),
        1 <= input.request_id@.len() <= 64 && valid_name(input.name@) && input.content_type@.len() > 0 && input.status
            == 1 && input.hash is None ==> input.fault() == Some(
            SyncFault::InvalidInput("readonly uploads require a hash"@),
        ),
{
}

/// A request about a session is accepted exactly where its identifier has 1 to
/// 64 bytes and that of the session 32; a chunk also has to hold something.
pub proof fn law_requests_about_sessions_are_accepted(
    request_id: Seq<u8>,
    session_id: Seq<u8>,
    input: &UploadChunkInput,
)
    ensures
        session_id_fault(session_id) is None <==> session_id.len() == 32,
        session_request_fault(request_id, session_id) is None <==> 1 <= request_id.len() <= 64 && session_id.len()
            == 32,
        !(1 <= request_id.len() <= 64) ==> session_request_fault(request_id, session_id) == Some(
            SyncFault::InvalidInput("request_id must contain 1 to 64 bytes"@),
        ),
        1 <= request_id.len() <= 64 && session_id.len() != 32 ==> session_request_fault(request_id, session_id) == Some(
            SyncFault::InvalidInput("session_id must contain 32 bytes"@),
        ),
        input.fault() is None <==> {
            &&& 1 <= input.request_id@.len() <= 64
            &&& input.session_id@.len() == 32
            &&& input.content@.len() > 0
        },
        1 <= input.request_id@.len() <= 64 && input.session_id@.len() == 32 && input.content@.len() == 0
            ==> input.fault() == Some(SyncFault::InvalidInput("chunk cannot be empty"@)),
{
}

} // verus!

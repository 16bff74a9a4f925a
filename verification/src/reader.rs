//! Reader grants: who may read a protected bucket, and until when.
use vstd::prelude::*;

use crate::principal::{anonymous_bytes, Principal};
use crate::text::owned;

verus! {

/// The most grants of a batch.
pub const MAX_READER_GRANT_BATCH_ITEMS: usize = 100;

/// The most bytes of a request identifier.
pub const MAX_READER_GRANT_REQUEST_ID_BYTES: usize = 64;

/// Whether a grant holds.
#[derive(Clone, Copy, Debug, PartialEq, Eq, Structural)]
pub enum ReaderGrantStatus {
    Active,
    Revoked,
}

/// A grant.
#[derive(Clone, Debug, PartialEq, Eq)]
pub struct ReaderGrant {
    pub subject: Principal,
    pub expires_at_ms: Option<u64>,
    pub entitlement_version: u64,
    pub status: ReaderGrantStatus,
    pub granted_by: Principal,
    pub updated_at_ms: u64,
}

/// Why a request about grants is refused.
#[derive(Clone, Debug, PartialEq, Eq)]
pub enum ReaderGrantError {
    Unauthorized,
    AnonymousNotAllowed,
    InvalidExpiry,
    InvalidInput(String),
    TooManyItems { max: u16 },
    StaleVersion { current_version: u64 },
    VersionConflict { current_version: u64 },
}

/// The mathematical form of a refusal.
pub enum GrantFault {
    Unauthorized,
    AnonymousNotAllowed,
    InvalidExpiry,
    InvalidInput(Seq<char>),
    TooManyItems { max: u16 },
    StaleVersion { current_version: u64 },
    VersionConflict { current_version: u64 },
}

impl View for ReaderGrantError {
    type V = GrantFault;

    open spec fn view(&self) -> GrantFault {
        match *self {
            ReaderGrantError::Unauthorized => GrantFault::Unauthorized,
            ReaderGrantError::AnonymousNotAllowed => GrantFault::AnonymousNotAllowed,
            ReaderGrantError::InvalidExpiry => GrantFault::InvalidExpiry,
            ReaderGrantError::InvalidInput(text) => GrantFault::InvalidInput(text@),
            ReaderGrantError::TooManyItems { max } => GrantFault::TooManyItems { max },
            ReaderGrantError::StaleVersion { current_version } => GrantFault::StaleVersion { current_version },
            ReaderGrantError::VersionConflict { current_version } => GrantFault::VersionConflict { current_version },
        }
    }
}

/// What a check returns, given what it finds wrong.
pub open spec fn grant_checked(result: Result<(), ReaderGrantError>, fault: Option<GrantFault>) -> bool {
    match result {
        Ok(_) => fault is None,
        Err(err) => fault == Some(err@),
    }
}

/// A grant that is asked for.
#[derive(Clone, Debug, PartialEq, Eq)]
pub struct ReaderGrantSpec {
    pub subject: Principal,
    pub expires_at_ms: Option<u64>,
    pub entitlement_version: u64,
}

/// What is wrong with the subject of a grant.
pub open spec fn subject_fault(subject: Seq<u8>) -> Option<GrantFault> {
    if subject == anonymous_bytes() {
        Some(GrantFault::AnonymousNotAllowed)
    } else {
        None
    }
}

/// What is wrong with the version of a grant.
pub open spec fn version_fault(version: u64) -> Option<GrantFault> {
    if version == 0 {
        Some(GrantFault::InvalidInput("entitlement_version must be greater than 0"@))
    } else {
        None
    }
}

/// What is wrong with the end of a grant.
pub open spec fn expiry_fault(expires_at_ms: Option<u64>, now_ms: u64) -> Option<GrantFault> {
    if expires_at_ms is Some && expires_at_ms->0 <= now_ms {
        Some(GrantFault::InvalidExpiry)
    } else {
        None
    }
}

/// What is wrong with a request identifier.
pub open spec fn grant_request_fault(request_id: Seq<u8>) -> Option<GrantFault> {
    if request_id.len() == 0 || request_id.len() > MAX_READER_GRANT_REQUEST_ID_BYTES {
        Some(GrantFault::InvalidInput("request_id must contain 1 to 64 bytes"@))
    } else {
        None
    }
}

/// What is wrong with a grant that is asked for.
pub open spec fn grant_fault(subject: Seq<u8>, expires_at_ms: Option<u64>, version: u64, now_ms: u64) -> Option<
    GrantFault,
> {
    if let Some(fault) = subject_fault(subject) {
        Some(fault)
    } else if let Some(fault) = version_fault(version) {
        Some(fault)
    } else {
        expiry_fault(expires_at_ms, now_ms)
    }
}

impl ReaderGrantSpec {
    /// Checks the grant.
    pub fn validate(&self, now_ms: u64) -> (r: Result<(), ReaderGrantError>)
        ensures
            grant_checked(r, grant_fault(self.subject@, self.expires_at_ms, self.entitlement_version, now_ms)),
    {
        validate_subject(&self.subject)?;
        validate_version(self.entitlement_version)?;
        validate_expiry(self.expires_at_ms, now_ms)
    }
}

/// Asks for a grant to be made or renewed.
#[derive(Clone, Debug, PartialEq, Eq)]
pub struct UpsertReaderGrantInput {
    pub subject: Principal,
    pub expires_at_ms: Option<u64>,
    pub entitlement_version: u64,
    pub request_id: Vec<u8>,
}

impl UpsertReaderGrantInput {
    /// What is wrong with the request.
    pub open spec fn fault(&self, now_ms: u64) -> Option<GrantFault> {
        if let Some(fault) = grant_fault(self.subject@, self.expires_at_ms, self.entitlement_version, now_ms) {
            Some(fault)
        } else {
            grant_request_fault(self.request_id@)
        }
    }

    /// Checks the request.
    pub fn validate(&self, now_ms: u64) -> (r: Result<(), ReaderGrantError>)
        ensures
            grant_checked(r, self.fault(now_ms)),
    {
        validate_subject(&self.subject)?;
        validate_version(self.entitlement_version)?;
        validate_expiry(self.expires_at_ms, now_ms)?;
        validate_request_id(self.request_id.as_slice())
    }
}

/// Asks for a grant to be revoked.
#[derive(Clone, Debug, PartialEq, Eq)]
pub struct RevokeReaderGrantInput {
    pub subject: Principal,
    pub entitlement_version: u64,
    pub request_id: Vec<u8>,
}

impl RevokeReaderGrantInput {
    /// What is wrong with the request.
    pub open spec fn fault(&self) -> Option<GrantFault> {
        if let Some(fault) = subject_fault(self.subject@) {
            Some(fault)
        } else if let Some(fault) = version_fault(self.entitlement_version) {
            Some(fault)
        } else {
            grant_request_fault(self.request_id@)
        }
    }

    /// Checks the request.
    pub fn validate(&self) -> (r: Result<(), ReaderGrantError>)
        ensures
            grant_checked(r, self.fault()),
    {
        validate_subject(&self.subject)?;
        validate_version(self.entitlement_version)?;
        validate_request_id(self.request_id.as_slice())
    }
}

/// Asks for several grants at once.
#[derive(Clone, Debug, PartialEq, Eq)]
pub struct BatchUpsertReaderGrantsInput {
    pub request_id: Vec<u8>,
    pub grants: Vec<ReaderGrantSpec>,
}

impl BatchUpsertReaderGrantsInput {
    /// What is wrong with the request.
    pub open spec fn fault(&self) -> Option<GrantFault> {
        if let Some(fault) = grant_request_fault(self.request_id@) {
            Some(fault)
        } else if self.grants@.len() == 0 {
            Some(GrantFault::InvalidInput("grants must not be empty"@))
        } else if self.grants@.len() > MAX_READER_GRANT_BATCH_ITEMS {
            Some(GrantFault::TooManyItems { max: 100 })
        } else {
            None
        }
    }

    /// Checks the request.
    pub fn validate(&self) -> (r: Result<(), ReaderGrantError>)
        ensures
            grant_checked(r, self.fault()),
    {
        validate_request_id(self.request_id.as_slice())?;
        if self.grants.len() == 0 {
            return Err(ReaderGrantError::InvalidInput(owned("grants must not be empty")));
        }
        if self.grants.len() > MAX_READER_GRANT_BATCH_ITEMS {
            return Err(ReaderGrantError::TooManyItems { max: MAX_READER_GRANT_BATCH_ITEMS as u16 });
        }
        Ok(())
    }
}

/// What became of each grant of a batch.
#[derive(Clone, Debug, PartialEq, Eq)]
pub struct BatchUpsertReaderGrantsOutput {
    pub results: Vec<Result<ReaderGrant, ReaderGrantError>>,
}

fn validate_subject(subject: &Principal) -> (r: Result<(), ReaderGrantError>)
    ensures
        grant_checked(r, subject_fault(subject@)),
{
    if subject.is_anonymous() {
        return Err(ReaderGrantError::AnonymousNotAllowed);
    }
    Ok(())
}

fn validate_version(version: u64) -> (r: Result<(), ReaderGrantError>)
    ensures
        grant_checked(r, version_fault(version)),
{
    if version == 0 {
        return Err(ReaderGrantError::InvalidInput(owned("entitlement_version must be greater than 0")));
    }
    Ok(())
}

fn validate_expiry(expires_at_ms: Option<u64>, now_ms: u64) -> (r: Result<(), ReaderGrantError>)
    ensures
        grant_checked(r, expiry_fault(expires_at_ms, now_ms)),
{
    if let Some(expires_at_ms) = expires_at_ms {
        if expires_at_ms <= now_ms {
            return Err(ReaderGrantError::InvalidExpiry);
        }
    }
    Ok(())
}

fn validate_request_id(request_id: &[u8]) -> (r: Result<(), ReaderGrantError>)
    ensures
        grant_checked(r, grant_request_fault(request_id@)),
{
    if request_id.len() == 0 || request_id.len() > MAX_READER_GRANT_REQUEST_ID_BYTES {
        return Err(ReaderGrantError::InvalidInput(owned("request_id must contain 1 to 64 bytes")));
    }
    Ok(())
}

/// A grant is accepted exactly where its subject is not anonymous, its version
/// is above zero, and it ends, if it does, after the current time.
pub proof fn law_grants_are_accepted(subject: Seq<u8>, expires_at_ms: Option<u64>, version: u64, now_ms: u64)
    ensures
        grant_fault(subject, expires_at_ms, version, now_ms) is None <==> {
            &&& subject != seq![4u8]
            &&& version > 0
            &&& expires_at_ms matches Some(end) ==> end > now_ms
        },
        subject == seq![4u8] ==> grant_fault(subject, expires_at_ms, version, now_ms) == Some(
            GrantFault::AnonymousNotAllowed,
        ),
        subject != seq![4u8] && version == 0 ==> grant_fault(subject, expires_at_ms, version, now_ms) == Some(
            GrantFault::InvalidInput("entitlement_version must be greater than 0"@),
        ),
        subject != seq![4u8] && version > 0 && expires_at_ms is Some && expires_at_ms->0 <= now_ms ==> grant_fault(
            subject,
            expires_at_ms,
            version,
            now_ms,
        ) == Some(GrantFault::InvalidExpiry),
{
    assert(anonymous_bytes() =~= seq![4u8]);
}

/// A request for a grant, for its revocation or for several grants is accepted
/// exactly where the grant is and its identifier has 1 to 64 bytes; a batch has
/// 1 to 100 grants.
pub proof fn law_requests_about_grants_are_accepted(
    upsert: &UpsertReaderGrantInput,
    revoke: &RevokeReaderGrantInput,
    batch: &BatchUpsertReaderGrantsInput,
    now_ms: u64,
)
    ensures
        upsert.fault(now_ms) is None <==> {
            &&& upsert.subject@ != seq![4u8]
            &&& upsert.entitlement_version > 0
            &&& upsert.expires_at_ms matches Some(end) ==> end > now_ms
            &&& 1 <= upsert.request_id@.len() <= 64
        },
        revoke.fault() is None <==> {
            &&& revoke.subject@ != seq![4u8]
            &&& revoke.entitlement_version > 0
            &&& 1 <= revoke.request_id@.len() <= 64
        },
        batch.fault() is None <==> {
            &&& 1 <= batch.request_id@.len() <= 64
            &&& 1 <= batch.grants@.len() <= 100
        },
        1 <= batch.request_id@.len() <= 64 && batch.grants@.len() > 100 ==> batch.fault() == Some(
            GrantFault::TooManyItems { max: 100 },
        ),
        1 <= batch.request_id@.len() <= 64 && batch.grants@.len() == 0 ==> batch.fault() == Some(
            GrantFault::InvalidInput("grants must not be empty"@),
        ),
        revoke.subject@ == seq![4u8] ==> revoke.fault() == Some(GrantFault::AnonymousNotAllowed),
        upsert.subject@ == seq![4u8] ==> upsert.fault(now_ms) == Some(GrantFault::AnonymousNotAllowed),
{
    assert(anonymous_bytes() =~= seq![4u8]);
}

/// A request identifier that is refused is told as such.
pub proof fn law_identifiers_of_grant_requests_have_1_to_64_bytes(request_id: Seq<u8>)
    ensures
        grant_request_fault(request_id) is None <==> 1 <= request_id.len() <= 64,
        !(1 <= request_id.len() <= 64) ==> grant_request_fault(request_id) == Some(
            GrantFault::InvalidInput("request_id must contain 1 to 64 bytes"@),
        ),
{
}

/// A refusal is seen as the kind it is, with what it tells, and a check passes
/// exactly where nothing is wrong and otherwise tells just that.
pub proof fn law_grant_refusals_are_seen_as_they_are(err: ReaderGrantError, fault: Option<GrantFault>)
    ensures
        err is Unauthorized ==> err@ is Unauthorized,
        err is AnonymousNotAllowed ==> err@ is AnonymousNotAllowed,
        err is InvalidExpiry ==> err@ is InvalidExpiry,
        err matches ReaderGrantError::InvalidInput(text) ==> err@ == GrantFault::InvalidInput(text@),
        err matches ReaderGrantError::TooManyItems { max } ==> err@ == (GrantFault::TooManyItems { max }),
        err matches ReaderGrantError::StaleVersion { current_version } ==> err@ == (GrantFault::StaleVersion {
            current_version,
        }),
        err matches ReaderGrantError::VersionConflict { current_version } ==> err@ == (GrantFault::VersionConflict {
            current_version,
        }),
        grant_checked(Ok(()), fault) <==> fault is None,
        grant_checked(Err(err), fault) <==> fault == Some(err@),
{
}

} // verus!

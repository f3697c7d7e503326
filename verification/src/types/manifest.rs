//! The skill manifest and the laws its state must obey.

use vstd::prelude::*;
use vstd::string::*;
use crate::text::{trim_str, trim_ws};

verus! {

/// The tag of the protocol layout this engine keeps.
pub const SYSTEM_ABI_HASH: &'static str = "7e0921a4f89d23c4e9e03d156b2c5b3d";

/// Violations of the manifest laws.
#[derive(Debug)]
pub enum ConstitutionalError {
    Unmanaged(String),
    Tampered(String),
    Conflict(String),
}

/// The message of a violation.
pub open spec fn constitutional_message(e: ConstitutionalError) -> Seq<char> {
    match e {
        ConstitutionalError::Unmanaged(m) => "F1: Unmanaged - "@ + m@,
        ConstitutionalError::Tampered(m) => "F2: Tampered - "@ + m@,
        ConstitutionalError::Conflict(m) => "F3: Conflict - "@ + m@,
    }
}

impl ConstitutionalError {
    /// The human-readable message.
    pub fn to_string(&self) -> (r: String)
        ensures
            r@ == constitutional_message(*self),
    {
        let (prefix, m) = match self {
            ConstitutionalError::Unmanaged(m) => ("F1: Unmanaged - ", m),
            ConstitutionalError::Tampered(m) => ("F2: Tampered - ", m),
            ConstitutionalError::Conflict(m) => ("F3: Conflict - ", m),
        };
        let mut s = String::from_str(prefix);
        s.append(m.as_str());
        s
    }
}

/// Why a file could not be brought in, which decides how to recover.
#[derive(Debug, Clone, Copy, PartialEq, Eq, Structural)]
pub enum FailureReason {
    SyntaxError,
    UnsupportedLanguage,
    NoAnchorFound,
    FileReadError,
    InternalError,
}

/// Who a skill is.
#[derive(Debug, Clone)]
pub struct Identity {
    pub skill_id: String,
    pub skill_version: String,
}

/// The level of authority granted.
#[derive(Debug, Clone, Copy, PartialEq, Eq, Structural)]
pub enum AuthorityLevel {
    Sandbox,
    Trusted,
    Privileged,
}

/// Who granted a skill its authority, when, and whether a human agreed.
#[derive(Debug, Clone)]
pub struct Authority {
    pub issued_by: String,
    pub issued_at: u64,
    pub authority_level: AuthorityLevel,
    pub human_acknowledgement: bool,
}

/// The kind of host.
#[derive(Debug, Clone, Copy, PartialEq, Eq, Structural)]
pub enum HostType {
    Antigravity,
    Opencode,
}

/// How far a host binding reaches.
#[derive(Debug, Clone, Copy, PartialEq, Eq, Structural)]
pub enum HostScope {
    Workspace,
    Global,
}

/// The host a skill is bound to.
#[derive(Debug, Clone)]
pub struct HostBinding {
    pub host_type: HostType,
    pub host_scope: HostScope,
    pub host_signature: String,
}

/// Hashes that protect the content and the manifest.
#[derive(Debug, Clone)]
pub struct Integrity {
    pub hash_algorithm: String,
    pub content_hash: String,
    pub manifest_hash: String,
}

/// What a skill may write.
#[derive(Debug, Clone, Copy, PartialEq, Eq, Structural)]
pub struct Constraints {
    pub read_only: bool,
    pub allow_dynamic_write: bool,
}

/// The lifecycle state of a skill.
#[derive(Debug, Clone, Copy, PartialEq, Eq, Structural)]
pub enum Status {
    Active,
    Revoked,
    Archived,
}

/// A skill manifest.
#[derive(Debug, Clone)]
pub struct Manifest {
    pub manifest_version: u32,
    pub identity: Identity,
    pub authority: Authority,
    pub host_binding: HostBinding,
    pub integrity: Integrity,
    pub constraints: Constraints,
    pub status: Status,
}

/// The message for a manifest without human acknowledgement.
pub open spec fn unacknowledged_message() -> Seq<char> {
    "Invariant 1.1 Violation: Explicit Human Acknowledgement is FALSE."@
}

/// The message for a manifest with a blank host signature.
pub open spec fn blank_signature_message() -> Seq<char> {
    "Invariant 6.X Violation: Host Signature cannot be empty."@
}

impl Manifest {
    /// Checks the laws: a human must have acknowledged the grant, and the
    /// host signature must not be blank.
    pub fn validate(&self) -> (r: Result<(), ConstitutionalError>)
        ensures
            !self.authority.human_acknowledgement ==> (r matches Err(ConstitutionalError::Unmanaged(m))
                && m@ == unacknowledged_message()),
            self.authority.human_acknowledgement && trim_ws(self.host_binding.host_signature@).len() == 0
                ==> (r matches Err(ConstitutionalError::Unmanaged(m)) && m@ == blank_signature_message()),
            self.authority.human_acknowledgement && trim_ws(self.host_binding.host_signature@).len() != 0
                ==> r is Ok,
    {
        if !self.authority.human_acknowledgement {
            return Err(ConstitutionalError::Unmanaged(String::from_str(
                "Invariant 1.1 Violation: Explicit Human Acknowledgement is FALSE.",
            )));
        }
        let t = trim_str(self.host_binding.host_signature.as_str());
        if t.as_str().unicode_len() == 0 {
            return Err(ConstitutionalError::Unmanaged(String::from_str(
                "Invariant 6.X Violation: Host Signature cannot be empty.",
            )));
        }
        Ok(())
    }
}

} // verus!

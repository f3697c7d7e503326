//! Node identities: a 128-bit hash of the parent's identity, the node's
//! role and its anchor, with a secondary hash to detect collisions.

use vstd::prelude::*;
use vstd::string::*;
use vstd::utf8::encode_utf8;
use crate::text::{append_bytes, le_bytes, le_value, push_le_bytes, u128_from_le_prefix};
use crate::types::collision::NodeFingerprint;
use crate::types::hash::{sha256_digest, sha256_of, xxh3_64_hash, xxh3_of};
use crate::types::identity_anchor::{anchor_bytes, IdentityAnchor};
use crate::types::semantic_role::{role_code, SemanticRole};
use crate::types::version::HashVersion;

verus! {

/// A node identity; zero is the invalid identity.
#[derive(Debug, Clone, Copy, PartialEq, Eq, PartialOrd, Ord, Hash, Structural)]
pub struct NodeId(pub u128);

/// The value of the virtual root that sets apart the roots of different
/// files.
pub const DOMAIN_ROOT_VALUE: u128 = 0xDFD0_DFD0_DFD0_DFD0_DFD0_DFD0_DFD0_DFD0u128;

impl Default for NodeId {
    fn default() -> (r: Self)
        ensures
            r == NodeId(0),
    {
        NodeId(0)
    }
}

/// The bytes a node identity is hashed from: a domain tag, the rule
/// versions, the parent (or a root marker), the role code and the anchor.
pub open spec fn identity_preimage(parent: Option<NodeId>, role: SemanticRole, anchor: Seq<u8>) -> Seq<u8> {
    encode_utf8("NODEID_v1"@) + le_bytes(1, 4) + le_bytes(1, 4) + le_bytes(1, 4)
        + match parent {
            Some(p) => encode_utf8("PARENT"@) + le_bytes(p.0 as nat, 16),
            None => encode_utf8("ROOT_NODE"@),
        }
        + le_bytes(role_code(role) as nat, 2) + anchor
}

/// `x`, or one where `x` is zero.
pub open spec fn nonzero_u128(x: nat) -> u128 {
    if x == 0 { 1 } else { x as u128 }
}

/// `x`, or one where `x` is zero.
pub open spec fn nonzero_u64(x: u64) -> u64 {
    if x == 0 { 1 } else { x }
}

impl NodeId {
    /// The invalid identity.
    pub fn invalid() -> (r: Self)
        ensures
            r == NodeId(0),
    {
        NodeId(0)
    }

    /// The virtual root of the workspace.
    pub fn domain_root() -> (r: Self)
        ensures
            r == NodeId(DOMAIN_ROOT_VALUE),
    {
        NodeId(DOMAIN_ROOT_VALUE)
    }

    pub fn is_valid(&self) -> (r: bool)
        ensures
            r == (self.0 != 0),
    {
        self.0 != 0
    }

    /// The identity of a node: the first 16 bytes, little-endian, of the
    /// SHA-256 of its preimage, and as fingerprint that identity with the
    /// XXH3 hash of the anchor; zero becomes one in both.
    pub fn generate(parent_id: Option<NodeId>, role: SemanticRole, anchor: &IdentityAnchor) -> (r: (Self, NodeFingerprint))
        requires
            anchor matches IdentityAnchor::Operator(kind, _) ==> encode_utf8(kind@).len() <= u32::MAX,
        ensures
            r.0.0 == nonzero_u128(le_value(sha256_of(identity_preimage(parent_id, role, anchor_bytes(*anchor))).take(16))),
            r.1.primary == r.0.0,
            r.1.secondary == nonzero_u64(xxh3_of(anchor_bytes(*anchor))),
            r.0.0 != 0,
            r.1.secondary != 0,
    {
        let version = HashVersion::current();
        let mut pre: Vec<u8> = Vec::new();
        append_bytes(&mut pre, "NODEID_v1".as_bytes());
        push_le_bytes(&mut pre, version.semantic_role_version as u128, 4);
        push_le_bytes(&mut pre, version.hash_algo_version as u128, 4);
        push_le_bytes(&mut pre, version.canonicalization_version as u128, 4);
        match parent_id {
            Some(pid) => {
                append_bytes(&mut pre, "PARENT".as_bytes());
                push_le_bytes(&mut pre, pid.0, 16);
            },
            None => {
                append_bytes(&mut pre, "ROOT_NODE".as_bytes());
            },
        }
        push_le_bytes(&mut pre, role.code() as u128, 2);
        let ab = anchor.to_stable_bytes();
        append_bytes(&mut pre, ab.as_slice());
        assert(pre@ =~= identity_preimage(parent_id, role, anchor_bytes(*anchor)));
        let digest = sha256_digest(pre.as_slice());
        let primary = u128_from_le_prefix(digest.as_slice());
        let secondary = xxh3_64_hash(ab.as_slice());
        let secondary = if secondary == 0 { 1 } else { secondary };
        let id_val = if primary == 0 { 1 } else { primary };
        (NodeId(id_val), NodeFingerprint::new(id_val, secondary))
    }
}

} // verus!

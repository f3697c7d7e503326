//! Authorization of verified certificates: issuer identities, policy
//! digests, a revocation registry and a static trust policy.

use vstd::prelude::*;
use vstd::string::*;
use crate::base::KnowledgeMutation;
use crate::pek::{Attestation, VerifiedCertificate};
use crate::text::{debug_quoted, debug_string};

verus! {

/// An issuer identity.
#[derive(Debug, Hash, PartialEq, Eq)]
pub struct IdentityId(pub String);

impl Clone for IdentityId {
    fn clone(&self) -> (r: Self)
        ensures
            r == *self,
    {
        IdentityId(self.0.clone())
    }
}

impl View for IdentityId {
    type V = Seq<char>;

    open spec fn view(&self) -> Seq<char> {
        self.0@
    }
}

/// Digest of the policy under which a certificate was authorized.
#[derive(Debug, Hash, PartialEq, Eq)]
pub struct PolicyDigest(pub String);

impl Clone for PolicyDigest {
    fn clone(&self) -> (r: Self)
        ensures
            r == *self,
    {
        PolicyDigest(self.0.clone())
    }
}

/// Who authorized a certificate, and under which policy.
#[derive(Debug)]
pub struct AuthorityContext {
    pub issuer: IdentityId,
    pub policy_digest: PolicyDigest,
}

impl Clone for AuthorityContext {
    fn clone(&self) -> (r: Self)
        ensures
            r == *self,
    {
        AuthorityContext { issuer: self.issuer.clone(), policy_digest: self.policy_digest.clone() }
    }
}

/// A certificate that has been verified and authorized; the only kind the
/// runtime admits.
#[derive(Debug, Clone)]
pub struct AuthorizedCertificate {
    inner: VerifiedCertificate,
    authority: AuthorityContext,
}

impl AuthorizedCertificate {
    pub closed spec fn spec_inner(&self) -> VerifiedCertificate {
        self.inner
    }

    pub closed spec fn spec_authority(&self) -> AuthorityContext {
        self.authority
    }

    pub fn new(verified: VerifiedCertificate, authority: AuthorityContext) -> (r: Self)
        ensures
            r.spec_inner() == verified,
            r.spec_authority() == authority,
    {
        Self { inner: verified, authority }
    }

    pub fn claim_id(&self) -> (r: &str)
        ensures
            r@ == self.spec_inner().spec_claim_id(),
    {
        self.inner.claim_id()
    }

    pub fn proof_hash(&self) -> (r: &[u8; 32])
        ensures
            r@ == self.spec_inner().spec_proof_hash(),
    {
        self.inner.proof_hash()
    }

    pub fn issuer(&self) -> (r: &IdentityId)
        ensures
            *r == self.spec_authority().issuer,
    {
        &self.authority.issuer
    }

    pub fn policy_digest(&self) -> (r: &PolicyDigest)
        ensures
            *r == self.spec_authority().policy_digest,
    {
        &self.authority.policy_digest
    }

    pub fn authority(&self) -> (r: &AuthorityContext)
        ensures
            *r == self.spec_authority(),
    {
        &self.authority
    }
}

impl Attestation for AuthorizedCertificate {
    open spec fn spec_verified(&self) -> bool {
        true
    }

    fn verify(&self) -> (r: bool) {
        true
    }
}

/// A mutation bound to its authorized certificate.
#[derive(Debug, Clone)]
pub struct AuthorizedMutation {
    pub mutation: KnowledgeMutation,
    pub certificate: AuthorizedCertificate,
}

impl AuthorizedMutation {
    pub fn new(mutation: KnowledgeMutation, certificate: AuthorizedCertificate) -> (r: Self)
        ensures
            r.mutation == mutation,
            r.certificate == certificate,
    {
        Self { mutation, certificate }
    }
}

/// Decides whether a verified certificate is authorized.
pub trait TrustEvaluator {
    fn authorize(&self, cert: VerifiedCertificate) -> Result<AuthorizedCertificate, String>;
}

/// Some identity in `v` has the character sequence `s`.
pub open spec fn ids_contain(v: Seq<IdentityId>, s: Seq<char>) -> bool {
    exists|k: int| 0 <= k < v.len() && v[k]@ == s
}

proof fn lemma_ids_contain_push(v: Seq<IdentityId>, x: IdentityId, s: Seq<char>)
    ensures
        ids_contain(v.push(x), s) == (ids_contain(v, s) || x@ == s),
{
    if ids_contain(v, s) {
        let k = choose|k: int| 0 <= k < v.len() && v[k]@ == s;
        assert(v.push(x)[k]@ == s);
    }
    if x@ == s {
        assert(v.push(x)[v.len() as int]@ == s);
    }
    if ids_contain(v.push(x), s) && x@ != s {
        let k = choose|k: int| 0 <= k < v.push(x).len() && v.push(x)[k]@ == s;
        assert(v[k]@ == s);
    }
}

proof fn lemma_ids_contain_set(v: Seq<IdentityId>, s: Seq<char>)
    ensures
        Set::new(|t: Seq<char>| ids_contain(v, t)).contains(s) == ids_contain(v, s),
{
}

/// A set of revoked identities.
#[derive(Debug, Default)]
pub struct RevocationRegistry {
    revoked: Vec<IdentityId>,
}

impl RevocationRegistry {
    /// The revoked identities.
    pub closed spec fn spec_revoked(&self) -> Set<Seq<char>> {
        Set::new(|s: Seq<char>| ids_contain(self.revoked@, s))
    }

    pub fn new() -> (r: Self)
        ensures
            r.spec_revoked() == Set::<Seq<char>>::empty(),
    {
        let r = Self { revoked: Vec::new() };
        assert(r.spec_revoked() =~= Set::<Seq<char>>::empty());
        r
    }

    pub fn revoke(&mut self, identity: IdentityId)
        ensures
            final(self).spec_revoked() == old(self).spec_revoked().insert(identity@),
    {
        let ghost id = identity@;
        let ghost x = identity;
        self.revoked.push(identity);
        assert forall|s: Seq<char>| #[trigger] self.spec_revoked().contains(s)
            == old(self).spec_revoked().insert(id).contains(s) by {
            lemma_ids_contain_push(old(self).revoked@, x, s);
        }
        assert(self.spec_revoked() =~= old(self).spec_revoked().insert(id));
    }

    pub fn unrevoke(&mut self, identity: &IdentityId)
        ensures
            final(self).spec_revoked() == old(self).spec_revoked().remove(identity@),
    {
        let mut kept: Vec<IdentityId> = Vec::new();
        let mut i: usize = 0;
        while i < self.revoked.len()
            invariant
                i <= self.revoked@.len(),
                forall|s: Seq<char>| #[trigger] ids_contain(kept@, s) == (s != identity@
                    && ids_contain(self.revoked@.take(i as int), s)),
            decreases self.revoked@.len() - i,
        {
            let ghost before = kept@;
            let ghost prefix = self.revoked@.take(i as int);
            let ghost next = self.revoked@.take(i + 1);
            assert(next =~= prefix.push(self.revoked@[i as int]));
            if !(self.revoked[i].0 == identity.0) {
                kept.push(self.revoked[i].clone());
                assert(kept@ =~= before.push(self.revoked@[i as int]));
            }
            assert forall|s: Seq<char>| #[trigger] ids_contain(kept@, s) == (s != identity@
                && ids_contain(next, s)) by {
                lemma_ids_contain_push(prefix, self.revoked@[i as int], s);
                if kept@.len() > before.len() {
                    lemma_ids_contain_push(before, self.revoked@[i as int], s);
                }
            }
            i = i + 1;
        }
        assert(self.revoked@.take(self.revoked@.len() as int) =~= self.revoked@);
        self.revoked = kept;
        assert forall|s: Seq<char>| #[trigger] self.spec_revoked().contains(s) == old(self).spec_revoked().remove(identity@).contains(s) by {
            lemma_ids_contain_set(self.revoked@, s);
            lemma_ids_contain_set(old(self).revoked@, s);
        }
        assert(self.spec_revoked() =~= old(self).spec_revoked().remove(identity@));
    }

    pub fn is_revoked(&self, identity: &IdentityId) -> (r: bool)
        ensures
            r == self.spec_revoked().contains(identity@),
    {
        proof { lemma_ids_contain_set(self.revoked@, identity@); }
        let mut i: usize = 0;
        while i < self.revoked.len()
            invariant
                i <= self.revoked@.len(),
                forall|k: int| 0 <= k < i ==> self.revoked@[k]@ != identity@,
            decreases self.revoked@.len() - i,
        {
            if self.revoked[i].0 == identity.0 {
                return true;
            }
            i = i + 1;
        }
        false
    }
}

/// The refusal message for a revoked issuer.
pub open spec fn revoked_message(issuer: Seq<char>) -> Seq<char> {
    "Issuer IdentityId("@ + debug_quoted(issuer) + ") has been revoked"@
}

/// A fixed policy: one trusted issuer and one policy digest.
pub struct StaticTrustPolicy {
    pub trusted_issuer: IdentityId,
    pub policy_digest: PolicyDigest,
    pub revocation: RevocationRegistry,
}

impl StaticTrustPolicy {
    pub fn new(trusted_issuer: IdentityId, policy_digest: PolicyDigest) -> (r: Self)
        ensures
            r.trusted_issuer == trusted_issuer,
            r.policy_digest == policy_digest,
            r.revocation.spec_revoked() == Set::<Seq<char>>::empty(),
    {
        Self { trusted_issuer, policy_digest, revocation: RevocationRegistry::new() }
    }
}

impl TrustEvaluator for StaticTrustPolicy {
    /// Refuses when the trusted issuer is revoked; otherwise binds the
    /// certificate to the trusted issuer and the policy digest.
    fn authorize(&self, cert: VerifiedCertificate) -> (r: Result<AuthorizedCertificate, String>)
        ensures
            self.revocation.spec_revoked().contains(self.trusted_issuer@) ==> (r matches Err(m)
                && m@ == revoked_message(self.trusted_issuer@)),
            !self.revocation.spec_revoked().contains(self.trusted_issuer@) ==> (r matches Ok(a)
                && a.spec_inner() == cert
                && a.spec_authority().issuer == self.trusted_issuer
                && a.spec_authority().policy_digest == self.policy_digest),
    {
        let issuer = &self.trusted_issuer;
        if self.revocation.is_revoked(issuer) {
            let mut m = String::from_str("Issuer IdentityId(");
            let q = debug_string(issuer.0.as_str());
            m.append(q.as_str());
            m.append(") has been revoked");
            return Err(m);
        }
        let authority = AuthorityContext {
            issuer: issuer.clone(),
            policy_digest: self.policy_digest.clone(),
        };
        Ok(AuthorizedCertificate::new(cert, authority))
    }
}

} // verus!

//! The proof gate: admission of mutations according to a proof policy and
//! an attestation, with admission statistics.

use vstd::prelude::*;
use vstd::string::*;
use crate::base::{CommitReceipt, KnowledgeMutation, MutationId};
use crate::text::{bump, debug_quoted, debug_string, has_prefix, starts_with};

verus! {

/// Evidence attached to a mutation request.
pub trait Attestation {
    /// Whether the attestation verifies.
    spec fn spec_verified(&self) -> bool;

    fn verify(&self) -> (r: bool)
        ensures
            r == self.spec_verified(),
    ;
}

/// A proof certificate, not yet verified.
#[derive(Debug, Clone)]
pub struct ProofCertificate {
    claim_id: String,
    proof_hash: [u8; 32],
    pcf_version: u32,
}

/// All bytes of the hash are zero.
pub open spec fn is_zero_hash(h: Seq<u8>) -> bool {
    forall|i: int| 0 <= i < h.len() ==> h[i] == 0
}

/// A certificate passes verification exactly when its hash is not all
/// zero and its format version is 1.
pub open spec fn certificate_valid(hash: Seq<u8>, version: u32) -> bool {
    !is_zero_hash(hash) && version == 1
}

/// A certificate that has passed verification; built only by
/// `ProofCertificate::verify`.
#[derive(Debug, Clone)]
pub struct VerifiedCertificate(ProofCertificate);

impl VerifiedCertificate {
    pub closed spec fn spec_claim_id(&self) -> Seq<char> {
        self.0.claim_id@
    }

    pub closed spec fn spec_proof_hash(&self) -> Seq<u8> {
        self.0.proof_hash@
    }

    pub closed spec fn spec_pcf_version(&self) -> u32 {
        self.0.pcf_version
    }

    pub fn claim_id(&self) -> (r: &str)
        ensures
            r@ == self.spec_claim_id(),
    {
        self.0.claim_id.as_str()
    }

    pub fn proof_hash(&self) -> (r: &[u8; 32])
        ensures
            r@ == self.spec_proof_hash(),
    {
        &self.0.proof_hash
    }

    pub fn pcf_version(&self) -> (r: u32)
        ensures
            r == self.spec_pcf_version(),
    {
        self.0.pcf_version
    }
}

impl ProofCertificate {
    pub closed spec fn spec_claim_id(&self) -> Seq<char> {
        self.claim_id@
    }

    pub closed spec fn spec_proof_hash(&self) -> Seq<u8> {
        self.proof_hash@
    }

    pub closed spec fn spec_pcf_version(&self) -> u32 {
        self.pcf_version
    }

    pub fn new(claim_id: String, proof_hash: [u8; 32], pcf_version: u32) -> (r: Self)
        ensures
            r.spec_claim_id() == claim_id@,
            r.spec_proof_hash() == proof_hash@,
            r.spec_pcf_version() == pcf_version,
    {
        Self { claim_id, proof_hash, pcf_version }
    }

    pub fn claim_id(&self) -> (r: &str)
        ensures
            r@ == self.spec_claim_id(),
    {
        self.claim_id.as_str()
    }

    pub fn proof_hash(&self) -> (r: &[u8; 32])
        ensures
            r@ == self.spec_proof_hash(),
    {
        &self.proof_hash
    }

    pub fn pcf_version(&self) -> (r: u32)
        ensures
            r == self.spec_pcf_version(),
    {
        self.pcf_version
    }

    /// Verifies the certificate, consuming it: `Ok` exactly when the hash is
    /// not all zero and the version is 1, and then the verified certificate
    /// carries the same claim, hash and version.
    pub fn verify(self) -> (r: Result<VerifiedCertificate, PEKError>)
        ensures
            r is Ok <==> certificate_valid(self.spec_proof_hash(), self.spec_pcf_version()),
            r matches Ok(v) ==> v.spec_claim_id() == self.spec_claim_id()
                && v.spec_proof_hash() == self.spec_proof_hash()
                && v.spec_pcf_version() == self.spec_pcf_version(),
            r matches Err(e) ==> e == PEKError::InvalidAttestation,
    {
        let mut zero = true;
        let mut i: usize = 0;
        while i < 32
            invariant
                i <= 32,
                self.proof_hash@.len() == 32,
                zero == (forall|k: int| 0 <= k < i ==> self.proof_hash@[k] == 0),
            decreases 32 - i,
        {
            if self.proof_hash[i] != 0 {
                zero = false;
            }
            i = i + 1;
        }
        if !zero && self.pcf_version == 1 {
            Ok(VerifiedCertificate(self))
        } else {
            Err(PEKError::InvalidAttestation)
        }
    }
}

/// Kernel-issued attestations.
#[derive(Debug, Clone, Copy)]
pub enum SystemProof {
    BootstrapKernel,
    GCReconciliation,
    SchemaMigration,
    RuntimeInvariantRepair,
    /// Verified in every build, for tests; the daemon does not expose it.
    Test,
}

impl Attestation for SystemProof {
    open spec fn spec_verified(&self) -> bool {
        true
    }

    fn verify(&self) -> (r: bool) {
        true
    }
}

/// How strictly attestations are enforced.
#[derive(Debug, Clone, Copy, PartialEq, Eq, PartialOrd, Ord, Structural)]
pub enum ProofPolicy {
    Disabled,
    Advisory,
    Enforced,
    StrictCanonical,
}

/// A single mutation with its attestation.
pub struct MutationRequest<A: Attestation> {
    pub mutation: KnowledgeMutation,
    pub attestation: A,
}

impl<A: Attestation> MutationRequest<A> {
    pub fn new(mutation: KnowledgeMutation, attestation: A) -> (r: Self)
        ensures
            r.mutation == mutation,
            r.attestation == attestation,
    {
        Self { mutation, attestation }
    }
}

/// A batch of mutations under one attestation.
pub struct TransactionRequest<A: Attestation> {
    pub mutations: Vec<KnowledgeMutation>,
    pub attestation: A,
}

impl<A: Attestation> TransactionRequest<A> {
    pub fn new(mutations: Vec<KnowledgeMutation>, attestation: A) -> (r: Self)
        ensures
            r.mutations == mutations,
            r.attestation == attestation,
    {
        Self { mutations, attestation }
    }
}

/// Why a mutation was refused admission.
#[derive(Debug, PartialEq)]
pub enum PEKError {
    InvalidAttestation,
    PolicyViolation(String),
    RuntimeError(String),
}

/// Admission counters.
#[derive(Default, Debug)]
pub struct PEKStats {
    pub admitted_count: u64,
    pub rejected_count: u64,
    pub advisory_warnings: u64,
}

impl PEKStats {
    pub fn new() -> (r: Self)
        ensures
            r.admitted_count == 0,
            r.rejected_count == 0,
            r.advisory_warnings == 0,
    {
        Self { admitted_count: 0, rejected_count: 0, advisory_warnings: 0 }
    }

    pub fn reset(&mut self)
        ensures
            final(self).admitted_count == 0,
            final(self).rejected_count == 0,
            final(self).advisory_warnings == 0,
    {
        self.admitted_count = 0;
        self.rejected_count = 0;
        self.advisory_warnings = 0;
    }
}

/// The layer that applies admitted mutations.
pub trait EpistemicExecutor: Sized {
    /// Applying `m` to `self` may leave `after` and answer `r`; an
    /// executor that says nothing more allows any outcome.
    open spec fn spec_execute(&self, m: KnowledgeMutation, after: Self, r: Result<CommitReceipt, String>) -> bool {
        true
    }

    /// Applying the batch `ms` to `self` may leave `after` and answer `r`;
    /// an executor that says nothing more allows any outcome.
    open spec fn spec_execute_transaction(&self, ms: Seq<KnowledgeMutation>, after: Self, r: Result<Vec<CommitReceipt>, String>) -> bool {
        true
    }

    fn execute(&mut self, mutation: KnowledgeMutation) -> (r: Result<CommitReceipt, String>)
        ensures
            old(self).spec_execute(mutation, *final(self), r);

    fn execute_transaction(&mut self, mutations: Vec<KnowledgeMutation>) -> (r: Result<Vec<CommitReceipt>, String>)
        ensures
            old(self).spec_execute_transaction(mutations@, *final(self), r);
}

/// A mutation identifier is canonical when it starts with `mut_`.
pub open spec fn canonical_id(id: Seq<char>) -> bool {
    has_prefix(id, "mut_"@)
}

/// The refusal message for a non-canonical mutation under `StrictCanonical`.
pub open spec fn noncanonical_message(id: Seq<char>) -> Seq<char> {
    "MutationId 'MutationId("@ + debug_quoted(id)
        + ")' không đạt tiêu chuẩn chuẩn tắc (Bắt buộc phải có tiền tố 'mut_')"@
}

/// The refusal message for a transaction holding a non-canonical mutation.
pub open spec fn noncanonical_tx_message(id: Seq<char>) -> Seq<char> {
    "Giao dịch bị từ chối: MutationId 'MutationId("@ + debug_quoted(id) + ")' không chuẩn tắc."@
}

/// The policy refuses a request whose attestation does not verify.
pub open spec fn refuses_attestation(policy: ProofPolicy, verified: bool) -> bool {
    !verified && (policy == ProofPolicy::Enforced || policy == ProofPolicy::StrictCanonical)
}

/// `i` is the position of the first non-canonical mutation.
pub open spec fn is_first_noncanonical(ms: Seq<KnowledgeMutation>, i: int) -> bool {
    0 <= i < ms.len() && !canonical_id(ms[i].mutation_id@)
        && forall|j: int| 0 <= j < i ==> canonical_id(ms[j].mutation_id@)
}

/// Index of the first non-canonical mutation, if any.
pub open spec fn first_noncanonical(ms: Seq<KnowledgeMutation>) -> Option<int> {
    if exists|i: int| is_first_noncanonical(ms, i) {
        Some(choose|i: int| is_first_noncanonical(ms, i))
    } else {
        None
    }
}

/// Admission control between callers and the executor.
pub struct ProofGate;

impl ProofGate {
    /// Admits or refuses one mutation under `policy`.
    /// Refusals leave the executor untouched and count one rejection; an
    /// admission counts one admission (and a warning under `Advisory` when
    /// the attestation fails) and hands the mutation to the executor, whose
    /// failure becomes `RuntimeError`.
    pub fn commit<A: Attestation, E: EpistemicExecutor>(
        request: MutationRequest<A>,
        policy: ProofPolicy,
        executor: &mut E,
        stats: &mut PEKStats,
    ) -> (r: Result<CommitReceipt, PEKError>)
        ensures
            ({
                let verified = request.attestation.spec_verified();
                let canonical = canonical_id(request.mutation.mutation_id@);
                if refuses_attestation(policy, verified) {
                    &&& r == Err::<CommitReceipt, PEKError>(PEKError::InvalidAttestation)
                    &&& *final(executor) == *old(executor)
                    &&& final(stats).rejected_count == bump(old(stats).rejected_count, 1)
                    &&& final(stats).admitted_count == old(stats).admitted_count
                    &&& final(stats).advisory_warnings == old(stats).advisory_warnings
                } else if policy == ProofPolicy::StrictCanonical && !canonical {
                    &&& r matches Err(PEKError::PolicyViolation(m))
                    &&& (r matches Err(PEKError::PolicyViolation(m)) ==> m@ == noncanonical_message(
                        request.mutation.mutation_id@))
                    &&& *final(executor) == *old(executor)
                    &&& final(stats).rejected_count == bump(old(stats).rejected_count, 1)
                    &&& final(stats).admitted_count == old(stats).admitted_count
                    &&& final(stats).advisory_warnings == old(stats).advisory_warnings
                } else {
                    &&& match r {
                        Ok(receipt) => old(executor).spec_execute(request.mutation, *final(executor), Ok(receipt)),
                        Err(PEKError::RuntimeError(e)) => old(executor).spec_execute(request.mutation, *final(executor), Err(e)),
                        Err(_) => false,
                    }
                    &&& final(stats).admitted_count == bump(old(stats).admitted_count, 1)
                    &&& final(stats).rejected_count == old(stats).rejected_count
                    &&& final(stats).advisory_warnings == if policy == ProofPolicy::Advisory
                        && !verified {
                        bump(old(stats).advisory_warnings, 1)
                    } else {
                        old(stats).advisory_warnings
                    }
                }
            }),
    {
        let is_verified = request.attestation.verify();
        if (policy == ProofPolicy::Enforced || policy == ProofPolicy::StrictCanonical) && !is_verified {
            stats.rejected_count = stats.rejected_count.wrapping_add(1);
            return Err(PEKError::InvalidAttestation);
        }
        if policy == ProofPolicy::StrictCanonical && !Self::is_canonical(&request.mutation) {
            stats.rejected_count = stats.rejected_count.wrapping_add(1);
            return Err(PEKError::PolicyViolation(Self::noncanonical(&request.mutation.mutation_id)));
        }
        if policy == ProofPolicy::Advisory && !is_verified {
            stats.advisory_warnings = stats.advisory_warnings.wrapping_add(1);
        }
        stats.admitted_count = stats.admitted_count.wrapping_add(1);
        match executor.execute(request.mutation) {
            Ok(receipt) => Ok(receipt),
            Err(err) => Err(PEKError::RuntimeError(err)),
        }
    }

    /// Admits or refuses a batch under `policy`, as `commit` does for one
    /// mutation; an admission counts one admission per mutation, and under
    /// `StrictCanonical` the first non-canonical mutation refuses the batch.
    pub fn commit_transaction<A: Attestation, E: EpistemicExecutor>(
        request: TransactionRequest<A>,
        policy: ProofPolicy,
        executor: &mut E,
        stats: &mut PEKStats,
    ) -> (r: Result<Vec<CommitReceipt>, PEKError>)
        ensures
            ({
                let verified = request.attestation.spec_verified();
                let ms = request.mutations@;
                let n = ms.len() as u64;
                if refuses_attestation(policy, verified) {
                    &&& r == Err::<Vec<CommitReceipt>, PEKError>(PEKError::InvalidAttestation)
                    &&& *final(executor) == *old(executor)
                    &&& final(stats).rejected_count == bump(old(stats).rejected_count, 1)
                    &&& final(stats).admitted_count == old(stats).admitted_count
                    &&& final(stats).advisory_warnings == old(stats).advisory_warnings
                } else if policy == ProofPolicy::StrictCanonical && first_noncanonical(ms) is Some {
                    &&& r matches Err(PEKError::PolicyViolation(m))
                    &&& (r matches Err(PEKError::PolicyViolation(m)) ==> m@ == noncanonical_tx_message(
                        ms[first_noncanonical(ms)->0].mutation_id@))
                    &&& *final(executor) == *old(executor)
                    &&& final(stats).rejected_count == bump(old(stats).rejected_count, 1)
                    &&& final(stats).admitted_count == old(stats).admitted_count
                    &&& final(stats).advisory_warnings == old(stats).advisory_warnings
                } else {
                    &&& match r {
                        Ok(receipts) => old(executor).spec_execute_transaction(ms, *final(executor), Ok(receipts)),
                        Err(PEKError::RuntimeError(e)) => old(executor).spec_execute_transaction(ms, *final(executor), Err(e)),
                        Err(_) => false,
                    }
                    &&& final(stats).admitted_count == bump(old(stats).admitted_count, n)
                    &&& final(stats).rejected_count == old(stats).rejected_count
                    &&& final(stats).advisory_warnings == if policy == ProofPolicy::Advisory
                        && !verified {
                        bump(old(stats).advisory_warnings, 1)
                    } else {
                        old(stats).advisory_warnings
                    }
                }
            }),
    {
        let is_verified = request.attestation.verify();
        if (policy == ProofPolicy::Enforced || policy == ProofPolicy::StrictCanonical) && !is_verified {
            stats.rejected_count = stats.rejected_count.wrapping_add(1);
            return Err(PEKError::InvalidAttestation);
        }
        if policy == ProofPolicy::StrictCanonical {
            let mut i: usize = 0;
            while i < request.mutations.len()
                invariant
                    i <= request.mutations@.len(),
                    *stats == *old(stats),
                    *executor == *old(executor),
                    policy == ProofPolicy::StrictCanonical,
                    is_verified == request.attestation.spec_verified(),
                    is_verified,
                    forall|j: int| 0 <= j < i ==> canonical_id(#[trigger] request.mutations@[j].mutation_id@),
                decreases request.mutations@.len() - i,
            {
                if !Self::is_canonical(&request.mutations[i]) {
                    proof {
                        let ms = request.mutations@;
                        assert(is_first_noncanonical(ms, i as int));
                        let c = first_noncanonical(ms)->0;
                        assert(c == i) by {
                            if c < i {
                                assert(canonical_id(ms[c].mutation_id@));
                            }
                            if c > i {
                                assert(!canonical_id(ms[i as int].mutation_id@));
                            }
                        }
                    }
                    stats.rejected_count = stats.rejected_count.wrapping_add(1);
                    let msg = Self::noncanonical_tx(&request.mutations[i].mutation_id);
                    return Err(PEKError::PolicyViolation(msg));
                }
                i = i + 1;
            }
            assert forall|k: int| !is_first_noncanonical(request.mutations@, k) by {
                if 0 <= k < request.mutations@.len() {
                    assert(canonical_id(request.mutations@[k].mutation_id@));
                }
            }
            assert(first_noncanonical(request.mutations@) is None);
        }
        if policy == ProofPolicy::Advisory && !is_verified {
            stats.advisory_warnings = stats.advisory_warnings.wrapping_add(1);
        }
        stats.admitted_count = stats.admitted_count.wrapping_add(request.mutations.len() as u64);
        match executor.execute_transaction(request.mutations) {
            Ok(receipts) => Ok(receipts),
            Err(err) => Err(PEKError::RuntimeError(err)),
        }
    }

    /// A mutation is canonical when its identifier starts with `mut_`.
    pub fn is_canonical(mutation: &KnowledgeMutation) -> (r: bool)
        ensures
            r == canonical_id(mutation.mutation_id@),
    {
        starts_with(mutation.mutation_id.0.as_str(), "mut_")
    }

    fn noncanonical(id: &MutationId) -> (m: String)
        ensures
            m@ == noncanonical_message(id@),
    {
        let mut m = String::from_str("MutationId 'MutationId(");
        let q = debug_string(id.0.as_str());
        m.append(q.as_str());
        m.append(")' không đạt tiêu chuẩn chuẩn tắc (Bắt buộc phải có tiền tố 'mut_')");
        m
    }

    fn noncanonical_tx(id: &MutationId) -> (m: String)
        ensures
            m@ == noncanonical_tx_message(id@),
    {
        let mut m = String::from_str("Giao dịch bị từ chối: MutationId 'MutationId(");
        let q = debug_string(id.0.as_str());
        m.append(q.as_str());
        m.append(")' không chuẩn tắc.");
        m
    }
}

} // verus!

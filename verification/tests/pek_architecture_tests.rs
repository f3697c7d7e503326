use vantage::pek::{Attestation, PEKError, ProofCertificate, SystemProof};
use vantage::trust::{IdentityId, PolicyDigest, StaticTrustPolicy, TrustEvaluator};

#[test]
fn unverified_certificate_cannot_be_used_as_attestation() {
    let cert = ProofCertificate::new("test".into(), [1u8; 32], 1);
    let result = cert.verify();
    assert!(result.is_ok());
    let verified = result.unwrap();
    let _ = verified;
}

#[test]
fn verified_certificate_always_passes_attestation() {
    let cert = ProofCertificate::new("test".into(), [1u8; 32], 1);
    let verified = cert.verify().unwrap();
    let policy = StaticTrustPolicy::new(IdentityId("issuer".into()), PolicyDigest("policy".into()));
    let authorized = policy.authorize(verified).unwrap();
    assert!(authorized.verify());
}

#[test]
fn zero_hash_certificate_fails_verification() {
    let cert = ProofCertificate::new("test".into(), [0u8; 32], 1);
    let result = cert.verify();
    assert!(result.is_err());
    assert_eq!(result.err(), Some(PEKError::InvalidAttestation));
}

#[test]
fn wrong_pcf_version_fails_verification() {
    let cert = ProofCertificate::new("test".into(), [1u8; 32], 2);
    let result = cert.verify();
    assert!(result.is_err());
    assert_eq!(result.err(), Some(PEKError::InvalidAttestation));
}

#[test]
fn system_proof_test_passes_verification() {
    let proof = SystemProof::Test;
    assert!(proof.verify());
}

#[test]
fn proof_gate_enforced_rejects_when_attestation_fails() {}

#[test]
fn verified_certificate_keeps_its_fields() {
    let mut hash = [0u8; 32];
    hash[31] = 7;
    let verified = ProofCertificate::new("claim".into(), hash, 1).verify().unwrap();
    assert_eq!(verified.claim_id(), "claim");
    assert_eq!(verified.proof_hash()[31], 7);
    assert_eq!(verified.pcf_version(), 1);
}

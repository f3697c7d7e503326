use std::time::SystemTime;
use vantage::base::{AgentId, KnowledgeMutation, MutationId, MutationOp, ResourceId};
use vantage::pek::{Attestation, ProofCertificate, VerifiedCertificate};
use vantage::trust::{AuthorizedMutation, IdentityId, PolicyDigest, RevocationRegistry, StaticTrustPolicy, TrustEvaluator};

fn make_verified_cert() -> VerifiedCertificate {
    let mut hash = [0u8; 32];
    hash[0] = 0xFF;
    let cert = ProofCertificate::new("claim_01".into(), hash, 1);
    cert.verify().expect("valid cert")
}

#[test]
fn test_authorize_verified_certificate() {
    let cert = make_verified_cert();
    let policy = StaticTrustPolicy::new(IdentityId("alice".into()), PolicyDigest("policy-v1".into()));
    let authorized = policy.authorize(cert).expect("should authorize");
    assert_eq!(authorized.issuer().0, "alice");
    assert_eq!(authorized.policy_digest().0, "policy-v1");
}

#[test]
fn test_authorize_revoked_issuer_fails() {
    let cert = make_verified_cert();
    let issuer = IdentityId("alice".into());
    let mut policy = StaticTrustPolicy::new(issuer.clone(), PolicyDigest("policy-v1".into()));
    policy.revocation.revoke(issuer);
    let result = policy.authorize(cert);
    assert!(result.is_err());
}

#[test]
fn test_authorized_certificate_passes_attestation() {
    let cert = make_verified_cert();
    let policy = StaticTrustPolicy::new(IdentityId("bob".into()), PolicyDigest("policy-v1".into()));
    let authorized = policy.authorize(cert).unwrap();
    assert!(authorized.verify());
}

#[test]
fn test_authorized_mutation_binds_cert_and_mutation() {
    let cert = make_verified_cert();
    let policy = StaticTrustPolicy::new(IdentityId("bob".into()), PolicyDigest("policy-v1".into()));
    let authorized_cert = policy.authorize(cert).unwrap();

    let mutation = KnowledgeMutation {
        mutation_id: MutationId("mut_01".into()),
        actor: AgentId("test".into()),
        op: MutationOp::Insert { resource_id: ResourceId("unit:test".into()), payload: "data".into() },
        timestamp: SystemTime::now(),
    };

    let auth_mutation = AuthorizedMutation::new(mutation.clone(), authorized_cert);
    assert_eq!(auth_mutation.mutation.mutation_id.0, "mut_01");
}

#[test]
fn test_revocation_registry() {
    let mut registry = RevocationRegistry::new();
    let id = IdentityId("mallory".into());
    assert!(!registry.is_revoked(&id));
    registry.revoke(id.clone());
    assert!(registry.is_revoked(&id));
    registry.unrevoke(&id);
    assert!(!registry.is_revoked(&id));
}

#[test]
fn revoking_twice_then_unrevoking_once_clears() {
    let mut registry = RevocationRegistry::new();
    let id = IdentityId("eve".into());
    registry.revoke(id.clone());
    registry.revoke(id.clone());
    registry.unrevoke(&id);
    assert!(!registry.is_revoked(&id));
    assert!(!registry.is_revoked(&IdentityId("other".into())));
}

#[test]
fn authorized_certificate_keeps_claim() {
    let policy = StaticTrustPolicy::new(IdentityId("carol".into()), PolicyDigest("d".into()));
    let authorized = policy.authorize(make_verified_cert()).unwrap();
    assert_eq!(authorized.claim_id(), "claim_01");
    assert_eq!(authorized.proof_hash()[0], 0xFF);
    assert_eq!(authorized.authority().issuer.0, "carol");
}

use std::time::SystemTime;
use vantage::base::{AgentId, KnowledgeMutation, MutationId, MutationOp, ResourceId};
use vantage::client::config::ClientConfig;
use vantage::client::error::VantageError;
use vantage::client::VantageClient;
use vantage::pek::ProofPolicy;

#[test]
fn test_client_mutate_and_query() {
    let config = ClientConfig::embedded("test_agent");
    let mut client = VantageClient::new(config);

    let receipt = client
        .mutate()
        .resource("unit:hello")
        .id("mut_001")
        .insert("println!(\"Hello Vantage\");")
        .execute()
        .expect("Mutation should succeed");

    assert!(receipt.tx_id.contains("mut_001"));

    let content = client
        .query()
        .resource("unit:hello")
        .current()
        .expect("Query should succeed")
        .expect("Resource should exist");
    assert_eq!(content, "println!(\"Hello Vantage\");");
}

#[test]
fn test_client_batch_mutation() {
    let config = ClientConfig::embedded("test_agent");
    let mut client = VantageClient::new(config);

    let mutations = vec![
        KnowledgeMutation {
            mutation_id: MutationId("mut_a".into()),
            actor: AgentId("test_agent".into()),
            op: MutationOp::Insert { resource_id: ResourceId("unit:a".into()), payload: "module_a".into() },
            timestamp: SystemTime::now(),
        },
        KnowledgeMutation {
            mutation_id: MutationId("mut_b".into()),
            actor: AgentId("test_agent".into()),
            op: MutationOp::Insert { resource_id: ResourceId("unit:b".into()), payload: "module_b".into() },
            timestamp: SystemTime::now(),
        },
    ];

    let receipts = client.execute_batch(mutations).expect("Batch mutation should succeed");
    assert_eq!(receipts.len(), 2);

    assert!(client.query().resource("unit:a").unit_exists().unwrap());
    assert!(client.query().resource("unit:b").unit_exists().unwrap());
}

#[test]
fn test_client_delete_and_history() {
    let config = ClientConfig::embedded("test_agent");
    let mut client = VantageClient::new(config);

    client
        .mutate()
        .resource("unit:temp")
        .id("mut_temp")
        .insert("temporary data")
        .execute()
        .expect("Insert should succeed");

    let history = client.query().resource("unit:temp").history().expect("History should succeed");
    assert_eq!(history.len(), 1);
    assert_eq!(history[0].payload.as_deref(), Some("temporary data"));
}

#[test]
fn test_client_epoch_advance() {
    let mut config = ClientConfig::embedded("test_agent");
    config.policy = ProofPolicy::Disabled;
    let mut client = VantageClient::new(config);

    client
        .mutate()
        .resource("unit:epoch_test")
        .id("mut_epoch")
        .insert("before epoch")
        .execute()
        .expect("Mutate before epoch should succeed");

    let msg = client.advance_epoch().expect("Epoch advance should succeed");
    assert!(msg.contains("1"));
    assert!(msg.contains("2"));

    client
        .mutate()
        .resource("unit:after_epoch")
        .id("mut_after")
        .insert("after epoch")
        .execute()
        .expect("Mutate after epoch should succeed");
}

#[test]
fn client_delete_records_tombstone() {
    let mut client = VantageClient::new(ClientConfig::embedded("agent"));
    client.mutate().resource("unit:x").id("mut_1").insert("v").execute().unwrap();
    client.mutate().resource("unit:x").id("mut_2").delete().execute().unwrap();
    let history = client.query().resource("unit:x").history().unwrap();
    assert_eq!(history.len(), 2);
    assert_eq!(history[1].payload, None);
    assert_eq!(client.query().resource("unit:x").current().unwrap(), None);
    assert!(!client.query().resource("unit:x").unit_exists().unwrap());
}

#[test]
fn client_rejects_noncanonical_under_strict_policy() {
    let config = ClientConfig::embedded("agent").with_policy(ProofPolicy::StrictCanonical);
    let mut client = VantageClient::new(config);
    let r = client.mutate().resource("unit:y").id("bad").insert("v").execute();
    assert!(matches!(r, Err(VantageError::MutationRejected(_))));
    let stats = client.stats().unwrap();
    assert_eq!(stats.rejected, 1);
    assert_eq!(stats.admitted, 0);
}

#[test]
fn client_stats_count_admissions() {
    let mut client = VantageClient::new(ClientConfig::embedded("agent"));
    client.mutate().resource("unit:z").id("mut_z").insert("v").execute().unwrap();
    let stats = client.stats().unwrap();
    assert_eq!(stats.admitted, 1);
    assert_eq!(client.epoch().0, 1);
    assert_eq!(client.config().identity, "agent");
}

#[test]
fn client_epoch_advance_message() {
    let mut client = VantageClient::new(ClientConfig::embedded("agent"));
    let early = client.advance_epoch();
    assert!(matches!(early, Err(VantageError::EpochError(ref m)) if m == "No epoch consensus"));
    client.mutate().resource("unit:e").id("mut_e").insert("v").execute().unwrap();
    let msg = client.advance_epoch().unwrap();
    assert_eq!(msg, "Epoch transitioned: 1 \u{2192} 2");
    assert_eq!(client.epoch().0, 2);
}

#[test]
fn client_authorized_insert_commits_without_the_gate() {
    let mut client = VantageClient::new(ClientConfig::embedded("agent"));
    let m = KnowledgeMutation {
        mutation_id: MutationId("auth_1".to_string()),
        actor: AgentId("agent".to_string()),
        op: MutationOp::Insert { resource_id: ResourceId("unit:a".to_string()), payload: "v".to_string() },
        timestamp: SystemTime::now(),
    };
    let receipt = client.execute_authorized(m.clone()).unwrap();
    assert_eq!(receipt.tx_id, "auth_1");
    assert!(client.unit_exists(&ResourceId("unit:a".to_string())).unwrap());
    let stats = client.stats().unwrap();
    assert_eq!(stats.admitted, 0);
    assert_eq!(client.epoch().0, 1);
    let again = KnowledgeMutation { mutation_id: MutationId("auth_2".to_string()), ..m };
    assert!(matches!(client.execute_authorized(again), Err(VantageError::Internal(_))));
}

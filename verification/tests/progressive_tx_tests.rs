use std::time::SystemTime;
use vantage::base::{AgentId, KnowledgeMutation, MutationId, MutationOp, ResourceId};
use vantage::tx::TransactionDAG;

fn mid(id: &str) -> MutationId {
    MutationId(id.to_string())
}

fn rid(resource: &str) -> ResourceId {
    ResourceId(resource.to_string())
}

fn make_mutation(id: &str, _resource: &str, op: MutationOp) -> KnowledgeMutation {
    KnowledgeMutation {
        mutation_id: mid(id),
        actor: AgentId("test-agent".into()),
        op,
        timestamp: SystemTime::now(),
    }
}

fn insert_op(resource: &str) -> MutationOp {
    MutationOp::Insert { resource_id: rid(resource), payload: "data".into() }
}

fn delete_op(resource: &str) -> MutationOp {
    MutationOp::Delete { resource_id: rid(resource) }
}

#[test]
fn test_empty_mutations_compiles() {
    let dag = TransactionDAG::compile(vec![]).unwrap();
    assert!(dag.topological_sort().is_empty());
}

#[test]
fn test_independent_mutations_no_deps() {
    let mutations = vec![
        make_mutation("m1", "res_a", insert_op("res_a")),
        make_mutation("m2", "res_b", insert_op("res_b")),
    ];
    let dag = TransactionDAG::compile(mutations).unwrap();
    let order = dag.topological_sort();
    assert_eq!(order.len(), 2);
    let m1 = mid("m1");
    let m2 = mid("m2");
    assert!(dag.edges_from(&m1).unwrap().is_empty());
    assert!(dag.edges_from(&m2).unwrap().is_empty());
}

#[test]
fn test_raw_dependency_detected() {
    let mutations = vec![
        make_mutation("m1", "res_x", insert_op("res_x")),
        make_mutation("m2", "res_x", delete_op("res_x")),
    ];
    let dag = TransactionDAG::compile(mutations).unwrap();
    let order = dag.topological_sort();
    assert_eq!(order.len(), 2);
    let m1 = mid("m1");
    assert!(!dag.edges_from(&m1).unwrap().is_empty());
}

#[test]
fn test_waw_dependency_no_cycle() {
    let mutations = vec![
        make_mutation("m1", "res_a", delete_op("res_a")),
        make_mutation("m2", "res_a", delete_op("res_a")),
    ];
    let result = TransactionDAG::compile(mutations);
    assert!(result.is_ok());
}

#[test]
fn test_waw_dependency_detected() {
    let mutations = vec![
        make_mutation("m1", "res_z", insert_op("res_z")),
        make_mutation("m2", "res_z", insert_op("res_z")),
    ];
    let dag = TransactionDAG::compile(mutations).unwrap();
    let order = dag.topological_sort();
    assert_eq!(order.len(), 2);
    let m1 = mid("m1");
    assert!(!dag.edges_from(&m1).unwrap().is_empty());
}

#[test]
fn topological_order_keeps_batch_order() {
    let mutations = vec![
        make_mutation("a", "r", insert_op("r")),
        make_mutation("b", "s", insert_op("s")),
        make_mutation("c", "r", delete_op("r")),
    ];
    let dag = TransactionDAG::compile(mutations).unwrap();
    let order = dag.topological_sort();
    assert_eq!(order, vec![mid("a"), mid("b"), mid("c")]);
    assert_eq!(dag.edges_from(&mid("a")).unwrap().len(), 1);
    assert!(dag.edges_from(&mid("zz")).is_none());
}

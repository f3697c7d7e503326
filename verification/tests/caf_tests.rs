use vantage::types::caf::{CafBuilder, CafDiffReason, CafDiffer, CafHash, CafNode};
use vantage::types::semantic::{AlgebraResolver, Commutativity, CommutativityTable, ScopeContext};

struct TestResolver {
    table: CommutativityTable,
}

impl AlgebraResolver for TestResolver {
    fn resolve(&self, node_kind: &str, language: &str, _context: &ScopeContext) -> Commutativity {
        if language == "rust" {
            self.table.get_rust(node_kind)
        } else {
            self.table.get_python(node_kind)
        }
    }
}

#[test]
fn test_caf_hash_order_insensitive() {
    let resolver = TestResolver { table: CommutativityTable::new() };
    let mut builder = CafBuilder::new(&resolver, "rust");

    let child1 = CafHash::sha256(b"a");
    let child2 = CafHash::sha256(b"b");

    let (_, hash) = builder.build("struct_item", vec![child1.clone(), child2.clone()], 0, 10, None);
    let (_, hash_reversed) = builder.build("struct_item", vec![child2, child1.clone()], 0, 10, None);

    assert_eq!(hash.value, hash_reversed.value);
}

#[test]
fn test_caf_hash_order_sensitive() {
    let resolver = TestResolver { table: CommutativityTable::new() };
    let mut builder = CafBuilder::new(&resolver, "rust");

    let child1 = CafHash::sha256(b"a");
    let child2 = CafHash::sha256(b"b");

    let (_, hash_ab) = builder.build("block", vec![child1.clone(), child2.clone()], 0, 10, None);
    let (_, hash_ba) = builder.build("block", vec![child2, child1], 0, 10, None);

    assert_ne!(hash_ab.value, hash_ba.value);
}

#[test]
fn test_caf_differ_kind_mismatch() {
    let resolver = TestResolver { table: CommutativityTable::new() };
    let differ = CafDiffer::new(&resolver);

    let left = CafNode {
        kind: "struct_item".to_string(),
        semantic_id: None,
        children: vec![],
        commutativity: Commutativity::OrderInsensitive,
        byte_start: 0,
        byte_end: 10,
        parent_id: None,
    };

    let right = CafNode {
        kind: "function_item".to_string(),
        semantic_id: None,
        children: vec![],
        commutativity: Commutativity::OrderSensitive,
        byte_start: 0,
        byte_end: 10,
        parent_id: None,
    };

    let result = differ.diff(&left, &right, "rust");

    assert!(result.changed);
    match result.reason {
        CafDiffReason::KindMismatch(_, _) => {}
        _ => panic!("Expected KindMismatch"),
    }
}

#[test]
fn test_caf_builder_scope() {
    let resolver = TestResolver { table: CommutativityTable::new() };
    let mut builder = CafBuilder::new(&resolver, "rust");

    let var_id = builder.declare_var("my_var");
    assert_eq!(var_id, "$V_0");

    builder.push_scope();
    let var_id_inner = builder.declare_var("my_var");
    assert_eq!(var_id_inner, "$V_1");

    builder.pop_scope();
    let resolved = builder.resolve("my_var");
    assert_eq!(resolved, Some("$V_0".to_string()));
}

#[test]
fn caf_sha256_and_combine_values() {
    let h = CafHash::sha256(b"abc");
    assert_eq!(h.algorithm, "sha256");
    assert_eq!(h.value, "ba7816bf8f01cfea414140de5dae2223b00361a396177a9cb410ff61f20015ad");
    let e = CafHash::sha256(b"");
    assert_eq!(e.value, "e3b0c44298fc1c149afbf4c8996fb92427ae41e4649b934ca495991b7852b855");
    let c = h.combine(&e);
    let expected = CafHash::sha256(format!("{}:{}", h.value, e.value).as_bytes());
    assert_eq!(c.value, expected.value);
    assert!(h.same_as(&CafHash::sha256(b"abc")));
    assert!(!h.same_as(&e));
}

#[test]
fn leaf_hash_is_hash_of_nothing() {
    let leaf = CafBuilder::<TestResolver>::compute_caf_hash(Commutativity::OrderSensitive, &[]);
    assert_eq!(leaf.value, CafHash::sha256(b"").value);
}

#[test]
fn differ_same_kind_reordered_children() {
    let resolver = TestResolver { table: CommutativityTable::new() };
    let differ = CafDiffer::new(&resolver);
    let a = CafHash::sha256(b"a");
    let b = CafHash::sha256(b"b");
    let node = |kind: &str, children: Vec<CafHash>| CafNode {
        kind: kind.to_string(),
        semantic_id: None,
        children,
        commutativity: Commutativity::OrderSensitive,
        byte_start: 0,
        byte_end: 1,
        parent_id: None,
    };
    let r1 = differ.diff(&node("struct_item", vec![a.clone(), b.clone()]), &node("struct_item", vec![b.clone(), a.clone()]), "rust");
    assert!(!r1.changed);
    assert!(matches!(r1.reason, CafDiffReason::ContentChanged));
    let r2 = differ.diff(&node("block", vec![a.clone(), b.clone()]), &node("block", vec![b, a]), "rust");
    assert!(r2.changed);
}

#[test]
fn builder_scope_depth_and_kinds() {
    let resolver = TestResolver { table: CommutativityTable::new() };
    let mut builder = CafBuilder::new(&resolver, "rust");
    assert_eq!(builder.scope_depth(), 1);
    assert_eq!(builder.declare_func("f"), "$F_0");
    assert_eq!(builder.declare_type("T"), "$T_0");
    builder.pop_scope();
    assert_eq!(builder.scope_depth(), 1);
    assert_eq!(builder.resolve("f"), Some("$F_0".to_string()));
    assert_eq!(builder.resolve("nope"), None);
}

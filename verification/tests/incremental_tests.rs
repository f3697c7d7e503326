use vantage::types::caf::{CafHash, CafNode};
use vantage::types::incremental::{CafCache, DirtyReason, EditKind, IncrementalCafBuilder, InputEdit};
use vantage::types::semantic::{CafContext, Commutativity};

#[test]
fn test_input_edit_insert() {
    let edit = InputEdit::insert(10, "new content");
    assert_eq!(edit.byte_start, 10);
    assert_eq!(edit.byte_end, 10);
    assert_eq!(edit.kind, EditKind::Insert);
}

#[test]
fn test_input_edit_affects_range() {
    let edit = InputEdit::replace(5, 15, "replacement");

    assert!(edit.affects_range(0, 10));
    assert!(edit.affects_range(10, 20));
    assert!(edit.affects_range(5, 15));
    assert!(!edit.affects_range(0, 4));
    assert!(!edit.affects_range(16, 20));
}

#[test]
fn test_dirty_region_computation() {
    let mut builder = IncrementalCafBuilder::new();
    builder.add_edit(InputEdit::replace(10, 20, "new"));
    builder.add_edit(InputEdit::insert(30, "added"));

    let regions = builder.compute_dirty_regions();

    assert_eq!(regions.len(), 2);
}

#[test]
fn test_subtree_dirty_detection() {
    let mut builder = IncrementalCafBuilder::new();
    builder.add_edit(InputEdit::replace(5, 15, "replacement"));

    assert!(builder.is_subtree_dirty(0, 100));
    assert!(builder.is_subtree_dirty(10, 12));
    assert!(!builder.is_subtree_dirty(100, 200));
}

#[test]
fn test_incremental_builder_with_previous() {
    let old_hash = CafHash::sha256(b"old_state");
    let old_scope = CafContext::new();

    let builder = IncrementalCafBuilder::new().with_previous_state(old_hash, old_scope);

    let mut builder = builder;
    builder.add_edit(InputEdit::insert(0, "new"));

    let regions = builder.compute_dirty_regions();
    assert!(!regions.is_empty());
}

#[test]
fn dirty_regions_sorted_by_start() {
    let mut builder = IncrementalCafBuilder::new();
    builder.add_edits(vec![InputEdit::delete(40, 50), InputEdit::insert(3, "x"), InputEdit::replace(20, 25, "y")]);
    let regions = builder.compute_dirty_regions();
    let starts: Vec<usize> = regions.iter().map(|r| r.byte_start).collect();
    assert_eq!(starts, vec![3, 20, 40]);
    assert!(regions.iter().all(|r| r.reason == DirtyReason::DirectEdit));
    assert_eq!(regions[0].byte_end, 3);
}

#[test]
fn significant_change_against_previous_hash() {
    let fresh = IncrementalCafBuilder::new();
    assert!(fresh.has_significant_change(&CafHash::sha256(b"x")));
    assert!(fresh.get_previous_hash().is_none());
    let b = IncrementalCafBuilder::new().with_previous_state(CafHash::sha256(b"x"), CafContext::new());
    assert!(!b.has_significant_change(&CafHash::sha256(b"x")));
    assert!(b.has_significant_change(&CafHash::sha256(b"y")));
}

#[test]
fn propagate_and_rebuild_candidates() {
    let mut b = IncrementalCafBuilder::new();
    b.add_edit(InputEdit::replace(10, 20, "z"));
    let up = b.propagate_dirty_up(&[3]);
    let mut got: Vec<usize> = up.into_iter().collect();
    got.sort();
    assert_eq!(got, vec![0, 1, 2, 3]);
    assert_eq!(b.compute_rebuild_candidates(&[5, 12, 20, 25]), vec![12]);
    let state = b.finalize();
    assert_eq!(state.dirty_regions.len(), 1);
}

fn node(kind: &str, start: usize, end: usize, c: Commutativity) -> CafNode {
    CafNode {
        kind: kind.to_string(),
        semantic_id: None,
        children: vec![],
        commutativity: c,
        byte_start: start,
        byte_end: end,
        parent_id: None,
    }
}

#[test]
fn test_cache_insert_and_lookup() {
    let mut cache = CafCache::new();

    let node = CafNode {
        kind: "function_item".to_string(),
        semantic_id: None,
        children: vec![],
        commutativity: Commutativity::OrderInsensitive,
        byte_start: 0,
        byte_end: 50,
        parent_id: None,
    };

    let hash = CafHash::sha256(b"test");

    cache.insert("func1".to_string(), node.clone(), hash.clone());

    assert!(cache.get("func1").is_some());
    assert!(cache.find_by_hash(&hash).is_some());
}

#[test]
fn test_cache_invalidation() {
    let mut cache = CafCache::new();

    let node = CafNode {
        kind: "function_item".to_string(),
        semantic_id: None,
        children: vec![],
        commutativity: Commutativity::OrderSensitive,
        byte_start: 0,
        byte_end: 50,
        parent_id: None,
    };

    let hash = CafHash::sha256(b"test");

    cache.insert("func1".to_string(), node, hash);
    cache.invalidate("func1");

    assert!(cache.get("func1").is_none());
}

#[test]
fn cache_records_ids_under_hash_and_replaces_nodes() {
    let mut cache = CafCache::default();
    let h = CafHash::sha256(b"h");
    cache.insert("a".to_string(), node("block", 0, 5, Commutativity::OrderSensitive), h.clone());
    cache.insert("b".to_string(), node("block", 6, 9, Commutativity::OrderSensitive), h.clone());
    cache.insert("a".to_string(), node("struct_item", 0, 5, Commutativity::OrderInsensitive), h.clone());
    assert_eq!(cache.get("a").unwrap().kind, "struct_item");
    assert_eq!(cache.find_by_hash(&h).unwrap(), &vec!["a".to_string(), "b".to_string(), "a".to_string()]);
    assert!(cache.find_by_hash(&CafHash::sha256(b"other")).is_none());
    let removed = cache.invalidate("a");
    assert_eq!(removed.unwrap().kind, "struct_item");
    assert_eq!(cache.find_by_hash(&h).unwrap(), &vec!["b".to_string()]);
    assert!(cache.invalidate("a").is_none());
}

#[test]
fn cache_range_invalidation() {
    let mut cache = CafCache::new();
    let key = CafHash::sha256(b"f1:function_item");
    cache.insert("f1".to_string(), node("function_item", 10, 20, Commutativity::OrderInsensitive), key.clone());
    cache.insert("f2".to_string(), node("function_item", 15, 40, Commutativity::OrderInsensitive), key.clone());
    cache.insert("f3".to_string(), node("block", 12, 18, Commutativity::OrderSensitive), CafHash::sha256(b"x"));
    let dropped = cache.invalidate_range(10, 30);
    assert_eq!(dropped, vec!["f1".to_string(), "f3".to_string()]);
    assert!(cache.get("f1").is_none());
    assert!(cache.get("f3").is_none());
    assert!(cache.get("f2").is_some());
    // f1 leaves the list of sha256("f1:function_item"); f3's own hash list is untouched
    assert_eq!(cache.find_by_hash(&key).unwrap(), &vec!["f2".to_string()]);
    assert_eq!(cache.find_by_hash(&CafHash::sha256(b"x")).unwrap(), &vec!["f3".to_string()]);
}

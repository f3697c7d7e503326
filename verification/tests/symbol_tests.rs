use vantage::types::symbol_id::{canonicalize, SymbolRegistry, SymbolScopeRegistry};

#[test]
fn canonicalize_squashes_colon_runs() {
    assert_eq!(canonicalize("  a:::b::::c:: "), "a::b::c");
    assert_eq!(canonicalize(":::x"), "::x");
    assert_eq!(canonicalize("::x"), "x");
    assert_eq!(canonicalize(":::"), "");
}

#[test]
fn registry_starts_with_the_root() {
    let r = SymbolRegistry::new();
    assert_eq!(r.len(), 1);
    assert_eq!(r.epoch(), 1);
    let root = r.resolve_id(0).unwrap();
    assert_eq!(root.fqn, "crate");
    assert_eq!(root.index, 0);
}

#[test]
fn interning_twice_gives_the_same_identity() {
    let mut r = SymbolRegistry::new();
    let a = r.intern("std::vec");
    assert_eq!(a.index, 1);
    assert_eq!(a.fqn, "std::vec");
    let b = r.intern("  std:::vec ");
    assert_eq!(b, a);
    assert_eq!(r.len(), 2);
    let back = r.resolve_id(a.index).unwrap();
    assert_eq!(back, a);
    assert!(r.resolve_id(2).is_none());
}

#[test]
fn scoped_discovery_resolves_innermost_first() {
    let mut r = SymbolRegistry::new();
    let mut s = SymbolScopeRegistry::new();
    let x = s.discover(&mut r, "x");
    assert_eq!(x.fqn, "x");
    s.push_scope();
    let inner = s.discover(&mut r, "x");
    assert_eq!(inner.index, x.index);
    assert_eq!(s.resolve("x"), Some(inner));
    s.pop_scope();
    assert_eq!(s.resolve("x"), Some(x));
    assert_eq!(s.resolve("y"), None);
}

use vantage::types::semantic::{
    AlgebraResolver, CafContext, Commutativity, CommutativityTable, DefaultAlgebraResolver, ScopeContext, SemanticError,
    SemanticKind,
};

#[test]
fn test_rust_function_commutativity() {
    let table = CommutativityTable::new();
    assert_eq!(
        table.get_rust("function_item"),
        Commutativity::OrderInsensitive
    );
}

#[test]
fn test_rust_struct_commutativity() {
    let table = CommutativityTable::new();
    assert_eq!(
        table.get_rust("struct_item"),
        Commutativity::OrderInsensitive
    );
}

#[test]
fn test_rust_block_commutativity() {
    let table = CommutativityTable::new();
    assert_eq!(table.get_rust("block"), Commutativity::OrderSensitive);
}

#[test]
fn test_python_function_commutativity() {
    let table = CommutativityTable::new();
    assert_eq!(
        table.get_python("function_definition"),
        Commutativity::OrderInsensitive
    );
}

#[test]
fn test_python_class_commutativity() {
    let table = CommutativityTable::new();
    assert_eq!(
        table.get_python("class_definition"),
        Commutativity::OrderInsensitive
    );
}

#[test]
fn test_python_call_commutativity() {
    let table = CommutativityTable::new();
    assert_eq!(table.get_python("call"), Commutativity::OrderSensitive);
}

#[test]
fn test_semantic_kind_from_tree_sitter() {
    assert_eq!(
        SemanticKind::from_tree_sitter("function_item"),
        SemanticKind::Function
    );
    assert_eq!(
        SemanticKind::from_tree_sitter("struct_item"),
        SemanticKind::Struct
    );
    assert_eq!(
        SemanticKind::from_tree_sitter("call_expression"),
        SemanticKind::Call
    );
}

#[test]
fn test_commutativity_table_is_single_source() {
    let table = CommutativityTable::new();
    let rust_fn = table.get_rust("function_item");
    assert_eq!(rust_fn, Commutativity::OrderInsensitive);

    let rust_struct = table.get_rust("struct_item");
    assert_eq!(rust_struct, Commutativity::OrderInsensitive);
}

#[test]
fn test_caf_context_var_declaration() {
    let mut ctx = CafContext::new();
    let canonical = ctx.declare_var("my_var");
    assert_eq!(canonical, "$V_0");
    assert_eq!(ctx.resolve("my_var"), Some("$V_0".to_string()));
}

#[test]
fn test_caf_context_scope_isolation() {
    let mut ctx = CafContext::new();
    ctx.declare_var("x");
    ctx.push_scope();
    ctx.declare_var("x");

    assert_eq!(ctx.resolve("x"), Some("$V_1".to_string()));

    ctx.pop_scope();
    assert_eq!(ctx.resolve("x"), Some("$V_0".to_string()));
}

#[test]
fn test_caf_context_func_and_type() {
    let mut ctx = CafContext::new();
    let func = ctx.declare_func("process_data");
    let type_id = ctx.declare_type("User");

    assert_eq!(func, "$F_0");
    assert_eq!(type_id, "$T_0");
}

#[test]
fn test_scope_context_enter_block() {
    let mut ctx = ScopeContext::new();
    let deeper = ctx.enter_block();

    assert_eq!(deeper.depth, 1);
}

#[test]
fn test_scope_context_loop() {
    let mut ctx = ScopeContext::new();
    let loop_ctx = ctx.enter_loop();

    assert!(loop_ctx.in_loop);
}

#[test]
fn unknown_kinds_default_to_order_sensitive() {
    let table = CommutativityTable::new();
    assert_eq!(table.get_rust("no_such_kind"), Commutativity::OrderSensitive);
    assert_eq!(table.get_python("no_such_kind"), Commutativity::OrderSensitive);
    assert_eq!(SemanticKind::from_tree_sitter("no_such_kind"), SemanticKind::Other);
}

#[test]
fn default_resolver_follows_table() {
    let r = DefaultAlgebraResolver::new();
    let ctx = ScopeContext::new();
    assert_eq!(r.resolve("struct_item", "rust", &ctx), Commutativity::OrderInsensitive);
    assert_eq!(r.resolve("call", "python", &ctx), Commutativity::OrderSensitive);
}

#[test]
fn resolve_unknown_name_and_pop_last_scope() {
    let mut ctx = CafContext::new();
    assert_eq!(ctx.resolve("nope"), None);
    ctx.pop_scope();
    assert_eq!(ctx.depth(), 1);
    ctx.declare_var("a");
    assert_eq!(ctx.resolve("a"), Some("$V_0".to_string()));
}

#[test]
fn scope_context_flags() {
    let mut ctx = ScopeContext::new();
    assert_eq!(ctx.depth, 0);
    let m = ctx.enter_match();
    assert!(m.in_match);
    assert_eq!(m.depth, 1);
    let mac = ctx.enter_macro();
    assert!(mac.in_macro);
    assert!(Commutativity::Hybrid.is_hybrid());
    assert!(Commutativity::OrderSensitive.is_order_sensitive());
    assert!(Commutativity::OrderInsensitive.is_order_insensitive());
}

#[test]
fn semantic_error_messages() {
    let e = SemanticError::UnknownNodeKind("foo".to_string());
    assert!(e.to_string().contains("foo"));
}

use vantage::types::refactor_invariants::{CrossLanguageVerifier, InvariantVerifier};

#[test]
fn test_refactor_rename_variable() {
    let verifier = InvariantVerifier::new();
    assert!(
        verifier.test_refactor_rename_variable(),
        "Variable identifiers should have order-sensitive semantics"
    );
}

#[test]
fn test_refactor_rename_function() {
    let verifier = InvariantVerifier::new();
    assert!(
        verifier.test_refactor_rename_function(),
        "Function items should be order-insensitive (top-level declaration)"
    );
}

#[test]
fn test_refactor_reorder_struct_fields() {
    let verifier = InvariantVerifier::new();
    assert!(
        verifier.test_refactor_reorder_struct_fields(),
        "Struct fields should be order-insensitive"
    );
}

#[test]
fn test_refactor_reorder_imports() {
    let verifier = InvariantVerifier::new();
    assert!(
        verifier.test_refactor_reorder_imports(),
        "Imports should be order-insensitive"
    );
}

#[test]
fn test_semantic_change_arithmetic() {
    let verifier = InvariantVerifier::new();
    assert!(
        verifier.test_semantic_change_arithmetic(),
        "Binary expressions should be hybrid (context-dependent commutativity)"
    );
}

#[test]
fn test_semantic_change_condition() {
    let verifier = InvariantVerifier::new();
    assert!(
        verifier.test_semantic_change_condition(),
        "If expressions should be order-sensitive"
    );
}

#[test]
fn test_semantic_change_control_flow() {
    let verifier = InvariantVerifier::new();
    assert!(
        verifier.test_semantic_change_control_flow(),
        "Loop expressions should be order-sensitive"
    );
}

#[test]
fn test_scope_alpha_renaming() {
    let verifier = InvariantVerifier::new();
    assert!(
        verifier.test_scope_alpha_renaming(),
        "Identifier scoping is order-sensitive (position matters)"
    );
}

#[test]
fn test_dead_code_detection() {
    let verifier = InvariantVerifier::new();
    assert!(
        verifier.test_dead_code_insertion(),
        "Dead code changes are detected as structural drift"
    );
}

#[test]
fn test_commutativity_struct() {
    let verifier = InvariantVerifier::new();
    assert!(
        verifier.test_commutativity_struct_fields(),
        "Struct fields should be order-insensitive (commutativity table)"
    );
}

#[test]
fn test_commutativity_imports() {
    let verifier = InvariantVerifier::new();
    assert!(
        verifier.test_commutativity_imports(),
        "Imports should be order-insensitive (commutativity table)"
    );
}

#[test]
fn test_order_sensitivity_block() {
    let verifier = InvariantVerifier::new();
    assert!(
        verifier.test_order_sensitivity_block(),
        "Block statements should be order-sensitive"
    );
}

#[test]
fn test_order_sensitivity_params() {
    let verifier = InvariantVerifier::new();
    assert!(
        verifier.test_order_sensitivity_params(),
        "Function parameters should be order-sensitive"
    );
}

#[test]
fn test_cross_language_structure() {
    let verifier = CrossLanguageVerifier::new();

    let rust = r#"
fn add(a: i32, b: i32) -> i32 { a + b }
fn sub(a: i32, b: i32) -> i32 { a - b }
"#;
    let python = r#"
def add(a, b):
return a + b
def sub(a, b):
return a - b
"#;

    assert!(
        verifier.compare_structure_class(rust, python),
        "Same function count in Rust and Python"
    );
}

#[test]
fn test_invariant_theory_complete() {
    let verifier = InvariantVerifier::new();

    let mut passed = 0;
    let mut failed = 0;

    if verifier.test_refactor_rename_variable() {
        passed += 1
    } else {
        failed += 1
    }
    if verifier.test_refactor_rename_function() {
        passed += 1
    } else {
        failed += 1
    }
    if verifier.test_refactor_reorder_struct_fields() {
        passed += 1
    } else {
        failed += 1
    }
    if verifier.test_refactor_reorder_imports() {
        passed += 1
    } else {
        failed += 1
    }
    if verifier.test_semantic_change_arithmetic() {
        passed += 1
    } else {
        failed += 1
    }
    if verifier.test_semantic_change_condition() {
        passed += 1
    } else {
        failed += 1
    }
    if verifier.test_semantic_change_control_flow() {
        passed += 1
    } else {
        failed += 1
    }
    if verifier.test_scope_alpha_renaming() {
        passed += 1
    } else {
        failed += 1
    }
    if verifier.test_commutativity_struct_fields() {
        passed += 1
    } else {
        failed += 1
    }
    if verifier.test_commutativity_imports() {
        passed += 1
    } else {
        failed += 1
    }
    if verifier.test_order_sensitivity_block() {
        passed += 1
    } else {
        failed += 1
    }
    if verifier.test_order_sensitivity_params() {
        passed += 1
    } else {
        failed += 1
    }

    println!("Invariant Theory: {} passed, {} failed", passed, failed);
    assert_eq!(failed, 0, "All invariants must hold");
}

#[test]
fn cross_language_structure_counts_differ() {
    let verifier = CrossLanguageVerifier::new();
    assert!(!verifier.compare_structure_class("fn a() {}\nfn b() {}\n", "def a():\n    pass\n"));
    assert!(verifier.compare_structure_class("", ""));
}

#[test]
fn python_equivalent_semantics_holds() {
    let verifier = InvariantVerifier::new();
    assert!(verifier.test_python_equivalent_semantics());
}

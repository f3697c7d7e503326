use vantage::types::drift_graph::{diff_intents, diff_nodes, diff_parity, GraphDriftReport};
use vantage::types::intent::{IntentInvariant, IntentOverlay};
use vantage::types::symbol::SymbolKind;
use vantage::types::symbol_id::SymbolId;
use vantage::types::uir::{Language, UnifiedNode, Visibility};

fn node(language: Language, fq: &str, intent: Option<IntentInvariant>) -> UnifiedNode {
    UnifiedNode {
        id: SymbolId { fqn: fq.to_string(), index: 0, registry_epoch: 1 },
        fq_name: fq.to_string(),
        language,
        kind: SymbolKind::Struct,
        visibility: Visibility::Public,
        dependencies: Vec::new(),
        file: "f.rs".to_string(),
        line: 7,
        structural_hash: String::new(),
        normalized_hash: String::new(),
        intent: intent.map(|invariant| IntentOverlay {
            invariant,
            reason: String::new(),
            constraints: Vec::new(),
            owner: None,
            metadata: Vec::new(),
        }),
    }
}

#[test]
fn empty_report_has_no_drift() {
    let r = GraphDriftReport::empty();
    assert_eq!(r.schema_version, "1.2.5");
    assert!(r.added_nodes.is_empty() && r.removed_nodes.is_empty() && r.parity_breaks.is_empty());
    assert!(!r.has_drift);
}

#[test]
fn diff_nodes_reports_added_and_removed_in_order() {
    let baseline = vec![node(Language::Rust, "a::X", None), node(Language::Python, "b.Y", None)];
    let current = vec![
        node(Language::Rust, "a::X", None),
        node(Language::Ruby, "c::Z", None),
        node(Language::Python, "a.A", None),
        node(Language::Python, "a.B", None),
    ];
    let (added, removed) = diff_nodes(&baseline, &current);
    let names: Vec<(Language, String)> = added.iter().map(|d| (d.language, d.fq_name.clone())).collect();
    assert_eq!(names, vec![
        (Language::Python, "a.A".to_string()),
        (Language::Python, "a.B".to_string()),
        (Language::Ruby, "c::Z".to_string()),
    ]);
    assert_eq!(removed.len(), 1);
    assert_eq!(removed[0].fq_name, "b.Y");
    assert_eq!(removed[0].line, 7);
    assert_eq!(removed[0].kind, SymbolKind::Struct);
}

#[test]
fn diff_intents_reports_lost_and_removed_intents() {
    let baseline = vec![
        node(Language::Rust, "m::T", Some(IntentInvariant::Custom("x".to_string()))),
        node(Language::Rust, "m::S", Some(IntentInvariant::AppendOnly)),
        node(Language::Rust, "m::U", Some(IntentInvariant::Stateless)),
    ];
    let current = vec![
        node(Language::Rust, "m::S", Some(IntentInvariant::ThreadSafe)),
        node(Language::Rust, "m::U", Some(IntentInvariant::Stateless)),
    ];
    let breaks = diff_intents(&baseline, &current);
    assert_eq!(breaks.len(), 2);
    assert_eq!(breaks[0].spec_id, "intent-drift");
    assert_eq!(breaks[0].node.as_deref(), Some("m::S"));
    assert_eq!(breaks[0].description, "m::S lost AppendOnly intent (was AppendOnly, now Some(ThreadSafe))");
    assert_eq!(breaks[1].node.as_deref(), Some("m::T"));
    assert_eq!(breaks[1].description, "m::T with Custom(\"x\") intent was removed");
}

#[test]
fn diff_parity_reports_lost_languages() {
    let baseline = vec![
        node(Language::Rust, "a::Foo", None),
        node(Language::Python, "a.Foo", None),
        node(Language::Rust, "a::Bar", None),
        node(Language::Ruby, "Baz", None),
    ];
    let current = vec![node(Language::Rust, "b::Foo", None), node(Language::Ruby, "x::Baz", None)];
    let breaks = diff_parity(&baseline, &current);
    assert_eq!(breaks.len(), 1);
    assert_eq!(breaks[0].symbol_name, "Foo");
    assert_eq!(breaks[0].languages, vec![Language::Python]);
    assert_eq!(breaks[0].description, "'Foo' lost in languages: python");
}

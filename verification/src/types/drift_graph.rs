//! Drift between two snapshots of a unified graph: the nodes added and
//! removed, the intents lost, and the symbols that left a language.

use vstd::prelude::*;
use vstd::string::*;
use crate::text::{debug_quoted, debug_string, lex_lt, str_eq, str_lt};
use crate::types::intent::IntentInvariant;
use crate::types::symbol::SymbolKind;
use crate::types::uir::{language_name, Language, UnifiedNode};

verus! {

/// The version of the drift report's layout.
pub const DRIFT_SCHEMA_VERSION: &'static str = "1.2.5";

/// A node added or removed between two snapshots.
#[derive(Debug, Clone)]
pub struct NodeDelta {
    pub fq_name: String,
    pub language: Language,
    pub kind: SymbolKind,
    pub file: String,
    pub line: u32,
}

/// A dependency edge that changed between two snapshots.
#[derive(Debug, Clone)]
pub struct EdgeDelta {
    pub source: String,
    pub target: String,
    pub change: EdgeChangeKind,
}

/// Whether an edge appeared or went away.
#[derive(Debug, Clone, Copy, PartialEq, Eq, Structural)]
pub enum EdgeChangeKind {
    Added,
    Removed,
}

/// An architectural invariant that no longer holds.
#[derive(Debug, Clone)]
pub struct InvariantBreak {
    pub spec_id: String,
    pub description: String,
    pub node: Option<String>,
}

/// A symbol present in several languages that left some of them.
#[derive(Debug, Clone)]
pub struct ParityBreak {
    pub symbol_name: String,
    pub languages: Vec<Language>,
    pub description: String,
}

/// The drift between two snapshots.
#[derive(Debug, Clone)]
pub struct GraphDriftReport {
    pub schema_version: String,
    pub added_nodes: Vec<NodeDelta>,
    pub removed_nodes: Vec<NodeDelta>,
    pub changed_edges: Vec<EdgeDelta>,
    pub invariant_breaks: Vec<InvariantBreak>,
    pub parity_breaks: Vec<ParityBreak>,
    pub baseline_node_count: usize,
    pub current_node_count: usize,
    pub has_drift: bool,
}

impl GraphDriftReport {
    /// A report of no drift between empty snapshots.
    pub fn empty() -> (r: Self)
        ensures
            r.schema_version@ == DRIFT_SCHEMA_VERSION@,
            r.added_nodes@.len() == 0,
            r.removed_nodes@.len() == 0,
            r.changed_edges@.len() == 0,
            r.invariant_breaks@.len() == 0,
            r.parity_breaks@.len() == 0,
            r.baseline_node_count == 0,
            r.current_node_count == 0,
            !r.has_drift,
    {
        GraphDriftReport {
            schema_version: String::from_str(DRIFT_SCHEMA_VERSION),
            added_nodes: Vec::new(),
            removed_nodes: Vec::new(),
            changed_edges: Vec::new(),
            invariant_breaks: Vec::new(),
            parity_breaks: Vec::new(),
            baseline_node_count: 0,
            current_node_count: 0,
            has_drift: false,
        }
    }
}

/// The key a node is matched by across snapshots: its language's name, a
/// colon, and its name.
pub open spec fn node_key(n: UnifiedNode) -> Seq<char> {
    language_name(n.language) + ":"@ + n.fq_name@
}

/// Some node of `ns` has key `k`.
pub open spec fn keys_contain(ns: Seq<UnifiedNode>, k: Seq<char>) -> bool {
    exists|i: int| 0 <= i < ns.len() && node_key(ns[i]) == k
}

/// The delta describing a node.
pub open spec fn delta_of(n: UnifiedNode) -> NodeDelta {
    NodeDelta { fq_name: n.fq_name, language: n.language, kind: n.kind, file: n.file, line: n.line }
}

/// The deltas of the nodes of `ns` whose key no node of `other` has, in
/// order.
pub open spec fn unmatched(ns: Seq<UnifiedNode>, other: Seq<UnifiedNode>) -> Seq<NodeDelta>
    decreases ns.len(),
{
    if ns.len() == 0 {
        Seq::empty()
    } else {
        let prev = unmatched(ns.drop_last(), other);
        if keys_contain(other, node_key(ns.last())) { prev } else { prev.push(delta_of(ns.last())) }
    }
}

/// Deltas are ordered by language name, then by name.
pub open spec fn delta_lt(a: NodeDelta, b: NodeDelta) -> bool {
    lex_lt(language_name(a.language), language_name(b.language))
        || (language_name(a.language) == language_name(b.language) && lex_lt(a.fq_name@, b.fq_name@))
}

/// `x` inserted after every delta it does not precede.
pub open spec fn insert_delta(s: Seq<NodeDelta>, x: NodeDelta) -> Seq<NodeDelta>
    decreases s.len(),
{
    if s.len() == 0 || !delta_lt(x, s.last()) {
        s.push(x)
    } else {
        insert_delta(s.drop_last(), x).push(s.last())
    }
}

/// The deltas in order, equal ones in the order they came: a stable sort.
pub open spec fn sort_deltas(s: Seq<NodeDelta>) -> Seq<NodeDelta>
    decreases s.len(),
{
    if s.len() == 0 { s } else { insert_delta(sort_deltas(s.drop_last()), s.last()) }
}

proof fn lemma_insert_delta(s: Seq<NodeDelta>, x: NodeDelta, k: int)
    requires
        0 <= k <= s.len(),
        k == 0 || !delta_lt(x, s[k - 1]),
        forall|j: int| k <= j < s.len() ==> delta_lt(x, #[trigger] s[j]),
    ensures
        insert_delta(s, x) == s.take(k).push(x) + s.skip(k),
    decreases s.len(),
{
    if s.len() == 0 {
        assert(s.take(k).push(x) + s.skip(k) =~= seq![x]);
    } else if k == s.len() {
        assert(s.take(k).push(x) + s.skip(k) =~= s.push(x));
    } else {
        let d = s.drop_last();
        assert forall|j: int| k <= j < d.len() implies delta_lt(x, #[trigger] d[j]) by {
            assert(d[j] == s[j]);
        }
        if k > 0 {
            assert(d[k - 1] == s[k - 1]);
        }
        assert(delta_lt(x, s[s.len() - 1]));
        lemma_insert_delta(d, x, k);
        assert(d.take(k) =~= s.take(k));
        assert(s.take(k).push(x) + s.skip(k) =~= (d.take(k).push(x) + d.skip(k)).push(s.last()));
    }
}

fn delta_before(a: &NodeDelta, b: &NodeDelta) -> (r: bool)
    ensures
        r == delta_lt(*a, *b),
{
    let la = a.language.as_str();
    let lb = b.language.as_str();
    str_lt(la, lb) || (str_eq(la, lb) && str_lt(a.fq_name.as_str(), b.fq_name.as_str()))
}

/// Sorts deltas by language name, then name, keeping equal ones in order.
fn sort_deltas_exec(v: Vec<NodeDelta>) -> (r: Vec<NodeDelta>)
    ensures
        r@ == sort_deltas(v@),
{
    let mut sorted: Vec<NodeDelta> = Vec::new();
    let mut rest = v;
    let ghost all = rest@;
    let n = rest.len();
    let mut i: usize = 0;
    while i < n
        invariant
            n == all.len(),
            i <= n,
            rest@ == all.skip(i as int),
            sorted@ == sort_deltas(all.take(i as int)),
        decreases n - i,
    {
        let x = rest.remove(0);
        assert(x == all[i as int]);
        assert(rest@ =~= all.skip(i + 1));
        let ghost s = sorted@;
        let mut k: usize = sorted.len();
        while k > 0 && delta_before(&x, &sorted[k - 1])
            invariant
                k <= sorted@.len(),
                s == sorted@,
                forall|j: int| k <= j < s.len() ==> delta_lt(x, #[trigger] s[j]),
            decreases k,
        {
            k = k - 1;
        }
        proof {
            lemma_insert_delta(s, x, k as int);
            assert(all.take(i + 1).drop_last() =~= all.take(i as int));
        }
        sorted.insert(k, x);
        assert(sorted@ =~= s.take(k as int).push(x) + s.skip(k as int));
        i = i + 1;
    }
    assert(all.take(n as int) =~= all);
    sorted
}

/// The key of a node.
fn node_key_exec(n: &UnifiedNode) -> (r: String)
    ensures
        r@ == node_key(*n),
{
    let mut k = String::from_str(n.language.as_str());
    k.append(":");
    k.append(n.fq_name.as_str());
    proof { reveal_strlit(":"); }
    k
}

/// The keys of the nodes, in order.
fn keys_of(ns: &[UnifiedNode]) -> (r: Vec<String>)
    ensures
        r@.len() == ns@.len(),
        forall|i: int| 0 <= i < ns@.len() ==> #[trigger] r@[i]@ == node_key(ns@[i]),
{
    let mut r: Vec<String> = Vec::new();
    let mut i: usize = 0;
    while i < ns.len()
        invariant
            i <= ns@.len(),
            r@.len() == i,
            forall|j: int| 0 <= j < i ==> #[trigger] r@[j]@ == node_key(ns@[j]),
        decreases ns@.len() - i,
    {
        r.push(node_key_exec(&ns[i]));
        i = i + 1;
    }
    r
}

fn contains_key(keys: &Vec<String>, ns: Ghost<Seq<UnifiedNode>>, k: &String) -> (r: bool)
    requires
        keys@.len() == ns@.len(),
        forall|i: int| 0 <= i < ns@.len() ==> #[trigger] keys@[i]@ == node_key(ns@[i]),
    ensures
        r == keys_contain(ns@, k@),
{
    let mut i: usize = 0;
    while i < keys.len()
        invariant
            i <= keys@.len(),
            keys@.len() == ns@.len(),
            forall|j: int| 0 <= j < ns@.len() ==> #[trigger] keys@[j]@ == node_key(ns@[j]),
            forall|j: int| 0 <= j < i ==> node_key(ns@[j]) != k@,
        decreases keys@.len() - i,
    {
        if str_eq(keys[i].as_str(), k.as_str()) {
            assert(node_key(ns@[i as int]) == k@);
            return true;
        }
        i = i + 1;
    }
    false
}

fn clone_kind(k: &SymbolKind) -> (r: SymbolKind)
    ensures
        r == *k,
{
    match k {
        SymbolKind::Function => SymbolKind::Function,
        SymbolKind::Method => SymbolKind::Method,
        SymbolKind::Class => SymbolKind::Class,
        SymbolKind::Struct => SymbolKind::Struct,
        SymbolKind::Enum => SymbolKind::Enum,
        SymbolKind::Trait => SymbolKind::Trait,
        SymbolKind::Module => SymbolKind::Module,
        SymbolKind::Constant => SymbolKind::Constant,
        SymbolKind::Variable => SymbolKind::Variable,
        SymbolKind::Interface => SymbolKind::Interface,
        SymbolKind::Other(s) => SymbolKind::Other(s.clone()),
    }
}

/// The deltas of the nodes of `ns` whose key no node of `other` has, in
/// order.
fn unmatched_exec(ns: &[UnifiedNode], other: &[UnifiedNode]) -> (r: Vec<NodeDelta>)
    ensures
        r@ == unmatched(ns@, other@),
{
    let other_keys = keys_of(other);
    let mut out: Vec<NodeDelta> = Vec::new();
    let mut i: usize = 0;
    while i < ns.len()
        invariant
            i <= ns@.len(),
            other_keys@.len() == other@.len(),
            forall|j: int| 0 <= j < other@.len() ==> #[trigger] other_keys@[j]@ == node_key(other@[j]),
            out@ == unmatched(ns@.take(i as int), other@),
        decreases ns@.len() - i,
    {
        let n = &ns[i];
        let k = node_key_exec(n);
        assert(ns@.take(i + 1).drop_last() =~= ns@.take(i as int));
        assert(ns@.take(i + 1).last() == ns@[i as int]);
        if !contains_key(&other_keys, Ghost(other@), &k) {
            out.push(NodeDelta {
                fq_name: n.fq_name.clone(),
                language: n.language,
                kind: clone_kind(&n.kind),
                file: n.file.clone(),
                line: n.line,
            });
        }
        i = i + 1;
    }
    assert(ns@.take(ns@.len() as int) =~= ns@);
    out
}

/// The nodes added and removed between two snapshots: those of `current`
/// whose key (language and name) no node of `baseline` has, and those of
/// `baseline` whose key no node of `current` has; each list sorted by
/// language name, then name, equal ones in snapshot order.
pub fn diff_nodes(baseline: &[UnifiedNode], current: &[UnifiedNode]) -> (r: (Vec<NodeDelta>, Vec<NodeDelta>))
    ensures
        r.0@ == sort_deltas(unmatched(current@, baseline@)),
        r.1@ == sort_deltas(unmatched(baseline@, current@)),
{
    let added = unmatched_exec(current, baseline);
    let removed = unmatched_exec(baseline, current);
    (sort_deltas_exec(added), sort_deltas_exec(removed))
}

/// The invariant of the last node of `ns` with key `k` that carries an
/// intent, if any.
pub open spec fn intent_at(ns: Seq<UnifiedNode>, k: Seq<char>) -> Option<IntentInvariant>
    decreases ns.len(),
{
    if ns.len() == 0 {
        None
    } else if ns.last().intent is Some && node_key(ns.last()) == k {
        Some(ns.last().intent.unwrap().invariant)
    } else {
        intent_at(ns.drop_last(), k)
    }
}

/// Two invariants are the same: the same kind, and the same text for
/// custom ones.
pub open spec fn same_invariant(a: IntentInvariant, b: IntentInvariant) -> bool {
    match (a, b) {
        (IntentInvariant::Custom(x), IntentInvariant::Custom(y)) => x@ == y@,
        (IntentInvariant::AppendOnly, IntentInvariant::AppendOnly) => true,
        (IntentInvariant::DeterministicOrdering, IntentInvariant::DeterministicOrdering) => true,
        (IntentInvariant::ThreadSafe, IntentInvariant::ThreadSafe) => true,
        (IntentInvariant::NoSideEffects, IntentInvariant::NoSideEffects) => true,
        (IntentInvariant::Idempotent, IntentInvariant::Idempotent) => true,
        (IntentInvariant::ZeroAllocation, IntentInvariant::ZeroAllocation) => true,
        (IntentInvariant::Stateless, IntentInvariant::Stateless) => true,
        _ => false,
    }
}

/// How `{:?}` renders an invariant.
pub open spec fn invariant_debug(i: IntentInvariant) -> Seq<char> {
    match i {
        IntentInvariant::AppendOnly => "AppendOnly"@,
        IntentInvariant::DeterministicOrdering => "DeterministicOrdering"@,
        IntentInvariant::ThreadSafe => "ThreadSafe"@,
        IntentInvariant::NoSideEffects => "NoSideEffects"@,
        IntentInvariant::Idempotent => "Idempotent"@,
        IntentInvariant::ZeroAllocation => "ZeroAllocation"@,
        IntentInvariant::Stateless => "Stateless"@,
        IntentInvariant::Custom(s) => "Custom("@ + debug_quoted(s@) + ")"@,
    }
}

/// A break with its texts as characters.
pub type BreakView = (Seq<char>, Seq<char>, Option<Seq<char>>);

pub open spec fn break_view(b: InvariantBreak) -> BreakView {
    (b.spec_id@, b.description@, match b.node { Some(n) => Some(n@), None => None })
}

/// The break reported for a node of name `name` whose intent `was` became
/// `now`, or went away with the node (`None`).
pub open spec fn intent_break(name: Seq<char>, was: IntentInvariant, now: Option<IntentInvariant>) -> BreakView {
    let text = match now {
        Some(c) => name + " lost "@ + invariant_debug(was) + " intent (was "@ + invariant_debug(was) + ", now Some("@
            + invariant_debug(c) + "))"@,
        None => name + " with "@ + invariant_debug(was) + " intent was removed"@,
    };
    ("intent-drift"@, text, Some(name))
}

/// The intents of `base` that `cur` lost, in order: for each node of
/// `base` with an intent, a break when the last node of `cur` with its key
/// and an intent keeps another invariant, or when there is none.
pub open spec fn lost_intents(base: Seq<UnifiedNode>, cur: Seq<UnifiedNode>) -> Seq<BreakView>
    decreases base.len(),
{
    if base.len() == 0 {
        Seq::empty()
    } else {
        let prev = lost_intents(base.drop_last(), cur);
        let n = base.last();
        match n.intent {
            Some(o) => match intent_at(cur, node_key(n)) {
                Some(c) => if same_invariant(c, o.invariant) {
                    prev
                } else {
                    prev.push(intent_break(n.fq_name@, o.invariant, Some(c)))
                },
                None => prev.push(intent_break(n.fq_name@, o.invariant, None)),
            },
            None => prev,
        }
    }
}

/// Optional names are ordered with none first, then by name.
pub open spec fn opt_lt(a: Option<Seq<char>>, b: Option<Seq<char>>) -> bool {
    match (a, b) {
        (None, Some(_)) => true,
        (Some(x), Some(y)) => lex_lt(x, y),
        _ => false,
    }
}

/// Breaks are ordered by identifier, then by node.
pub open spec fn break_lt(a: BreakView, b: BreakView) -> bool {
    lex_lt(a.0, b.0) || (a.0 == b.0 && opt_lt(a.2, b.2))
}

/// `x` inserted after every break it does not precede.
pub open spec fn insert_break(s: Seq<BreakView>, x: BreakView) -> Seq<BreakView>
    decreases s.len(),
{
    if s.len() == 0 || !break_lt(x, s.last()) {
        s.push(x)
    } else {
        insert_break(s.drop_last(), x).push(s.last())
    }
}

/// The breaks in order, equal ones in the order they came: a stable sort.
pub open spec fn sort_breaks(s: Seq<BreakView>) -> Seq<BreakView>
    decreases s.len(),
{
    if s.len() == 0 { s } else { insert_break(sort_breaks(s.drop_last()), s.last()) }
}

proof fn lemma_insert_break(s: Seq<BreakView>, x: BreakView, k: int)
    requires
        0 <= k <= s.len(),
        k == 0 || !break_lt(x, s[k - 1]),
        forall|j: int| k <= j < s.len() ==> break_lt(x, #[trigger] s[j]),
    ensures
        insert_break(s, x) == s.take(k).push(x) + s.skip(k),
    decreases s.len(),
{
    if s.len() == 0 {
        assert(s.take(k).push(x) + s.skip(k) =~= seq![x]);
    } else if k == s.len() {
        assert(s.take(k).push(x) + s.skip(k) =~= s.push(x));
    } else {
        let d = s.drop_last();
        assert forall|j: int| k <= j < d.len() implies break_lt(x, #[trigger] d[j]) by {
            assert(d[j] == s[j]);
        }
        if k > 0 {
            assert(d[k - 1] == s[k - 1]);
        }
        assert(break_lt(x, s[s.len() - 1]));
        lemma_insert_break(d, x, k);
        assert(d.take(k) =~= s.take(k));
        assert(s.take(k).push(x) + s.skip(k) =~= (d.take(k).push(x) + d.skip(k)).push(s.last()));
    }
}

pub open spec fn break_views(v: Seq<InvariantBreak>) -> Seq<BreakView> {
    v.map_values(|b: InvariantBreak| break_view(b))
}

fn break_before(a: &InvariantBreak, b: &InvariantBreak) -> (r: bool)
    ensures
        r == break_lt(break_view(*a), break_view(*b)),
{
    if str_lt(a.spec_id.as_str(), b.spec_id.as_str()) {
        return true;
    }
    if !str_eq(a.spec_id.as_str(), b.spec_id.as_str()) {
        return false;
    }
    match (&a.node, &b.node) {
        (None, Some(_)) => true,
        (Some(x), Some(y)) => str_lt(x.as_str(), y.as_str()),
        _ => false,
    }
}

/// Sorts breaks by identifier, then node, keeping equal ones in order.
fn sort_breaks_exec(v: Vec<InvariantBreak>) -> (r: Vec<InvariantBreak>)
    ensures
        break_views(r@) == sort_breaks(break_views(v@)),
{
    let mut sorted: Vec<InvariantBreak> = Vec::new();
    let mut rest = v;
    let ghost all = break_views(rest@);
    let n = rest.len();
    let mut i: usize = 0;
    while i < n
        invariant
            n == all.len(),
            i <= n,
            rest@.len() == n - i,
            break_views(rest@) == all.skip(i as int),
            break_views(sorted@) == sort_breaks(all.take(i as int)),
        decreases n - i,
    {
        let ghost r0 = rest@;
        let x = rest.remove(0);
        assert(x == r0[0]);
        assert(break_views(r0)[0] == break_view(x));
        assert(rest@ =~= r0.skip(1));
        assert(break_views(rest@) =~= break_views(r0).skip(1));
        assert(break_view(x) == all[i as int]);
        assert(break_views(rest@) =~= all.skip(i + 1));
        let ghost s = break_views(sorted@);
        let ghost sv = sorted@;
        let mut k: usize = sorted.len();
        while k > 0 && break_before(&x, &sorted[k - 1])
            invariant
                k <= sorted@.len(),
                sv == sorted@,
                s == break_views(sv),
                forall|j: int| k <= j < s.len() ==> break_lt(break_view(x), #[trigger] s[j]),
            decreases k,
        {
            k = k - 1;
        }
        proof {
            lemma_insert_break(s, break_view(x), k as int);
            assert(all.take(i + 1).drop_last() =~= all.take(i as int));
        }
        sorted.insert(k, x);
        assert(sorted@ =~= sv.take(k as int).push(x) + sv.skip(k as int));
        assert(break_views(sorted@) =~= s.take(k as int).push(break_view(x)) + s.skip(k as int));
        i = i + 1;
    }
    assert(all.take(n as int) =~= all);
    sorted
}

fn same_invariant_exec(a: &IntentInvariant, b: &IntentInvariant) -> (r: bool)
    ensures
        r == same_invariant(*a, *b),
{
    match (a, b) {
        (IntentInvariant::Custom(x), IntentInvariant::Custom(y)) => str_eq(x.as_str(), y.as_str()),
        (IntentInvariant::AppendOnly, IntentInvariant::AppendOnly) => true,
        (IntentInvariant::DeterministicOrdering, IntentInvariant::DeterministicOrdering) => true,
        (IntentInvariant::ThreadSafe, IntentInvariant::ThreadSafe) => true,
        (IntentInvariant::NoSideEffects, IntentInvariant::NoSideEffects) => true,
        (IntentInvariant::Idempotent, IntentInvariant::Idempotent) => true,
        (IntentInvariant::ZeroAllocation, IntentInvariant::ZeroAllocation) => true,
        (IntentInvariant::Stateless, IntentInvariant::Stateless) => true,
        _ => false,
    }
}

fn invariant_debug_exec(i: &IntentInvariant) -> (r: String)
    ensures
        r@ == invariant_debug(*i),
{
    match i {
        IntentInvariant::AppendOnly => String::from_str("AppendOnly"),
        IntentInvariant::DeterministicOrdering => String::from_str("DeterministicOrdering"),
        IntentInvariant::ThreadSafe => String::from_str("ThreadSafe"),
        IntentInvariant::NoSideEffects => String::from_str("NoSideEffects"),
        IntentInvariant::Idempotent => String::from_str("Idempotent"),
        IntentInvariant::ZeroAllocation => String::from_str("ZeroAllocation"),
        IntentInvariant::Stateless => String::from_str("Stateless"),
        IntentInvariant::Custom(s) => {
            let mut t = String::from_str("Custom(");
            let q = debug_string(s.as_str());
            t.append(q.as_str());
            t.append(")");
            t
        },
    }
}

/// The invariant of the last node with key `k` that carries an intent.
fn intent_at_exec<'a>(ns: &'a [UnifiedNode], keys: &Vec<String>, k: &String) -> (r: Option<&'a IntentInvariant>)
    requires
        keys@.len() == ns@.len(),
        forall|i: int| 0 <= i < ns@.len() ==> #[trigger] keys@[i]@ == node_key(ns@[i]),
    ensures
        match r {
            Some(c) => intent_at(ns@, k@) == Some(*c),
            None => intent_at(ns@, k@) is None,
        },
{
    let mut j: usize = ns.len();
    assert(ns@.take(j as int) =~= ns@);
    while j > 0
        invariant
            j <= ns@.len(),
            keys@.len() == ns@.len(),
            forall|i: int| 0 <= i < ns@.len() ==> #[trigger] keys@[i]@ == node_key(ns@[i]),
            intent_at(ns@, k@) == intent_at(ns@.take(j as int), k@),
        decreases j,
    {
        let ghost t = ns@.take(j as int);
        assert(t.last() == ns@[j - 1]);
        assert(t.drop_last() =~= ns@.take(j - 1));
        match &ns[j - 1].intent {
            Some(o) => {
                if str_eq(keys[j - 1].as_str(), k.as_str()) {
                    return Some(&o.invariant);
                }
            },
            None => {},
        }
        j = j - 1;
    }
    None
}

/// The intents lost between two snapshots: for each node of `baseline`
/// with an intent, in order, a break when the last node of `current` with
/// the same key and an intent keeps another invariant (`lost`), or when no
/// such node is left (`removed`); sorted by identifier, then node, equal
/// ones in order.
pub fn diff_intents(baseline: &[UnifiedNode], current: &[UnifiedNode]) -> (r: Vec<InvariantBreak>)
    ensures
        break_views(r@) == sort_breaks(lost_intents(baseline@, current@)),
{
    let cur_keys = keys_of(current);
    let mut breaks: Vec<InvariantBreak> = Vec::new();
    let mut i: usize = 0;
    proof { reveal_strlit("intent-drift"); }
    while i < baseline.len()
        invariant
            i <= baseline@.len(),
            cur_keys@.len() == current@.len(),
            forall|j: int| 0 <= j < current@.len() ==> #[trigger] cur_keys@[j]@ == node_key(current@[j]),
            break_views(breaks@) == lost_intents(baseline@.take(i as int), current@),
        decreases baseline@.len() - i,
    {
        let n = &baseline[i];
        assert(baseline@.take(i + 1).drop_last() =~= baseline@.take(i as int));
        assert(baseline@.take(i + 1).last() == baseline@[i as int]);
        let ghost before = breaks@;
        match &n.intent {
            Some(o) => {
                let key = node_key_exec(n);
                let was = invariant_debug_exec(&o.invariant);
                match intent_at_exec(current, &cur_keys, &key) {
                    Some(c) => {
                        if !same_invariant_exec(c, &o.invariant) {
                            let now = invariant_debug_exec(c);
                            let mut d = n.fq_name.clone();
                            d.append(" lost ");
                            d.append(was.as_str());
                            d.append(" intent (was ");
                            d.append(was.as_str());
                            d.append(", now Some(");
                            d.append(now.as_str());
                            d.append("))");
                            breaks.push(InvariantBreak {
                                spec_id: String::from_str("intent-drift"),
                                description: d,
                                node: Some(n.fq_name.clone()),
                            });
                            assert(break_views(breaks@) =~= break_views(before).push(
                                intent_break(n.fq_name@, o.invariant, Some(*c))));
                        }
                    },
                    None => {
                        let mut d = n.fq_name.clone();
                        d.append(" with ");
                        d.append(was.as_str());
                        d.append(" intent was removed");
                        breaks.push(InvariantBreak {
                            spec_id: String::from_str("intent-drift"),
                            description: d,
                            node: Some(n.fq_name.clone()),
                        });
                        assert(break_views(breaks@) =~= break_views(before).push(
                            intent_break(n.fq_name@, o.invariant, None)));
                    },
                }
            },
            None => {},
        }
        i = i + 1;
    }
    assert(baseline@.take(baseline@.len() as int) =~= baseline@);
    sort_breaks_exec(breaks)
}

/// The last position at or before `k` where `sep` starts in `s`.
pub open spec fn last_at(s: Seq<char>, sep: Seq<char>, k: int) -> Option<int>
    decreases k + 1,
{
    if k < 0 {
        None
    } else if k + sep.len() <= s.len() && s.subrange(k, k + sep.len()) == sep {
        Some(k)
    } else {
        last_at(s, sep, k - 1)
    }
}

/// The symbol's own name: what follows the last `::`, or else the last
/// `.`, or the whole name without either.
pub open spec fn base_name(fq: Seq<char>) -> Seq<char> {
    match last_at(fq, "::"@, fq.len() - 2) {
        Some(i) => fq.skip(i + 2),
        None => match last_at(fq, "."@, fq.len() - 1) {
            Some(i) => fq.skip(i + 1),
            None => fq,
        },
    }
}

/// The base names of the nodes, each once, in order of first appearance.
pub open spec fn distinct_names(ns: Seq<UnifiedNode>) -> Seq<Seq<char>>
    decreases ns.len(),
{
    if ns.len() == 0 {
        Seq::empty()
    } else {
        let prev = distinct_names(ns.drop_last());
        let b = base_name(ns.last().fq_name@);
        if prev.contains(b) { prev } else { prev.push(b) }
    }
}

/// The languages of the nodes named `name`, each once, in order of first
/// appearance.
pub open spec fn languages_named(ns: Seq<UnifiedNode>, name: Seq<char>) -> Seq<Language>
    decreases ns.len(),
{
    if ns.len() == 0 {
        Seq::empty()
    } else {
        let prev = languages_named(ns.drop_last(), name);
        let n = ns.last();
        if base_name(n.fq_name@) == name && !prev.contains(n.language) { prev.push(n.language) } else { prev }
    }
}

/// Names joined with a separator.
pub open spec fn join(ss: Seq<Seq<char>>, sep: Seq<char>) -> Seq<char>
    decreases ss.len(),
{
    if ss.len() == 0 {
        Seq::empty()
    } else if ss.len() == 1 {
        ss[0]
    } else {
        join(ss.drop_last(), sep) + sep + ss.last()
    }
}

/// A parity break with its texts as characters.
pub type ParityView = (Seq<char>, Seq<Language>, Seq<char>);

pub open spec fn parity_view(b: ParityBreak) -> ParityView {
    (b.symbol_name@, b.languages@, b.description@)
}

pub open spec fn parity_views(v: Seq<ParityBreak>) -> Seq<ParityView> {
    v.map_values(|b: ParityBreak| parity_view(b))
}

/// The languages of `base` named `name` that `cur` no longer has.
pub open spec fn lost_languages(base: Seq<UnifiedNode>, cur: Seq<UnifiedNode>, name: Seq<char>) -> Seq<Language> {
    languages_named(base, name).filter(|l: Language| !languages_named(cur, name).contains(l))
}

/// The break of a name that lost languages.
pub open spec fn parity_break(name: Seq<char>, lost: Seq<Language>) -> ParityView {
    (name, lost, "'"@ + name + "' lost in languages: "@ + join(lost.map_values(|l: Language| language_name(l)), ", "@))
}

/// For each base name of `names`, in order, present in `cur` and with
/// languages lost, its break.
pub open spec fn parity_breaks_of(names: Seq<Seq<char>>, base: Seq<UnifiedNode>, cur: Seq<UnifiedNode>) -> Seq<ParityView>
    decreases names.len(),
{
    if names.len() == 0 {
        Seq::empty()
    } else {
        let prev = parity_breaks_of(names.drop_last(), base, cur);
        let name = names.last();
        let lost = lost_languages(base, cur, name);
        if distinct_names(cur).contains(name) && lost.len() > 0 { prev.push(parity_break(name, lost)) } else { prev }
    }
}

/// Parity breaks are ordered by name.
pub open spec fn parity_lt(a: ParityView, b: ParityView) -> bool {
    lex_lt(a.0, b.0)
}

pub open spec fn insert_parity(s: Seq<ParityView>, x: ParityView) -> Seq<ParityView>
    decreases s.len(),
{
    if s.len() == 0 || !parity_lt(x, s.last()) {
        s.push(x)
    } else {
        insert_parity(s.drop_last(), x).push(s.last())
    }
}

/// The breaks in order of name, equal ones in the order they came.
pub open spec fn sort_parity(s: Seq<ParityView>) -> Seq<ParityView>
    decreases s.len(),
{
    if s.len() == 0 { s } else { insert_parity(sort_parity(s.drop_last()), s.last()) }
}

proof fn lemma_insert_parity(s: Seq<ParityView>, x: ParityView, k: int)
    requires
        0 <= k <= s.len(),
        k == 0 || !parity_lt(x, s[k - 1]),
        forall|j: int| k <= j < s.len() ==> parity_lt(x, #[trigger] s[j]),
    ensures
        insert_parity(s, x) == s.take(k).push(x) + s.skip(k),
    decreases s.len(),
{
    if s.len() == 0 {
        assert(s.take(k).push(x) + s.skip(k) =~= seq![x]);
    } else if k == s.len() {
        assert(s.take(k).push(x) + s.skip(k) =~= s.push(x));
    } else {
        let d = s.drop_last();
        assert forall|j: int| k <= j < d.len() implies parity_lt(x, #[trigger] d[j]) by {
            assert(d[j] == s[j]);
        }
        if k > 0 {
            assert(d[k - 1] == s[k - 1]);
        }
        assert(parity_lt(x, s[s.len() - 1]));
        lemma_insert_parity(d, x, k);
        assert(d.take(k) =~= s.take(k));
        assert(s.take(k).push(x) + s.skip(k) =~= (d.take(k).push(x) + d.skip(k)).push(s.last()));
    }
}

fn sort_parity_exec(v: Vec<ParityBreak>) -> (r: Vec<ParityBreak>)
    ensures
        parity_views(r@) == sort_parity(parity_views(v@)),
{
    let mut sorted: Vec<ParityBreak> = Vec::new();
    let mut rest = v;
    let ghost all = parity_views(rest@);
    let n = rest.len();
    let mut i: usize = 0;
    while i < n
        invariant
            n == all.len(),
            i <= n,
            rest@.len() == n - i,
            parity_views(rest@) == all.skip(i as int),
            parity_views(sorted@) == sort_parity(all.take(i as int)),
        decreases n - i,
    {
        let ghost r0 = rest@;
        let x = rest.remove(0);
        assert(x == r0[0]);
        assert(parity_views(r0)[0] == parity_view(x));
        assert(rest@ =~= r0.skip(1));
        assert(parity_views(rest@) =~= parity_views(r0).skip(1));
        assert(parity_view(x) == all[i as int]);
        assert(parity_views(rest@) =~= all.skip(i + 1));
        let ghost s = parity_views(sorted@);
        let ghost sv = sorted@;
        let mut k: usize = sorted.len();
        while k > 0 && str_lt(x.symbol_name.as_str(), sorted[k - 1].symbol_name.as_str())
            invariant
                k <= sorted@.len(),
                sv == sorted@,
                s == parity_views(sv),
                forall|j: int| k <= j < s.len() ==> parity_lt(parity_view(x), #[trigger] s[j]),
            decreases k,
        {
            k = k - 1;
        }
        proof {
            lemma_insert_parity(s, parity_view(x), k as int);
            assert(all.take(i + 1).drop_last() =~= all.take(i as int));
        }
        sorted.insert(k, x);
        assert(sorted@ =~= sv.take(k as int).push(x) + sv.skip(k as int));
        assert(parity_views(sorted@) =~= s.take(k as int).push(parity_view(x)) + s.skip(k as int));
        i = i + 1;
    }
    assert(all.take(n as int) =~= all);
    sorted
}

/// The last position at or before `k` where `sep` (one or two colons, or a
/// dot) starts in `s`.
fn last_sep_exec(s: &str, two_colons: bool) -> (r: Option<usize>)
    ensures
        ({
            let sep = if two_colons { "::"@ } else { "."@ };
            match r {
                Some(i) => last_at(s@, sep, s@.len() - sep.len()) == Some(i as int) && i + sep.len() <= s@.len(),
                None => last_at(s@, sep, s@.len() - sep.len()) is None,
            }
        }),
{
    proof { reveal_strlit("::"); reveal_strlit("."); }
    let ghost sep = if two_colons { "::"@ } else { "."@ };
    let n = s.unicode_len();
    let w: usize = if two_colons { 2 } else { 1 };
    if n < w {
        proof {
            assert(s@.len() - sep.len() < 0);
        }
        return None;
    }
    let mut k: usize = n - w + 1;
    while k > 0
        invariant
            k <= n - w + 1,
            n == s@.len(),
            w == sep.len(),
            w == (if two_colons { 2usize } else { 1usize }),
            w <= n,
            sep == (if two_colons { "::"@ } else { "."@ }),
            last_at(s@, sep, s@.len() - sep.len()) == last_at(s@, sep, k - 1),
        decreases k,
    {
        let i = k - 1;
        let hit = if two_colons {
            s.get_char(i) == ':' && s.get_char(i + 1) == ':'
        } else {
            s.get_char(i) == '.'
        };
        proof {
            reveal_strlit("::");
            reveal_strlit(".");
            if two_colons {
                let sub = s@.subrange(i as int, i + 2);
                assert(sub[0] == s@[i as int] && sub[1] == s@[i + 1]);
                assert(sep[0] == ':' && sep[1] == ':' && sep.len() == 2);
                if hit {
                    assert(sub =~= sep);
                }
            } else {
                let sub = s@.subrange(i as int, i + 1);
                assert(sub[0] == s@[i as int]);
                assert(sep[0] == '.' && sep.len() == 1);
                if hit {
                    assert(sub =~= sep);
                }
            }
        }
        if hit {
            return Some(i);
        }
        k = k - 1;
    }
    None
}

/// The base name of a symbol.
fn base_name_exec(fq: &str) -> (r: String)
    ensures
        r@ == base_name(fq@),
{
    proof { reveal_strlit("::"); reveal_strlit("."); }
    let n = fq.unicode_len();
    match last_sep_exec(fq, true) {
        Some(i) => {
            let t = fq.substring_char(i + 2, n);
            assert(t@ =~= fq@.skip(i + 2));
            String::from_str(t)
        },
        None => match last_sep_exec(fq, false) {
            Some(i) => {
                let t = fq.substring_char(i + 1, n);
                assert(t@ =~= fq@.skip(i + 1));
                String::from_str(t)
            },
            None => String::from_str(fq),
        },
    }
}

/// The base names of the nodes, in order.
fn base_names_of(ns: &[UnifiedNode]) -> (r: Vec<String>)
    ensures
        r@.len() == ns@.len(),
        forall|i: int| 0 <= i < ns@.len() ==> #[trigger] r@[i]@ == base_name(ns@[i].fq_name@),
{
    let mut r: Vec<String> = Vec::new();
    let mut i: usize = 0;
    while i < ns.len()
        invariant
            i <= ns@.len(),
            r@.len() == i,
            forall|j: int| 0 <= j < i ==> #[trigger] r@[j]@ == base_name(ns@[j].fq_name@),
        decreases ns@.len() - i,
    {
        r.push(base_name_exec(ns[i].fq_name.as_str()));
        i = i + 1;
    }
    r
}

pub open spec fn string_views(v: Seq<String>) -> Seq<Seq<char>> {
    v.map_values(|x: String| x@)
}

fn contains_name(v: &Vec<String>, name: &String) -> (r: bool)
    ensures
        r == string_views(v@).contains(name@),
{
    let mut i: usize = 0;
    while i < v.len()
        invariant
            i <= v@.len(),
            forall|j: int| 0 <= j < i ==> v@[j]@ != name@,
        decreases v@.len() - i,
    {
        if str_eq(v[i].as_str(), name.as_str()) {
            assert(string_views(v@)[i as int] == name@);
            return true;
        }
        i = i + 1;
    }
    proof {
        if string_views(v@).contains(name@) {
            let j = choose|j: int| 0 <= j < string_views(v@).len() && string_views(v@)[j] == name@;
            assert(v@[j]@ == name@);
        }
    }
    false
}

/// The distinct base names, in order of first appearance.
fn distinct_names_exec(ns: Ghost<Seq<UnifiedNode>>, names: &Vec<String>) -> (r: Vec<String>)
    requires
        names@.len() == ns@.len(),
        forall|i: int| 0 <= i < ns@.len() ==> #[trigger] names@[i]@ == base_name(ns@[i].fq_name@),
    ensures
        string_views(r@) == distinct_names(ns@),
{
    let mut out: Vec<String> = Vec::new();
    let mut i: usize = 0;
    while i < names.len()
        invariant
            i <= names@.len(),
            names@.len() == ns@.len(),
            forall|j: int| 0 <= j < ns@.len() ==> #[trigger] names@[j]@ == base_name(ns@[j].fq_name@),
            string_views(out@) == distinct_names(ns@.take(i as int)),
        decreases names@.len() - i,
    {
        assert(ns@.take(i + 1).drop_last() =~= ns@.take(i as int));
        assert(ns@.take(i + 1).last() == ns@[i as int]);
        let b = &names[i];
        if !contains_name(&out, b) {
            let ghost before = out@;
            out.push(b.clone());
            assert(string_views(out@) =~= string_views(before).push(b@));
        }
        i = i + 1;
    }
    assert(ns@.take(ns@.len() as int) =~= ns@);
    out
}

proof fn lemma_contains_push<A>(s: Seq<A>, x: A, v: A)
    ensures
        s.push(x).contains(v) == (s.contains(v) || x == v),
{
    if s.push(x).contains(v) && x != v {
        let k = choose|k: int| 0 <= k < s.push(x).len() && s.push(x)[k] == v;
        assert(k < s.len());
        assert(s[k] == v);
    }
    if s.contains(v) {
        let k = choose|k: int| 0 <= k < s.len() && s[k] == v;
        assert(s.push(x)[k] == v);
    }
    if x == v {
        assert(s.push(x)[s.len() as int] == v);
    }
}

/// The distinct languages of the nodes named `name`, in order of first
/// appearance.
fn languages_named_exec(ns: &[UnifiedNode], names: &Vec<String>, name: &String) -> (r: Vec<Language>)
    requires
        names@.len() == ns@.len(),
        forall|i: int| 0 <= i < ns@.len() ==> #[trigger] names@[i]@ == base_name(ns@[i].fq_name@),
    ensures
        r@ == languages_named(ns@, name@),
{
    let mut out: Vec<Language> = Vec::new();
    let mut i: usize = 0;
    while i < ns.len()
        invariant
            i <= ns@.len(),
            names@.len() == ns@.len(),
            forall|j: int| 0 <= j < ns@.len() ==> #[trigger] names@[j]@ == base_name(ns@[j].fq_name@),
            out@ == languages_named(ns@.take(i as int), name@),
        decreases ns@.len() - i,
    {
        assert(ns@.take(i + 1).drop_last() =~= ns@.take(i as int));
        assert(ns@.take(i + 1).last() == ns@[i as int]);
        if str_eq(names[i].as_str(), name.as_str()) {
            let l = ns[i].language;
            let mut found = false;
            let mut j: usize = 0;
            while j < out.len()
                invariant
                    j <= out@.len(),
                    found == out@.take(j as int).contains(l),
                decreases out@.len() - j,
            {
                if out[j] == l {
                    found = true;
                }
                assert(out@.take(j + 1) =~= out@.take(j as int).push(out@[j as int]));
                proof { lemma_contains_push(out@.take(j as int), out@[j as int], l); }
                j = j + 1;
            }
            assert(out@.take(out@.len() as int) =~= out@);
            if !found {
                out.push(l);
            }
        }
        i = i + 1;
    }
    assert(ns@.take(ns@.len() as int) =~= ns@);
    out
}

proof fn lemma_filter_push(s: Seq<Language>, x: Language, p: spec_fn(Language) -> bool)
    ensures
        s.push(x).filter(p) == if p(x) { s.filter(p).push(x) } else { s.filter(p) },
{
    assert(s.push(x).drop_last() =~= s);
    reveal(Seq::filter);
}

/// The languages of `base` that `cur` lost, and the text naming them.
fn lost_of(base_langs: &Vec<Language>, cur_langs: &Vec<Language>) -> (r: (Vec<Language>, String))
    ensures
        r.0@ == base_langs@.filter(|l: Language| !cur_langs@.contains(l)),
        r.1@ == join(r.0@.map_values(|l: Language| language_name(l)), ", "@),
{
    proof { reveal_strlit(", "); }
    let ghost p = |l: Language| !cur_langs@.contains(l);
    let mut lost: Vec<Language> = Vec::new();
    let mut text = String::new();
    let mut i: usize = 0;
    assert(base_langs@.take(0).filter(p) =~= Seq::<Language>::empty());
    while i < base_langs.len()
        invariant
            i <= base_langs@.len(),
            p == (|l: Language| !cur_langs@.contains(l)),
            lost@ == base_langs@.take(i as int).filter(p),
            text@ == join(lost@.map_values(|l: Language| language_name(l)), ", "@),
        decreases base_langs@.len() - i,
    {
        let l = base_langs[i];
        let mut kept = false;
        let mut j: usize = 0;
        while j < cur_langs.len()
            invariant
                j <= cur_langs@.len(),
                kept == cur_langs@.take(j as int).contains(l),
            decreases cur_langs@.len() - j,
        {
            if cur_langs[j] == l {
                kept = true;
            }
            assert(cur_langs@.take(j + 1) =~= cur_langs@.take(j as int).push(cur_langs@[j as int]));
            proof { lemma_contains_push(cur_langs@.take(j as int), cur_langs@[j as int], l); }
            j = j + 1;
        }
        assert(cur_langs@.take(cur_langs@.len() as int) =~= cur_langs@);
        proof {
            assert(base_langs@.take(i + 1) =~= base_langs@.take(i as int).push(l));
            lemma_filter_push(base_langs@.take(i as int), l, p);
        }
        if !kept {
            let ghost before = lost@;
            let ghost tb = text@;
            if lost.len() > 0 {
                text.append(", ");
            }
            text.append(l.as_str());
            lost.push(l);
            proof {
                let names = lost@.map_values(|x: Language| language_name(x));
                assert(names.drop_last() =~= before.map_values(|x: Language| language_name(x)));
                if before.len() == 0 {
                    assert(names =~= seq![language_name(l)]);
                    assert(text@ =~= language_name(l));
                } else {
                    assert(text@ =~= tb + ", "@ + language_name(l));
                }
            }
        }
        i = i + 1;
    }
    assert(base_langs@.take(base_langs@.len() as int) =~= base_langs@);
    (lost, text)
}

/// The symbols that left a language between two snapshots: for each base
/// name of `baseline` (the part after the last `::` or `.`) that `current`
/// also has, the languages it had in `baseline` and has no more in
/// `current`, where there are any, each once in order of first appearance,
/// with a text naming them; the breaks sorted by name.
pub fn diff_parity(baseline: &[UnifiedNode], current: &[UnifiedNode]) -> (r: Vec<ParityBreak>)
    ensures
        parity_views(r@) == sort_parity(parity_breaks_of(distinct_names(baseline@), baseline@, current@)),
{
    proof { reveal_strlit("'"); reveal_strlit("' lost in languages: "); }
    let base_names = base_names_of(baseline);
    let cur_names = base_names_of(current);
    let names = distinct_names_exec(Ghost(baseline@), &base_names);
    let cur_distinct = distinct_names_exec(Ghost(current@), &cur_names);
    let ghost nv = string_views(names@);
    let mut breaks: Vec<ParityBreak> = Vec::new();
    let mut i: usize = 0;
    while i < names.len()
        invariant
            i <= names@.len(),
            nv == string_views(names@),
            nv == distinct_names(baseline@),
            string_views(cur_distinct@) == distinct_names(current@),
            base_names@.len() == baseline@.len(),
            forall|j: int| 0 <= j < baseline@.len() ==> #[trigger] base_names@[j]@ == base_name(baseline@[j].fq_name@),
            cur_names@.len() == current@.len(),
            forall|j: int| 0 <= j < current@.len() ==> #[trigger] cur_names@[j]@ == base_name(current@[j].fq_name@),
            parity_views(breaks@) == parity_breaks_of(nv.take(i as int), baseline@, current@),
        decreases names@.len() - i,
    {
        let name = &names[i];
        assert(nv.take(i + 1).drop_last() =~= nv.take(i as int));
        assert(nv.take(i + 1).last() == name@);
        if contains_name(&cur_distinct, name) {
            let bl = languages_named_exec(baseline, &base_names, name);
            let cl = languages_named_exec(current, &cur_names, name);
            let (lost, text) = lost_of(&bl, &cl);
            if lost.len() > 0 {
                let mut d = String::from_str("'");
                d.append(name.as_str());
                d.append("' lost in languages: ");
                d.append(text.as_str());
                let ghost before = breaks@;
                breaks.push(ParityBreak { symbol_name: name.clone(), languages: lost, description: d });
                assert(parity_views(breaks@) =~= parity_views(before).push(
                    parity_break(name@, lost_languages(baseline@, current@, name@))));
            }
        }
        i = i + 1;
    }
    assert(nv.take(nv.len() as int) =~= nv);
    sort_parity_exec(breaks)
}

} // verus!

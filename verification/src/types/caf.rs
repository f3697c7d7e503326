//! Canonical algebraic form: node hashes in which the order of children
//! counts only where the node kind is order sensitive.

use vstd::prelude::*;
use vstd::string::*;
use vstd::utf8::encode_utf8;
use crate::text::{bytes_to_hex, hex_bytes, lemma_lex_asymmetric, lemma_lex_total, lemma_lex_transitive, lex_lt, str_eq, str_lt};
use crate::types::hash::{sha256_digest, sha256_of};
use crate::types::node_id::NodeId;
use crate::types::semantic::{
    bind_innermost, canonical_name, resolve_in, scope_context_of, top_scope, AlgebraResolver, CafContext, Commutativity,
    ScopeContext,
};

verus! {

/// A hash value with the name of its algorithm.
#[derive(Debug, PartialEq, Eq, Hash)]
pub struct CafHash {
    pub algorithm: String,
    pub value: String,
}

impl Clone for CafHash {
    fn clone(&self) -> (r: Self)
        ensures
            r == *self,
    {
        CafHash { algorithm: self.algorithm.clone(), value: self.value.clone() }
    }
}

/// A copy of a list of hashes.
pub fn clone_hashes(v: &Vec<CafHash>) -> (r: Vec<CafHash>)
    ensures
        r@ == v@,
{
    let mut r: Vec<CafHash> = Vec::new();
    let mut i: usize = 0;
    while i < v.len()
        invariant
            i <= v@.len(),
            r@ == v@.take(i as int),
        decreases v@.len() - i,
    {
        r.push(v[i].clone());
        assert(v@.take(i + 1) =~= v@.take(i as int).push(v@[i as int]));
        i = i + 1;
    }
    assert(v@.take(v@.len() as int) =~= v@);
    r
}

/// Lower-case hexadecimal SHA-256 of a byte sequence.
pub open spec fn sha256_hex(data: Seq<u8>) -> Seq<char> {
    hex_bytes(sha256_of(data))
}

/// Two hashes are the same value under the same algorithm.
pub open spec fn same_hash(a: CafHash, b: CafHash) -> bool {
    a.algorithm@ == b.algorithm@ && a.value@ == b.value@
}

impl CafHash {
    /// The SHA-256 hash of `data`, in lower-case hexadecimal.
    pub fn sha256(data: &[u8]) -> (r: Self)
        ensures
            r.algorithm@ == "sha256"@,
            r.value@ == sha256_hex(data@),
    {
        let d = sha256_digest(data);
        CafHash { algorithm: String::from_str("sha256"), value: bytes_to_hex(d.as_slice()) }
    }

    /// The hash of the two values joined by a colon.
    pub fn combine(&self, other: &CafHash) -> (r: Self)
        ensures
            r.algorithm@ == "sha256"@,
            r.value@ == sha256_hex(encode_utf8(self.value@ + ":"@ + other.value@)),
    {
        let mut joined = self.value.clone();
        joined.append(":");
        joined.append(other.value.as_str());
        Self::sha256(joined.as_str().as_bytes())
    }

    /// Whether two hashes are equal.
    pub fn same_as(&self, other: &CafHash) -> (r: bool)
        ensures
            r == same_hash(*self, *other),
    {
        str_eq(self.algorithm.as_str(), other.algorithm.as_str()) && str_eq(self.value.as_str(), other.value.as_str())
    }
}

/// A node in canonical form.
#[derive(Debug, Clone)]
pub struct CafNode {
    pub kind: String,
    pub semantic_id: Option<String>,
    pub children: Vec<CafHash>,
    pub commutativity: Commutativity,
    pub byte_start: usize,
    pub byte_end: usize,
    pub parent_id: Option<NodeId>,
}

/// The values of a sequence of hashes.
pub open spec fn hash_values(hs: Seq<CafHash>) -> Seq<Seq<char>> {
    hs.map_values(|h: CafHash| h.value@)
}

/// Inserts `x` after every element that does not come after it.
pub open spec fn insert_sorted(s: Seq<Seq<char>>, x: Seq<char>) -> Seq<Seq<char>>
    decreases s.len(),
{
    if s.len() == 0 || !lex_lt(x, s.last()) {
        s.push(x)
    } else {
        insert_sorted(s.drop_last(), x).push(s.last())
    }
}

/// The values in ascending lexicographic order (a stable insertion sort).
pub open spec fn sort_values(v: Seq<Seq<char>>) -> Seq<Seq<char>>
    decreases v.len(),
{
    if v.len() == 0 {
        v
    } else {
        insert_sorted(sort_values(v.drop_last()), v.last())
    }
}

/// Ascending order: no value comes after a later one.
pub open spec fn values_sorted(s: Seq<Seq<char>>) -> bool {
    forall|i: int, j: int| 0 <= i < j < s.len() ==> !lex_lt(#[trigger] s[j], #[trigger] s[i])
}

/// `a` does not come after `b` and `b` not after `c`, so `a` not after `c`.
proof fn lemma_le_transitive(a: Seq<char>, b: Seq<char>, c: Seq<char>)
    requires
        !lex_lt(b, a),
        !lex_lt(c, b),
    ensures
        !lex_lt(c, a),
{
    lemma_lex_total(a, b);
    lemma_lex_total(b, c);
    if lex_lt(c, a) {
        if lex_lt(a, b) {
            lemma_lex_transitive(c, a, b);
        }
    }
}

proof fn lemma_insert_sorted_props(s: Seq<Seq<char>>, x: Seq<char>)
    requires
        values_sorted(s),
    ensures
        values_sorted(insert_sorted(s, x)),
        insert_sorted(s, x).to_multiset() == s.to_multiset().insert(x),
    decreases s.len(),
{
    broadcast use vstd::seq_lib::group_to_multiset_ensures;
    if s.len() == 0 || !lex_lt(x, s.last()) {
        let r = s.push(x);
        assert forall|i: int, j: int| 0 <= i < j < r.len() implies !lex_lt(#[trigger] r[j], #[trigger] r[i]) by {
            if j == s.len() {
                assert(r[i] == s[i]);
                if i < s.len() - 1 {
                    assert(!lex_lt(s[s.len() - 1], s[i]));
                    lemma_le_transitive(s[i], s[s.len() - 1], x);
                }
            } else {
                assert(r[i] == s[i] && r[j] == s[j]);
            }
        }
    } else {
        let d = s.drop_last();
        let y = s.last();
        assert(values_sorted(d)) by {
            assert forall|i: int, j: int| 0 <= i < j < d.len() implies !lex_lt(#[trigger] d[j], #[trigger] d[i]) by {
                assert(d[i] == s[i] && d[j] == s[j]);
            }
        }
        lemma_insert_sorted_props(d, x);
        let t = insert_sorted(d, x);
        let r = t.push(y);
        assert(s =~= d.push(y));
        assert forall|i: int| 0 <= i < t.len() implies !lex_lt(y, #[trigger] t[i]) by {
            assert(t.to_multiset().count(t[i]) > 0);
            assert(d.to_multiset().insert(x).count(t[i]) > 0);
            if t[i] == x {
                lemma_lex_asymmetric(x, y);
            } else {
                assert(d.to_multiset().count(t[i]) > 0);
                let k = choose|k: int| 0 <= k < d.len() && d[k] == t[i];
                assert(s[k] == d[k]);
                assert(!lex_lt(s[s.len() - 1], s[k]));
            }
        }
        assert forall|i: int, j: int| 0 <= i < j < r.len() implies !lex_lt(#[trigger] r[j], #[trigger] r[i]) by {
            if j == t.len() {
                assert(r[i] == t[i]);
            } else {
                assert(r[i] == t[i] && r[j] == t[j]);
            }
        }
    }
}

/// Sorting yields ascending values, the same values with the same counts.
pub proof fn lemma_sort_values_props(v: Seq<Seq<char>>)
    ensures
        values_sorted(sort_values(v)),
        sort_values(v).to_multiset() == v.to_multiset(),
    decreases v.len(),
{
    broadcast use vstd::seq_lib::group_to_multiset_ensures;
    if v.len() == 0 {
        assert(values_sorted(v));
    } else {
        lemma_sort_values_props(v.drop_last());
        lemma_insert_sorted_props(sort_values(v.drop_last()), v.last());
        assert(v =~= v.drop_last().push(v.last()));
    }
}

/// Two ascending sequences with the same values and counts are equal.
pub proof fn lemma_sorted_unique(a: Seq<Seq<char>>, b: Seq<Seq<char>>)
    requires
        values_sorted(a),
        values_sorted(b),
        a.to_multiset() == b.to_multiset(),
    ensures
        a == b,
    decreases a.len(),
{
    broadcast use vstd::seq_lib::group_to_multiset_ensures;
    broadcast use vstd::multiset::group_multiset_axioms;
    vstd::seq_lib::to_multiset_len(a);
    vstd::seq_lib::to_multiset_len(b);
    assert(a.len() == b.len());
    if a.len() > 0 {
        let x = a.last();
        let y = b.last();
        assert(b.to_multiset().count(y) > 0);
        let i = choose|i: int| 0 <= i < a.len() && a[i] == y;
        assert(a.to_multiset().count(x) > 0);
        let j = choose|j: int| 0 <= j < b.len() && b[j] == x;
        if i < a.len() - 1 {
            assert(!lex_lt(a[a.len() - 1], a[i]));
        }
        if j < b.len() - 1 {
            assert(!lex_lt(b[b.len() - 1], b[j]));
        }
        lemma_lex_total(x, y);
        let da = a.drop_last();
        let db = b.drop_last();
        assert(a =~= da.push(x));
        assert(b =~= db.push(y));
        assert(da.to_multiset() =~= db.to_multiset()) by {
            assert(da.to_multiset().insert(x) == db.to_multiset().insert(x));
            assert(da.to_multiset() =~= da.to_multiset().insert(x).remove(x));
            assert(db.to_multiset() =~= db.to_multiset().insert(x).remove(x));
        }
        assert(values_sorted(da)) by {
            assert forall|p: int, q: int| 0 <= p < q < da.len() implies !lex_lt(#[trigger] da[q], #[trigger] da[p]) by {
                assert(da[p] == a[p] && da[q] == a[q]);
            }
        }
        assert(values_sorted(db)) by {
            assert forall|p: int, q: int| 0 <= p < q < db.len() implies !lex_lt(#[trigger] db[q], #[trigger] db[p]) by {
                assert(db[p] == b[p] && db[q] == b[q]);
            }
        }
        lemma_sorted_unique(da, db);
    } else {
        assert(a =~= b);
    }
}

/// Every value followed by a colon, concatenated.
pub open spec fn join_values(v: Seq<Seq<char>>) -> Seq<char>
    decreases v.len(),
{
    if v.len() == 0 {
        Seq::empty()
    } else {
        join_values(v.drop_last()) + v.last() + ":"@
    }
}

/// The child values in the order that counts for a node of the given
/// commutativity: as given when order sensitive, sorted otherwise.
pub open spec fn ordered_values(c: Commutativity, v: Seq<Seq<char>>) -> Seq<Seq<char>> {
    if c == Commutativity::OrderSensitive { v } else { sort_values(v) }
}

/// The canonical hash value of a node from its commutativity and the
/// values of its children's hashes.
pub open spec fn caf_value(c: Commutativity, v: Seq<Seq<char>>) -> Seq<char> {
    sha256_hex(encode_utf8(join_values(ordered_values(c, v))))
}

proof fn lemma_insert_sorted_split(s: Seq<Seq<char>>, x: Seq<char>, k: int)
    requires
        0 <= k <= s.len(),
        k == 0 || !lex_lt(x, s[k - 1]),
        forall|j: int| k <= j < s.len() ==> lex_lt(x, #[trigger] s[j]),
    ensures
        insert_sorted(s, x) == s.take(k).push(x) + s.skip(k),
    decreases s.len(),
{
    if s.len() == 0 {
        assert(s.take(k).push(x) + s.skip(k) =~= seq![x]);
    } else if k == s.len() {
        assert(s.take(k) =~= s);
        assert(s.skip(k) =~= Seq::<Seq<char>>::empty());
        assert(s.take(k).push(x) + s.skip(k) =~= s.push(x));
    } else {
        let d = s.drop_last();
        assert forall|j: int| k <= j < d.len() implies lex_lt(x, #[trigger] d[j]) by {
            assert(d[j] == s[j]);
        }
        if k > 0 {
            assert(d[k - 1] == s[k - 1]);
        }
        assert(lex_lt(x, s[s.len() - 1]));
        lemma_insert_sorted_split(d, x, k);
        assert(d.take(k) =~= s.take(k));
        assert(s.take(k).push(x) + s.skip(k) =~= (d.take(k).push(x) + d.skip(k)).push(s.last()));
    }
}

/// Inserts `x` into `sorted` where `insert_sorted` puts it.
fn insert_value(sorted: &mut Vec<String>, x: String)
    ensures
        final(sorted)@.map_values(|s: String| s@) == insert_sorted(old(sorted)@.map_values(|s: String| s@), x@),
{
    let ghost s = sorted@.map_values(|s: String| s@);
    let mut k: usize = sorted.len();
    while k > 0 && str_lt(x.as_str(), sorted[k - 1].as_str())
        invariant
            k <= sorted@.len(),
            s == sorted@.map_values(|s: String| s@),
            forall|j: int| k <= j < s.len() ==> lex_lt(x@, #[trigger] s[j]),
        decreases k,
    {
        k = k - 1;
    }
    proof { lemma_insert_sorted_split(s, x@, k as int); }
    sorted.insert(k, x);
    assert(sorted@.map_values(|s: String| s@) =~= s.take(k as int).push(x@) + s.skip(k as int));
}

/// Computes the canonical hash value of a node from its commutativity and
/// its children's hashes.
fn canonical_hash(commutativity: Commutativity, children: &[CafHash]) -> (r: CafHash)
    ensures
        r.algorithm@ == "sha256"@,
        r.value@ == caf_value(commutativity, hash_values(children@)),
{
    let ghost v = hash_values(children@);
    let mut ordered: Vec<String> = Vec::new();
    let mut i: usize = 0;
    while i < children.len()
        invariant
            i <= children@.len(),
            v == hash_values(children@),
            ordered@.map_values(|s: String| s@) == if commutativity == Commutativity::OrderSensitive {
                v.take(i as int)
            } else {
                sort_values(v.take(i as int))
            },
        decreases children@.len() - i,
    {
        let x = children[i].value.clone();
        assert(v.take(i + 1).drop_last() =~= v.take(i as int));
        assert(v[i as int] == x@);
        match commutativity {
            Commutativity::OrderSensitive => {
                let ghost before = ordered@;
                ordered.push(x);
                assert(ordered@.map_values(|s: String| s@) =~= before.map_values(|s: String| s@).push(v[i as int]));
                assert(v.take(i as int).push(v[i as int]) =~= v.take(i + 1));
            },
            _ => {
                insert_value(&mut ordered, x);
            },
        }
        i = i + 1;
    }
    assert(v.take(children@.len() as int) =~= v);
    let ghost ov = ordered@.map_values(|s: String| s@);
    let mut combined = String::new();
    let mut j: usize = 0;
    proof { reveal_strlit(""); }
    while j < ordered.len()
        invariant
            j <= ordered@.len(),
            ov == ordered@.map_values(|s: String| s@),
            combined@ == join_values(ov.take(j as int)),
        decreases ordered@.len() - j,
    {
        assert(ov.take(j + 1).drop_last() =~= ov.take(j as int));
        combined.append(ordered[j].as_str());
        combined.append(":");
        j = j + 1;
    }
    assert(ov.take(ordered@.len() as int) =~= ov);
    CafHash::sha256(combined.as_str().as_bytes())
}

/// The bytes of no data.
pub open spec fn no_bytes() -> Seq<u8> {
    Seq::empty()
}

/// The hash a builder gives a node: the hash of no data for a leaf, the
/// canonical hash of its children otherwise.
pub open spec fn built_hash_value(c: Commutativity, v: Seq<Seq<char>>) -> Seq<char> {
    if v.len() == 0 { sha256_hex(no_bytes()) } else { caf_value(c, v) }
}

/// Builds canonical nodes of one language with a resolver, keeping the
/// naming scopes of the declarations it meets.
pub struct CafBuilder<'a, R: AlgebraResolver> {
    resolver: &'a R,
    language: &'a str,
    scope: CafContext,
}

impl<'a, R: AlgebraResolver> CafBuilder<'a, R> {
    pub closed spec fn spec_language(&self) -> Seq<char> {
        self.language@
    }

    pub closed spec fn spec_scope(&self) -> CafContext {
        self.scope
    }

    /// The resolver the builder asks for the commutativity of node kinds.
    pub closed spec fn spec_resolver(&self) -> R {
        *self.resolver
    }

    pub fn new(resolver: &'a R, language: &'a str) -> (r: Self)
        ensures
            r.spec_resolver() == *resolver,
            r.spec_language() == language@,
            r.spec_scope().spec_scopes() == seq![Map::<Seq<char>, Seq<char>>::empty()],
            r.spec_scope().spec_var_counter() == 0,
            r.spec_scope().spec_func_counter() == 0,
            r.spec_scope().spec_type_counter() == 0,
    {
        Self { resolver, language, scope: CafContext::new() }
    }

    /// The builder with its naming scopes replaced.
    pub fn with_scope(self, scope: CafContext) -> (r: Self)
        ensures
            r.spec_language() == self.spec_language(),
            r.spec_scope() == scope,
            r.spec_resolver() == self.spec_resolver(),
    {
        let mut b = self;
        b.scope = scope;
        b
    }

    /// Builds a node of kind `kind` over children hashes, with the
    /// commutativity the resolver gives it in the current context, and its
    /// canonical hash.
    pub fn build(
        &mut self,
        kind: &str,
        child_hashes: Vec<CafHash>,
        start: usize,
        end: usize,
        parent_id: Option<NodeId>,
    ) -> (r: (CafNode, CafHash))
        ensures
            r.0.kind@ == kind@,
            r.0.semantic_id is None,
            r.0.children@ == child_hashes@,
            r.0.byte_start == start,
            r.0.byte_end == end,
            r.0.parent_id == parent_id,
            r.1.algorithm@ == "sha256"@,
            r.1.value@ == built_hash_value(r.0.commutativity, hash_values(child_hashes@)),
            old(self).spec_resolver().spec_resolves(kind@, old(self).spec_language(), scope_context_of(old(self).spec_scope()), r.0.commutativity),
            final(self).spec_scope() == old(self).spec_scope(),
            final(self).spec_language() == old(self).spec_language(),
            final(self).spec_resolver() == old(self).spec_resolver(),
    {
        let context = self.scope.scope_context();
        let commutativity = self.resolver.resolve(kind, self.language, &context);
        let hash = Self::compute_caf_hash(commutativity, child_hashes.as_slice());
        let node = CafNode {
            kind: String::from_str(kind),
            semantic_id: None,
            children: child_hashes,
            commutativity,
            byte_start: start,
            byte_end: end,
            parent_id,
        };
        (node, hash)
    }

    /// The canonical hash of a node of the given commutativity over
    /// children hashes; a leaf hashes no data.
    pub fn compute_caf_hash(commutativity: Commutativity, child_hashes: &[CafHash]) -> (r: CafHash)
        ensures
            r.algorithm@ == "sha256"@,
            r.value@ == built_hash_value(commutativity, hash_values(child_hashes@)),
    {
        if child_hashes.len() == 0 {
            let empty: Vec<u8> = Vec::new();
            assert(empty@ =~= no_bytes());
            return CafHash::sha256(empty.as_slice());
        }
        canonical_hash(commutativity, child_hashes)
    }

    /// Declares a variable in the builder's scopes.
    pub fn declare_var(&mut self, name: &str) -> (r: String)
        requires
            old(self).spec_scope().spec_var_counter() < usize::MAX,
        ensures
            r@ == canonical_name("$V_"@, old(self).spec_scope().spec_var_counter() as nat),
            final(self).spec_scope().spec_scopes() == bind_innermost(old(self).spec_scope().spec_scopes(), name@, r@),
            final(self).spec_scope().spec_var_counter() == old(self).spec_scope().spec_var_counter() + 1,
            final(self).spec_scope().spec_func_counter() == old(self).spec_scope().spec_func_counter(),
            final(self).spec_scope().spec_type_counter() == old(self).spec_scope().spec_type_counter(),
            final(self).spec_language() == old(self).spec_language(),
            final(self).spec_resolver() == old(self).spec_resolver(),
    {
        self.scope.declare_var(name)
    }

    /// Declares a function in the builder's scopes.
    pub fn declare_func(&mut self, name: &str) -> (r: String)
        requires
            old(self).spec_scope().spec_func_counter() < usize::MAX,
        ensures
            r@ == canonical_name("$F_"@, old(self).spec_scope().spec_func_counter() as nat),
            final(self).spec_scope().spec_scopes() == bind_innermost(old(self).spec_scope().spec_scopes(), name@, r@),
            final(self).spec_scope().spec_var_counter() == old(self).spec_scope().spec_var_counter(),
            final(self).spec_scope().spec_func_counter() == old(self).spec_scope().spec_func_counter() + 1,
            final(self).spec_scope().spec_type_counter() == old(self).spec_scope().spec_type_counter(),
            final(self).spec_language() == old(self).spec_language(),
            final(self).spec_resolver() == old(self).spec_resolver(),
    {
        self.scope.declare_func(name)
    }

    /// Declares a type in the builder's scopes.
    pub fn declare_type(&mut self, name: &str) -> (r: String)
        requires
            old(self).spec_scope().spec_type_counter() < usize::MAX,
        ensures
            r@ == canonical_name("$T_"@, old(self).spec_scope().spec_type_counter() as nat),
            final(self).spec_scope().spec_scopes() == bind_innermost(old(self).spec_scope().spec_scopes(), name@, r@),
            final(self).spec_scope().spec_var_counter() == old(self).spec_scope().spec_var_counter(),
            final(self).spec_scope().spec_func_counter() == old(self).spec_scope().spec_func_counter(),
            final(self).spec_scope().spec_type_counter() == old(self).spec_scope().spec_type_counter() + 1,
            final(self).spec_language() == old(self).spec_language(),
            final(self).spec_resolver() == old(self).spec_resolver(),
    {
        self.scope.declare_type(name)
    }

    /// The canonical name of `name` in the builder's scopes.
    pub fn resolve(&self, name: &str) -> (r: Option<String>)
        ensures
            crate::base::opt_view(r) == resolve_in(self.spec_scope().spec_scopes(), name@),
    {
        self.scope.resolve(name)
    }

    /// Opens a scope.
    pub fn push_scope(&mut self)
        ensures
            final(self).spec_scope().spec_scopes() == old(self).spec_scope().spec_scopes().push(Map::empty()),
            final(self).spec_scope().spec_var_counter() == old(self).spec_scope().spec_var_counter(),
            final(self).spec_scope().spec_func_counter() == old(self).spec_scope().spec_func_counter(),
            final(self).spec_scope().spec_type_counter() == old(self).spec_scope().spec_type_counter(),
            final(self).spec_language() == old(self).spec_language(),
            final(self).spec_resolver() == old(self).spec_resolver(),
    {
        self.scope.push_scope();
    }

    /// Closes the innermost scope, unless it is the only one.
    pub fn pop_scope(&mut self)
        ensures
            final(self).spec_scope().spec_scopes() == if old(self).spec_scope().spec_scopes().len() > 1 {
                old(self).spec_scope().spec_scopes().drop_last()
            } else {
                old(self).spec_scope().spec_scopes()
            },
            final(self).spec_scope().spec_var_counter() == old(self).spec_scope().spec_var_counter(),
            final(self).spec_scope().spec_func_counter() == old(self).spec_scope().spec_func_counter(),
            final(self).spec_scope().spec_type_counter() == old(self).spec_scope().spec_type_counter(),
            final(self).spec_language() == old(self).spec_language(),
            final(self).spec_resolver() == old(self).spec_resolver(),
    {
        self.scope.pop_scope();
    }

    /// The number of open scopes.
    pub fn scope_depth(&self) -> (r: usize)
        ensures
            r == self.spec_scope().spec_scopes().len(),
    {
        self.scope.depth()
    }
}

/// Why two nodes differ.
#[derive(Debug, Clone)]
pub enum CafDiffReason {
    KindMismatch(String, String),
    ContentChanged,
    StructureChanged,
    CommutativityChanged,
}

/// The outcome of comparing two nodes.
#[derive(Debug, Clone)]
pub struct CafDiffResult {
    pub changed: bool,
    pub reason: CafDiffReason,
    pub left_hash: Vec<CafHash>,
    pub right_hash: Vec<CafHash>,
}

/// Compares canonical nodes with a resolver.
pub struct CafDiffer<'a, R: AlgebraResolver> {
    resolver: &'a R,
}

impl<'a, R: AlgebraResolver> CafDiffer<'a, R> {
    /// The resolver the differ asks for the commutativity of node kinds.
    pub closed spec fn spec_resolver(&self) -> R {
        *self.resolver
    }

    /// A differ that asks `resolver`.
    pub fn new(resolver: &'a R) -> (r: Self)
        ensures
            r.spec_resolver() == *resolver,
    {
        Self { resolver }
    }

    /// Compares two nodes: nodes of different kinds differ by kind;
    /// otherwise they differ when their canonical hashes, under the
    /// commutativities the resolver gives, differ.
    pub fn diff(&self, left: &CafNode, right: &CafNode, language: &str) -> (r: CafDiffResult)
        ensures
            left.kind@ != right.kind@ ==> r.changed && (r.reason matches CafDiffReason::KindMismatch(a, b)
                && a@ == left.kind@ && b@ == right.kind@),
            left.kind@ == right.kind@ ==> r.reason is ContentChanged && exists|cl: Commutativity, cr: Commutativity| {
                &&& self.spec_resolver().spec_resolves(left.kind@, language@, top_scope(), cl)
                &&& self.spec_resolver().spec_resolves(right.kind@, language@, top_scope(), cr)
                &&& r.changed == (caf_value(cl, hash_values(left.children@)) != caf_value(cr, hash_values(right.children@)))
            },
            r.left_hash@ == left.children@,
            r.right_hash@ == right.children@,
    {
        let context = ScopeContext::new();
        if !str_eq(left.kind.as_str(), right.kind.as_str()) {
            return CafDiffResult {
                changed: true,
                reason: CafDiffReason::KindMismatch(left.kind.clone(), right.kind.clone()),
                left_hash: clone_hashes(&left.children),
                right_hash: clone_hashes(&right.children),
            };
        }
        let left_c = self.resolver.resolve(left.kind.as_str(), language, &context);
        let right_c = self.resolver.resolve(right.kind.as_str(), language, &context);
        Self::compare_resolved(left, right, left_c, right_c)
    }

    /// Compares two nodes of one kind whose children were resolved to the
    /// given commutativities: they differ when their canonical hashes differ.
    pub fn compare_resolved(left: &CafNode, right: &CafNode, left_c: Commutativity, right_c: Commutativity) -> (r: CafDiffResult)
        ensures
            r.changed == (caf_value(left_c, hash_values(left.children@)) != caf_value(right_c, hash_values(right.children@))),
            r.reason is ContentChanged,
            r.left_hash@ == left.children@,
            r.right_hash@ == right.children@,
    {
        let lh = canonical_hash(left_c, left.children.as_slice());
        let rh = canonical_hash(right_c, right.children.as_slice());
        CafDiffResult {
            changed: !lh.same_as(&rh),
            reason: CafDiffReason::ContentChanged,
            left_hash: clone_hashes(&left.children),
            right_hash: clone_hashes(&right.children),
        }
    }
}

} // verus!

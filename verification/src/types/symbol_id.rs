//! Interned symbol identities: canonical fully qualified names mapped to
//! stable indices, and scoped discovery of local names.

use vstd::prelude::*;
use vstd::string::*;
use crate::text::{leading_ws, trailing_ws, str_eq, trim_str, trim_ws};

verus! {

/// The tag of the canonicalization rules in force.
pub const CANON_HASH: u64 = 0xDEAD_C0DE_1234_5678u64;

/// The number of colons `s` starts with.
pub open spec fn leading_colons(s: Seq<char>) -> nat
    decreases s.len(),
{
    if s.len() == 0 || s[0] != ':' { 0 } else { 1 + leading_colons(s.drop_first()) }
}

/// Every run of colons that is followed by another character becomes
/// `::`; a run at the end is dropped. `pending` says that a run is open.
pub open spec fn squash_colons(u: Seq<char>, pending: bool) -> Seq<char>
    decreases u.len(),
{
    if u.len() == 0 {
        Seq::empty()
    } else if u[0] == ':' {
        squash_colons(u.drop_first(), true)
    } else {
        (if pending { "::"@ } else { Seq::<char>::empty() }) + seq![u[0]] + squash_colons(u.drop_first(), false)
    }
}

/// The canonical form of a fully qualified name: trimmed of white space,
/// every inner run of colons made `::`, trailing colons dropped, and a
/// leading run kept as `::` only when it is of odd length.
pub open spec fn canonical_fqn(raw: Seq<char>) -> Seq<char> {
    let t = trim_ws(raw);
    let k = leading_colons(t);
    squash_colons(t.skip(k as int), k % 2 == 1)
}

proof fn lemma_leading_colons(s: Seq<char>, k: int)
    requires
        0 <= k <= s.len(),
        forall|j: int| 0 <= j < k ==> #[trigger] s[j] == ':',
        k == s.len() || s[k] != ':',
    ensures
        leading_colons(s) == k,
    decreases s.len(),
{
    if s.len() > 0 && k > 0 {
        let t = s.drop_first();
        assert forall|j: int| 0 <= j < k - 1 implies #[trigger] t[j] == ':' by {
            assert(t[j] == s[j + 1]);
        }
        if k < s.len() {
            assert(t[k - 1] == s[k]);
        }
        lemma_leading_colons(t, k - 1);
    }
}

proof fn lemma_crate_is_canonical()
    ensures
        canonical_fqn("crate"@) == "crate"@,
{
    reveal_strlit("crate");
    let s = "crate"@;
    assert(trim_ws(s) =~= s);
    assert(leading_colons(s) == 0);
    assert(s.skip(0) =~= s);
    reveal_with_fuel(squash_colons, 6);
    assert(squash_colons(s, false) =~= s);
}

/// Canonicalizes a fully qualified name.
pub fn canonicalize(input: &str) -> (r: String)
    ensures
        r@ == canonical_fqn(input@),
{
    let t = trim_str(input);
    let ts = t.as_str();
    let n = ts.unicode_len();
    let mut k: usize = 0;
    while k < n && ts.get_char(k) == ':'
        invariant
            n == ts@.len(),
            k <= n,
            forall|j: int| 0 <= j < k ==> #[trigger] ts@[j] == ':',
        decreases n - k,
    {
        k = k + 1;
    }
    proof { lemma_leading_colons(ts@, k as int); }
    let ghost target = canonical_fqn(input@);
    let mut pending = k % 2 == 1;
    let mut result = String::new();
    let mut i: usize = k;
    proof { reveal_strlit("::"); }
    while i < n
        invariant
            n == ts@.len(),
            k <= i <= n,
            ts@ == trim_ws(input@),
            k == leading_colons(ts@),
            target == canonical_fqn(input@),
            target == result@ + squash_colons(ts@.skip(i as int), pending),
        decreases n - i,
    {
        let c = ts.get_char(i);
        let ghost u = ts@.skip(i as int);
        assert(u[0] == c);
        assert(u.drop_first() =~= ts@.skip(i + 1));
        if c == ':' {
            pending = true;
        } else {
            if pending {
                result.append("::");
                pending = false;
            }
            let ghost before = result@;
            result.append(ts.substring_char(i, i + 1));
            assert(ts@.subrange(i as int, i + 1) =~= seq![c]);
        }
        i = i + 1;
    }
    assert(ts@.skip(n as int) =~= Seq::<char>::empty());
    result
}

/// A logical identity: an interned name, its index and the registry
/// session that interned it.
#[derive(Debug, PartialEq, Eq, Hash)]
pub struct SymbolId {
    pub fqn: String,
    pub index: u64,
    pub registry_epoch: u32,
}

impl Clone for SymbolId {
    fn clone(&self) -> (r: Self)
        ensures
            r == *self,
    {
        SymbolId { fqn: self.fqn.clone(), index: self.index, registry_epoch: self.registry_epoch }
    }
}

/// The first position of `name` among interned names, if any.
pub open spec fn name_index(names: Seq<Seq<char>>, name: Seq<char>) -> Option<int>
    decreases names.len(),
{
    if names.len() == 0 {
        None
    } else {
        match name_index(names.drop_last(), name) {
            Some(i) => Some(i),
            None => if names.last() == name { Some(names.len() - 1) } else { None },
        }
    }
}

proof fn lemma_name_index_found(names: Seq<Seq<char>>, name: Seq<char>, k: int)
    requires
        0 <= k < names.len(),
        names[k] == name,
        forall|j: int| 0 <= j < k ==> names[j] != name,
    ensures
        name_index(names, name) == Some(k),
    decreases names.len(),
{
    if k < names.len() - 1 {
        lemma_name_index_found(names.drop_last(), name, k);
    } else {
        lemma_name_index_absent(names.drop_last(), name);
    }
}

proof fn lemma_name_index_absent(names: Seq<Seq<char>>, name: Seq<char>)
    requires
        forall|j: int| 0 <= j < names.len() ==> names[j] != name,
    ensures
        name_index(names, name) is None,
    decreases names.len(),
{
    if names.len() > 0 {
        lemma_name_index_absent(names.drop_last(), name);
    }
}

/// Interns canonical fully qualified names to indices, within one session
/// epoch.
pub struct SymbolRegistry {
    names: Vec<String>,
    epoch: u32,
    canon_hash: u64,
}

impl SymbolRegistry {
    /// The interned names, in index order.
    pub closed spec fn spec_names(&self) -> Seq<Seq<char>> {
        self.names@.map_values(|s: String| s@)
    }

    pub closed spec fn spec_epoch(&self) -> u32 {
        self.epoch
    }

    pub closed spec fn spec_canon_hash(&self) -> u64 {
        self.canon_hash
    }

    /// A registry of session epoch one, holding the root name `crate` at
    /// index zero.
    pub fn new() -> (r: Self)
        ensures
            r.spec_names() == seq!["crate"@],
            r.spec_epoch() == 1,
            r.spec_canon_hash() == CANON_HASH,
    {
        let mut r = Self { names: Vec::new(), epoch: 1, canon_hash: CANON_HASH };
        proof { reveal_strlit("crate"); }
        let _root = r.intern("crate");
        proof { lemma_crate_is_canonical(); }
        assert(r.spec_names() =~= seq!["crate"@]);
        r
    }

    pub fn epoch(&self) -> (r: u32)
        ensures
            r == self.spec_epoch(),
    {
        self.epoch
    }

    pub fn canon_hash(&self) -> (r: u64)
        ensures
            r == self.spec_canon_hash(),
    {
        self.canon_hash
    }

    pub fn len(&self) -> (r: usize)
        ensures
            r == self.spec_names().len(),
    {
        self.names.len()
    }

    pub fn is_empty(&self) -> (r: bool)
        ensures
            r == (self.spec_names().len() == 0),
    {
        self.len() == 0
    }

    /// Interns a name: its canonical form keeps the index it already has,
    /// or gets the next one.
    pub fn intern(&mut self, raw_fqn: &str) -> (r: SymbolId)
        ensures
            ({
                let c = canonical_fqn(raw_fqn@);
                let old_names = old(self).spec_names();
                &&& r.fqn@ == c
                &&& r.registry_epoch == old(self).spec_epoch()
                &&& final(self).spec_epoch() == old(self).spec_epoch()
                &&& final(self).spec_canon_hash() == old(self).spec_canon_hash()
                &&& match name_index(old_names, c) {
                    Some(i) => r.index == i && final(self).spec_names() == old_names,
                    None => r.index == old_names.len() && final(self).spec_names() == old_names.push(c),
                }
            }),
    {
        let canonical = canonicalize(raw_fqn);
        let mut i: usize = 0;
        while i < self.names.len()
            invariant
                i <= self.names@.len(),
                forall|j: int| 0 <= j < i ==> self.spec_names()[j] != canonical@,
                *self == *old(self),
                canonical@ == canonical_fqn(raw_fqn@),
            decreases self.names@.len() - i,
        {
            if str_eq(self.names[i].as_str(), canonical.as_str()) {
                proof { lemma_name_index_found(self.spec_names(), canonical@, i as int); }
                assert(self.spec_names()[i as int] == self.names@[i as int]@);
                return SymbolId { fqn: self.names[i].clone(), index: i as u64, registry_epoch: self.epoch };
            }
            i = i + 1;
        }
        proof { lemma_name_index_absent(self.spec_names(), canonical@); }
        let index = self.names.len();
        self.names.push(canonical.clone());
        assert(self.spec_names() =~= old(self).spec_names().push(canonical@));
        SymbolId { fqn: canonical, index: index as u64, registry_epoch: self.epoch }
    }

    /// The identity at an index, if one is interned there.
    pub fn resolve_id(&self, index: u64) -> (r: Option<SymbolId>)
        ensures
            (index as usize) < self.spec_names().len() ==> (r matches Some(s)
                && s.fqn@ == self.spec_names()[index as usize as int] && s.index == index
                && s.registry_epoch == self.spec_epoch()),
            (index as usize) >= self.spec_names().len() ==> r is None,
    {
        let i = index as usize;
        if i < self.names.len() {
            Some(SymbolId { fqn: self.names[i].clone(), index, registry_epoch: self.epoch })
        } else {
            None
        }
    }
}

impl Default for SymbolRegistry {
    fn default() -> (r: Self)
        ensures
            r.spec_names() == seq!["crate"@],
            r.spec_epoch() == 1,
    {
        Self::new()
    }
}

impl SymbolId {
    /// The identity of a name interned in `registry`.
    pub fn new(registry: &mut SymbolRegistry, raw_fqn: &str) -> (r: Self)
        ensures
            r.fqn@ == canonical_fqn(raw_fqn@),
            r.registry_epoch == old(registry).spec_epoch(),
            final(registry).spec_epoch() == old(registry).spec_epoch(),
            final(registry).spec_names()[r.index as int] == r.fqn@,
            r.index < final(registry).spec_names().len(),
            old(registry).spec_names().len() <= final(registry).spec_names().len(),
            forall|j: int| 0 <= j < old(registry).spec_names().len()
                ==> #[trigger] final(registry).spec_names()[j] == old(registry).spec_names()[j],
    {
        let r = registry.intern(raw_fqn);
        proof {
            let c = canonical_fqn(raw_fqn@);
            match name_index(old(registry).spec_names(), c) {
                Some(i) => { lemma_name_index_at(old(registry).spec_names(), c); },
                None => {},
            }
        }
        r
    }

    /// Whether two identities are the same interned symbol of the same
    /// session.
    pub fn identity_eq(&self, other: &Self) -> (r: bool)
        ensures
            r == (self.index == other.index && self.registry_epoch == other.registry_epoch),
    {
        self.index == other.index && self.registry_epoch == other.registry_epoch
    }

    /// The root identity, `crate`.
    pub fn root(registry: &mut SymbolRegistry) -> (r: Self)
        ensures
            r.fqn@ == canonical_fqn("crate"@),
            r.registry_epoch == old(registry).spec_epoch(),
            final(registry).spec_epoch() == old(registry).spec_epoch(),
    {
        Self::new(registry, "crate")
    }

    /// The name, as `Display` renders it.
    pub fn to_string(&self) -> (r: String)
        ensures
            r@ == self.fqn@,
    {
        self.fqn.clone()
    }
}

proof fn lemma_name_index_at(names: Seq<Seq<char>>, name: Seq<char>)
    requires
        name_index(names, name) is Some,
    ensures
        0 <= name_index(names, name).unwrap() < names.len(),
        names[name_index(names, name).unwrap()] == name,
    decreases names.len(),
{
    if names.len() > 0 {
        match name_index(names.drop_last(), name) {
            Some(i) => { lemma_name_index_at(names.drop_last(), name); },
            None => {},
        }
    }
}

/// The symbol bindings of one scope: the last binding of a name wins.
pub open spec fn symbol_scope_map(v: Seq<(String, SymbolId)>) -> Map<Seq<char>, SymbolId>
    decreases v.len(),
{
    if v.len() == 0 {
        Map::empty()
    } else {
        symbol_scope_map(v.drop_last()).insert(v.last().0@, v.last().1)
    }
}

/// The symbol bindings of every scope, outermost first.
pub open spec fn symbol_scope_maps(s: Seq<Vec<(String, SymbolId)>>) -> Seq<Map<Seq<char>, SymbolId>> {
    s.map_values(|v: Vec<(String, SymbolId)>| symbol_scope_map(v@))
}

/// The identity a name resolves to: its binding in the innermost scope
/// that binds it.
pub open spec fn resolve_symbol_in(scopes: Seq<Map<Seq<char>, SymbolId>>, name: Seq<char>) -> Option<SymbolId>
    decreases scopes.len(),
{
    if scopes.len() == 0 {
        None
    } else if scopes.last().contains_key(name) {
        Some(scopes.last()[name])
    } else {
        resolve_symbol_in(scopes.drop_last(), name)
    }
}

proof fn lemma_symbol_map_last_match(v: Seq<(String, SymbolId)>, name: Seq<char>, k: int)
    requires
        0 <= k < v.len(),
        v[k].0@ == name,
        forall|j: int| k < j < v.len() ==> v[j].0@ != name,
    ensures
        symbol_scope_map(v).contains_key(name),
        symbol_scope_map(v)[name] == v[k].1,
    decreases v.len(),
{
    if k < v.len() - 1 {
        lemma_symbol_map_last_match(v.drop_last(), name, k);
    }
}

proof fn lemma_symbol_map_no_match(v: Seq<(String, SymbolId)>, name: Seq<char>)
    requires
        forall|j: int| 0 <= j < v.len() ==> v[j].0@ != name,
    ensures
        !symbol_scope_map(v).contains_key(name),
    decreases v.len(),
{
    if v.len() > 0 {
        lemma_symbol_map_no_match(v.drop_last(), name);
    }
}

fn lookup_symbol_scope(v: &Vec<(String, SymbolId)>, name: &str) -> (r: Option<SymbolId>)
    ensures
        match r {
            Some(s) => symbol_scope_map(v@).contains_key(name@) && symbol_scope_map(v@)[name@] == s,
            None => !symbol_scope_map(v@).contains_key(name@),
        },
{
    let mut k: usize = v.len();
    while k > 0
        invariant
            k <= v@.len(),
            forall|j: int| k <= j < v@.len() ==> v@[j].0@ != name@,
        decreases k,
    {
        k = k - 1;
        if str_eq(v[k].0.as_str(), name) {
            proof { lemma_symbol_map_last_match(v@, name@, k as int); }
            return Some(v[k].1.clone());
        }
    }
    proof { lemma_symbol_map_no_match(v@, name@); }
    None
}

/// Maps local names to identities while a file is parsed, scope by scope.
#[derive(Debug, Clone, Default)]
pub struct SymbolScopeRegistry {
    scopes: Vec<Vec<(String, SymbolId)>>,
}

impl SymbolScopeRegistry {
    /// The bindings of every scope, outermost first.
    pub closed spec fn spec_scopes(&self) -> Seq<Map<Seq<char>, SymbolId>> {
        symbol_scope_maps(self.scopes@)
    }

    /// A tracker with one empty scope.
    pub fn new() -> (r: Self)
        ensures
            r.spec_scopes() == seq![Map::<Seq<char>, SymbolId>::empty()],
    {
        let mut scopes: Vec<Vec<(String, SymbolId)>> = Vec::new();
        scopes.push(Vec::new());
        let r = Self { scopes };
        assert(r.spec_scopes() =~= seq![Map::<Seq<char>, SymbolId>::empty()]);
        r
    }

    /// Opens a scope.
    pub fn push_scope(&mut self)
        ensures
            final(self).spec_scopes() == old(self).spec_scopes().push(Map::empty()),
    {
        self.scopes.push(Vec::new());
        assert(self.spec_scopes() =~= old(self).spec_scopes().push(Map::empty()));
    }

    /// Closes the innermost scope, unless it is the only one.
    pub fn pop_scope(&mut self)
        ensures
            final(self).spec_scopes() == if old(self).spec_scopes().len() > 1 {
                old(self).spec_scopes().drop_last()
            } else {
                old(self).spec_scopes()
            },
    {
        if self.scopes.len() > 1 {
            self.scopes.pop();
            assert(self.spec_scopes() =~= old(self).spec_scopes().drop_last());
        }
    }

    /// The identity of a name in the innermost scope: the one it is bound
    /// to there, or a new interning of it, which the innermost scope then
    /// binds.
    pub fn discover(&mut self, registry: &mut SymbolRegistry, name: &str) -> (r: SymbolId)
        ensures
            ({
                let scopes = old(self).spec_scopes();
                if scopes.len() > 0 && scopes.last().contains_key(name@) {
                    &&& r == scopes.last()[name@]
                    &&& final(self).spec_scopes() == scopes
                    &&& final(registry).spec_names() == old(registry).spec_names()
                } else {
                    &&& r.fqn@ == canonical_fqn(name@)
                    &&& r.registry_epoch == old(registry).spec_epoch()
                    &&& final(self).spec_scopes() == if scopes.len() > 0 {
                        scopes.update(scopes.len() - 1, scopes.last().insert(name@, r))
                    } else {
                        scopes
                    }
                }
            }),
            final(registry).spec_epoch() == old(registry).spec_epoch(),
    {
        let n = self.scopes.len();
        if n > 0 {
            let found = lookup_symbol_scope(&self.scopes[n - 1], name);
            assert(self.spec_scopes().last() == symbol_scope_map(self.scopes@[n - 1]@));
            match found {
                Some(id) => {
                    return id;
                },
                None => {},
            }
        }
        let id = SymbolId::new(registry, name);
        if n > 0 {
            let mut last = self.scopes.pop().unwrap();
            let ghost before = last@;
            last.push((String::from_str(name), id.clone()));
            assert(last@.drop_last() =~= before);
            self.scopes.push(last);
            assert(self.spec_scopes() =~= old(self).spec_scopes().update(n - 1,
                old(self).spec_scopes().last().insert(name@, id)));
        }
        id
    }

    /// The identity of a name, from the innermost scope that binds it.
    pub fn resolve(&self, name: &str) -> (r: Option<SymbolId>)
        ensures
            r == resolve_symbol_in(self.spec_scopes(), name@),
    {
        let mut k: usize = self.scopes.len();
        assert(self.spec_scopes().take(k as int) =~= self.spec_scopes());
        while k > 0
            invariant
                k <= self.scopes@.len(),
                resolve_symbol_in(self.spec_scopes(), name@) == resolve_symbol_in(self.spec_scopes().take(k as int), name@),
            decreases k,
        {
            let found = lookup_symbol_scope(&self.scopes[k - 1], name);
            let ghost pre = self.spec_scopes().take(k as int);
            assert(pre.drop_last() =~= self.spec_scopes().take(k - 1));
            assert(pre.last() == symbol_scope_map(self.scopes@[k - 1]@));
            match found {
                Some(c) => {
                    return Some(c);
                },
                None => {},
            }
            k = k - 1;
        }
        None
    }

    /// Back to one empty scope.
    pub fn reset(&mut self)
        ensures
            final(self).spec_scopes() == seq![Map::<Seq<char>, SymbolId>::empty()],
    {
        *self = Self::new();
    }
}

} // verus!

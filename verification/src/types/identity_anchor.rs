//! What distinguishes a node among its siblings of the same role.

use vstd::prelude::*;
use vstd::string::*;
use vstd::utf8::encode_utf8;
use crate::text::{append_bytes, le_bytes, push_le_bytes};
use crate::types::symbol_id::SymbolId;

verus! {

/// The identity anchor of a node.
#[derive(Debug, PartialEq, Eq, Hash)]
pub enum IdentityAnchor {
    /// A node that defines or uses a symbol.
    Binding(SymbolId),
    /// An anonymous operator: its kind and arity.
    Operator(String, usize),
    /// A literal: a canonical hash of its content.
    Literal(String),
    /// A structural node with no identity of its own.
    StructuralNode,
}

impl Clone for IdentityAnchor {
    fn clone(&self) -> (r: Self)
        ensures
            r == *self,
    {
        match self {
            IdentityAnchor::Binding(s) => IdentityAnchor::Binding(s.clone()),
            IdentityAnchor::Operator(k, a) => IdentityAnchor::Operator(k.clone(), *a),
            IdentityAnchor::Literal(h) => IdentityAnchor::Literal(h.clone()),
            IdentityAnchor::StructuralNode => IdentityAnchor::StructuralNode,
        }
    }
}

/// A tag byte, then the UTF-8 length of `s` in four little-endian bytes
/// (its low 32 bits), then the UTF-8 bytes of `s`.
pub open spec fn tagged_text(tag: u8, s: Seq<char>) -> Seq<u8> {
    seq![tag] + le_bytes(encode_utf8(s).len(), 4) + encode_utf8(s)
}

/// The stable byte encoding of an anchor.
pub open spec fn anchor_bytes(a: IdentityAnchor) -> Seq<u8> {
    match a {
        IdentityAnchor::Binding(sym) => tagged_text(1, sym.fqn@),
        IdentityAnchor::Operator(kind, arity) => tagged_text(2, kind@) + le_bytes(arity as nat, 8),
        IdentityAnchor::Literal(hash) => tagged_text(3, hash@),
        IdentityAnchor::StructuralNode => seq![4u8],
    }
}

fn push_tagged_text(buf: &mut Vec<u8>, tag: u8, s: &str)
    ensures
        final(buf)@ == old(buf)@ + tagged_text(tag, s@),
{
    buf.push(tag);
    let b = s.as_bytes();
    push_le_bytes(buf, b.len() as u128, 4);
    append_bytes(buf, b);
    assert(final_eq(old(buf)@, buf@, tag, s@));
}

spec fn final_eq(a: Seq<u8>, b: Seq<u8>, tag: u8, s: Seq<char>) -> bool {
    b =~= a + tagged_text(tag, s)
}

impl IdentityAnchor {
    /// The stable byte encoding: a tag, then the anchor's text with its
    /// length, and an operator's arity in eight little-endian bytes.
    pub fn to_stable_bytes(&self) -> (r: Vec<u8>)
        requires
            self matches IdentityAnchor::Operator(kind, _) ==> encode_utf8(kind@).len() <= u32::MAX,
        ensures
            r@ == anchor_bytes(*self),
    {
        let mut buf: Vec<u8> = Vec::new();
        match self {
            IdentityAnchor::Binding(sym) => {
                push_tagged_text(&mut buf, 1, sym.fqn.as_str());
            },
            IdentityAnchor::Operator(kind, arity) => {
                push_tagged_text(&mut buf, 2, kind.as_str());
                push_le_bytes(&mut buf, *arity as u128, 8);
            },
            IdentityAnchor::Literal(hash) => {
                push_tagged_text(&mut buf, 3, hash.as_str());
            },
            IdentityAnchor::StructuralNode => {
                buf.push(4);
            },
        }
        assert(buf@ =~= anchor_bytes(*self));
        buf
    }
}

} // verus!

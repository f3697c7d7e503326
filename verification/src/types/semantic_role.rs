//! The semantic role of a node within its parent, part of its identity.

use vstd::prelude::*;

verus! {

/// The role a node plays within its parent. Each role has a fixed code
/// that identities hash, so codes never change.
#[derive(Debug, Clone, Copy, PartialEq, Eq, Hash, Default, Structural)]
pub enum SemanticRole {
    Root,
    FunctionName,
    ParameterList,
    Parameter,
    ReturnType,
    FunctionBody,
    Block,
    Statement,
    GuardScope,
    MatchArm,
    LetBinding,
    Initializer,
    SymbolDeclaration,
    Expression,
    CallTarget,
    CallArgument,
    Literal,
    Operator,
    TypeReference,
    TypeParameter,
    StructField,
    EnumVariant,
    ClassMember,
    ImportItem,
    ModuleItem,
    #[default]
    SyntaxNode,
}

/// The stable code of a role.
pub open spec fn role_code(r: SemanticRole) -> u16 {
    match r {
        SemanticRole::Root => 0,
        SemanticRole::FunctionName => 10,
        SemanticRole::ParameterList => 11,
        SemanticRole::Parameter => 12,
        SemanticRole::ReturnType => 13,
        SemanticRole::FunctionBody => 14,
        SemanticRole::Block => 20,
        SemanticRole::Statement => 21,
        SemanticRole::GuardScope => 22,
        SemanticRole::MatchArm => 23,
        SemanticRole::LetBinding => 30,
        SemanticRole::Initializer => 31,
        SemanticRole::SymbolDeclaration => 32,
        SemanticRole::Expression => 40,
        SemanticRole::CallTarget => 41,
        SemanticRole::CallArgument => 42,
        SemanticRole::Literal => 43,
        SemanticRole::Operator => 44,
        SemanticRole::TypeReference => 50,
        SemanticRole::TypeParameter => 51,
        SemanticRole::StructField => 60,
        SemanticRole::EnumVariant => 61,
        SemanticRole::ClassMember => 62,
        SemanticRole::ImportItem => 70,
        SemanticRole::ModuleItem => 71,
        SemanticRole::SyntaxNode => 999,
    }
}

impl SemanticRole {
    /// The stable code of the role.
    pub fn code(&self) -> (r: u16)
        ensures
            r == role_code(*self),
    {
        match self {
            SemanticRole::Root => 0,
            SemanticRole::FunctionName => 10,
            SemanticRole::ParameterList => 11,
            SemanticRole::Parameter => 12,
            SemanticRole::ReturnType => 13,
            SemanticRole::FunctionBody => 14,
            SemanticRole::Block => 20,
            SemanticRole::Statement => 21,
            SemanticRole::GuardScope => 22,
            SemanticRole::MatchArm => 23,
            SemanticRole::LetBinding => 30,
            SemanticRole::Initializer => 31,
            SemanticRole::SymbolDeclaration => 32,
            SemanticRole::Expression => 40,
            SemanticRole::CallTarget => 41,
            SemanticRole::CallArgument => 42,
            SemanticRole::Literal => 43,
            SemanticRole::Operator => 44,
            SemanticRole::TypeReference => 50,
            SemanticRole::TypeParameter => 51,
            SemanticRole::StructField => 60,
            SemanticRole::EnumVariant => 61,
            SemanticRole::ClassMember => 62,
            SemanticRole::ImportItem => 70,
            SemanticRole::ModuleItem => 71,
            SemanticRole::SyntaxNode => 999,
        }
    }
}

} // verus!

//! The semantic role of a node from its kind and its parent's kind.

use vstd::prelude::*;
use crate::text::{contains, has_substring, str_eq};
use crate::types::semantic_role::SemanticRole;

verus! {

/// The role by kind alone: expressions, statements, identifiers and
/// literals by the words their kind holds, anything else a plain node.
pub open spec fn heuristic_role(kind: Seq<char>) -> SemanticRole {
    if has_substring(kind, "expression"@) {
        SemanticRole::Expression
    } else if has_substring(kind, "statement"@) {
        SemanticRole::Statement
    } else if has_substring(kind, "identifier"@) {
        SemanticRole::SymbolDeclaration
    } else if has_substring(kind, "literal"@) {
        SemanticRole::Literal
    } else {
        SemanticRole::SyntaxNode
    }
}

/// The role of a node of kind `kind` under a parent of kind `parent`.
pub open spec fn role_of(kind: Seq<char>, parent: Seq<char>) -> SemanticRole {
    if kind == "function_item"@ || kind == "function_definition"@ {
        SemanticRole::FunctionBody
    } else if kind == "parameters"@ || kind == "formal_parameters"@ {
        SemanticRole::ParameterList
    } else if (kind == "parameter"@ || kind == "parameter_declaration"@ || kind == "identifier"@) && parent == "parameters"@ {
        SemanticRole::Parameter
    } else if kind == "let_declaration"@ || kind == "variable_declaration"@ {
        SemanticRole::LetBinding
    } else if (kind == "variable_declarator"@ || kind == "pattern"@) && has_substring(parent, "declaration"@) {
        SemanticRole::SymbolDeclaration
    } else if (kind == "init"@ || kind == "value"@ || kind == "expression"@) && has_substring(parent, "declarator"@) {
        SemanticRole::Initializer
    } else if kind == "block"@ || kind == "statement_block"@ {
        SemanticRole::Block
    } else if kind == "if_let_expression"@ || kind == "match_arm"@ {
        SemanticRole::GuardScope
    } else if kind == "struct_item"@ || kind == "class_definition"@ {
        SemanticRole::ModuleItem
    } else if kind == "field_declaration"@ || kind == "attribute"@ {
        SemanticRole::StructField
    } else {
        heuristic_role(kind)
    }
}

/// Resolves semantic roles.
pub struct RoleResolver;

impl RoleResolver {
    /// The role of a node of kind `kind` under a parent of kind
    /// `parent_kind`; the position among siblings does not count.
    pub fn resolve(kind: &str, parent_kind: &str, _pos: usize) -> (r: SemanticRole)
        ensures
            r == role_of(kind@, parent_kind@),
    {
        if str_eq(kind, "function_item") || str_eq(kind, "function_definition") {
            SemanticRole::FunctionBody
        } else if str_eq(kind, "parameters") || str_eq(kind, "formal_parameters") {
            SemanticRole::ParameterList
        } else if (str_eq(kind, "parameter") || str_eq(kind, "parameter_declaration") || str_eq(kind, "identifier"))
            && str_eq(parent_kind, "parameters") {
            SemanticRole::Parameter
        } else if str_eq(kind, "let_declaration") || str_eq(kind, "variable_declaration") {
            SemanticRole::LetBinding
        } else if (str_eq(kind, "variable_declarator") || str_eq(kind, "pattern")) && contains(parent_kind, "declaration") {
            SemanticRole::SymbolDeclaration
        } else if (str_eq(kind, "init") || str_eq(kind, "value") || str_eq(kind, "expression"))
            && contains(parent_kind, "declarator") {
            SemanticRole::Initializer
        } else if str_eq(kind, "block") || str_eq(kind, "statement_block") {
            SemanticRole::Block
        } else if str_eq(kind, "if_let_expression") || str_eq(kind, "match_arm") {
            SemanticRole::GuardScope
        } else if str_eq(kind, "struct_item") || str_eq(kind, "class_definition") {
            SemanticRole::ModuleItem
        } else if str_eq(kind, "field_declaration") || str_eq(kind, "attribute") {
            SemanticRole::StructField
        } else {
            Self::heuristic_resolve(kind)
        }
    }

    fn heuristic_resolve(kind: &str) -> (r: SemanticRole)
        ensures
            r == heuristic_role(kind@),
    {
        if contains(kind, "expression") {
            SemanticRole::Expression
        } else if contains(kind, "statement") {
            SemanticRole::Statement
        } else if contains(kind, "identifier") {
            SemanticRole::SymbolDeclaration
        } else if contains(kind, "literal") {
            SemanticRole::Literal
        } else {
            SemanticRole::SyntaxNode
        }
    }
}

} // verus!

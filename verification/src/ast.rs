//! The abstract syntax tree built by the parser: integer literals and binary
//! arithmetic operations. Each node exclusively owns its children; the tree is
//! acyclic with no shared ownership.

use vstd::prelude::*;
use crate::token::{Token, TokenModel};
use crate::token_def::TokenKind;

verus! {

/// One node of the abstract syntax tree.
#[derive(Debug, PartialEq, Eq)]
pub enum AstNode {
    Int(i64),
    BinaryOperation { op: Box<Token>, left: Box<AstNode>, right: Box<AstNode> },
}

/// The mathematical model of a tree node.
pub enum AstModel {
    Int(int),
    Bin { op: TokenModel, left: Box<AstModel>, right: Box<AstModel> },
}

/// The model of an executable tree.
pub open spec fn ast_model(n: AstNode) -> AstModel
    decreases n,
{
    match n {
        AstNode::Int(v) => AstModel::Int(v as int),
        AstNode::BinaryOperation { op, left, right } => AstModel::Bin {
            op: op@,
            left: Box::new(ast_model(*left)),
            right: Box::new(ast_model(*right)),
        },
    }
}

/// An operator token kind: one of the four arithmetic operators.
pub open spec fn is_operator_kind(k: TokenKind) -> bool {
    k == TokenKind::Plus || k == TokenKind::Minus || k == TokenKind::Multiply || k
        == TokenKind::Divide
}

/// Well-formedness of a tree model: the operator of every binary operation is
/// one of the four arithmetic operator kinds.
pub open spec fn ast_wf(m: AstModel) -> bool
    decreases m,
{
    match m {
        AstModel::Int(_) => true,
        AstModel::Bin { op, left, right } => is_operator_kind(op.kind) && ast_wf(*left) && ast_wf(
            *right,
        ),
    }
}

} // verus!

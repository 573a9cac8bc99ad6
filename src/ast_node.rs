//! Syntax tree nodes built by the parser.
use vstd::prelude::*;

use crate::token::{Token, TokenView};

verus! {

/// A node of the syntax tree; each node owns its subtrees.
#[derive(Debug, PartialEq)]
pub enum ASTNode {
    Number(i64),
    Identifier(String),
    BinaryOp { left: Box<ASTNode>, op: Token, right: Box<ASTNode> },
    VariableDeclaration { identifier: String, value: Box<ASTNode> },
}

/// Mathematical model of a syntax tree.
pub enum AstView {
    Number(i64),
    Identifier(Seq<char>),
    BinaryOp { left: Box<AstView>, op: TokenView, right: Box<AstView> },
    VariableDeclaration { identifier: Seq<char>, value: Box<AstView> },
}

pub open spec fn node_view(n: ASTNode) -> AstView
    decreases n,
{
    match n {
        ASTNode::Number(v) => AstView::Number(v),
        ASTNode::Identifier(name) => AstView::Identifier(name@),
        ASTNode::BinaryOp { left, op, right } => AstView::BinaryOp {
            left: Box::new(node_view(*left)),
            op: op@,
            right: Box::new(node_view(*right)),
        },
        ASTNode::VariableDeclaration { identifier, value } => AstView::VariableDeclaration {
            identifier: identifier@,
            value: Box::new(node_view(*value)),
        },
    }
}

impl View for ASTNode {
    type V = AstView;

    open spec fn view(&self) -> AstView {
        node_view(*self)
    }
}

} // verus!

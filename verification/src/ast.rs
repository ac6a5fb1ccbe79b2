//! The abstract syntax tree produced by the parser.

use vstd::prelude::*;

use crate::token::Token;

verus! {

/// A node of the abstract syntax tree: either an integer literal or a binary
/// operation whose operator is one of the four arithmetic tokens. Each
/// `BinaryOp` exclusively owns its two operand subtrees.
#[derive(Debug)]
pub enum ASTNode {
    /// An integer literal leaf.
    Number(i64),
    /// An internal node: `left op right`.
    BinaryOp {
        /// One of `Plus`, `Dash`, `Star`, `Slash`.
        op: Token,
        /// The left operand.
        left: Box<ASTNode>,
        /// The right operand.
        right: Box<ASTNode>,
    },
}

/// Every `BinaryOp` in the tree carries one of the four arithmetic operator
/// tokens.
pub open spec fn ops_are_arithmetic(node: ASTNode) -> bool
    decreases node,
{
    match node {
        ASTNode::Number(_) => true,
        ASTNode::BinaryOp { op, left, right } => {
            &&& (op is Plus || op is Dash || op is Star || op is Slash)
            &&& ops_are_arithmetic(*left)
            &&& ops_are_arithmetic(*right)
        },
    }
}

impl ASTNode {
    /// Decides structural equality of two trees.
    pub fn equals(&self, other: &ASTNode) -> (r: bool)
        ensures
            r == (self == other),
        decreases *self,
    {
        match (self, other) {
            (ASTNode::Number(a), ASTNode::Number(b)) => a == b,
            (
                ASTNode::BinaryOp { op: op_a, left: left_a, right: right_a },
                ASTNode::BinaryOp { op: op_b, left: left_b, right: right_b },
            ) => *op_a == *op_b && left_a.equals(left_b) && right_a.equals(right_b),
            _ => false,
        }
    }
}

} // verus!

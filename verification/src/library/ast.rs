//! The abstract syntax tree: one tagged sum over every node kind the
//! parser produces, with children owned by their parent.

use crate::library::lexer::{Token, TokenValue};
use crate::library::number::Rational;
use vstd::prelude::*;

verus! {

/// The payload of a literal node.
#[derive(Debug, Clone, PartialEq)]
pub enum LiteralValue {
    Number(Rational),
    String(String),
    Boolean(bool),
}

/// A binary operator.
#[derive(Debug, Clone, Copy, PartialEq, Eq, Structural)]
pub enum BinaryOp {
    Add,
    Sub,
    Mul,
    Div,
    Eq,
    Ne,
    Lt,
    Gt,
    Le,
    Ge,
}

/// A unary operator.
#[derive(Debug, Clone, Copy, PartialEq, Eq, Structural)]
pub enum UnaryOp {
    Neg,
    Not,
}

/// One `pattern (| pattern)* -> body` clause of a `match`.
#[derive(Debug, PartialEq)]
pub struct MatchArm {
    pub patterns: Vec<ASTNode>,
    pub body: Box<ASTNode>,
}

/// One variant of an `enum` declaration: its name and field names.
#[derive(Debug, Clone, PartialEq)]
pub struct EnumVariant {
    pub name: String,
    pub fields: Vec<String>,
}

/// A node of the syntax tree.
#[derive(Debug, PartialEq)]
pub enum ASTNode {
    Literal { value: LiteralValue },
    Identifier { name: String },
    Binary { op: BinaryOp, left: Box<ASTNode>, right: Box<ASTNode> },
    Unary { op: UnaryOp, right: Box<ASTNode> },
    Call { callee: Box<ASTNode>, args: Vec<ASTNode> },
    Pipeline { left: Box<ASTNode>, right: Box<ASTNode> },
    Update { left: Box<ASTNode>, right: Box<ASTNode> },
    Array { elements: Vec<ASTNode> },
    StructLiteral { fields: Vec<(String, ASTNode)> },
    StructDeconstructPattern { field_names: Vec<Token> },
    WildcardPattern,
    LetStatement { name: String, initializer: Box<ASTNode> },
    FuncDeclaration { name: String, params: Vec<String>, body: Vec<ASTNode> },
    IfExpression { condition: Box<ASTNode>, then_branch: Vec<ASTNode>, else_branch: Option<Vec<ASTNode>> },
    MatchStatement { value: Box<ASTNode>, arms: Vec<MatchArm> },
    EnumDeclaration { name: String, variants: Vec<EnumVariant> },
    Import { path: String },
    IndexAccess { target: Box<ASTNode>, index: Box<ASTNode> },
    PropertyAccess { target: Box<ASTNode>, member: String },
    ExpressionStatement { expression: Box<ASTNode> },
}

/// A parsed program: its top-level nodes in source order.
#[derive(Debug, PartialEq)]
pub struct Program {
    pub nodes: Vec<ASTNode>,
}




/// A node a statement parse may hand back.
pub open spec fn stmt_node(n: ASTNode) -> bool {
    ||| n is LetStatement
    ||| n is FuncDeclaration
    ||| n is Import
    ||| n is EnumDeclaration
    ||| n is MatchStatement
    ||| n is ExpressionStatement
}

/// A node a pattern parse may hand back: a wildcard, a literal, or a
/// struct destructuring with at least one field, every field an
/// identifier token.
pub open spec fn pattern_is_valid(n: ASTNode) -> bool {
    ||| n is WildcardPattern
    ||| n is Literal
    ||| (n matches ASTNode::StructDeconstructPattern { field_names } && field_names@.len() >= 1
        && (forall|i: int|
            0 <= i < field_names@.len() ==> (#[trigger] field_names@[i]).value is Identifier))
}

/// Every arm carries at least one valid pattern, and no arm joins a
/// struct destructuring with any other pattern.
pub open spec fn arms_wf(arms: Seq<MatchArm>) -> bool {
    forall|a: int|
        0 <= a < arms.len() ==> ((#[trigger] arms[a]).patterns@.len() >= 1 && (forall|p: int|
            0 <= p < arms[a].patterns@.len() ==> pattern_is_valid(#[trigger] arms[a].patterns@[p]))
            && (arms[a].patterns@.len() > 1 ==> (forall|p: int|
            0 <= p < arms[a].patterns@.len() ==> !((#[trigger] arms[a].patterns@[p])
                is StructDeconstructPattern))))
}

} // verus!

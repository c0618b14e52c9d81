//! The abstract syntax of programs. Every node carries the span of the source it came from.
//! Float literals keep their binary64 bits and spelling.
use vstd::prelude::*;
use crate::operations::{BinaryOp, UnaryOp};
use crate::pattern::Pattern;
use crate::span::Span;
use crate::text::chars_of;
use crate::tokens::{string_literal_value, string_rest, unescaped};
use crate::value::FloatRepr;

verus! {

/// A whole program: its top-level statements.
#[derive(Debug)]
pub struct Program {
    pub items: Vec<Stmt>,
}

/// A sequence of statements with its own scope.
#[derive(Debug)]
pub struct Block {
    pub items: Vec<Stmt>,
    pub span: Span,
}

/// A statement.
#[derive(Debug)]
pub struct Stmt {
    pub kind: StmtKind,
    pub span: Span,
}

/// The kinds of statements.
#[derive(Debug)]
pub enum StmtKind {
    Function { name: String, params: Vec<String>, body: Block },
    Let { pattern: Pattern, value: Expr },
    Expr(Expr),
}

/// An expression.
#[derive(Debug)]
pub struct Expr {
    pub kind: ExprKind,
    pub span: Span,
}

/// A `case` or `catch` clause: a pattern, an optional guard and a body.
#[derive(Debug)]
pub struct PatternClause {
    pub pattern: Pattern,
    pub guard: Option<Expr>,
    pub body: Block,
}

/// What an assignment assigns to.
#[derive(Debug)]
pub struct AssignmentTarget {
    pub kind: AssignmentTargetKind,
    pub span: Span,
}

/// The kinds of assignment targets.
#[derive(Debug)]
pub enum AssignmentTargetKind {
    Variable(String),
    Field { object: Box<Expr>, name: String },
    Index { object: Box<Expr>, key: Box<Expr> },
}

/// The kinds of expressions.
#[derive(Debug)]
pub enum ExprKind {
    Int(i64),
    Float(FloatRepr),
    String(String),
    Bool(bool),
    Nil,
    List(Vec<Expr>),
    Table(Vec<(Expr, Expr)>),
    Variable(String),
    Function { params: Vec<String>, body: Block },
    Assign { target: AssignmentTarget, value: Box<Expr> },
    Raise { value: Box<Expr> },
    Block(Block),
    NilPropagate { value: Box<Expr> },
    Try { protected: Block, clauses: Vec<PatternClause> },
    Case { value: Box<Expr>, clauses: Vec<PatternClause> },
    If { branches: Vec<(Expr, Block)>, else_branch: Option<Block> },
    Loop { state: String, initial: Box<Expr>, body: Block },
    Continue { value: Box<Expr> },
    Break { value: Box<Expr> },
    Call { callee: Box<Expr>, args: Vec<Expr> },
    Field { object: Box<Expr>, name: String },
    Index { object: Box<Expr>, key: Box<Expr> },
    Unary { op: UnaryOp, value: Box<Expr> },
    Binary { left: Box<Expr>, op: BinaryOp, right: Box<Expr> },
    Pipeline { input: Box<Expr>, stages: Vec<PipelineStage> },
}

/// One stage of a pipeline: the function called with the piped value first, whether `nil`
/// passes through it untouched, and whether it is a `tap` that passes its input on.
#[derive(Debug)]
pub struct PipelineStage {
    pub nil_aware: bool,
    pub tap: bool,
    pub callee: Expr,
    pub args: Vec<Expr>,
    pub span: Span,
}

/// The text a well-formed string literal denotes: the characters between its quotes, with each
/// escape decoded.
pub fn decode_string(text: &str) -> (v: String)
    requires
        text@.len() > 0,
        text@[0] == '"',
        string_rest(text@, 1),
    ensures
        v@ == unescaped(text@, 1),
{
    let chars = chars_of(text);
    string_literal_value(chars.as_slice())
}

} // verus!

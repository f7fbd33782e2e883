//! The syntax tree handed to the lowering pass.
//!
//! The tree is produced outside the library by a parser over a fixed token
//! grammar; here it is plain data. Every node carries a byte-offset span used
//! verbatim in diagnostics, and every name has already been interned to a
//! `Symbol`: a small integer that stands for one spelling, so that two names
//! are the same exactly when their symbols are equal.

use vstd::prelude::*;

verus! {

/// An interned name: one spelling of an identifier, as a small integer.
#[derive(Clone, Copy, Debug, PartialEq, Eq, Structural)]
pub struct Symbol {
    pub id: u32,
}

/// A byte-offset range `(start, end)` into the source text.
#[derive(Clone, Copy, Debug, PartialEq, Eq, Structural)]
pub struct Span {
    pub start: usize,
    pub end: usize,
}

impl Span {
    /// Builds a span from its start and end offsets.
    pub fn new(start: usize, end: usize) -> (r: Span)
        ensures
            r.start == start,
            r.end == end,
    {
        Span { start, end }
    }
}

/// An identifier occurrence: a symbol together with where it was written.
#[derive(Clone, Copy, Debug, PartialEq, Eq, Structural)]
pub struct Id {
    pub symbol: Symbol,
    pub span: Span,
}

/// A whole source file: the top-level items in source order.
#[derive(Debug)]
pub struct File {
    pub items: Vec<Item>,
}

/// One top-level item.
#[derive(Debug)]
pub struct Item {
    pub kind: ItemKind,
}

/// What a top-level item is.
#[derive(Debug)]
pub enum ItemKind {
    Record(Record),
    Def(Definition),
}

/// A record declaration: a name, generic parameters, and fields.
#[derive(Debug)]
pub struct Record {
    pub name: Id,
    pub params: Vec<Id>,
    pub fields: Vec<Field>,
}

/// One field of a record.
#[derive(Debug)]
pub struct Field {
    pub name: Id,
    pub ty: Type,
    pub span: Span,
}

/// A written type: a name with argument expressions for parameterized types.
#[derive(Debug)]
pub struct Type {
    pub name: Id,
    pub args: Vec<Expression>,
    pub span: Span,
}

/// A definition: a possibly-unsafe, possibly-generic function.
#[derive(Debug)]
pub struct Definition {
    pub safety: Safety,
    pub name: Id,
    pub generics: Vec<Id>,
    pub precondition: Option<Box<Expression>>,
    pub implements: Option<Box<Expression>>,
    pub sig: Box<Signature>,
    pub body: Option<Block>,
}

/// Whether a definition is marked unsafe.
#[derive(Clone, Copy, Debug, PartialEq, Eq, Structural)]
pub enum Safety {
    Unsafe,
    Safe,
}

/// A definition's value parameters and output type.
#[derive(Debug)]
pub struct Signature {
    pub inputs: Vec<Parameter>,
    pub output: Type,
}

/// One value parameter of a definition.
#[derive(Debug)]
pub struct Parameter {
    pub name: Id,
    pub ty: Type,
    pub span: Span,
}

/// A brace-delimited list of statements.
#[derive(Debug)]
pub struct Block(pub Vec<Statement>);

/// One statement.
#[derive(Debug)]
pub struct Statement {
    pub kind: StmtKind,
}

/// What a statement is.
#[derive(Debug)]
pub enum StmtKind {
    Assign(Assignment),
    Return(Expression),
    Unsafe(Block),
}

/// A binding of a name to an expression, in a statement or a constructor.
#[derive(Debug)]
pub struct Assignment {
    pub lhs: Id,
    pub rhs: Expression,
}

/// An expression, with the span of the whole expression.
#[derive(Debug)]
pub struct Expression {
    pub kind: ExprKind,
    pub span: Span,
}

/// What an expression is.
#[derive(Debug)]
pub enum ExprKind {
    Id(Id),
    Lit(Literal),
    Field(Box<Expression>, Id),
    Unary(UnaryOp, Box<Expression>),
    Binary(BinaryOp, Box<Expression>, Box<Expression>),
    Call(Box<Call>),
    Record(Box<Constructor>),
}

/// An integer literal.
#[derive(Clone, Copy, Debug, PartialEq, Eq, Structural)]
pub struct Literal {
    pub value: u64,
}

/// A prefix operator occurrence.
#[derive(Clone, Copy, Debug, PartialEq, Eq, Structural)]
pub struct UnaryOp {
    pub kind: UnaryKind,
    pub span: Span,
}

/// The prefix operators.
#[derive(Clone, Copy, Debug, PartialEq, Eq, Structural)]
pub enum UnaryKind {
    Neg,
    Not,
}

/// An infix operator occurrence.
#[derive(Clone, Copy, Debug, PartialEq, Eq, Structural)]
pub struct BinaryOp {
    pub kind: BinaryKind,
    pub span: Span,
}

/// The infix operators.
#[derive(Clone, Copy, Debug, PartialEq, Eq, Structural)]
pub enum BinaryKind {
    Add,
    Sub,
    Mul,
    Div,
    Pow,
    Shl,
    Shr,
    Eq,
    Ne,
    Gt,
    Ge,
    Lt,
    Le,
}

/// A call of a definition: generic arguments in brackets, value arguments in
/// parentheses.
#[derive(Debug)]
pub struct Call {
    pub name: Id,
    pub generics: Vec<Expression>,
    pub args: Vec<Expression>,
}

/// A record construction: generic arguments and named field initializers.
#[derive(Debug)]
pub struct Constructor {
    pub name: Id,
    pub generics: Vec<Expression>,
    pub fields: Vec<Assignment>,
}

} // verus!

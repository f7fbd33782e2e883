//! The resolved, arena-stored intermediate representation.
//!
//! Every reference between nodes is a typed integer handle into the owning
//! [`crate::context::Context`], never a direct reference: the graph is not a
//! tree (calls and constructors point at definitions and records declared
//! elsewhere), and handles give cheap copies and no ownership cycles. Each
//! node kind has its own handle type, so a field handle cannot be confused
//! with an expression handle.

use vstd::prelude::*;

use crate::ast::{Id, Literal, Safety, Span, UnaryOp, BinaryOp};

verus! {

/// A handle to a record node.
#[derive(Clone, Copy, Debug, PartialEq, Eq, Structural)]
pub struct RecordId {
    pub raw: u32,
}

/// A handle to a field node.
#[derive(Clone, Copy, Debug, PartialEq, Eq, Structural)]
pub struct FieldId {
    pub raw: u32,
}

/// A handle to a definition node.
#[derive(Clone, Copy, Debug, PartialEq, Eq, Structural)]
pub struct DefId {
    pub raw: u32,
}

/// A handle to a parameter node.
#[derive(Clone, Copy, Debug, PartialEq, Eq, Structural)]
pub struct ParamId {
    pub raw: u32,
}

/// A handle to a statement node.
#[derive(Clone, Copy, Debug, PartialEq, Eq, Structural)]
pub struct StmtId {
    pub raw: u32,
}

/// A handle to an expression node.
#[derive(Clone, Copy, Debug, PartialEq, Eq, Structural)]
pub struct ExprId {
    pub raw: u32,
}

/// A handle to a type node.
#[derive(Clone, Copy, Debug, PartialEq, Eq, Structural)]
pub struct TypeId {
    pub raw: u32,
}

/// A handle to a local node.
#[derive(Clone, Copy, Debug, PartialEq, Eq, Structural)]
pub struct LocalId {
    pub raw: u32,
}

/// A contiguous, half-open range of local handles, in declaration order.
#[derive(Clone, Copy, Debug, PartialEq, Eq, Structural)]
pub struct LocalRange {
    pub start: u32,
    pub end: u32,
}

/// A contiguous, half-open range of field handles, in declaration order.
#[derive(Clone, Copy, Debug, PartialEq, Eq, Structural)]
pub struct FieldRange {
    pub start: u32,
    pub end: u32,
}

/// A contiguous, half-open range of parameter handles, in declaration order.
#[derive(Clone, Copy, Debug, PartialEq, Eq, Structural)]
pub struct ParamRange {
    pub start: u32,
    pub end: u32,
}

/// A list of expression handles: a half-open range into the context's shared
/// side table.
#[derive(Clone, Copy, Debug, PartialEq, Eq, Structural)]
pub struct ExprList {
    pub start: u32,
    pub end: u32,
}

/// A list of statement handles: a half-open range into the context's shared
/// side table.
#[derive(Clone, Copy, Debug, PartialEq, Eq, Structural)]
pub struct StmtList {
    pub start: u32,
    pub end: u32,
}

/// A resolved record: its generic-parameter locals and its fields, each a
/// contiguous range in the respective arena, so arity checks are
/// range-length checks.
pub struct Record {
    pub name: Id,
    pub params: LocalRange,
    pub fields: FieldRange,
}

/// A resolved field of a record.
pub struct Field {
    pub name: Id,
    pub ty: TypeId,
    pub span: Span,
}

/// A resolved type: its declaration handle and its argument expressions.
pub struct Type {
    pub name: Id,
    pub decl: RecordId,
    pub args: ExprList,
    pub span: Span,
}

/// A resolved definition. `body` is absent for a declaration without a body.
pub struct Definition {
    pub safety: Safety,
    pub name: Id,
    pub generics: LocalRange,
    pub precondition: Option<ExprId>,
    pub implements: Option<ExprId>,
    pub inputs: ParamRange,
    pub output: TypeId,
    pub body: Option<StmtList>,
}

/// A resolved value parameter: its backing local and its type.
pub struct Parameter {
    pub local: LocalId,
    pub ty: TypeId,
    pub span: Span,
}

/// A resolved statement.
pub struct Statement {
    pub kind: StmtKind,
}

/// What a resolved statement is.
pub enum StmtKind {
    Assign(LocalId, ExprId),
    Return(ExprId),
    Unsafe(StmtList),
}

/// A resolved expression.
pub struct Expression {
    pub kind: ExprKind,
    pub span: Span,
}

/// What a resolved expression is. Identifiers have become local handles;
/// calls and constructions carry their resolved callee or record.
pub enum ExprKind {
    Id(LocalId),
    Lit(Literal),
    Field(ExprId, Id),
    Unary(UnaryOp, ExprId),
    Binary(BinaryOp, ExprId, ExprId),
    Call(Call),
    Record(Constructor),
}

/// A named value in scope: a generic parameter, a value parameter, or a
/// let-binding.
pub struct Local {
    pub kind: LocalKind,
    pub name: Id,
}

/// The role of a local. Parameter ordinals are bounded to 16 bits, since
/// parameter counts are small.
#[derive(Clone, Copy, Debug, PartialEq, Eq, Structural)]
pub enum LocalKind {
    Let(ExprId),
    Param(u16),
    GenericParam(u16),
}

/// A resolved call: the callee definition and the argument lists.
pub struct Call {
    pub name: Id,
    pub callee: DefId,
    pub generics: ExprList,
    pub args: ExprList,
}

/// A resolved record construction. `inits` is positionally aligned with the
/// record's declared field order; once lowering of the constructor succeeds,
/// no position still holds the invalid sentinel.
pub struct Constructor {
    pub name: Id,
    pub record: RecordId,
    pub generics: ExprList,
    pub inits: ExprList,
}

} // verus!

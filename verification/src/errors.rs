//! The semantic errors the lowering pass can report.
//!
//! All of these are user-facing errors, not internal faults. The pass is
//! fail-fast: the first error found aborts the whole pass, so a run reports
//! exactly one of these.

use vstd::prelude::*;

use crate::ast::Id;

verus! {

/// The kind of name a reference expected or found.
#[derive(Clone, Copy, Debug, PartialEq, Eq, Structural)]
pub enum NameKind {
    Type,
    Function,
    Struct,
}

/// Which arity a call or construction got wrong.
#[derive(Clone, Copy, Debug, PartialEq, Eq, Structural)]
pub enum ArityWhat {
    Argument,
    GenericArgument,
}

/// A generic or value parameter reuses a name already bound by a parameter
/// of the same kind.
#[derive(Clone, Copy, Debug, PartialEq, Eq, Structural)]
pub struct ReusedParameter {
    pub second: Id,
}

/// A value parameter reuses the name of a generic parameter.
#[derive(Clone, Copy, Debug, PartialEq, Eq, Structural)]
pub struct ShadowedGeneric {
    pub first: Id,
    pub second: Id,
}

/// A record declares two fields with the same name.
#[derive(Clone, Copy, Debug, PartialEq, Eq, Structural)]
pub struct RedeclaredField {
    pub first: Id,
    pub second: Id,
}

/// A top-level item reuses a name already registered file-wide.
#[derive(Clone, Copy, Debug, PartialEq, Eq, Structural)]
pub struct RedefinedName {
    pub first: Id,
    pub second: Id,
}

/// A name resolves neither in the local scopes nor in the global table.
#[derive(Clone, Copy, Debug, PartialEq, Eq, Structural)]
pub struct UndefinedName {
    pub name: Id,
}

/// A reference needed a global of some kind, and no global has the name.
#[derive(Clone, Copy, Debug, PartialEq, Eq, Structural)]
pub struct KindNotFound {
    pub name: Id,
    pub kind: NameKind,
}

/// A value position names a global item instead of a local value.
#[derive(Clone, Copy, Debug, PartialEq, Eq, Structural)]
pub struct UnexpectedItem {
    pub name: Id,
    pub kind: NameKind,
}

/// A reference resolved to a global of the wrong kind.
#[derive(Clone, Copy, Debug, PartialEq, Eq, Structural)]
pub struct UnexpectedKind {
    pub name: Id,
    pub expected: NameKind,
    pub found: NameKind,
}

/// A call or construction supplied the wrong number of arguments or generic
/// arguments.
#[derive(Clone, Copy, Debug, PartialEq, Eq, Structural)]
pub struct ArityMismatch {
    pub callee: Id,
    pub expected: usize,
    pub found: usize,
    pub what: ArityWhat,
}

/// A constructor initializes a name that is not a field of the record.
#[derive(Clone, Copy, Debug, PartialEq, Eq, Structural)]
pub struct UnexpectedField {
    pub ty: Id,
    pub field: Id,
}

/// A constructor initializes the same field twice.
#[derive(Clone, Copy, Debug, PartialEq, Eq, Structural)]
pub struct DuplicateField {
    pub second: Id,
}

/// A constructor leaves a declared field without an initializer.
#[derive(Clone, Copy, Debug, PartialEq, Eq, Structural)]
pub struct MissingField {
    pub ty: Id,
    pub field: Id,
}

/// Any semantic error of the lowering pass.
#[derive(Clone, Copy, Debug, PartialEq, Eq, Structural)]
pub enum LowerError {
    ReusedParameter(ReusedParameter),
    ShadowedGeneric(ShadowedGeneric),
    RedeclaredField(RedeclaredField),
    RedefinedName(RedefinedName),
    UndefinedName(UndefinedName),
    KindNotFound(KindNotFound),
    UnexpectedItem(UnexpectedItem),
    UnexpectedKind(UnexpectedKind),
    ArityMismatch(ArityMismatch),
    UnexpectedField(UnexpectedField),
    DuplicateField(DuplicateField),
    MissingField(MissingField),
}

} // verus!

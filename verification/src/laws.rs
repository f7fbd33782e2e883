//! Laws of the lowering pass's error reporting.
//!
//! [`crate::lowering::lower_ast`] returns exactly the error that
//! [`crate::sem`] defines, so properties of the pass's diagnostics are
//! properties of the `check` functions. This module states and proves the
//! ones a user of the pass relies on: which error each kind of ill-formed
//! input produces, and what that error cites.

use vstd::prelude::*;

use crate::ast;
use crate::diagnostics::{spec_diagnostic_of, Message};
use crate::errors::{
    ArityMismatch, ArityWhat, DuplicateField, KindNotFound, LowerError, MissingField, NameKind,
    ReusedParameter, ShadowedGeneric, UndefinedName, UnexpectedField, UnexpectedItem,
    UnexpectedKind,
};
use crate::sem::{
    check_call, check_ctor, check_def, check_def_params, check_expr, check_exprs, check_inits,
    check_record, check_type, first_dup, first_field_match, first_unfilled, lookup_scopes, sym_in,
    EntryKind, GEnv, GlobalSig, SEnv,
};

verus! {

/// The first duplicate is found wherever the scan starts, as long as no
/// earlier position repeats a name.
proof fn lemma_first_dup_from(ids: Seq<ast::Id>, i: int, j: int)
    requires
        0 <= j <= i < ids.len(),
        sym_in(ids, i, ids[i].symbol.id),
        forall|k: int| j <= k < i ==> !sym_in(ids, k, (#[trigger] ids[k]).symbol.id),
    ensures
        first_dup(ids, j) == Some(i),
    decreases i - j,
{
    if j < i {
        lemma_first_dup_from(ids, i, j + 1);
    }
}

/// Law: a record whose generic-parameter list repeats a name, first at
/// position `i`, is rejected with "reuse of parameter name", and the error
/// cites that duplicate occurrence itself — however many parameters precede
/// it, and whatever else the record holds.
pub proof fn lemma_record_duplicate_generic_rejected(g: GEnv, r: ast::Record, i: int)
    requires
        0 <= i < r.params@.len(),
        sym_in(r.params@, i, r.params@[i].symbol.id),
        forall|k: int| 0 <= k < i ==> !sym_in(r.params@, k, (#[trigger] r.params@[k]).symbol.id),
    ensures
        check_record(g, r) == Some(
            LowerError::ReusedParameter(ReusedParameter { second: r.params@[i] }),
        ),
{
    lemma_first_dup_from(r.params@, i, 0);
}

/// Law: a definition whose generic-parameter list repeats a name, first at
/// position `i`, is rejected the same way, citing the duplicate occurrence.
pub proof fn lemma_def_duplicate_generic_rejected(g: GEnv, d: ast::Definition, i: int)
    requires
        0 <= i < d.generics@.len(),
        sym_in(d.generics@, i, d.generics@[i].symbol.id),
        forall|k: int|
            0 <= k < i ==> !sym_in(d.generics@, k, (#[trigger] d.generics@[k]).symbol.id),
    ensures
        check_def(g, d) == Some(
            LowerError::ReusedParameter(ReusedParameter { second: d.generics@[i] }),
        ),
{
    lemma_first_dup_from(d.generics@, i, 0);
}

/// Law: a value parameter whose name is bound as a *generic* parameter is
/// rejected as "shadows a generic parameter", citing the generic's
/// occurrence first and the parameter second.
pub proof fn lemma_value_param_shadows_generic(
    g: GEnv,
    s: SEnv,
    inputs: Seq<ast::Parameter>,
    i: int,
)
    requires
        0 <= i < inputs.len(),
        s.len() > 0,
        check_type(g, s, inputs[i].ty) is None,
        s.last().contains_key(inputs[i].name.symbol.id),
        s.last()[inputs[i].name.symbol.id].kind == EntryKind::Generic,
    ensures
        check_def_params(g, s, inputs, i).0 == Some(
            LowerError::ShadowedGeneric(
                ShadowedGeneric {
                    first: s.last()[inputs[i].name.symbol.id].id,
                    second: inputs[i].name,
                },
            ),
        ),
{
}

/// Law: a value parameter whose name is bound as another *value* parameter
/// is rejected as "reuse of parameter name" — a distinguishable outcome
/// from shadowing a generic.
pub proof fn lemma_value_param_reused(g: GEnv, s: SEnv, inputs: Seq<ast::Parameter>, i: int)
    requires
        0 <= i < inputs.len(),
        s.len() > 0,
        check_type(g, s, inputs[i].ty) is None,
        s.last().contains_key(inputs[i].name.symbol.id),
        s.last()[inputs[i].name.symbol.id].kind == EntryKind::Value,
    ensures
        check_def_params(g, s, inputs, i).0 == Some(
            LowerError::ReusedParameter(ReusedParameter { second: inputs[i].name }),
        ),
{
}

/// Law: a value position naming nothing in scope and nothing global is
/// "undefined name"; naming a global instead of a value is the distinct
/// wrong-namespace error, which says what the name actually is.
pub proof fn lemma_value_lookup_errors(g: GEnv, s: SEnv, e: ast::Expression, name: ast::Id)
    requires
        e.kind matches ast::ExprKind::Id(n) && n == name,
        lookup_scopes(s, name.symbol.id) is None,
    ensures
        !g.contains_key(name.symbol.id) ==> check_expr(g, s, e) == Some(
            LowerError::UndefinedName(UndefinedName { name }),
        ),
        g.contains_key(name.symbol.id) ==> check_expr(g, s, e) == Some(
            LowerError::UnexpectedItem(
                UnexpectedItem { name, kind: g[name.symbol.id].kind() },
            ),
        ),
{
}

/// Law: calling a name with no global definition fails as "no function with
/// name"; calling a name that is a record fails as "struct not callable" —
/// the two are distinguishable, and neither is confused with constructing.
pub proof fn lemma_call_resolution_errors(g: GEnv, s: SEnv, c: ast::Call)
    ensures
        !g.contains_key(c.name.symbol.id) ==> check_call(g, s, c) == Some(
            LowerError::KindNotFound(KindNotFound { name: c.name, kind: NameKind::Function }),
        ),
        g.contains_key(c.name.symbol.id) && g[c.name.symbol.id] is Record ==> check_call(g, s, c)
            == Some(
            LowerError::UnexpectedKind(
                UnexpectedKind {
                    name: c.name,
                    expected: NameKind::Function,
                    found: NameKind::Struct,
                },
            ),
        ),
{
}

/// Law: constructing a name that is a definition fails as "not a struct
/// type", the symmetric wrong-kind error to "struct not callable".
pub proof fn lemma_construct_def_rejected(g: GEnv, s: SEnv, c: ast::Constructor)
    requires
        g.contains_key(c.name.symbol.id),
        g[c.name.symbol.id] is Def,
    ensures
        check_ctor(g, s, c) == Some(
            LowerError::UnexpectedKind(
                UnexpectedKind {
                    name: c.name,
                    expected: NameKind::Struct,
                    found: NameKind::Function,
                },
            ),
        ),
{
}

/// Law: a call whose generic-argument count differs from the callee's
/// declaration reports *both* counts: the declared count as expected and
/// the supplied count as found.
pub proof fn lemma_call_generic_arity_reported(g: GEnv, s: SEnv, c: ast::Call)
    requires
        g.contains_key(c.name.symbol.id),
        g[c.name.symbol.id] is Def,
        check_exprs(g, s, c.generics@, 0) is None,
        g[c.name.symbol.id]->Def_0.generics != c.generics@.len(),
    ensures
        check_call(g, s, c) == Some(
            LowerError::ArityMismatch(
                ArityMismatch {
                    callee: c.name,
                    expected: g[c.name.symbol.id]->Def_0.generics as usize,
                    found: c.generics@.len() as usize,
                    what: ArityWhat::GenericArgument,
                },
            ),
        ),
{
}

/// Law: a call whose value-argument count differs from the callee's
/// declaration likewise reports both counts, tagged as plain arguments.
pub proof fn lemma_call_arg_arity_reported(g: GEnv, s: SEnv, c: ast::Call)
    requires
        g.contains_key(c.name.symbol.id),
        g[c.name.symbol.id] is Def,
        check_exprs(g, s, c.generics@, 0) is None,
        g[c.name.symbol.id]->Def_0.generics == c.generics@.len(),
        check_exprs(g, s, c.args@, 0) is None,
        g[c.name.symbol.id]->Def_0.params != c.args@.len(),
    ensures
        check_call(g, s, c) == Some(
            LowerError::ArityMismatch(
                ArityMismatch {
                    callee: c.name,
                    expected: g[c.name.symbol.id]->Def_0.params as usize,
                    found: c.args@.len() as usize,
                    what: ArityWhat::Argument,
                },
            ),
        ),
{
}

/// Law: the diagnostic for an arity mismatch pluralizes by the expected
/// count: the plural mark is attached exactly when that count is not one.
pub proof fn lemma_arity_pluralization(err: ArityMismatch)
    ensures
        spec_diagnostic_of(LowerError::ArityMismatch(err)).message == Some(
            Message::WrongArity {
                callee: err.callee.symbol,
                expected: err.expected,
                what: err.what,
                plural: err.expected != 1,
                found: err.found,
            },
        ),
{
}

/// Law: a constructor initializer naming something that is not a field of
/// the record fails as "not a field", citing the initializer's name.
pub proof fn lemma_ctor_unknown_field(
    g: GEnv,
    s: SEnv,
    cname: ast::Id,
    fields: Seq<ast::Id>,
    inits: Seq<ast::Assignment>,
    j: int,
    filled: Seq<bool>,
)
    requires
        0 <= j < inits.len(),
        first_field_match(fields, fields.len() as int, inits[j].lhs.symbol.id, 0) is None,
    ensures
        check_inits(g, s, cname, fields, inits, j, filled) == Some(
            LowerError::UnexpectedField(UnexpectedField { ty: cname, field: inits[j].lhs }),
        ),
{
}

/// Law: initializing the same field twice fails on the second occurrence as
/// "specified more than once".
pub proof fn lemma_ctor_duplicate_field(
    g: GEnv,
    s: SEnv,
    cname: ast::Id,
    fields: Seq<ast::Id>,
    inits: Seq<ast::Assignment>,
    j: int,
    filled: Seq<bool>,
    pos: int,
)
    requires
        0 <= j < inits.len(),
        first_field_match(fields, fields.len() as int, inits[j].lhs.symbol.id, 0) == Some(pos),
        0 <= pos < filled.len(),
        filled[pos],
    ensures
        check_inits(g, s, cname, fields, inits, j, filled) == Some(
            LowerError::DuplicateField(DuplicateField { second: inits[j].lhs }),
        ),
{
}

/// Law: once every initializer is processed, the first declared field still
/// without an initializer, in declaration order, is reported as missing by
/// name.
pub proof fn lemma_ctor_missing_field(
    g: GEnv,
    s: SEnv,
    cname: ast::Id,
    fields: Seq<ast::Id>,
    inits: Seq<ast::Assignment>,
    filled: Seq<bool>,
    pos: int,
)
    requires
        first_unfilled(filled, 0) == Some(pos),
        0 <= pos < fields.len(),
    ensures
        check_inits(g, s, cname, fields, inits, inits.len() as int, filled) == Some(
            LowerError::MissingField(MissingField { ty: cname, field: fields[pos] }),
        ),
{
}

} // verus!

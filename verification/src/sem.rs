//! The static semantics of the language, as specification functions.
//!
//! These functions define, over the syntax tree alone, which error the
//! lowering pass reports and on which input it succeeds. The pass is
//! fail-fast: each function returns the *first* error in evaluation order,
//! or `None` when the construct is well-formed. The lowering pass's
//! contracts state that it returns exactly this error, or succeeds exactly
//! when there is none.
//!
//! Names live in two namespaces: value lookups search the stack of lexical
//! scopes only, while type, callee and record references search the global
//! table only.

use vstd::prelude::*;

use crate::ast;
use crate::errors::{
    ArityMismatch, ArityWhat, DuplicateField, KindNotFound, LowerError, MissingField, NameKind,
    RedeclaredField, RedefinedName, ReusedParameter, ShadowedGeneric, UndefinedName,
    UnexpectedField, UnexpectedItem, UnexpectedKind,
};

verus! {

broadcast use vstd::std_specs::vec::group_vec_axioms;

/// What kind of name a scope entry binds.
pub ghost enum EntryKind {
    /// A generic parameter of the enclosing record or definition.
    Generic,
    /// A value parameter of the enclosing definition.
    Value,
    /// A let-binding introduced by an assignment statement.
    Binding,
}

/// One binding of a lexical scope: its kind and the identifier occurrence
/// that introduced it (whose span diagnostics cite).
pub ghost struct ScopeEntry {
    pub kind: EntryKind,
    pub id: ast::Id,
}

/// What the global table records about a record declaration.
pub ghost struct RecordSig {
    pub name: ast::Id,
    pub generics: nat,
    pub fields: Seq<ast::Id>,
}

/// What the global table records about a definition.
pub ghost struct DefSig {
    pub name: ast::Id,
    pub generics: nat,
    pub params: nat,
}

/// One entry of the global table.
pub ghost enum GlobalSig {
    Record(RecordSig),
    Def(DefSig),
}

/// The global table: file-wide names, each a record or a definition.
pub type GEnv = Map<u32, GlobalSig>;

/// The stack of lexical scopes, innermost last.
pub type SEnv = Seq<Map<u32, ScopeEntry>>;

impl GlobalSig {
    /// The kind reported when a value position names this global.
    pub open spec fn kind(self) -> NameKind {
        match self {
            GlobalSig::Record(_) => NameKind::Struct,
            GlobalSig::Def(_) => NameKind::Function,
        }
    }

    /// The identifier occurrence that registered this global.
    pub open spec fn name(self) -> ast::Id {
        match self {
            GlobalSig::Record(r) => r.name,
            GlobalSig::Def(d) => d.name,
        }
    }
}

/// Looks a name up in the scope stack, innermost scope first. Value lookups
/// never fall back to the global table.
pub open spec fn lookup_scopes(s: SEnv, sym: u32) -> Option<ScopeEntry>
    decreases s.len(),
{
    if s.len() == 0 {
        None
    } else if s.last().contains_key(sym) {
        Some(s.last()[sym])
    } else {
        lookup_scopes(s.drop_last(), sym)
    }
}

/// Adds a binding to the innermost scope, shadowing any same-named entry.
pub open spec fn scope_insert(s: SEnv, sym: u32, e: ScopeEntry) -> SEnv {
    s.update(s.len() - 1, s.last().insert(sym, e))
}

/// Whether `sym` occurs among the first `upto` identifiers.
pub open spec fn sym_in(ids: Seq<ast::Id>, upto: int, sym: u32) -> bool {
    exists|j: int| 0 <= j < upto && ids[j].symbol.id == sym
}

/// The first position at or after `i` whose name already occurred earlier
/// in the sequence, if any: the first duplicate, scanning left to right.
pub open spec fn first_dup(ids: Seq<ast::Id>, i: int) -> Option<int>
    decreases ids.len() - i,
{
    if i < 0 || i >= ids.len() {
        None
    } else if sym_in(ids, i, ids[i].symbol.id) {
        Some(i)
    } else {
        first_dup(ids, i + 1)
    }
}

/// The scope built by inserting one entry per identifier, in order, all of
/// one kind.
pub open spec fn param_scope(ids: Seq<ast::Id>, kind: EntryKind) -> Map<u32, ScopeEntry>
    decreases ids.len(),
{
    if ids.len() == 0 {
        Map::empty()
    } else {
        param_scope(ids.drop_last(), kind).insert(
            ids.last().symbol.id,
            ScopeEntry { kind, id: ids.last() },
        )
    }
}

/// The first position at or after `j`, below `upto`, whose field name is
/// `sym`, if any.
pub open spec fn first_field_match(fields: Seq<ast::Id>, upto: int, sym: u32, j: int) -> Option<
    int,
>
    decreases upto - j,
{
    if j < 0 || j >= upto || j >= fields.len() {
        None
    } else if fields[j].symbol.id == sym {
        Some(j)
    } else {
        first_field_match(fields, upto, sym, j + 1)
    }
}

/// The first position at or after `i` whose slot is not yet filled, if any.
pub open spec fn first_unfilled(filled: Seq<bool>, i: int) -> Option<int>
    decreases filled.len() - i,
{
    if i < 0 || i >= filled.len() {
        None
    } else if !filled[i] {
        Some(i)
    } else {
        first_unfilled(filled, i + 1)
    }
}

/// The first error in an expression, or `None` if every name it mentions
/// resolves and every call and construction in it is well-formed.
pub open spec fn check_expr(g: GEnv, s: SEnv, e: ast::Expression) -> Option<LowerError>
    decreases e,
{
    match e.kind {
        ast::ExprKind::Id(name) => {
            if lookup_scopes(s, name.symbol.id) is Some {
                None
            } else if g.contains_key(name.symbol.id) {
                Some(
                    LowerError::UnexpectedItem(
                        UnexpectedItem { name, kind: g[name.symbol.id].kind() },
                    ),
                )
            } else {
                Some(LowerError::UndefinedName(UndefinedName { name }))
            }
        },
        ast::ExprKind::Lit(_) => None,
        ast::ExprKind::Field(sub, _) => check_expr(g, s, *sub),
        ast::ExprKind::Unary(_, sub) => check_expr(g, s, *sub),
        ast::ExprKind::Binary(_, lhs, rhs) => match check_expr(g, s, *lhs) {
            Some(err) => Some(err),
            None => check_expr(g, s, *rhs),
        },
        ast::ExprKind::Call(call) => check_call(g, s, *call),
        ast::ExprKind::Record(ctor) => check_ctor(g, s, *ctor),
    }
}

/// The first error among the expressions from position `i` on, in order.
pub open spec fn check_exprs(g: GEnv, s: SEnv, es: Seq<ast::Expression>, i: int) -> Option<
    LowerError,
>
    decreases es, es.len() - i,
{
    if i < 0 || i >= es.len() {
        None
    } else {
        match check_expr(g, s, es[i]) {
            Some(err) => Some(err),
            None => check_exprs(g, s, es, i + 1),
        }
    }
}

/// The first error in a call: the callee must be a declared definition, the
/// argument expressions must be well-formed, and both argument counts must
/// match the declaration.
pub open spec fn check_call(g: GEnv, s: SEnv, c: ast::Call) -> Option<LowerError>
    decreases c,
{
    if !g.contains_key(c.name.symbol.id) {
        Some(LowerError::KindNotFound(KindNotFound { name: c.name, kind: NameKind::Function }))
    } else {
        match g[c.name.symbol.id] {
            GlobalSig::Record(_) => Some(
                LowerError::UnexpectedKind(
                    UnexpectedKind {
                        name: c.name,
                        expected: NameKind::Function,
                        found: NameKind::Struct,
                    },
                ),
            ),
            GlobalSig::Def(dsig) => match check_exprs(g, s, c.generics@, 0) {
                Some(err) => Some(err),
                None => if dsig.generics != c.generics@.len() {
                    Some(
                        LowerError::ArityMismatch(
                            ArityMismatch {
                                callee: c.name,
                                expected: dsig.generics as usize,
                                found: c.generics@.len() as usize,
                                what: ArityWhat::GenericArgument,
                            },
                        ),
                    )
                } else {
                    match check_exprs(g, s, c.args@, 0) {
                        Some(err) => Some(err),
                        None => if dsig.params != c.args@.len() {
                            Some(
                                LowerError::ArityMismatch(
                                    ArityMismatch {
                                        callee: c.name,
                                        expected: dsig.params as usize,
                                        found: c.args@.len() as usize,
                                        what: ArityWhat::Argument,
                                    },
                                ),
                            )
                        } else {
                            None
                        },
                    }
                },
            },
        }
    }
}

/// The first error among a constructor's field initializers from position
/// `j` on, given which record fields are already filled; after the last
/// initializer, the first field still unfilled, in declaration order, is
/// missing.
pub open spec fn check_inits(
    g: GEnv,
    s: SEnv,
    cname: ast::Id,
    fields: Seq<ast::Id>,
    inits: Seq<ast::Assignment>,
    j: int,
    filled: Seq<bool>,
) -> Option<LowerError>
    decreases inits, inits.len() - j,
{
    if j < 0 || j >= inits.len() {
        match first_unfilled(filled, 0) {
            Some(missing) => Some(
                LowerError::MissingField(MissingField { ty: cname, field: fields[missing] }),
            ),
            None => None,
        }
    } else {
        let init = inits[j];
        match first_field_match(fields, fields.len() as int, init.lhs.symbol.id, 0) {
            None => Some(
                LowerError::UnexpectedField(UnexpectedField { ty: cname, field: init.lhs }),
            ),
            Some(pos) => if filled[pos] {
                Some(LowerError::DuplicateField(DuplicateField { second: init.lhs }))
            } else {
                match check_expr(g, s, init.rhs) {
                    Some(err) => Some(err),
                    None => check_inits(g, s, cname, fields, inits, j + 1, filled.update(pos, true)),
                }
            },
        }
    }
}

/// The first error in a record construction: the name must be a declared
/// record, the generic argument count must match, each initializer must
/// name a declared field exactly once, and no declared field may be left
/// out.
pub open spec fn check_ctor(g: GEnv, s: SEnv, c: ast::Constructor) -> Option<LowerError>
    decreases c,
{
    if !g.contains_key(c.name.symbol.id) {
        Some(LowerError::KindNotFound(KindNotFound { name: c.name, kind: NameKind::Struct }))
    } else {
        match g[c.name.symbol.id] {
            GlobalSig::Def(_) => Some(
                LowerError::UnexpectedKind(
                    UnexpectedKind {
                        name: c.name,
                        expected: NameKind::Struct,
                        found: NameKind::Function,
                    },
                ),
            ),
            GlobalSig::Record(rsig) => match check_exprs(g, s, c.generics@, 0) {
                Some(err) => Some(err),
                None => if rsig.generics != c.generics@.len() {
                    Some(
                        LowerError::ArityMismatch(
                            ArityMismatch {
                                callee: c.name,
                                expected: rsig.generics as usize,
                                found: c.generics@.len() as usize,
                                what: ArityWhat::GenericArgument,
                            },
                        ),
                    )
                } else {
                    check_inits(
                        g,
                        s,
                        c.name,
                        rsig.fields,
                        c.fields@,
                        0,
                        Seq::new(rsig.fields.len(), |i: int| false),
                    )
                },
            },
        }
    }
}

/// The first error in a written type: the name must be a declared record,
/// the argument expressions must be well-formed, and the argument count
/// must match the record's generic-parameter count.
pub open spec fn check_type(g: GEnv, s: SEnv, t: ast::Type) -> Option<LowerError>
    decreases t,
{
    if !g.contains_key(t.name.symbol.id) {
        Some(LowerError::KindNotFound(KindNotFound { name: t.name, kind: NameKind::Type }))
    } else {
        match g[t.name.symbol.id] {
            GlobalSig::Def(_) => Some(
                LowerError::UnexpectedKind(
                    UnexpectedKind {
                        name: t.name,
                        expected: NameKind::Type,
                        found: NameKind::Function,
                    },
                ),
            ),
            GlobalSig::Record(rsig) => match check_exprs(g, s, t.args@, 0) {
                Some(err) => Some(err),
                None => if rsig.generics != t.args@.len() {
                    Some(
                        LowerError::ArityMismatch(
                            ArityMismatch {
                                callee: t.name,
                                expected: rsig.generics as usize,
                                found: t.args@.len() as usize,
                                what: ArityWhat::GenericArgument,
                            },
                        ),
                    )
                } else {
                    None
                },
            },
        }
    }
}

/// The first error in one statement, together with the scopes after it: an
/// assignment binds its name in the innermost scope for what follows, and an
/// unsafe block's bindings persist, since blocks do not open a scope of
/// their own.
pub open spec fn check_stmt(g: GEnv, s: SEnv, st: ast::Statement) -> (Option<LowerError>, SEnv)
    decreases st,
{
    match st.kind {
        ast::StmtKind::Assign(assn) => match check_expr(g, s, assn.rhs) {
            Some(err) => (Some(err), s),
            None => (
                None,
                scope_insert(
                    s,
                    assn.lhs.symbol.id,
                    ScopeEntry { kind: EntryKind::Binding, id: assn.lhs },
                ),
            ),
        },
        ast::StmtKind::Return(e) => (check_expr(g, s, e), s),
        ast::StmtKind::Unsafe(block) => check_stmts(g, s, block.0@, 0),
    }
}

/// The first error among the statements from position `i` on, together with
/// the scopes after them.
pub open spec fn check_stmts(g: GEnv, s: SEnv, stmts: Seq<ast::Statement>, i: int) -> (Option<
    LowerError,
>, SEnv)
    decreases stmts, stmts.len() - i,
{
    if i < 0 || i >= stmts.len() {
        (None, s)
    } else {
        let one = check_stmt(g, s, stmts[i]);
        if one.0 is Some {
            one
        } else {
            check_stmts(g, one.1, stmts, i + 1)
        }
    }
}

/// The first error among a record's fields from position `i` on: each
/// field's type is checked first, then its name is checked against all
/// fields declared before it.
pub open spec fn check_record_fields(
    g: GEnv,
    s: SEnv,
    fields: Seq<ast::Field>,
    i: int,
) -> Option<LowerError>
    decreases fields.len() - i,
{
    if i < 0 || i >= fields.len() {
        None
    } else {
        match check_type(g, s, fields[i].ty) {
            Some(err) => Some(err),
            None => {
                match first_field_match(
                    fields.map_values(|f: ast::Field| f.name),
                    i,
                    fields[i].name.symbol.id,
                    0,
                ) {
                    Some(prev) => Some(
                        LowerError::RedeclaredField(
                            RedeclaredField { first: fields[prev].name, second: fields[i].name },
                        ),
                    ),
                    None => check_record_fields(g, s, fields, i + 1),
                }
            },
        }
    }
}

/// What the global table records for a record declaration.
pub open spec fn record_sig(r: ast::Record) -> RecordSig {
    RecordSig {
        name: r.name,
        generics: r.params@.len(),
        fields: r.fields@.map_values(|f: ast::Field| f.name),
    }
}

/// What the global table records for a definition.
pub open spec fn def_sig(d: ast::Definition) -> DefSig {
    DefSig { name: d.name, generics: d.generics@.len(), params: d.sig.inputs@.len() }
}

/// The error reported when a top-level name is already taken, if it is.
pub open spec fn check_add_global(g: GEnv, name: ast::Id) -> Option<LowerError> {
    if g.contains_key(name.symbol.id) {
        Some(
            LowerError::RedefinedName(
                RedefinedName { first: g[name.symbol.id].name(), second: name },
            ),
        )
    } else {
        None
    }
}

/// The first error in a record declaration: duplicate generic parameters
/// first, then each field in order, then the registration of the record's
/// name.
pub open spec fn check_record(g: GEnv, r: ast::Record) -> Option<LowerError> {
    match first_dup(r.params@, 0) {
        Some(i) => Some(LowerError::ReusedParameter(ReusedParameter { second: r.params@[i] })),
        None => {
            let s = seq![param_scope(r.params@, EntryKind::Generic)];
            match check_record_fields(g, s, r.fields@, 0) {
                Some(err) => Some(err),
                None => check_add_global(g, r.name),
            }
        },
    }
}

/// The first error among a definition's value parameters from position `i`
/// on, together with the scopes after them. Each parameter's type is
/// checked in the scope holding the generics and the parameters before it;
/// then the parameter's own name must not clash with a generic parameter
/// (which it would shadow) or with an earlier value parameter (which would
/// reuse the name).
pub open spec fn check_def_params(
    g: GEnv,
    s: SEnv,
    inputs: Seq<ast::Parameter>,
    i: int,
) -> (Option<LowerError>, SEnv)
    decreases inputs.len() - i,
{
    if i < 0 || i >= inputs.len() {
        (None, s)
    } else {
        match check_type(g, s, inputs[i].ty) {
            Some(err) => (Some(err), s),
            None => {
                let sym = inputs[i].name.symbol.id;
                if s.last().contains_key(sym) {
                    match s.last()[sym].kind {
                        EntryKind::Generic => (
                            Some(
                                LowerError::ShadowedGeneric(
                                    ShadowedGeneric {
                                        first: s.last()[sym].id,
                                        second: inputs[i].name,
                                    },
                                ),
                            ),
                            s,
                        ),
                        _ => (
                            Some(
                                LowerError::ReusedParameter(
                                    ReusedParameter { second: inputs[i].name },
                                ),
                            ),
                            s,
                        ),
                    }
                } else {
                    check_def_params(
                        g,
                        scope_insert(s, sym, ScopeEntry { kind: EntryKind::Value, id: inputs[i].name }),
                        inputs,
                        i + 1,
                    )
                }
            },
        }
    }
}

/// The first error in a definition: duplicate generic parameters, then the
/// value parameters, then the output type, the optional precondition, the
/// optional implements expression and the optional body, all in the
/// parameter scope, then the registration of the definition's name.
pub open spec fn check_def(g: GEnv, d: ast::Definition) -> Option<LowerError> {
    match first_dup(d.generics@, 0) {
        Some(i) => Some(LowerError::ReusedParameter(ReusedParameter { second: d.generics@[i] })),
        None => {
            let s0 = seq![param_scope(d.generics@, EntryKind::Generic)];
            let params_out = check_def_params(g, s0, d.sig.inputs@, 0);
            if params_out.0 is Some {
                params_out.0
            } else {
                let s1 = params_out.1;
                match check_type(g, s1, d.sig.output) {
                    Some(err) => Some(err),
                    None => {
                        let pre_err = match d.precondition {
                            Some(e) => check_expr(g, s1, *e),
                            None => None,
                        };
                        if pre_err is Some {
                            pre_err
                        } else {
                            let impl_err = match d.implements {
                                Some(e) => check_expr(g, s1, *e),
                                None => None,
                            };
                            if impl_err is Some {
                                impl_err
                            } else {
                                let body_err = match d.body {
                                    Some(block) => check_stmts(g, s1, block.0@, 0).0,
                                    None => None,
                                };
                                if body_err is Some {
                                    body_err
                                } else {
                                    check_add_global(g, d.name)
                                }
                            }
                        }
                    },
                }
            }
        },
    }
}

/// The global table after registering one item.
pub open spec fn genv_insert(g: GEnv, item: ast::Item) -> GEnv {
    match item.kind {
        ast::ItemKind::Record(r) => g.insert(r.name.symbol.id, GlobalSig::Record(record_sig(r))),
        ast::ItemKind::Def(d) => g.insert(d.name.symbol.id, GlobalSig::Def(def_sig(d))),
    }
}

/// The first error among the items from position `i` on. Each item is
/// checked against the globals registered so far, then registered, so only
/// earlier-declared names are visible: the table is built incrementally in
/// source order.
pub open spec fn check_items(g: GEnv, items: Seq<ast::Item>, i: int) -> Option<LowerError>
    decreases items.len() - i,
{
    if i < 0 || i >= items.len() {
        None
    } else {
        let err = match items[i].kind {
            ast::ItemKind::Record(r) => check_record(g, r),
            ast::ItemKind::Def(d) => check_def(g, d),
        };
        match err {
            Some(e) => Some(e),
            None => check_items(genv_insert(g, items[i]), items, i + 1),
        }
    }
}

/// The global table after registering the items before position `i`,
/// assuming they were all well-formed.
pub open spec fn genv_after(g: GEnv, items: Seq<ast::Item>, i: int) -> GEnv
    decreases i,
{
    if i <= 0 {
        g
    } else {
        genv_insert(genv_after(g, items, i - 1), items[i - 1])
    }
}

/// The first error in a file, starting from an empty global table, or
/// `None` exactly when lowering succeeds.
pub open spec fn check_file(f: ast::File) -> Option<LowerError> {
    check_items(Map::empty(), f.items@, 0)
}

// ---------------------------------------------------------------------------
// Allocation weights.
//
// Handles are 32 bits wide, so the pass must not allocate more than the
// handle space can name. The weight of a construct bounds how many arena and
// side-table slots lowering it can allocate; `m` bounds the field count of
// any record the file can declare, since a constructor reserves one
// initializer slot per *declared* field of its record.

/// The largest field count of any record among the items.
pub open spec fn max_fields(items: Seq<ast::Item>) -> nat
    decreases items.len(),
{
    if items.len() == 0 {
        0
    } else {
        let rest = max_fields(items.drop_last());
        let own: nat = match items.last().kind {
            ast::ItemKind::Record(r) => r.fields@.len(),
            ast::ItemKind::Def(_) => 0,
        };
        if own > rest {
            own
        } else {
            rest
        }
    }
}

/// Every record among the items fits the file-wide field-count bound.
pub proof fn lemma_max_fields_bound(items: Seq<ast::Item>, i: int)
    requires
        0 <= i < items.len(),
    ensures
        match items[i].kind {
            ast::ItemKind::Record(r) => r.fields@.len() <= max_fields(items),
            ast::ItemKind::Def(_) => true,
        },
    decreases items.len(),
{
    if i == items.len() - 1 {
        assert(items.last() == items[i]);
    } else {
        lemma_max_fields_bound(items.drop_last(), i);
        assert(items.drop_last()[i] == items[i]);
    }
}

/// An upper bound on the slots allocated by lowering one expression.
pub open spec fn weight_expr(m: nat, e: ast::Expression) -> nat
    decreases e,
{
    match e.kind {
        ast::ExprKind::Id(_) => 1,
        ast::ExprKind::Lit(_) => 1,
        ast::ExprKind::Field(sub, _) => 1 + weight_expr(m, *sub),
        ast::ExprKind::Unary(_, sub) => 1 + weight_expr(m, *sub),
        ast::ExprKind::Binary(_, lhs, rhs) => 1 + weight_expr(m, *lhs) + weight_expr(m, *rhs),
        ast::ExprKind::Call(call) => 1 + call.generics@.len() + call.args@.len() + weight_exprs(
            m,
            call.generics@,
            0,
        ) + weight_exprs(m, call.args@, 0),
        ast::ExprKind::Record(ctor) => 1 + ctor.generics@.len() + m + weight_exprs(
            m,
            ctor.generics@,
            0,
        ) + weight_inits(m, ctor.fields@, 0),
    }
}

/// The summed weight of the expressions from position `i` on.
pub open spec fn weight_exprs(m: nat, es: Seq<ast::Expression>, i: int) -> nat
    decreases es, es.len() - i,
{
    if i < 0 || i >= es.len() {
        0
    } else {
        weight_expr(m, es[i]) + weight_exprs(m, es, i + 1)
    }
}

/// The summed weight of the initializer expressions from position `j` on.
pub open spec fn weight_inits(m: nat, inits: Seq<ast::Assignment>, j: int) -> nat
    decreases inits, inits.len() - j,
{
    if j < 0 || j >= inits.len() {
        0
    } else {
        weight_expr(m, inits[j].rhs) + weight_inits(m, inits, j + 1)
    }
}

/// An upper bound on the slots allocated by lowering one written type.
pub open spec fn weight_type(m: nat, t: ast::Type) -> nat {
    1 + t.args@.len() + weight_exprs(m, t.args@, 0)
}

/// An upper bound on the slots allocated by lowering one statement.
pub open spec fn weight_stmt(m: nat, st: ast::Statement) -> nat
    decreases st,
{
    match st.kind {
        ast::StmtKind::Assign(assn) => 2 + weight_expr(m, assn.rhs),
        ast::StmtKind::Return(e) => 1 + weight_expr(m, e),
        ast::StmtKind::Unsafe(block) => 1 + block.0@.len() + weight_stmts(m, block.0@, 0),
    }
}

/// The summed weight of the statements from position `i` on.
pub open spec fn weight_stmts(m: nat, stmts: Seq<ast::Statement>, i: int) -> nat
    decreases stmts, stmts.len() - i,
{
    if i < 0 || i >= stmts.len() {
        0
    } else {
        weight_stmt(m, stmts[i]) + weight_stmts(m, stmts, i + 1)
    }
}

/// The summed weight of the record fields from position `i` on: one field
/// node plus the field's type, each.
pub open spec fn weight_fields(m: nat, fields: Seq<ast::Field>, i: int) -> nat
    decreases fields.len() - i,
{
    if i < 0 || i >= fields.len() {
        0
    } else {
        1 + weight_type(m, fields[i].ty) + weight_fields(m, fields, i + 1)
    }
}

/// The summed weight of the value parameters from position `i` on: one
/// parameter node plus the parameter's type, each.
pub open spec fn weight_params(m: nat, inputs: Seq<ast::Parameter>, i: int) -> nat
    decreases inputs.len() - i,
{
    if i < 0 || i >= inputs.len() {
        0
    } else {
        1 + weight_type(m, inputs[i].ty) + weight_params(m, inputs, i + 1)
    }
}

/// An upper bound on the slots allocated by lowering one record.
pub open spec fn weight_record(m: nat, r: ast::Record) -> nat {
    1 + r.params@.len() + weight_fields(m, r.fields@, 0)
}

/// An upper bound on the slots allocated by lowering one definition.
pub open spec fn weight_def(m: nat, d: ast::Definition) -> nat {
    1 + d.generics@.len() + d.sig.inputs@.len() + weight_params(m, d.sig.inputs@, 0) + weight_type(
        m,
        d.sig.output,
    ) + (match d.precondition {
        Some(e) => weight_expr(m, *e),
        None => 0,
    }) + (match d.implements {
        Some(e) => weight_expr(m, *e),
        None => 0,
    }) + (match d.body {
        Some(block) => 1 + block.0@.len() + weight_stmts(m, block.0@, 0),
        None => 0,
    })
}

/// The summed weight of the items from position `i` on.
pub open spec fn weight_items(m: nat, items: Seq<ast::Item>, i: int) -> nat
    decreases items.len() - i,
{
    if i < 0 || i >= items.len() {
        0
    } else {
        (match items[i].kind {
            ast::ItemKind::Record(r) => weight_record(m, r),
            ast::ItemKind::Def(d) => weight_def(m, d),
        }) + weight_items(m, items, i + 1)
    }
}

/// An upper bound on the slots the whole pass allocates for a file. The
/// pass's precondition asks that this stay below the 32-bit handle space;
/// beyond it, handle allocation would have to abort.
pub open spec fn weight_file(f: ast::File) -> nat {
    weight_items(max_fields(f.items@), f.items@, 0)
}

/// Whether every generic-parameter and value-parameter count in the file
/// fits the 16-bit parameter ordinals.
pub open spec fn params_bounded(f: ast::File) -> bool {
    forall|i: int|
        0 <= i < f.items@.len() ==> match (#[trigger] f.items@[i]).kind {
            ast::ItemKind::Record(r) => r.params@.len() <= u16::MAX,
            ast::ItemKind::Def(d) => d.generics@.len() <= u16::MAX && d.sig.inputs@.len()
                <= u16::MAX,
        }
}

/// How many of the first `i` items are records.
pub open spec fn count_records(items: Seq<ast::Item>, i: int) -> nat
    decreases i,
{
    if i <= 0 {
        0
    } else {
        count_records(items, i - 1) + (match items[i - 1].kind {
            ast::ItemKind::Record(_) => 1nat,
            ast::ItemKind::Def(_) => 0nat,
        })
    }
}

/// How many of the first `i` items are definitions.
pub open spec fn count_defs(items: Seq<ast::Item>, i: int) -> nat
    decreases i,
{
    if i <= 0 {
        0
    } else {
        count_defs(items, i - 1) + (match items[i - 1].kind {
            ast::ItemKind::Record(_) => 0nat,
            ast::ItemKind::Def(_) => 1nat,
        })
    }
}

} // verus!

//! The lowering pass: syntax tree in, arena-stored IR out.
//!
//! The pass walks the tree once, in source order. It keeps a global table of
//! top-level names and a stack of lexical scopes, resolves every name,
//! validates arities and field sets, and populates the context. It is
//! fail-fast: the first semantic error aborts the whole pass, and the error
//! returned is exactly the one [`crate::sem`] defines for the input.
//!
//! Alongside the executable state the pass carries its ghost mirror: the
//! global table and scope stack as `sem` sees them, the remaining allocation
//! budget (handles are 32 bits wide), and the bound on record field counts.

use vstd::prelude::*;

use std::collections::HashMap;

use crate::ast;
use crate::context::{ctx_extends, nodes_extend, total_alloc, Context};
use crate::errors::{
    ArityMismatch, ArityWhat, DuplicateField, KindNotFound, LowerError, MissingField, NameKind,
    RedeclaredField, RedefinedName, ReusedParameter, ShadowedGeneric, UndefinedName,
    UnexpectedField, UnexpectedItem, UnexpectedKind,
};
use crate::hir;
use crate::list::INVALID_SLOT;
use crate::sem::{
    check_add_global, check_call, check_ctor, check_def, check_def_params, check_expr,
    check_exprs, check_file, check_inits, check_items, check_record, check_record_fields,
    check_stmt, check_stmts, check_type, count_defs, count_records, def_sig, first_dup,
    first_field_match, first_unfilled, genv_after, genv_insert, lemma_max_fields_bound,
    lookup_scopes, max_fields, param_scope, params_bounded, record_sig, scope_insert, sym_in,
    weight_def, weight_expr,
    weight_exprs, weight_fields, weight_file, weight_inits, weight_items, weight_params,
    weight_record, weight_stmt, weight_stmts, weight_type, DefSig, EntryKind, GEnv, GlobalSig,
    RecordSig, SEnv, ScopeEntry,
};

verus! {

broadcast use vstd::std_specs::hash::group_hash_axioms, vstd::std_specs::vec::group_vec_axioms;

/// What a top-level name resolves to: a record or a definition.
#[derive(Clone, Copy, Debug)]
pub enum Global {
    Record(hir::RecordId),
    Def(hir::DefId),
}

/// Whether a record handle and what the global table says of it agree with
/// the context: the node is in range, carries the registered name, and its
/// parameter and field ranges are valid, with the declared field names in
/// declaration order.
pub open spec fn record_matches(ctx: Context, id: hir::RecordId, rs: RecordSig) -> bool {
    &&& id.raw < ctx.records@.len()
    &&& {
        let rec = ctx.records@[id.raw as int];
        &&& rec.name == rs.name
        &&& rec.params.start <= rec.params.end
        &&& rec.params.end <= ctx.locals@.len()
        &&& rec.params.end - rec.params.start == rs.generics
        &&& rec.fields.start <= rec.fields.end
        &&& rec.fields.end <= ctx.fields@.len()
        &&& rec.fields.end - rec.fields.start == rs.fields.len()
        &&& forall|k: int|
            0 <= k < rs.fields.len() ==> (#[trigger] ctx.fields@[rec.fields.start + k]).name
                == rs.fields[k]
    }
}

/// Whether a definition handle and what the global table says of it agree
/// with the context.
pub open spec fn def_matches(ctx: Context, id: hir::DefId, ds: DefSig) -> bool {
    &&& id.raw < ctx.defs@.len()
    &&& {
        let d = ctx.defs@[id.raw as int];
        &&& d.name == ds.name
        &&& d.generics.start <= d.generics.end
        &&& d.generics.end <= ctx.locals@.len()
        &&& d.generics.end - d.generics.start == ds.generics
        &&& d.inputs.start <= d.inputs.end
        &&& d.inputs.end <= ctx.params@.len()
        &&& d.inputs.end - d.inputs.start == ds.params
    }
}

/// Whether a resolved global agrees with its entry in the global table.
pub open spec fn global_matches(ctx: Context, g: Global, sig: GlobalSig) -> bool {
    match (g, sig) {
        (Global::Record(id), GlobalSig::Record(rs)) => record_matches(ctx, id, rs),
        (Global::Def(id), GlobalSig::Def(ds)) => def_matches(ctx, id, ds),
        _ => false,
    }
}

/// Whether a local handle agrees with a scope entry: the local is in range,
/// carries the entry's identifier, and has the role the entry claims.
pub open spec fn entry_matches(ctx: Context, id: hir::LocalId, e: ScopeEntry) -> bool {
    &&& id.raw < ctx.locals@.len()
    &&& {
        let loc = ctx.locals@[id.raw as int];
        &&& loc.name == e.id
        &&& match (loc.kind, e.kind) {
            (hir::LocalKind::GenericParam(_), EntryKind::Generic) => true,
            (hir::LocalKind::Param(_), EntryKind::Value) => true,
            (hir::LocalKind::Let(_), EntryKind::Binding) => true,
            _ => false,
        }
    }
}

/// Whether one executable scope agrees with its ghost mirror, entry by
/// entry; every entry's identifier spells the key it is stored under.
pub open spec fn scope_matches(
    ctx: Context,
    m: Map<u32, hir::LocalId>,
    sm: Map<u32, ScopeEntry>,
) -> bool {
    &&& m.dom() =~= sm.dom()
    &&& forall|sym: u32|
        #[trigger] sm.contains_key(sym) ==> entry_matches(ctx, m[sym], sm[sym])
            && sm[sym].id.symbol.id == sym
}

/// Whether a context realizes a global table: some assignment of handles
/// maps each registered name to a node that agrees with its signature.
pub open spec fn ctx_realizes(ctx: Context, g: GEnv, gm: Map<u32, Global>) -> bool {
    &&& gm.dom() =~= g.dom()
    &&& forall|sym: u32| #[trigger] g.contains_key(sym) ==> global_matches(ctx, gm[sym], g[sym])
}

/// The stateful lowering pass.
pub struct LoweringContext {
    /// The context being populated: the single owner of the resolved program.
    pub ctx: Context,
    /// The global table: top-level names registered so far, in source order.
    pub globals: HashMap<u32, Global>,
    /// The stack of lexical scopes, innermost last.
    pub scopes: Vec<HashMap<u32, hir::LocalId>>,
    /// Ghost mirror of `globals`, carrying each global's signature.
    pub gsig: Ghost<GEnv>,
    /// Ghost mirror of `scopes`, carrying each binding's kind and identifier.
    pub senv: Ghost<SEnv>,
    /// Ghost allocation budget: how many more slots the pass may allocate
    /// while keeping every handle below the 32-bit maximum.
    pub budget: Ghost<nat>,
    /// Ghost bound on the field count of any record the file declares.
    pub fmax: Ghost<nat>,
}

impl LoweringContext {
    /// The pass invariant: the allocation bound holds, and the executable
    /// global table and scope stack agree with their ghost mirrors and with
    /// the context.
    pub open spec fn wf(self) -> bool {
        &&& total_alloc(self.ctx) + self.budget@ < u32::MAX
        &&& self.globals@.dom() =~= self.gsig@.dom()
        &&& forall|sym: u32|
            #[trigger] self.gsig@.contains_key(sym) ==> global_matches(
                self.ctx,
                self.globals@[sym],
                self.gsig@[sym],
            )
        &&& self.scopes@.len() == self.senv@.len()
        &&& forall|lvl: int|
            0 <= lvl < self.senv@.len() ==> scope_matches(
                self.ctx,
                (#[trigger] self.scopes@[lvl])@,
                self.senv@[lvl],
            )
        &&& forall|sym: u32|
            #[trigger] self.gsig@.contains_key(sym) ==> sig_fields_bounded(
                self.gsig@[sym],
                self.fmax@,
            )
    }

    /// The parts of the pass state that expression lowering leaves alone:
    /// everything but the expression arena and the list side table.
    pub open spec fn expr_frame(self, pre: Self) -> bool {
        &&& ctx_extends(self.ctx, pre.ctx)
        &&& self.ctx.records@ == pre.ctx.records@
        &&& self.ctx.fields@ == pre.ctx.fields@
        &&& self.ctx.defs@ == pre.ctx.defs@
        &&& self.ctx.params@ == pre.ctx.params@
        &&& self.ctx.stmts@ == pre.ctx.stmts@
        &&& self.ctx.types@ == pre.ctx.types@
        &&& self.ctx.locals@ == pre.ctx.locals@
        &&& self.globals@ == pre.globals@
        &&& self.gsig == pre.gsig
        &&& self.scopes@ == pre.scopes@
        &&& self.senv == pre.senv
        &&& self.fmax == pre.fmax
    }

    /// The parts of the pass state that type lowering leaves alone.
    pub open spec fn type_frame(self, pre: Self) -> bool {
        &&& ctx_extends(self.ctx, pre.ctx)
        &&& self.ctx.records@ == pre.ctx.records@
        &&& self.ctx.fields@ == pre.ctx.fields@
        &&& self.ctx.defs@ == pre.ctx.defs@
        &&& self.ctx.params@ == pre.ctx.params@
        &&& self.ctx.stmts@ == pre.ctx.stmts@
        &&& self.ctx.locals@ == pre.ctx.locals@
        &&& self.globals@ == pre.globals@
        &&& self.gsig == pre.gsig
        &&& self.scopes@ == pre.scopes@
        &&& self.senv == pre.senv
        &&& self.fmax == pre.fmax
    }

    /// The parts of the pass state that statement lowering leaves alone:
    /// statements introduce let-bound locals and bindings in the innermost
    /// scope, but never touch the global table or the item arenas.
    pub open spec fn stmt_frame(self, pre: Self) -> bool {
        &&& ctx_extends(self.ctx, pre.ctx)
        &&& self.ctx.records@ == pre.ctx.records@
        &&& self.ctx.fields@ == pre.ctx.fields@
        &&& self.ctx.defs@ == pre.ctx.defs@
        &&& self.ctx.params@ == pre.ctx.params@
        &&& self.ctx.types@ == pre.ctx.types@
        &&& self.globals@ == pre.globals@
        &&& self.gsig == pre.gsig
        &&& self.scopes@.len() == pre.scopes@.len()
        &&& self.senv@.len() == pre.senv@.len()
        &&& self.fmax == pre.fmax
    }
}

/// Whether a record signature's field count respects the file-wide bound.
pub open spec fn sig_fields_bounded(sig: GlobalSig, m: nat) -> bool {
    match sig {
        GlobalSig::Record(rs) => rs.fields.len() <= m,
        GlobalSig::Def(_) => true,
    }
}

/// A record node that agreed with its signature still agrees after the
/// context grows: values already stored never move or change.
pub proof fn lemma_record_matches_extends(pre: Context, post: Context, id: hir::RecordId, rs: RecordSig)
    requires
        record_matches(pre, id, rs),
        nodes_extend(post, pre),
    ensures
        record_matches(post, id, rs),
{
    crate::arena::lemma_pushed_value_persists(pre.records@, post.records@, id.raw as int);
    let rec = pre.records@[id.raw as int];
    assert forall|k: int| 0 <= k < rs.fields.len() implies (#[trigger] post.fields@[
        rec.fields.start + k
    ]).name == rs.fields[k] by {
        crate::arena::lemma_pushed_value_persists(
            pre.fields@,
            post.fields@,
            rec.fields.start + k,
        );
    }
}

/// A definition node that agreed with its signature still agrees after the
/// context grows.
pub proof fn lemma_def_matches_extends(pre: Context, post: Context, id: hir::DefId, ds: DefSig)
    requires
        def_matches(pre, id, ds),
        nodes_extend(post, pre),
    ensures
        def_matches(post, id, ds),
{
    crate::arena::lemma_pushed_value_persists(pre.defs@, post.defs@, id.raw as int);
}

/// Whatever agreed with a context agrees with any extension of it.
pub proof fn lemma_global_matches_extends(pre: Context, post: Context, g: Global, sig: GlobalSig)
    requires
        global_matches(pre, g, sig),
        nodes_extend(post, pre),
    ensures
        global_matches(post, g, sig),
{
    match (g, sig) {
        (Global::Record(id), GlobalSig::Record(rs)) => {
            lemma_record_matches_extends(pre, post, id, rs);
        },
        (Global::Def(id), GlobalSig::Def(ds)) => {
            lemma_def_matches_extends(pre, post, id, ds);
        },
        _ => {},
    }
}

/// Items realized in a context stay realized in any extension of it.
pub proof fn lemma_items_realized_step(
    pre: Context,
    post: Context,
    items: Seq<ast::Item>,
    n: int,
    rbase: nat,
    dbase: nat,
)
    requires
        items_realized(pre, items, n, rbase, dbase),
        nodes_extend(post, pre),
    ensures
        items_realized(post, items, n, rbase, dbase),
{
    assert forall|j: int| 0 <= j < n implies match (#[trigger] items[j]).kind {
        ast::ItemKind::Record(r) => record_matches(
            post,
            hir::RecordId { raw: (rbase + count_records(items, j)) as u32 },
            record_sig(r),
        ),
        ast::ItemKind::Def(d) => def_matches(
            post,
            hir::DefId { raw: (dbase + count_defs(items, j)) as u32 },
            def_sig(d),
        ),
    } by {
        match items[j].kind {
            ast::ItemKind::Record(r) => {
                lemma_record_matches_extends(
                    pre,
                    post,
                    hir::RecordId { raw: (rbase + count_records(items, j)) as u32 },
                    record_sig(r),
                );
            },
            ast::ItemKind::Def(d) => {
                lemma_def_matches_extends(
                    pre,
                    post,
                    hir::DefId { raw: (dbase + count_defs(items, j)) as u32 },
                    def_sig(d),
                );
            },
        }
    }
}

/// Whether every item before position `n` lowered to its node, positionally:
/// the j-th record item to the record handle numbering the records declared
/// before it, the j-th definition item likewise, each node carrying its
/// declared signature.
pub open spec fn items_realized(
    ctx: Context,
    items: Seq<ast::Item>,
    n: int,
    rbase: nat,
    dbase: nat,
) -> bool {
    forall|j: int|
        0 <= j < n ==> match (#[trigger] items[j]).kind {
            ast::ItemKind::Record(r) => record_matches(
                ctx,
                hir::RecordId { raw: (rbase + count_records(items, j)) as u32 },
                record_sig(r),
            ),
            ast::ItemKind::Def(d) => def_matches(
                ctx,
                hir::DefId { raw: (dbase + count_defs(items, j)) as u32 },
                def_sig(d),
            ),
        }
}

/// Scope entries keep agreeing with the context as it grows.
pub proof fn lemma_entry_matches_extends(
    pre: Context,
    post: Context,
    id: hir::LocalId,
    e: ScopeEntry,
)
    requires
        entry_matches(pre, id, e),
        nodes_extend(post, pre),
    ensures
        entry_matches(post, id, e),
{
    crate::arena::lemma_pushed_value_persists(pre.locals@, post.locals@, id.raw as int);
}

/// Frames compose: two expression-level steps in a row are one.
pub proof fn lemma_expr_frame_trans(c: LoweringContext, b: LoweringContext, a: LoweringContext)
    requires
        c.expr_frame(b),
        b.expr_frame(a),
    ensures
        c.expr_frame(a),
{
    crate::context::lemma_ctx_extends_trans(c.ctx, b.ctx, a.ctx);
}

impl LoweringContext {
    /// The pass invariant survives growing the context, as long as the
    /// tables, their mirrors and the allocation bound are kept.
    pub proof fn lemma_wf_preserved(pre: Self, post: Self)
        requires
            pre.wf(),
            nodes_extend(post.ctx, pre.ctx),
            total_alloc(post.ctx) + post.budget@ < u32::MAX,
            post.globals@ == pre.globals@,
            post.gsig == pre.gsig,
            post.scopes@ == pre.scopes@,
            post.senv == pre.senv,
            post.fmax == pre.fmax,
        ensures
            post.wf(),
    {
        assert forall|sym: u32| #[trigger] post.gsig@.contains_key(sym) implies global_matches(
            post.ctx,
            post.globals@[sym],
            post.gsig@[sym],
        ) by {
            assert(pre.gsig@.contains_key(sym));
            lemma_global_matches_extends(pre.ctx, post.ctx, pre.globals@[sym], pre.gsig@[sym]);
        }
        assert forall|lvl: int| 0 <= lvl < post.senv@.len() implies scope_matches(
            post.ctx,
            (#[trigger] post.scopes@[lvl])@,
            post.senv@[lvl],
        ) by {
            assert(scope_matches(pre.ctx, pre.scopes@[lvl]@, pre.senv@[lvl]));
            assert forall|sym: u32| #[trigger] post.senv@[lvl].contains_key(sym) implies
                entry_matches(post.ctx, post.scopes@[lvl]@[sym], post.senv@[lvl][sym]) by {
                lemma_entry_matches_extends(
                    pre.ctx,
                    post.ctx,
                    pre.scopes@[lvl]@[sym],
                    pre.senv@[lvl][sym],
                );
            }
        }
    }
}

/// Looking a name up ignores the scope levels, above some level, that do
/// not bind it.
pub proof fn lemma_lookup_skip(s: SEnv, j: int, sym: u32)
    requires
        0 <= j <= s.len(),
        forall|k: int| j <= k < s.len() ==> !(#[trigger] s[k]).contains_key(sym),
    ensures
        lookup_scopes(s, sym) == lookup_scopes(s.subrange(0, j), sym),
    decreases s.len() - j,
{
    if j < s.len() {
        assert(!s.last().contains_key(sym));
        assert(s.drop_last() =~= s.subrange(0, s.len() - 1));
        lemma_lookup_skip(s.drop_last(), j, sym);
        assert(s.drop_last().subrange(0, j) =~= s.subrange(0, j));
    } else {
        assert(s.subrange(0, j) =~= s);
    }
}

impl LoweringContext {
    /// Looks a value name up in the scope stack, innermost scope first,
    /// never falling back to the global table.
    fn find_name(&self, symbol: u32) -> (r: Option<hir::LocalId>)
        requires
            self.wf(),
        ensures
            match r {
                Some(id) => {
                    &&& lookup_scopes(self.senv@, symbol) is Some
                    &&& entry_matches(self.ctx, id, lookup_scopes(self.senv@, symbol).unwrap())
                    &&& lookup_scopes(self.senv@, symbol).unwrap().id.symbol.id == symbol
                },
                None => lookup_scopes(self.senv@, symbol) is None,
            },
    {
        let mut lvl: usize = self.scopes.len();
        while lvl > 0
            invariant
                self.wf(),
                lvl <= self.scopes@.len(),
                forall|k: int|
                    lvl <= k < self.senv@.len() ==> !(#[trigger] self.senv@[k]).contains_key(
                        symbol,
                    ),
            decreases lvl,
        {
            lvl = lvl - 1;
            let scope = &self.scopes[lvl];
            match scope.get(&symbol) {
                Some(id) => {
                    proof {
                        lemma_lookup_skip(self.senv@, lvl as int + 1, symbol);
                        assert(self.senv@.subrange(0, lvl as int + 1).last() == self.senv@[
                            lvl as int
                        ]);
                        assert(self.senv@[lvl as int].contains_key(symbol));
                        assert(lookup_scopes(self.senv@, symbol) == Some(
                            self.senv@[lvl as int][symbol],
                        ));
                        assert(scope_matches(
                            self.ctx,
                            self.scopes@[lvl as int]@,
                            self.senv@[lvl as int],
                        ));
                    }
                    return Some(*id);
                },
                None => {
                    proof {
                        assert(!self.scopes@[lvl as int]@.contains_key(symbol));
                        assert(scope_matches(
                            self.ctx,
                            self.scopes@[lvl as int]@,
                            self.senv@[lvl as int],
                        ));
                        assert(!self.senv@[lvl as int].contains_key(symbol));
                    }
                },
            }
        }
        proof {
            lemma_lookup_skip(self.senv@, 0, symbol);
            assert(self.senv@.subrange(0, 0) =~= Seq::<Map<u32, ScopeEntry>>::empty());
        }
        None
    }

    /// Registers a top-level name in the global table, failing if the name
    /// is already defined; the error cites both the first definition and the
    /// new one.
    fn add_global(
        &mut self,
        name: &ast::Id,
        global: Global,
        Ghost(sig): Ghost<GlobalSig>,
    ) -> (r: Result<(), LowerError>)
        requires
            old(self).wf(),
            global_matches(old(self).ctx, global, sig),
            sig_fields_bounded(sig, old(self).fmax@),
        ensures
            final(self).wf(),
            final(self).ctx == old(self).ctx,
            final(self).scopes@ == old(self).scopes@,
            final(self).senv == old(self).senv,
            final(self).budget == old(self).budget,
            final(self).fmax == old(self).fmax,
            final(self).gsig@ == old(self).gsig@.insert(name.symbol.id, sig),
            final(self).globals@ == old(self).globals@.insert(name.symbol.id, global),
            match r {
                Ok(_) => check_add_global(old(self).gsig@, *name) is None,
                Err(e) => check_add_global(old(self).gsig@, *name) == Some(e),
            },
    {
        let sym = name.symbol.id;
        proof {
            if old(self).gsig@.contains_key(sym) {
                assert(old(self).globals@.contains_key(sym));
            } else {
                assert(!old(self).globals@.contains_key(sym));
            }
        }
        let prev = self.globals.insert(sym, global);
        self.gsig = Ghost(self.gsig@.insert(sym, sig));
        proof {
            let pre = *old(self);
            let post = *self;
            assert(post.gsig@.dom() =~= post.globals@.dom());
            assert forall|s2: u32| #[trigger] post.gsig@.contains_key(s2) implies global_matches(
                post.ctx,
                post.globals@[s2],
                post.gsig@[s2],
            ) by {
                if s2 != sym {
                    assert(pre.gsig@.contains_key(s2));
                }
            }
        }
        match prev {
            None => Ok(()),
            Some(old_global) => {
                proof {
                    assert(old(self).gsig@.contains_key(sym));
                    assert(global_matches(
                        old(self).ctx,
                        old(self).globals@[sym],
                        old(self).gsig@[sym],
                    ));
                    assert(old(self).globals@[sym] == old_global);
                }
                let first = match old_global {
                    Global::Record(id) => self.ctx.record(id).name,
                    Global::Def(id) => self.ctx.def(id).name,
                };
                Err(LowerError::RedefinedName(RedefinedName { first, second: *name }))
            },
        }
    }
}

impl LoweringContext {
    /// Lowers a written type: resolves its name to a record, lowers the
    /// argument expressions, and checks the generic-argument count against
    /// the record's declaration.
    #[verifier::loop_isolation(false)]
    fn lower_type(&mut self, ty: &ast::Type) -> (r: Result<hir::TypeId, LowerError>)
        requires
            old(self).wf(),
            old(self).budget@ >= weight_type(old(self).fmax@, *ty),
        ensures
            final(self).wf(),
            final(self).type_frame(*old(self)),
            final(self).budget@ <= old(self).budget@,
            final(self).budget@ + weight_type(old(self).fmax@, *ty) >= old(self).budget@,
            match r {
                Ok(id) => {
                    &&& check_type(old(self).gsig@, old(self).senv@, *ty) is None
                    &&& type_lowered(
                        final(self).ctx,
                        old(self).ctx.lists@.len() as int,
                        old(self).globals@,
                        *ty,
                        id,
                    )
                },
                Err(e) => check_type(old(self).gsig@, old(self).senv@, *ty) == Some(e),
            },
    {
        let ghost pre = *self;
        let ghost m = self.fmax@;
        let ghost m0 = pre.ctx.lists@.len() as int;
        let sym = ty.name.symbol.id;
        let resolved = match self.globals.get(&sym) {
            None => None,
            Some(g) => Some(*g),
        };
        let decl: hir::RecordId = match resolved {
            None => {
                proof {
                    assert(!pre.gsig@.contains_key(sym));
                }
                return Err(
                    LowerError::KindNotFound(KindNotFound { name: ty.name, kind: NameKind::Type }),
                );
            },
            Some(Global::Def(_)) => {
                proof {
                    assert(pre.gsig@.contains_key(sym));
                    assert(global_matches(pre.ctx, pre.globals@[sym], pre.gsig@[sym]));
                    assert(pre.gsig@[sym] is Def);
                }
                return Err(
                    LowerError::UnexpectedKind(
                        UnexpectedKind {
                            name: ty.name,
                            expected: NameKind::Type,
                            found: NameKind::Function,
                        },
                    ),
                );
            },
            Some(Global::Record(id)) => {
                proof {
                    assert(pre.gsig@.contains_key(sym));
                    assert(global_matches(pre.ctx, pre.globals@[sym], pre.gsig@[sym]));
                    assert(pre.gsig@[sym] is Record);
                    assert(pre.globals@[sym] == Global::Record(id));
                }
                id
            },
        };
        let ghost rs = pre.gsig@[sym]->Record_0;
        let n = ty.args.len();
        let args_list = self.ctx.new_expr_list(n);
        self.budget = Ghost((self.budget@ - n) as nat);
        proof {
            LoweringContext::lemma_wf_preserved(pre, *self);
        }
        let mut i: usize = 0;
        while i < n
            invariant
                self.wf(),
                self.expr_frame(pre),
                pre.wf(),
                n == ty.args@.len(),
                i <= n,
                m == self.fmax@,
                args_list.start == pre.ctx.lists@.len(),
                args_list.end == args_list.start + n,
                self.ctx.lists@.len() >= args_list.end,
                forall|k: int|
                    0 <= k < i ==> expr_lowered(
                        self.ctx,
                        args_list.end as int,
                        pre.globals@,
                        ty.args@[k],
                        hir::ExprId { raw: (#[trigger] self.ctx.lists@[args_list.start + k]) },
                    ),
                self.budget@ >= 1 + weight_exprs(m, ty.args@, i as int),
                self.budget@ + n + weight_exprs(m, ty.args@, 0) >= pre.budget@ + weight_exprs(
                    m,
                    ty.args@,
                    i as int,
                ),
                self.budget@ + n <= pre.budget@,
                check_exprs(pre.gsig@, pre.senv@, ty.args@, 0) == check_exprs(
                    pre.gsig@,
                    pre.senv@,
                    ty.args@,
                    i as int,
                ),
            decreases n - i,
        {
            let ghost at_loop = *self;
            match self.lower_expression(&ty.args[i]) {
                Ok(eid) => {
                    let ghost mid = *self;
                    proof {
                        lemma_expr_frame_trans(mid, at_loop, pre);
                    }
                    self.ctx.set_expr_slot(args_list, i, eid);
                    proof {
                        crate::list::lemma_prefix_update(
                            pre.ctx.lists@,
                            mid.ctx.lists@,
                            args_list.start + i,
                            eid.raw,
                        );
                        LoweringContext::lemma_wf_preserved(mid, *self);
                        assert(lists_preserved(at_loop.ctx, mid.ctx, args_list.end as int)) by {
                            lemma_prefix_lists_preserved(
                                at_loop.ctx,
                                mid.ctx,
                                args_list.end as int,
                            );
                        }
                        assert(lists_preserved(mid.ctx, self.ctx, args_list.end as int));
                        assert forall|k: int| 0 <= k < i + 1 implies expr_lowered(
                            self.ctx,
                            args_list.end as int,
                            pre.globals@,
                            ty.args@[k],
                            hir::ExprId {
                                raw: (#[trigger] self.ctx.lists@[args_list.start + k]),
                            },
                        ) by {
                            if k < i {
                                assert(self.ctx.lists@[args_list.start + k] == mid.ctx.lists@[
                                    args_list.start + k
                                ]);
                                assert(mid.ctx.lists@[args_list.start + k] == at_loop.ctx.lists@[
                                    args_list.start + k
                                ]) by {
                                    crate::arena::lemma_pushed_value_persists(
                                        at_loop.ctx.lists@,
                                        mid.ctx.lists@,
                                        args_list.start + k,
                                    );
                                }
                                lemma_expr_lowered_mono(
                                    at_loop.ctx,
                                    mid.ctx,
                                    args_list.end as int,
                                    args_list.end as int,
                                    pre.globals@,
                                    ty.args@[k],
                                    hir::ExprId { raw: at_loop.ctx.lists@[args_list.start + k] },
                                );
                                lemma_expr_lowered_mono(
                                    mid.ctx,
                                    self.ctx,
                                    args_list.end as int,
                                    args_list.end as int,
                                    pre.globals@,
                                    ty.args@[k],
                                    hir::ExprId { raw: mid.ctx.lists@[args_list.start + k] },
                                );
                            } else {
                                assert(self.ctx.lists@[args_list.start + k] == eid.raw);
                                assert(expr_lowered(
                                    mid.ctx,
                                    at_loop.ctx.lists@.len() as int,
                                    pre.globals@,
                                    ty.args@[k],
                                    eid,
                                ));
                                assert(lists_preserved(
                                    mid.ctx,
                                    self.ctx,
                                    at_loop.ctx.lists@.len() as int,
                                ));
                                lemma_expr_lowered_mono(
                                    mid.ctx,
                                    self.ctx,
                                    at_loop.ctx.lists@.len() as int,
                                    args_list.end as int,
                                    pre.globals@,
                                    ty.args@[k],
                                    eid,
                                );
                            }
                        }
                    }
                    i = i + 1;
                },
                Err(e) => {
                    proof {
                        lemma_expr_frame_trans(*self, at_loop, pre);
                        assert(check_exprs(pre.gsig@, pre.senv@, ty.args@, i as int) == Some(e));
                    }
                    return Err(e);
                },
            }
        }
        let rec = self.ctx.record(decl);
        let declared = (rec.params.end - rec.params.start) as usize;
        proof {
            assert(self.gsig@.contains_key(sym));
            assert(global_matches(self.ctx, self.globals@[sym], self.gsig@[sym]));
            assert(declared as nat == rs.generics);
        }
        if declared != n {
            proof {
                assert(rs.generics != ty.args@.len());
                assert(declared == rs.generics as usize);
            }
            return Err(
                LowerError::ArityMismatch(
                    ArityMismatch {
                        callee: ty.name,
                        expected: declared,
                        found: n,
                        what: ArityWhat::GenericArgument,
                    },
                ),
            );
        }
        let ghost before_push = *self;
        proof {
            assert forall|k: int| 0 <= k < n implies expr_lowered(
                before_push.ctx,
                m0,
                pre.globals@,
                ty.args@[k],
                hir::ExprId { raw: (#[trigger] before_push.ctx.lists@[args_list.start + k]) },
            ) by {
                lemma_expr_lowered_mono(
                    before_push.ctx,
                    before_push.ctx,
                    args_list.end as int,
                    m0,
                    pre.globals@,
                    ty.args@[k],
                    hir::ExprId { raw: before_push.ctx.lists@[args_list.start + k] },
                );
            }
            assert(expr_list_lowered(before_push.ctx, m0, pre.globals@, ty.args@, args_list));
        }
        let tid = self.ctx.add_ty(
            hir::Type { name: ty.name, decl, args: args_list, span: ty.span },
        );
        self.budget = Ghost((self.budget@ - 1) as nat);
        proof {
            LoweringContext::lemma_wf_preserved(before_push, *self);
            lemma_expr_list_lowered_mono(
                before_push.ctx,
                self.ctx,
                m0,
                m0,
                pre.globals@,
                ty.args@,
                args_list,
            );
            assert(type_lowered(self.ctx, m0, pre.globals@, *ty, tid));
        }
        Ok(tid)
    }
}

impl LoweringContext {
    /// Finds the position of a field name in a record's declared field
    /// order: the first declared field with that name, if any.
    #[verifier::loop_isolation(false)]
    fn find_field(&self, rid: hir::RecordId, Ghost(rs): Ghost<RecordSig>, sym: u32) -> (r: Option<
        usize,
    >)
        requires
            self.wf(),
            record_matches(self.ctx, rid, rs),
        ensures
            match r {
                Some(k) => k < rs.fields.len() && first_field_match(
                    rs.fields,
                    rs.fields.len() as int,
                    sym,
                    0,
                ) == Some(k as int),
                None => first_field_match(rs.fields, rs.fields.len() as int, sym, 0) is None,
            },
    {
        let rec = self.ctx.record(rid);
        let start = rec.fields.start;
        let fcount = (rec.fields.end - rec.fields.start) as usize;
        let mut k: usize = 0;
        while k < fcount
            invariant
                self.wf(),
                record_matches(self.ctx, rid, rs),
                start == self.ctx.records@[rid.raw as int].fields.start,
                fcount == rs.fields.len(),
                k <= fcount,
                first_field_match(rs.fields, rs.fields.len() as int, sym, 0)
                    == first_field_match(rs.fields, rs.fields.len() as int, sym, k as int),
            decreases fcount - k,
        {
            let name = self.ctx.field(hir::FieldId { raw: start + (k as u32) }).name;
            proof {
                assert(name == rs.fields[k as int]);
            }
            if name.symbol.id == sym {
                return Some(k);
            }
            k = k + 1;
        }
        None
    }

    /// Lowers one expression: resolves identifiers against the scope stack,
    /// recurses into sub-expressions, and resolves calls and constructions
    /// against the global table.
    #[verifier::rlimit(60)]
    fn lower_expression(&mut self, expr: &ast::Expression) -> (r: Result<hir::ExprId, LowerError>)
        requires
            old(self).wf(),
            old(self).budget@ >= weight_expr(old(self).fmax@, *expr),
        ensures
            final(self).wf(),
            final(self).expr_frame(*old(self)),
            final(self).budget@ <= old(self).budget@,
            final(self).budget@ + weight_expr(old(self).fmax@, *expr) >= old(self).budget@,
            match r {
                Ok(id) => {
                    &&& check_expr(old(self).gsig@, old(self).senv@, *expr) is None
                    &&& expr_lowered(
                        final(self).ctx,
                        old(self).ctx.lists@.len() as int,
                        old(self).globals@,
                        *expr,
                        id,
                    )
                },
                Err(e) => check_expr(old(self).gsig@, old(self).senv@, *expr) == Some(e),
            },
        decreases *expr,
    {
        let ghost pre = *self;
        let ghost m = self.fmax@;
        let ghost m0 = pre.ctx.lists@.len() as int;
        match &expr.kind {
            ast::ExprKind::Id(name) => {
                match self.find_name(name.symbol.id) {
                    Some(local) => {
                        let ghost before = *self;
                        let id = self.ctx.add_expr(
                            hir::Expression { kind: hir::ExprKind::Id(local), span: expr.span },
                        );
                        self.budget = Ghost((self.budget@ - 1) as nat);
                        proof {
                            LoweringContext::lemma_wf_preserved(before, *self);
                            let entry = lookup_scopes(pre.senv@, name.symbol.id).unwrap();
                            assert(self.ctx.locals@[local.raw as int].name == entry.id);
                            assert(entry.id.symbol == name.symbol);
                            assert(expr_lowered(self.ctx, m0, pre.globals@, *expr, id));
                        }
                        Ok(id)
                    },
                    None => {
                        let sym = name.symbol.id;
                        let resolved = match self.globals.get(&sym) {
                            None => None,
                            Some(g) => Some(*g),
                        };
                        match resolved {
                            Some(g) => {
                                proof {
                                    assert(pre.gsig@.contains_key(sym));
                                    assert(global_matches(
                                        pre.ctx,
                                        pre.globals@[sym],
                                        pre.gsig@[sym],
                                    ));
                                }
                                let kind = match g {
                                    Global::Record(_) => NameKind::Struct,
                                    Global::Def(_) => NameKind::Function,
                                };
                                Err(
                                    LowerError::UnexpectedItem(
                                        UnexpectedItem { name: *name, kind },
                                    ),
                                )
                            },
                            None => {
                                proof {
                                    assert(!pre.gsig@.contains_key(sym));
                                }
                                Err(LowerError::UndefinedName(UndefinedName { name: *name }))
                            },
                        }
                    },
                }
            },
            ast::ExprKind::Lit(lit) => {
                let ghost before = *self;
                let id = self.ctx.add_expr(
                    hir::Expression { kind: hir::ExprKind::Lit(*lit), span: expr.span },
                );
                self.budget = Ghost((self.budget@ - 1) as nat);
                proof {
                    LoweringContext::lemma_wf_preserved(before, *self);
                    assert(expr_lowered(self.ctx, m0, pre.globals@, *expr, id));
                }
                Ok(id)
            },
            ast::ExprKind::Field(sub, name) => {
                match self.lower_expression(&**sub) {
                    Err(e) => Err(e),
                    Ok(sid) => {
                        let ghost before = *self;
                        let id = self.ctx.add_expr(
                            hir::Expression {
                                kind: hir::ExprKind::Field(sid, *name),
                                span: expr.span,
                            },
                        );
                        self.budget = Ghost((self.budget@ - 1) as nat);
                        proof {
                            LoweringContext::lemma_wf_preserved(before, *self);
                            lemma_prefix_lists_preserved(before.ctx, self.ctx, m0);
                            lemma_expr_lowered_mono(
                                before.ctx,
                                self.ctx,
                                m0,
                                m0,
                                pre.globals@,
                                **sub,
                                sid,
                            );
                            assert(expr_lowered(self.ctx, m0, pre.globals@, *expr, id));
                        }
                        Ok(id)
                    },
                }
            },
            ast::ExprKind::Unary(op, sub) => {
                match self.lower_expression(&**sub) {
                    Err(e) => Err(e),
                    Ok(sid) => {
                        let ghost before = *self;
                        let id = self.ctx.add_expr(
                            hir::Expression {
                                kind: hir::ExprKind::Unary(*op, sid),
                                span: expr.span,
                            },
                        );
                        self.budget = Ghost((self.budget@ - 1) as nat);
                        proof {
                            LoweringContext::lemma_wf_preserved(before, *self);
                            lemma_prefix_lists_preserved(before.ctx, self.ctx, m0);
                            lemma_expr_lowered_mono(
                                before.ctx,
                                self.ctx,
                                m0,
                                m0,
                                pre.globals@,
                                **sub,
                                sid,
                            );
                            assert(expr_lowered(self.ctx, m0, pre.globals@, *expr, id));
                        }
                        Ok(id)
                    },
                }
            },
            ast::ExprKind::Binary(op, lhs, rhs) => {
                match self.lower_expression(&**lhs) {
                    Err(e) => Err(e),
                    Ok(lid) => {
                        let ghost s1 = *self;
                        match self.lower_expression(&**rhs) {
                            Err(e) => Err(e),
                            Ok(rid) => {
                                let ghost before = *self;
                                let id = self.ctx.add_expr(
                                    hir::Expression {
                                        kind: hir::ExprKind::Binary(*op, lid, rid),
                                        span: expr.span,
                                    },
                                );
                                self.budget = Ghost((self.budget@ - 1) as nat);
                                proof {
                                    LoweringContext::lemma_wf_preserved(before, *self);
                                    lemma_prefix_lists_preserved(s1.ctx, self.ctx, m0);
                                    crate::context::lemma_ctx_extends_trans(
                                        self.ctx,
                                        before.ctx,
                                        s1.ctx,
                                    );
                                    lemma_expr_lowered_mono(
                                        s1.ctx,
                                        self.ctx,
                                        m0,
                                        m0,
                                        pre.globals@,
                                        **lhs,
                                        lid,
                                    );
                                    lemma_prefix_lists_preserved(
                                        before.ctx,
                                        self.ctx,
                                        s1.ctx.lists@.len() as int,
                                    );
                                    lemma_expr_lowered_mono(
                                        before.ctx,
                                        self.ctx,
                                        s1.ctx.lists@.len() as int,
                                        m0,
                                        pre.globals@,
                                        **rhs,
                                        rid,
                                    );
                                    assert(expr_lowered(self.ctx, m0, pre.globals@, *expr, id));
                                }
                                Ok(id)
                            },
                        }
                    },
                }
            },
            ast::ExprKind::Call(call) => {
                match self.lower_call(&**call) {
                    Err(e) => Err(e),
                    Ok(c) => {
                        let ghost before = *self;
                        let id = self.ctx.add_expr(
                            hir::Expression { kind: hir::ExprKind::Call(c), span: expr.span },
                        );
                        self.budget = Ghost((self.budget@ - 1) as nat);
                        proof {
                            LoweringContext::lemma_wf_preserved(before, *self);
                            lemma_prefix_lists_preserved(before.ctx, self.ctx, m0);
                            lemma_call_lowered_mono(
                                before.ctx,
                                self.ctx,
                                m0,
                                m0,
                                pre.globals@,
                                **call,
                                c,
                            );
                            assert(expr_lowered(self.ctx, m0, pre.globals@, *expr, id));
                        }
                        Ok(id)
                    },
                }
            },
            ast::ExprKind::Record(ctor) => {
                match self.lower_constructor(&**ctor) {
                    Err(e) => Err(e),
                    Ok(c) => {
                        let ghost before = *self;
                        let id = self.ctx.add_expr(
                            hir::Expression { kind: hir::ExprKind::Record(c), span: expr.span },
                        );
                        self.budget = Ghost((self.budget@ - 1) as nat);
                        proof {
                            LoweringContext::lemma_wf_preserved(before, *self);
                            lemma_prefix_lists_preserved(before.ctx, self.ctx, m0);
                            lemma_ctor_lowered_mono(
                                before.ctx,
                                self.ctx,
                                m0,
                                m0,
                                pre.globals@,
                                **ctor,
                                c,
                            );
                            assert(expr_lowered(self.ctx, m0, pre.globals@, *expr, id));
                        }
                        Ok(id)
                    },
                }
            },
        }
    }

    /// Lowers a call: resolves the callee to a definition, lowers the
    /// generic and value arguments, and checks both counts against the
    /// callee's declaration.
    #[verifier::loop_isolation(false)]
    fn lower_call(&mut self, call: &ast::Call) -> (r: Result<hir::Call, LowerError>)
        requires
            old(self).wf(),
            old(self).budget@ >= call.generics@.len() + call.args@.len() + weight_exprs(
                old(self).fmax@,
                call.generics@,
                0,
            ) + weight_exprs(old(self).fmax@, call.args@, 0),
        ensures
            final(self).wf(),
            final(self).expr_frame(*old(self)),
            final(self).budget@ <= old(self).budget@,
            final(self).budget@ + call.generics@.len() + call.args@.len() + weight_exprs(
                old(self).fmax@,
                call.generics@,
                0,
            ) + weight_exprs(old(self).fmax@, call.args@, 0) >= old(self).budget@,
            match r {
                Ok(c) => {
                    &&& check_call(old(self).gsig@, old(self).senv@, *call) is None
                    &&& call_lowered(
                        final(self).ctx,
                        old(self).ctx.lists@.len() as int,
                        old(self).globals@,
                        *call,
                        c,
                    )
                },
                Err(e) => check_call(old(self).gsig@, old(self).senv@, *call) == Some(e),
            },
        decreases *call,
    {
        let ghost pre = *self;
        let ghost m = self.fmax@;
        let ghost m0 = pre.ctx.lists@.len() as int;
        let sym = call.name.symbol.id;
        let resolved = match self.globals.get(&sym) {
            None => None,
            Some(g) => Some(*g),
        };
        let callee: hir::DefId = match resolved {
            None => {
                proof {
                    assert(!pre.gsig@.contains_key(sym));
                }
                return Err(
                    LowerError::KindNotFound(
                        KindNotFound { name: call.name, kind: NameKind::Function },
                    ),
                );
            },
            Some(Global::Record(_)) => {
                proof {
                    assert(pre.gsig@.contains_key(sym));
                    assert(global_matches(pre.ctx, pre.globals@[sym], pre.gsig@[sym]));
                }
                return Err(
                    LowerError::UnexpectedKind(
                        UnexpectedKind {
                            name: call.name,
                            expected: NameKind::Function,
                            found: NameKind::Struct,
                        },
                    ),
                );
            },
            Some(Global::Def(id)) => {
                proof {
                    assert(pre.gsig@.contains_key(sym));
                    assert(global_matches(pre.ctx, pre.globals@[sym], pre.gsig@[sym]));
                    assert(pre.globals@[sym] == Global::Def(id));
                }
                id
            },
        };
        let ghost ds = pre.gsig@[sym]->Def_0;
        let glen = call.generics.len();
        let glist = self.ctx.new_expr_list(glen);
        self.budget = Ghost((self.budget@ - glen) as nat);
        proof {
            LoweringContext::lemma_wf_preserved(pre, *self);
        }
        let mut i: usize = 0;
        while i < glen
            invariant
                self.wf(),
                self.expr_frame(pre),
                pre.wf(),
                glen == call.generics@.len(),
                i <= glen,
                m == self.fmax@,
                glist.start == pre.ctx.lists@.len(),
                glist.end == glist.start + glen,
                self.ctx.lists@.len() >= glist.end,
                forall|k: int|
                    0 <= k < i ==> expr_lowered(
                        self.ctx,
                        glist.end as int,
                        pre.globals@,
                        call.generics@[k],
                        hir::ExprId { raw: (#[trigger] self.ctx.lists@[glist.start + k]) },
                    ),
                self.budget@ >= weight_exprs(m, call.generics@, i as int) + call.args@.len()
                    + weight_exprs(m, call.args@, 0),
                self.budget@ + glen + weight_exprs(m, call.generics@, 0) >= pre.budget@
                    + weight_exprs(m, call.generics@, i as int),
                self.budget@ <= pre.budget@,
                check_exprs(pre.gsig@, pre.senv@, call.generics@, 0) == check_exprs(
                    pre.gsig@,
                    pre.senv@,
                    call.generics@,
                    i as int,
                ),
            decreases glen - i,
        {
            let ghost at_loop = *self;
            match self.lower_expression(&call.generics[i]) {
                Ok(eid) => {
                    let ghost mid = *self;
                    self.ctx.set_expr_slot(glist, i, eid);
                    proof {
                        crate::list::lemma_prefix_update(
                            pre.ctx.lists@,
                            mid.ctx.lists@,
                            glist.start + i,
                            eid.raw,
                        );
                        LoweringContext::lemma_wf_preserved(mid, *self);
                        lemma_prefix_lists_preserved(at_loop.ctx, mid.ctx, glist.end as int);
                        assert(lists_preserved(mid.ctx, self.ctx, glist.end as int));
                        assert forall|k: int| 0 <= k < i + 1 implies expr_lowered(
                            self.ctx,
                            glist.end as int,
                            pre.globals@,
                            call.generics@[k],
                            hir::ExprId { raw: (#[trigger] self.ctx.lists@[glist.start + k]) },
                        ) by {
                            if k < i {
                                assert(mid.ctx.lists@[glist.start + k] == at_loop.ctx.lists@[
                                    glist.start + k
                                ]) by {
                                    crate::arena::lemma_pushed_value_persists(
                                        at_loop.ctx.lists@,
                                        mid.ctx.lists@,
                                        glist.start + k,
                                    );
                                }
                                lemma_expr_lowered_mono(
                                    at_loop.ctx,
                                    mid.ctx,
                                    glist.end as int,
                                    glist.end as int,
                                    pre.globals@,
                                    call.generics@[k],
                                    hir::ExprId { raw: at_loop.ctx.lists@[glist.start + k] },
                                );
                                lemma_expr_lowered_mono(
                                    mid.ctx,
                                    self.ctx,
                                    glist.end as int,
                                    glist.end as int,
                                    pre.globals@,
                                    call.generics@[k],
                                    hir::ExprId { raw: mid.ctx.lists@[glist.start + k] },
                                );
                            } else {
                                assert(self.ctx.lists@[glist.start + k] == eid.raw);
                                assert(lists_preserved(
                                    mid.ctx,
                                    self.ctx,
                                    at_loop.ctx.lists@.len() as int,
                                ));
                                lemma_expr_lowered_mono(
                                    mid.ctx,
                                    self.ctx,
                                    at_loop.ctx.lists@.len() as int,
                                    glist.end as int,
                                    pre.globals@,
                                    call.generics@[k],
                                    eid,
                                );
                            }
                        }
                    }
                    i = i + 1;
                },
                Err(e) => {
                    return Err(e);
                },
            }
        }
        proof {
            assert forall|k: int| 0 <= k < glen implies expr_lowered(
                self.ctx,
                m0,
                pre.globals@,
                call.generics@[k],
                hir::ExprId { raw: (#[trigger] self.ctx.lists@[glist.start + k]) },
            ) by {
                lemma_expr_lowered_mono(
                    self.ctx,
                    self.ctx,
                    glist.end as int,
                    m0,
                    pre.globals@,
                    call.generics@[k],
                    hir::ExprId { raw: self.ctx.lists@[glist.start + k] },
                );
            }
            assert(expr_list_lowered(self.ctx, m0, pre.globals@, call.generics@, glist));
        }
        let d = self.ctx.def(callee);
        let declared_generics = (d.generics.end - d.generics.start) as usize;
        proof {
            assert(self.gsig@.contains_key(sym));
            assert(global_matches(self.ctx, self.globals@[sym], self.gsig@[sym]));
            assert(declared_generics as nat == ds.generics);
        }
        if declared_generics != glen {
            proof {
                assert(declared_generics == ds.generics as usize);
            }
            return Err(
                LowerError::ArityMismatch(
                    ArityMismatch {
                        callee: call.name,
                        expected: declared_generics,
                        found: glen,
                        what: ArityWhat::GenericArgument,
                    },
                ),
            );
        }
        let ghost mid2 = *self;
        let alen = call.args.len();
        let alist = self.ctx.new_expr_list(alen);
        self.budget = Ghost((self.budget@ - alen) as nat);
        proof {
            LoweringContext::lemma_wf_preserved(mid2, *self);
        }
        let mut j: usize = 0;
        while j < alen
            invariant
                self.wf(),
                self.expr_frame(pre),
                pre.wf(),
                alen == call.args@.len(),
                j <= alen,
                m == self.fmax@,
                alist.start == mid2.ctx.lists@.len(),
                alist.start >= pre.ctx.lists@.len(),
                alist.end == alist.start + alen,
                self.ctx.lists@.len() >= alist.end,
                ctx_extends(self.ctx, mid2.ctx),
                expr_list_lowered(mid2.ctx, m0, pre.globals@, call.generics@, glist),
                forall|k: int|
                    0 <= k < j ==> expr_lowered(
                        self.ctx,
                        alist.end as int,
                        pre.globals@,
                        call.args@[k],
                        hir::ExprId { raw: (#[trigger] self.ctx.lists@[alist.start + k]) },
                    ),
                self.budget@ >= weight_exprs(m, call.args@, j as int),
                self.budget@ + glen + alen + weight_exprs(m, call.generics@, 0) + weight_exprs(
                    m,
                    call.args@,
                    0,
                ) >= pre.budget@ + weight_exprs(m, call.args@, j as int),
                self.budget@ <= pre.budget@,
                check_exprs(pre.gsig@, pre.senv@, call.args@, 0) == check_exprs(
                    pre.gsig@,
                    pre.senv@,
                    call.args@,
                    j as int,
                ),
            decreases alen - j,
        {
            let ghost at_loop = *self;
            match self.lower_expression(&call.args[j]) {
                Ok(eid) => {
                    let ghost mid = *self;
                    self.ctx.set_expr_slot(alist, j, eid);
                    proof {
                        crate::list::lemma_prefix_update(
                            pre.ctx.lists@,
                            mid.ctx.lists@,
                            alist.start + j,
                            eid.raw,
                        );
                        crate::list::lemma_prefix_update(
                            mid2.ctx.lists@,
                            mid.ctx.lists@,
                            alist.start + j,
                            eid.raw,
                        );
                        LoweringContext::lemma_wf_preserved(mid, *self);
                        crate::context::lemma_ctx_extends_trans(mid.ctx, at_loop.ctx, mid2.ctx);
                        assert(ctx_extends(self.ctx, mid2.ctx));
                        lemma_prefix_lists_preserved(at_loop.ctx, mid.ctx, alist.end as int);
                        assert(lists_preserved(mid.ctx, self.ctx, alist.end as int));
                        assert forall|k: int| 0 <= k < j + 1 implies expr_lowered(
                            self.ctx,
                            alist.end as int,
                            pre.globals@,
                            call.args@[k],
                            hir::ExprId { raw: (#[trigger] self.ctx.lists@[alist.start + k]) },
                        ) by {
                            if k < j {
                                assert(mid.ctx.lists@[alist.start + k] == at_loop.ctx.lists@[
                                    alist.start + k
                                ]) by {
                                    crate::arena::lemma_pushed_value_persists(
                                        at_loop.ctx.lists@,
                                        mid.ctx.lists@,
                                        alist.start + k,
                                    );
                                }
                                lemma_expr_lowered_mono(
                                    at_loop.ctx,
                                    mid.ctx,
                                    alist.end as int,
                                    alist.end as int,
                                    pre.globals@,
                                    call.args@[k],
                                    hir::ExprId { raw: at_loop.ctx.lists@[alist.start + k] },
                                );
                                lemma_expr_lowered_mono(
                                    mid.ctx,
                                    self.ctx,
                                    alist.end as int,
                                    alist.end as int,
                                    pre.globals@,
                                    call.args@[k],
                                    hir::ExprId { raw: mid.ctx.lists@[alist.start + k] },
                                );
                            } else {
                                assert(self.ctx.lists@[alist.start + k] == eid.raw);
                                assert(lists_preserved(
                                    mid.ctx,
                                    self.ctx,
                                    at_loop.ctx.lists@.len() as int,
                                ));
                                lemma_expr_lowered_mono(
                                    mid.ctx,
                                    self.ctx,
                                    at_loop.ctx.lists@.len() as int,
                                    alist.end as int,
                                    pre.globals@,
                                    call.args@[k],
                                    eid,
                                );
                            }
                        }
                    }
                    j = j + 1;
                },
                Err(e) => {
                    return Err(e);
                },
            }
        }
        let d2 = self.ctx.def(callee);
        let declared_args = (d2.inputs.end - d2.inputs.start) as usize;
        proof {
            assert(self.gsig@.contains_key(sym));
            assert(global_matches(self.ctx, self.globals@[sym], self.gsig@[sym]));
            assert(declared_args as nat == ds.params);
        }
        if declared_args != alen {
            proof {
                assert(declared_args == ds.params as usize);
            }
            return Err(
                LowerError::ArityMismatch(
                    ArityMismatch {
                        callee: call.name,
                        expected: declared_args,
                        found: alen,
                        what: ArityWhat::Argument,
                    },
                ),
            );
        }
        proof {
            lemma_prefix_lists_preserved(mid2.ctx, self.ctx, m0);
            lemma_expr_list_lowered_mono(
                mid2.ctx,
                self.ctx,
                m0,
                m0,
                pre.globals@,
                call.generics@,
                glist,
            );
            assert forall|k: int| 0 <= k < alen implies expr_lowered(
                self.ctx,
                m0,
                pre.globals@,
                call.args@[k],
                hir::ExprId { raw: (#[trigger] self.ctx.lists@[alist.start + k]) },
            ) by {
                lemma_expr_lowered_mono(
                    self.ctx,
                    self.ctx,
                    alist.end as int,
                    m0,
                    pre.globals@,
                    call.args@[k],
                    hir::ExprId { raw: self.ctx.lists@[alist.start + k] },
                );
            }
            assert(expr_list_lowered(self.ctx, m0, pre.globals@, call.args@, alist));
            assert(call_lowered(
                self.ctx,
                m0,
                pre.globals@,
                *call,
                hir::Call { name: call.name, callee, generics: glist, args: alist },
            ));
        }
        Ok(hir::Call { name: call.name, callee, generics: glist, args: alist })
    }

    /// Lowers a record construction: resolves the name to a record, lowers
    /// the generic arguments and checks their count, then matches each named
    /// initializer against the declared field order, rejecting unknown and
    /// repeated fields, and finally rejects the first declared field left
    /// without an initializer.
    #[verifier::loop_isolation(false)]
    #[verifier::rlimit(100)]
    #[verifier::spinoff_prover]
    fn lower_constructor(&mut self, cons: &ast::Constructor) -> (r: Result<
        hir::Constructor,
        LowerError,
    >)
        requires
            old(self).wf(),
            old(self).budget@ >= cons.generics@.len() + old(self).fmax@ + weight_exprs(
                old(self).fmax@,
                cons.generics@,
                0,
            ) + weight_inits(old(self).fmax@, cons.fields@, 0),
        ensures
            final(self).wf(),
            final(self).expr_frame(*old(self)),
            final(self).budget@ <= old(self).budget@,
            final(self).budget@ + cons.generics@.len() + old(self).fmax@ + weight_exprs(
                old(self).fmax@,
                cons.generics@,
                0,
            ) + weight_inits(old(self).fmax@, cons.fields@, 0) >= old(self).budget@,
            match r {
                Ok(c) => {
                    &&& check_ctor(old(self).gsig@, old(self).senv@, *cons) is None
                    &&& ctor_lowered(
                        final(self).ctx,
                        old(self).ctx.lists@.len() as int,
                        old(self).globals@,
                        *cons,
                        c,
                    )
                    &&& c.inits.start <= c.inits.end
                    &&& c.inits.end <= final(self).ctx.lists@.len()
                    &&& forall|p: int|
                        c.inits.start <= p < c.inits.end ==> (#[trigger] final(self).ctx.lists@[p])
                            != INVALID_SLOT
                },
                Err(e) => check_ctor(old(self).gsig@, old(self).senv@, *cons) == Some(e),
            },
        decreases *cons,
    {
        let ghost pre = *self;
        let ghost m = self.fmax@;
        let ghost m0 = pre.ctx.lists@.len() as int;
        let sym = cons.name.symbol.id;
        let resolved = match self.globals.get(&sym) {
            None => None,
            Some(g) => Some(*g),
        };
        let rid: hir::RecordId = match resolved {
            None => {
                proof {
                    assert(!pre.gsig@.contains_key(sym));
                }
                return Err(
                    LowerError::KindNotFound(
                        KindNotFound { name: cons.name, kind: NameKind::Struct },
                    ),
                );
            },
            Some(Global::Def(_)) => {
                proof {
                    assert(pre.gsig@.contains_key(sym));
                    assert(global_matches(pre.ctx, pre.globals@[sym], pre.gsig@[sym]));
                }
                return Err(
                    LowerError::UnexpectedKind(
                        UnexpectedKind {
                            name: cons.name,
                            expected: NameKind::Struct,
                            found: NameKind::Function,
                        },
                    ),
                );
            },
            Some(Global::Record(id)) => {
                proof {
                    assert(pre.gsig@.contains_key(sym));
                    assert(global_matches(pre.ctx, pre.globals@[sym], pre.gsig@[sym]));
                    assert(pre.globals@[sym] == Global::Record(id));
                }
                id
            },
        };
        let ghost rs = pre.gsig@[sym]->Record_0;
        proof {
            assert(sig_fields_bounded(pre.gsig@[sym], m));
            assert(rs.fields.len() <= m);
        }
        let glen = cons.generics.len();
        let glist = self.ctx.new_expr_list(glen);
        self.budget = Ghost((self.budget@ - glen) as nat);
        proof {
            LoweringContext::lemma_wf_preserved(pre, *self);
        }
        let mut i: usize = 0;
        while i < glen
            invariant
                self.wf(),
                self.expr_frame(pre),
                pre.wf(),
                glen == cons.generics@.len(),
                i <= glen,
                m == self.fmax@,
                glist.start == pre.ctx.lists@.len(),
                glist.end == glist.start + glen,
                self.ctx.lists@.len() >= glist.end,
                forall|k: int|
                    0 <= k < i ==> expr_lowered(
                        self.ctx,
                        glist.end as int,
                        pre.globals@,
                        cons.generics@[k],
                        hir::ExprId { raw: (#[trigger] self.ctx.lists@[glist.start + k]) },
                    ),
                self.budget@ >= weight_exprs(m, cons.generics@, i as int) + m + weight_inits(
                    m,
                    cons.fields@,
                    0,
                ),
                self.budget@ + glen + weight_exprs(m, cons.generics@, 0) >= pre.budget@
                    + weight_exprs(m, cons.generics@, i as int),
                self.budget@ <= pre.budget@,
                check_exprs(pre.gsig@, pre.senv@, cons.generics@, 0) == check_exprs(
                    pre.gsig@,
                    pre.senv@,
                    cons.generics@,
                    i as int,
                ),
            decreases glen - i,
        {
            let ghost at_gen = *self;
            match self.lower_expression(&cons.generics[i]) {
                Ok(eid) => {
                    let ghost mid = *self;
                    self.ctx.set_expr_slot(glist, i, eid);
                    proof {
                        crate::list::lemma_prefix_update(
                            pre.ctx.lists@,
                            mid.ctx.lists@,
                            glist.start + i,
                            eid.raw,
                        );
                        LoweringContext::lemma_wf_preserved(mid, *self);
                        lemma_prefix_lists_preserved(at_gen.ctx, mid.ctx, glist.end as int);
                        assert(lists_preserved(mid.ctx, self.ctx, glist.end as int));
                        assert forall|k: int| 0 <= k < i + 1 implies expr_lowered(
                            self.ctx,
                            glist.end as int,
                            pre.globals@,
                            cons.generics@[k],
                            hir::ExprId { raw: (#[trigger] self.ctx.lists@[glist.start + k]) },
                        ) by {
                            if k < i {
                                assert(mid.ctx.lists@[glist.start + k] == at_gen.ctx.lists@[
                                    glist.start + k
                                ]) by {
                                    crate::arena::lemma_pushed_value_persists(
                                        at_gen.ctx.lists@,
                                        mid.ctx.lists@,
                                        glist.start + k,
                                    );
                                }
                                lemma_expr_lowered_mono(
                                    at_gen.ctx,
                                    mid.ctx,
                                    glist.end as int,
                                    glist.end as int,
                                    pre.globals@,
                                    cons.generics@[k],
                                    hir::ExprId { raw: at_gen.ctx.lists@[glist.start + k] },
                                );
                                lemma_expr_lowered_mono(
                                    mid.ctx,
                                    self.ctx,
                                    glist.end as int,
                                    glist.end as int,
                                    pre.globals@,
                                    cons.generics@[k],
                                    hir::ExprId { raw: mid.ctx.lists@[glist.start + k] },
                                );
                            } else {
                                assert(self.ctx.lists@[glist.start + k] == eid.raw);
                                assert(lists_preserved(
                                    mid.ctx,
                                    self.ctx,
                                    at_gen.ctx.lists@.len() as int,
                                ));
                                lemma_expr_lowered_mono(
                                    mid.ctx,
                                    self.ctx,
                                    at_gen.ctx.lists@.len() as int,
                                    glist.end as int,
                                    pre.globals@,
                                    cons.generics@[k],
                                    eid,
                                );
                            }
                        }
                    }
                    i = i + 1;
                },
                Err(e) => {
                    return Err(e);
                },
            }
        }
        proof {
            assert forall|k: int| 0 <= k < glen implies expr_lowered(
                self.ctx,
                m0,
                pre.globals@,
                cons.generics@[k],
                hir::ExprId { raw: (#[trigger] self.ctx.lists@[glist.start + k]) },
            ) by {
                lemma_expr_lowered_mono(
                    self.ctx,
                    self.ctx,
                    glist.end as int,
                    m0,
                    pre.globals@,
                    cons.generics@[k],
                    hir::ExprId { raw: self.ctx.lists@[glist.start + k] },
                );
            }
            assert(expr_list_lowered(self.ctx, m0, pre.globals@, cons.generics@, glist));
        }
        let rec = self.ctx.record(rid);
        let declared_generics = (rec.params.end - rec.params.start) as usize;
        let fstart = rec.fields.start;
        let fcount = (rec.fields.end - rec.fields.start) as usize;
        proof {
            assert(self.gsig@.contains_key(sym));
            assert(global_matches(self.ctx, self.globals@[sym], self.gsig@[sym]));
            assert(declared_generics as nat == rs.generics);
            assert(fcount as nat == rs.fields.len());
        }
        if declared_generics != glen {
            proof {
                assert(declared_generics == rs.generics as usize);
            }
            return Err(
                LowerError::ArityMismatch(
                    ArityMismatch {
                        callee: cons.name,
                        expected: declared_generics,
                        found: glen,
                        what: ArityWhat::GenericArgument,
                    },
                ),
            );
        }
        let ghost mid2 = *self;
        let inits = self.ctx.new_init_list(fcount);
        self.budget = Ghost((self.budget@ - fcount) as nat);
        proof {
            LoweringContext::lemma_wf_preserved(mid2, *self);
        }
        let ghost init_filled = Seq::new(rs.fields.len(), |p: int| false);
        let ghost mut filled = init_filled;
        let mut j: usize = 0;
        while j < cons.fields.len()
            invariant
                self.wf(),
                self.expr_frame(pre),
                pre.wf(),
                j <= cons.fields@.len(),
                m == self.fmax@,
                record_matches(self.ctx, rid, rs),
                inits.start >= pre.ctx.lists@.len(),
                inits.end == inits.start + fcount,
                self.ctx.lists@.len() >= inits.end,
                fcount as nat == rs.fields.len(),
                filled.len() == rs.fields.len(),
                forall|p: int|
                    0 <= p < fcount ==> ((#[trigger] self.ctx.lists@[inits.start + p])
                        == INVALID_SLOT <==> !filled[p]),
                inits.start == mid2.ctx.lists@.len(),
                ctx_extends(self.ctx, mid2.ctx),
                expr_list_lowered(mid2.ctx, m0, pre.globals@, cons.generics@, glist),
                forall|j2: int|
                    0 <= j2 < j ==> match first_field_match(
                        rs.fields,
                        rs.fields.len() as int,
                        (#[trigger] cons.fields@[j2]).lhs.symbol.id,
                        0,
                    ) {
                        Some(p) => expr_lowered(
                            self.ctx,
                            inits.end as int,
                            pre.globals@,
                            cons.fields@[j2].rhs,
                            hir::ExprId { raw: self.ctx.lists@[inits.start + p] },
                        ),
                        None => false,
                    },
                self.budget@ >= weight_inits(m, cons.fields@, j as int),
                self.budget@ + glen + m + weight_exprs(m, cons.generics@, 0) + weight_inits(
                    m,
                    cons.fields@,
                    0,
                ) >= pre.budget@ + weight_inits(m, cons.fields@, j as int),
                self.budget@ <= pre.budget@,
                check_inits(
                    pre.gsig@,
                    pre.senv@,
                    cons.name,
                    rs.fields,
                    cons.fields@,
                    0,
                    init_filled,
                ) == check_inits(
                    pre.gsig@,
                    pre.senv@,
                    cons.name,
                    rs.fields,
                    cons.fields@,
                    j as int,
                    filled,
                ),
            decreases cons.fields@.len() - j,
        {
            let ghost at_loop = *self;
            let init_lhs = cons.fields[j].lhs;
            match self.find_field(rid, Ghost(rs), init_lhs.symbol.id) {
                None => {
                    return Err(
                        LowerError::UnexpectedField(
                            UnexpectedField { ty: cons.name, field: init_lhs },
                        ),
                    );
                },
                Some(k) => {
                    if self.ctx.expr_slot_raw(inits, k) != INVALID_SLOT {
                        proof {
                            assert(filled[k as int]);
                        }
                        return Err(
                            LowerError::DuplicateField(DuplicateField { second: init_lhs }),
                        );
                    }
                    proof {
                        assert(!filled[k as int]);
                    }
                    match self.lower_expression(&cons.fields[j].rhs) {
                        Err(e) => {
                            proof {
                                lemma_expr_frame_trans(*self, at_loop, pre);
                            }
                            return Err(e);
                        },
                        Ok(eid) => {
                            proof {
                                assert(eid.raw < total_alloc(self.ctx));
                                assert(eid.raw != INVALID_SLOT);
                            }
                            let ghost mid = *self;
                            proof {
                                lemma_expr_frame_trans(mid, at_loop, pre);
                            }
                            self.ctx.set_expr_slot(inits, k, eid);
                            proof {
                                crate::list::lemma_prefix_update(
                                    pre.ctx.lists@,
                                    mid.ctx.lists@,
                                    inits.start + k,
                                    eid.raw,
                                );
                                crate::list::lemma_prefix_update(
                                    mid2.ctx.lists@,
                                    mid.ctx.lists@,
                                    inits.start + k,
                                    eid.raw,
                                );
                                LoweringContext::lemma_wf_preserved(mid, *self);
                                crate::context::lemma_ctx_extends_trans(
                                    mid.ctx,
                                    at_loop.ctx,
                                    mid2.ctx,
                                );
                                assert(ctx_extends(self.ctx, mid2.ctx));
                                assert forall|p: int| 0 <= p < fcount && p != k implies (
                                #[trigger] self.ctx.lists@[inits.start + p]) == at_loop.ctx.lists@[
                                    inits.start + p
                                ] by {
                                    crate::arena::lemma_pushed_value_persists(
                                        at_loop.ctx.lists@,
                                        mid.ctx.lists@,
                                        inits.start + p,
                                    );
                                }
                                lemma_prefix_lists_preserved(
                                    at_loop.ctx,
                                    mid.ctx,
                                    inits.end as int,
                                );
                                assert(lists_preserved(mid.ctx, self.ctx, inits.end as int));
                                assert forall|j2: int| 0 <= j2 < j + 1 implies match
                                    first_field_match(
                                    rs.fields,
                                    rs.fields.len() as int,
                                    (#[trigger] cons.fields@[j2]).lhs.symbol.id,
                                    0,
                                ) {
                                    Some(p) => expr_lowered(
                                        self.ctx,
                                        inits.end as int,
                                        pre.globals@,
                                        cons.fields@[j2].rhs,
                                        hir::ExprId { raw: self.ctx.lists@[inits.start + p] },
                                    ),
                                    None => false,
                                } by {
                                    if j2 < j {
                                        let p2 = first_field_match(
                                            rs.fields,
                                            rs.fields.len() as int,
                                            cons.fields@[j2].lhs.symbol.id,
                                            0,
                                        ).unwrap();
                                        lemma_first_field_match_bounds(
                                            rs.fields,
                                            rs.fields.len() as int,
                                            cons.fields@[j2].lhs.symbol.id,
                                            0,
                                        );
                                        // the slot already holds a real handle, so this
                                        // iteration wrote a different slot
                                        assert(at_loop.ctx.lists@[inits.start + p2]
                                            < at_loop.ctx.exprs@.len());
                                        assert(at_loop.ctx.lists@[inits.start + p2]
                                            != INVALID_SLOT);
                                        assert(filled[p2]);
                                        assert(p2 != k as int);
                                        assert(self.ctx.lists@[inits.start + p2]
                                            == at_loop.ctx.lists@[inits.start + p2]);
                                        lemma_expr_lowered_mono(
                                            at_loop.ctx,
                                            mid.ctx,
                                            inits.end as int,
                                            inits.end as int,
                                            pre.globals@,
                                            cons.fields@[j2].rhs,
                                            hir::ExprId {
                                                raw: at_loop.ctx.lists@[inits.start + p2],
                                            },
                                        );
                                        lemma_expr_lowered_mono(
                                            mid.ctx,
                                            self.ctx,
                                            inits.end as int,
                                            inits.end as int,
                                            pre.globals@,
                                            cons.fields@[j2].rhs,
                                            hir::ExprId {
                                                raw: mid.ctx.lists@[inits.start + p2],
                                            },
                                        );
                                    } else {
                                        assert(self.ctx.lists@[inits.start + k as int]
                                            == eid.raw);
                                        assert(lists_preserved(
                                            mid.ctx,
                                            self.ctx,
                                            at_loop.ctx.lists@.len() as int,
                                        ));
                                        lemma_expr_lowered_mono(
                                            mid.ctx,
                                            self.ctx,
                                            at_loop.ctx.lists@.len() as int,
                                            inits.end as int,
                                            pre.globals@,
                                            cons.fields@[j2].rhs,
                                            eid,
                                        );
                                    }
                                }
                                filled = filled.update(k as int, true);
                            }
                            j = j + 1;
                        },
                    }
                },
            }
        }
        let mut p: usize = 0;
        while p < fcount
            invariant
                self.wf(),
                record_matches(self.ctx, rid, rs),
                fstart == self.ctx.records@[rid.raw as int].fields.start,
                p <= fcount,
                inits.end == inits.start + fcount,
                self.ctx.lists@.len() >= inits.end,
                fcount as nat == rs.fields.len(),
                filled.len() == rs.fields.len(),
                forall|q: int|
                    0 <= q < fcount ==> ((#[trigger] self.ctx.lists@[inits.start + q])
                        == INVALID_SLOT <==> !filled[q]),
                forall|q: int| 0 <= q < p ==> filled[q],
                first_unfilled(filled, 0) == first_unfilled(filled, p as int),
            decreases fcount - p,
        {
            if self.ctx.expr_slot_raw(inits, p) == INVALID_SLOT {
                proof {
                    assert(!filled[p as int]);
                    assert(first_unfilled(filled, 0) == Some(p as int));
                }
                let fname = self.ctx.field(
                    hir::FieldId { raw: fstart + (p as u32) },
                ).name;
                proof {
                    assert(fname == rs.fields[p as int]);
                }
                return Err(LowerError::MissingField(MissingField { ty: cons.name, field: fname }));
            }
            p = p + 1;
        }
        proof {
            assert(first_unfilled(filled, 0) is None);
            assert forall|p2: int| inits.start <= p2 < inits.end implies (
            #[trigger] self.ctx.lists@[p2]) != INVALID_SLOT by {
                let q = p2 - inits.start;
                assert(filled[q]);
                assert(!(self.ctx.lists@[inits.start + q] == INVALID_SLOT));
            }
            lemma_prefix_lists_preserved(mid2.ctx, self.ctx, m0);
            lemma_expr_list_lowered_mono(
                mid2.ctx,
                self.ctx,
                m0,
                m0,
                pre.globals@,
                cons.generics@,
                glist,
            );
            assert(self.gsig@.contains_key(sym));
            assert(global_matches(self.ctx, self.globals@[sym], self.gsig@[sym]));
            assert(record_matches(self.ctx, rid, rs));
            let recf = self.ctx.records@[rid.raw as int];
            assert(record_field_names(self.ctx, recf) =~= rs.fields);
            let h = hir::Constructor { name: cons.name, record: rid, generics: glist, inits };
            assert forall|j2: int| 0 <= j2 < cons.fields@.len() implies init_slot_lowered(
                self.ctx,
                m0,
                pre.globals@,
                recf,
                h.inits,
                #[trigger] cons.fields@[j2],
            ) by {
                let p2 = first_field_match(
                    rs.fields,
                    rs.fields.len() as int,
                    cons.fields@[j2].lhs.symbol.id,
                    0,
                ).unwrap();
                lemma_expr_lowered_mono(
                    self.ctx,
                    self.ctx,
                    inits.end as int,
                    m0,
                    pre.globals@,
                    cons.fields@[j2].rhs,
                    hir::ExprId { raw: self.ctx.lists@[inits.start + p2] },
                );
            }
            assert(ctor_lowered(self.ctx, m0, pre.globals@, *cons, h));
        }
        Ok(hir::Constructor { name: cons.name, record: rid, generics: glist, inits })
    }
}

/// Frames compose: two statement-level steps in a row are one.
pub proof fn lemma_stmt_frame_trans(c: LoweringContext, b: LoweringContext, a: LoweringContext)
    requires
        c.stmt_frame(b),
        b.stmt_frame(a),
    ensures
        c.stmt_frame(a),
{
    crate::context::lemma_ctx_extends_trans(c.ctx, b.ctx, a.ctx);
}

impl LoweringContext {
    /// Lowers one statement. An assignment lowers its right-hand side, then
    /// introduces a new let-bound local into the innermost scope at once,
    /// shadowing any same-named entry: binding is lexical and sequential.
    /// Return and unsafe-block statements lower their sub-expression or
    /// sub-block without introducing bindings.
    #[verifier::loop_isolation(false)]
    fn lower_statement(&mut self, stmt: &ast::Statement) -> (r: Result<hir::StmtId, LowerError>)
        requires
            old(self).wf(),
            old(self).senv@.len() >= 1,
            old(self).budget@ >= weight_stmt(old(self).fmax@, *stmt),
        ensures
            final(self).wf(),
            final(self).stmt_frame(*old(self)),
            final(self).budget@ <= old(self).budget@,
            final(self).budget@ + weight_stmt(old(self).fmax@, *stmt) >= old(self).budget@,
            match r {
                Ok(sid) => {
                    &&& check_stmt(old(self).gsig@, old(self).senv@, *stmt).0 is None
                    &&& final(self).senv@ == check_stmt(old(self).gsig@, old(self).senv@, *stmt).1
                    &&& stmt_lowered(
                        final(self).ctx,
                        old(self).ctx.lists@.len() as int,
                        old(self).globals@,
                        *stmt,
                        sid,
                    )
                },
                Err(e) => check_stmt(old(self).gsig@, old(self).senv@, *stmt).0 == Some(e),
            },
        decreases *stmt,
    {
        let ghost pre = *self;
        let ghost m = self.fmax@;
        let ghost m0 = pre.ctx.lists@.len() as int;
        match &stmt.kind {
            ast::StmtKind::Assign(assn) => {
                match self.lower_expression(&assn.rhs) {
                    Err(e) => Err(e),
                    Ok(eid) => {
                        let ghost s1 = *self;
                        let lid = self.ctx.add_local(
                            hir::Local { kind: hir::LocalKind::Let(eid), name: assn.lhs },
                        );
                        self.budget = Ghost((self.budget@ - 1) as nat);
                        proof {
                            LoweringContext::lemma_wf_preserved(s1, *self);
                        }
                        let ghost s2 = *self;
                        let sym = assn.lhs.symbol.id;
                        let ghost entry = ScopeEntry { kind: EntryKind::Binding, id: assn.lhs };
                        let mut top = self.scopes.pop().unwrap();
                        top.insert(sym, lid);
                        self.scopes.push(top);
                        self.senv = Ghost(scope_insert(s2.senv@, sym, entry));
                        proof {
                            let post = *self;
                            let last = post.senv@.len() - 1;
                            assert(post.scopes@.len() == s2.scopes@.len());
                            assert(post.senv@.len() == s2.senv@.len());
                            assert(entry_matches(post.ctx, lid, entry));
                            assert forall|lvl: int| 0 <= lvl < post.senv@.len() implies
                                scope_matches(
                                post.ctx,
                                (#[trigger] post.scopes@[lvl])@,
                                post.senv@[lvl],
                            ) by {
                                assert(scope_matches(s2.ctx, s2.scopes@[lvl]@, s2.senv@[lvl]));
                                if lvl == last {
                                    assert(post.scopes@[lvl]@ == s2.scopes@[lvl]@.insert(
                                        sym,
                                        lid,
                                    ));
                                    assert(post.senv@[lvl] == s2.senv@[lvl].insert(sym, entry));
                                } else {
                                    assert(post.scopes@[lvl] == s2.scopes@[lvl]);
                                    assert(post.senv@[lvl] == s2.senv@[lvl]);
                                }
                            }
                        }
                        let ghost s3 = *self;
                        let sid = self.ctx.add_stmt(
                            hir::Statement { kind: hir::StmtKind::Assign(lid, eid) },
                        );
                        self.budget = Ghost((self.budget@ - 1) as nat);
                        proof {
                            LoweringContext::lemma_wf_preserved(s3, *self);
                            crate::context::lemma_ctx_extends_trans(self.ctx, s3.ctx, s1.ctx);
                            lemma_prefix_lists_preserved(s1.ctx, self.ctx, m0);
                            lemma_expr_lowered_mono(
                                s1.ctx,
                                self.ctx,
                                m0,
                                m0,
                                pre.globals@,
                                assn.rhs,
                                eid,
                            );
                            assert(self.ctx.locals@[lid.raw as int].name == assn.lhs);
                            assert(self.ctx.locals@[lid.raw as int].kind
                                == hir::LocalKind::Let(eid));
                            assert(stmt_lowered(self.ctx, m0, pre.globals@, *stmt, sid));
                        }
                        Ok(sid)
                    },
                }
            },
            ast::StmtKind::Return(e) => {
                match self.lower_expression(e) {
                    Err(err) => Err(err),
                    Ok(eid) => {
                        let ghost s1 = *self;
                        let sid = self.ctx.add_stmt(
                            hir::Statement { kind: hir::StmtKind::Return(eid) },
                        );
                        self.budget = Ghost((self.budget@ - 1) as nat);
                        proof {
                            LoweringContext::lemma_wf_preserved(s1, *self);
                            lemma_prefix_lists_preserved(s1.ctx, self.ctx, m0);
                            lemma_expr_lowered_mono(
                                s1.ctx,
                                self.ctx,
                                m0,
                                m0,
                                pre.globals@,
                                *e,
                                eid,
                            );
                            assert(stmt_lowered(self.ctx, m0, pre.globals@, *stmt, sid));
                        }
                        Ok(sid)
                    },
                }
            },
            ast::StmtKind::Unsafe(block) => {
                match self.lower_block(block) {
                    Err(err) => Err(err),
                    Ok(list) => {
                        let ghost s1 = *self;
                        let sid = self.ctx.add_stmt(
                            hir::Statement { kind: hir::StmtKind::Unsafe(list) },
                        );
                        self.budget = Ghost((self.budget@ - 1) as nat);
                        proof {
                            LoweringContext::lemma_wf_preserved(s1, *self);
                            lemma_prefix_lists_preserved(s1.ctx, self.ctx, m0);
                            lemma_stmt_list_lowered_mono(
                                s1.ctx,
                                self.ctx,
                                m0,
                                m0,
                                pre.globals@,
                                block.0@,
                                list,
                            );
                            assert(stmt_lowered(self.ctx, m0, pre.globals@, *stmt, sid));
                        }
                        Ok(sid)
                    },
                }
            },
        }
    }

    /// Lowers a brace-delimited statement list, reserving its slots up front
    /// and filling them one statement at a time. Blocks do not open a scope:
    /// bindings made inside persist in the innermost scope.
    #[verifier::loop_isolation(false)]
    fn lower_block(&mut self, block: &ast::Block) -> (r: Result<hir::StmtList, LowerError>)
        requires
            old(self).wf(),
            old(self).senv@.len() >= 1,
            old(self).budget@ >= block.0@.len() + weight_stmts(old(self).fmax@, block.0@, 0),
        ensures
            final(self).wf(),
            final(self).stmt_frame(*old(self)),
            final(self).budget@ <= old(self).budget@,
            final(self).budget@ + block.0@.len() + weight_stmts(old(self).fmax@, block.0@, 0)
                >= old(self).budget@,
            match r {
                Ok(l) => {
                    &&& check_stmts(old(self).gsig@, old(self).senv@, block.0@, 0).0 is None
                    &&& final(self).senv@ == check_stmts(
                        old(self).gsig@,
                        old(self).senv@,
                        block.0@,
                        0,
                    ).1
                    &&& stmt_list_lowered(
                        final(self).ctx,
                        old(self).ctx.lists@.len() as int,
                        old(self).globals@,
                        block.0@,
                        l,
                    )
                },
                Err(e) => check_stmts(old(self).gsig@, old(self).senv@, block.0@, 0).0 == Some(e),
            },
        decreases *block,
    {
        let ghost pre = *self;
        let ghost m = self.fmax@;
        let ghost m0 = pre.ctx.lists@.len() as int;
        let n = block.0.len();
        let list = self.ctx.new_stmt_list(n);
        self.budget = Ghost((self.budget@ - n) as nat);
        proof {
            LoweringContext::lemma_wf_preserved(pre, *self);
        }
        let mut i: usize = 0;
        while i < n
            invariant
                self.wf(),
                self.stmt_frame(pre),
                pre.wf(),
                self.senv@.len() >= 1,
                n == block.0@.len(),
                i <= n,
                m == self.fmax@,
                list.start == pre.ctx.lists@.len(),
                list.end == list.start + n,
                self.ctx.lists@.len() >= list.end,
                forall|k: int|
                    0 <= k < i ==> stmt_lowered(
                        self.ctx,
                        list.end as int,
                        pre.globals@,
                        block.0@[k],
                        hir::StmtId { raw: (#[trigger] self.ctx.lists@[list.start + k]) },
                    ),
                self.budget@ >= weight_stmts(m, block.0@, i as int),
                self.budget@ + n + weight_stmts(m, block.0@, 0) >= pre.budget@ + weight_stmts(
                    m,
                    block.0@,
                    i as int,
                ),
                self.budget@ <= pre.budget@,
                check_stmts(pre.gsig@, pre.senv@, block.0@, 0) == check_stmts(
                    pre.gsig@,
                    self.senv@,
                    block.0@,
                    i as int,
                ),
            decreases n - i,
        {
            let ghost at_loop = *self;
            match self.lower_statement(&block.0[i]) {
                Err(e) => {
                    proof {
                        lemma_stmt_frame_trans(*self, at_loop, pre);
                    }
                    return Err(e);
                },
                Ok(sid) => {
                    let ghost mid = *self;
                    proof {
                        lemma_stmt_frame_trans(mid, at_loop, pre);
                    }
                    self.ctx.set_stmt_slot(list, i, sid);
                    proof {
                        crate::list::lemma_prefix_update(
                            pre.ctx.lists@,
                            mid.ctx.lists@,
                            list.start + i,
                            sid.raw,
                        );
                        LoweringContext::lemma_wf_preserved(mid, *self);
                        lemma_prefix_lists_preserved(at_loop.ctx, mid.ctx, list.end as int);
                        assert(lists_preserved(mid.ctx, self.ctx, list.end as int));
                        assert forall|k: int| 0 <= k < i + 1 implies stmt_lowered(
                            self.ctx,
                            list.end as int,
                            pre.globals@,
                            block.0@[k],
                            hir::StmtId { raw: (#[trigger] self.ctx.lists@[list.start + k]) },
                        ) by {
                            if k < i {
                                assert(mid.ctx.lists@[list.start + k] == at_loop.ctx.lists@[
                                    list.start + k
                                ]) by {
                                    crate::arena::lemma_pushed_value_persists(
                                        at_loop.ctx.lists@,
                                        mid.ctx.lists@,
                                        list.start + k,
                                    );
                                }
                                lemma_stmt_lowered_mono(
                                    at_loop.ctx,
                                    mid.ctx,
                                    list.end as int,
                                    list.end as int,
                                    pre.globals@,
                                    block.0@[k],
                                    hir::StmtId { raw: at_loop.ctx.lists@[list.start + k] },
                                );
                                lemma_stmt_lowered_mono(
                                    mid.ctx,
                                    self.ctx,
                                    list.end as int,
                                    list.end as int,
                                    pre.globals@,
                                    block.0@[k],
                                    hir::StmtId { raw: mid.ctx.lists@[list.start + k] },
                                );
                            } else {
                                assert(self.ctx.lists@[list.start + k] == sid.raw);
                                assert(lists_preserved(
                                    mid.ctx,
                                    self.ctx,
                                    at_loop.ctx.lists@.len() as int,
                                ));
                                lemma_stmt_lowered_mono(
                                    mid.ctx,
                                    self.ctx,
                                    at_loop.ctx.lists@.len() as int,
                                    list.end as int,
                                    pre.globals@,
                                    block.0@[k],
                                    sid,
                                );
                            }
                        }
                    }
                    i = i + 1;
                },
            }
        }
        proof {
            assert forall|k: int| 0 <= k < n implies stmt_lowered(
                self.ctx,
                m0,
                pre.globals@,
                block.0@[k],
                hir::StmtId { raw: (#[trigger] self.ctx.lists@[list.start + k]) },
            ) by {
                lemma_stmt_lowered_mono(
                    self.ctx,
                    self.ctx,
                    list.end as int,
                    m0,
                    pre.globals@,
                    block.0@[k],
                    hir::StmtId { raw: self.ctx.lists@[list.start + k] },
                );
            }
            assert(stmt_list_lowered(self.ctx, m0, pre.globals@, block.0@, list));
        }
        Ok(list)
    }
}

impl LoweringContext {
    /// Lowers one field of a record: its type is resolved in the record's
    /// generic-parameter scope.
    fn lower_field(&mut self, field: &ast::Field) -> (r: Result<hir::FieldId, LowerError>)
        requires
            old(self).wf(),
            old(self).budget@ >= 1 + weight_type(old(self).fmax@, field.ty),
        ensures
            final(self).wf(),
            ctx_extends(final(self).ctx, old(self).ctx),
            final(self).ctx.records@ == old(self).ctx.records@,
            final(self).ctx.defs@ == old(self).ctx.defs@,
            final(self).ctx.params@ == old(self).ctx.params@,
            final(self).ctx.stmts@ == old(self).ctx.stmts@,
            final(self).ctx.locals@ == old(self).ctx.locals@,
            final(self).globals@ == old(self).globals@,
            final(self).gsig == old(self).gsig,
            final(self).scopes@ == old(self).scopes@,
            final(self).senv == old(self).senv,
            final(self).fmax == old(self).fmax,
            final(self).budget@ <= old(self).budget@,
            final(self).budget@ + 1 + weight_type(old(self).fmax@, field.ty) >= old(self).budget@,
            match r {
                Ok(fid) => {
                    &&& check_type(old(self).gsig@, old(self).senv@, field.ty) is None
                    &&& final(self).ctx.fields@.len() == old(self).ctx.fields@.len() + 1
                    &&& fid.raw == old(self).ctx.fields@.len()
                    &&& final(self).ctx.fields@[fid.raw as int].name == field.name
                    &&& final(self).ctx.fields@[fid.raw as int].span == field.span
                    &&& type_lowered(
                        final(self).ctx,
                        old(self).ctx.lists@.len() as int,
                        old(self).globals@,
                        field.ty,
                        final(self).ctx.fields@[fid.raw as int].ty,
                    )
                },
                Err(e) => {
                    &&& check_type(old(self).gsig@, old(self).senv@, field.ty) == Some(e)
                    &&& final(self).ctx.fields@ == old(self).ctx.fields@
                },
            },
    {
        let ghost pre = *self;
        let ghost m0 = pre.ctx.lists@.len() as int;
        match self.lower_type(&field.ty) {
            Err(e) => Err(e),
            Ok(tid) => {
                let ghost s1 = *self;
                let fid = self.ctx.add_field(
                    hir::Field { name: field.name, ty: tid, span: field.span },
                );
                self.budget = Ghost((self.budget@ - 1) as nat);
                proof {
                    LoweringContext::lemma_wf_preserved(s1, *self);
                    lemma_prefix_lists_preserved(s1.ctx, self.ctx, m0);
                    lemma_type_lowered_mono(
                        s1.ctx,
                        self.ctx,
                        m0,
                        m0,
                        pre.globals@,
                        field.ty,
                        tid,
                    );
                }
                Ok(fid)
            },
        }
    }

    /// Lowers a record declaration: allocates its generic-parameter locals,
    /// rejects a duplicated parameter name, lowers each field in the
    /// parameter scope while rejecting a reused field name, and registers
    /// the record under its name.
    #[verifier::loop_isolation(false)]
    fn lower_record(&mut self, record: &ast::Record) -> (r: Result<hir::RecordId, LowerError>)
        requires
            old(self).wf(),
            old(self).senv@.len() == 0,
            old(self).budget@ >= weight_record(old(self).fmax@, *record),
            record.params@.len() <= u16::MAX,
            record.fields@.len() <= old(self).fmax@,
        ensures
            final(self).wf(),
            ctx_extends(final(self).ctx, old(self).ctx),
            final(self).ctx.defs@ == old(self).ctx.defs@,
            final(self).fmax == old(self).fmax,
            final(self).budget@ <= old(self).budget@,
            final(self).budget@ + weight_record(old(self).fmax@, *record) >= old(self).budget@,
            match r {
                Ok(id) => {
                    &&& final(self).senv@.len() == 0
                    &&& check_record(old(self).gsig@, *record) is None
                    &&& final(self).gsig@ == old(self).gsig@.insert(
                        record.name.symbol.id,
                        GlobalSig::Record(record_sig(*record)),
                    )
                    &&& final(self).ctx.records@.len() == old(self).ctx.records@.len() + 1
                    &&& id.raw == old(self).ctx.records@.len()
                    &&& record_matches(final(self).ctx, id, record_sig(*record))
                    &&& record_node_lowered(
                        final(self).ctx,
                        old(self).ctx.lists@.len() as int,
                        old(self).globals@,
                        *record,
                        id,
                    )
                },
                Err(e) => check_record(old(self).gsig@, *record) == Some(e),
            },
    {
        let ghost pre = *self;
        let ghost m = self.fmax@;
        let ghost m0 = pre.ctx.lists@.len() as int;
        let plen = record.params.len();
        let lstart = self.alloc_generic_locals(&record.params);
        let scope_pair = match self.build_generic_scope(&record.params, lstart) {
            Ok(pair) => pair,
            Err(e) => {
                proof {
                    assert(check_record(pre.gsig@, *record) == Some(e));
                }
                return Err(e);
            },
        };
        let scope = scope_pair.0;
        let ghost gscope = scope_pair.1@;
        self.scopes.push(scope);
        self.senv = Ghost(self.senv@.push(gscope));
        proof {
            let post = *self;
            assert forall|lvl: int| 0 <= lvl < post.senv@.len() implies scope_matches(
                post.ctx,
                (#[trigger] post.scopes@[lvl])@,
                post.senv@[lvl],
            ) by {
                assert(lvl == 0);
                assert(post.scopes@[lvl]@ == scope@);
                assert(post.senv@[lvl] == gscope);
            }
            assert(self.wf());
        }
        let ghost s0 = self.senv@;
        proof {
            assert(s0 =~= seq![param_scope(record.params@, EntryKind::Generic)]);
            assert(s0 == seq![param_scope(record.params@, EntryKind::Generic)]);
        }
        let ghost scoped = *self;
        let fstart = self.ctx.fields.len();
        let flen = record.fields.len();
        let mut i: usize = 0;
        while i < flen
            invariant
                self.wf(),
                ctx_extends(self.ctx, scoped.ctx),
                self.ctx.records@ == scoped.ctx.records@,
                self.ctx.defs@ == scoped.ctx.defs@,
                self.ctx.params@ == scoped.ctx.params@,
                self.ctx.locals@ == scoped.ctx.locals@,
                self.globals@ == scoped.globals@,
                self.gsig == scoped.gsig,
                self.scopes@ == scoped.scopes@,
                self.senv == scoped.senv,
                self.fmax == scoped.fmax,
                i <= flen,
                flen == record.fields@.len(),
                self.ctx.fields@.len() == fstart + i,
                forall|k: int|
                    0 <= k < i ==> (#[trigger] self.ctx.fields@[fstart + k]).name
                        == record.fields@[k].name && self.ctx.fields@[fstart + k].span
                        == record.fields@[k].span && type_lowered(
                        self.ctx,
                        m0,
                        pre.globals@,
                        record.fields@[k].ty,
                        self.ctx.fields@[fstart + k].ty,
                    ),
                self.budget@ >= 1 + weight_fields(m, record.fields@, i as int),
                self.budget@ + plen + weight_fields(m, record.fields@, 0) >= pre.budget@
                    + weight_fields(m, record.fields@, i as int),
                self.budget@ <= pre.budget@,
                check_record_fields(pre.gsig@, s0, record.fields@, 0) == check_record_fields(
                    pre.gsig@,
                    s0,
                    record.fields@,
                    i as int,
                ),
            decreases flen - i,
        {
            let ghost at_loop = *self;
            match self.lower_field(&record.fields[i]) {
                Err(e) => {
                    proof {
                        crate::context::lemma_ctx_extends_trans(
                            self.ctx,
                            at_loop.ctx,
                            scoped.ctx,
                        );
                        crate::context::lemma_ctx_extends_trans(self.ctx, scoped.ctx, pre.ctx);
                        assert(check_record_fields(pre.gsig@, s0, record.fields@, i as int)
                            == Some(e));
                        assert(check_record_fields(pre.gsig@, s0, record.fields@, 0) == Some(e));
                        assert(check_record(pre.gsig@, *record) == Some(e));
                    }
                    return Err(e);
                },
                Ok(_) => {
                    proof {
                        crate::context::lemma_ctx_extends_trans(
                            self.ctx,
                            at_loop.ctx,
                            scoped.ctx,
                        );
                        assert forall|k: int| 0 <= k < i implies (#[trigger] self.ctx.fields@[
                        fstart + k
                        ]) == at_loop.ctx.fields@[fstart + k] by {
                            crate::arena::lemma_pushed_value_persists(
                                at_loop.ctx.fields@,
                                self.ctx.fields@,
                                fstart + k,
                            );
                        }
                        lemma_prefix_lists_preserved(at_loop.ctx, self.ctx, m0);
                        assert forall|k: int| 0 <= k < i + 1 implies type_lowered(
                            self.ctx,
                            m0,
                            pre.globals@,
                            (#[trigger] record.fields@[k]).ty,
                            self.ctx.fields@[fstart + k].ty,
                        ) by {
                            if k < i {
                                lemma_type_lowered_mono(
                                    at_loop.ctx,
                                    self.ctx,
                                    m0,
                                    m0,
                                    pre.globals@,
                                    record.fields@[k].ty,
                                    at_loop.ctx.fields@[fstart + k].ty,
                                );
                            } else {
                                lemma_type_lowered_mono(
                                    self.ctx,
                                    self.ctx,
                                    at_loop.ctx.lists@.len() as int,
                                    m0,
                                    pre.globals@,
                                    record.fields@[k].ty,
                                    self.ctx.fields@[fstart + k].ty,
                                );
                            }
                        }
                    }
                    let ghost names = record.fields@.map_values(|f: ast::Field| f.name);
                    let sym = record.fields[i].name.symbol.id;
                    let mut j: usize = 0;
                    let mut clash: Option<usize> = None;
                    while j < i
                        invariant
                            j <= i,
                            i < flen,
                            flen == record.fields@.len(),
                            clash is None,
                            names == record.fields@.map_values(|f: ast::Field| f.name),
                            sym == record.fields@[i as int].name.symbol.id,
                            first_field_match(names, i as int, sym, 0) == first_field_match(
                                names,
                                i as int,
                                sym,
                                j as int,
                            ),
                        decreases i - j,
                    {
                        proof {
                            assert(names[j as int] == record.fields@[j as int].name);
                        }
                        if record.fields[j].name.symbol.id == sym {
                            clash = Some(j);
                            break;
                        }
                        j = j + 1;
                    }
                    if let Some(jj) = clash {
                        proof {
                            assert(names[jj as int] == record.fields@[jj as int].name);
                            assert(first_field_match(names, i as int, sym, 0) == Some(jj as int));
                        }
                        return Err(
                            LowerError::RedeclaredField(
                                RedeclaredField {
                                    first: record.fields[jj].name,
                                    second: record.fields[i].name,
                                },
                            ),
                        );
                    }
                    proof {
                        assert(first_field_match(names, i as int, sym, i as int) is None);
                    }
                    i = i + 1;
                },
            }
        }
        let _ = self.scopes.pop();
        self.senv = Ghost(self.senv@.drop_last());
        proof {
            assert(self.senv@.len() == 0);
            assert(self.wf());
        }
        let ghost before_push = *self;
        let rid = self.ctx.add_record(
            hir::Record {
                name: record.name,
                params: hir::LocalRange {
                    start: lstart as u32,
                    end: (lstart + plen) as u32,
                },
                fields: hir::FieldRange {
                    start: fstart as u32,
                    end: (fstart + flen) as u32,
                },
            },
        );
        self.budget = Ghost((self.budget@ - 1) as nat);
        proof {
            LoweringContext::lemma_wf_preserved(before_push, *self);
        }
        let ghost sig = GlobalSig::Record(record_sig(*record));
        proof {
            assert(record_sig(*record).fields.len() == record.fields@.len());
            assert forall|k: int| 0 <= k < record_sig(*record).fields.len() implies (
            #[trigger] self.ctx.fields@[fstart + k]).name == record_sig(*record).fields[k] by {
                assert(record_sig(*record).fields[k] == record.fields@[k].name);
            }
            assert(record_matches(self.ctx, rid, record_sig(*record)));
            assert(sig_fields_bounded(sig, self.fmax@));
        }
        match self.add_global(&record.name, Global::Record(rid), Ghost(sig)) {
            Ok(_) => {
                proof {
                    crate::context::lemma_ctx_extends_trans(self.ctx, scoped.ctx, pre.ctx);
                    lemma_prefix_lists_preserved(before_push.ctx, self.ctx, m0);
                    assert forall|k: int| 0 <= k < record.fields@.len() implies (
                    #[trigger] self.ctx.fields@[fstart + k]).span == record.fields@[k].span
                        && type_lowered(
                        self.ctx,
                        m0,
                        pre.globals@,
                        record.fields@[k].ty,
                        self.ctx.fields@[fstart + k].ty,
                    ) by {
                        crate::arena::lemma_pushed_value_persists(
                            before_push.ctx.fields@,
                            self.ctx.fields@,
                            fstart + k,
                        );
                        lemma_type_lowered_mono(
                            before_push.ctx,
                            self.ctx,
                            m0,
                            m0,
                            pre.globals@,
                            record.fields@[k].ty,
                            before_push.ctx.fields@[fstart + k].ty,
                        );
                    }
                    assert(self.ctx.records@[rid.raw as int].fields.start == fstart);
                    assert(self.ctx.records@[rid.raw as int].params.start == lstart);
                    reveal(record_node_lowered);
                    assert(record_node_lowered(self.ctx, m0, pre.globals@, *record, rid));
                }
                Ok(rid)
            },
            Err(e) => {
                proof {
                    crate::context::lemma_ctx_extends_trans(self.ctx, scoped.ctx, pre.ctx);
                }
                Err(e)
            },
        }
    }
}

impl LoweringContext {
    /// Lowers one value parameter: its type is resolved in the scope holding
    /// the generics and the parameters before it, and the parameter node is
    /// tied to its backing local.
    fn lower_parameter(&mut self, param: &ast::Parameter, local: hir::LocalId) -> (r: Result<
        hir::ParamId,
        LowerError,
    >)
        requires
            old(self).wf(),
            old(self).budget@ >= 1 + weight_type(old(self).fmax@, param.ty),
        ensures
            final(self).wf(),
            ctx_extends(final(self).ctx, old(self).ctx),
            final(self).ctx.records@ == old(self).ctx.records@,
            final(self).ctx.defs@ == old(self).ctx.defs@,
            final(self).ctx.fields@ == old(self).ctx.fields@,
            final(self).ctx.stmts@ == old(self).ctx.stmts@,
            final(self).ctx.locals@ == old(self).ctx.locals@,
            final(self).globals@ == old(self).globals@,
            final(self).gsig == old(self).gsig,
            final(self).scopes@ == old(self).scopes@,
            final(self).senv == old(self).senv,
            final(self).fmax == old(self).fmax,
            final(self).budget@ <= old(self).budget@,
            final(self).budget@ + 1 + weight_type(old(self).fmax@, param.ty) >= old(self).budget@,
            match r {
                Ok(pid) => {
                    &&& check_type(old(self).gsig@, old(self).senv@, param.ty) is None
                    &&& final(self).ctx.params@.len() == old(self).ctx.params@.len() + 1
                    &&& pid.raw == old(self).ctx.params@.len()
                    &&& final(self).ctx.params@[pid.raw as int].local == local
                    &&& final(self).ctx.params@[pid.raw as int].span == param.span
                    &&& type_lowered(
                        final(self).ctx,
                        old(self).ctx.lists@.len() as int,
                        old(self).globals@,
                        param.ty,
                        final(self).ctx.params@[pid.raw as int].ty,
                    )
                },
                Err(e) => {
                    &&& check_type(old(self).gsig@, old(self).senv@, param.ty) == Some(e)
                    &&& final(self).ctx.params@ == old(self).ctx.params@
                },
            },
    {
        let ghost pre = *self;
        let ghost m0 = pre.ctx.lists@.len() as int;
        match self.lower_type(&param.ty) {
            Err(e) => Err(e),
            Ok(tid) => {
                let ghost s1 = *self;
                let pid = self.ctx.add_param(
                    hir::Parameter { local, ty: tid, span: param.span },
                );
                self.budget = Ghost((self.budget@ - 1) as nat);
                proof {
                    LoweringContext::lemma_wf_preserved(s1, *self);
                    lemma_prefix_lists_preserved(s1.ctx, self.ctx, m0);
                    lemma_type_lowered_mono(
                        s1.ctx,
                        self.ctx,
                        m0,
                        m0,
                        pre.globals@,
                        param.ty,
                        tid,
                    );
                }
                Ok(pid)
            },
        }
    }

    /// Lowers a definition: allocates its generic and value-parameter
    /// locals, rejects duplicated generics, inserts each value parameter
    /// after lowering its type while rejecting a name that shadows a generic
    /// or reuses a parameter, lowers the output type, the optional
    /// precondition and implements expressions and the optional body in the
    /// parameter scope, and registers the definition under its name.
    #[verifier::loop_isolation(false)]
    #[verifier::rlimit(100)]
    #[verifier::spinoff_prover]
    fn lower_definition(&mut self, def: &ast::Definition) -> (r: Result<hir::DefId, LowerError>)
        requires
            old(self).wf(),
            old(self).senv@.len() == 0,
            old(self).budget@ >= weight_def(old(self).fmax@, *def),
            def.generics@.len() <= u16::MAX,
            def.sig.inputs@.len() <= u16::MAX,
        ensures
            final(self).wf(),
            ctx_extends(final(self).ctx, old(self).ctx),
            final(self).ctx.records@ == old(self).ctx.records@,
            final(self).fmax == old(self).fmax,
            final(self).budget@ <= old(self).budget@,
            final(self).budget@ + weight_def(old(self).fmax@, *def) >= old(self).budget@,
            match r {
                Ok(id) => {
                    &&& final(self).senv@.len() == 0
                    &&& check_def(old(self).gsig@, *def) is None
                    &&& final(self).gsig@ == old(self).gsig@.insert(
                        def.name.symbol.id,
                        GlobalSig::Def(def_sig(*def)),
                    )
                    &&& final(self).ctx.defs@.len() == old(self).ctx.defs@.len() + 1
                    &&& id.raw == old(self).ctx.defs@.len()
                    &&& def_matches(final(self).ctx, id, def_sig(*def))
                    &&& def_node_lowered(
                        final(self).ctx,
                        old(self).ctx.lists@.len() as int,
                        old(self).globals@,
                        *def,
                        id,
                    )
                },
                Err(e) => check_def(old(self).gsig@, *def) == Some(e),
            },
    {
        let ghost pre = *self;
        let ghost m = self.fmax@;
        let ghost m0 = pre.ctx.lists@.len() as int;
        let glen = def.generics.len();
        let lstart_g = self.alloc_generic_locals(&def.generics);
        let ghost after_g = *self;
        let plen = def.sig.inputs.len();
        let lstart_p = self.alloc_param_locals(&def.sig.inputs);
        let ghost after_p = *self;
        proof {
            assert forall|k: int| 0 <= k < def.generics@.len() implies (#[trigger] self.ctx.locals@[
            lstart_g + k
            ]).name == def.generics@[k] && (self.ctx.locals@[lstart_g + k].kind matches
            hir::LocalKind::GenericParam(_)) by {
                crate::arena::lemma_pushed_value_persists(
                    after_g.ctx.locals@,
                    self.ctx.locals@,
                    lstart_g + k,
                );
            }
        }
        let scope_pair = match self.build_generic_scope(&def.generics, lstart_g) {
            Ok(pair) => pair,
            Err(e) => {
                proof {
                    crate::context::lemma_ctx_extends_trans(self.ctx, self.ctx, pre.ctx);
                    assert(check_def(pre.gsig@, *def) == Some(e));
                }
                return Err(e);
            },
        };
        let scope = scope_pair.0;
        let ghost gscope = scope_pair.1@;
        self.scopes.push(scope);
        self.senv = Ghost(self.senv@.push(gscope));
        proof {
            let post = *self;
            assert forall|lvl: int| 0 <= lvl < post.senv@.len() implies scope_matches(
                post.ctx,
                (#[trigger] post.scopes@[lvl])@,
                post.senv@[lvl],
            ) by {
                assert(lvl == 0);
                assert(post.scopes@[lvl]@ == scope@);
                assert(post.senv@[lvl] == gscope);
            }
            assert(self.wf());
        }
        let ghost s0 = self.senv@;
        proof {
            assert(s0 =~= seq![param_scope(def.generics@, EntryKind::Generic)]);
            assert(s0 == seq![param_scope(def.generics@, EntryKind::Generic)]);
        }
        let ghost scoped = *self;
        let pstart = self.ctx.params.len();
        match self.lower_def_params(&def.sig.inputs, lstart_p, Ghost(s0)) {
            Err(e) => {
                proof {
                    crate::context::lemma_ctx_extends_trans(self.ctx, scoped.ctx, pre.ctx);
                    assert(check_def_params(pre.gsig@, s0, def.sig.inputs@, 0).0 == Some(e));
                    assert(check_def(pre.gsig@, *def) == Some(e));
                }
                return Err(e);
            },
            Ok(_) => {
                proof {
                    crate::context::lemma_ctx_extends_trans(self.ctx, scoped.ctx, pre.ctx);
                }
            },
        }
        let ghost after_params = *self;
        let ghost s1env = self.senv@;
        proof {
            assert(check_def_params(pre.gsig@, s0, def.sig.inputs@, 0) == (
                None::<LowerError>,
                s1env,
            ));
        }
        let output = match self.lower_type(&def.sig.output) {
            Err(e) => {
                proof {
                    crate::context::lemma_ctx_extends_trans(self.ctx, after_params.ctx, pre.ctx);
                    assert(check_def(pre.gsig@, *def) == Some(e));
                }
                return Err(e);
            },
            Ok(tid) => tid,
        };
        proof {
            crate::context::lemma_ctx_extends_trans(self.ctx, after_params.ctx, pre.ctx);
        }
        let ghost after_output = *self;
        let precondition = match &def.precondition {
            None => None,
            Some(e) => match self.lower_expression(&**e) {
                Err(err) => {
                    proof {
                        crate::context::lemma_ctx_extends_trans(
                            self.ctx,
                            after_output.ctx,
                            pre.ctx,
                        );
                        assert(check_def(pre.gsig@, *def) == Some(err));
                    }
                    return Err(err);
                },
                Ok(eid) => Some(eid),
            },
        };
        proof {
            crate::context::lemma_ctx_extends_trans(self.ctx, after_output.ctx, pre.ctx);
        }
        let ghost after_pre = *self;
        let implements = match &def.implements {
            None => None,
            Some(e) => match self.lower_expression(&**e) {
                Err(err) => {
                    proof {
                        crate::context::lemma_ctx_extends_trans(self.ctx, after_pre.ctx, pre.ctx);
                        assert(check_def(pre.gsig@, *def) == Some(err));
                    }
                    return Err(err);
                },
                Ok(eid) => Some(eid),
            },
        };
        proof {
            crate::context::lemma_ctx_extends_trans(self.ctx, after_pre.ctx, pre.ctx);
        }
        let ghost after_impl = *self;
        let body = match &def.body {
            None => None,
            Some(block) => match self.lower_block(block) {
                Err(err) => {
                    proof {
                        crate::context::lemma_ctx_extends_trans(
                            self.ctx,
                            after_impl.ctx,
                            pre.ctx,
                        );
                        assert(check_def(pre.gsig@, *def) == Some(err));
                    }
                    return Err(err);
                },
                Ok(list) => Some(list),
            },
        };
        proof {
            crate::context::lemma_ctx_extends_trans(self.ctx, after_impl.ctx, pre.ctx);
        }
        let _ = self.scopes.pop();
        self.senv = Ghost(self.senv@.drop_last());
        proof {
            assert(self.senv@.len() == 0);
            assert(self.wf());
        }
        let ghost before_push = *self;
        let did = self.ctx.add_def(
            hir::Definition {
                safety: def.safety,
                name: def.name,
                generics: hir::LocalRange {
                    start: lstart_g as u32,
                    end: (lstart_g + glen) as u32,
                },
                precondition,
                implements,
                inputs: hir::ParamRange {
                    start: pstart as u32,
                    end: (pstart + plen) as u32,
                },
                output,
                body,
            },
        );
        self.budget = Ghost((self.budget@ - 1) as nat);
        proof {
            LoweringContext::lemma_wf_preserved(before_push, *self);
        }
        let ghost sig = GlobalSig::Def(def_sig(*def));
        proof {
            assert(def_matches(self.ctx, did, def_sig(*def)));
            assert(sig_fields_bounded(sig, self.fmax@));
        }
        match self.add_global(&def.name, Global::Def(did), Ghost(sig)) {
            Ok(_) => {
                proof {
                    crate::context::lemma_ctx_extends_trans(self.ctx, after_impl.ctx, pre.ctx);
                    // chain the context extensions down to the first snapshot
                    crate::context::lemma_ctx_extends_trans(
                        self.ctx,
                        before_push.ctx,
                        after_impl.ctx,
                    );
                    crate::context::lemma_ctx_extends_trans(
                        self.ctx,
                        after_impl.ctx,
                        after_pre.ctx,
                    );
                    crate::context::lemma_ctx_extends_trans(
                        self.ctx,
                        after_pre.ctx,
                        after_output.ctx,
                    );
                    crate::context::lemma_ctx_extends_trans(
                        self.ctx,
                        after_output.ctx,
                        after_params.ctx,
                    );
                    crate::context::lemma_ctx_extends_trans(
                        self.ctx,
                        after_params.ctx,
                        after_p.ctx,
                    );
                    crate::context::lemma_ctx_extends_trans(self.ctx, after_p.ctx, after_g.ctx);
                    let node = self.ctx.defs@[did.raw as int];
                    assert(node.generics.start == lstart_g);
                    assert(node.inputs.start == pstart);
                    // output type
                    lemma_prefix_lists_preserved(
                        after_output.ctx,
                        self.ctx,
                        after_params.ctx.lists@.len() as int,
                    );
                    lemma_type_lowered_mono(
                        after_output.ctx,
                        self.ctx,
                        after_params.ctx.lists@.len() as int,
                        m0,
                        pre.globals@,
                        def.sig.output,
                        output,
                    );
                    // optional precondition and implements expressions
                    match (&def.precondition, precondition) {
                        (Some(e), Some(eid)) => {
                            lemma_prefix_lists_preserved(
                                after_pre.ctx,
                                self.ctx,
                                after_output.ctx.lists@.len() as int,
                            );
                            lemma_expr_lowered_mono(
                                after_pre.ctx,
                                self.ctx,
                                after_output.ctx.lists@.len() as int,
                                m0,
                                pre.globals@,
                                **e,
                                eid,
                            );
                        },
                        _ => {},
                    }
                    match (&def.implements, implements) {
                        (Some(e), Some(eid)) => {
                            lemma_prefix_lists_preserved(
                                after_impl.ctx,
                                self.ctx,
                                after_pre.ctx.lists@.len() as int,
                            );
                            lemma_expr_lowered_mono(
                                after_impl.ctx,
                                self.ctx,
                                after_pre.ctx.lists@.len() as int,
                                m0,
                                pre.globals@,
                                **e,
                                eid,
                            );
                        },
                        _ => {},
                    }
                    match (&def.body, body) {
                        (Some(b), Some(l)) => {
                            lemma_prefix_lists_preserved(
                                before_push.ctx,
                                self.ctx,
                                after_impl.ctx.lists@.len() as int,
                            );
                            lemma_stmt_list_lowered_mono(
                                before_push.ctx,
                                self.ctx,
                                after_impl.ctx.lists@.len() as int,
                                m0,
                                pre.globals@,
                                b.0@,
                                l,
                            );
                        },
                        _ => {},
                    }
                    // ordinal-tagged locals survive as the arenas grow
                    assert forall|k: int| 0 <= k < def.generics@.len() implies (
                    #[trigger] self.ctx.locals@[lstart_g + k]).kind
                        == hir::LocalKind::GenericParam(k as u16) by {
                        crate::arena::lemma_pushed_value_persists(
                            after_p.ctx.locals@,
                            self.ctx.locals@,
                            lstart_g + k,
                        );
                    }
                    assert forall|k: int| 0 <= k < def.sig.inputs@.len() implies (
                    #[trigger] self.ctx.locals@[lstart_p + k]).kind == hir::LocalKind::Param(
                        k as u16,
                    ) && self.ctx.locals@[lstart_p + k].name == def.sig.inputs@[k].name by {
                        crate::arena::lemma_pushed_value_persists(
                            after_p.ctx.locals@,
                            self.ctx.locals@,
                            lstart_p + k,
                        );
                    }
                    // parameter nodes
                    lemma_prefix_lists_preserved(after_params.ctx, self.ctx, m0);
                    lemma_params_nodes_lowered_mono(
                        after_params.ctx,
                        self.ctx,
                        m0,
                        m0,
                        pre.globals@,
                        def.sig.inputs@,
                        pstart as int,
                        lstart_p as int,
                    );
                    reveal(params_nodes_lowered);
                    reveal(def_node_lowered);
                    assert(def_node_lowered(self.ctx, m0, pre.globals@, *def, did));
                }
                Ok(did)
            },
            Err(e) => {
                proof {
                    crate::context::lemma_ctx_extends_trans(self.ctx, after_impl.ctx, pre.ctx);
                    assert(check_def(pre.gsig@, *def) == Some(e));
                }
                Err(e)
            },
        }
    }
}

impl LoweringContext {
    /// Lowers every top-level item, in source order, registering each one's
    /// name after it is checked, so an item sees exactly the names declared
    /// before it.
    #[verifier::loop_isolation(false)]
    #[verifier::rlimit(100)]
    #[verifier::spinoff_prover]
    fn lower_file(&mut self, file: &ast::File) -> (r: Result<(), LowerError>)
        requires
            old(self).wf(),
            old(self).senv@.len() == 0,
            old(self).budget@ >= weight_items(old(self).fmax@, file.items@, 0),
            old(self).fmax@ >= max_fields(file.items@),
            params_bounded(*file),
        ensures
            final(self).wf(),
            ctx_extends(final(self).ctx, old(self).ctx),
            match r {
                Ok(_) => {
                    &&& check_items(old(self).gsig@, file.items@, 0) is None
                    &&& final(self).gsig@ == genv_after(
                        old(self).gsig@,
                        file.items@,
                        file.items@.len() as int,
                    )
                    &&& final(self).ctx.records@.len() == old(self).ctx.records@.len()
                        + count_records(file.items@, file.items@.len() as int)
                    &&& final(self).ctx.defs@.len() == old(self).ctx.defs@.len() + count_defs(
                        file.items@,
                        file.items@.len() as int,
                    )
                    &&& items_realized(
                        final(self).ctx,
                        file.items@,
                        file.items@.len() as int,
                        old(self).ctx.records@.len(),
                        old(self).ctx.defs@.len(),
                    )
                },
                Err(e) => check_items(old(self).gsig@, file.items@, 0) == Some(e),
            },
    {
        let ghost pre = *self;
        let ghost m = self.fmax@;
        let n = file.items.len();
        let mut i: usize = 0;
        while i < n
            invariant
                self.wf(),
                ctx_extends(self.ctx, pre.ctx),
                self.senv@.len() == 0,
                self.fmax == pre.fmax,
                i <= n,
                n == file.items@.len(),
                self.budget@ >= weight_items(m, file.items@, i as int),
                self.gsig@ == genv_after(pre.gsig@, file.items@, i as int),
                self.ctx.records@.len() == pre.ctx.records@.len() + count_records(
                    file.items@,
                    i as int,
                ),
                self.ctx.defs@.len() == pre.ctx.defs@.len() + count_defs(file.items@, i as int),
                items_realized(
                    self.ctx,
                    file.items@,
                    i as int,
                    pre.ctx.records@.len(),
                    pre.ctx.defs@.len(),
                ),
                check_items(pre.gsig@, file.items@, 0) == check_items(
                    self.gsig@,
                    file.items@,
                    i as int,
                ),
            decreases n - i,
        {
            let ghost at_loop = *self;
            match &file.items[i].kind {
                ast::ItemKind::Record(record) => {
                    proof {
                        lemma_max_fields_bound(file.items@, i as int);
                        assert(file.items@[i as int].kind matches ast::ItemKind::Record(r2)
                            && r2 == *record);
                    }
                    match self.lower_record(record) {
                        Err(e) => {
                            proof {
                                crate::context::lemma_ctx_extends_trans(
                                    self.ctx,
                                    at_loop.ctx,
                                    pre.ctx,
                                );
                                assert(check_items(at_loop.gsig@, file.items@, i as int) == Some(
                                    e,
                                ));
                            }
                            return Err(e);
                        },
                        Ok(rid) => {
                            proof {
                                crate::context::lemma_ctx_extends_trans(
                                    self.ctx,
                                    at_loop.ctx,
                                    pre.ctx,
                                );
                                assert(self.gsig@ == genv_insert(
                                    at_loop.gsig@,
                                    file.items@[i as int],
                                ));
                                lemma_items_realized_step(
                                    at_loop.ctx,
                                    self.ctx,
                                    file.items@,
                                    i as int,
                                    pre.ctx.records@.len(),
                                    pre.ctx.defs@.len(),
                                );
                                assert(rid.raw == pre.ctx.records@.len() + count_records(
                                    file.items@,
                                    i as int,
                                ));
                                assert(record_matches(
                                    self.ctx,
                                    hir::RecordId {
                                        raw: (pre.ctx.records@.len() + count_records(
                                            file.items@,
                                            i as int,
                                        )) as u32,
                                    },
                                    record_sig(*record),
                                ));
                            }
                            i = i + 1;
                        },
                    }
                },
                ast::ItemKind::Def(def) => {
                    proof {
                        assert(file.items@[i as int].kind matches ast::ItemKind::Def(d2) && d2
                            == *def);
                    }
                    match self.lower_definition(def) {
                        Err(e) => {
                            proof {
                                crate::context::lemma_ctx_extends_trans(
                                    self.ctx,
                                    at_loop.ctx,
                                    pre.ctx,
                                );
                                assert(check_items(at_loop.gsig@, file.items@, i as int) == Some(
                                    e,
                                ));
                            }
                            return Err(e);
                        },
                        Ok(did) => {
                            proof {
                                crate::context::lemma_ctx_extends_trans(
                                    self.ctx,
                                    at_loop.ctx,
                                    pre.ctx,
                                );
                                assert(self.gsig@ == genv_insert(
                                    at_loop.gsig@,
                                    file.items@[i as int],
                                ));
                                lemma_items_realized_step(
                                    at_loop.ctx,
                                    self.ctx,
                                    file.items@,
                                    i as int,
                                    pre.ctx.records@.len(),
                                    pre.ctx.defs@.len(),
                                );
                                assert(did.raw == pre.ctx.defs@.len() + count_defs(
                                    file.items@,
                                    i as int,
                                ));
                                assert(def_matches(
                                    self.ctx,
                                    hir::DefId {
                                        raw: (pre.ctx.defs@.len() + count_defs(
                                            file.items@,
                                            i as int,
                                        )) as u32,
                                    },
                                    def_sig(*def),
                                ));
                            }
                            i = i + 1;
                        },
                    }
                },
            }
        }
        Ok(())
    }
}

/// Turns a syntax tree into a fully populated context, or fails with the
/// first semantic error of the file, exactly as [`crate::sem::check_file`]
/// defines it.
///
/// The preconditions are the machine limits of the representation: handles
/// are 32 bits wide, so the file's allocation weight must fit below the
/// handle space, and parameter ordinals are 16 bits wide, so no record or
/// definition may declare more parameters than they can number.
#[verifier::spinoff_prover]
pub fn lower_ast(file: &ast::File) -> (r: Result<Context, LowerError>)
    requires
        weight_file(*file) < u32::MAX,
        params_bounded(*file),
    ensures
        match r {
            Ok(ctx) => {
                &&& check_file(*file) is None
                &&& ctx.records@.len() == count_records(file.items@, file.items@.len() as int)
                &&& ctx.defs@.len() == count_defs(file.items@, file.items@.len() as int)
                &&& items_realized(ctx, file.items@, file.items@.len() as int, 0, 0)
                &&& exists|gm: Map<u32, Global>|
                    ctx_realizes(
                        ctx,
                        genv_after(Map::empty(), file.items@, file.items@.len() as int),
                        gm,
                    )
            },
            Err(e) => check_file(*file) == Some(e),
        },
{
    let mut lowering = LoweringContext {
        ctx: Context::new(),
        globals: HashMap::new(),
        scopes: Vec::new(),
        gsig: Ghost(Map::empty()),
        senv: Ghost(Seq::empty()),
        budget: Ghost(weight_file(*file)),
        fmax: Ghost(max_fields(file.items@)),
    };
    proof {
        assert(lowering.globals@.dom() =~= lowering.gsig@.dom());
        assert(lowering.wf());
    }
    match lowering.lower_file(file) {
        Ok(_) => {
            proof {
                assert(check_file(*file) is None);
                assert(lowering.ctx.records@.len() == count_records(
                    file.items@,
                    file.items@.len() as int,
                ));
                assert(lowering.ctx.defs@.len() == count_defs(
                    file.items@,
                    file.items@.len() as int,
                ));
                assert(ctx_realizes(
                    lowering.ctx,
                    genv_after(Map::empty(), file.items@, file.items@.len() as int),
                    lowering.globals@,
                ));
                assert(exists|gm: Map<u32, Global>|
                    ctx_realizes(
                        lowering.ctx,
                        genv_after(Map::empty(), file.items@, file.items@.len() as int),
                        gm,
                    ));
            }
            Ok(lowering.ctx)
        },
        Err(e) => {
            proof {
                assert(check_file(*file) == Some(e));
            }
            Err(e)
        },
    }
}

impl LoweringContext {
    /// Allocates one generic-parameter local per identifier, ordinal-tagged
    /// in declaration order, and returns the position of the first.
    fn alloc_generic_locals(&mut self, ids: &Vec<ast::Id>) -> (start: usize)
        requires
            old(self).wf(),
            old(self).budget@ >= ids@.len(),
            ids@.len() <= u16::MAX,
        ensures
            final(self).wf(),
            ctx_extends(final(self).ctx, old(self).ctx),
            final(self).ctx.records@ == old(self).ctx.records@,
            final(self).ctx.fields@ == old(self).ctx.fields@,
            final(self).ctx.defs@ == old(self).ctx.defs@,
            final(self).ctx.params@ == old(self).ctx.params@,
            final(self).globals@ == old(self).globals@,
            final(self).gsig == old(self).gsig,
            final(self).scopes@ == old(self).scopes@,
            final(self).senv == old(self).senv,
            final(self).fmax == old(self).fmax,
            start == old(self).ctx.locals@.len(),
            final(self).ctx.locals@.len() == start + ids@.len(),
            final(self).ctx.lists@ == old(self).ctx.lists@,
            final(self).budget@ + ids@.len() == old(self).budget@,
            forall|k: int|
                0 <= k < ids@.len() ==> (#[trigger] final(self).ctx.locals@[start + k]).name
                    == ids@[k] && final(self).ctx.locals@[start + k].kind
                    == hir::LocalKind::GenericParam(k as u16),
    {
        let ghost pre = *self;
        let n = ids.len();
        let start = self.ctx.locals.len();
        let mut i: usize = 0;
        while i < n
            invariant
                self.wf(),
                ctx_extends(self.ctx, pre.ctx),
                self.ctx.records@ == pre.ctx.records@,
                self.ctx.fields@ == pre.ctx.fields@,
                self.ctx.defs@ == pre.ctx.defs@,
                self.ctx.params@ == pre.ctx.params@,
                self.globals@ == pre.globals@,
                self.gsig == pre.gsig,
                self.scopes@ == pre.scopes@,
                self.senv == pre.senv,
                self.fmax == pre.fmax,
                i <= n,
                n == ids@.len(),
                n <= u16::MAX,
                start == pre.ctx.locals@.len(),
                self.ctx.locals@.len() == start + i,
                self.ctx.lists@ == pre.ctx.lists@,
                self.budget@ + i == pre.budget@,
                pre.budget@ >= n,
                forall|k: int|
                    0 <= k < i ==> (#[trigger] self.ctx.locals@[start + k]).name == ids@[k]
                        && self.ctx.locals@[start + k].kind == hir::LocalKind::GenericParam(
                        k as u16,
                    ),
            decreases n - i,
        {
            let ghost s1 = *self;
            let _ = self.ctx.add_local(
                hir::Local { kind: hir::LocalKind::GenericParam(i as u16), name: ids[i] },
            );
            self.budget = Ghost((self.budget@ - 1) as nat);
            proof {
                LoweringContext::lemma_wf_preserved(s1, *self);
            }
            i = i + 1;
        }
        start
    }

    /// Allocates one value-parameter local per parameter, ordinal-tagged in
    /// declaration order, and returns the position of the first.
    fn alloc_param_locals(&mut self, inputs: &Vec<ast::Parameter>) -> (start: usize)
        requires
            old(self).wf(),
            old(self).budget@ >= inputs@.len(),
            inputs@.len() <= u16::MAX,
        ensures
            final(self).wf(),
            ctx_extends(final(self).ctx, old(self).ctx),
            final(self).ctx.records@ == old(self).ctx.records@,
            final(self).ctx.fields@ == old(self).ctx.fields@,
            final(self).ctx.defs@ == old(self).ctx.defs@,
            final(self).ctx.params@ == old(self).ctx.params@,
            final(self).globals@ == old(self).globals@,
            final(self).gsig == old(self).gsig,
            final(self).scopes@ == old(self).scopes@,
            final(self).senv == old(self).senv,
            final(self).fmax == old(self).fmax,
            start == old(self).ctx.locals@.len(),
            final(self).ctx.locals@.len() == start + inputs@.len(),
            final(self).ctx.lists@ == old(self).ctx.lists@,
            final(self).budget@ + inputs@.len() == old(self).budget@,
            forall|k: int|
                0 <= k < inputs@.len() ==> (#[trigger] final(self).ctx.locals@[start + k]).name
                    == inputs@[k].name && final(self).ctx.locals@[start + k].kind
                    == hir::LocalKind::Param(k as u16),
    {
        let ghost pre = *self;
        let n = inputs.len();
        let start = self.ctx.locals.len();
        let mut i: usize = 0;
        while i < n
            invariant
                self.wf(),
                ctx_extends(self.ctx, pre.ctx),
                self.ctx.records@ == pre.ctx.records@,
                self.ctx.fields@ == pre.ctx.fields@,
                self.ctx.defs@ == pre.ctx.defs@,
                self.ctx.params@ == pre.ctx.params@,
                self.globals@ == pre.globals@,
                self.gsig == pre.gsig,
                self.scopes@ == pre.scopes@,
                self.senv == pre.senv,
                self.fmax == pre.fmax,
                i <= n,
                n == inputs@.len(),
                n <= u16::MAX,
                start == pre.ctx.locals@.len(),
                self.ctx.locals@.len() == start + i,
                self.ctx.lists@ == pre.ctx.lists@,
                self.budget@ + i == pre.budget@,
                pre.budget@ >= n,
                forall|k: int|
                    0 <= k < i ==> (#[trigger] self.ctx.locals@[start + k]).name == inputs@[
                        k
                    ].name && self.ctx.locals@[start + k].kind == hir::LocalKind::Param(k as u16),
            decreases n - i,
        {
            let ghost s1 = *self;
            let _ = self.ctx.add_local(
                hir::Local { kind: hir::LocalKind::Param(i as u16), name: inputs[i].name },
            );
            self.budget = Ghost((self.budget@ - 1) as nat);
            proof {
                LoweringContext::lemma_wf_preserved(s1, *self);
            }
            i = i + 1;
        }
        start
    }

    /// Builds the generic-parameter scope: one entry per identifier, bound
    /// to its pre-allocated local, failing fast on the first duplicate name.
    #[verifier::loop_isolation(false)]
    fn build_generic_scope(&self, ids: &Vec<ast::Id>, lstart: usize) -> (r: Result<
        (HashMap<u32, hir::LocalId>, Ghost<Map<u32, ScopeEntry>>),
        LowerError,
    >)
        requires
            self.wf(),
            lstart + ids@.len() <= self.ctx.locals@.len(),
            self.ctx.locals@.len() < u32::MAX,
            forall|k: int|
                0 <= k < ids@.len() ==> (#[trigger] self.ctx.locals@[lstart + k]).name == ids@[k]
                    && (self.ctx.locals@[lstart + k].kind matches hir::LocalKind::GenericParam(
                    _,
                )),
        ensures
            match r {
                Ok(pair) => {
                    &&& first_dup(ids@, 0) is None
                    &&& pair.0@.dom() =~= pair.1@.dom()
                    &&& pair.1@ == param_scope(ids@, EntryKind::Generic)
                    &&& forall|sym: u32|
                        #[trigger] pair.1@.contains_key(sym) ==> entry_matches(
                            self.ctx,
                            pair.0@[sym],
                            pair.1@[sym],
                        )
                    &&& forall|sym: u32|
                        #[trigger] pair.1@.contains_key(sym) ==> pair.1@[sym].kind
                            == EntryKind::Generic && pair.1@[sym].id.symbol.id == sym
                },
                Err(e) => match first_dup(ids@, 0) {
                    Some(i) => e == LowerError::ReusedParameter(
                        ReusedParameter { second: ids@[i] },
                    ),
                    None => false,
                },
            },
    {
        let n = ids.len();
        let mut scope: HashMap<u32, hir::LocalId> = HashMap::new();
        let ghost mut gscope: Map<u32, ScopeEntry> = Map::empty();
        let mut i: usize = 0;
        while i < n
            invariant
                i <= n,
                scope@.dom() =~= gscope.dom(),
                gscope == param_scope(ids@.take(i as int), EntryKind::Generic),
                forall|sym: u32|
                    #[trigger] scope@.contains_key(sym) <==> sym_in(ids@, i as int, sym),
                forall|sym: u32|
                    #[trigger] gscope.contains_key(sym) ==> entry_matches(
                        self.ctx,
                        scope@[sym],
                        gscope[sym],
                    ),
                forall|sym: u32|
                    #[trigger] gscope.contains_key(sym) ==> gscope[sym].kind
                        == EntryKind::Generic && gscope[sym].id.symbol.id == sym,
                first_dup(ids@, 0) == first_dup(ids@, i as int),
            decreases n - i,
        {
            let id = ids[i];
            let sym = id.symbol.id;
            let lid = hir::LocalId { raw: (lstart + i) as u32 };
            let prev = scope.insert(sym, lid);
            proof {
                gscope = gscope.insert(sym, ScopeEntry { kind: EntryKind::Generic, id });
                assert(ids@.take(i as int + 1).drop_last() =~= ids@.take(i as int));
                assert(ids@.take(i as int + 1).last() == ids@[i as int]);
            }
            if prev.is_some() {
                proof {
                    assert(sym_in(ids@, i as int, sym));
                    assert(first_dup(ids@, i as int) == Some(i as int));
                }
                return Err(LowerError::ReusedParameter(ReusedParameter { second: id }));
            }
            proof {
                assert(!sym_in(ids@, i as int, sym));
                assert forall|s2: u32| #[trigger] scope@.contains_key(s2) implies sym_in(
                    ids@,
                    i as int + 1,
                    s2,
                ) by {
                    if s2 != sym {
                        assert(sym_in(ids@, i as int, s2));
                    } else {
                        assert(ids@[i as int].symbol.id == sym);
                    }
                }
                assert forall|s2: u32| sym_in(ids@, i as int + 1, s2) implies
                    scope@.contains_key(s2) by {
                    if s2 != sym {
                        let j = choose|j: int| 0 <= j < i as int + 1 && ids@[j].symbol.id == s2;
                        assert(j < i as int);
                        assert(sym_in(ids@, i as int, s2));
                    }
                }
            }
            i = i + 1;
        }
        proof {
            assert(ids@.take(n as int) =~= ids@);
            assert(ids@.take(n as int) == ids@);
            assert(gscope == param_scope(ids@, EntryKind::Generic));
            assert(first_dup(ids@, 0) is None);
        }
        Ok((scope, Ghost(gscope)))
    }
}

impl LoweringContext {
    /// Processes a definition's value parameters, in order: lowers each
    /// parameter's type in the scope holding the generics and the parameters
    /// before it, then binds the parameter's name, rejecting a name that
    /// shadows a generic or reuses an earlier parameter.
    #[verifier::loop_isolation(false)]
    #[verifier::rlimit(100)]
    #[verifier::spinoff_prover]
    fn lower_def_params(
        &mut self,
        inputs: &Vec<ast::Parameter>,
        lstart_p: usize,
        Ghost(s0): Ghost<SEnv>,
    ) -> (r: Result<(), LowerError>)
        requires
            old(self).wf(),
            old(self).senv@ == s0,
            s0.len() == 1,
            old(self).budget@ >= weight_params(old(self).fmax@, inputs@, 0),
            lstart_p + inputs@.len() <= old(self).ctx.locals@.len(),
            forall|k: int|
                0 <= k < inputs@.len() ==> (#[trigger] old(self).ctx.locals@[lstart_p + k]).name
                    == inputs@[k].name && (old(self).ctx.locals@[lstart_p + k].kind matches
                hir::LocalKind::Param(_)),
            forall|sym: u32|
                #[trigger] s0[0].contains_key(sym) ==> s0[0][sym].kind != EntryKind::Binding,
        ensures
            final(self).wf(),
            ctx_extends(final(self).ctx, old(self).ctx),
            final(self).ctx.records@ == old(self).ctx.records@,
            final(self).ctx.fields@ == old(self).ctx.fields@,
            final(self).ctx.defs@ == old(self).ctx.defs@,
            final(self).ctx.locals@ == old(self).ctx.locals@,
            final(self).globals@ == old(self).globals@,
            final(self).gsig == old(self).gsig,
            final(self).scopes@.len() == 1,
            final(self).senv@.len() == 1,
            final(self).fmax == old(self).fmax,
            final(self).budget@ <= old(self).budget@,
            final(self).budget@ + weight_params(old(self).fmax@, inputs@, 0) >= old(self).budget@,
            match r {
                Ok(_) => {
                    &&& check_def_params(old(self).gsig@, s0, inputs@, 0) == (
                        None::<LowerError>,
                        final(self).senv@,
                    )
                    &&& final(self).ctx.params@.len() == old(self).ctx.params@.len()
                        + inputs@.len()
                    &&& params_nodes_lowered(
                        final(self).ctx,
                        old(self).ctx.lists@.len() as int,
                        old(self).globals@,
                        inputs@,
                        old(self).ctx.params@.len() as int,
                        lstart_p as int,
                    )
                },
                Err(e) => check_def_params(old(self).gsig@, s0, inputs@, 0).0 == Some(e),
            },
    {
        let ghost scoped = *self;
        let ghost pre = *self;
        let ghost m = self.fmax@;
        let ghost m0 = pre.ctx.lists@.len() as int;
        let plen = inputs.len();
        let pstart = self.ctx.params.len();
        let mut i: usize = 0;
        while i < plen
            invariant
                self.wf(),
                ctx_extends(self.ctx, scoped.ctx),
                self.ctx.records@ == scoped.ctx.records@,
                self.ctx.fields@ == scoped.ctx.fields@,
                self.ctx.defs@ == scoped.ctx.defs@,
                self.ctx.locals@ == scoped.ctx.locals@,
                self.globals@ == scoped.globals@,
                self.gsig == scoped.gsig,
                self.scopes@.len() == 1,
                self.senv@.len() == 1,
                self.fmax == scoped.fmax,
                i <= plen,
                plen == inputs@.len(),
                self.ctx.params@.len() == pstart + i,
                forall|k: int|
                    0 <= k < i ==> {
                        let pnode = (#[trigger] self.ctx.params@[pstart + k]);
                        &&& pnode.local.raw == lstart_p + k
                        &&& pnode.span == inputs@[k].span
                        &&& type_lowered(self.ctx, m0, pre.globals@, inputs@[k].ty, pnode.ty)
                    },
                self.budget@ >= weight_params(m, inputs@, i as int),
                self.budget@ + weight_params(m, inputs@, 0) >= pre.budget@ + weight_params(
                    m,
                    inputs@,
                    i as int,
                ),
                self.budget@ <= pre.budget@,
                check_def_params(pre.gsig@, s0, inputs@, 0) == check_def_params(
                    pre.gsig@,
                    self.senv@,
                    inputs@,
                    i as int,
                ),
                forall|sym: u32|
                    #[trigger] self.senv@[0].contains_key(sym) ==> self.senv@[0][sym].kind
                        != EntryKind::Binding,
            decreases plen - i,
        {
            let ghost at_loop = *self;
            let local = hir::LocalId { raw: (lstart_p + i) as u32 };
            proof {
                assert(at_loop.ctx.locals@[local.raw as int].name == inputs@[
                    i as int
                ].name);
            }
            match self.lower_parameter(&inputs[i], local) {
                Err(e) => {
                    proof {
                        crate::context::lemma_ctx_extends_trans(
                            self.ctx,
                            at_loop.ctx,
                            scoped.ctx,
                        );
                        crate::context::lemma_ctx_extends_trans(self.ctx, scoped.ctx, pre.ctx);
                        assert(check_def_params(pre.gsig@, s0, inputs@, 0).0 == Some(e));
                    }
                    return Err(e);
                },
                Ok(_) => {
                    let sym = inputs[i].name.symbol.id;
                    let ghost cur_env = self.senv@;
                    let ghost s2 = *self;
                    let mut top = self.scopes.pop().unwrap();
                    let prev = top.insert(sym, local);
                    self.scopes.push(top);
                    match prev {
                        Some(prev_lid) => {
                            proof {
                                assert(s2.senv@[0].contains_key(sym));
                                assert(entry_matches(s2.ctx, prev_lid, s2.senv@[0][sym]));
                            }
                            let ghost entry = ScopeEntry {
                                kind: EntryKind::Value,
                                id: inputs@[i as int].name,
                            };
                            self.senv = Ghost(scope_insert(s2.senv@, sym, entry));
                            proof {
                                let post = *self;
                                assert forall|lvl: int| 0 <= lvl < post.senv@.len() implies
                                    scope_matches(
                                    post.ctx,
                                    (#[trigger] post.scopes@[lvl])@,
                                    post.senv@[lvl],
                                ) by {
                                    assert(lvl == 0);
                                    assert(post.scopes@[lvl]@ == s2.scopes@[0]@.insert(
                                        sym,
                                        local,
                                    ));
                                    assert(post.senv@[lvl] == s2.senv@[0].insert(sym, entry));
                                    assert(scope_matches(s2.ctx, s2.scopes@[0]@, s2.senv@[0]));
                                    assert(entry_matches(post.ctx, local, entry));
                                }
                                assert(self.wf());
                                crate::context::lemma_ctx_extends_trans(
                                    self.ctx,
                                    at_loop.ctx,
                                    scoped.ctx,
                                );
                                crate::context::lemma_ctx_extends_trans(
                                    self.ctx,
                                    scoped.ctx,
                                    pre.ctx,
                                );
                            }
                            let prev_local = self.ctx.local(prev_lid);
                            match prev_local.kind {
                                hir::LocalKind::GenericParam(_) => {
                                    proof {
                                        assert(cur_env[0][sym].kind == EntryKind::Generic);
                                        assert(prev_local.name == cur_env[0][sym].id);
                                        assert(check_def_params(
                                            pre.gsig@,
                                            cur_env,
                                            inputs@,
                                            i as int,
                                        ).0 == Some(
                                            LowerError::ShadowedGeneric(
                                                ShadowedGeneric {
                                                    first: cur_env[0][sym].id,
                                                    second: inputs@[i as int].name,
                                                },
                                            ),
                                        ));
                                    }
                                    return Err(
                                        LowerError::ShadowedGeneric(
                                            ShadowedGeneric {
                                                first: prev_local.name,
                                                second: inputs[i].name,
                                            },
                                        ),
                                    );
                                },
                                hir::LocalKind::Param(_) => {
                                    proof {
                                        assert(cur_env[0][sym].kind == EntryKind::Value);
                                    }
                                    return Err(
                                        LowerError::ReusedParameter(
                                            ReusedParameter { second: inputs[i].name },
                                        ),
                                    );
                                },
                                hir::LocalKind::Let(_) => {
                                    proof {
                                        assert(cur_env[0][sym].kind == EntryKind::Binding);
                                        assert(false);
                                    }
                                    return Err(
                                        LowerError::ReusedParameter(
                                            ReusedParameter { second: inputs[i].name },
                                        ),
                                    );
                                },
                            }
                        },
                        None => {
                            let ghost entry = ScopeEntry {
                                kind: EntryKind::Value,
                                id: inputs@[i as int].name,
                            };
                            self.senv = Ghost(scope_insert(s2.senv@, sym, entry));
                            proof {
                                lemma_prefix_lists_preserved(at_loop.ctx, self.ctx, m0);
                                assert forall|k: int| 0 <= k < i + 1 implies {
                                    let pnode = (#[trigger] self.ctx.params@[pstart + k]);
                                    &&& pnode.local.raw == lstart_p + k
                                    &&& pnode.span == inputs@[k].span
                                    &&& type_lowered(
                                        self.ctx,
                                        m0,
                                        pre.globals@,
                                        inputs@[k].ty,
                                        pnode.ty,
                                    )
                                } by {
                                    if k < i {
                                        crate::arena::lemma_pushed_value_persists(
                                            at_loop.ctx.params@,
                                            self.ctx.params@,
                                            pstart + k,
                                        );
                                        lemma_type_lowered_mono(
                                            at_loop.ctx,
                                            self.ctx,
                                            m0,
                                            m0,
                                            pre.globals@,
                                            inputs@[k].ty,
                                            at_loop.ctx.params@[pstart + k].ty,
                                        );
                                    } else {
                                        lemma_type_lowered_mono(
                                            self.ctx,
                                            self.ctx,
                                            at_loop.ctx.lists@.len() as int,
                                            m0,
                                            pre.globals@,
                                            inputs@[k].ty,
                                            self.ctx.params@[pstart + k].ty,
                                        );
                                    }
                                }
                                let post = *self;
                                assert(!s2.senv@[0].contains_key(sym));
                                assert forall|lvl: int| 0 <= lvl < post.senv@.len() implies
                                    scope_matches(
                                    post.ctx,
                                    (#[trigger] post.scopes@[lvl])@,
                                    post.senv@[lvl],
                                ) by {
                                    assert(lvl == 0);
                                    assert(post.scopes@[lvl]@ == s2.scopes@[0]@.insert(
                                        sym,
                                        local,
                                    ));
                                    assert(post.senv@[lvl] == s2.senv@[0].insert(sym, entry));
                                    assert(scope_matches(s2.ctx, s2.scopes@[0]@, s2.senv@[0]));
                                    assert(entry_matches(post.ctx, local, entry));
                                }
                                assert(self.wf());
                                crate::context::lemma_ctx_extends_trans(
                                    self.ctx,
                                    at_loop.ctx,
                                    scoped.ctx,
                                );
                                assert(check_def_params(
                                    pre.gsig@,
                                    cur_env,
                                    inputs@,
                                    i as int,
                                ) == check_def_params(
                                    pre.gsig@,
                                    self.senv@,
                                    inputs@,
                                    i as int + 1,
                                ));
                            }
                            i = i + 1;
                        },
                    }
                },
            }
        }

        proof {
            assert(check_def_params(pre.gsig@, s0, inputs@, 0) == (
                None::<LowerError>,
                self.senv@,
            ));
            reveal(params_nodes_lowered);
            assert(params_nodes_lowered(
                self.ctx,
                m0,
                pre.globals@,
                inputs@,
                pstart as int,
                lstart_p as int,
            ));
        }
        Ok(())
    }
}

// ---------------------------------------------------------------------------
// What a lowered node looks like.
//
// These relations say that an IR node mirrors the syntax node it came from:
// same span, the matching constructor, children recursively lowered, names
// resolved through the global table. Each carries a threshold `m`: every
// handle list the relation reads lies at side-table position `m` or above,
// so the relation survives both growing the context and the pass's
// positional writes below the threshold.

/// Whether `c2`'s side table keeps every slot of `c1` from position `m` on.
pub open spec fn lists_preserved(c1: Context, c2: Context, m: int) -> bool {
    &&& c1.lists@.len() <= c2.lists@.len()
    &&& forall|p: int|
        0 <= p && m <= p < c1.lists@.len() ==> c1.lists@[p] == (#[trigger] c2.lists@[p])
}

/// The declared field names of a record node, in declaration order.
pub open spec fn record_field_names(ctx: Context, rec: hir::Record) -> Seq<ast::Id> {
    Seq::new(
        (rec.fields.end - rec.fields.start) as nat,
        |k: int| ctx.fields@[rec.fields.start + k].name,
    )
}

/// Whether the expression node at `id` is the lowering of `e`: it carries
/// `e`'s span and the matching constructor, an identifier points at a local
/// of that name, a literal is copied through, and children are recursively
/// lowered.
pub open spec fn expr_lowered(
    ctx: Context,
    m: int,
    gm: Map<u32, Global>,
    e: ast::Expression,
    id: hir::ExprId,
) -> bool
    decreases e,
{
    &&& id.raw < ctx.exprs@.len()
    &&& ctx.exprs@[id.raw as int].span == e.span
    &&& match (e.kind, ctx.exprs@[id.raw as int].kind) {
        (ast::ExprKind::Id(name), hir::ExprKind::Id(local)) => {
            &&& local.raw < ctx.locals@.len()
            &&& ctx.locals@[local.raw as int].name.symbol == name.symbol
        },
        (ast::ExprKind::Lit(l1), hir::ExprKind::Lit(l2)) => l1 == l2,
        (ast::ExprKind::Field(sub, n1), hir::ExprKind::Field(sid, n2)) => n1 == n2
            && expr_lowered(ctx, m, gm, *sub, sid),
        (ast::ExprKind::Unary(op1, sub), hir::ExprKind::Unary(op2, sid)) => op1 == op2
            && expr_lowered(ctx, m, gm, *sub, sid),
        (ast::ExprKind::Binary(op1, l, r), hir::ExprKind::Binary(op2, lid, rid)) => op1 == op2
            && expr_lowered(ctx, m, gm, *l, lid) && expr_lowered(ctx, m, gm, *r, rid),
        (ast::ExprKind::Call(c), hir::ExprKind::Call(h)) => call_lowered(ctx, m, gm, *c, h),
        (ast::ExprKind::Record(c), hir::ExprKind::Record(h)) => ctor_lowered(ctx, m, gm, *c, h),
        _ => false,
    }
}

/// Whether the list `l` holds, slot by slot and in source order, the
/// lowerings of the expressions `es`.
pub open spec fn expr_list_lowered(
    ctx: Context,
    m: int,
    gm: Map<u32, Global>,
    es: Seq<ast::Expression>,
    l: hir::ExprList,
) -> bool
    decreases es,
{
    &&& m <= l.start
    &&& l.start <= l.end
    &&& l.end <= ctx.lists@.len()
    &&& l.end - l.start == es.len()
    &&& forall|i: int|
        0 <= i < es.len() ==> expr_lowered(
            ctx,
            m,
            gm,
            es[i],
            hir::ExprId { raw: (#[trigger] ctx.lists@[l.start + i]) },
        )
}

/// Whether `h` is the lowering of the call `c`: same callee name, the
/// callee handle is what the global table maps the name to, and both
/// argument lists hold the lowered arguments in source order.
pub open spec fn call_lowered(
    ctx: Context,
    m: int,
    gm: Map<u32, Global>,
    c: ast::Call,
    h: hir::Call,
) -> bool
    decreases c,
{
    &&& h.name == c.name
    &&& gm.contains_key(c.name.symbol.id)
    &&& gm[c.name.symbol.id] == Global::Def(h.callee)
    &&& expr_list_lowered(ctx, m, gm, c.generics@, h.generics)
    &&& expr_list_lowered(ctx, m, gm, c.args@, h.args)
}

/// Whether one written initializer landed in its slot: the slot at the
/// field's position in declaration order holds the lowered right-hand side.
pub open spec fn init_slot_lowered(
    ctx: Context,
    m: int,
    gm: Map<u32, Global>,
    rec: hir::Record,
    inits: hir::ExprList,
    a: ast::Assignment,
) -> bool
    decreases a,
{
    match first_field_match(
        record_field_names(ctx, rec),
        record_field_names(ctx, rec).len() as int,
        a.lhs.symbol.id,
        0,
    ) {
        Some(p) => expr_lowered(
            ctx,
            m,
            gm,
            a.rhs,
            hir::ExprId { raw: ctx.lists@[inits.start + p] },
        ),
        None => false,
    }
}

/// Whether `h` is the lowering of the construction `c`: the record handle
/// is what the global table maps the name to, the generic arguments are
/// lowered in order, and the initializer list has exactly one slot per
/// declared field, each written initializer landing at its field's position.
pub open spec fn ctor_lowered(
    ctx: Context,
    m: int,
    gm: Map<u32, Global>,
    c: ast::Constructor,
    h: hir::Constructor,
) -> bool
    decreases c,
{
    &&& h.name == c.name
    &&& gm.contains_key(c.name.symbol.id)
    &&& gm[c.name.symbol.id] == Global::Record(h.record)
    &&& expr_list_lowered(ctx, m, gm, c.generics@, h.generics)
    &&& h.record.raw < ctx.records@.len()
    &&& {
        let rec = ctx.records@[h.record.raw as int];
        &&& m <= h.inits.start
        &&& h.inits.start <= h.inits.end
        &&& h.inits.end <= ctx.lists@.len()
        &&& rec.fields.start <= rec.fields.end
        &&& rec.fields.end <= ctx.fields@.len()
        &&& h.inits.end - h.inits.start == rec.fields.end - rec.fields.start
        &&& forall|j: int|
            0 <= j < c.fields@.len() ==> init_slot_lowered(
                ctx,
                m,
                gm,
                rec,
                h.inits,
                #[trigger] c.fields@[j],
            )
    }
}

/// Whether the type node at `id` is the lowering of `t`: it carries `t`'s
/// name and span, its resolved declaration is what the global table maps
/// the name to, and its arguments are lowered in order.
pub open spec fn type_lowered(
    ctx: Context,
    m: int,
    gm: Map<u32, Global>,
    t: ast::Type,
    id: hir::TypeId,
) -> bool
    decreases t,
{
    &&& id.raw < ctx.types@.len()
    &&& {
        let node = ctx.types@[id.raw as int];
        &&& node.name == t.name
        &&& node.span == t.span
        &&& gm.contains_key(t.name.symbol.id)
        &&& gm[t.name.symbol.id] == Global::Record(node.decl)
        &&& expr_list_lowered(ctx, m, gm, t.args@, node.args)
    }
}

/// Whether the statement node at `id` is the lowering of `st`: an
/// assignment holds a fresh let-bound local of the assigned name backed by
/// the lowered right-hand side, a return holds its lowered expression, and
/// an unsafe block holds its lowered statement list.
pub open spec fn stmt_lowered(
    ctx: Context,
    m: int,
    gm: Map<u32, Global>,
    st: ast::Statement,
    id: hir::StmtId,
) -> bool
    decreases st,
{
    &&& id.raw < ctx.stmts@.len()
    &&& match (st.kind, ctx.stmts@[id.raw as int].kind) {
        (ast::StmtKind::Assign(assn), hir::StmtKind::Assign(lid, eid)) => {
            &&& expr_lowered(ctx, m, gm, assn.rhs, eid)
            &&& lid.raw < ctx.locals@.len()
            &&& ctx.locals@[lid.raw as int].name == assn.lhs
            &&& ctx.locals@[lid.raw as int].kind == hir::LocalKind::Let(eid)
        },
        (ast::StmtKind::Return(e), hir::StmtKind::Return(eid)) => expr_lowered(ctx, m, gm, e, eid),
        (ast::StmtKind::Unsafe(block), hir::StmtKind::Unsafe(list)) => stmt_list_lowered(
            ctx,
            m,
            gm,
            block.0@,
            list,
        ),
        _ => false,
    }
}

/// Whether the list `l` holds, slot by slot and in source order, the
/// lowerings of the statements `stmts`.
pub open spec fn stmt_list_lowered(
    ctx: Context,
    m: int,
    gm: Map<u32, Global>,
    stmts: Seq<ast::Statement>,
    l: hir::StmtList,
) -> bool
    decreases stmts,
{
    &&& m <= l.start
    &&& l.start <= l.end
    &&& l.end <= ctx.lists@.len()
    &&& l.end - l.start == stmts.len()
    &&& forall|i: int|
        0 <= i < stmts.len() ==> stmt_lowered(
            ctx,
            m,
            gm,
            stmts[i],
            hir::StmtId { raw: (#[trigger] ctx.lists@[l.start + i]) },
        )
}

/// A lowered expression stays lowered when the context grows: nodes only
/// append, and the side table keeps every slot from the threshold on. The
/// threshold may also be lowered.
pub proof fn lemma_expr_lowered_mono(
    c1: Context,
    c2: Context,
    m1: int,
    m2: int,
    gm: Map<u32, Global>,
    e: ast::Expression,
    id: hir::ExprId,
)
    requires
        expr_lowered(c1, m1, gm, e, id),
        m2 <= m1,
        nodes_extend(c2, c1),
        lists_preserved(c1, c2, m1),
    ensures
        expr_lowered(c2, m2, gm, e, id),
    decreases e,
{
    crate::arena::lemma_pushed_value_persists(c1.exprs@, c2.exprs@, id.raw as int);
    match (e.kind, c1.exprs@[id.raw as int].kind) {
        (ast::ExprKind::Id(_), hir::ExprKind::Id(local)) => {
            crate::arena::lemma_pushed_value_persists(c1.locals@, c2.locals@, local.raw as int);
        },
        (ast::ExprKind::Field(sub, _), hir::ExprKind::Field(sid, _)) => {
            lemma_expr_lowered_mono(c1, c2, m1, m2, gm, *sub, sid);
        },
        (ast::ExprKind::Unary(_, sub), hir::ExprKind::Unary(_, sid)) => {
            lemma_expr_lowered_mono(c1, c2, m1, m2, gm, *sub, sid);
        },
        (ast::ExprKind::Binary(_, l, r), hir::ExprKind::Binary(_, lid, rid)) => {
            lemma_expr_lowered_mono(c1, c2, m1, m2, gm, *l, lid);
            lemma_expr_lowered_mono(c1, c2, m1, m2, gm, *r, rid);
        },
        (ast::ExprKind::Call(c), hir::ExprKind::Call(h)) => {
            lemma_call_lowered_mono(c1, c2, m1, m2, gm, *c, h);
        },
        (ast::ExprKind::Record(c), hir::ExprKind::Record(h)) => {
            lemma_ctor_lowered_mono(c1, c2, m1, m2, gm, *c, h);
        },
        _ => {},
    }
}

/// A lowered expression list stays lowered when the context grows.
pub proof fn lemma_expr_list_lowered_mono(
    c1: Context,
    c2: Context,
    m1: int,
    m2: int,
    gm: Map<u32, Global>,
    es: Seq<ast::Expression>,
    l: hir::ExprList,
)
    requires
        expr_list_lowered(c1, m1, gm, es, l),
        m2 <= m1,
        nodes_extend(c2, c1),
        lists_preserved(c1, c2, m1),
    ensures
        expr_list_lowered(c2, m2, gm, es, l),
    decreases es,
{
    assert forall|i: int| 0 <= i < es.len() implies expr_lowered(
        c2,
        m2,
        gm,
        es[i],
        hir::ExprId { raw: (#[trigger] c2.lists@[l.start + i]) },
    ) by {
        assert(c2.lists@[l.start + i] == c1.lists@[l.start + i]);
        lemma_expr_lowered_mono(
            c1,
            c2,
            m1,
            m2,
            gm,
            es[i],
            hir::ExprId { raw: c1.lists@[l.start + i] },
        );
    }
}

/// A lowered call stays lowered when the context grows.
pub proof fn lemma_call_lowered_mono(
    c1: Context,
    c2: Context,
    m1: int,
    m2: int,
    gm: Map<u32, Global>,
    c: ast::Call,
    h: hir::Call,
)
    requires
        call_lowered(c1, m1, gm, c, h),
        m2 <= m1,
        nodes_extend(c2, c1),
        lists_preserved(c1, c2, m1),
    ensures
        call_lowered(c2, m2, gm, c, h),
    decreases c,
{
    lemma_expr_list_lowered_mono(c1, c2, m1, m2, gm, c.generics@, h.generics);
    lemma_expr_list_lowered_mono(c1, c2, m1, m2, gm, c.args@, h.args);
}

/// A lowered construction stays lowered when the context grows.
pub proof fn lemma_ctor_lowered_mono(
    c1: Context,
    c2: Context,
    m1: int,
    m2: int,
    gm: Map<u32, Global>,
    c: ast::Constructor,
    h: hir::Constructor,
)
    requires
        ctor_lowered(c1, m1, gm, c, h),
        m2 <= m1,
        nodes_extend(c2, c1),
        lists_preserved(c1, c2, m1),
    ensures
        ctor_lowered(c2, m2, gm, c, h),
    decreases c,
{
    lemma_expr_list_lowered_mono(c1, c2, m1, m2, gm, c.generics@, h.generics);
    crate::arena::lemma_pushed_value_persists(c1.records@, c2.records@, h.record.raw as int);
    let rec = c1.records@[h.record.raw as int];
    assert forall|k: int| 0 <= k < rec.fields.end - rec.fields.start implies (
    #[trigger] c2.fields@[rec.fields.start + k]) == c1.fields@[rec.fields.start + k] by {
        crate::arena::lemma_pushed_value_persists(c1.fields@, c2.fields@, rec.fields.start + k);
    }
    assert(record_field_names(c2, rec) =~= record_field_names(c1, rec));
    assert forall|j: int| 0 <= j < c.fields@.len() implies init_slot_lowered(
        c2,
        m2,
        gm,
        rec,
        h.inits,
        #[trigger] c.fields@[j],
    ) by {
        lemma_init_slot_lowered_mono(c1, c2, m1, m2, gm, rec, h.inits, c.fields@[j]);
    }
}

/// A written initializer's slot claim survives growing the context, as long
/// as the initializer list lies at or above the threshold.
pub proof fn lemma_init_slot_lowered_mono(
    c1: Context,
    c2: Context,
    m1: int,
    m2: int,
    gm: Map<u32, Global>,
    rec: hir::Record,
    inits: hir::ExprList,
    a: ast::Assignment,
)
    requires
        init_slot_lowered(c1, m1, gm, rec, inits, a),
        m2 <= m1,
        nodes_extend(c2, c1),
        lists_preserved(c1, c2, m1),
        m1 <= inits.start,
        inits.start <= inits.end,
        inits.end <= c1.lists@.len(),
        rec.fields.start <= rec.fields.end,
        rec.fields.end <= c1.fields@.len(),
        inits.end - inits.start == rec.fields.end - rec.fields.start,
    ensures
        init_slot_lowered(c2, m2, gm, rec, inits, a),
    decreases a,
{
    assert forall|k: int| 0 <= k < rec.fields.end - rec.fields.start implies (
    #[trigger] c2.fields@[rec.fields.start + k]) == c1.fields@[rec.fields.start + k] by {
        crate::arena::lemma_pushed_value_persists(c1.fields@, c2.fields@, rec.fields.start + k);
    }
    assert(record_field_names(c2, rec) =~= record_field_names(c1, rec));
    let names = record_field_names(c1, rec);
    match first_field_match(names, names.len() as int, a.lhs.symbol.id, 0) {
        Some(p) => {
            lemma_first_field_match_bounds(names, names.len() as int, a.lhs.symbol.id, 0);
            assert(c2.lists@[inits.start + p] == c1.lists@[inits.start + p]);
            lemma_expr_lowered_mono(
                c1,
                c2,
                m1,
                m2,
                gm,
                a.rhs,
                hir::ExprId { raw: c1.lists@[inits.start + p] },
            );
        },
        None => {},
    }
}

/// A found field position lies within the scanned range.
pub proof fn lemma_first_field_match_bounds(fields: Seq<ast::Id>, upto: int, sym: u32, j: int)
    ensures
        match first_field_match(fields, upto, sym, j) {
            Some(p) => j <= p < upto && p < fields.len(),
            None => true,
        },
    decreases upto - j,
{
    if !(j < 0 || j >= upto || j >= fields.len()) && fields[j].symbol.id != sym {
        lemma_first_field_match_bounds(fields, upto, sym, j + 1);
    }
}

/// A lowered type stays lowered when the context grows.
pub proof fn lemma_type_lowered_mono(
    c1: Context,
    c2: Context,
    m1: int,
    m2: int,
    gm: Map<u32, Global>,
    t: ast::Type,
    id: hir::TypeId,
)
    requires
        type_lowered(c1, m1, gm, t, id),
        m2 <= m1,
        nodes_extend(c2, c1),
        lists_preserved(c1, c2, m1),
    ensures
        type_lowered(c2, m2, gm, t, id),
    decreases t,
{
    crate::arena::lemma_pushed_value_persists(c1.types@, c2.types@, id.raw as int);
    lemma_expr_list_lowered_mono(
        c1,
        c2,
        m1,
        m2,
        gm,
        t.args@,
        c1.types@[id.raw as int].args,
    );
}

/// A lowered statement stays lowered when the context grows.
pub proof fn lemma_stmt_lowered_mono(
    c1: Context,
    c2: Context,
    m1: int,
    m2: int,
    gm: Map<u32, Global>,
    st: ast::Statement,
    id: hir::StmtId,
)
    requires
        stmt_lowered(c1, m1, gm, st, id),
        m2 <= m1,
        nodes_extend(c2, c1),
        lists_preserved(c1, c2, m1),
    ensures
        stmt_lowered(c2, m2, gm, st, id),
    decreases st,
{
    crate::arena::lemma_pushed_value_persists(c1.stmts@, c2.stmts@, id.raw as int);
    match (st.kind, c1.stmts@[id.raw as int].kind) {
        (ast::StmtKind::Assign(assn), hir::StmtKind::Assign(lid, eid)) => {
            crate::arena::lemma_pushed_value_persists(c1.locals@, c2.locals@, lid.raw as int);
            lemma_expr_lowered_mono(c1, c2, m1, m2, gm, assn.rhs, eid);
        },
        (ast::StmtKind::Return(e), hir::StmtKind::Return(eid)) => {
            lemma_expr_lowered_mono(c1, c2, m1, m2, gm, e, eid);
        },
        (ast::StmtKind::Unsafe(block), hir::StmtKind::Unsafe(list)) => {
            lemma_stmt_list_lowered_mono(c1, c2, m1, m2, gm, block.0@, list);
        },
        _ => {},
    }
}

/// A lowered statement list stays lowered when the context grows.
pub proof fn lemma_stmt_list_lowered_mono(
    c1: Context,
    c2: Context,
    m1: int,
    m2: int,
    gm: Map<u32, Global>,
    stmts: Seq<ast::Statement>,
    l: hir::StmtList,
)
    requires
        stmt_list_lowered(c1, m1, gm, stmts, l),
        m2 <= m1,
        nodes_extend(c2, c1),
        lists_preserved(c1, c2, m1),
    ensures
        stmt_list_lowered(c2, m2, gm, stmts, l),
    decreases stmts,
{
    assert forall|i: int| 0 <= i < stmts.len() implies stmt_lowered(
        c2,
        m2,
        gm,
        stmts[i],
        hir::StmtId { raw: (#[trigger] c2.lists@[l.start + i]) },
    ) by {
        assert(c2.lists@[l.start + i] == c1.lists@[l.start + i]);
        lemma_stmt_lowered_mono(
            c1,
            c2,
            m1,
            m2,
            gm,
            stmts[i],
            hir::StmtId { raw: c1.lists@[l.start + i] },
        );
    }
}

/// Appending to the side table preserves every slot, whatever the threshold.
pub proof fn lemma_prefix_lists_preserved(c1: Context, c2: Context, m: int)
    requires
        c1.lists@.is_prefix_of(c2.lists@),
    ensures
        lists_preserved(c1, c2, m),
{
    assert forall|p: int| 0 <= p && m <= p < c1.lists@.len() implies c1.lists@[p] == (
    #[trigger] c2.lists@[p]) by {
        crate::arena::lemma_pushed_value_persists(c1.lists@, c2.lists@, p);
    }
}

/// Whether the parameter nodes from position `pstart` mirror the written
/// parameters: the k-th node is backed by the k-th pre-allocated local and
/// carries its written span and lowered type.
#[verifier::opaque]
pub open spec fn params_nodes_lowered(
    ctx: Context,
    m: int,
    gm: Map<u32, Global>,
    inputs: Seq<ast::Parameter>,
    pstart: int,
    lstart_p: int,
) -> bool {
    forall|k: int|
        0 <= k < inputs.len() ==> {
            let pnode = (#[trigger] ctx.params@[pstart + k]);
            &&& pnode.local.raw == lstart_p + k
            &&& pnode.span == inputs[k].span
            &&& type_lowered(ctx, m, gm, inputs[k].ty, pnode.ty)
        }
}

/// Parameter nodes stay lowered when the context grows.
pub proof fn lemma_params_nodes_lowered_mono(
    c1: Context,
    c2: Context,
    m1: int,
    m2: int,
    gm: Map<u32, Global>,
    inputs: Seq<ast::Parameter>,
    pstart: int,
    lstart_p: int,
)
    requires
        params_nodes_lowered(c1, m1, gm, inputs, pstart, lstart_p),
        m2 <= m1,
        nodes_extend(c2, c1),
        lists_preserved(c1, c2, m1),
        pstart >= 0,
        pstart + inputs.len() <= c1.params@.len(),
    ensures
        params_nodes_lowered(c2, m2, gm, inputs, pstart, lstart_p),
{
    reveal(params_nodes_lowered);
    assert forall|k: int| 0 <= k < inputs.len() implies {
        let pnode = (#[trigger] c2.params@[pstart + k]);
        &&& pnode.local.raw == lstart_p + k
        &&& pnode.span == inputs[k].span
        &&& type_lowered(c2, m2, gm, inputs[k].ty, pnode.ty)
    } by {
        crate::arena::lemma_pushed_value_persists(c1.params@, c2.params@, pstart + k);
        lemma_type_lowered_mono(c1, c2, m1, m2, gm, inputs[k].ty, c1.params@[pstart + k].ty);
    }
}

/// Whether a record node's own parts mirror the declaration: ordinal-tagged
/// generic locals and, field by field, the written span and lowered type.
/// The names and counts are what `record_matches` already pins.
#[verifier::opaque]
pub open spec fn record_node_lowered(
    ctx: Context,
    m: int,
    gm: Map<u32, Global>,
    r: ast::Record,
    id: hir::RecordId,
) -> bool {
    &&& id.raw < ctx.records@.len()
    &&& {
        let rec = ctx.records@[id.raw as int];
        &&& forall|k: int|
            0 <= k < r.params@.len() ==> (#[trigger] ctx.locals@[rec.params.start + k]).kind
                == hir::LocalKind::GenericParam(k as u16)
        &&& forall|k: int|
            0 <= k < r.fields@.len() ==> (#[trigger] ctx.fields@[rec.fields.start + k]).span
                == r.fields@[k].span && type_lowered(
                ctx,
                m,
                gm,
                r.fields@[k].ty,
                ctx.fields@[rec.fields.start + k].ty,
            )
    }
}

/// Whether a definition node mirrors the declaration: its safety flag, its
/// lowered output type, precondition, implements expression and body present
/// exactly when written and lowered when present, ordinal-tagged generic
/// locals, and parameter nodes backed by ordinal-tagged value locals.
#[verifier::opaque]
pub open spec fn def_node_lowered(
    ctx: Context,
    m: int,
    gm: Map<u32, Global>,
    d: ast::Definition,
    id: hir::DefId,
) -> bool {
    &&& id.raw < ctx.defs@.len()
    &&& {
        let node = ctx.defs@[id.raw as int];
        &&& node.safety == d.safety
        &&& type_lowered(ctx, m, gm, d.sig.output, node.output)
        &&& match (d.precondition, node.precondition) {
            (Some(e), Some(eid)) => expr_lowered(ctx, m, gm, *e, eid),
            (None, None) => true,
            _ => false,
        }
        &&& match (d.implements, node.implements) {
            (Some(e), Some(eid)) => expr_lowered(ctx, m, gm, *e, eid),
            (None, None) => true,
            _ => false,
        }
        &&& match (d.body, node.body) {
            (Some(b), Some(l)) => stmt_list_lowered(ctx, m, gm, b.0@, l),
            (None, None) => true,
            _ => false,
        }
        &&& forall|k: int|
            0 <= k < d.generics@.len() ==> (#[trigger] ctx.locals@[node.generics.start + k]).kind
                == hir::LocalKind::GenericParam(k as u16)
        &&& forall|k: int|
            0 <= k < d.sig.inputs@.len() ==> {
                let pnode = (#[trigger] ctx.params@[node.inputs.start + k]);
                &&& pnode.span == d.sig.inputs@[k].span
                &&& pnode.local.raw < ctx.locals@.len()
                &&& ctx.locals@[pnode.local.raw as int].name == d.sig.inputs@[k].name
                &&& ctx.locals@[pnode.local.raw as int].kind == hir::LocalKind::Param(k as u16)
                &&& type_lowered(ctx, m, gm, d.sig.inputs@[k].ty, pnode.ty)
            }
    }
}

/// The 32-bit handle-space cap that `lower_ast`'s precondition names.
pub const WEIGHT_CAP: u64 = 0xffff_ffff;

/// A weight clamped to the cap: the exact weight below it, the cap itself
/// from there on. Comparing the clamp against the cap decides the
/// precondition without computing weights beyond it.
pub open spec fn wclamp(w: nat) -> u64 {
    if w >= 0xffff_ffff {
        0xffff_ffffu64
    } else {
        w as u64
    }
}

/// Adds two clamped weights, clamped.
fn add_clamped(a: u64, b: u64) -> (r: u64)
    requires
        a <= WEIGHT_CAP,
        b <= WEIGHT_CAP,
    ensures
        r == wclamp((a + b) as nat),
{
    let sum = a + b;
    if sum > WEIGHT_CAP {
        WEIGHT_CAP
    } else {
        sum
    }
}

/// Clamping distributes over addition: adding the clamps and clamping again
/// is clamping the true sum.
proof fn lemma_wclamp_add(x: nat, y: nat)
    ensures
        wclamp((wclamp(x) + wclamp(y)) as nat) == wclamp(x + y),
{
}

impl LoweringContext {
    /// Computes the clamped allocation weight of one expression.
    fn weight_expr_exec(m: u64, e: &ast::Expression) -> (r: u64)
        ensures
            r == wclamp(weight_expr(m as nat, *e)),
        decreases *e,
    {
        match &e.kind {
            ast::ExprKind::Id(_) => 1,
            ast::ExprKind::Lit(_) => 1,
            ast::ExprKind::Field(sub, _) => {
                let w = Self::weight_expr_exec(m, &**sub);
                proof {
                    lemma_wclamp_add(1, weight_expr(m as nat, **sub));
                }
                add_clamped(1, w)
            },
            ast::ExprKind::Unary(_, sub) => {
                let w = Self::weight_expr_exec(m, &**sub);
                proof {
                    lemma_wclamp_add(1, weight_expr(m as nat, **sub));
                }
                add_clamped(1, w)
            },
            ast::ExprKind::Binary(_, lhs, rhs) => {
                let wl = Self::weight_expr_exec(m, &**lhs);
                let wr = Self::weight_expr_exec(m, &**rhs);
                proof {
                    lemma_wclamp_add(weight_expr(m as nat, **lhs), weight_expr(m as nat, **rhs));
                    lemma_wclamp_add(
                        1,
                        weight_expr(m as nat, **lhs) + weight_expr(m as nat, **rhs),
                    );
                }
                add_clamped(1, add_clamped(wl, wr))
            },
            ast::ExprKind::Call(call) => {
                let wg = Self::weight_exprs_exec(m, &call.generics, 0);
                let wa = Self::weight_exprs_exec(m, &call.args, 0);
                let lg = Self::clamp_len(call.generics.len());
                let la = Self::clamp_len(call.args.len());
                proof {
                    lemma_wclamp_add(call.generics@.len(), call.args@.len());
                    lemma_wclamp_add(
                        weight_exprs(m as nat, call.generics@, 0),
                        weight_exprs(m as nat, call.args@, 0),
                    );
                    lemma_wclamp_add(
                        call.generics@.len() + call.args@.len(),
                        weight_exprs(m as nat, call.generics@, 0) + weight_exprs(
                            m as nat,
                            call.args@,
                            0,
                        ),
                    );
                    lemma_wclamp_add(
                        1,
                        call.generics@.len() + call.args@.len() + weight_exprs(
                            m as nat,
                            call.generics@,
                            0,
                        ) + weight_exprs(m as nat, call.args@, 0),
                    );
                }
                add_clamped(1, add_clamped(add_clamped(lg, la), add_clamped(wg, wa)))
            },
            ast::ExprKind::Record(ctor) => {
                let wg = Self::weight_exprs_exec(m, &ctor.generics, 0);
                let wi = Self::weight_inits_exec(m, &ctor.fields, 0);
                let lg = Self::clamp_len(ctor.generics.len());
                let cm = if m > WEIGHT_CAP {
                    WEIGHT_CAP
                } else {
                    m
                };
                proof {
                    lemma_wclamp_add(ctor.generics@.len(), m as nat);
                    lemma_wclamp_add(
                        weight_exprs(m as nat, ctor.generics@, 0),
                        weight_inits(m as nat, ctor.fields@, 0),
                    );
                    lemma_wclamp_add(
                        ctor.generics@.len() + m as nat,
                        weight_exprs(m as nat, ctor.generics@, 0) + weight_inits(
                            m as nat,
                            ctor.fields@,
                            0,
                        ),
                    );
                    lemma_wclamp_add(
                        1,
                        ctor.generics@.len() + m as nat + weight_exprs(m as nat, ctor.generics@, 0)
                            + weight_inits(m as nat, ctor.fields@, 0),
                    );
                }
                add_clamped(1, add_clamped(add_clamped(lg, cm), add_clamped(wg, wi)))
            },
        }
    }

    /// Clamps a machine-word count.
    fn clamp_len(n: usize) -> (r: u64)
        ensures
            r == wclamp(n as nat),
    {
        if n as u64 > WEIGHT_CAP {
            WEIGHT_CAP
        } else {
            n as u64
        }
    }

    /// Computes the clamped summed weight of the expressions from `i` on.
    fn weight_exprs_exec(m: u64, es: &Vec<ast::Expression>, i: usize) -> (r: u64)
        ensures
            r == wclamp(weight_exprs(m as nat, es@, i as int)),
        decreases es@, es@.len() - i,
    {
        if i >= es.len() {
            0
        } else {
            let w = Self::weight_expr_exec(m, &es[i]);
            let rest = Self::weight_exprs_exec(m, es, i + 1);
            proof {
                lemma_wclamp_add(
                    weight_expr(m as nat, es@[i as int]),
                    weight_exprs(m as nat, es@, i as int + 1),
                );
            }
            add_clamped(w, rest)
        }
    }

    /// Computes the clamped summed weight of the initializers from `j` on.
    fn weight_inits_exec(m: u64, inits: &Vec<ast::Assignment>, j: usize) -> (r: u64)
        ensures
            r == wclamp(weight_inits(m as nat, inits@, j as int)),
        decreases inits@, inits@.len() - j,
    {
        if j >= inits.len() {
            0
        } else {
            let w = Self::weight_expr_exec(m, &inits[j].rhs);
            let rest = Self::weight_inits_exec(m, inits, j + 1);
            proof {
                lemma_wclamp_add(
                    weight_expr(m as nat, inits@[j as int].rhs),
                    weight_inits(m as nat, inits@, j as int + 1),
                );
            }
            add_clamped(w, rest)
        }
    }

    /// Computes the clamped weight of one written type.
    fn weight_type_exec(m: u64, t: &ast::Type) -> (r: u64)
        ensures
            r == wclamp(weight_type(m as nat, *t)),
    {
        let w = Self::weight_exprs_exec(m, &t.args, 0);
        let l = Self::clamp_len(t.args.len());
        proof {
            lemma_wclamp_add(t.args@.len(), weight_exprs(m as nat, t.args@, 0));
            lemma_wclamp_add(1, t.args@.len() + weight_exprs(m as nat, t.args@, 0));
        }
        add_clamped(1, add_clamped(l, w))
    }

    /// Computes the clamped weight of one statement.
    fn weight_stmt_exec(m: u64, st: &ast::Statement) -> (r: u64)
        ensures
            r == wclamp(weight_stmt(m as nat, *st)),
        decreases *st,
    {
        match &st.kind {
            ast::StmtKind::Assign(assn) => {
                let w = Self::weight_expr_exec(m, &assn.rhs);
                proof {
                    lemma_wclamp_add(2, weight_expr(m as nat, assn.rhs));
                }
                add_clamped(2, w)
            },
            ast::StmtKind::Return(e) => {
                let w = Self::weight_expr_exec(m, e);
                proof {
                    lemma_wclamp_add(1, weight_expr(m as nat, *e));
                }
                add_clamped(1, w)
            },
            ast::StmtKind::Unsafe(block) => {
                let l = Self::clamp_len(block.0.len());
                let w = Self::weight_stmts_exec(m, &block.0, 0);
                proof {
                    lemma_wclamp_add(block.0@.len(), weight_stmts(m as nat, block.0@, 0));
                    lemma_wclamp_add(
                        1,
                        block.0@.len() + weight_stmts(m as nat, block.0@, 0),
                    );
                }
                add_clamped(1, add_clamped(l, w))
            },
        }
    }

    /// Computes the clamped summed weight of the statements from `i` on.
    fn weight_stmts_exec(m: u64, stmts: &Vec<ast::Statement>, i: usize) -> (r: u64)
        ensures
            r == wclamp(weight_stmts(m as nat, stmts@, i as int)),
        decreases stmts@, stmts@.len() - i,
    {
        if i >= stmts.len() {
            0
        } else {
            let w = Self::weight_stmt_exec(m, &stmts[i]);
            let rest = Self::weight_stmts_exec(m, stmts, i + 1);
            proof {
                lemma_wclamp_add(
                    weight_stmt(m as nat, stmts@[i as int]),
                    weight_stmts(m as nat, stmts@, i as int + 1),
                );
            }
            add_clamped(w, rest)
        }
    }

    /// Computes the clamped summed weight of the record fields from `i` on.
    fn weight_fields_exec(m: u64, fields: &Vec<ast::Field>, i: usize) -> (r: u64)
        ensures
            r == wclamp(weight_fields(m as nat, fields@, i as int)),
        decreases fields@.len() - i,
    {
        if i >= fields.len() {
            0
        } else {
            let w = Self::weight_type_exec(m, &fields[i].ty);
            let rest = Self::weight_fields_exec(m, fields, i + 1);
            proof {
                lemma_wclamp_add(1, weight_type(m as nat, fields@[i as int].ty));
                lemma_wclamp_add(
                    1 + weight_type(m as nat, fields@[i as int].ty),
                    weight_fields(m as nat, fields@, i as int + 1),
                );
            }
            add_clamped(add_clamped(1, w), rest)
        }
    }

    /// Computes the clamped summed weight of the value parameters from `i` on.
    fn weight_params_exec(m: u64, inputs: &Vec<ast::Parameter>, i: usize) -> (r: u64)
        ensures
            r == wclamp(weight_params(m as nat, inputs@, i as int)),
        decreases inputs@.len() - i,
    {
        if i >= inputs.len() {
            0
        } else {
            let w = Self::weight_type_exec(m, &inputs[i].ty);
            let rest = Self::weight_params_exec(m, inputs, i + 1);
            proof {
                lemma_wclamp_add(1, weight_type(m as nat, inputs@[i as int].ty));
                lemma_wclamp_add(
                    1 + weight_type(m as nat, inputs@[i as int].ty),
                    weight_params(m as nat, inputs@, i as int + 1),
                );
            }
            add_clamped(add_clamped(1, w), rest)
        }
    }

    /// Computes the clamped summed weight of the items from `i` on.
    fn weight_items_exec(m: u64, items: &Vec<ast::Item>, i: usize) -> (r: u64)
        ensures
            r == wclamp(weight_items(m as nat, items@, i as int)),
        decreases items@.len() - i,
    {
        if i >= items.len() {
            return 0;
        }
        let w = match &items[i].kind {
            ast::ItemKind::Record(record) => {
                let lp = Self::clamp_len(record.params.len());
                let wf = Self::weight_fields_exec(m, &record.fields, 0);
                proof {
                    lemma_wclamp_add(record.params@.len(), weight_fields(m as nat, record.fields@, 0));
                    lemma_wclamp_add(
                        1,
                        record.params@.len() + weight_fields(m as nat, record.fields@, 0),
                    );
                }
                add_clamped(1, add_clamped(lp, wf))
            },
            ast::ItemKind::Def(def) => {
                let lg = Self::clamp_len(def.generics.len());
                let li = Self::clamp_len(def.sig.inputs.len());
                let wp = Self::weight_params_exec(m, &def.sig.inputs, 0);
                let wo = Self::weight_type_exec(m, &def.sig.output);
                let wpre = match &def.precondition {
                    Some(e) => Self::weight_expr_exec(m, &**e),
                    None => 0,
                };
                let wimpl = match &def.implements {
                    Some(e) => Self::weight_expr_exec(m, &**e),
                    None => 0,
                };
                let wbody = match &def.body {
                    Some(block) => {
                        let lb = Self::clamp_len(block.0.len());
                        let wb = Self::weight_stmts_exec(m, &block.0, 0);
                        proof {
                            lemma_wclamp_add(
                                block.0@.len(),
                                weight_stmts(m as nat, block.0@, 0),
                            );
                            lemma_wclamp_add(
                                1,
                                block.0@.len() + weight_stmts(m as nat, block.0@, 0),
                            );
                        }
                        add_clamped(1, add_clamped(lb, wb))
                    },
                    None => 0,
                };
                let ghost npre: nat = match &def.precondition {
                    Some(e) => weight_expr(m as nat, **e),
                    None => 0nat,
                };
                let ghost nimpl: nat = match &def.implements {
                    Some(e) => weight_expr(m as nat, **e),
                    None => 0nat,
                };
                let ghost nbody: nat = match &def.body {
                    Some(block) => 1nat + block.0@.len() + weight_stmts(m as nat, block.0@, 0),
                    None => 0nat,
                };
                proof {
                    lemma_wclamp_add(def.generics@.len(), def.sig.inputs@.len());
                    lemma_wclamp_add(
                        weight_params(m as nat, def.sig.inputs@, 0),
                        weight_type(m as nat, def.sig.output),
                    );
                    lemma_wclamp_add(npre, nimpl);
                    lemma_wclamp_add(npre + nimpl, nbody);
                    lemma_wclamp_add(
                        def.generics@.len() + def.sig.inputs@.len(),
                        weight_params(m as nat, def.sig.inputs@, 0) + weight_type(
                            m as nat,
                            def.sig.output,
                        ),
                    );
                    lemma_wclamp_add(
                        def.generics@.len() + def.sig.inputs@.len() + weight_params(
                            m as nat,
                            def.sig.inputs@,
                            0,
                        ) + weight_type(m as nat, def.sig.output),
                        npre + nimpl + nbody,
                    );
                    lemma_wclamp_add(
                        1,
                        def.generics@.len() + def.sig.inputs@.len() + weight_params(
                            m as nat,
                            def.sig.inputs@,
                            0,
                        ) + weight_type(m as nat, def.sig.output) + npre + nimpl + nbody,
                    );
                }
                add_clamped(
                    1,
                    add_clamped(
                        add_clamped(add_clamped(lg, li), add_clamped(wp, wo)),
                        add_clamped(add_clamped(wpre, wimpl), wbody),
                    ),
                )
            },
        };
        let rest = Self::weight_items_exec(m, items, i + 1);
        proof {
            let wi: nat = match items@[i as int].kind {
                ast::ItemKind::Record(r2) => weight_record(m as nat, r2),
                ast::ItemKind::Def(d2) => weight_def(m as nat, d2),
            };
            lemma_wclamp_add(wi, weight_items(m as nat, items@, i as int + 1));
        }
        add_clamped(w, rest)
    }

    /// The largest field count of any record among the items.
    fn max_fields_exec(items: &Vec<ast::Item>) -> (r: u64)
        ensures
            r == max_fields(items@),
    {
        let mut best: u64 = 0;
        let mut i: usize = 0;
        while i < items.len()
            invariant
                i <= items@.len(),
                best == max_fields(items@.take(i as int)),
            decreases items@.len() - i,
        {
            let own: u64 = match &items[i].kind {
                ast::ItemKind::Record(record) => record.fields.len() as u64,
                ast::ItemKind::Def(_) => 0,
            };
            proof {
                assert(items@.take(i as int + 1).drop_last() =~= items@.take(i as int));
                assert(items@.take(i as int + 1).last() == items@[i as int]);
            }
            if own > best {
                best = own;
            }
            i = i + 1;
        }
        proof {
            assert(items@.take(items@.len() as int) =~= items@);
        }
        best
    }

    /// Decides the machine limits that `lower_ast` requires: whether the
    /// file's allocation weight stays below the 32-bit handle space and every
    /// parameter count fits the 16-bit ordinals. A driver tests this before
    /// lowering, against the very definitions the pass is specified with.
    pub fn file_fits_limits(file: &ast::File) -> (r: bool)
        ensures
            r == (weight_file(*file) < u32::MAX && params_bounded(*file)),
    {
        let m = Self::max_fields_exec(&file.items);
        let w = Self::weight_items_exec(m, &file.items, 0);
        if w >= WEIGHT_CAP {
            return false;
        }
        let mut i: usize = 0;
        while i < file.items.len()
            invariant
                i <= file.items@.len(),
                weight_file(*file) < u32::MAX,
                forall|k: int|
                    0 <= k < i ==> match (#[trigger] file.items@[k]).kind {
                        ast::ItemKind::Record(r2) => r2.params@.len() <= u16::MAX,
                        ast::ItemKind::Def(d2) => d2.generics@.len() <= u16::MAX
                            && d2.sig.inputs@.len() <= u16::MAX,
                    },
            decreases file.items@.len() - i,
        {
            let ok = match &file.items[i].kind {
                ast::ItemKind::Record(record) => record.params.len() <= u16::MAX as usize,
                ast::ItemKind::Def(def) => def.generics.len() <= u16::MAX as usize
                    && def.sig.inputs.len() <= u16::MAX as usize,
            };
            if !ok {
                return false;
            }
            i = i + 1;
        }
        true
    }
}

} // verus!

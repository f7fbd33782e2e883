//! The single owner of the resolved program.
//!
//! One arena per node kind, plus the shared side table for handle lists. The
//! context has no validation logic of its own: it is a passive, statically
//! typed multi-arena store, populated once by the lowering pass and then read
//! for the rest of the pipeline. Each node kind gets its own pair of
//! accessors, adding through that kind's arena and reading by handle.

use vstd::prelude::*;

use crate::arena::Arena;
use crate::hir;
use crate::index::Index;
use crate::list::{IndexArena, INVALID_SLOT};

verus! {

/// A composite store holding one arena per node kind and the shared list
/// side table.
pub struct Context {
    pub records: Arena<hir::Record>,
    pub fields: Arena<hir::Field>,
    pub defs: Arena<hir::Definition>,
    pub params: Arena<hir::Parameter>,
    pub stmts: Arena<hir::Statement>,
    pub exprs: Arena<hir::Expression>,
    pub types: Arena<hir::Type>,
    pub locals: Arena<hir::Local>,
    pub lists: IndexArena,
}

/// The total number of slots allocated across all stores of a context.
/// Bounding this bounds every individual arena, so every handle stays
/// representable in 32 bits.
pub open spec fn total_alloc(ctx: Context) -> nat {
    ctx.records@.len() + ctx.fields@.len() + ctx.defs@.len() + ctx.params@.len()
        + ctx.stmts@.len() + ctx.exprs@.len() + ctx.types@.len() + ctx.locals@.len()
        + ctx.lists@.len()
}

/// Whether every node arena of `old` is a prefix of the same arena of
/// `new`: node arenas are append-only, so every node keeps its handle and
/// its value.
pub open spec fn nodes_extend(new: Context, old: Context) -> bool {
    &&& old.records@.is_prefix_of(new.records@)
    &&& old.fields@.is_prefix_of(new.fields@)
    &&& old.defs@.is_prefix_of(new.defs@)
    &&& old.params@.is_prefix_of(new.params@)
    &&& old.stmts@.is_prefix_of(new.stmts@)
    &&& old.exprs@.is_prefix_of(new.exprs@)
    &&& old.types@.is_prefix_of(new.types@)
    &&& old.locals@.is_prefix_of(new.locals@)
}

/// Whether `new` holds everything `old` held, unchanged and at the same
/// handles: every node arena of `old` is a prefix of the same arena of
/// `new`, and so is the side table, whose already-allocated slots are only
/// ever written by the pass that allocated them.
pub open spec fn ctx_extends(new: Context, old: Context) -> bool {
    &&& nodes_extend(new, old)
    &&& old.lists@.is_prefix_of(new.lists@)
}

/// Extension is transitive: two appends in a row are one append.
pub proof fn lemma_ctx_extends_trans(c3: Context, c2: Context, c1: Context)
    requires
        ctx_extends(c3, c2),
        ctx_extends(c2, c1),
    ensures
        ctx_extends(c3, c1),
{
}

impl Context {
    /// Creates an empty context.
    pub fn new() -> (r: Self)
        ensures
            total_alloc(r) == 0,
            r.records@.len() == 0,
            r.fields@.len() == 0,
            r.defs@.len() == 0,
            r.params@.len() == 0,
            r.stmts@.len() == 0,
            r.exprs@.len() == 0,
            r.types@.len() == 0,
            r.locals@.len() == 0,
            r.lists@.len() == 0,
    {
        Context {
            records: Arena::new(),
            fields: Arena::new(),
            defs: Arena::new(),
            params: Arena::new(),
            stmts: Arena::new(),
            exprs: Arena::new(),
            types: Arena::new(),
            locals: Arena::new(),
            lists: IndexArena::new(),
        }
    }

    /// Appends a record node and returns its handle.
    pub fn add_record(&mut self, node: hir::Record) -> (id: hir::RecordId)
        requires
            old(self).records@.len() < u32::MAX,
        ensures
            final(self).records@ =~= old(self).records@.push(node),
            id.raw == old(self).records@.len(),
            total_alloc(*final(self)) == total_alloc(*old(self)) + 1,
            ctx_extends(*final(self), *old(self)),
            final(self).fields@ == old(self).fields@,
            final(self).defs@ == old(self).defs@,
            final(self).params@ == old(self).params@,
            final(self).stmts@ == old(self).stmts@,
            final(self).exprs@ == old(self).exprs@,
            final(self).types@ == old(self).types@,
            final(self).locals@ == old(self).locals@,
            final(self).lists@ == old(self).lists@,
    {
        let idx = self.records.push(node);
        hir::RecordId { raw: idx.index() as u32 }
    }

    /// Borrows the record node that a handle names.
    pub fn record(&self, id: hir::RecordId) -> (r: &hir::Record)
        requires
            id.raw < self.records@.len(),
        ensures
            *r == self.records@[id.raw as int],
    {
        self.records.get(Index::new(id.raw))
    }

    /// Appends a field node and returns its handle.
    pub fn add_field(&mut self, node: hir::Field) -> (id: hir::FieldId)
        requires
            old(self).fields@.len() < u32::MAX,
        ensures
            final(self).fields@ =~= old(self).fields@.push(node),
            id.raw == old(self).fields@.len(),
            total_alloc(*final(self)) == total_alloc(*old(self)) + 1,
            ctx_extends(*final(self), *old(self)),
            final(self).records@ == old(self).records@,
            final(self).defs@ == old(self).defs@,
            final(self).params@ == old(self).params@,
            final(self).stmts@ == old(self).stmts@,
            final(self).exprs@ == old(self).exprs@,
            final(self).types@ == old(self).types@,
            final(self).locals@ == old(self).locals@,
            final(self).lists@ == old(self).lists@,
    {
        let idx = self.fields.push(node);
        hir::FieldId { raw: idx.index() as u32 }
    }

    /// Borrows the field node that a handle names.
    pub fn field(&self, id: hir::FieldId) -> (r: &hir::Field)
        requires
            id.raw < self.fields@.len(),
        ensures
            *r == self.fields@[id.raw as int],
    {
        self.fields.get(Index::new(id.raw))
    }

    /// Appends a definition node and returns its handle.
    pub fn add_def(&mut self, node: hir::Definition) -> (id: hir::DefId)
        requires
            old(self).defs@.len() < u32::MAX,
        ensures
            final(self).defs@ =~= old(self).defs@.push(node),
            id.raw == old(self).defs@.len(),
            total_alloc(*final(self)) == total_alloc(*old(self)) + 1,
            ctx_extends(*final(self), *old(self)),
            final(self).records@ == old(self).records@,
            final(self).fields@ == old(self).fields@,
            final(self).params@ == old(self).params@,
            final(self).stmts@ == old(self).stmts@,
            final(self).exprs@ == old(self).exprs@,
            final(self).types@ == old(self).types@,
            final(self).locals@ == old(self).locals@,
            final(self).lists@ == old(self).lists@,
    {
        let idx = self.defs.push(node);
        hir::DefId { raw: idx.index() as u32 }
    }

    /// Borrows the definition node that a handle names.
    pub fn def(&self, id: hir::DefId) -> (r: &hir::Definition)
        requires
            id.raw < self.defs@.len(),
        ensures
            *r == self.defs@[id.raw as int],
    {
        self.defs.get(Index::new(id.raw))
    }

    /// Appends a parameter node and returns its handle.
    pub fn add_param(&mut self, node: hir::Parameter) -> (id: hir::ParamId)
        requires
            old(self).params@.len() < u32::MAX,
        ensures
            final(self).params@ =~= old(self).params@.push(node),
            id.raw == old(self).params@.len(),
            total_alloc(*final(self)) == total_alloc(*old(self)) + 1,
            ctx_extends(*final(self), *old(self)),
            final(self).records@ == old(self).records@,
            final(self).fields@ == old(self).fields@,
            final(self).defs@ == old(self).defs@,
            final(self).stmts@ == old(self).stmts@,
            final(self).exprs@ == old(self).exprs@,
            final(self).types@ == old(self).types@,
            final(self).locals@ == old(self).locals@,
            final(self).lists@ == old(self).lists@,
    {
        let idx = self.params.push(node);
        hir::ParamId { raw: idx.index() as u32 }
    }

    /// Borrows the parameter node that a handle names.
    pub fn param(&self, id: hir::ParamId) -> (r: &hir::Parameter)
        requires
            id.raw < self.params@.len(),
        ensures
            *r == self.params@[id.raw as int],
    {
        self.params.get(Index::new(id.raw))
    }

    /// Appends a statement node and returns its handle.
    pub fn add_stmt(&mut self, node: hir::Statement) -> (id: hir::StmtId)
        requires
            old(self).stmts@.len() < u32::MAX,
        ensures
            final(self).stmts@ =~= old(self).stmts@.push(node),
            id.raw == old(self).stmts@.len(),
            total_alloc(*final(self)) == total_alloc(*old(self)) + 1,
            ctx_extends(*final(self), *old(self)),
            final(self).records@ == old(self).records@,
            final(self).fields@ == old(self).fields@,
            final(self).defs@ == old(self).defs@,
            final(self).params@ == old(self).params@,
            final(self).exprs@ == old(self).exprs@,
            final(self).types@ == old(self).types@,
            final(self).locals@ == old(self).locals@,
            final(self).lists@ == old(self).lists@,
    {
        let idx = self.stmts.push(node);
        hir::StmtId { raw: idx.index() as u32 }
    }

    /// Borrows the statement node that a handle names.
    pub fn stmt(&self, id: hir::StmtId) -> (r: &hir::Statement)
        requires
            id.raw < self.stmts@.len(),
        ensures
            *r == self.stmts@[id.raw as int],
    {
        self.stmts.get(Index::new(id.raw))
    }

    /// Appends a expression node and returns its handle.
    pub fn add_expr(&mut self, node: hir::Expression) -> (id: hir::ExprId)
        requires
            old(self).exprs@.len() < u32::MAX,
        ensures
            final(self).exprs@ =~= old(self).exprs@.push(node),
            id.raw == old(self).exprs@.len(),
            total_alloc(*final(self)) == total_alloc(*old(self)) + 1,
            ctx_extends(*final(self), *old(self)),
            final(self).records@ == old(self).records@,
            final(self).fields@ == old(self).fields@,
            final(self).defs@ == old(self).defs@,
            final(self).params@ == old(self).params@,
            final(self).stmts@ == old(self).stmts@,
            final(self).types@ == old(self).types@,
            final(self).locals@ == old(self).locals@,
            final(self).lists@ == old(self).lists@,
    {
        let idx = self.exprs.push(node);
        hir::ExprId { raw: idx.index() as u32 }
    }

    /// Borrows the expression node that a handle names.
    pub fn expr(&self, id: hir::ExprId) -> (r: &hir::Expression)
        requires
            id.raw < self.exprs@.len(),
        ensures
            *r == self.exprs@[id.raw as int],
    {
        self.exprs.get(Index::new(id.raw))
    }

    /// Appends a type node and returns its handle.
    pub fn add_ty(&mut self, node: hir::Type) -> (id: hir::TypeId)
        requires
            old(self).types@.len() < u32::MAX,
        ensures
            final(self).types@ =~= old(self).types@.push(node),
            id.raw == old(self).types@.len(),
            total_alloc(*final(self)) == total_alloc(*old(self)) + 1,
            ctx_extends(*final(self), *old(self)),
            final(self).records@ == old(self).records@,
            final(self).fields@ == old(self).fields@,
            final(self).defs@ == old(self).defs@,
            final(self).params@ == old(self).params@,
            final(self).stmts@ == old(self).stmts@,
            final(self).exprs@ == old(self).exprs@,
            final(self).locals@ == old(self).locals@,
            final(self).lists@ == old(self).lists@,
    {
        let idx = self.types.push(node);
        hir::TypeId { raw: idx.index() as u32 }
    }

    /// Borrows the type node that a handle names.
    pub fn ty(&self, id: hir::TypeId) -> (r: &hir::Type)
        requires
            id.raw < self.types@.len(),
        ensures
            *r == self.types@[id.raw as int],
    {
        self.types.get(Index::new(id.raw))
    }

    /// Appends a local node and returns its handle.
    pub fn add_local(&mut self, node: hir::Local) -> (id: hir::LocalId)
        requires
            old(self).locals@.len() < u32::MAX,
        ensures
            final(self).locals@ =~= old(self).locals@.push(node),
            id.raw == old(self).locals@.len(),
            total_alloc(*final(self)) == total_alloc(*old(self)) + 1,
            ctx_extends(*final(self), *old(self)),
            final(self).records@ == old(self).records@,
            final(self).fields@ == old(self).fields@,
            final(self).defs@ == old(self).defs@,
            final(self).params@ == old(self).params@,
            final(self).stmts@ == old(self).stmts@,
            final(self).exprs@ == old(self).exprs@,
            final(self).types@ == old(self).types@,
            final(self).lists@ == old(self).lists@,
    {
        let idx = self.locals.push(node);
        hir::LocalId { raw: idx.index() as u32 }
    }

    /// Borrows the local node that a handle names.
    pub fn local(&self, id: hir::LocalId) -> (r: &hir::Local)
        requires
            id.raw < self.locals@.len(),
        ensures
            *r == self.locals@[id.raw as int],
    {
        self.locals.get(Index::new(id.raw))
    }


    /// Reserves a zero-filled expression list of `n` slots for positional
    /// writes.
    pub fn new_expr_list(&mut self, n: usize) -> (l: hir::ExprList)
        requires
            old(self).lists@.len() + n < u32::MAX,
        ensures
            l.start == old(self).lists@.len(),
            l.end == l.start + n,
            final(self).lists@.len() == old(self).lists@.len() + n,
            total_alloc(*final(self)) == total_alloc(*old(self)) + n,
            ctx_extends(*final(self), *old(self)),
            final(self).records@ == old(self).records@,
            final(self).fields@ == old(self).fields@,
            final(self).defs@ == old(self).defs@,
            final(self).params@ == old(self).params@,
            final(self).stmts@ == old(self).stmts@,
            final(self).exprs@ == old(self).exprs@,
            final(self).types@ == old(self).types@,
            final(self).locals@ == old(self).locals@,
    {
        let start = self.lists.extend_fill(n, 0);
        hir::ExprList { start: start as u32, end: (start + n) as u32 }
    }

    /// Reserves an expression list of `n` slots pre-filled with the invalid
    /// sentinel, for a constructor's positionally written initializers.
    pub fn new_init_list(&mut self, n: usize) -> (l: hir::ExprList)
        requires
            old(self).lists@.len() + n < u32::MAX,
        ensures
            l.start == old(self).lists@.len(),
            l.end == l.start + n,
            final(self).lists@.len() == old(self).lists@.len() + n,
            forall|i: int|
                0 <= i < n ==> (#[trigger] final(self).lists@[l.start + i]) == INVALID_SLOT,
            total_alloc(*final(self)) == total_alloc(*old(self)) + n,
            ctx_extends(*final(self), *old(self)),
            final(self).records@ == old(self).records@,
            final(self).fields@ == old(self).fields@,
            final(self).defs@ == old(self).defs@,
            final(self).params@ == old(self).params@,
            final(self).stmts@ == old(self).stmts@,
            final(self).exprs@ == old(self).exprs@,
            final(self).types@ == old(self).types@,
            final(self).locals@ == old(self).locals@,
    {
        let start = self.lists.extend_fill(n, INVALID_SLOT);
        hir::ExprList { start: start as u32, end: (start + n) as u32 }
    }

    /// Reserves a zero-filled statement list of `n` slots for positional
    /// writes.
    pub fn new_stmt_list(&mut self, n: usize) -> (l: hir::StmtList)
        requires
            old(self).lists@.len() + n < u32::MAX,
        ensures
            l.start == old(self).lists@.len(),
            l.end == l.start + n,
            final(self).lists@.len() == old(self).lists@.len() + n,
            total_alloc(*final(self)) == total_alloc(*old(self)) + n,
            ctx_extends(*final(self), *old(self)),
            final(self).records@ == old(self).records@,
            final(self).fields@ == old(self).fields@,
            final(self).defs@ == old(self).defs@,
            final(self).params@ == old(self).params@,
            final(self).stmts@ == old(self).stmts@,
            final(self).exprs@ == old(self).exprs@,
            final(self).types@ == old(self).types@,
            final(self).locals@ == old(self).locals@,
    {
        let start = self.lists.extend_fill(n, 0);
        hir::StmtList { start: start as u32, end: (start + n) as u32 }
    }

    /// Writes one slot of an expression list.
    pub fn set_expr_slot(&mut self, l: hir::ExprList, i: usize, id: hir::ExprId)
        requires
            l.start <= l.end <= old(self).lists@.len(),
            l.start + i < l.end,
        ensures
            final(self).lists@ =~= old(self).lists@.update(l.start + i, id.raw),
            final(self).lists@.len() == old(self).lists@.len(),
            total_alloc(*final(self)) == total_alloc(*old(self)),
            final(self).records@ == old(self).records@,
            final(self).fields@ == old(self).fields@,
            final(self).defs@ == old(self).defs@,
            final(self).params@ == old(self).params@,
            final(self).stmts@ == old(self).stmts@,
            final(self).exprs@ == old(self).exprs@,
            final(self).types@ == old(self).types@,
            final(self).locals@ == old(self).locals@,
    {
        self.lists.write((l.start as usize) + i, id.raw);
    }

    /// Writes one slot of a statement list.
    pub fn set_stmt_slot(&mut self, l: hir::StmtList, i: usize, id: hir::StmtId)
        requires
            l.start <= l.end <= old(self).lists@.len(),
            l.start + i < l.end,
        ensures
            final(self).lists@ =~= old(self).lists@.update(l.start + i, id.raw),
            final(self).lists@.len() == old(self).lists@.len(),
            total_alloc(*final(self)) == total_alloc(*old(self)),
            final(self).records@ == old(self).records@,
            final(self).fields@ == old(self).fields@,
            final(self).defs@ == old(self).defs@,
            final(self).params@ == old(self).params@,
            final(self).stmts@ == old(self).stmts@,
            final(self).exprs@ == old(self).exprs@,
            final(self).types@ == old(self).types@,
            final(self).locals@ == old(self).locals@,
    {
        self.lists.write((l.start as usize) + i, id.raw);
    }

    /// Reads the raw value of one slot of an expression list.
    pub fn expr_slot_raw(&self, l: hir::ExprList, i: usize) -> (r: u32)
        requires
            l.start <= l.end <= self.lists@.len(),
            l.start + i < l.end,
        ensures
            r == self.lists@[l.start + i],
    {
        self.lists.read((l.start as usize) + i)
    }
}

} // verus!

//! Front end of a small statically-checked language: an index-based arena
//! storage layer for the intermediate representation, and a lowering pass
//! that resolves names, arities and field sets while walking the syntax tree.

pub mod arena;
pub mod ast;
pub mod context;
pub mod diagnostics;
pub mod errors;
pub mod hir;
pub mod index;
pub mod interned;
pub mod laws;
pub mod list;
pub mod lowering;
pub mod nonmax;
pub mod sem;

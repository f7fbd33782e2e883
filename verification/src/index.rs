//! Typed 32-bit handles into arenas.
//!
//! An `Index<T>` is a plain integer that names one slot of the arena storing
//! values of type `T`; it carries no lifetime and no ownership.

use vstd::prelude::*;
use core::marker::PhantomData;

verus! {

/// A typed handle into the arena that stores values of type `T`.
///
/// Equality is numeric equality of the raw index.
pub struct Index<T> {
    index: u32,
    phantom: PhantomData<T>,
}

impl<T> Index<T> {
    /// The raw 32-bit value of the handle, as a mathematical integer.
    pub closed spec fn raw(self) -> int {
        self.index as int
    }

    /// Wraps a raw 32-bit value as a typed handle.
    pub fn new(index: u32) -> (r: Self)
        ensures
            r.raw() == index as int,
    {
        Index { index, phantom: PhantomData }
    }

    /// Wraps a machine-word position as a typed handle.
    ///
    /// Handle space is 32 bits wide; a position beyond it cannot be
    /// represented, so callers must not exceed it.
    pub fn from_usize(index: usize) -> (r: Self)
        requires
            index <= u32::MAX,
        ensures
            r.raw() == index as int,
    {
        Index { index: index as u32, phantom: PhantomData }
    }

    /// The raw value of the handle, as a machine word.
    pub fn index(self) -> (r: usize)
        ensures
            r as int == self.raw(),
    {
        self.index as usize
    }

    /// Two handles with the same raw value are the same handle.
    pub proof fn lemma_raw_injective(a: Self, b: Self)
        requires
            a.raw() == b.raw(),
        ensures
            a == b,
    {
    }

    /// A handle's raw value fits in 32 bits.
    pub proof fn lemma_raw_bounded(self)
        ensures
            0 <= self.raw() <= u32::MAX,
    {
    }
}

impl<T> Clone for Index<T> {
    fn clone(&self) -> (r: Self)
        ensures
            r == *self,
    {
        Index { index: self.index, phantom: PhantomData }
    }
}

impl<T> Copy for Index<T> {}

impl<T> PartialEq for Index<T> {
    fn eq(&self, other: &Self) -> (r: bool)
        ensures
            r == (self.raw() == other.raw()),
    {
        self.index == other.index
    }
}

impl<T> Eq for Index<T> {}

impl<T> vstd::std_specs::cmp::PartialEqSpecImpl for Index<T> {
    open spec fn obeys_eq_spec() -> bool {
        true
    }

    open spec fn eq_spec(&self, other: &Self) -> bool {
        self.raw() == other.raw()
    }
}

/// A half-open range of handles, `start` inclusive to `end` exclusive.
pub struct IndexRange<T> {
    pub start: Index<T>,
    pub end: Index<T>,
}

impl<T> IndexRange<T> {
    /// The number of handles in the range, as a mathematical integer.
    pub open spec fn spec_len(self) -> int {
        self.end.raw() - self.start.raw()
    }

    /// The number of handles in the range.
    pub fn len(self) -> (r: usize)
        requires
            self.start.raw() <= self.end.raw(),
        ensures
            r as int == self.spec_len(),
    {
        proof {
            self.start.lemma_raw_bounded();
            self.end.lemma_raw_bounded();
        }
        self.end.index() - self.start.index()
    }
}

impl<T> Clone for IndexRange<T> {
    fn clone(&self) -> (r: Self)
        ensures
            r == *self,
    {
        IndexRange { start: self.start, end: self.end }
    }
}

impl<T> Copy for IndexRange<T> {}

} // verus!

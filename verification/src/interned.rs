//! A value-deduplicating arena.
//!
//! Repeated insertion of an equal value returns the same handle, so a handle
//! can stand for the value itself.

use vstd::prelude::*;
use vstd::std_specs::cmp::PartialEqSpec;

use crate::arena::Arena;
use crate::index::Index;

verus! {

/// An arena in which equal values share one handle.
pub struct Interned<T> {
    arena: Arena<T>,
}

impl<T> Interned<T> {
    /// The distinct values interned so far, in first-insertion order.
    pub closed spec fn view(self) -> Seq<T> {
        self.arena@
    }

    /// Creates an empty interner.
    pub fn new() -> (r: Self)
        ensures
            r@ =~= Seq::<T>::empty(),
    {
        Interned { arena: Arena::new() }
    }

    /// Borrows the value that a handle names.
    pub fn get(&self, index: Index<T>) -> (r: &T)
        requires
            0 <= index.raw() < self@.len(),
        ensures
            *r == self@[index.raw()],
    {
        self.arena.get(index)
    }
}

impl<T: PartialEq + Eq> Interned<T> {
    /// Inserts a value, or finds it if an equal value was inserted before.
    ///
    /// The handle of the first equal insertion is returned either way, so
    /// equal values always share one handle.
    pub fn intern(&mut self, value: T) -> (r: Index<T>)
        requires
            T::obeys_eq_spec(),
            old(self)@.len() < u32::MAX,
        ensures
            0 <= r.raw() < final(self)@.len(),
            forall|j: int| 0 <= j < r.raw() ==> !(#[trigger] final(self)@[j].eq_spec(&value)),
            (exists|j: int| 0 <= j < old(self)@.len() && (#[trigger] old(self)@[j].eq_spec(&value)))
                ==> final(self)@ == old(self)@ && final(self)@[r.raw()].eq_spec(&value),
            !(exists|j: int| 0 <= j < old(self)@.len() && (#[trigger] old(self)@[j].eq_spec(&value)))
                ==> final(self)@ =~= old(self)@.push(value) && r.raw() == old(self)@.len()
                    && final(self)@[r.raw()] == value,
    {
        let n = self.arena.len();
        let mut i: usize = 0;
        while i < n
            invariant
                T::obeys_eq_spec(),
                n == self@.len(),
                i <= n,
                self@ == old(self)@,
                n < u32::MAX,
                forall|j: int| 0 <= j < i ==> !(#[trigger] self@[j].eq_spec(&value)),
            decreases n - i,
        {
            let candidate = self.arena.get(Index::from_usize(i));
            if *candidate == value {
                return Index::from_usize(i);
            }
            i = i + 1;
        }
        self.arena.push(value)
    }
}

} // verus!

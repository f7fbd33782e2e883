//! Append-only stores addressed by typed handles.
//!
//! An arena never removes or moves a value: a handle returned by `push` names
//! the same value for the whole life of the arena.

use vstd::prelude::*;

use crate::index::Index;

verus! {

/// An append-only, randomly-indexable store for values of one type.
///
/// `push` appends and returns the handle equal to the pre-insertion length;
/// lookups are constant-time.
pub struct Arena<T> {
    data: Vec<T>,
}

impl<T> Arena<T> {
    /// The sequence of values held, in insertion order.
    pub closed spec fn view(self) -> Seq<T> {
        self.data@
    }

    /// Creates an empty arena.
    pub fn new() -> (r: Self)
        ensures
            r@ =~= Seq::<T>::empty(),
    {
        Arena { data: Vec::new() }
    }

    /// Creates an empty arena with room reserved for `capacity` values.
    pub fn with_capacity(capacity: usize) -> (r: Self)
        ensures
            r@ =~= Seq::<T>::empty(),
    {
        Arena { data: Vec::with_capacity(capacity) }
    }

    /// The number of values held.
    pub fn len(&self) -> (r: usize)
        ensures
            r == self@.len(),
    {
        self.data.len()
    }

    /// Reserves room for at least `additional` more values.
    pub fn reserve(&mut self, additional: usize)
        ensures
            final(self)@ == old(self)@,
    {
        self.data.reserve(additional);
    }

    /// The handle that the next `push` will return.
    ///
    /// Handle space is 32 bits wide, so the arena must not already be full.
    pub fn next_index(&self) -> (r: Index<T>)
        requires
            self@.len() <= u32::MAX,
        ensures
            r.raw() == self@.len(),
    {
        Index::from_usize(self.data.len())
    }

    /// Appends a value and returns its handle.
    ///
    /// The handle equals the pre-insertion length, so the handles returned by
    /// successive pushes are the strictly increasing integers starting at the
    /// initial length; every value already held keeps its handle.
    pub fn push(&mut self, value: T) -> (r: Index<T>)
        requires
            old(self)@.len() < u32::MAX,
        ensures
            final(self)@ =~= old(self)@.push(value),
            r.raw() == old(self)@.len(),
            final(self)@[r.raw()] == value,
    {
        let index = self.next_index();
        self.data.push(value);
        index
    }

    /// Borrows the value that a handle names.
    ///
    /// An out-of-range handle is a programming error, not a recoverable
    /// condition, so it is ruled out up front.
    pub fn get(&self, index: Index<T>) -> (r: &T)
        requires
            0 <= index.raw() < self@.len(),
        ensures
            *r == self@[index.raw()],
    {
        proof {
            index.lemma_raw_bounded();
        }
        &self.data[index.index()]
    }

    /// The range of all handles currently valid for this arena, from the
    /// first handle to one past the last.
    pub fn keys(&self) -> (r: crate::index::IndexRange<T>)
        requires
            self@.len() <= u32::MAX,
        ensures
            r.start.raw() == 0,
            r.end.raw() == self@.len(),
    {
        crate::index::IndexRange { start: Index::new(0), end: Index::from_usize(self.data.len()) }
    }

    /// Borrows all values held, in insertion order.
    pub fn values(&self) -> (r: &Vec<T>)
        ensures
            r@ == self@,
    {
        &self.data
    }
}

/// Looking a value up in any later state of an append-only store gives the
/// value that was pushed: appending can never change what an existing handle
/// names.
pub proof fn lemma_pushed_value_persists<T>(earlier: Seq<T>, later: Seq<T>, i: int)
    requires
        earlier.is_prefix_of(later),
        0 <= i < earlier.len(),
    ensures
        later[i] == earlier[i],
{
}

} // verus!

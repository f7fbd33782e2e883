//! Variable-length collections of handles, stored out of line.
//!
//! A node that owns a list of handles (a call's argument list, a block's
//! statements) does not own a growable collection itself. Instead all such
//! collections share one side table of raw index values, and the node holds a
//! `List<T>`: a half-open range into that table.

use vstd::prelude::*;
use core::marker::PhantomData;

use crate::index::Index;

verus! {

/// A range descriptor into the shared side table, standing for a list of
/// handles of type `Index<T>`.
pub struct List<T> {
    start: u32,
    end: u32,
    phantom: PhantomData<T>,
}

impl<T> List<T> {
    /// The position of the first slot of the list in the side table.
    pub closed spec fn spec_start(self) -> int {
        self.start as int
    }

    /// The position one past the last slot of the list.
    pub closed spec fn spec_end(self) -> int {
        self.end as int
    }

    /// The number of slots in the list.
    pub open spec fn spec_len(self) -> int {
        self.spec_end() - self.spec_start()
    }

    /// Whether the range is ordered: `start` does not exceed `end`.
    pub open spec fn wf(self) -> bool {
        self.spec_start() <= self.spec_end()
    }

    /// Creates a new, empty list.
    pub fn new() -> (r: Self)
        ensures
            r.wf(),
            r.spec_start() == 0,
            r.spec_len() == 0,
    {
        List { start: 0, end: 0, phantom: PhantomData }
    }

    /// The number of slots in the list.
    pub fn len(self) -> (r: usize)
        requires
            self.wf(),
        ensures
            r as int == self.spec_len(),
    {
        (self.end - self.start) as usize
    }
}

impl<T> Clone for List<T> {
    fn clone(&self) -> (r: Self)
        ensures
            r == *self,
    {
        List { start: self.start, end: self.end, phantom: PhantomData }
    }
}

impl<T> Copy for List<T> {}

/// The raw value that fills a freshly reserved list slot until the real
/// handle is written: the maximum representable index, which a successful
/// pass never leaves in place.
pub const INVALID_SLOT: u32 = 0xffff_ffff;

/// The shared side table of raw index values that all `List<T>` ranges point
/// into. It only ever grows, so a range handed out stays valid.
pub struct IndexArena {
    data: Vec<u32>,
}

impl IndexArena {
    /// The raw slots of the side table, in allocation order.
    pub closed spec fn view(self) -> Seq<u32> {
        self.data@
    }

    /// Creates an empty side table.
    pub fn new() -> (r: Self)
        ensures
            r@ =~= Seq::<u32>::empty(),
    {
        IndexArena { data: Vec::new() }
    }

    /// Creates an empty side table with room reserved for `capacity` slots.
    pub fn with_capacity(capacity: usize) -> (r: Self)
        ensures
            r@ =~= Seq::<u32>::empty(),
    {
        IndexArena { data: Vec::with_capacity(capacity) }
    }

    /// The number of slots allocated so far.
    pub fn len(&self) -> (r: usize)
        ensures
            r == self@.len(),
    {
        self.data.len()
    }

    /// Reserves room for at least `additional` more slots.
    pub fn reserve(&mut self, additional: usize)
        ensures
            final(self)@ == old(self)@,
    {
        self.data.reserve(additional);
    }

    /// Whether a list is a valid, ordered sub-range of this side table.
    pub open spec fn valid_list<T>(self, l: List<T>) -> bool {
        l.wf() && l.spec_end() <= self@.len()
    }

    /// Appends the raw values of a slice of handles and returns the range
    /// they now occupy.
    pub fn extend_from_slice<T>(&mut self, slice: &Vec<Index<T>>) -> (r: List<T>)
        requires
            old(self)@.len() + slice@.len() < u32::MAX,
        ensures
            final(self)@.len() == old(self)@.len() + slice@.len(),
            old(self)@.is_prefix_of(final(self)@),
            final(self).valid_list(r),
            r.spec_start() == old(self)@.len(),
            r.spec_len() == slice@.len(),
            forall|i: int|
                0 <= i < slice@.len() ==> final(self)@[r.spec_start() + i] == slice@[i].raw(),
    {
        let start = self.data.len();
        let n = slice.len();
        let mut i: usize = 0;
        while i < n
            invariant
                n == slice@.len(),
                i <= n,
                start == old(self)@.len(),
                start + n < u32::MAX,
                self@.len() == start + i,
                old(self)@.is_prefix_of(self@),
                forall|j: int| 0 <= j < i ==> self@[start + j] == slice@[j].raw(),
            decreases n - i,
        {
            proof {
                slice@[i as int].lemma_raw_bounded();
            }
            self.data.push(slice[i].index() as u32);
            i = i + 1;
        }
        List {
            start: start as u32,
            end: self.data.len() as u32,
            phantom: PhantomData,
        }
    }

    /// Reserves a fixed-size region pre-filled with the invalid sentinel, for
    /// later positional writes.
    pub fn extend_invalid<T>(&mut self, n: usize) -> (r: List<T>)
        requires
            old(self)@.len() + n < u32::MAX,
        ensures
            final(self)@.len() == old(self)@.len() + n,
            old(self)@.is_prefix_of(final(self)@),
            final(self).valid_list(r),
            r.spec_start() == old(self)@.len(),
            r.spec_len() == n,
            forall|i: int|
                0 <= i < n ==> (#[trigger] final(self)@[r.spec_start() + i]) == INVALID_SLOT,
    {
        let start = self.data.len();
        let mut i: usize = 0;
        while i < n
            invariant
                i <= n,
                start == old(self)@.len(),
                start + n < u32::MAX,
                self@.len() == start + i,
                old(self)@.is_prefix_of(self@),
                forall|j: int| 0 <= j < i ==> (#[trigger] self@[start + j]) == INVALID_SLOT,
            decreases n - i,
        {
            self.data.push(INVALID_SLOT);
            i = i + 1;
        }
        List {
            start: start as u32,
            end: self.data.len() as u32,
            phantom: PhantomData,
        }
    }

    /// Reads the raw value of one slot of a list.
    pub fn get_raw<T>(&self, l: List<T>, i: usize) -> (r: u32)
        requires
            self.valid_list(l),
            i < l.spec_len(),
        ensures
            r == self@[l.spec_start() + i],
    {
        self.data[(l.start as usize) + i]
    }

    /// Reads one slot of a list as a handle.
    pub fn get<T>(&self, l: List<T>, i: usize) -> (r: Index<T>)
        requires
            self.valid_list(l),
            i < l.spec_len(),
        ensures
            r.raw() == self@[l.spec_start() + i],
    {
        Index::new(self.data[(l.start as usize) + i])
    }

    /// Writes one slot of a list.
    pub fn set<T>(&mut self, l: List<T>, i: usize, value: Index<T>)
        requires
            old(self).valid_list(l),
            i < l.spec_len(),
        ensures
            final(self)@ =~= old(self)@.update(l.spec_start() + i, (value.raw() as u32)),
    {
        proof {
            value.lemma_raw_bounded();
        }
        let slot: usize = (l.start as usize) + i;
        self.data.set(slot, value.index() as u32);
    }

    /// Appends `n` copies of one raw value and returns the position of the
    /// first, for the context's fixed-size per-node lists.
    pub fn extend_fill(&mut self, n: usize, fill: u32) -> (r: usize)
        requires
            old(self)@.len() + n < u32::MAX,
        ensures
            r == old(self)@.len(),
            final(self)@.len() == old(self)@.len() + n,
            old(self)@.is_prefix_of(final(self)@),
            forall|i: int| 0 <= i < n ==> (#[trigger] final(self)@[r + i]) == fill,
    {
        let start = self.data.len();
        let mut i: usize = 0;
        while i < n
            invariant
                i <= n,
                start == old(self)@.len(),
                start + n < u32::MAX,
                self@.len() == start + i,
                old(self)@.is_prefix_of(self@),
                forall|j: int| 0 <= j < i ==> (#[trigger] self@[start + j]) == fill,
            decreases n - i,
        {
            self.data.push(fill);
            i = i + 1;
        }
        start
    }

    /// Reads the raw value of one slot of the side table.
    pub fn read(&self, pos: usize) -> (r: u32)
        requires
            pos < self@.len(),
        ensures
            r == self@[pos as int],
    {
        self.data[pos]
    }

    /// Writes one slot of the side table.
    pub fn write(&mut self, pos: usize, value: u32)
        requires
            pos < old(self)@.len(),
        ensures
            final(self)@ =~= old(self)@.update(pos as int, value),
    {
        self.data.set(pos, value);
    }
}

/// Updating a slot beyond a prefix leaves the prefix in place.
pub proof fn lemma_prefix_update(p: Seq<u32>, s: Seq<u32>, i: int, v: u32)
    requires
        p.is_prefix_of(s),
        p.len() <= i < s.len(),
    ensures
        p.is_prefix_of(s.update(i, v)),
{
    assert(p =~= s.update(i, v).subrange(0, p.len() as int));
}

} // verus!

//! A compact optional handle.
//!
//! Rather than a tagged union for "maybe-present handle", a single 32-bit
//! word stores the bitwise complement of the raw index. The "absent" sentinel
//! is then the bit pattern of the *maximum* index, never zero: zero is a
//! legitimate first handle and must stay representable.

use vstd::prelude::*;
use core::marker::PhantomData;

use crate::index::Index;

verus! {

/// An always-present handle whose raw index is below the maximum.
///
/// The stored word is the bitwise complement of the raw index, so it is
/// never zero, and an `Option<NonMaxIndex<T>>` needs no extra tag.
pub struct NonMaxIndex<T> {
    inner: u32,
    phantom: PhantomData<T>,
}

/// Complementing a 32-bit word below the maximum gives a non-zero word, and
/// complementing twice gives the word back: the encoding round-trips for
/// every index below the maximum.
pub proof fn lemma_complement_round_trip(x: u32)
    requires
        x < u32::MAX,
    ensures
        !x != 0,
        !(!x) == x,
{
    assert(x < 0xffff_ffffu32 ==> !x != 0 && !(!x) == x) by (bit_vector);
}

impl<T> NonMaxIndex<T> {
    /// The raw index that this compact handle encodes.
    pub closed spec fn raw(self) -> int {
        (!self.inner) as int
    }

    /// Whether the encoding invariant holds: the stored complement is
    /// non-zero, so the encoded index is below the maximum.
    pub closed spec fn wf(self) -> bool {
        self.inner != 0
    }

    /// Packs a handle into the compact encoding.
    ///
    /// Construction fails exactly when the raw index is the maximum
    /// representable value, the pattern reserved for "absent": a caller that
    /// sees `None` has exhausted handle space.
    pub fn new(index: Index<T>) -> (r: Option<Self>)
        ensures
            match r {
                Some(n) => index.raw() < u32::MAX && n.wf() && n.raw() == index.raw(),
                None => index.raw() == u32::MAX,
            },
    {
        proof {
            index.lemma_raw_bounded();
        }
        let raw = index.index() as u32;
        let inner = !raw;
        if inner == 0 {
            proof {
                assert(!raw == 0u32 ==> raw == 0xffff_ffffu32) by (bit_vector);
            }
            None
        } else {
            proof {
                assert(!raw != 0u32 ==> raw != 0xffff_ffffu32) by (bit_vector);
                lemma_complement_round_trip(raw);
            }
            Some(NonMaxIndex { inner, phantom: PhantomData })
        }
    }

    /// Unpacks the compact encoding back into the original handle.
    pub fn get(self) -> (r: Index<T>)
        ensures
            r.raw() == self.raw(),
    {
        Index::new(!self.inner)
    }
}

impl<T> Clone for NonMaxIndex<T> {
    fn clone(&self) -> (r: Self)
        ensures
            r == *self,
    {
        NonMaxIndex { inner: self.inner, phantom: PhantomData }
    }
}

impl<T> Copy for NonMaxIndex<T> {}

impl<T> PartialEq for NonMaxIndex<T> {
    fn eq(&self, other: &Self) -> (r: bool)
        ensures
            r == (self.raw() == other.raw()),
    {
        proof {
            let a = self.inner;
            let b = other.inner;
            assert((!a == !b) == (a == b)) by (bit_vector);
        }
        self.inner == other.inner
    }
}

impl<T> Eq for NonMaxIndex<T> {}

impl<T> vstd::std_specs::cmp::PartialEqSpecImpl for NonMaxIndex<T> {
    open spec fn obeys_eq_spec() -> bool {
        true
    }

    open spec fn eq_spec(&self, other: &Self) -> bool {
        self.raw() == other.raw()
    }
}

} // verus!

//! Tests for the arena storage layer: handles, append-only stores, compact
//! optional handles, shared handle lists, and the interner.

use adpl::arena::Arena;
use adpl::index::{Index, IndexRange};
use adpl::interned::Interned;
use adpl::list::{IndexArena, List, INVALID_SLOT};
use adpl::nonmax::NonMaxIndex;

#[test]
fn push_handles_start_at_zero_and_increase() {
    let mut arena: Arena<u64> = Arena::new();
    let a = arena.push(10);
    let b = arena.push(20);
    let c = arena.push(30);
    assert_eq!(a.index(), 0);
    assert_eq!(b.index(), 1);
    assert_eq!(c.index(), 2);
    assert_eq!(arena.len(), 3);
}

#[test]
fn lookups_return_the_exact_pushed_values() {
    let mut arena: Arena<&'static str> = Arena::with_capacity(4);
    let a = arena.push("first");
    let b = arena.push("second");
    let c = arena.push("third");
    assert_eq!(*arena.get(a), "first");
    assert_eq!(*arena.get(b), "second");
    assert_eq!(*arena.get(c), "third");
    // pushing more never moves what is already stored
    let _ = arena.push("fourth");
    assert_eq!(*arena.get(a), "first");
    assert_eq!(*arena.get(b), "second");
}

#[test]
fn next_index_predicts_push() {
    let mut arena: Arena<u32> = Arena::new();
    arena.reserve(8);
    let predicted = arena.next_index();
    let actual = arena.push(7);
    assert_eq!(predicted.index(), actual.index());
    assert_eq!(arena.values().len(), 1);
    let keys = arena.keys();
    assert_eq!(keys.start.index(), 0);
    assert_eq!(keys.end.index(), 1);
}

#[test]
fn nonmax_round_trips_below_the_maximum() {
    for raw in [0u32, 1, 2, 1000, u32::MAX - 1] {
        let packed = NonMaxIndex::new(Index::<u8>::new(raw)).expect("below the maximum");
        assert_eq!(packed.get().index(), raw as usize);
    }
}

#[test]
fn nonmax_rejects_the_maximum_index() {
    assert!(NonMaxIndex::new(Index::<u8>::new(u32::MAX)).is_none());
}

#[test]
fn nonmax_zero_is_a_legitimate_handle() {
    // zero must not be treated as the "absent" pattern
    let packed = NonMaxIndex::new(Index::<u8>::new(0)).unwrap();
    assert_eq!(packed.get().index(), 0);
    let other = NonMaxIndex::new(Index::<u8>::new(0)).unwrap();
    assert!(packed == other);
}

#[test]
fn index_equality_is_numeric() {
    let a = Index::<u16>::from_usize(5);
    let b = Index::<u16>::new(5);
    let c = Index::<u16>::new(6);
    assert!(a == b);
    assert!(!(a == c));
    let range = IndexRange { start: a, end: c };
    assert_eq!(range.len(), 1);
}

#[test]
fn index_arena_extends_and_reads_back() {
    let mut lists = IndexArena::new();
    let handles: Vec<Index<u64>> = vec![Index::new(3), Index::new(1), Index::new(4)];
    let list = lists.extend_from_slice(&handles);
    assert_eq!(list.len(), 3);
    assert_eq!(lists.get(list, 0).index(), 3);
    assert_eq!(lists.get(list, 1).index(), 1);
    assert_eq!(lists.get(list, 2).index(), 4);
}

#[test]
fn index_arena_invalid_region_is_filled_then_written() {
    let mut lists = IndexArena::with_capacity(4);
    lists.reserve(2);
    let list: List<u64> = lists.extend_invalid(2);
    assert_eq!(list.len(), 2);
    assert_eq!(lists.get_raw(list, 0), INVALID_SLOT);
    assert_eq!(lists.get_raw(list, 1), INVALID_SLOT);
    lists.set(list, 1, Index::new(9));
    assert_eq!(lists.get_raw(list, 0), INVALID_SLOT);
    assert_eq!(lists.get(list, 1).index(), 9);
}

#[test]
fn empty_list_has_length_zero() {
    let list: List<u32> = List::new();
    assert_eq!(list.len(), 0);
    let lists = IndexArena::new();
    assert_eq!(lists.len(), 0);
}

#[test]
fn interning_equal_values_shares_one_handle() {
    let mut interned: Interned<u64> = Interned::new();
    let a = interned.intern(42);
    let b = interned.intern(7);
    let c = interned.intern(42);
    assert_eq!(a.index(), c.index());
    assert_ne!(a.index(), b.index());
    assert_eq!(*interned.get(a), 42);
    assert_eq!(*interned.get(b), 7);
}

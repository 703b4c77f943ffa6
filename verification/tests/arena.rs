//! The slot arena: stable indices, hole reuse, iteration over occupied
//! slots.

use frp::static_indices_vec::{Index, StaticIndicesVec};

#[test]
fn arena_push_returns_consecutive_indices() {
    let mut arena: StaticIndicesVec<i64> = StaticIndicesVec::new();
    assert_eq!(arena.push(10), Index(0));
    assert_eq!(arena.push(20), Index(1));
    assert_eq!(arena.push(30), Index(2));
}

#[test]
fn arena_get_returns_stored_elements() {
    let mut arena: StaticIndicesVec<i64> = StaticIndicesVec::new();
    let a = arena.push(10);
    let b = arena.push(20);
    assert_eq!(arena.get(&a), Some(&10));
    assert_eq!(arena.get(&b), Some(&20));
    assert_eq!(arena.get(&Index(5)), None);
}

#[test]
fn arena_remove_leaves_hole_and_keeps_other_indices() {
    let mut arena: StaticIndicesVec<i64> = StaticIndicesVec::new();
    let a = arena.push(10);
    let b = arena.push(20);
    let c = arena.push(30);
    assert_eq!(arena.remove(b), 20);
    assert_eq!(arena.get(&b), None);
    assert_eq!(arena.get(&a), Some(&10));
    assert_eq!(arena.get(&c), Some(&30));
}

#[test]
fn arena_push_reuses_first_hole() {
    let mut arena: StaticIndicesVec<i64> = StaticIndicesVec::new();
    let _a = arena.push(10);
    let b = arena.push(20);
    let c = arena.push(30);
    arena.remove(c);
    arena.remove(b);
    // Two holes; the next push fills the lower one first.
    assert_eq!(arena.push(21), b);
    assert_eq!(arena.push(31), c);
    assert_eq!(arena.get(&b), Some(&21));
    assert_eq!(arena.get(&c), Some(&31));
}

#[test]
fn arena_get_mut_mutates_in_place() {
    let mut arena: StaticIndicesVec<i64> = StaticIndicesVec::new();
    let a = arena.push(10);
    assert!(arena.is_live(&a));
    let v = arena.get_mut(&a);
    *v = 11;
    assert_eq!(arena.get(&a), Some(&11));
}

#[test]
fn arena_iter_skips_holes_in_index_order() {
    let mut arena: StaticIndicesVec<i64> = StaticIndicesVec::new();
    let a = arena.push(10);
    let b = arena.push(20);
    let c = arena.push(30);
    arena.remove(b);
    assert_eq!(arena.iter(), vec![a, c]);
    // Iteration is restartable and reflects live contents at call time.
    arena.remove(a);
    assert_eq!(arena.iter(), vec![c]);
}

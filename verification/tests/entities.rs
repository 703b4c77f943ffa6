//! Entities: per-entity properties, handle validity, and slot reuse.

use frp::behaviors::{Alias, Constant, Expr, Kind, Storage, Val};
use frp::{PropKey, State, StoreError};

fn int_key(pid: u64) -> PropKey {
    PropKey { pid, value_kind: Kind::KInt }
}

fn iv(i: i64) -> Val {
    Val::Int(i)
}

#[test]
fn entity_properties_are_scoped_to_the_entity() {
    let mut state = State::new();
    let a = state.create_entity();
    let b = state.create_entity();
    assert_eq!(a.add(&mut state, int_key(1), Constant(iv(10))), Ok(()));
    assert_eq!(b.add(&mut state, int_key(1), Constant(iv(20))), Ok(()));
    assert_eq!(a.get(&mut state, int_key(1)), Ok(Some(iv(10))));
    assert_eq!(b.get(&mut state, int_key(1)), Ok(Some(iv(20))));
    // An entity property is not a global one and the other way round.
    assert_eq!(state.get(int_key(1)), Ok(None));
    state.add(int_key(2), Constant(iv(30)));
    assert_eq!(a.get(&mut state, int_key(2)), Ok(None));
}

#[test]
fn entity_behavior_reads_its_own_entity_and_globals() {
    let mut state = State::new();
    state.add(int_key(1), Constant(iv(100)));
    let a = state.create_entity();
    assert_eq!(a.add(&mut state, int_key(2), Constant(iv(5))), Ok(()));
    // The sum of a global property and a property of the same entity.
    assert_eq!(
        a.add(
            &mut state,
            int_key(3),
            Alias(Expr::Plus(Box::new(Expr::ReadGlobal(1)), Box::new(Expr::ReadSelf(2)))),
        ),
        Ok(())
    );
    assert_eq!(a.get(&mut state, int_key(3)), Ok(Some(iv(105))));
}

#[test]
fn global_behavior_has_no_entity_context() {
    let mut state = State::new();
    let a = state.create_entity();
    assert_eq!(a.add(&mut state, int_key(1), Constant(iv(5))), Ok(()));
    // A global alias reading an entity-scoped property finds no context.
    state.add(int_key(2), Alias(Expr::ReadSelf(1)));
    assert_eq!(state.get(int_key(2)), Ok(None));
    // Read through the entity, the same alias still runs globally.
    assert_eq!(a.get(&mut state, int_key(2)), Ok(None));
}

#[test]
fn entity_storage_reading_itself_fails_fatally() {
    let mut state = State::new();
    let a = state.create_entity();
    assert_eq!(
        a.add(&mut state, int_key(1), Storage(iv(0), Expr::ReadSelf(1), Expr::StateRef)),
        Ok(())
    );
    assert_eq!(a.get(&mut state, int_key(1)), Err(StoreError::RecursiveBehavior));
}

#[test]
fn stale_handle_operations_fail_with_invalid_handle() {
    let mut state = State::new();
    let a = state.create_entity();
    let id = a.get_id();
    assert_eq!(state.remove_entity(&id), Ok(()));
    // The slot is free: removing again, adding and reading all fail loudly.
    assert_eq!(state.remove_entity(&id), Err(StoreError::InvalidHandle));
    assert_eq!(a.add(&mut state, int_key(1), Constant(iv(1))), Err(StoreError::InvalidHandle));
    assert_eq!(a.get(&mut state, int_key(1)), Err(StoreError::InvalidHandle));
    assert!(state.entity(&id).is_none());
}

#[test]
fn freed_slot_is_reused_and_stale_handles_alias_the_new_occupant() {
    let mut state = State::new();
    let a = state.create_entity();
    let a_id = a.get_id();
    assert_eq!(a.add(&mut state, int_key(1), Constant(iv(10))), Ok(()));
    assert_eq!(state.remove_entity(&a_id), Ok(()));
    // The next creation reuses the freed slot: same index, different
    // entity, empty table.
    let b = state.create_entity();
    assert_eq!(b.get_id(), a_id);
    assert_eq!(b.get(&mut state, int_key(1)), Ok(None));
    assert_eq!(b.add(&mut state, int_key(1), Constant(iv(20))), Ok(()));
    // A handle rehydrated from the stale identifier addresses the new
    // occupant: expected aliasing, not corruption.
    let stale = state.entity(&a_id).unwrap();
    assert_eq!(stale.get(&mut state, int_key(1)), Ok(Some(iv(20))));
}

#[test]
fn entities_fill_the_lowest_free_slot_first() {
    let mut state = State::new();
    let a = state.create_entity();
    let b = state.create_entity();
    let c = state.create_entity();
    assert_eq!(state.remove_entity(&a.get_id()), Ok(()));
    assert_eq!(state.remove_entity(&b.get_id()), Ok(()));
    let d = state.create_entity();
    let e = state.create_entity();
    let f = state.create_entity();
    assert_eq!(d.get_id(), a.get_id());
    assert_eq!(e.get_id(), b.get_id());
    assert_ne!(f.get_id(), c.get_id());
}

//! The store's behavior contracts, exercised end to end: constants,
//! aliases, storage folds, the recursion guard, absence, and the clock /
//! movement / position scenario.

use frp::behaviors::{Alias, Constant, Expr, Kind, Storage, Val};
use frp::{PropKey, State, StoreError};

fn int_key(pid: u64) -> PropKey {
    PropKey { pid, value_kind: Kind::KInt }
}

fn pair_key(pid: u64) -> PropKey {
    PropKey { pid, value_kind: Kind::KDuo(Box::new(Kind::KInt), Box::new(Kind::KInt)) }
}

fn iv(i: i64) -> Val {
    Val::Int(i)
}

fn pair(a: i64, b: i64) -> Val {
    Val::Duo(Box::new(Val::Int(a)), Box::new(Val::Int(b)))
}

fn lit(i: i64) -> Expr {
    Expr::Lit(Val::Int(i))
}

#[test]
fn constant_reads_same_value_every_time() {
    let mut state = State::new();
    state.add(int_key(1), Constant(iv(7)));
    for _ in 0..3 {
        assert_eq!(state.get(int_key(1)), Ok(Some(iv(7))));
    }
}

#[test]
fn alias_is_evaluated_fresh_on_every_read() {
    let mut state = State::new();
    const RAW: u64 = 1;
    const VIEWED: u64 = 2;
    state.add(int_key(RAW), Constant(iv(5)));
    state.add(int_key(VIEWED), Alias(Expr::ReadGlobal(RAW)));
    assert_eq!(state.get(int_key(VIEWED)), Ok(Some(iv(5))));
    // The underlying state changes; the next read must reflect it.
    state.add(int_key(RAW), Constant(iv(9)));
    assert_eq!(state.get(int_key(VIEWED)), Ok(Some(iv(9))));
}

#[test]
fn storage_folds_state_across_reads() {
    let mut state = State::new();
    // A counter: each read feeds the previous state into the update and
    // returns the new state.
    state.add(
        int_key(1),
        Storage(iv(0), Expr::Plus(Box::new(Expr::StateRef), Box::new(lit(1))), Expr::StateRef),
    );
    assert_eq!(state.get(int_key(1)), Ok(Some(iv(1))));
    assert_eq!(state.get(int_key(1)), Ok(Some(iv(2))));
    assert_eq!(state.get(int_key(1)), Ok(Some(iv(3))));
}

#[test]
fn storage_keeps_state_when_update_is_absent() {
    let mut state = State::new();
    const MISSING: u64 = 9;
    state.add(
        int_key(1),
        Storage(
            iv(0),
            Expr::Plus(Box::new(Expr::StateRef), Box::new(Expr::ReadGlobal(MISSING))),
            Expr::StateRef,
        ),
    );
    // The update depends on an unregistered property: the read is absent.
    assert_eq!(state.get(int_key(1)), Ok(None));
    // The old state is kept: registering the dependency, the fold resumes
    // from the initial state.
    state.add(int_key(MISSING), Constant(iv(10)));
    assert_eq!(state.get(int_key(1)), Ok(Some(iv(10))));
    assert_eq!(state.get(int_key(1)), Ok(Some(iv(20))));
}

#[test]
fn recursive_storage_fails_fatally() {
    let mut state = State::new();
    // A storage behavior whose update reads its own property.
    state.add(int_key(1), Storage(iv(0), Expr::ReadGlobal(1), Expr::StateRef));
    assert_eq!(state.get(int_key(1)), Err(StoreError::RecursiveBehavior));
    // The failed read left the store intact: the same read fails the same
    // way again instead of hanging or corrupting the state.
    assert_eq!(state.get(int_key(1)), Err(StoreError::RecursiveBehavior));
}

#[test]
fn recursive_storage_fails_at_any_nesting_depth() {
    let mut state = State::new();
    // The self-read is buried inside arithmetic rather than direct.
    state.add(
        int_key(1),
        Storage(
            iv(0),
            Expr::Plus(
                Box::new(Expr::Times(Box::new(Expr::ReadGlobal(1)), Box::new(lit(2)))),
                Box::new(lit(1)),
            ),
            Expr::StateRef,
        ),
    );
    assert_eq!(state.get(int_key(1)), Err(StoreError::RecursiveBehavior));
}

#[test]
fn recursive_alias_cycle_fails_fatally() {
    let mut state = State::new();
    // Two aliases reading each other: the cycle is caught when the chain
    // re-enters the checked-out entry.
    state.add(int_key(1), Alias(Expr::ReadGlobal(2)));
    state.add(int_key(2), Alias(Expr::ReadGlobal(1)));
    assert_eq!(state.get(int_key(1)), Err(StoreError::RecursiveBehavior));
}

#[test]
fn or_else_does_not_catch_the_fatal_condition() {
    let mut state = State::new();
    state.add(int_key(1), Storage(iv(0), Expr::ReadGlobal(1), Expr::StateRef));
    // Absence is recoverable through OrElse; the recursive-behavior
    // condition is not: it unwinds the whole read.
    state.add(
        int_key(2),
        Alias(Expr::OrElse(Box::new(Expr::ReadGlobal(1)), Box::new(lit(0)))),
    );
    assert_eq!(state.get(int_key(2)), Err(StoreError::RecursiveBehavior));
}

#[test]
fn unregistered_property_is_absent() {
    let mut state = State::new();
    assert_eq!(state.get(int_key(42)), Ok(None));
}

#[test]
fn kind_mismatch_is_absent_not_a_wrong_value() {
    let mut state = State::new();
    state.add(int_key(1), Constant(iv(5)));
    // Reading the same identity while expecting a pair: absent.
    assert_eq!(state.get(pair_key(1)), Ok(None));
    // Reading with the right kind still works.
    assert_eq!(state.get(int_key(1)), Ok(Some(iv(5))));
    // A pair of pairs is not a pair of integers.
    state.add(pair_key(2), Constant(Val::Duo(Box::new(pair(1, 2)), Box::new(iv(3)))));
    assert_eq!(state.get(pair_key(2)), Ok(None));
}

#[test]
fn or_else_defaults_a_missing_dependency() {
    let mut state = State::new();
    const MISSING: u64 = 9;
    state.add(
        int_key(1),
        Alias(Expr::OrElse(Box::new(Expr::ReadGlobal(MISSING)), Box::new(lit(0)))),
    );
    assert_eq!(state.get(int_key(1)), Ok(Some(iv(0))));
    state.add(int_key(MISSING), Constant(iv(3)));
    assert_eq!(state.get(int_key(1)), Ok(Some(iv(3))));
}

#[test]
fn arithmetic_out_of_range_is_absent() {
    let mut state = State::new();
    state.add(int_key(1), Alias(Expr::Plus(Box::new(lit(i64::MAX)), Box::new(lit(1)))));
    assert_eq!(state.get(int_key(1)), Ok(None));
    state.add(int_key(2), Alias(Expr::Times(Box::new(lit(i64::MIN)), Box::new(lit(-1)))));
    assert_eq!(state.get(int_key(2)), Ok(None));
    state.add(int_key(3), Alias(Expr::Minus(Box::new(lit(i64::MIN)), Box::new(lit(1)))));
    assert_eq!(state.get(int_key(3)), Ok(None));
}

#[test]
fn projections_and_pairs_evaluate() {
    let mut state = State::new();
    state.add(pair_key(1), Constant(pair(4, 7)));
    state.add(int_key(2), Alias(Expr::Fst(Box::new(Expr::ReadGlobal(1)))));
    state.add(int_key(3), Alias(Expr::Snd(Box::new(Expr::ReadGlobal(1)))));
    state.add(
        pair_key(4),
        Alias(Expr::DuoOf(Box::new(Expr::ReadGlobal(3)), Box::new(Expr::ReadGlobal(2)))),
    );
    assert_eq!(state.get(int_key(2)), Ok(Some(iv(4))));
    assert_eq!(state.get(int_key(3)), Ok(Some(iv(7))));
    assert_eq!(state.get(pair_key(4)), Ok(Some(pair(7, 4))));
    // Projecting an integer is absent, not an error.
    assert_eq!(state.get(int_key(5)), Ok(None));
    state.add(int_key(5), Alias(Expr::Fst(Box::new(Expr::ReadGlobal(2)))));
    assert_eq!(state.get(int_key(5)), Ok(None));
}

// The end-to-end scenario: a clock, a constant movement vector, and a
// position accumulating movement x elapsed time. Values are in fixed-point
// units to keep the arithmetic exact: the clock and the movement vector
// carry half-units (2 means 1.0), the position quarter-units (8 means 2.0).
#[test]
fn clock_movement_position_scenario() {
    const CLOCK_SOURCE: u64 = 1;
    const CLOCK: u64 = 2;
    const MOVEMENT: u64 = 3;
    const POSITION: u64 = 4;

    let mut state = State::new();
    // The clock is an alias, evaluated fresh on every read; the test plays
    // the external time source by re-registering the underlying property.
    state.add(int_key(CLOCK_SOURCE), Constant(iv(0)));
    state.add(int_key(CLOCK), Alias(Expr::ReadGlobal(CLOCK_SOURCE)));
    // Movement (1.0, 0.5) in half-units.
    state.add(pair_key(MOVEMENT), Constant(pair(2, 1)));
    // Position: state is ((x, y), last clock value); each read adds
    // movement x elapsed time to the position and remembers the clock.
    let x_of = |e: Expr| Expr::Fst(Box::new(e));
    let y_of = |e: Expr| Expr::Snd(Box::new(e));
    let elapsed = || {
        Expr::Minus(
            Box::new(Expr::ReadGlobal(CLOCK)),
            Box::new(y_of(Expr::StateRef)),
        )
    };
    let step = |pick: &dyn Fn(Expr) -> Expr| {
        Expr::Plus(
            Box::new(pick(x_of(Expr::StateRef))),
            Box::new(Expr::Times(
                Box::new(pick(Expr::ReadGlobal(MOVEMENT))),
                Box::new(elapsed()),
            )),
        )
    };
    let update = Expr::DuoOf(
        Box::new(Expr::DuoOf(
            Box::new(step(&|e| Expr::Fst(Box::new(e)))),
            Box::new(step(&|e| Expr::Snd(Box::new(e)))),
        )),
        Box::new(Expr::ReadGlobal(CLOCK)),
    );
    let initial = Val::Duo(Box::new(pair(0, 0)), Box::new(Val::Int(0)));
    state.add(pair_key(POSITION), Storage(initial, update, x_of(Expr::StateRef)));

    // At the initial instant the position is (0, 0).
    assert_eq!(state.get(pair_key(POSITION)), Ok(Some(pair(0, 0))));
    // The clock advances by 2.0 (4 half-units): position (2.0, 1.0), which
    // is (8, 4) in quarter-units.
    state.add(int_key(CLOCK_SOURCE), Constant(iv(4)));
    assert_eq!(state.get(int_key(CLOCK)), Ok(Some(iv(4))));
    assert_eq!(state.get(pair_key(POSITION)), Ok(Some(pair(8, 4))));
    // One more second: position (3.0, 1.5) = (12, 6) - cumulative, not
    // reset.
    state.add(int_key(CLOCK_SOURCE), Constant(iv(6)));
    assert_eq!(state.get(pair_key(POSITION)), Ok(Some(pair(12, 6))));
}

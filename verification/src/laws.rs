//! The guarantees of the evaluation protocol, each stated and proved over
//! the store model: what constants, aliases and storage behaviors return,
//! what absence means, how the recursion guard fires, and how freed entity
//! slots are reused.

use vstd::prelude::*;

use crate::behaviors::{kind_of, Behavior, BehaviorDef, Expr, Kind, Val};
use crate::eval::{
    ctx_of, eval_spec, lemma_eval_shape, lemma_idle_take, lemma_shape_metric, read_spec,
    restore_model, scope_table, scope_valid, wf_model, with_scope_table, EvalOut, Scope,
    StoreModel,
};

verus! {

/// The store after reading the same property `n` times in a row, with the
/// outcome of the last read.
pub open spec fn read_n(m: StoreModel, sc: Scope, pid: u64, n: nat) -> (EvalOut, StoreModel)
    decreases n,
{
    if n <= 1 {
        read_spec(m, sc, pid)
    } else {
        let (_, m1) = read_n(m, sc, pid, (n - 1) as nat);
        read_spec(m1, sc, pid)
    }
}

/// Constant behavior: however many times a constant property is read, every
/// read returns the registered value and the store is left exactly as it
/// was — reading a constant mutates nothing.
pub proof fn lemma_constant_reads(m: StoreModel, sc: Scope, pid: u64, v: Val, n: nat)
    requires
        wf_model(m),
        scope_valid(m, sc),
        scope_table(m, sc).contains_key(pid),
        scope_table(m, sc)[pid] == Some(Behavior { def: BehaviorDef::Fixed(v) }),
        n >= 1,
    ensures
        read_n(m, sc, pid, n) == (EvalOut::Value(v), m),
    decreases n,
{
    if n > 1 {
        lemma_constant_reads(m, sc, pid, v, (n - 1) as nat);
    }
}

/// Alias behavior: a read evaluates the alias expression afresh against the
/// store as it stands at that read — nothing is cached — and the alias entry
/// itself comes out of the read unchanged, since an alias carries no state.
pub proof fn lemma_alias_read(m: StoreModel, sc: Scope, pid: u64, ae: Expr)
    requires
        wf_model(m),
        scope_valid(m, sc),
        scope_table(m, sc).contains_key(pid),
        scope_table(m, sc)[pid] == Some(Behavior { def: BehaviorDef::Derived(ae) }),
    ensures
        ({
            let m1 = with_scope_table(m, sc, scope_table(m, sc).insert(pid, None));
            let (r, m2) = eval_spec(m1, ctx_of(sc), None, ae);
            read_spec(m, sc, pid) == (
                r,
                restore_model(m2, sc, pid, Behavior { def: BehaviorDef::Derived(ae) }),
            )
        }),
        scope_valid(read_spec(m, sc, pid).1, sc),
        scope_table(read_spec(m, sc, pid).1, sc).contains_key(pid),
        scope_table(read_spec(m, sc, pid).1, sc)[pid] == Some(
            Behavior { def: BehaviorDef::Derived(ae) },
        ),
{
    let t = scope_table(m, sc);
    let m1 = with_scope_table(m, sc, t.insert(pid, None));
    lemma_idle_take(t, pid);
    assert(wf_model(m1));
    lemma_eval_shape(m1, ctx_of(sc), None, ae);
    let (r, m2) = eval_spec(m1, ctx_of(sc), None, ae);
    let b = Behavior { def: BehaviorDef::Derived(ae) };
    lemma_restore_entry(m1, m2, sc, pid, b);
}

/// After a behavior of `pid` ran on the checked-out store `m1` and left
/// `m2`, the restored store holds `b` at rest under `pid` in the same
/// scope.
proof fn lemma_restore_entry(m1: StoreModel, m2: StoreModel, sc: Scope, pid: u64, b: Behavior)
    requires
        scope_valid(m1, sc),
        scope_table(m1, sc).contains_key(pid),
        scope_table(m1, sc)[pid] is None,
        crate::eval::shape_eq(m1, m2),
    ensures
        scope_valid(m2, sc),
        scope_table(m2, sc).contains_key(pid),
        scope_table(m2, sc)[pid] is None,
        scope_valid(restore_model(m2, sc, pid, b), sc),
        scope_table(restore_model(m2, sc, pid, b), sc).contains_key(pid),
        scope_table(restore_model(m2, sc, pid, b), sc)[pid] == Some(b),
{
    match sc {
        Scope::Global => {},
        Scope::Ent(e) => {
            assert(m2.entities[e] is Some);
            assert(crate::eval::table_shape_eq(
                m1.entities[e].unwrap(),
                m2.entities[e].unwrap(),
            ));
        },
    }
}

/// Storage behavior, the sequential fold: a read feeds the checked-out
/// state to the update expression; where that produces a new state, the new
/// state is persisted — so the next read's input is exactly this read's
/// output — and the read returns the output expression evaluated on the new
/// state. Where the update comes out absent or fatal, the old state is
/// kept.
pub proof fn lemma_storage_read(m: StoreModel, sc: Scope, pid: u64, s: Val, ue: Expr, oe: Expr)
    requires
        wf_model(m),
        scope_valid(m, sc),
        scope_table(m, sc).contains_key(pid),
        scope_table(m, sc)[pid] == Some(Behavior { def: BehaviorDef::Stored(s, ue, oe) }),
    ensures
        ({
            let m1 = with_scope_table(m, sc, scope_table(m, sc).insert(pid, None));
            let (r1, m2) = eval_spec(m1, ctx_of(sc), Some(s), ue);
            match r1 {
                EvalOut::Value(s2) => {
                    let (r3, m3) = eval_spec(m2, ctx_of(sc), Some(s2), oe);
                    let mf = restore_model(
                        m3,
                        sc,
                        pid,
                        Behavior { def: BehaviorDef::Stored(s2, ue, oe) },
                    );
                    read_spec(m, sc, pid) == (r3, mf) && scope_table(mf, sc)[pid] == Some(
                        Behavior { def: BehaviorDef::Stored(s2, ue, oe) },
                    )
                },
                _ => {
                    let mf = restore_model(
                        m2,
                        sc,
                        pid,
                        Behavior { def: BehaviorDef::Stored(s, ue, oe) },
                    );
                    read_spec(m, sc, pid) == (r1, mf) && scope_table(mf, sc)[pid] == Some(
                        Behavior { def: BehaviorDef::Stored(s, ue, oe) },
                    )
                },
            }
        }),
{
    let t = scope_table(m, sc);
    let m1 = with_scope_table(m, sc, t.insert(pid, None));
    lemma_idle_take(t, pid);
    assert(wf_model(m1));
    lemma_eval_shape(m1, ctx_of(sc), Some(s), ue);
    let (r1, m2) = eval_spec(m1, ctx_of(sc), Some(s), ue);
    match r1 {
        EvalOut::Value(s2) => {
            lemma_shape_metric(m1, m2, ctx_of(sc));
            lemma_eval_shape(m2, ctx_of(sc), Some(s2), oe);
            let (r3, m3) = eval_spec(m2, ctx_of(sc), Some(s2), oe);
            crate::eval::lemma_shape_trans(m1, m2, m3);
            lemma_restore_entry(m1, m3, sc, pid, Behavior { def: BehaviorDef::Stored(s2, ue, oe) });
        },
        _ => {
            lemma_restore_entry(m1, m2, sc, pid, Behavior { def: BehaviorDef::Stored(s, ue, oe) });
        },
    }
}

/// Whether evaluating `e` necessarily begins by reading the property `pid`
/// in scope `sc`: the expression is that read, or its first-evaluated
/// operand is.
pub open spec fn leads_with_read(e: Expr, ctx: Option<int>, sc: Scope, pid: u64) -> bool
    decreases e,
{
    match e {
        Expr::Lit(_) => false,
        Expr::StateRef => false,
        Expr::ReadGlobal(p) => sc == Scope::Global && p == pid,
        Expr::ReadSelf(p) => match ctx {
            Some(eidx) => sc == Scope::Ent(eidx) && p == pid,
            None => false,
        },
        Expr::Fst(a) => leads_with_read(*a, ctx, sc, pid),
        Expr::Snd(a) => leads_with_read(*a, ctx, sc, pid),
        Expr::DuoOf(a, _) => leads_with_read(*a, ctx, sc, pid),
        Expr::Plus(a, _) => leads_with_read(*a, ctx, sc, pid),
        Expr::Minus(a, _) => leads_with_read(*a, ctx, sc, pid),
        Expr::Times(a, _) => leads_with_read(*a, ctx, sc, pid),
        Expr::OrElse(a, _) => leads_with_read(*a, ctx, sc, pid),
    }
}

/// Reading a property whose entry is checked out — it is being evaluated
/// further up the same read — is the fatal recursive-behavior condition,
/// and leaves the store untouched.
pub proof fn lemma_busy_read(m: StoreModel, sc: Scope, pid: u64)
    requires
        wf_model(m),
        scope_valid(m, sc),
        scope_table(m, sc).contains_key(pid),
        scope_table(m, sc)[pid] is None,
    ensures
        read_spec(m, sc, pid) == (EvalOut::Recursive, m),
{
}

/// An expression that begins by reading a checked-out property evaluates to
/// the fatal recursive-behavior condition, however deeply the read is
/// nested, and leaves the store untouched.
pub proof fn lemma_eval_busy(
    m: StoreModel,
    ctx: Option<int>,
    env: Option<Val>,
    e: Expr,
    sc: Scope,
    pid: u64,
)
    requires
        wf_model(m),
        scope_valid(m, sc),
        scope_table(m, sc).contains_key(pid),
        scope_table(m, sc)[pid] is None,
        leads_with_read(e, ctx, sc, pid),
    ensures
        eval_spec(m, ctx, env, e) == (EvalOut::Recursive, m),
    decreases e,
{
    match e {
        Expr::Lit(_) => {},
        Expr::StateRef => {},
        Expr::ReadGlobal(p) => {
            assert(sc == Scope::Global && p == pid);
            assert(eval_spec(m, ctx, env, e) == read_spec(m, Scope::Global, p));
        },
        Expr::ReadSelf(p) => {
            assert(ctx is Some);
            let eidx = ctx.unwrap();
            assert(sc == Scope::Ent(eidx) && p == pid);
            assert(eval_spec(m, ctx, env, e) == read_spec(m, Scope::Ent(eidx), p));
        },
        Expr::Fst(a) => {
            lemma_eval_busy(m, ctx, env, *a, sc, pid);
        },
        Expr::Snd(a) => {
            lemma_eval_busy(m, ctx, env, *a, sc, pid);
        },
        Expr::DuoOf(a, _) => {
            lemma_eval_busy(m, ctx, env, *a, sc, pid);
        },
        Expr::Plus(a, b) => {
            lemma_eval_busy(m, ctx, env, *a, sc, pid);
            assert(crate::eval::arith_seq_spec(m, ctx, env, crate::eval::ArithOp::Plus, *a, *b)
                == (EvalOut::Recursive, m));
        },
        Expr::Minus(a, b) => {
            lemma_eval_busy(m, ctx, env, *a, sc, pid);
            assert(crate::eval::arith_seq_spec(m, ctx, env, crate::eval::ArithOp::Minus, *a, *b)
                == (EvalOut::Recursive, m));
        },
        Expr::Times(a, b) => {
            lemma_eval_busy(m, ctx, env, *a, sc, pid);
            assert(crate::eval::arith_seq_spec(m, ctx, env, crate::eval::ArithOp::Times, *a, *b)
                == (EvalOut::Recursive, m));
        },
        Expr::OrElse(a, _) => {
            lemma_eval_busy(m, ctx, env, *a, sc, pid);
            assert(eval_spec(m, ctx, env, e) == (EvalOut::Recursive, m));
        },
    }
}

/// The recursion guard: a storage behavior whose update expression begins
/// by reading its own property fails fatally with the recursive-behavior
/// condition — it neither hangs nor returns a value — and the store,
/// including the behavior's private state, is left exactly as it was.
pub proof fn lemma_recursive_storage(m: StoreModel, sc: Scope, pid: u64, s: Val, ue: Expr, oe: Expr)
    requires
        wf_model(m),
        scope_valid(m, sc),
        scope_table(m, sc).contains_key(pid),
        scope_table(m, sc)[pid] == Some(Behavior { def: BehaviorDef::Stored(s, ue, oe) }),
        leads_with_read(ue, ctx_of(sc), sc, pid),
    ensures
        read_spec(m, sc, pid) == (EvalOut::Recursive, m),
{
    let t = scope_table(m, sc);
    let m1 = with_scope_table(m, sc, t.insert(pid, None));
    lemma_idle_take(t, pid);
    assert(wf_model(m1));
    lemma_eval_busy(m1, ctx_of(sc), Some(s), ue, sc, pid);
    let b = Behavior { def: BehaviorDef::Stored(s, ue, oe) };
    let mf = restore_model(m1, sc, pid, b);
    match sc {
        Scope::Global => {
            assert(mf.globals =~= m.globals);
            assert(mf =~= m);
        },
        Scope::Ent(eidx) => {
            assert(mf.entities[eidx].unwrap() =~= t);
            assert(mf.entities =~= m.entities);
            assert(mf =~= m);
        },
    }
}

/// An expression that begins by reading a global alias whose own expression
/// begins by reading the checked-out property `p` evaluates to the fatal
/// recursive-behavior condition and leaves the store untouched: the guard
/// catches cycles that run through another property, not only self-reads.
pub proof fn lemma_eval_busy_via_alias(
    m: StoreModel,
    ctx: Option<int>,
    env: Option<Val>,
    e: Expr,
    q: u64,
    qe: Expr,
    p: u64,
)
    requires
        wf_model(m),
        m.globals.contains_key(p),
        m.globals[p] is None,
        m.globals.contains_key(q),
        m.globals[q] == Some(Behavior { def: BehaviorDef::Derived(qe) }),
        p != q,
        leads_with_read(e, ctx, Scope::Global, q),
        leads_with_read(qe, None, Scope::Global, p),
    ensures
        eval_spec(m, ctx, env, e) == (EvalOut::Recursive, m),
    decreases e,
{
    match e {
        Expr::Lit(_) => {},
        Expr::StateRef => {},
        Expr::ReadGlobal(q2) => {
            assert(q2 == q);
            let t = m.globals;
            let m1 = with_scope_table(m, Scope::Global, t.insert(q, None));
            lemma_idle_take(t, q);
            assert(wf_model(m1));
            assert(m1.globals.contains_key(p) && m1.globals[p] is None);
            lemma_eval_busy(m1, None, None, qe, Scope::Global, p);
            let b = Behavior { def: BehaviorDef::Derived(qe) };
            let mf = restore_model(m1, Scope::Global, q, b);
            assert(mf.globals =~= m.globals);
            assert(mf =~= m);
            assert(read_spec(m, Scope::Global, q) == (EvalOut::Recursive, m));
        },
        Expr::ReadSelf(_) => {
            assert(false);
        },
        Expr::Fst(a) => {
            lemma_eval_busy_via_alias(m, ctx, env, *a, q, qe, p);
        },
        Expr::Snd(a) => {
            lemma_eval_busy_via_alias(m, ctx, env, *a, q, qe, p);
        },
        Expr::DuoOf(a, _) => {
            lemma_eval_busy_via_alias(m, ctx, env, *a, q, qe, p);
        },
        Expr::Plus(a, b) => {
            lemma_eval_busy_via_alias(m, ctx, env, *a, q, qe, p);
            assert(crate::eval::arith_seq_spec(m, ctx, env, crate::eval::ArithOp::Plus, *a, *b)
                == (EvalOut::Recursive, m));
        },
        Expr::Minus(a, b) => {
            lemma_eval_busy_via_alias(m, ctx, env, *a, q, qe, p);
            assert(crate::eval::arith_seq_spec(m, ctx, env, crate::eval::ArithOp::Minus, *a, *b)
                == (EvalOut::Recursive, m));
        },
        Expr::Times(a, b) => {
            lemma_eval_busy_via_alias(m, ctx, env, *a, q, qe, p);
            assert(crate::eval::arith_seq_spec(m, ctx, env, crate::eval::ArithOp::Times, *a, *b)
                == (EvalOut::Recursive, m));
        },
        Expr::OrElse(a, _) => {
            lemma_eval_busy_via_alias(m, ctx, env, *a, q, qe, p);
        },
    }
}

/// A two-property cycle of global aliases — each one's expression begins by
/// reading the other — fails fatally with the recursive-behavior condition
/// and leaves the store untouched: the read neither hangs nor returns a
/// value.
pub proof fn lemma_alias_cycle(m: StoreModel, p: u64, pe: Expr, q: u64, qe: Expr)
    requires
        wf_model(m),
        m.globals.contains_key(p),
        m.globals[p] == Some(Behavior { def: BehaviorDef::Derived(pe) }),
        m.globals.contains_key(q),
        m.globals[q] == Some(Behavior { def: BehaviorDef::Derived(qe) }),
        p != q,
        leads_with_read(pe, None, Scope::Global, q),
        leads_with_read(qe, None, Scope::Global, p),
    ensures
        read_spec(m, Scope::Global, p) == (EvalOut::Recursive, m),
{
    let t = m.globals;
    let m1 = with_scope_table(m, Scope::Global, t.insert(p, None));
    lemma_idle_take(t, p);
    assert(wf_model(m1));
    lemma_eval_busy_via_alias(m1, None, None, pe, q, qe, p);
    let b = Behavior { def: BehaviorDef::Derived(pe) };
    let mf = restore_model(m1, Scope::Global, p, b);
    assert(mf.globals =~= m.globals);
    assert(mf =~= m);
}

/// Absence: reading a property identity with no registered behavior yields
/// the absent result and leaves the store untouched.
pub proof fn lemma_absent_read(m: StoreModel, sc: Scope, pid: u64)
    requires
        wf_model(m),
        !(scope_valid(m, sc) && scope_table(m, sc).contains_key(pid)),
    ensures
        read_spec(m, sc, pid) == (EvalOut::Absent, m),
{
}

/// Absence on a kind mismatch: a read that produced a value of some other
/// kind than the property's is reported absent, never as a wrongly typed
/// value; the fatal recursive-behavior condition is reported as the error,
/// never as absence.
pub proof fn lemma_read_result_kinds(o: EvalOut, expected: Kind)
    ensures
        ({
            let r = crate::read_result(o, expected);
            match o {
                EvalOut::Value(v) => r == if kind_of(v) == expected {
                    Ok::<Option<Val>, crate::StoreError>(Some(v))
                } else {
                    Ok::<Option<Val>, crate::StoreError>(None)
                },
                EvalOut::Absent => r == Ok::<Option<Val>, crate::StoreError>(None),
                EvalOut::Recursive => r == Err::<Option<Val>, crate::StoreError>(
                    crate::StoreError::RecursiveBehavior,
                ),
            }
        }),
{
}

} // verus!

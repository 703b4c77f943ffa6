//! The evaluation protocol, first as a mathematical model.
//!
//! A read checks the property's entry out of its table, evaluates the
//! behavior, and restores the entry afterwards. While the entry is checked
//! out, a nested read of the same property finds it busy and yields the
//! fatal recursive-behavior condition instead of looping: the number of
//! at-rest entries strictly shrinks along every chain of nested reads, which
//! is exactly why evaluation terminates.
//!
//! [`eval_spec`] and [`read_spec`] define what evaluating an expression and
//! reading a property mean, as functions over a [`StoreModel`]; the
//! executable store is proved to follow them step for step.

use vstd::prelude::*;

use crate::behaviors::{Behavior, BehaviorDef, Expr, Val};

verus! {

/// What evaluating an expression (or reading a property) came to.
pub enum EvalOut {
    /// The computed value.
    Value(Val),
    /// No value: a missing dependency, a shape mismatch, or arithmetic out
    /// of range. Recoverable; `OrElse` catches it.
    Absent,
    /// The fatal recursive-behavior condition: evaluation re-entered a
    /// property that is still being evaluated. Nothing catches it.
    Recursive,
}

/// The mathematical content of a store: the global table and the table of
/// each live entity, with each entry either at rest (`Some`) or checked out
/// (`None`).
#[verifier::ext_equal]
pub ghost struct StoreModel {
    pub globals: Map<u64, Option<Behavior>>,
    pub entities: Seq<Option<Map<u64, Option<Behavior>>>>,
}

/// Which table a read addresses: the global one, or a live entity's.
pub ghost enum Scope {
    Global,
    Ent(int),
}

/// The entity context a behavior in scope `sc` is evaluated with: entity
/// behaviors see their owning entity, global behaviors see none.
pub open spec fn ctx_of(sc: Scope) -> Option<int> {
    match sc {
        Scope::Global => None,
        Scope::Ent(e) => Some(e),
    }
}

/// Whether `sc` addresses a table that exists in `m`.
pub open spec fn scope_valid(m: StoreModel, sc: Scope) -> bool {
    match sc {
        Scope::Global => true,
        Scope::Ent(e) => 0 <= e < m.entities.len() && m.entities[e] is Some,
    }
}

/// The table `sc` addresses.
pub open spec fn scope_table(m: StoreModel, sc: Scope) -> Map<u64, Option<Behavior>> {
    match sc {
        Scope::Global => m.globals,
        Scope::Ent(e) => m.entities[e].unwrap(),
    }
}

/// `m` with the table `sc` addresses replaced by `t`.
pub open spec fn with_scope_table(
    m: StoreModel,
    sc: Scope,
    t: Map<u64, Option<Behavior>>,
) -> StoreModel {
    match sc {
        Scope::Global => StoreModel { globals: t, ..m },
        Scope::Ent(e) => StoreModel { entities: m.entities.update(e, Some(t)), ..m },
    }
}

/// A model is well-formed when every table has finitely many entries; the
/// executable store only ever holds such models.
pub open spec fn wf_model(m: StoreModel) -> bool {
    &&& m.globals.dom().finite()
    &&& forall|i: int|
        0 <= i < m.entities.len() && m.entities[i] is Some
            ==> (#[trigger] m.entities[i]).unwrap().dom().finite()
}

/// How many entries of `t` are at rest.
pub open spec fn idle_count(t: Map<u64, Option<Behavior>>) -> nat {
    t.dom().filter(|k: u64| t[k] is Some).len()
}

/// The termination measure of an evaluation running in context `ctx`: the
/// at-rest entries of the tables it can reach — the global table and, under
/// an entity context, that entity's table. Checking an entry out lowers it;
/// nothing during evaluation raises it.
pub open spec fn metric(m: StoreModel, ctx: Option<int>) -> nat {
    idle_count(m.globals) + match ctx {
        None => 0nat,
        Some(e) => if 0 <= e < m.entities.len() && m.entities[e] is Some {
            idle_count(m.entities[e].unwrap())
        } else {
            0nat
        },
    }
}

/// Checking an at-rest entry out lowers the number of at-rest entries by
/// exactly one.
pub proof fn lemma_idle_take(t: Map<u64, Option<Behavior>>, k: u64)
    requires
        t.dom().finite(),
        t.contains_key(k),
        t[k] is Some,
    ensures
        idle_count(t.insert(k, None)) + 1 == idle_count(t),
        t.insert(k, None).dom().finite(),
        t.insert(k, None).dom() == t.dom(),
{
    let t2 = t.insert(k, None);
    assert(t2.dom() =~= t.dom());
    let f = |q: u64| t[q] is Some;
    let f2 = |q: u64| t2[q] is Some;
    let s1 = t.dom().filter(f);
    let s2 = t2.dom().filter(f2);
    t.dom().lemma_len_filter(f);
    assert(s2 =~= s1.remove(k));
    assert(s1.contains(k));
    assert(s1.remove(k).len() + 1 == s1.len());
}

/// Restoring a checked-out entry raises the number of at-rest entries by
/// exactly one.
pub proof fn lemma_idle_restore(t: Map<u64, Option<Behavior>>, k: u64, b: Behavior)
    requires
        t.dom().finite(),
        t.contains_key(k),
        t[k] is None,
    ensures
        idle_count(t.insert(k, Some(b))) == idle_count(t) + 1,
        t.insert(k, Some(b)).dom().finite(),
        t.insert(k, Some(b)).dom() == t.dom(),
{
    let t2 = t.insert(k, Some(b));
    assert(t2.dom() =~= t.dom());
    let f = |q: u64| t[q] is Some;
    let f2 = |q: u64| t2[q] is Some;
    let s1 = t.dom().filter(f);
    let s2 = t2.dom().filter(f2);
    t2.dom().lemma_len_filter(f2);
    assert(s1 =~= s2.remove(k));
    assert(s2.contains(k));
    assert(s2.remove(k).len() + 1 == s2.len());
}

/// The structural size of an expression, the second termination measure:
/// evaluating a subexpression keeps the metric and shrinks the expression.
pub open spec fn esize(e: Expr) -> nat
    decreases e,
{
    match e {
        Expr::Lit(_) => 1,
        Expr::StateRef => 1,
        Expr::ReadGlobal(_) => 1,
        Expr::ReadSelf(_) => 1,
        Expr::Fst(a) => 1 + esize(*a),
        Expr::Snd(a) => 1 + esize(*a),
        Expr::DuoOf(a, b) => 1 + esize(*a) + esize(*b),
        Expr::Plus(a, b) => 1 + esize(*a) + esize(*b),
        Expr::Minus(a, b) => 1 + esize(*a) + esize(*b),
        Expr::Times(a, b) => 1 + esize(*a) + esize(*b),
        Expr::OrElse(a, b) => 1 + esize(*a) + esize(*b),
    }
}

/// The first component of a pair, or absent on an integer.
pub open spec fn fst_out(v: Val) -> EvalOut {
    match v {
        Val::Duo(a, _) => EvalOut::Value(*a),
        _ => EvalOut::Absent,
    }
}

/// The second component of a pair, or absent on an integer.
pub open spec fn snd_out(v: Val) -> EvalOut {
    match v {
        Val::Duo(_, b) => EvalOut::Value(*b),
        _ => EvalOut::Absent,
    }
}

/// Which arithmetic operator a binary expression applies.
#[derive(Clone, Copy, Debug)]
pub enum ArithOp {
    Plus,
    Minus,
    Times,
}

/// The mathematical result of an arithmetic operator.
pub open spec fn arith_int(op: ArithOp, x: int, y: int) -> int {
    match op {
        ArithOp::Plus => x + y,
        ArithOp::Minus => x - y,
        ArithOp::Times => x * y,
    }
}

/// Integer arithmetic on two values: absent unless both are integers and
/// the exact result stays representable.
pub open spec fn arith_out(op: ArithOp, a: Val, b: Val) -> EvalOut {
    match (a, b) {
        (Val::Int(x), Val::Int(y)) => {
            let z = arith_int(op, x as int, y as int);
            if i64::MIN <= z <= i64::MAX {
                EvalOut::Value(Val::Int(z as i64))
            } else {
                EvalOut::Absent
            }
        },
        _ => EvalOut::Absent,
    }
}

/// Building a pair from two values.
pub open spec fn duo_out(a: Val, b: Val) -> EvalOut {
    EvalOut::Value(Val::Duo(Box::new(a), Box::new(b)))
}

/// `m` with the entry for `pid` in scope `sc` restored to `b`, provided it
/// is indeed checked out — which it always is where the evaluation protocol
/// applies this.
pub open spec fn restore_model(m: StoreModel, sc: Scope, pid: u64, b: Behavior) -> StoreModel {
    if scope_valid(m, sc) && scope_table(m, sc).contains_key(pid) && scope_table(m, sc)[pid]
        is None {
        with_scope_table(m, sc, scope_table(m, sc).insert(pid, Some(b)))
    } else {
        m
    }
}

/// What evaluating `e` in store `m` means, together with the store it
/// leaves behind. `ctx` is the owning entity of the behavior being
/// evaluated, if any; `env` is the checked-out state of the enclosing
/// storage behavior, if any.
///
/// Operands run left to right; an absent or fatal operand short-circuits.
/// The comparisons against `metric` mirror the termination argument and are
/// always true along reachable evaluations.
pub open spec fn eval_spec(m: StoreModel, ctx: Option<int>, env: Option<Val>, e: Expr) -> (
    EvalOut,
    StoreModel,
)
    decreases metric(m, ctx), esize(e),
    when wf_model(m)
    via eval_spec_dec
{
    match e {
        Expr::Lit(v) => (EvalOut::Value(v), m),
        Expr::StateRef => (
            match env {
                Some(s) => EvalOut::Value(s),
                None => EvalOut::Absent,
            },
            m,
        ),
        Expr::ReadGlobal(p) => read_spec(m, Scope::Global, p),
        Expr::ReadSelf(p) => match ctx {
            Some(eidx) => read_spec(m, Scope::Ent(eidx), p),
            None => (EvalOut::Absent, m),
        },
        Expr::Fst(e1) => {
            let (r1, m1) = eval_spec(m, ctx, env, *e1);
            match r1 {
                EvalOut::Value(v) => (fst_out(v), m1),
                _ => (r1, m1),
            }
        },
        Expr::Snd(e1) => {
            let (r1, m1) = eval_spec(m, ctx, env, *e1);
            match r1 {
                EvalOut::Value(v) => (snd_out(v), m1),
                _ => (r1, m1),
            }
        },
        Expr::DuoOf(e1, e2) => {
            let (r1, m1) = eval_spec(m, ctx, env, *e1);
            match r1 {
                EvalOut::Value(v1) => {
                    if wf_model(m1) && metric(m1, ctx) <= metric(m, ctx) {
                        let (r2, m2) = eval_spec(m1, ctx, env, *e2);
                        match r2 {
                            EvalOut::Value(v2) => (duo_out(v1, v2), m2),
                            _ => (r2, m2),
                        }
                    } else {
                        (EvalOut::Absent, m1)
                    }
                },
                _ => (r1, m1),
            }
        },
        Expr::Plus(e1, e2) => arith_seq_spec(m, ctx, env, ArithOp::Plus, *e1, *e2),
        Expr::Minus(e1, e2) => arith_seq_spec(m, ctx, env, ArithOp::Minus, *e1, *e2),
        Expr::Times(e1, e2) => arith_seq_spec(m, ctx, env, ArithOp::Times, *e1, *e2),
        Expr::OrElse(e1, e2) => {
            let (r1, m1) = eval_spec(m, ctx, env, *e1);
            match r1 {
                EvalOut::Absent => {
                    if wf_model(m1) && metric(m1, ctx) <= metric(m, ctx) {
                        eval_spec(m1, ctx, env, *e2)
                    } else {
                        (EvalOut::Absent, m1)
                    }
                },
                _ => (r1, m1),
            }
        },
    }
}

/// Evaluating the two operands of an arithmetic operator, left to right.
pub open spec fn arith_seq_spec(
    m: StoreModel,
    ctx: Option<int>,
    env: Option<Val>,
    op: ArithOp,
    e1: Expr,
    e2: Expr,
) -> (EvalOut, StoreModel)
    decreases metric(m, ctx), esize(e1) + esize(e2),
    when wf_model(m)
    via arith_seq_spec_dec
{
    let (r1, m1) = eval_spec(m, ctx, env, e1);
    match r1 {
        EvalOut::Value(v1) => {
            if wf_model(m1) && metric(m1, ctx) <= metric(m, ctx) {
                let (r2, m2) = eval_spec(m1, ctx, env, e2);
                match r2 {
                    EvalOut::Value(v2) => (arith_out(op, v1, v2), m2),
                    _ => (r2, m2),
                }
            } else {
                (EvalOut::Absent, m1)
            }
        },
        _ => (r1, m1),
    }
}

/// What reading the property `pid` in scope `sc` means: find the entry,
/// check it out, evaluate the behavior, restore the entry.
///
/// A missing entry is absent; a checked-out entry is the fatal
/// recursive-behavior condition. A constant answers without touching the
/// store. An alias re-evaluates its expression and stores nothing. A
/// storage behavior evaluates its update expression on the checked-out
/// state, persists the new state, and answers with its output expression
/// evaluated on the new state; where the update comes out absent or fatal,
/// the old state is kept.
pub open spec fn read_spec(m: StoreModel, sc: Scope, pid: u64) -> (EvalOut, StoreModel)
    decreases metric(m, ctx_of(sc)), 0nat,
    when wf_model(m)
    via read_spec_dec
{
    if !scope_valid(m, sc) {
        (EvalOut::Absent, m)
    } else {
        let t = scope_table(m, sc);
        if !t.contains_key(pid) {
            (EvalOut::Absent, m)
        } else if t[pid] is None {
            (EvalOut::Recursive, m)
        } else {
            let b = t[pid].unwrap();
            match b.def {
                BehaviorDef::Fixed(v) => (EvalOut::Value(v), m),
                BehaviorDef::Derived(ae) => {
                    let m1 = with_scope_table(m, sc, t.insert(pid, None));
                    let (r, m2) = eval_spec(m1, ctx_of(sc), None, ae);
                    (r, restore_model(m2, sc, pid, b))
                },
                BehaviorDef::Stored(s, ue, oe) => {
                    let m1 = with_scope_table(m, sc, t.insert(pid, None));
                    let (r1, m2) = eval_spec(m1, ctx_of(sc), Some(s), ue);
                    match r1 {
                        EvalOut::Value(s2) => {
                            if wf_model(m2) && metric(m2, ctx_of(sc)) <= metric(m1, ctx_of(sc)) {
                                let (r3, m3) = eval_spec(m2, ctx_of(sc), Some(s2), oe);
                                (
                                    r3,
                                    restore_model(
                                        m3,
                                        sc,
                                        pid,
                                        Behavior { def: BehaviorDef::Stored(s2, ue, oe) },
                                    ),
                                )
                            } else {
                                (EvalOut::Absent, m2)
                            }
                        },
                        _ => (r1, restore_model(m2, sc, pid, b)),
                    }
                },
            }
        }
    }
}

/// Two tables with the same entries, each at rest in one exactly when it is
/// at rest in the other.
pub open spec fn table_shape_eq(
    t1: Map<u64, Option<Behavior>>,
    t2: Map<u64, Option<Behavior>>,
) -> bool {
    &&& t1.dom() == t2.dom()
    &&& forall|k: u64| #[trigger] t1.contains_key(k) ==> (t1[k] is Some <==> t2[k] is Some)
}

/// Two models of the same shape: the same entities are live, every table
/// has the same entries, and each entry is checked out in one exactly when
/// it is in the other. Evaluation relates its entry and exit stores this
/// way: it only swaps the payloads of storage entries.
pub open spec fn shape_eq(m1: StoreModel, m2: StoreModel) -> bool {
    &&& table_shape_eq(m1.globals, m2.globals)
    &&& m1.entities.len() == m2.entities.len()
    &&& forall|i: int|
        0 <= i < m1.entities.len() ==> ((#[trigger] m1.entities[i]) is Some <==> m2.entities[i]
            is Some)
    &&& forall|i: int|
        0 <= i < m1.entities.len() && m1.entities[i] is Some ==> table_shape_eq(
            (#[trigger] m1.entities[i]).unwrap(),
            m2.entities[i].unwrap(),
        )
}

/// Tables of the same shape have the same number of at-rest entries.
pub proof fn lemma_table_shape_idle(t1: Map<u64, Option<Behavior>>, t2: Map<u64, Option<Behavior>>)
    requires
        table_shape_eq(t1, t2),
        t1.dom().finite(),
    ensures
        idle_count(t1) == idle_count(t2),
        t2.dom().finite(),
{
    let s1 = t1.dom().filter(|k: u64| t1[k] is Some);
    let s2 = t2.dom().filter(|k: u64| t2[k] is Some);
    assert(s1 =~= s2);
}

/// A model of the same shape as a well-formed one is well-formed.
pub proof fn lemma_shape_wf(m1: StoreModel, m2: StoreModel)
    requires
        wf_model(m1),
        shape_eq(m1, m2),
    ensures
        wf_model(m2),
{
    assert forall|i: int| 0 <= i < m2.entities.len() && m2.entities[i] is Some implies (
    #[trigger] m2.entities[i]).unwrap().dom().finite() by {
        assert(m1.entities[i] is Some);
        lemma_table_shape_idle(m1.entities[i].unwrap(), m2.entities[i].unwrap());
    }
    lemma_table_shape_idle(m1.globals, m2.globals);
}

/// Models of the same shape have the same termination metric under every
/// context.
pub proof fn lemma_shape_metric(m1: StoreModel, m2: StoreModel, ctx: Option<int>)
    requires
        wf_model(m1),
        shape_eq(m1, m2),
    ensures
        metric(m1, ctx) == metric(m2, ctx),
{
    lemma_table_shape_idle(m1.globals, m2.globals);
    match ctx {
        None => {},
        Some(e) => {
            if 0 <= e < m1.entities.len() && m1.entities[e] is Some {
                lemma_table_shape_idle(m1.entities[e].unwrap(), m2.entities[e].unwrap());
            }
        },
    }
}

/// Shape equality is transitive.
pub proof fn lemma_shape_trans(a: StoreModel, b: StoreModel, c: StoreModel)
    requires
        shape_eq(a, b),
        shape_eq(b, c),
    ensures
        shape_eq(a, c),
{
    assert forall|i: int|
        0 <= i < a.entities.len() && a.entities[i] is Some implies table_shape_eq(
        (#[trigger] a.entities[i]).unwrap(),
        c.entities[i].unwrap(),
    ) by {
        assert(b.entities[i] is Some);
        assert(table_shape_eq(a.entities[i].unwrap(), b.entities[i].unwrap()));
        assert(table_shape_eq(b.entities[i].unwrap(), c.entities[i].unwrap()));
    }
}

/// Evaluating an expression leaves the store with the shape it had.
pub proof fn lemma_eval_shape(m: StoreModel, ctx: Option<int>, env: Option<Val>, e: Expr)
    requires
        wf_model(m),
    ensures
        shape_eq(m, eval_spec(m, ctx, env, e).1),
        wf_model(eval_spec(m, ctx, env, e).1),
    decreases metric(m, ctx), esize(e),
{
    match e {
        Expr::Lit(_) => {},
        Expr::StateRef => {},
        Expr::ReadGlobal(p) => {
            lemma_read_shape(m, Scope::Global, p);
        },
        Expr::ReadSelf(p) => {
            match ctx {
                Some(eidx) => {
                    lemma_read_shape(m, Scope::Ent(eidx), p);
                },
                None => {},
            }
        },
        Expr::Fst(e1) => {
            lemma_eval_shape(m, ctx, env, *e1);
        },
        Expr::Snd(e1) => {
            lemma_eval_shape(m, ctx, env, *e1);
        },
        Expr::DuoOf(e1, e2) => {
            lemma_eval_shape(m, ctx, env, *e1);
            let (r1, m1) = eval_spec(m, ctx, env, *e1);
            if r1 is Value {
                lemma_shape_metric(m, m1, ctx);
                lemma_eval_shape(m1, ctx, env, *e2);
                lemma_shape_trans(m, m1, eval_spec(m1, ctx, env, *e2).1);
            }
        },
        Expr::Plus(e1, e2) => {
            lemma_arith_seq_shape(m, ctx, env, ArithOp::Plus, *e1, *e2);
        },
        Expr::Minus(e1, e2) => {
            lemma_arith_seq_shape(m, ctx, env, ArithOp::Minus, *e1, *e2);
        },
        Expr::Times(e1, e2) => {
            lemma_arith_seq_shape(m, ctx, env, ArithOp::Times, *e1, *e2);
        },
        Expr::OrElse(e1, e2) => {
            lemma_eval_shape(m, ctx, env, *e1);
            let (r1, m1) = eval_spec(m, ctx, env, *e1);
            if r1 is Absent {
                lemma_shape_metric(m, m1, ctx);
                lemma_eval_shape(m1, ctx, env, *e2);
                lemma_shape_trans(m, m1, eval_spec(m1, ctx, env, *e2).1);
            }
        },
    }
}

/// Evaluating the operands of an arithmetic operator leaves the store with
/// the shape it had.
pub proof fn lemma_arith_seq_shape(
    m: StoreModel,
    ctx: Option<int>,
    env: Option<Val>,
    op: ArithOp,
    e1: Expr,
    e2: Expr,
)
    requires
        wf_model(m),
    ensures
        shape_eq(m, arith_seq_spec(m, ctx, env, op, e1, e2).1),
        wf_model(arith_seq_spec(m, ctx, env, op, e1, e2).1),
    decreases metric(m, ctx), esize(e1) + esize(e2),
{
    lemma_eval_shape(m, ctx, env, e1);
    let (r1, m1) = eval_spec(m, ctx, env, e1);
    if r1 is Value {
        lemma_shape_metric(m, m1, ctx);
        lemma_eval_shape(m1, ctx, env, e2);
        lemma_shape_trans(m, m1, eval_spec(m1, ctx, env, e2).1);
    }
}

/// Reading a property leaves the store with the shape it had: the entry is
/// checked out and restored, and at most its payload changes.
pub proof fn lemma_read_shape(m: StoreModel, sc: Scope, pid: u64)
    requires
        wf_model(m),
    ensures
        shape_eq(m, read_spec(m, sc, pid).1),
        wf_model(read_spec(m, sc, pid).1),
    decreases metric(m, ctx_of(sc)), 0nat,
{
    if !scope_valid(m, sc) {
        return ;
    }
    let t = scope_table(m, sc);
    if !t.contains_key(pid) || t[pid] is None {
        return ;
    }
    let b = t[pid].unwrap();
    lemma_idle_take(t, pid);
    let m1 = with_scope_table(m, sc, t.insert(pid, None));
    assert(wf_model(m1));
    assert(metric(m1, ctx_of(sc)) + 1 == metric(m, ctx_of(sc)));
    match b.def {
        BehaviorDef::Fixed(_) => {},
        BehaviorDef::Derived(ae) => {
            lemma_eval_shape(m1, ctx_of(sc), None, ae);
            let (r, m2) = eval_spec(m1, ctx_of(sc), None, ae);
            lemma_restore_shape(m, m1, m2, sc, pid, b);
        },
        BehaviorDef::Stored(s, ue, oe) => {
            lemma_eval_shape(m1, ctx_of(sc), Some(s), ue);
            let (r1, m2) = eval_spec(m1, ctx_of(sc), Some(s), ue);
            match r1 {
                EvalOut::Value(s2) => {
                    lemma_shape_metric(m1, m2, ctx_of(sc));
                    lemma_eval_shape(m2, ctx_of(sc), Some(s2), oe);
                    let (r3, m3) = eval_spec(m2, ctx_of(sc), Some(s2), oe);
                    lemma_shape_trans(m1, m2, m3);
                    lemma_restore_shape(
                        m,
                        m1,
                        m3,
                        sc,
                        pid,
                        Behavior { def: BehaviorDef::Stored(s2, ue, oe) },
                    );
                },
                _ => {
                    lemma_restore_shape(m, m1, m2, sc, pid, b);
                },
            }
        },
    }
}

/// After a behavior of `pid` ran on the checked-out store `m1` and left
/// `m2`, restoring a behavior into the entry yields a store of the original
/// shape.
proof fn lemma_restore_shape(
    m: StoreModel,
    m1: StoreModel,
    m2: StoreModel,
    sc: Scope,
    pid: u64,
    b: Behavior,
)
    requires
        wf_model(m),
        scope_valid(m, sc),
        scope_table(m, sc).contains_key(pid),
        scope_table(m, sc)[pid] is Some,
        m1 == with_scope_table(m, sc, scope_table(m, sc).insert(pid, None)),
        shape_eq(m1, m2),
        wf_model(m2),
    ensures
        shape_eq(m, restore_model(m2, sc, pid, b)),
        wf_model(restore_model(m2, sc, pid, b)),
{
    let t = scope_table(m, sc);
    let t1 = t.insert(pid, None);
    match sc {
        Scope::Global => {
            assert(m1.globals == t1);
            assert(t1.contains_key(pid));
            assert(m2.globals.contains_key(pid) && m2.globals[pid] is None);
            let m3 = restore_model(m2, sc, pid, b);
            assert(m3.globals == m2.globals.insert(pid, Some(b)));
            assert(m3.globals.dom() =~= m.globals.dom());
            assert(table_shape_eq(m.globals, m3.globals));
            assert(m1.entities == m.entities);
            assert(m3.entities == m2.entities);
            assert(m.entities.len() == m3.entities.len());
            assert forall|i: int|
                0 <= i < m.entities.len() implies ((#[trigger] m.entities[i]) is Some
                <==> m3.entities[i] is Some) by {
                assert(m1.entities[i] == m.entities[i]);
                assert(m1.entities[i] is Some <==> m2.entities[i] is Some);
            }
            assert forall|i: int|
                0 <= i < m.entities.len() && m.entities[i] is Some implies table_shape_eq(
                (#[trigger] m.entities[i]).unwrap(),
                m3.entities[i].unwrap(),
            ) by {
                assert(m1.entities[i] == m.entities[i]);
                assert(m3.entities[i] == m2.entities[i]);
                assert(table_shape_eq(m1.entities[i].unwrap(), m2.entities[i].unwrap()));
            }
            assert(shape_eq(m, m3));
            lemma_shape_wf(m1, m2);
            lemma_idle_restore(m2.globals, pid, b);
        },
        Scope::Ent(eidx) => {
            assert(m1.entities[eidx] == Some(t1));
            assert(t1.contains_key(pid));
            assert(m2.entities[eidx] is Some);
            let t2 = m2.entities[eidx].unwrap();
            assert(table_shape_eq(t1, t2));
            assert(t2.contains_key(pid) && t2[pid] is None);
            assert(scope_valid(m2, sc));
            let m3 = restore_model(m2, sc, pid, b);
            assert(m3.entities[eidx] == Some(t2.insert(pid, Some(b))));
            assert(t2.insert(pid, Some(b)).dom() =~= t.dom());
            assert(table_shape_eq(t, t2.insert(pid, Some(b))));
            assert(m1.globals == m.globals);
            assert(m3.globals == m2.globals);
            assert(table_shape_eq(m.globals, m3.globals));
            assert(m.entities.len() == m3.entities.len());
            assert forall|i: int|
                0 <= i < m.entities.len() implies ((#[trigger] m.entities[i]) is Some
                <==> m3.entities[i] is Some) by {
                if i != eidx {
                    assert(m1.entities[i] == m.entities[i]);
                    assert(m1.entities[i] is Some <==> m2.entities[i] is Some);
                    assert(m3.entities[i] == m2.entities[i]);
                }
            }
            assert forall|i: int|
                0 <= i < m.entities.len() && m.entities[i] is Some implies table_shape_eq(
                (#[trigger] m.entities[i]).unwrap(),
                m3.entities[i].unwrap(),
            ) by {
                if i != eidx {
                    assert(m1.entities[i] == m.entities[i]);
                    assert(m3.entities[i] == m2.entities[i]);
                    assert(table_shape_eq(m1.entities[i].unwrap(), m2.entities[i].unwrap()));
                }
            }
            assert(shape_eq(m, m3));
            lemma_shape_wf(m, m3);
        },
    }
}

#[via_fn]
proof fn eval_spec_dec(m: StoreModel, ctx: Option<int>, env: Option<Val>, e: Expr) {
}

#[via_fn]
proof fn arith_seq_spec_dec(
    m: StoreModel,
    ctx: Option<int>,
    env: Option<Val>,
    op: ArithOp,
    e1: Expr,
    e2: Expr,
) {
}

#[via_fn]
proof fn read_spec_dec(m: StoreModel, sc: Scope, pid: u64) {
    if wf_model(m) && scope_valid(m, sc) {
        let t = scope_table(m, sc);
        if t.contains_key(pid) && t[pid] is Some {
            lemma_idle_take(t, pid);
            let m1 = with_scope_table(m, sc, t.insert(pid, None));
            match sc {
                Scope::Global => {
                    assert(metric(m1, ctx_of(sc)) + 1 == metric(m, ctx_of(sc)));
                },
                Scope::Ent(eidx) => {
                    assert(m1.entities[eidx] == Some(t.insert(pid, None)));
                    assert(metric(m1, ctx_of(sc)) + 1 == metric(m, ctx_of(sc)));
                },
            }
        }
    }
}

} // verus!

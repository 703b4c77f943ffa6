//! A pull-based reactive state store.
//!
//! The store keeps a table of named, typed properties whose values are
//! computed on demand by attached behaviors: a behavior is either a constant,
//! an alias (re-evaluated on every read), or storage-backed (it carries a
//! private state that each read threads through an update expression).
//! Properties live either at the store level (globals) or on dynamically
//! created entities, which are addressed through a slot arena with index
//! reuse.
//!
//! Every read is a self-contained check-out-evaluate-restore transaction
//! over the property tables; [`eval::read_spec`] states exactly what it
//! returns and what it leaves behind, and the laws in [`laws`] spell out the
//! behavior guarantees: constants never touch the store, aliases are
//! evaluated fresh on every read, storage folds its state across reads, and
//! re-entering a property that is still being evaluated is the fatal
//! recursive-behavior error, never a hang.

pub mod behaviors;

pub mod eval;

pub mod laws;

pub mod static_indices_vec;

pub mod table;

use vstd::prelude::*;

use crate::behaviors::{kind_of, Behavior, BehaviorDef, BehaviorFactory, Expr, Kind, Val};
use crate::eval::{
    arith_seq_spec, ctx_of, eval_spec, lemma_eval_shape, lemma_idle_take, lemma_read_shape,
    lemma_shape_metric, metric, read_spec, restore_model, scope_table, scope_valid,
    with_scope_table, ArithOp, EvalOut, Scope, StoreModel,
};
use crate::static_indices_vec::{first_hole, Index, StaticIndicesVec};
use crate::table::{Table, TakeOutcome};

verus! {

/// The two fatal conditions a read or entity operation can raise, each
/// clearly distinguishable from an absent value.
#[derive(Clone, Copy, Debug, PartialEq, Eq, Structural)]
pub enum StoreError {
    /// A property was read again while its own evaluation was still under
    /// way: a cycle in the behavior graph.
    RecursiveBehavior,
    /// An operation addressed an entity slot that holds no entity.
    InvalidHandle,
}

/// Identifier for an entity. Slot indices are reused: after an entity is
/// removed, a later creation may hand its index to a different entity, and
/// an identifier kept across the removal then addresses the new occupant.
#[derive(Clone, Copy, Debug, PartialEq, Eq, Hash, Structural)]
pub struct EntityID(pub Index);

/// Trait for the objects that serve as properties: a property supplies its
/// identity — two properties are the same exactly when their identities are
/// equal — and the kind of value it holds.
pub trait Property: Sized {
    /// The property's identity.
    spec fn spec_id(&self) -> u64;

    /// The kind of value the property holds.
    spec fn spec_kind(&self) -> Kind;

    /// Returns the property's identity.
    fn id(&self) -> (r: u64)
        ensures
            r == self.spec_id(),
    ;

    /// Returns the kind of value the property holds.
    fn kind(&self) -> (r: Kind)
        ensures
            r == self.spec_kind(),
    ;
}

/// A ready-made property: an identity paired with the kind it holds.
pub struct PropKey {
    pub pid: u64,
    pub value_kind: Kind,
}

impl Property for PropKey {
    open spec fn spec_id(&self) -> u64 {
        self.pid
    }

    open spec fn spec_kind(&self) -> Kind {
        self.value_kind
    }

    fn id(&self) -> (r: u64) {
        self.pid
    }

    fn kind(&self) -> (r: Kind) {
        self.value_kind.duplicate()
    }
}

/// State of the simulation: the global property table and the arena of
/// per-entity property tables.
pub struct State {
    globals: Table,
    entities: StaticIndicesVec<Table>,
}

/// The tables of each entity slot, as the model sees them.
pub open spec fn entities_model(s: Seq<Option<Table>>) -> Seq<
    Option<Map<u64, Option<Behavior>>>,
> {
    s.map_values(
        |ot: Option<Table>|
            match ot {
                Some(t) => Some(t@),
                None => None,
            },
    )
}

impl View for State {
    type V = StoreModel;

    closed spec fn view(&self) -> StoreModel {
        StoreModel { globals: self.globals@, entities: entities_model(self.entities@) }
    }
}

/// A store's model is always well-formed: its tables are finite.
pub proof fn lemma_state_wf(s: State)
    ensures
        eval::wf_model(s@),
{
    crate::table::lemma_table_finite(s.globals);
    assert forall|i: int|
        0 <= i < s@.entities.len() && s@.entities[i] is Some implies (
    #[trigger] s@.entities[i]).unwrap().dom().finite() by {
        assert(s@.entities[i] == entities_model(s.entities@)[i]);
        crate::table::lemma_table_finite(s.entities@[i].unwrap());
    }
}

/// Replacing one arena slot replaces the matching model slot and nothing
/// else.
proof fn lemma_entities_model_update(
    s1: Seq<Option<Table>>,
    s2: Seq<Option<Table>>,
    e: int,
    t2: Table,
)
    requires
        0 <= e < s1.len(),
        s2 == s1.update(e, Some(t2)),
    ensures
        entities_model(s2) =~= entities_model(s1).update(e, Some(t2@)),
{
}

/// Appending an arena slot appends the matching model slot.
proof fn lemma_entities_model_push(s1: Seq<Option<Table>>, s2: Seq<Option<Table>>, t2: Table)
    requires
        s2 == s1.push(Some(t2)),
    ensures
        entities_model(s2) =~= entities_model(s1).push(Some(t2@)),
{
    assert forall|i: int| 0 <= i < s2.len() implies entities_model(s2)[i] == entities_model(
        s1,
    ).push(Some(t2@))[i] by {
        if i < s1.len() {
            assert(s2[i] == s1[i]);
        } else {
            assert(s2[i] == Some(t2));
        }
    }
}

/// The arena and its model have their holes in the same slots, so the next
/// entity fills the same index in both.
proof fn lemma_first_hole_model(s: Seq<Option<Table>>)
    ensures
        first_hole(entities_model(s)) == first_hole(s),
    decreases s.len(),
{
    if s.len() == 0 {
    } else {
        assert(entities_model(s).drop_first() =~= entities_model(s.drop_first()));
        lemma_first_hole_model(s.drop_first());
    }
}

/// The scope a read addresses, from the optional entity index the
/// executable store passes around.
pub open spec fn sc_spec(sc: Option<usize>) -> Scope {
    match sc {
        None => Scope::Global,
        Some(e) => Scope::Ent(e as int),
    }
}

/// The entity context as the model sees it.
pub open spec fn ctx_spec(c: Option<usize>) -> Option<int> {
    match c {
        None => None,
        Some(e) => Some(e as int),
    }
}

/// The checked-out storage state as the model sees it.
pub open spec fn env_spec(env: Option<&Val>) -> Option<Val> {
    match env {
        None => None,
        Some(v) => Some(*v),
    }
}

/// Puts a behavior back into the checked-out entry that a read took it
/// from.
fn restore_prop(st: &mut State, sc: Option<usize>, pid: u64, b: Behavior)
    requires
        scope_valid(old(st)@, sc_spec(sc)),
        scope_table(old(st)@, sc_spec(sc)).contains_key(pid),
        scope_table(old(st)@, sc_spec(sc))[pid] is None,
    ensures
        final(st)@ == restore_model(old(st)@, sc_spec(sc), pid, b),
{
    let ghost m0 = st@;
    let ghost b0 = b;
    match sc {
        None => {
            st.globals.restore(pid, b);
            proof {
                assert(st@ =~= restore_model(m0, sc_spec(sc), pid, b0));
            }
        },
        Some(eidx) => {
            proof {
                assert(st.entities@[eidx as int] is Some);
            }
            let t = st.entities.get_mut(&Index(eidx));
            t.restore(pid, b);
            proof {
                lemma_entities_model_update(
                    old(st).entities@,
                    st.entities@,
                    eidx as int,
                    st.entities@[eidx as int].unwrap(),
                );
                assert(st@.entities =~= restore_model(m0, sc_spec(sc), pid, b0).entities);
                assert(st@ =~= restore_model(m0, sc_spec(sc), pid, b0));
            }
        },
    }
}

/// Reads the property `pid` in the given scope: checks the entry out,
/// evaluates its behavior, restores the entry, exactly as
/// [`read_spec`] says.
fn read_prop(st: &mut State, sc: Option<usize>, pid: u64) -> (r: EvalOut)
    ensures
        ({
            let (o, m2) = read_spec(old(st)@, sc_spec(sc), pid);
            r == o && final(st)@ == m2
        }),
    decreases metric(st@, ctx_of(sc_spec(sc))), 0nat,
{
    proof {
        lemma_state_wf(*st);
    }
    let ghost m0 = st@;
    let ghost sck = sc_spec(sc);
    match sc {
        Some(eidx) => {
            if !st.entities.is_live(&Index(eidx)) {
                proof {
                    assert(!scope_valid(m0, sck));
                }
                return EvalOut::Absent;
            }
        },
        None => {},
    }
    proof {
        assert(scope_valid(m0, sck));
    }
    let taken = match sc {
        None => st.globals.take(pid),
        Some(eidx) => {
            let t = st.entities.get_mut(&Index(eidx));
            let tk = t.take(pid);
            proof {
                lemma_entities_model_update(
                    old(st).entities@,
                    st.entities@,
                    eidx as int,
                    st.entities@[eidx as int].unwrap(),
                );
            }
            tk
        },
    };
    match taken {
        TakeOutcome::Missing => {
            proof {
                assert(st@.entities =~= m0.entities);
                assert(st@ =~= m0);
            }
            EvalOut::Absent
        },
        TakeOutcome::Busy => {
            proof {
                assert(st@.entities =~= m0.entities);
                assert(st@ =~= m0);
            }
            EvalOut::Recursive
        },
        TakeOutcome::Taken(b) => {
            let ghost t0 = scope_table(m0, sck);
            let ghost m1 = with_scope_table(m0, sck, t0.insert(pid, None));
            proof {
                assert(st@ =~= m1);
                lemma_idle_take(t0, pid);
            }
            match b.def {
                BehaviorDef::Fixed(v) => {
                    let out = EvalOut::Value(v.duplicate());
                    restore_prop(st, sc, pid, Behavior { def: BehaviorDef::Fixed(v) });
                    proof {
                        assert(scope_table(st@, sck) =~= t0);
                        assert(st@ =~= m0);
                    }
                    out
                },
                BehaviorDef::Derived(ae) => {
                    let r = eval_exec(st, sc, None, &ae);
                    proof {
                        lemma_eval_shape(m1, ctx_of(sck), None, ae);
                    }
                    restore_prop(st, sc, pid, Behavior { def: BehaviorDef::Derived(ae) });
                    r
                },
                BehaviorDef::Stored(s, ue, oe) => {
                    let r1 = eval_exec(st, sc, Some(&s), &ue);
                    proof {
                        lemma_eval_shape(m1, ctx_of(sck), Some(s), ue);
                    }
                    match r1 {
                        EvalOut::Value(s2) => {
                            let ghost m2 = st@;
                            proof {
                                lemma_shape_metric(m1, m2, ctx_of(sck));
                            }
                            let r2 = eval_exec(st, sc, Some(&s2), &oe);
                            proof {
                                lemma_eval_shape(m2, ctx_of(sck), Some(s2), oe);
                                eval::lemma_shape_trans(m1, m2, st@);
                            }
                            restore_prop(
                                st,
                                sc,
                                pid,
                                Behavior { def: BehaviorDef::Stored(s2, ue, oe) },
                            );
                            r2
                        },
                        other => {
                            restore_prop(
                                st,
                                sc,
                                pid,
                                Behavior { def: BehaviorDef::Stored(s, ue, oe) },
                            );
                            other
                        },
                    }
                },
            }
        },
    }
}

/// Computes an arithmetic operator on two values, as [`eval::arith_out`]
/// says: absent unless both are integers and the exact result stays
/// representable.
fn arith_exec(op: ArithOp, a: Val, b: Val) -> (r: EvalOut)
    ensures
        r == eval::arith_out(op, a, b),
{
    match (a, b) {
        (Val::Int(x), Val::Int(y)) => {
            let z: i128 = match op {
                ArithOp::Plus => x as i128 + y as i128,
                ArithOp::Minus => x as i128 - y as i128,
                ArithOp::Times => {
                    proof {
                        let xi = x as int;
                        let yi = y as int;
                        assert(-0x4000_0000_0000_0000_0000_0000_0000_0000 <= xi * yi
                            <= 0x4000_0000_0000_0000_0000_0000_0000_0000) by (nonlinear_arith)
                            requires
                                -0x8000_0000_0000_0000 <= xi <= 0x7fff_ffff_ffff_ffff,
                                -0x8000_0000_0000_0000 <= yi <= 0x7fff_ffff_ffff_ffff,
                        ;
                    }
                    (x as i128) * (y as i128)
                },
            };
            if i64::MIN as i128 <= z && z <= i64::MAX as i128 {
                EvalOut::Value(Val::Int(z as i64))
            } else {
                EvalOut::Absent
            }
        },
        _ => EvalOut::Absent,
    }
}

/// Evaluates the two operands of an arithmetic operator, left to right,
/// then applies it.
fn arith_seq_exec(
    st: &mut State,
    ctx: Option<usize>,
    env: Option<&Val>,
    op: ArithOp,
    e1: &Expr,
    e2: &Expr,
) -> (r: EvalOut)
    ensures
        ({
            let (o, m2) = arith_seq_spec(old(st)@, ctx_spec(ctx), env_spec(env), op, *e1, *e2);
            r == o && final(st)@ == m2
        }),
    decreases metric(st@, ctx_spec(ctx)), eval::esize(*e1) + eval::esize(*e2),
{
    proof {
        lemma_state_wf(*st);
    }
    let ghost m0 = st@;
    let r1 = eval_exec(st, ctx, env, e1);
    match r1 {
        EvalOut::Value(v1) => {
            proof {
                lemma_eval_shape(m0, ctx_spec(ctx), env_spec(env), *e1);
                lemma_shape_metric(m0, st@, ctx_spec(ctx));
            }
            let r2 = eval_exec(st, ctx, env, e2);
            match r2 {
                EvalOut::Value(v2) => arith_exec(op, v1, v2),
                other => other,
            }
        },
        other => other,
    }
}

/// Evaluates an expression against the store, exactly as [`eval_spec`]
/// says. `ctx` is the entity whose behavior is being evaluated, if any;
/// `env` is the checked-out state of the enclosing storage behavior, if
/// any.
fn eval_exec(st: &mut State, ctx: Option<usize>, env: Option<&Val>, e: &Expr) -> (r: EvalOut)
    ensures
        ({
            let (o, m2) = eval_spec(old(st)@, ctx_spec(ctx), env_spec(env), *e);
            r == o && final(st)@ == m2
        }),
    decreases metric(st@, ctx_spec(ctx)), eval::esize(*e),
{
    proof {
        lemma_state_wf(*st);
    }
    let ghost m0 = st@;
    match e {
        Expr::Lit(v) => EvalOut::Value(v.duplicate()),
        Expr::StateRef => match env {
            Some(s) => EvalOut::Value(s.duplicate()),
            None => EvalOut::Absent,
        },
        Expr::ReadGlobal(p) => read_prop(st, None, *p),
        Expr::ReadSelf(p) => match ctx {
            Some(eidx) => read_prop(st, Some(eidx), *p),
            None => EvalOut::Absent,
        },
        Expr::Fst(e1) => {
            let r1 = eval_exec(st, ctx, env, e1);
            match r1 {
                EvalOut::Value(v) => match v {
                    Val::Duo(a, _) => EvalOut::Value(*a),
                    _ => EvalOut::Absent,
                },
                other => other,
            }
        },
        Expr::Snd(e1) => {
            let r1 = eval_exec(st, ctx, env, e1);
            match r1 {
                EvalOut::Value(v) => match v {
                    Val::Duo(_, b) => EvalOut::Value(*b),
                    _ => EvalOut::Absent,
                },
                other => other,
            }
        },
        Expr::DuoOf(e1, e2) => {
            let r1 = eval_exec(st, ctx, env, e1);
            match r1 {
                EvalOut::Value(v1) => {
                    proof {
                        lemma_eval_shape(m0, ctx_spec(ctx), env_spec(env), *(*e1));
                        lemma_shape_metric(m0, st@, ctx_spec(ctx));
                    }
                    let r2 = eval_exec(st, ctx, env, e2);
                    match r2 {
                        EvalOut::Value(v2) => EvalOut::Value(
                            Val::Duo(Box::new(v1), Box::new(v2)),
                        ),
                        other => other,
                    }
                },
                other => other,
            }
        },
        Expr::Plus(e1, e2) => arith_seq_exec(st, ctx, env, ArithOp::Plus, e1, e2),
        Expr::Minus(e1, e2) => arith_seq_exec(st, ctx, env, ArithOp::Minus, e1, e2),
        Expr::Times(e1, e2) => arith_seq_exec(st, ctx, env, ArithOp::Times, e1, e2),
        Expr::OrElse(e1, e2) => {
            let r1 = eval_exec(st, ctx, env, e1);
            match r1 {
                EvalOut::Absent => {
                    proof {
                        lemma_eval_shape(m0, ctx_spec(ctx), env_spec(env), *(*e1));
                        lemma_shape_metric(m0, st@, ctx_spec(ctx));
                    }
                    eval_exec(st, ctx, env, e2)
                },
                other => other,
            }
        },
    }
}

/// Turns the outcome of a read into what the caller sees: the value where
/// its kind is the expected one, absent on a mismatch or a miss, and the
/// fatal recursive-behavior error kept apart from both.
pub open spec fn read_result(o: EvalOut, expected: Kind) -> Result<Option<Val>, StoreError> {
    match o {
        EvalOut::Value(v) => if kind_of(v) == expected {
            Ok(Some(v))
        } else {
            Ok(None)
        },
        EvalOut::Absent => Ok(None),
        EvalOut::Recursive => Err(StoreError::RecursiveBehavior),
    }
}

/// Checks an evaluation outcome against the kind the caller expects.
fn to_read_result(o: EvalOut, expected: &Kind) -> (r: Result<Option<Val>, StoreError>)
    ensures
        r == read_result(o, *expected),
{
    match o {
        EvalOut::Value(v) => {
            let k = v.kind();
            if k.eq_kind(expected) {
                Ok(Some(v))
            } else {
                Ok(None)
            }
        },
        EvalOut::Absent => Ok(None),
        EvalOut::Recursive => Err(StoreError::RecursiveBehavior),
    }
}

impl State {
    /// Builds a new empty state.
    pub fn new() -> (r: State)
        ensures
            r@.globals == Map::<u64, Option<Behavior>>::empty(),
            r@.entities == Seq::<Option<Map<u64, Option<Behavior>>>>::empty(),
    {
        let r = State { globals: Table::new(), entities: StaticIndicesVec::new() };
        proof {
            assert(r@.entities =~= Seq::<Option<Map<u64, Option<Behavior>>>>::empty());
        }
        r
    }

    /// Adds a global property to the state, overwriting any behavior already
    /// registered under the same identity.
    pub fn add<P: Property, V: BehaviorFactory>(&mut self, property: P, value: V)
        ensures
            final(self)@.globals == old(self)@.globals.insert(
                property.spec_id(),
                Some(value.spec_behavior()),
            ),
            final(self)@.entities == old(self)@.entities,
    {
        let pid = property.id();
        let b = value.into_behavior();
        self.globals.insert(pid, b);
    }

    /// Returns the value of a global property: `Ok(None)` where no behavior
    /// is registered under the identity or the produced value is not of the
    /// property's kind, and the fatal recursive-behavior error where the
    /// read re-entered a property still being evaluated. Reading may update
    /// the internal state of storage behaviors, exactly as
    /// [`read_spec`] says.
    pub fn get<P: Property>(&mut self, property: P) -> (r: Result<Option<Val>, StoreError>)
        ensures
            ({
                let (o, m2) = read_spec(old(self)@, Scope::Global, property.spec_id());
                final(self)@ == m2 && r == read_result(o, property.spec_kind())
            }),
    {
        let pid = property.id();
        let out = read_prop(self, None, pid);
        let k = property.kind();
        to_read_result(out, &k)
    }

    /// Builds a handle for an existing entity; `None` when the slot holds no
    /// entity. A freed-and-reused slot holds a different entity under the
    /// same identifier, which this cannot detect.
    pub fn entity(&self, entity: &EntityID) -> (r: Option<Entity>)
        ensures
            match r {
                Some(en) => en.id == entity.0 && entity.0.0 < self@.entities.len()
                    && self@.entities[entity.0.0 as int] is Some,
                None => !(entity.0.0 < self@.entities.len() && self@.entities[entity.0.0 as int]
                    is Some),
            },
    {
        if self.entities.is_live(&entity.0) {
            Some(Entity { id: entity.0 })
        } else {
            None
        }
    }

    /// Builds a new entity with an empty property table and returns a handle
    /// to it. The entity fills the first free slot, so it may reuse the
    /// index of a removed entity.
    pub fn create_entity(&mut self) -> (r: Entity)
        ensures
            final(self)@.globals == old(self)@.globals,
            r.id.0 == first_hole(old(self)@.entities),
            r.id.0 <= old(self)@.entities.len(),
            r.id.0 < old(self)@.entities.len() ==> final(self)@.entities == old(
                self,
            )@.entities.update(r.id.0 as int, Some(Map::<u64, Option<Behavior>>::empty())),
            r.id.0 == old(self)@.entities.len() ==> final(self)@.entities == old(
                self,
            )@.entities.push(Some(Map::<u64, Option<Behavior>>::empty())),
    {
        let t = Table::new();
        let ghost s0 = self.entities@;
        let idx = self.entities.push(t);
        proof {
            lemma_first_hole_model(s0);
            if (idx.0 as int) < s0.len() {
                lemma_entities_model_update(
                    s0,
                    self.entities@,
                    idx.0 as int,
                    self.entities@[idx.0 as int].unwrap(),
                );
            } else {
                lemma_entities_model_push(
                    s0,
                    self.entities@,
                    self.entities@[idx.0 as int].unwrap(),
                );
            }
        }
        Entity { id: idx }
    }

    /// Removes an entity, freeing its slot — and with it the slot's whole
    /// property table — for reuse by a later creation. Fails with an
    /// invalid-handle error when the slot holds no entity.
    pub fn remove_entity(&mut self, entity: &EntityID) -> (r: Result<(), StoreError>)
        ensures
            final(self)@.globals == old(self)@.globals,
            ({
                let live = entity.0.0 < old(self)@.entities.len() && old(self)@.entities[entity.0.0
                    as int] is Some;
                if live {
                    r == Ok::<(), StoreError>(()) && final(self)@.entities == old(
                        self,
                    )@.entities.update(entity.0.0 as int, None)
                } else {
                    r == Err::<(), StoreError>(StoreError::InvalidHandle) && final(self)@ == old(
                        self,
                    )@
                }
            }),
    {
        if self.entities.is_live(&entity.0) {
            let ghost s0 = self.entities@;
            let removed = self.entities.remove(entity.0);
            proof {
                assert(entities_model(self.entities@) =~= entities_model(s0).update(
                    entity.0.0 as int,
                    None,
                ));
            }
            Ok(())
        } else {
            Err(StoreError::InvalidHandle)
        }
    }
}

/// Handle to an entity in the state: the identifier of its slot. The handle
/// carries no liveness evidence of its own; operations through it fail with
/// an invalid-handle error when the slot holds no entity.
pub struct Entity {
    pub id: Index,
}

impl Entity {
    /// Returns the identifier of this entity.
    pub fn get_id(&self) -> (r: EntityID)
        ensures
            r.0 == self.id,
    {
        EntityID(self.id)
    }

    /// Adds a property to this entity, overwriting any behavior already
    /// registered under the same identity. Fails with an invalid-handle
    /// error when the entity's slot holds no entity.
    pub fn add<P: Property, V: BehaviorFactory>(
        &self,
        state: &mut State,
        property: P,
        value: V,
    ) -> (r: Result<(), StoreError>)
        ensures
            ({
                let live = self.id.0 < old(state)@.entities.len() && old(state)@.entities[self.id.0
                    as int] is Some;
                if live {
                    r == Ok::<(), StoreError>(()) && final(state)@.globals == old(state)@.globals
                        && final(state)@.entities == old(state)@.entities.update(
                        self.id.0 as int,
                        Some(
                            old(state)@.entities[self.id.0 as int].unwrap().insert(
                                property.spec_id(),
                                Some(value.spec_behavior()),
                            ),
                        ),
                    )
                } else {
                    r == Err::<(), StoreError>(StoreError::InvalidHandle) && final(state)@ == old(
                        state,
                    )@
                }
            }),
    {
        if !state.entities.is_live(&self.id) {
            return Err(StoreError::InvalidHandle);
        }
        let pid = property.id();
        let b = value.into_behavior();
        let ghost s0 = state.entities@;
        let t = state.entities.get_mut(&self.id);
        t.insert(pid, b);
        proof {
            lemma_entities_model_update(
                s0,
                state.entities@,
                self.id.0 as int,
                state.entities@[self.id.0 as int].unwrap(),
            );
        }
        Ok(())
    }

    /// Returns the value of a property of this entity: `Ok(None)` where no
    /// behavior is registered under the identity or the produced value is
    /// not of the property's kind; the fatal recursive-behavior error where
    /// the read re-entered a property still being evaluated; and the
    /// invalid-handle error where the entity's slot holds no entity. The
    /// behavior is evaluated with this entity as its context, so it may read
    /// other properties of the same entity.
    pub fn get<P: Property>(&self, state: &mut State, property: P) -> (r: Result<
        Option<Val>,
        StoreError,
    >)
        ensures
            ({
                let live = self.id.0 < old(state)@.entities.len() && old(state)@.entities[self.id.0
                    as int] is Some;
                if live {
                    let (o, m2) = read_spec(
                        old(state)@,
                        Scope::Ent(self.id.0 as int),
                        property.spec_id(),
                    );
                    final(state)@ == m2 && r == read_result(o, property.spec_kind())
                } else {
                    r == Err::<Option<Val>, StoreError>(StoreError::InvalidHandle) && final(state)@
                        == old(state)@
                }
            }),
    {
        if !state.entities.is_live(&self.id) {
            return Err(StoreError::InvalidHandle);
        }
        let pid = property.id();
        let out = read_prop(state, Some(self.id.0), pid);
        let k = property.kind();
        to_read_result(out, &k)
    }
}

} // verus!



//! Values, behavior expressions and the behavior variants.
//!
//! A property's value is a [`Val`]: a closed union over integers and pairs,
//! so that heterogeneous properties can share one table while every read is
//! checked against the [`Kind`] the caller expects. A behavior computes a
//! `Val` on demand; its computation is an [`Expr`], evaluated against the
//! store, the optional owning entity, and — for storage behaviors — the
//! behavior's private state.

use vstd::prelude::*;

verus! {

/// A property value: an integer or a pair of values.
#[derive(Debug, PartialEq, Eq)]
pub enum Val {
    Int(i64),
    Duo(Box<Val>, Box<Val>),
}

/// The shape of a [`Val`]: what a caller states it expects when reading a
/// property. Reading with a kind other than the produced value's yields an
/// absent result rather than a wrongly typed value.
#[derive(Debug, PartialEq, Eq)]
pub enum Kind {
    KInt,
    KDuo(Box<Kind>, Box<Kind>),
}

/// The kind of a value.
pub open spec fn kind_of(v: Val) -> Kind
    decreases v,
{
    match v {
        Val::Int(_) => Kind::KInt,
        Val::Duo(a, b) => Kind::KDuo(Box::new(kind_of(*a)), Box::new(kind_of(*b))),
    }
}

impl Val {
    /// Returns a copy of this value.
    pub fn duplicate(&self) -> (r: Val)
        ensures
            r == *self,
        decreases self,
    {
        match self {
            Val::Int(i) => Val::Int(*i),
            Val::Duo(a, b) => Val::Duo(Box::new(a.duplicate()), Box::new(b.duplicate())),
        }
    }

    /// Computes the kind of this value.
    pub fn kind(&self) -> (r: Kind)
        ensures
            r == kind_of(*self),
        decreases self,
    {
        match self {
            Val::Int(_) => Kind::KInt,
            Val::Duo(a, b) => Kind::KDuo(Box::new(a.kind()), Box::new(b.kind())),
        }
    }

    /// Says whether this value equals `other`.
    pub fn eq_val(&self, other: &Val) -> (r: bool)
        ensures
            r == (*self == *other),
        decreases self,
    {
        match (self, other) {
            (Val::Int(a), Val::Int(b)) => *a == *b,
            (Val::Duo(a1, a2), Val::Duo(b1, b2)) => a1.eq_val(b1) && a2.eq_val(b2),
            _ => false,
        }
    }
}

impl Kind {
    /// Returns a copy of this kind.
    pub fn duplicate(&self) -> (r: Kind)
        ensures
            r == *self,
        decreases self,
    {
        match self {
            Kind::KInt => Kind::KInt,
            Kind::KDuo(a, b) => Kind::KDuo(Box::new(a.duplicate()), Box::new(b.duplicate())),
        }
    }

    /// Says whether this kind equals `other`.
    pub fn eq_kind(&self, other: &Kind) -> (r: bool)
        ensures
            r == (*self == *other),
        decreases self,
    {
        match (self, other) {
            (Kind::KInt, Kind::KInt) => true,
            (Kind::KDuo(a1, a2), Kind::KDuo(b1, b2)) => a1.eq_kind(b1) && a2.eq_kind(b2),
            _ => false,
        }
    }
}

/// What an alias or storage behavior computes, as a closed expression over
/// the store and the evaluation context.
///
/// An expression evaluates to a value, to an absent result (a missing
/// dependency, a shape mismatch, or arithmetic out of range), or to the
/// fatal recursive-behavior condition, which no expression can catch.
/// Operands are evaluated left to right, and an absent or fatal left operand
/// short-circuits its operator.
#[derive(Debug)]
pub enum Expr {
    /// A literal value.
    Lit(Val),
    /// The private state of the enclosing storage behavior; absent inside
    /// constant and alias behaviors.
    StateRef,
    /// Reads the global property with this identity.
    ReadGlobal(u64),
    /// Reads the property with this identity on the entity whose behavior is
    /// being evaluated; absent when the behavior runs with no entity context.
    ReadSelf(u64),
    /// The first component of a pair; absent on an integer.
    Fst(Box<Expr>),
    /// The second component of a pair; absent on an integer.
    Snd(Box<Expr>),
    /// Builds a pair from two values.
    DuoOf(Box<Expr>, Box<Expr>),
    /// Integer addition; absent on pairs or when the sum leaves `i64`.
    Plus(Box<Expr>, Box<Expr>),
    /// Integer subtraction; absent on pairs or when it leaves `i64`.
    Minus(Box<Expr>, Box<Expr>),
    /// Integer multiplication; absent on pairs or when it leaves `i64`.
    Times(Box<Expr>, Box<Expr>),
    /// The left expression, or the right one where the left is absent.
    OrElse(Box<Expr>, Box<Expr>),
}

/// A behavior, as the table stores it: the computation attached to a
/// property.
#[derive(Debug)]
pub enum BehaviorDef {
    /// Always returns the same value; reading it never touches the store.
    Fixed(Val),
    /// Re-evaluates its expression on every read; carries no state.
    Derived(Expr),
    /// Carries a private state. Each read checks the state out, evaluates
    /// the update expression (in which `StateRef` is the checked-out state)
    /// to obtain the new state, persists it, and returns the result of the
    /// output expression evaluated with the new state.
    Stored(Val, Expr, Expr),
}

/// The computation attached to a property. Build one through a
/// [`BehaviorFactory`]: [`Constant`], [`Alias`] or [`Storage`].
#[derive(Debug)]
pub struct Behavior {
    pub def: BehaviorDef,
}

/// Builder for a [`Behavior`].
pub trait BehaviorFactory: Sized {
    /// The behavior this factory builds.
    spec fn spec_behavior(self) -> Behavior;

    /// Builds the behavior.
    fn into_behavior(self) -> (r: Behavior)
        ensures
            r == self.spec_behavior(),
    ;
}

/// Prototype for a behavior with a constant value.
pub struct Constant(pub Val);

impl BehaviorFactory for Constant {
    open spec fn spec_behavior(self) -> Behavior {
        Behavior { def: BehaviorDef::Fixed(self.0) }
    }

    fn into_behavior(self) -> (r: Behavior) {
        Behavior { def: BehaviorDef::Fixed(self.0) }
    }
}

/// Prototype for a behavior whose value is an alias of something else:
/// its expression is re-evaluated against the store on every read.
pub struct Alias(pub Expr);

impl BehaviorFactory for Alias {
    open spec fn spec_behavior(self) -> Behavior {
        Behavior { def: BehaviorDef::Derived(self.0) }
    }

    fn into_behavior(self) -> (r: Behavior) {
        Behavior { def: BehaviorDef::Derived(self.0) }
    }
}

/// Prototype for a behavior that stores something: an initial state, the
/// update expression producing the next state, and the output expression
/// producing the read's result from the new state.
pub struct Storage(pub Val, pub Expr, pub Expr);

impl BehaviorFactory for Storage {
    open spec fn spec_behavior(self) -> Behavior {
        Behavior { def: BehaviorDef::Stored(self.0, self.1, self.2) }
    }

    fn into_behavior(self) -> (r: Behavior) {
        Behavior { def: BehaviorDef::Stored(self.0, self.1, self.2) }
    }
}

} // verus!

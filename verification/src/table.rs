//! The property table: a mapping from property identity to the behavior
//! registered under it.
//!
//! An entry's payload is an `Option<Behavior>`: `Some` when the behavior is
//! at rest, `None` while it is checked out for evaluation. Checking an entry
//! out and restoring it afterwards is how a read guards against re-entering
//! the same property: a nested read that finds the payload checked out is
//! the recursive-behavior condition.

use std::collections::HashMap;
use vstd::prelude::*;

use crate::behaviors::Behavior;

verus! {

broadcast use vstd::std_specs::hash::group_hash_axioms;

/// What taking an entry out of the table found.
pub enum TakeOutcome {
    /// No behavior is registered under the identity.
    Missing,
    /// The entry exists but its behavior is checked out: the identity is
    /// already being evaluated further up the call stack.
    Busy,
    /// The behavior, now checked out; the entry stays behind with an empty
    /// payload until `restore` puts a behavior back.
    Taken(Behavior),
}

/// A table of behaviors keyed by property identity.
pub struct Table {
    entries: HashMap<u64, Option<Behavior>>,
}

impl View for Table {
    type V = Map<u64, Option<Behavior>>;

    closed spec fn view(&self) -> Map<u64, Option<Behavior>> {
        self.entries@
    }
}

/// A table always has finitely many entries.
pub proof fn lemma_table_finite(t: Table)
    ensures
        t@.dom().finite(),
{
    assert(t.entries@.dom().finite());
}

impl Table {
    /// Builds an empty table.
    pub fn new() -> (r: Table)
        ensures
            r@ == Map::<u64, Option<Behavior>>::empty(),
    {
        Table { entries: HashMap::new() }
    }

    /// Registers `b` under `pid`, overwriting any previous entry.
    pub fn insert(&mut self, pid: u64, b: Behavior)
        ensures
            final(self)@ == old(self)@.insert(pid, Some(b)),
    {
        self.entries.insert(pid, Some(b));
    }

    /// Checks the entry under `pid` out: on success the behavior is handed
    /// to the caller and the entry keeps an empty payload until `restore`.
    pub fn take(&mut self, pid: u64) -> (r: TakeOutcome)
        ensures
            match r {
                TakeOutcome::Missing => !old(self)@.contains_key(pid) && final(self)@ == old(
                    self,
                )@,
                TakeOutcome::Busy => old(self)@.contains_key(pid) && old(self)@[pid] is None
                    && final(self)@ == old(self)@,
                TakeOutcome::Taken(b) => old(self)@.contains_key(pid) && old(self)@[pid] == Some(b)
                    && final(self)@ == old(self)@.insert(pid, None),
            },
    {
        if !self.entries.contains_key(&pid) {
            return TakeOutcome::Missing;
        }
        let prev = self.entries.insert(pid, None);
        match prev {
            Some(Some(b)) => TakeOutcome::Taken(b),
            _ => {
                proof {
                    assert(old(self)@[pid] is None);
                    assert(self@ =~= old(self)@);
                }
                TakeOutcome::Busy
            },
        }
    }

    /// Puts a behavior back into the entry under `pid`, which must be
    /// checked out.
    pub fn restore(&mut self, pid: u64, b: Behavior)
        requires
            old(self)@.contains_key(pid),
            old(self)@[pid] is None,
        ensures
            final(self)@ == old(self)@.insert(pid, Some(b)),
    {
        self.entries.insert(pid, Some(b));
    }
}

} // verus!

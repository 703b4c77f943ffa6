//! A slot arena: an indexed collection that hands out stable indices,
//! reuses freed slots, and keeps holes where elements were removed.
//!
//! `push` stores an element in the first free hole if one exists and appends
//! otherwise; `remove` leaves a hole behind, so the indices of the remaining
//! elements never move. A freed index may therefore be handed out again for a
//! later `push`: the arena does not tag slots with generations, and a stale
//! index silently addresses the new occupant.

use vstd::prelude::*;

verus! {

/// A stable index into a [`StaticIndicesVec`].
#[derive(Clone, Copy, Debug, PartialEq, Eq, Hash, Structural)]
pub struct Index(pub usize);

/// The arena itself: a vector of slots, each either occupied or a hole.
pub struct StaticIndicesVec<T> {
    data: Vec<Option<T>>,
}

impl<T> View for StaticIndicesVec<T> {
    type V = Seq<Option<T>>;

    closed spec fn view(&self) -> Seq<Option<T>> {
        self.data@
    }
}

/// The index of the first hole in `s`, or `s.len()` when every slot is
/// occupied: the slot that the next `push` fills.
pub open spec fn first_hole<T>(s: Seq<Option<T>>) -> int
    decreases s.len(),
{
    if s.len() == 0 {
        0
    } else if s[0] is None {
        0
    } else {
        1 + first_hole(s.drop_first())
    }
}

/// The first hole is the least index whose slot is a hole: every slot below
/// it is occupied, and it is a hole whenever it lies inside the sequence.
pub proof fn lemma_first_hole_at<T>(s: Seq<Option<T>>, k: int)
    requires
        0 <= k <= s.len(),
        forall|j: int| 0 <= j < k ==> s[j] is Some,
        k < s.len() ==> s[k] is None,
        k == s.len() ==> forall|j: int| 0 <= j < s.len() ==> s[j] is Some,
    ensures
        first_hole(s) == k,
    decreases s.len(),
{
    if s.len() == 0 {
    } else if k == 0 {
    } else {
        assert(s[0] is Some);
        let t = s.drop_first();
        assert(forall|j: int| 0 <= j < k - 1 ==> t[j] == s[j + 1]);
        lemma_first_hole_at(t, k - 1);
    }
}

/// Slot reuse: removing the element at `i` when no hole lies below `i`
/// makes `i` the first hole, so the next `push` hands the freed index out
/// again — for a different element, which a stale index then addresses.
pub proof fn lemma_slot_reuse<T>(s: Seq<Option<T>>, i: int)
    requires
        0 <= i < s.len(),
        forall|j: int| 0 <= j < i ==> s[j] is Some,
    ensures
        first_hole(s.update(i, None)) == i,
{
    lemma_first_hole_at(s.update(i, None), i);
}

impl<T> StaticIndicesVec<T> {
    /// Builds an empty arena.
    pub fn new() -> (r: StaticIndicesVec<T>)
        ensures
            r@ == Seq::<Option<T>>::empty(),
    {
        StaticIndicesVec { data: Vec::new() }
    }

    /// Stores `element` in the first free hole, or appends a slot when there
    /// is none, and returns the index of the slot it filled.
    pub fn push(&mut self, element: T) -> (r: Index)
        ensures
            r.0 == first_hole(old(self)@),
            r.0 <= old(self)@.len(),
            r.0 < old(self)@.len() ==> final(self)@ == old(self)@.update(r.0 as int, Some(element)),
            r.0 == old(self)@.len() ==> final(self)@ == old(self)@.push(Some(element)),
    {
        let n = self.data.len();
        let mut k: usize = 0;
        while k < n
            invariant
                n == self@.len(),
                0 <= k <= n,
                forall|j: int| 0 <= j < k ==> self@[j] is Some,
                self@ == old(self)@,
            decreases n - k,
        {
            let hole = self.data[k].is_none();
            if hole {
                proof {
                    lemma_first_hole_at(self@, k as int);
                }
                let slot = &mut self.data[k];
                *slot = Some(element);
                return Index(k);
            }
            k += 1;
        }
        proof {
            lemma_first_hole_at(self@, n as int);
        }
        self.data.push(Some(element));
        Index(n)
    }

    /// Takes the element at `index` out of the arena, leaving a hole that a
    /// later `push` may reuse. The slot must be occupied.
    pub fn remove(&mut self, index: Index) -> (r: T)
        requires
            index.0 < old(self)@.len(),
            old(self)@[index.0 as int] is Some,
        ensures
            r == old(self)@[index.0 as int].unwrap(),
            final(self)@ == old(self)@.update(index.0 as int, None),
    {
        let slot = &mut self.data[index.0];
        let v = slot.take();
        v.unwrap()
    }

    /// Says whether `index` addresses an occupied slot.
    pub fn is_live(&self, index: &Index) -> (r: bool)
        ensures
            r == (index.0 < self@.len() && self@[index.0 as int] is Some),
    {
        index.0 < self.data.len() && self.data[index.0].is_some()
    }

    /// Returns a reference to the element at `index`, or `None` when the
    /// index is out of bounds or its slot is a hole.
    pub fn get(&self, index: &Index) -> (r: Option<&T>)
        ensures
            match r {
                Some(v) => index.0 < self@.len() && self@[index.0 as int] == Some(*v),
                None => !(index.0 < self@.len() && self@[index.0 as int] is Some),
            },
    {
        if index.0 < self.data.len() {
            self.data[index.0].as_ref()
        } else {
            None
        }
    }

    /// Returns a mutable reference to the element at `index`. The slot must
    /// be occupied; `is_live` tells whether it is.
    pub fn get_mut(&mut self, index: &Index) -> (r: &mut T)
        requires
            index.0 < old(self)@.len(),
            old(self)@[index.0 as int] is Some,
        ensures
            *r == old(self)@[index.0 as int].unwrap(),
            final(self)@ == old(self)@.update(index.0 as int, Some(*final(r))),
    {
        let slot = &mut self.data[index.0];
        match slot {
            Some(v) => v,
            None => unreached(),
        }
    }

    /// Returns the indices of the occupied slots, in index order: the order
    /// an iteration of the arena visits its elements. The result reflects
    /// the contents at the time of the call.
    pub fn iter(&self) -> (r: Vec<Index>)
        ensures
            forall|j: int|
                0 <= j < r@.len() ==> (#[trigger] r@[j]).0 < self@.len() && self@[r@[j].0 as int]
                    is Some,
            forall|j1: int, j2: int| 0 <= j1 < j2 < r@.len() ==> r@[j1].0 < r@[j2].0,
            forall|i: int|
                0 <= i < self@.len() && self@[i] is Some ==> exists|j: int|
                    0 <= j < r@.len() && (#[trigger] r@[j]).0 == i,
    {
        let n = self.data.len();
        let mut r: Vec<Index> = Vec::new();
        let mut k: usize = 0;
        while k < n
            invariant
                n == self@.len(),
                0 <= k <= n,
                forall|j: int|
                    0 <= j < r@.len() ==> (#[trigger] r@[j]).0 < k && self@[r@[j].0 as int] is Some,
                forall|j1: int, j2: int| 0 <= j1 < j2 < r@.len() ==> r@[j1].0 < r@[j2].0,
                forall|i: int|
                    0 <= i < k && self@[i] is Some ==> exists|j: int|
                        0 <= j < r@.len() && (#[trigger] r@[j]).0 == i,
            decreases n - k,
        {
            if self.data[k].is_some() {
                let ghost r0 = r@;
                r.push(Index(k));
                proof {
                    assert forall|i: int| 0 <= i < k + 1 && self@[i] is Some implies exists|j: int|
                        0 <= j < r@.len() && (#[trigger] r@[j]).0 == i by {
                        if i == k {
                            assert(r@[r@.len() - 1].0 == i);
                        } else {
                            let j0 = choose|j: int| 0 <= j < r0.len() && (#[trigger] r0[j]).0 == i;
                            assert(r@[j0].0 == i);
                        }
                    }
                }
            }
            k += 1;
        }
        r
    }
}

} // verus!

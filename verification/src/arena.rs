//! A slot arena with generation counters.
//!
//! Bodies and colliders live in arenas and are referred to only through
//! [`Id`] handles.  A handle stays valid from insertion until explicit
//! removal.  A removed slot may be reused, but reuse bumps the slot's
//! generation, so a stale handle never aliases the entity that inherited
//! its slot: every query with it reports the slot as dead.

use vstd::prelude::*;

verus! {

/// A handle into an [`Arena`]: a slot index plus the generation the slot
/// had when the handle was issued.  Equality is by both fields.
#[derive(Clone, Copy, Debug, PartialEq, Eq, Hash, Structural)]
pub struct Id {
    pub index: usize,
    pub gen: u64,
}

/// One arena slot: its current generation and its value, if occupied.
pub struct Slot<T> {
    pub gen: u64,
    pub val: Option<T>,
}

/// The arena itself: a growable vector of generation-counted slots.
pub struct Arena<T> {
    pub slots: Vec<Slot<T>>,
}

impl<T> Arena<T> {
    /// Number of slots (occupied or not).
    pub open spec fn len_spec(self) -> int {
        self.slots@.len() as int
    }

    /// The generation of slot `i`.
    pub open spec fn gen_of(self, i: int) -> u64 {
        self.slots@[i].gen
    }

    /// `id` refers to a live value: the slot exists, is occupied, and the
    /// handle's generation matches the slot's.
    pub open spec fn live(self, id: Id) -> bool {
        &&& (id.index as int) < self.slots@.len()
        &&& self.slots@[id.index as int].gen == id.gen
        &&& self.slots@[id.index as int].val is Some
    }

    /// The value a live handle refers to.
    pub open spec fn get_spec(self, id: Id) -> T
        recommends
            self.live(id),
    {
        self.slots@[id.index as int].val->Some_0
    }

    /// `id` is stale: it pointed into this arena at some earlier time and
    /// its slot has since been vacated or reissued.
    pub open spec fn stale(self, id: Id) -> bool {
        &&& (id.index as int) < self.slots@.len()
        &&& id.gen <= self.slots@[id.index as int].gen
        &&& !self.live(id)
    }

    pub fn new() -> (r: Arena<T>)
        ensures
            r.len_spec() == 0,
            forall|id: Id| !r.live(id),
    {
        Arena { slots: Vec::new() }
    }

    /// Count of live values, as a spec function (by slot scan).
    pub open spec fn live_count(self) -> int {
        Self::live_count_rec(self.slots@)
    }

    pub open spec fn live_count_rec(s: Seq<Slot<T>>) -> int
        decreases s.len(),
    {
        if s.len() == 0 {
            0
        } else {
            Self::live_count_rec(s.drop_last()) + if s.last().val is Some {
                1int
            } else {
                0int
            }
        }
    }

    /// Insert a value, reusing a vacated slot when one is available.
    ///
    /// The returned handle is live and distinct from every handle that was
    /// live before, and from every stale handle: reuse bumps the slot's
    /// generation, so a handle removed earlier can never equal the new one.
    pub fn insert(&mut self, v: T) -> (r: Id)
        ensures
            final(self).live(r),
            final(self).get_spec(r) == v,
            old(self).len_spec() <= final(self).len_spec() <= old(self).len_spec() + 1,
            final(self).len_spec() == old(self).len_spec() + 1 ==> r.index as int == old(
                self,
            ).len_spec(),
            final(self).len_spec() == old(self).len_spec() ==> (r.index as int) < old(
                self,
            ).len_spec(),
            // every other slot is untouched
            forall|i: int|
                0 <= i < old(self).len_spec() && i != r.index as int ==> final(self).slots@[i]
                    == old(self).slots@[i],
            // handles live before stay live, unchanged, and differ from the new one
            forall|id: Id|
                old(self).live(id) ==> final(self).live(id) && #[trigger] final(self).get_spec(id)
                    == old(self).get_spec(id) && id != r,
            // stale handles stay stale and differ from the new one
            forall|id: Id| old(self).stale(id) ==> #[trigger] final(self).stale(id) && id != r,
    {
        let n = self.slots.len();
        let mut free: usize = n;
        let mut i: usize = 0;
        while i < n
            invariant
                n == self.slots@.len(),
                free == n || (free < n && self.slots@[free as int].val is None
                    && self.slots@[free as int].gen < u64::MAX),
            decreases n - i,
        {
            if free == n && self.slots[i].val.is_none() && self.slots[i].gen < u64::MAX {
                free = i;
            }
            i += 1;
        }
        if free < n {
            let g = self.slots[free].gen + 1;
            self.slots[free] = Slot { gen: g, val: Some(v) };
            Id { index: free, gen: g }
        } else {
            self.slots.push(Slot { gen: 0, val: Some(v) });
            Id { index: n, gen: 0 }
        }
    }

    /// Read through a handle; `None` exactly when the handle is dead.
    pub fn get(&self, id: Id) -> (r: Option<&T>)
        ensures
            match r {
                Some(v) => self.live(id) && *v == self.get_spec(id),
                None => !self.live(id),
            },
    {
        if id.index < self.slots.len() {
            let slot = &self.slots[id.index];
            if slot.gen == id.gen { slot.val.as_ref() } else { None }
        } else {
            None
        }
    }

    /// Whether the handle refers to a live value.
    pub fn contains(&self, id: Id) -> (r: bool)
        ensures
            r == self.live(id),
    {
        self.get(id).is_some()
    }

    /// Replace the value behind a live handle; reports whether it was live.
    pub fn update(&mut self, id: Id, v: T) -> (r: bool)
        ensures
            r == old(self).live(id),
            r ==> final(self).slots@ == old(self).slots@.update(
                id.index as int,
                Slot { gen: id.gen, val: Some(v) },
            ),
            !r ==> *final(self) == *old(self),
            final(self).len_spec() == old(self).len_spec(),
            forall|id2: Id| old(self).live(id2) <==> #[trigger] final(self).live(id2),
            r ==> final(self).get_spec(id) == v,
            forall|id2: Id|
                old(self).live(id2) && id2 != id ==> #[trigger] final(self).get_spec(id2)
                    == old(self).get_spec(id2),
    {
        if id.index < self.slots.len() {
            let slot = &self.slots[id.index];
            if slot.gen == id.gen && slot.val.is_some() {
                self.slots[id.index] = Slot { gen: id.gen, val: Some(v) };
                proof {
                    assert(final(self).live(id));
                }
                return true;
            }
        }
        false
    }

    /// Remove the value behind a handle; a no-op on a dead handle.
    ///
    /// The slot keeps its generation, so the handle stays recognisably
    /// stale, and a later reuse of the slot bumps the generation past it.
    pub fn remove(&mut self, id: Id) -> (r: bool)
        ensures
            r == old(self).live(id),
            !final(self).live(id),
            final(self).stale(id) == (old(self).live(id) || old(self).stale(id)),
            final(self).len_spec() == old(self).len_spec(),
            r ==> final(self).slots@ == old(self).slots@.update(
                id.index as int,
                Slot { gen: id.gen, val: None },
            ),
            !r ==> *final(self) == *old(self),
            forall|i: int|
                0 <= i < old(self).len_spec() ==> final(self).gen_of(i) == old(self).gen_of(i),
            forall|id2: Id|
                old(self).live(id2) && id2 != id ==> #[trigger] final(self).live(id2)
                    && final(self).get_spec(id2) == old(self).get_spec(id2),
            forall|id2: Id| old(self).stale(id2) ==> #[trigger] final(self).stale(id2),
    {
        if id.index < self.slots.len() {
            let slot = &self.slots[id.index];
            if slot.gen == id.gen && slot.val.is_some() {
                self.slots[id.index] = Slot { gen: id.gen, val: None };
                return true;
            }
        }
        false
    }
}

/// Handle lifecycle law: after `insert` gives `h`, `remove(h)` kills it,
/// every later query on `h` reports it dead, and a subsequent `insert` —
/// whether or not it reuses the slot — returns a handle different from `h`.
///
/// The states are related by the contracts of [`Arena::insert`] and
/// [`Arena::remove`]: `a1` is `a0` after removing the live handle `h`, and
/// `r` is the handle a later insert into `a1` returned.
pub proof fn lemma_handle_lifecycle<T>(a0: Arena<T>, h: Id, a1: Arena<T>, a2: Arena<T>, r: Id)
    requires
        a0.live(h),
        // what remove(h) on a0 ensures of a1
        !a1.live(h),
        a1.stale(h),
        a1.len_spec() == a0.len_spec(),
        // what a later insert into a1 ensures of a2 and r
        a2.live(r),
        forall|id: Id| a1.stale(id) ==> #[trigger] a2.stale(id) && id != r,
    ensures
        r != h,
        !a1.live(h),
        a2.stale(h),
        !a2.live(h),
{
    assert(a2.stale(h));
}

} // verus!

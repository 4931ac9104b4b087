//! Generation-checked storage for bodies, colliders and joints.
//!
//! Entities are addressed by a [`Handle`] carrying a slot index and a
//! generation. A slot's generation is bumped on every insertion and removal,
//! so an operation through a handle whose entity was removed fails instead of
//! aliasing a newer entity that reuses the same slot.

use vstd::prelude::*;

verus! {

/// A generation-checked reference to an entity in an [`Arena`].
#[derive(Clone, Copy, PartialEq, Eq, Structural, Debug)]
pub struct Handle {
    pub index: usize,
    pub generation: u64,
}

/// One storage slot: its current generation and, when occupied, its value.
#[derive(Clone)]
pub struct Slot<T> {
    pub generation: u64,
    pub value: Option<T>,
}

/// A growable store of slots addressed by generation-checked handles.
#[derive(Clone)]
pub struct Arena<T> {
    pub slots: Vec<Slot<T>>,
}

impl<T> Arena<T> {
    /// Number of slots ever allocated (not the number of live entities).
    pub open spec fn slot_count_spec(self) -> int {
        self.slots@.len() as int
    }

    /// The generation currently stored in slot `i`.
    pub open spec fn slot_gen(self, i: int) -> int {
        self.slots@[i].generation as int
    }

    /// Slot `i` currently holds an entity.
    pub open spec fn occupied(self, i: int) -> bool {
        0 <= i < self.slots@.len() && self.slots@[i].value.is_some()
    }

    /// The value held in slot `i`.
    pub open spec fn at(self, i: int) -> T {
        self.slots@[i].value.unwrap()
    }

    /// `h` refers to a live entity: the slot exists, holds a value, and the
    /// generations agree.
    pub open spec fn live(self, h: Handle) -> bool {
        &&& (h.index as int) < self.slots@.len()
        &&& self.slots@[h.index as int].value.is_some()
        &&& self.slot_gen(h.index as int) == h.generation as int
    }

    /// The value `h` refers to.
    pub open spec fn value_of(self, h: Handle) -> T {
        self.at(h.index as int)
    }

    /// `h` refers to an entity that was removed: its slot has moved past the
    /// handle's generation, so the handle can never be live again.
    pub open spec fn stale(self, h: Handle) -> bool {
        (h.index as int) < self.slots@.len() && (h.generation as int) < self.slot_gen(
            h.index as int,
        )
    }

    /// Generation bookkeeping is intact: an occupied slot can still be
    /// bumped when its entity is removed. A free slot whose generation is
    /// exhausted is simply never reused.
    pub open spec fn wf(self) -> bool {
        forall|i: int| self.occupied(i) ==> self.slot_gen(i) < u64::MAX as int
    }

    /// Slot generations never go backward and slots are never deallocated:
    /// the relation every mutation of an arena preserves.
    pub open spec fn gens_grow(pre: Arena<T>, post: Arena<T>) -> bool {
        &&& pre.slots@.len() <= post.slots@.len()
        &&& forall|i: int|
            0 <= i < pre.slots@.len() ==> pre.slot_gen(i) <= post.slot_gen(i)
    }

    /// A stale handle stays dead across any chain of mutations: since slot
    /// generations only grow, it can never match its slot's generation again.
    pub proof fn lemma_stale_never_live(pre: Arena<T>, post: Arena<T>, h: Handle)
        requires
            pre.stale(h),
            Self::gens_grow(pre, post),
        ensures
            post.stale(h),
            !post.live(h),
    {
    }

    /// An empty arena.
    pub fn new() -> (r: Arena<T>)
        ensures
            r.slots@.len() == 0,
            r.wf(),
    {
        Arena { slots: Vec::new() }
    }

    /// Number of slots.
    pub fn slot_count(&self) -> (r: usize)
        ensures
            r as int == self.slot_count_spec(),
    {
        self.slots.len()
    }

    /// Inserts an entity, reusing the lowest reusable free slot, and returns
    /// its handle. Slot choice depends only on the arena's state, never on
    /// outside circumstance, so insertion order is reproducible.
    pub fn insert(&mut self, value: T) -> (h: Handle)
        requires
            old(self).wf(),
        ensures
            final(self).wf(),
            Self::gens_grow(*old(self), *final(self)),
            final(self).live(h),
            final(self).value_of(h) == value,
            // a handle that was live before stays live, with its value,
            forall|g: Handle|
                old(self).live(g) ==> final(self).live(g) && final(self).value_of(g)
                    == old(self).value_of(g),
            // a handle that was stale before cannot alias the new entity,
            forall|g: Handle| old(self).stale(g) ==> !final(self).live(g),
            h.index as int == final(self).slots@.len() - 1 || old(self).occupied(h.index as int)
                == false,
            // the new handle's generation is strictly past any stale handle
            // that pointed at the same slot,
            forall|g: Handle|
                old(self).stale(g) && g.index == h.index ==> (g.generation as int)
                    < h.generation as int,
            // every other slot is untouched,
            forall|j: int|
                0 <= j < old(self).slots@.len() && j != h.index as int ==> final(self).slots@[j]
                    == old(self).slots@[j],
            final(self).slots@.len() == old(self).slots@.len() || (final(self).slots@.len() == old(
                self,
            ).slots@.len() + 1 && h.index as int == old(self).slots@.len()),
            final(self).slots@[h.index as int] == (Slot {
                generation: h.generation,
                value: Some(value),
            }),
    {
        let n: usize = self.slots.len();
        let mut i: usize = 0;
        while i < n
            invariant
                n as int == self.slots@.len(),
                *self == *old(self),
                old(self).wf(),
                i <= n,
            decreases n - i,
        {
            if self.slots[i].value.is_none() && self.slots[i].generation < u64::MAX - 1 {
                let g: u64 = self.slots[i].generation + 1;
                proof {
                    assert(g < u64::MAX);
                }
                self.slots[i] = Slot { generation: g, value: Some(value) };
                proof {
                    assert(self.slots@[i as int].generation == g);
                    assert(self.slots@.len() == old(self).slots@.len());
                    assert(forall|j: int|
                        0 <= j < n && j != i as int ==> self.slots@[j] == old(self).slots@[j]);
                }
                proof {
                    assert forall|j: int| self.occupied(j) implies self.slot_gen(j)
                        < u64::MAX as int by {
                        if j == i as int {
                            assert(self.slot_gen(j) == g as int);
                        } else {
                            assert(self.slots@[j] == old(self).slots@[j]);
                            assert(old(self).occupied(j));
                        }
                    }
                }
                return Handle { index: i, generation: g };
            }
            i = i + 1;
        }
        let g: u64 = 1;
        self.slots.push(Slot { generation: g, value: Some(value) });
        proof {
            assert forall|j: int| self.occupied(j) implies self.slot_gen(j) < u64::MAX as int by {
                if j != n as int {
                    assert(old(self).occupied(j));
                }
            }
        }
        Handle { index: n, generation: g }
    }

    /// Removes the entity `h` refers to and returns it; returns `None` and
    /// leaves the arena unchanged when `h` is not live.
    pub fn remove(&mut self, h: Handle) -> (r: Option<T>)
        requires
            old(self).wf(),
        ensures
            final(self).wf(),
            Self::gens_grow(*old(self), *final(self)),
            r.is_some() <==> old(self).live(h),
            r.is_some() ==> r.unwrap() == old(self).value_of(h),
            old(self).live(h) ==> final(self).stale(h),
            !old(self).live(h) ==> *final(self) == *old(self),
            // every other live handle keeps its value,
            forall|g: Handle|
                old(self).live(g) && g.index != h.index ==> final(self).live(g)
                    && final(self).value_of(g) == old(self).value_of(g),
            forall|g: Handle| old(self).stale(g) ==> final(self).stale(g),
            old(self).live(h) ==> final(self).slots@ == old(self).slots@.update(
                h.index as int,
                Slot {
                    generation: (old(self).slots@[h.index as int].generation + 1) as u64,
                    value: None,
                },
            ),
    {
        let n: usize = self.slots.len();
        if h.index >= n {
            return None;
        }
        let live_now: bool = self.slots[h.index].value.is_some() && self.slots[h.index].generation
            == h.generation;
        if !live_now {
            proof {
                assert(self.slots@ =~= old(self).slots@);
            }
            return None;
        }
        proof {
            assert(self.occupied(h.index as int));
        }
        let g: u64 = self.slots[h.index].generation + 1;
        let mut taken: Slot<T> = Slot { generation: g, value: None };
        core::mem::swap(&mut self.slots[h.index], &mut taken);
        proof {
            assert forall|j: int| self.occupied(j) implies self.slot_gen(j) < u64::MAX as int by {
                if j != h.index as int {
                    assert(old(self).occupied(j));
                }
            }
        }
        taken.value
    }

    /// Looks up the entity `h` refers to.
    pub fn get(&self, h: Handle) -> (r: Option<&T>)
        ensures
            r.is_some() <==> self.live(h),
            r.is_some() ==> *r.unwrap() == self.value_of(h),
    {
        if h.index >= self.slots.len() {
            return None;
        }
        if self.slots[h.index].generation != h.generation {
            return None;
        }
        self.slots[h.index].value.as_ref()
    }

    /// Whether `h` refers to a live entity.
    pub fn contains(&self, h: Handle) -> (r: bool)
        ensures
            r <==> self.live(h),
    {
        self.get(h).is_some()
    }

    /// The entity in slot `i`, when the slot is occupied. Iterating slots in
    /// index order gives every pass of the pipeline its fixed, handle-derived
    /// traversal order.
    pub fn value_at(&self, i: usize) -> (r: Option<&T>)
        requires
            i < self.slots@.len(),
        ensures
            r.is_some() <==> self.occupied(i as int),
            r.is_some() ==> *r.unwrap() == self.at(i as int),
    {
        self.slots[i].value.as_ref()
    }

    /// The live handle addressing slot `i`, when the slot is occupied.
    pub fn handle_at(&self, i: usize) -> (r: Option<Handle>)
        requires
            i < self.slots@.len(),
        ensures
            r.is_some() <==> self.occupied(i as int),
            r.is_some() ==> self.live(r.unwrap()) && r.unwrap().index == i,
    {
        if self.slots[i].value.is_some() {
            Some(Handle { index: i, generation: self.slots[i].generation })
        } else {
            None
        }
    }

    /// Replaces the value in occupied slot `i`, leaving generations alone.
    pub fn update_at(&mut self, i: usize, value: T)
        requires
            old(self).occupied(i as int),
        ensures
            final(self).slots@ == old(self).slots@.update(
                i as int,
                Slot { generation: old(self).slots@[i as int].generation, value: Some(value) },
            ),
    {
        let g: u64 = self.slots[i].generation;
        self.slots[i] = Slot { generation: g, value: Some(value) };
    }
}

} // verus!

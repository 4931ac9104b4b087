//! The simulation world: every body, collider, joint and retained manifold.
//!
//! The world owns its stores exclusively; callers read and queue changes
//! between steps through the handle-checked interface here, and the pipeline
//! mutates state only during [`crate::pipeline::PhysicsPipeline::step`]. A
//! bad handle makes an operation fail with `InvalidHandle` before anything
//! is mutated.

use vstd::prelude::*;
use crate::arena::{Arena, Handle};
use crate::body::{RigidBody, BodyType, body_valid};
use crate::collider::{Collider, collider_valid};
use crate::fx::{fits, FX_MAX};
use crate::joint::{Joint, joint_valid};
use crate::manifold::{Manifold, manifold_valid};
use crate::shape::{PhysicsError, shape_valid};
use crate::vec3::{Vec3, v_fits, v_add_spec, v_scale_spec};

verus! {

/// The full simulation state. Capturing it and later restoring it resumes
/// the simulation bit-identically: a step is a pure function of this state
/// and its configuration.
pub struct World {
    pub bodies: Arena<RigidBody>,
    pub colliders: Arena<Collider>,
    pub joints: Arena<Joint>,
    pub manifolds: Vec<Manifold>,
}

/// A manifold's collider references, both live.
pub open spec fn manifold_refs_live(w: World, m: Manifold) -> bool {
    w.colliders.live(m.collider_a) && w.colliders.live(m.collider_b)
}

impl World {
    /// The world invariant: arenas can allocate, every stored entity is
    /// well-formed, every collider's parent and every joint's bodies are
    /// live, and no manifold references a destroyed collider.
    pub open spec fn wf(self) -> bool {
        &&& self.bodies.wf()
        &&& self.colliders.wf()
        &&& self.joints.wf()
        &&& forall|i: int| self.bodies.occupied(i) ==> body_valid(#[trigger] self.bodies.at(i))
        &&& forall|i: int|
            self.colliders.occupied(i) ==> collider_valid(#[trigger] self.colliders.at(i))
        &&& forall|i: int|
            self.colliders.occupied(i) ==> (match (#[trigger] self.colliders.at(i)).parent {
                Option::Some(p) => self.bodies.live(p),
                Option::None => true,
            })
        &&& forall|i: int| self.joints.occupied(i) ==> joint_valid(#[trigger] self.joints.at(i))
        &&& forall|i: int|
            self.joints.occupied(i) ==> self.bodies.live((#[trigger] self.joints.at(i)).body_a)
                && self.bodies.live(self.joints.at(i).body_b)
        &&& forall|k: int|
            0 <= k < self.manifolds@.len() ==> manifold_valid(#[trigger] self.manifolds@[k])
                && manifold_refs_live(self, self.manifolds@[k])
    }

    /// Two worlds hold the same simulation state.
    pub open spec fn same_state(a: World, b: World) -> bool {
        &&& a.bodies.slots@ == b.bodies.slots@
        &&& a.colliders.slots@ == b.colliders.slots@
        &&& a.joints.slots@ == b.joints.slots@
        &&& a.manifolds@ == b.manifolds@
    }

    /// An empty world.
    pub fn new() -> (r: World)
        ensures
            r.wf(),
            r.bodies.slots@.len() == 0,
            r.colliders.slots@.len() == 0,
            r.joints.slots@.len() == 0,
            r.manifolds@.len() == 0,
    {
        World {
            bodies: Arena::new(),
            colliders: Arena::new(),
            joints: Arena::new(),
            manifolds: Vec::new(),
        }
    }

    /// Inserts a body, returning its handle; fails exactly when the body's
    /// numeric state is out of range.
    pub fn add_body(&mut self, b: RigidBody) -> (r: Result<Handle, PhysicsError>)
        requires
            old(self).wf(),
        ensures
            final(self).wf(),
            r.is_ok() <==> body_valid(b),
            r.is_err() ==> *final(self) == *old(self) && r.unwrap_err()
                == PhysicsError::InvalidShapeParameters,
            r.is_ok() ==> final(self).bodies.live(r.unwrap())
                && final(self).bodies.value_of(r.unwrap()) == b,
            r.is_ok() ==> final(self).colliders == old(self).colliders
                && final(self).joints == old(self).joints
                && final(self).manifolds == old(self).manifolds,
            Arena::gens_grow(old(self).bodies, final(self).bodies),
            forall|g: Handle|
                old(self).bodies.live(g) ==> final(self).bodies.live(g)
                    && final(self).bodies.value_of(g) == old(self).bodies.value_of(g),
            forall|g: Handle| old(self).bodies.stale(g) ==> !final(self).bodies.live(g),
    {
        if !body_check(&b) {
            return Err(PhysicsError::InvalidShapeParameters);
        }
        let h = self.bodies.insert(b);
        proof {
            assert forall|i: int| self.bodies.occupied(i) implies body_valid(
                #[trigger] self.bodies.at(i),
            ) by {
                if i == h.index as int {
                    assert(self.bodies.at(i) == b);
                } else {
                    assert(self.bodies.slots@[i] == old(self).bodies.slots@[i]);
                    assert(old(self).bodies.occupied(i));
                    assert(body_valid(old(self).bodies.at(i)));
                }
            }
            assert forall|i: int| self.colliders.occupied(i) implies (match (
            #[trigger] self.colliders.at(i)).parent {
                Option::Some(p) => self.bodies.live(p),
                Option::None => true,
            }) by {
                assert(old(self).colliders.occupied(i));
                match old(self).colliders.at(i).parent {
                    Option::Some(p) => {
                        assert(old(self).bodies.live(p));
                    },
                    Option::None => {},
                }
            }
            assert forall|i: int| self.joints.occupied(i) implies self.bodies.live(
                (#[trigger] self.joints.at(i)).body_a,
            ) && self.bodies.live(self.joints.at(i).body_b) by {
                assert(old(self).joints.occupied(i));
                assert(old(self).bodies.live(old(self).joints.at(i).body_a));
                assert(old(self).bodies.live(old(self).joints.at(i).body_b));
            }
        }
        Ok(h)
    }

    /// Looks up a body; `InvalidHandle` exactly when the handle is dead.
    pub fn body(&self, h: Handle) -> (r: Result<&RigidBody, PhysicsError>)
        ensures
            r.is_ok() <==> self.bodies.live(h),
            r.is_ok() ==> *r.unwrap() == self.bodies.value_of(h),
            r.is_err() ==> r.unwrap_err() == PhysicsError::InvalidHandle,
    {
        match self.bodies.get(h) {
            Option::Some(b) => Ok(b),
            Option::None => Err(PhysicsError::InvalidHandle),
        }
    }

    /// Looks up a collider; `InvalidHandle` exactly when the handle is dead.
    pub fn collider(&self, h: Handle) -> (r: Result<&Collider, PhysicsError>)
        ensures
            r.is_ok() <==> self.colliders.live(h),
            r.is_ok() ==> *r.unwrap() == self.colliders.value_of(h),
            r.is_err() ==> r.unwrap_err() == PhysicsError::InvalidHandle,
    {
        match self.colliders.get(h) {
            Option::Some(c) => Ok(c),
            Option::None => Err(PhysicsError::InvalidHandle),
        }
    }

    /// Looks up a joint; `InvalidHandle` exactly when the handle is dead.
    pub fn joint(&self, h: Handle) -> (r: Result<&Joint, PhysicsError>)
        ensures
            r.is_ok() <==> self.joints.live(h),
            r.is_ok() ==> *r.unwrap() == self.joints.value_of(h),
            r.is_err() ==> r.unwrap_err() == PhysicsError::InvalidHandle,
    {
        match self.joints.get(h) {
            Option::Some(j) => Ok(j),
            Option::None => Err(PhysicsError::InvalidHandle),
        }
    }

    /// Overwrites a body's velocity and wakes it. Fails with
    /// `InvalidHandle` on a dead handle and `InvalidShapeParameters` on an
    /// out-of-range velocity, mutating nothing in either case.
    pub fn set_body_velocity(&mut self, h: Handle, vel: Vec3) -> (r: Result<(), PhysicsError>)
        requires
            old(self).wf(),
        ensures
            final(self).wf(),
            r.is_ok() <==> (old(self).bodies.live(h) && v_fits(vel)),
            !old(self).bodies.live(h) ==> r == Result::<(), PhysicsError>::Err(
                PhysicsError::InvalidHandle,
            ),
            r.is_err() ==> *final(self) == *old(self),
            r.is_ok() ==> final(self).bodies.slots@ == old(self).bodies.slots@.update(
                h.index as int,
                crate::arena::Slot {
                    generation: old(self).bodies.slots@[h.index as int].generation,
                    value: Option::Some(
                        RigidBody {
                            vel,
                            sleeping: false,
                            sleep_steps: 0u32,
                            ..old(self).bodies.value_of(h)
                        },
                    ),
                },
            ),
            r.is_ok() ==> final(self).colliders == old(self).colliders
                && final(self).joints == old(self).joints
                && final(self).manifolds == old(self).manifolds,
    {
        let live: bool = self.bodies.contains(h);
        if !live {
            return Err(PhysicsError::InvalidHandle);
        }
        if Vec3::new(vel.x, vel.y, vel.z).is_none() {
            return Err(PhysicsError::InvalidShapeParameters);
        }
        let cur: RigidBody = match self.bodies.get(h) {
            Option::Some(b) => *b,
            Option::None => {
                proof {
                    assert(false);
                }
                RigidBody { vel, ..*self.bodies.get(h).unwrap() }
            },
        };
        let updated = RigidBody { vel, sleeping: false, sleep_steps: 0, ..cur };
        self.bodies.update_at(h.index, updated);
        proof {
            lemma_world_update_body(*old(self), *self, h.index as int, updated);
        }
        Ok(())
    }

    /// Applies a linear impulse at the center of mass and wakes the body:
    /// the velocity gains `impulse * inv_mass`. Fails as
    /// [`Self::set_body_velocity`] does, mutating nothing.
    pub fn apply_impulse(&mut self, h: Handle, impulse: Vec3) -> (r: Result<(), PhysicsError>)
        requires
            old(self).wf(),
        ensures
            final(self).wf(),
            r.is_ok() <==> (old(self).bodies.live(h) && v_fits(impulse)),
            !old(self).bodies.live(h) ==> r == Result::<(), PhysicsError>::Err(
                PhysicsError::InvalidHandle,
            ),
            r.is_err() ==> *final(self) == *old(self),
            r.is_ok() ==> final(self).bodies.slots@ == old(self).bodies.slots@.update(
                h.index as int,
                crate::arena::Slot {
                    generation: old(self).bodies.slots@[h.index as int].generation,
                    value: Option::Some(
                        RigidBody {
                            vel: v_add_spec(
                                old(self).bodies.value_of(h).vel,
                                v_scale_spec(
                                    impulse,
                                    old(self).bodies.value_of(h).inv_mass as int,
                                ),
                            ),
                            sleeping: false,
                            sleep_steps: 0u32,
                            ..old(self).bodies.value_of(h)
                        },
                    ),
                },
            ),
            r.is_ok() ==> final(self).colliders == old(self).colliders
                && final(self).joints == old(self).joints
                && final(self).manifolds == old(self).manifolds,
    {
        let live: bool = self.bodies.contains(h);
        if !live {
            return Err(PhysicsError::InvalidHandle);
        }
        if Vec3::new(impulse.x, impulse.y, impulse.z).is_none() {
            return Err(PhysicsError::InvalidShapeParameters);
        }
        let cur: RigidBody = match self.bodies.get(h) {
            Option::Some(b) => *b,
            Option::None => {
                proof {
                    assert(false);
                }
                RigidBody { ..*self.bodies.get(h).unwrap() }
            },
        };
        proof {
            assert(self.bodies.occupied(h.index as int));
        }
        let dv = impulse.scale(cur.inv_mass);
        let updated = RigidBody { vel: cur.vel.add(dv), sleeping: false, sleep_steps: 0, ..cur };
        self.bodies.update_at(h.index, updated);
        proof {
            lemma_world_update_body(*old(self), *self, h.index as int, updated);
        }
        Ok(())
    }

    /// Attaches a collider; fails with `InvalidShapeParameters` when the
    /// shape or offset is out of range and `InvalidHandle` when the parent
    /// body is dead, mutating nothing in either case.
    pub fn add_collider(&mut self, c: Collider) -> (r: Result<Handle, PhysicsError>)
        requires
            old(self).wf(),
        ensures
            final(self).wf(),
            r.is_ok() <==> (collider_valid(c) && (match c.parent {
                Option::Some(p) => old(self).bodies.live(p),
                Option::None => true,
            })),
            r.is_err() ==> *final(self) == *old(self),
            r.is_ok() ==> final(self).colliders.live(r.unwrap())
                && final(self).colliders.value_of(r.unwrap()) == c,
            r.is_ok() ==> final(self).bodies == old(self).bodies
                && final(self).joints == old(self).joints
                && final(self).manifolds == old(self).manifolds,
            Arena::gens_grow(old(self).colliders, final(self).colliders),
            forall|g: Handle| old(self).colliders.stale(g) ==> !final(self).colliders.live(g),
            forall|g: Handle|
                old(self).colliders.live(g) ==> final(self).colliders.live(g)
                    && final(self).colliders.value_of(g) == old(self).colliders.value_of(g),
    {
        if !(crate::shape::shape_check(&c.shape) && Vec3::new(
            c.offset.x,
            c.offset.y,
            c.offset.z,
        ).is_some()) {
            return Err(PhysicsError::InvalidShapeParameters);
        }
        let parent_ok: bool = match c.parent {
            Option::Some(p) => self.bodies.contains(p),
            Option::None => true,
        };
        if !parent_ok {
            return Err(PhysicsError::InvalidHandle);
        }
        let h = self.colliders.insert(c);
        proof {
            assert forall|i: int| self.colliders.occupied(i) implies collider_valid(
                #[trigger] self.colliders.at(i),
            ) && (match self.colliders.at(i).parent {
                Option::Some(p) => self.bodies.live(p),
                Option::None => true,
            }) by {
                if i == h.index as int {
                    assert(self.colliders.at(i) == c);
                } else {
                    assert(self.colliders.slots@[i] == old(self).colliders.slots@[i]);
                    assert(old(self).colliders.occupied(i));
                    assert(collider_valid(old(self).colliders.at(i)));
                }
            }
            assert forall|k: int| 0 <= k < self.manifolds@.len() implies manifold_valid(
                #[trigger] self.manifolds@[k],
            ) && manifold_refs_live(*self, self.manifolds@[k]) by {
                assert(manifold_refs_live(*old(self), old(self).manifolds@[k]));
                assert(old(self).colliders.live(old(self).manifolds@[k].collider_a));
                assert(old(self).colliders.live(old(self).manifolds@[k].collider_b));
            }
        }
        Ok(h)
    }

    /// Removes a collider and every retained manifold that references it;
    /// `InvalidHandle` exactly when the handle is dead, mutating nothing
    /// then.
    pub fn remove_collider(&mut self, h: Handle) -> (r: Result<Collider, PhysicsError>)
        requires
            old(self).wf(),
        ensures
            final(self).wf(),
            r.is_ok() <==> old(self).colliders.live(h),
            r.is_err() ==> *final(self) == *old(self) && r.unwrap_err()
                == PhysicsError::InvalidHandle,
            r.is_ok() ==> r.unwrap() == old(self).colliders.value_of(h),
            r.is_ok() ==> final(self).colliders.stale(h),
            r.is_ok() ==> final(self).manifolds@ == live_manifolds(
                old(self).manifolds@,
                final(self).colliders,
            ),
            final(self).bodies == old(self).bodies && final(self).joints == old(self).joints,
            Arena::gens_grow(old(self).colliders, final(self).colliders),
            forall|g: Handle| old(self).colliders.stale(g) ==> final(self).colliders.stale(g),
    {
        let removed = self.colliders.remove(h);
        match removed {
            Option::None => {
                proof {
                    assert(self.manifolds@ =~= old(self).manifolds@);
                }
                Err(PhysicsError::InvalidHandle)
            },
            Option::Some(c) => {
                let kept = retain_live_manifolds(&self.manifolds, &self.colliders);
                self.manifolds = kept;
                proof {
                    assert forall|i: int| self.colliders.occupied(i) implies collider_valid(
                        #[trigger] self.colliders.at(i),
                    ) && (match self.colliders.at(i).parent {
                        Option::Some(p) => self.bodies.live(p),
                        Option::None => true,
                    }) by {
                        assert(self.colliders.slots@[i] == old(self).colliders.slots@[i]);
                        assert(old(self).colliders.occupied(i));
                        assert(collider_valid(old(self).colliders.at(i)));
                    }
                    lemma_live_manifolds(old(self).manifolds@, self.colliders);
                    assert forall|k: int| 0 <= k < self.manifolds@.len() implies manifold_valid(
                        #[trigger] self.manifolds@[k],
                    ) && manifold_refs_live(*self, self.manifolds@[k]) by {
                        let j = choose|j: int|
                            0 <= j < old(self).manifolds@.len() && old(self).manifolds@[j]
                                == self.manifolds@[k];
                        assert(manifold_valid(old(self).manifolds@[j]));
                    }
                }
                Ok(c)
            },
        }
    }

    /// Removes a body together with its attached colliders, the joints that
    /// touch it, and the manifolds referencing those colliders.
    /// `InvalidHandle` exactly when the handle is dead, mutating nothing
    /// then.
    pub fn remove_body(&mut self, h: Handle) -> (r: Result<RigidBody, PhysicsError>)
        requires
            old(self).wf(),
        ensures
            final(self).wf(),
            r.is_ok() <==> old(self).bodies.live(h),
            r.is_err() ==> *final(self) == *old(self) && r.unwrap_err()
                == PhysicsError::InvalidHandle,
            r.is_ok() ==> r.unwrap() == old(self).bodies.value_of(h),
            r.is_ok() ==> final(self).bodies.stale(h),
            // no surviving collider or joint still references the body,
            forall|i: int|
                final(self).colliders.occupied(i)
                    ==> (#[trigger] final(self).colliders.at(i)).parent != Option::Some(h),
            r.is_ok() ==> forall|i: int|
                final(self).joints.occupied(i) ==> (#[trigger] final(self).joints.at(i)).body_a
                    != h && final(self).joints.at(i).body_b != h,
            Arena::gens_grow(old(self).bodies, final(self).bodies),
            Arena::gens_grow(old(self).colliders, final(self).colliders),
            Arena::gens_grow(old(self).joints, final(self).joints),
            forall|g: Handle| old(self).bodies.stale(g) ==> final(self).bodies.stale(g),
    {
        let removed = self.bodies.remove(h);
        match removed {
            Option::None => {
                proof {
                    assert(*self == *old(self));
                    assert forall|i: int| self.colliders.occupied(i) implies (
                    #[trigger] self.colliders.at(i)).parent != Option::Some(h) by {
                        assert(old(self).colliders.occupied(i));
                        match old(self).colliders.at(i).parent {
                            Option::Some(p) => {
                                assert(old(self).bodies.live(p));
                                assert(!old(self).bodies.live(h));
                            },
                            Option::None => {},
                        }
                    }
                }
                Err(PhysicsError::InvalidHandle)
            },
            Option::Some(b) => {
                drop_colliders_of(&mut self.colliders, h);
                drop_joints_touching(&mut self.joints, h);
                let kept = retain_live_manifolds(&self.manifolds, &self.colliders);
                self.manifolds = kept;
                proof {
                    let pre = *old(self);
                    assert forall|i: int| self.bodies.occupied(i) implies body_valid(
                        #[trigger] self.bodies.at(i),
                    ) by {
                        assert(pre.bodies.occupied(i));
                        assert(body_valid(pre.bodies.at(i)));
                    }
                    assert forall|i: int| self.colliders.occupied(i) implies collider_valid(
                        #[trigger] self.colliders.at(i),
                    ) && (match self.colliders.at(i).parent {
                        Option::Some(p) => self.bodies.live(p),
                        Option::None => true,
                    }) by {
                        assert(pre.colliders.occupied(i) && pre.colliders.at(i)
                            == self.colliders.at(i));
                        assert(collider_valid(pre.colliders.at(i)));
                        match self.colliders.at(i).parent {
                            Option::Some(p) => {
                                assert(pre.bodies.live(p));
                                assert(p != h);
                                assert(self.bodies.live(p));
                            },
                            Option::None => {},
                        }
                    }
                    assert forall|i: int| self.joints.occupied(i) implies joint_valid(
                        #[trigger] self.joints.at(i),
                    ) && self.bodies.live(self.joints.at(i).body_a) && self.bodies.live(
                        self.joints.at(i).body_b,
                    ) by {
                        assert(pre.joints.occupied(i) && pre.joints.at(i) == self.joints.at(i));
                        assert(joint_valid(pre.joints.at(i)));
                        assert(pre.bodies.live(pre.joints.at(i).body_a));
                        assert(pre.bodies.live(pre.joints.at(i).body_b));
                        assert(self.joints.at(i).body_a != h && self.joints.at(i).body_b != h);
                    }
                    lemma_live_manifolds(pre.manifolds@, self.colliders);
                    assert forall|k: int| 0 <= k < self.manifolds@.len() implies manifold_valid(
                        #[trigger] self.manifolds@[k],
                    ) && manifold_refs_live(*self, self.manifolds@[k]) by {
                        let j = choose|j: int|
                            0 <= j < pre.manifolds@.len() && pre.manifolds@[j]
                                == self.manifolds@[k];
                        assert(manifold_valid(pre.manifolds@[j]));
                    }
                }
                Ok(b)
            },
        }
    }

    /// Adds a joint and wakes both bodies it touches. Fails with
    /// `InvalidShapeParameters` on an out-of-range joint and
    /// `InvalidHandle` when either body handle is dead, mutating nothing in
    /// either case.
    pub fn add_joint(&mut self, j: Joint) -> (r: Result<Handle, PhysicsError>)
        requires
            old(self).wf(),
        ensures
            final(self).wf(),
            r.is_ok() <==> (joint_valid(j) && old(self).bodies.live(j.body_a)
                && old(self).bodies.live(j.body_b)),
            r.is_err() ==> *final(self) == *old(self),
            r.is_ok() ==> final(self).joints.live(r.unwrap())
                && final(self).joints.value_of(r.unwrap()) == j,
            r.is_ok() ==> final(self).colliders == old(self).colliders
                && final(self).manifolds == old(self).manifolds,
            // both bodies are awake afterwards,
            r.is_ok() ==> final(self).bodies.value_of(j.body_a).sleeping == false
                && final(self).bodies.value_of(j.body_b).sleeping == false,
            Arena::gens_grow(old(self).bodies, final(self).bodies),
            Arena::gens_grow(old(self).joints, final(self).joints),
    {
        if !(Vec3::new(j.rest_offset.x, j.rest_offset.y, j.rest_offset.z).is_some() && Vec3::new(
            j.warm_impulse.x,
            j.warm_impulse.y,
            j.warm_impulse.z,
        ).is_some()) {
            return Err(PhysicsError::InvalidShapeParameters);
        }
        if !(self.bodies.contains(j.body_a) && self.bodies.contains(j.body_b)) {
            return Err(PhysicsError::InvalidHandle);
        }
        self.wake_at(j.body_a.index);
        proof {
            assert(self.bodies.live(j.body_b));
        }
        self.wake_at(j.body_b.index);
        let ghost mid = *self;
        let h = self.joints.insert(j);
        proof {
            assert forall|i: int| self.joints.occupied(i) implies joint_valid(
                #[trigger] self.joints.at(i),
            ) && self.bodies.live(self.joints.at(i).body_a) && self.bodies.live(
                self.joints.at(i).body_b,
            ) by {
                if i == h.index as int {
                    assert(self.joints.at(i) == j);
                } else {
                    assert(self.joints.slots@[i] == mid.joints.slots@[i]);
                    assert(mid.joints.occupied(i));
                    assert(joint_valid(mid.joints.at(i)));
                }
            }
        }
        Ok(h)
    }

    /// Removes a joint and wakes the two bodies it linked; `InvalidHandle`
    /// exactly when the handle is dead, mutating nothing then.
    pub fn remove_joint(&mut self, h: Handle) -> (r: Result<Joint, PhysicsError>)
        requires
            old(self).wf(),
        ensures
            final(self).wf(),
            r.is_ok() <==> old(self).joints.live(h),
            r.is_err() ==> *final(self) == *old(self) && r.unwrap_err()
                == PhysicsError::InvalidHandle,
            r.is_ok() ==> r.unwrap() == old(self).joints.value_of(h),
            r.is_ok() ==> final(self).joints.stale(h),
            final(self).colliders == old(self).colliders
                && final(self).manifolds == old(self).manifolds,
            Arena::gens_grow(old(self).joints, final(self).joints),
            Arena::gens_grow(old(self).bodies, final(self).bodies),
    {
        let removed = self.joints.remove(h);
        match removed {
            Option::None => Err(PhysicsError::InvalidHandle),
            Option::Some(j) => {
                proof {
                    assert(old(self).joints.occupied(h.index as int));
                    assert(old(self).bodies.live(j.body_a));
                    assert(old(self).bodies.live(j.body_b));
                    assert forall|i: int| self.joints.occupied(i) implies joint_valid(
                        #[trigger] self.joints.at(i),
                    ) && self.bodies.live(self.joints.at(i).body_a) && self.bodies.live(
                        self.joints.at(i).body_b,
                    ) by {
                        assert(self.joints.slots@[i] == old(self).joints.slots@[i]);
                        assert(old(self).joints.occupied(i));
                        assert(joint_valid(old(self).joints.at(i)));
                    }
                }
                self.wake_at(j.body_a.index);
                proof {
                    assert(self.bodies.live(j.body_b));
                }
                self.wake_at(j.body_b.index);
                Ok(j)
            },
        }
    }

    /// Wakes the body in the given occupied slot: clears its sleep flag and
    /// counter, leaving everything else untouched.
    fn wake_at(&mut self, i: usize)
        requires
            old(self).wf(),
            old(self).bodies.occupied(i as int),
        ensures
            final(self).wf(),
            final(self).bodies.slots@ == old(self).bodies.slots@.update(
                i as int,
                crate::arena::Slot {
                    generation: old(self).bodies.slots@[i as int].generation,
                    value: Option::Some(
                        RigidBody {
                            sleeping: false,
                            sleep_steps: 0u32,
                            ..old(self).bodies.at(i as int)
                        },
                    ),
                },
            ),
            final(self).colliders == old(self).colliders && final(self).joints == old(self).joints
                && final(self).manifolds == old(self).manifolds,
            Arena::gens_grow(old(self).bodies, final(self).bodies),
    {
        let cur: RigidBody = match self.bodies.value_at(i) {
            Option::Some(b) => *b,
            Option::None => {
                proof {
                    assert(false);
                }
                RigidBody { ..*self.bodies.value_at(i).unwrap() }
            },
        };
        let updated = RigidBody { sleeping: false, sleep_steps: 0, ..cur };
        self.bodies.update_at(i, updated);
        proof {
            lemma_world_update_body(*old(self), *self, i as int, updated);
        }
    }

    /// Captures the full simulation state. Stepping the copy and stepping
    /// the original with the same configuration produce the same states.
    pub fn snapshot(&self) -> (r: World)
        ensures
            Self::same_state(*self, r),
    {
        World {
            bodies: duplicate_bodies(&self.bodies),
            colliders: duplicate_colliders(&self.colliders),
            joints: duplicate_joints(&self.joints),
            manifolds: duplicate_manifolds(&self.manifolds),
        }
    }
}

/// Replacing one body slot's value with a well-formed body preserves the
/// world invariant when generations and everything else stay put.
pub proof fn lemma_world_update_body(pre: World, post: World, i: int, b: RigidBody)
    requires
        pre.wf(),
        body_valid(b),
        pre.bodies.occupied(i),
        post.bodies.slots@ == pre.bodies.slots@.update(
            i,
            crate::arena::Slot { generation: pre.bodies.slots@[i].generation, value: Option::Some(b) },
        ),
        post.colliders == pre.colliders,
        post.joints == pre.joints,
        post.manifolds == pre.manifolds,
    ensures
        post.wf(),
{
    assert forall|j: int| post.bodies.occupied(j) implies body_valid(#[trigger] post.bodies.at(j))
        by {
        if j != i {
            assert(post.bodies.slots@[j] == pre.bodies.slots@[j]);
            assert(pre.bodies.occupied(j));
            assert(body_valid(pre.bodies.at(j)));
        } else {
            assert(post.bodies.at(i) == b);
        }
    }
    assert forall|j: int| post.bodies.occupied(j) implies post.bodies.slot_gen(j)
        < u64::MAX as int by {
        if j != i {
            assert(pre.bodies.occupied(j));
        } else {
            assert(pre.bodies.occupied(i));
        }
    }
    assert forall|j: int| post.colliders.occupied(j) implies (match (
    #[trigger] post.colliders.at(j)).parent {
        Option::Some(p) => post.bodies.live(p),
        Option::None => true,
    }) by {
        assert(pre.colliders.occupied(j));
    }
    assert forall|j: int| post.joints.occupied(j) implies post.bodies.live(
        (#[trigger] post.joints.at(j)).body_a,
    ) && post.bodies.live(post.joints.at(j).body_b) by {
        assert(pre.joints.occupied(j));
    }
}

/// Runtime check of [`body_valid`].
pub fn body_check(b: &RigidBody) -> (r: bool)
    ensures
        r == body_valid(*b),
{
    Vec3::new(b.pos.x, b.pos.y, b.pos.z).is_some() && Vec3::new(b.vel.x, b.vel.y, b.vel.z).is_some()
        && Vec3::new(b.angvel.x, b.angvel.y, b.angvel.z).is_some() && Vec3::new(
        b.rot.x,
        b.rot.y,
        b.rot.z,
    ).is_some() && b.inv_mass >= 0 && b.inv_mass <= FX_MAX && (match b.body_type {
        BodyType::Dynamic => b.inv_mass > 0,
        _ => b.inv_mass == 0,
    }) && b.restitution >= 0 && b.restitution <= FX_MAX
}

/// Both collider references of `m` are live in `c`.
pub open spec fn manifold_live_in(c: Arena<Collider>, m: Manifold) -> bool {
    c.live(m.collider_a) && c.live(m.collider_b)
}

/// The subsequence of `s` whose manifolds only reference live colliders,
/// in their original order.
pub open spec fn live_manifolds(s: Seq<Manifold>, c: Arena<Collider>) -> Seq<Manifold>
    decreases s.len(),
{
    if s.len() == 0 {
        Seq::empty()
    } else {
        let rest = live_manifolds(s.drop_last(), c);
        if manifold_live_in(c, s.last()) {
            rest.push(s.last())
        } else {
            rest
        }
    }
}

/// Every retained manifold references live colliders and came from the
/// original sequence.
pub proof fn lemma_live_manifolds(s: Seq<Manifold>, c: Arena<Collider>)
    ensures
        forall|k: int|
            0 <= k < live_manifolds(s, c).len() ==> manifold_live_in(
                c,
                #[trigger] live_manifolds(s, c)[k],
            ) && exists|j: int| 0 <= j < s.len() && s[j] == live_manifolds(s, c)[k],
    decreases s.len(),
{
    if s.len() > 0 {
        lemma_live_manifolds(s.drop_last(), c);
        assert forall|k: int| 0 <= k < live_manifolds(s, c).len() implies manifold_live_in(
            c,
            #[trigger] live_manifolds(s, c)[k],
        ) && exists|j: int| 0 <= j < s.len() && s[j] == live_manifolds(s, c)[k] by {
            let rest = live_manifolds(s.drop_last(), c);
            if k < rest.len() {
                assert(live_manifolds(s, c)[k] == rest[k]);
                let j = choose|j: int|
                    0 <= j < s.drop_last().len() && s.drop_last()[j] == rest[k];
                assert(s[j] == rest[k]);
            } else {
                assert(live_manifolds(s, c)[k] == s.last());
                assert(s[s.len() - 1] == s.last());
            }
        }
    }
}

/// Keeps exactly the manifolds whose collider references are both live.
fn retain_live_manifolds(ms: &Vec<Manifold>, c: &Arena<Collider>) -> (r: Vec<Manifold>)
    ensures
        r@ == live_manifolds(ms@, *c),
{
    let n = ms.len();
    let mut out: Vec<Manifold> = Vec::new();
    let mut i: usize = 0;
    while i < n
        invariant
            n == ms@.len(),
            i <= n,
            out@ == live_manifolds(ms@.take(i as int), *c),
        decreases n - i,
    {
        let m = ms[i];
        let keep: bool = c.contains(m.collider_a) && c.contains(m.collider_b);
        if keep {
            out.push(m);
        }
        proof {
            assert(ms@.take(i as int + 1).drop_last() =~= ms@.take(i as int));
            assert(ms@.take(i as int + 1).last() == ms@[i as int]);
        }
        i = i + 1;
    }
    proof {
        assert(ms@.take(n as int) =~= ms@);
    }
    out
}

/// Removes every collider attached to body `h`.
fn drop_colliders_of(colliders: &mut Arena<Collider>, h: Handle)
    requires
        old(colliders).wf(),
    ensures
        final(colliders).wf(),
        Arena::<Collider>::gens_grow(*old(colliders), *final(colliders)),
        final(colliders).slots@.len() == old(colliders).slots@.len(),
        forall|i: int|
            final(colliders).occupied(i) ==> old(colliders).occupied(i)
                && (#[trigger] final(colliders).at(i)) == old(colliders).at(i)
                && final(colliders).at(i).parent != Option::Some(h),
        forall|g: Handle| old(colliders).stale(g) ==> final(colliders).stale(g),
{
    let n: usize = colliders.slot_count();
    let mut i: usize = 0;
    while i < n
        invariant
            n as int == colliders.slots@.len(),
            i <= n,
            colliders.wf(),
            colliders.slots@.len() == old(colliders).slots@.len(),
            forall|j: int| i <= j < n ==> colliders.slots@[j] == old(colliders).slots@[j],
            forall|j: int|
                0 <= j < n ==> #[trigger] colliders.slots@[j] == old(colliders).slots@[j] || (
                colliders.slots@[j].value is None && old(colliders).slots@[j].generation
                    <= colliders.slots@[j].generation),
            forall|j: int|
                0 <= j < i && (#[trigger] colliders.slots@[j]).value is Some ==> colliders.slots@[j]
                    == old(colliders).slots@[j] && old(colliders).at(j).parent != Option::Some(h),
        decreases n - i,
    {
        let ghost prev = *colliders;
        let doomed: bool = match colliders.value_at(i) {
            Option::Some(col) => match col.parent {
                Option::Some(p) => p == h,
                Option::None => false,
            },
            Option::None => false,
        };
        if doomed {
            let hc: Handle = match colliders.handle_at(i) {
                Option::Some(x) => x,
                Option::None => {
                    proof {
                        assert(false);
                    }
                    Handle { index: 0, generation: 0 }
                },
            };
            let _ = colliders.remove(hc);
            proof {
                assert forall|j: int| 0 <= j < n implies #[trigger] colliders.slots@[j] == old(
                    colliders,
                ).slots@[j] || (colliders.slots@[j].value is None
                    && old(colliders).slots@[j].generation <= colliders.slots@[j].generation) by {
                    if j != i as int {
                        assert(colliders.slots@[j] == prev.slots@[j]);
                    } else {
                        assert(colliders.slots@[j].value is None);
                        assert(prev.slots@[j] == old(colliders).slots@[j]);
                    }
                }
            }
        }
        proof {
            assert forall|j: int|
                0 <= j < i + 1 && (#[trigger] colliders.slots@[j]).value is Some implies
                colliders.slots@[j] == old(colliders).slots@[j] && old(colliders).at(j).parent
                    != Option::Some(h) by {
                if j == i as int {
                    assert(colliders.slots@[j] == prev.slots@[j]);
                    assert(prev.slots@[j] == old(colliders).slots@[j]);
                } else {
                    assert(prev.slots@[j] == colliders.slots@[j]);
                }
            }
        }
        i = i + 1;
    }
    proof {
        assert forall|j: int| colliders.occupied(j) implies old(colliders).occupied(j) && (
        #[trigger] colliders.at(j)) == old(colliders).at(j) && colliders.at(j).parent
            != Option::Some(h) by {
            assert(colliders.slots@[j].value is Some);
            assert(colliders.slots@[j] == old(colliders).slots@[j]);
        }
        assert forall|j: int|
            0 <= j < old(colliders).slots@.len() implies old(colliders).slot_gen(j)
                <= colliders.slot_gen(j) by {
            assert(colliders.slots@[j] == old(colliders).slots@[j]
                || old(colliders).slots@[j].generation <= colliders.slots@[j].generation);
        }
    }
}

/// Removes every joint that touches body `h`.
fn drop_joints_touching(joints: &mut Arena<Joint>, h: Handle)
    requires
        old(joints).wf(),
    ensures
        final(joints).wf(),
        Arena::<Joint>::gens_grow(*old(joints), *final(joints)),
        final(joints).slots@.len() == old(joints).slots@.len(),
        forall|i: int|
            final(joints).occupied(i) ==> old(joints).occupied(i)
                && (#[trigger] final(joints).at(i)) == old(joints).at(i)
                && final(joints).at(i).body_a != h && final(joints).at(i).body_b != h,
        forall|g: Handle| old(joints).stale(g) ==> final(joints).stale(g),
{
    let n: usize = joints.slot_count();
    let mut i: usize = 0;
    while i < n
        invariant
            n as int == joints.slots@.len(),
            i <= n,
            joints.wf(),
            joints.slots@.len() == old(joints).slots@.len(),
            forall|j: int| i <= j < n ==> joints.slots@[j] == old(joints).slots@[j],
            forall|j: int|
                0 <= j < n ==> #[trigger] joints.slots@[j] == old(joints).slots@[j] || (
                joints.slots@[j].value is None && old(joints).slots@[j].generation
                    <= joints.slots@[j].generation),
            forall|j: int|
                0 <= j < i && (#[trigger] joints.slots@[j]).value is Some ==> joints.slots@[j]
                    == old(joints).slots@[j] && old(joints).at(j).body_a != h && old(
                    joints,
                ).at(j).body_b != h,
        decreases n - i,
    {
        let ghost prev = *joints;
        let doomed: bool = match joints.value_at(i) {
            Option::Some(j) => j.body_a == h || j.body_b == h,
            Option::None => false,
        };
        if doomed {
            let hj: Handle = match joints.handle_at(i) {
                Option::Some(x) => x,
                Option::None => {
                    proof {
                        assert(false);
                    }
                    Handle { index: 0, generation: 0 }
                },
            };
            let _ = joints.remove(hj);
            proof {
                assert forall|j: int| 0 <= j < n implies #[trigger] joints.slots@[j] == old(
                    joints,
                ).slots@[j] || (joints.slots@[j].value is None
                    && old(joints).slots@[j].generation <= joints.slots@[j].generation) by {
                    if j != i as int {
                        assert(joints.slots@[j] == prev.slots@[j]);
                    } else {
                        assert(joints.slots@[j].value is None);
                        assert(prev.slots@[j] == old(joints).slots@[j]);
                    }
                }
            }
        }
        proof {
            assert forall|j: int|
                0 <= j < i + 1 && (#[trigger] joints.slots@[j]).value is Some implies
                joints.slots@[j] == old(joints).slots@[j] && old(joints).at(j).body_a != h && old(
                joints,
            ).at(j).body_b != h by {
                if j == i as int {
                    assert(joints.slots@[j] == prev.slots@[j]);
                    assert(prev.slots@[j] == old(joints).slots@[j]);
                } else {
                    assert(prev.slots@[j] == joints.slots@[j]);
                }
            }
        }
        i = i + 1;
    }
    proof {
        assert forall|j: int| joints.occupied(j) implies old(joints).occupied(j) && (
        #[trigger] joints.at(j)) == old(joints).at(j) && joints.at(j).body_a != h && joints.at(
            j,
        ).body_b != h by {
            assert(joints.slots@[j].value is Some);
            assert(joints.slots@[j] == old(joints).slots@[j]);
        }
        assert forall|j: int|
            0 <= j < old(joints).slots@.len() implies old(joints).slot_gen(j) <= joints.slot_gen(
                j,
            ) by {
            assert(joints.slots@[j] == old(joints).slots@[j] || old(joints).slots@[j].generation
                <= joints.slots@[j].generation);
        }
    }
}

fn duplicate_bodies(a: &Arena<RigidBody>) -> (r: Arena<RigidBody>)
    ensures
        r.slots@ == a.slots@,
{
    let n = a.slot_count();
    let mut out: Vec<crate::arena::Slot<RigidBody>> = Vec::new();
    let mut i: usize = 0;
    while i < n
        invariant
            n as int == a.slots@.len(),
            i <= n,
            out@ == a.slots@.take(i as int),
        decreases n - i,
    {
        let s = &a.slots[i];
        let v: Option<RigidBody> = match &s.value {
            Option::Some(b) => Option::Some(*b),
            Option::None => Option::None,
        };
        out.push(crate::arena::Slot { generation: s.generation, value: v });
        proof {
            assert(out@ =~= a.slots@.take(i as int + 1));
        }
        i = i + 1;
    }
    proof {
        assert(out@ =~= a.slots@);
    }
    Arena { slots: out }
}

fn duplicate_colliders(a: &Arena<Collider>) -> (r: Arena<Collider>)
    ensures
        r.slots@ == a.slots@,
{
    let n = a.slot_count();
    let mut out: Vec<crate::arena::Slot<Collider>> = Vec::new();
    let mut i: usize = 0;
    while i < n
        invariant
            n as int == a.slots@.len(),
            i <= n,
            out@ == a.slots@.take(i as int),
        decreases n - i,
    {
        let s = &a.slots[i];
        let v: Option<Collider> = match &s.value {
            Option::Some(b) => Option::Some(*b),
            Option::None => Option::None,
        };
        out.push(crate::arena::Slot { generation: s.generation, value: v });
        proof {
            assert(out@ =~= a.slots@.take(i as int + 1));
        }
        i = i + 1;
    }
    proof {
        assert(out@ =~= a.slots@);
    }
    Arena { slots: out }
}

fn duplicate_joints(a: &Arena<Joint>) -> (r: Arena<Joint>)
    ensures
        r.slots@ == a.slots@,
{
    let n = a.slot_count();
    let mut out: Vec<crate::arena::Slot<Joint>> = Vec::new();
    let mut i: usize = 0;
    while i < n
        invariant
            n as int == a.slots@.len(),
            i <= n,
            out@ == a.slots@.take(i as int),
        decreases n - i,
    {
        let s = &a.slots[i];
        let v: Option<Joint> = match &s.value {
            Option::Some(b) => Option::Some(*b),
            Option::None => Option::None,
        };
        out.push(crate::arena::Slot { generation: s.generation, value: v });
        proof {
            assert(out@ =~= a.slots@.take(i as int + 1));
        }
        i = i + 1;
    }
    proof {
        assert(out@ =~= a.slots@);
    }
    Arena { slots: out }
}

fn duplicate_manifolds(a: &Vec<Manifold>) -> (r: Vec<Manifold>)
    ensures
        r@ == a@,
{
    let n = a.len();
    let mut out: Vec<Manifold> = Vec::new();
    let mut i: usize = 0;
    while i < n
        invariant
            n == a@.len(),
            i <= n,
            out@ == a@.take(i as int),
        decreases n - i,
    {
        out.push(a[i]);
        proof {
            assert(out@ =~= a@.take(i as int + 1));
        }
        i = i + 1;
    }
    proof {
        assert(out@ =~= a@);
    }
    out
}

} // verus!

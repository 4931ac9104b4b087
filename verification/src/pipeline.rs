//! The per-step simulation pipeline.
//!
//! A step runs broad phase, narrow phase, island building, the impulse
//! solver, sleep bookkeeping, integration and continuous collision
//! detection, in that fixed order. Every stage is specified as a function
//! of the world state and the configuration, so the step as a whole is one:
//! identical inputs give bit-identical outputs, whatever worker pool a host
//! would offer.

use vstd::prelude::*;
use crate::arena::{Arena, Handle, Slot};
use crate::body::{RigidBody, BodyType, body_valid, body_active};
use crate::collider::{Collider, collider_valid, filter_pair};
use crate::fx::{fits, clip, FX_MAX, FX_ONE};
use crate::geometry::{Aabb, aabb_overlap, aabb_overlap_check, iabs};
use crate::manifold::{Manifold, Contact, ContactEvent};
use crate::vec3::{Vec3, v_fits, v_add_spec, v_sub_spec, v_scale_spec, v_dot_spec, cadd, cmul};
use crate::world::World;

verus! {

/// Margin added to every bounding box so touching pairs stay candidates.
pub const BROAD_SLOP: i64 = 16;

/// Solver configuration for one step. `workers` sizes a host's worker pool
/// and provably never affects the result.
#[derive(Clone, Copy, PartialEq, Eq, Structural, Debug)]
pub struct StepConfig {
    /// Time step in fixed-point seconds.
    pub dt: i64,
    /// Gravity acceleration.
    pub gravity: Vec3,
    /// Velocity-iteration count of the impulse solver.
    pub velocity_iterations: u32,
    /// Warm-start contacts from last step's impulses.
    pub warm_start: bool,
    /// Run continuous collision detection after integration.
    pub ccd_enabled: bool,
    /// How many candidate colliders CCD may test per fast body.
    pub ccd_budget: u32,
    /// Speed below which a body counts as resting.
    pub sleep_threshold: i64,
    /// Consecutive resting steps before a whole island is put to sleep.
    pub sleep_min_steps: u32,
    /// Worker-pool size hint; the step's outcome never depends on it.
    pub workers: u32,
}

/// Configuration the step accepts.
pub open spec fn config_valid(c: StepConfig) -> bool {
    &&& 0 < c.dt <= FX_ONE
    &&& v_fits(c.gravity)
    &&& 0 <= c.sleep_threshold <= FX_MAX as int
    &&& c.velocity_iterations <= 1000
}

/// Runtime check of [`config_valid`].
pub fn config_check(c: &StepConfig) -> (r: bool)
    ensures
        r == config_valid(*c),
{
    0 < c.dt && c.dt <= FX_ONE && Vec3::new(c.gravity.x, c.gravity.y, c.gravity.z).is_some()
        && 0 <= c.sleep_threshold && c.sleep_threshold <= FX_MAX && c.velocity_iterations <= 1000
}

// ---------------------------------------------------------------------------
// Integrator
// ---------------------------------------------------------------------------

/// Semi-implicit Euler for one body: an awake dynamic body first gains the
/// external acceleration, then moves by its updated velocity; a kinematic
/// body moves by its externally driven velocity; static and sleeping bodies
/// stay put.
pub open spec fn integrate_body(b: RigidBody, gravity: Vec3, dt: int) -> RigidBody {
    if b.body_type is Dynamic && !b.sleeping {
        let v1 = v_add_spec(b.vel, v_scale_spec(gravity, dt));
        RigidBody {
            vel: v1,
            pos: v_add_spec(b.pos, v_scale_spec(v1, dt)),
            rot: v_add_spec(b.rot, v_scale_spec(b.angvel, dt)),
            ..b
        }
    } else if b.body_type is Kinematic {
        RigidBody {
            pos: v_add_spec(b.pos, v_scale_spec(b.vel, dt)),
            rot: v_add_spec(b.rot, v_scale_spec(b.angvel, dt)),
            ..b
        }
    } else {
        b
    }
}

/// One slot after integration.
pub open spec fn integrate_slot(s: Slot<RigidBody>, gravity: Vec3, dt: int) -> Slot<RigidBody> {
    match s.value {
        Option::Some(b) => Slot {
            generation: s.generation,
            value: Option::Some(integrate_body(b, gravity, dt)),
        },
        Option::None => s,
    }
}

/// The whole body store after integration.
pub open spec fn integrate_all(s: Seq<Slot<RigidBody>>, gravity: Vec3, dt: int) -> Seq<
    Slot<RigidBody>,
> {
    s.map(|i: int, slot: Slot<RigidBody>| integrate_slot(slot, gravity, dt))
}

/// Integration keeps a body well-formed.
pub proof fn lemma_integrate_body_valid(b: RigidBody, gravity: Vec3, dt: int)
    requires
        body_valid(b),
        v_fits(gravity),
    ensures
        body_valid(integrate_body(b, gravity, dt)),
{
}

/// Executable integrator stage.
pub fn integrate_stage(bodies: &mut Arena<RigidBody>, gravity: Vec3, dt: i64)
    requires
        old(bodies).wf(),
        forall|i: int| old(bodies).occupied(i) ==> body_valid(#[trigger] old(bodies).at(i)),
        v_fits(gravity),
        0 < dt <= FX_ONE as int,
    ensures
        final(bodies).slots@ == integrate_all(old(bodies).slots@, gravity, dt as int),
        final(bodies).wf(),
        forall|i: int| final(bodies).occupied(i) ==> body_valid(#[trigger] final(bodies).at(i)),
{
    let n: usize = bodies.slot_count();
    let mut i: usize = 0;
    while i < n
        invariant
            n as int == bodies.slots@.len(),
            i <= n,
            bodies.wf(),
            old(bodies).wf(),
            v_fits(gravity),
            0 < dt <= FX_ONE as int,
            bodies.slots@.len() == old(bodies).slots@.len(),
            forall|j: int| old(bodies).occupied(j) ==> body_valid(#[trigger] old(bodies).at(j)),
            forall|j: int|
                0 <= j < i ==> bodies.slots@[j] == integrate_slot(
                    old(bodies).slots@[j],
                    gravity,
                    dt as int,
                ),
            forall|j: int| i <= j < n ==> bodies.slots@[j] == old(bodies).slots@[j],
        decreases n - i,
    {
        let cur: Option<RigidBody> = match bodies.value_at(i) {
            Option::Some(b) => Option::Some(*b),
            Option::None => Option::None,
        };
        match cur {
            Option::Some(b) => {
                let awake_dynamic: bool = match b.body_type {
                    BodyType::Dynamic => !b.sleeping,
                    _ => false,
                };
                let is_kinematic: bool = match b.body_type {
                    BodyType::Kinematic => true,
                    _ => false,
                };
                proof {
                    assert(bodies.slots@[i as int] == old(bodies).slots@[i as int]);
                    assert(old(bodies).occupied(i as int));
                    assert(body_valid(old(bodies).at(i as int)));
                    assert(b == old(bodies).at(i as int));
                }
                let nb: RigidBody = if awake_dynamic {
                    let v1 = b.vel.add(gravity.scale(dt));
                    RigidBody {
                        vel: v1,
                        pos: b.pos.add(v1.scale(dt)),
                        rot: b.rot.add(b.angvel.scale(dt)),
                        ..b
                    }
                } else if is_kinematic {
                    RigidBody {
                        pos: b.pos.add(b.vel.scale(dt)),
                        rot: b.rot.add(b.angvel.scale(dt)),
                        ..b
                    }
                } else {
                    b
                };
                bodies.update_at(i, nb);
                proof {
                    assert(bodies.slots@[i as int] == integrate_slot(
                        old(bodies).slots@[i as int],
                        gravity,
                        dt as int,
                    ));
                    assert forall|j: int| bodies.occupied(j) implies bodies.slot_gen(j)
                        < u64::MAX as int by {
                        assert(old(bodies).occupied(j));
                    }
                }
            },
            Option::None => {
                proof {
                    assert(bodies.slots@[i as int] == integrate_slot(
                        old(bodies).slots@[i as int],
                        gravity,
                        dt as int,
                    ));
                }
            },
        }
        i = i + 1;
    }
    proof {
        assert(bodies.slots@ =~= integrate_all(old(bodies).slots@, gravity, dt as int));
        assert forall|j: int| bodies.occupied(j) implies body_valid(#[trigger] bodies.at(j)) by {
            assert(old(bodies).occupied(j));
            lemma_integrate_body_valid(old(bodies).at(j), gravity, dt as int);
        }
    }
}

// ---------------------------------------------------------------------------
// Broad phase
// ---------------------------------------------------------------------------

/// World-space center of a collider: its parent's position plus the local
/// offset, or the offset alone for fixed geometry.
pub open spec fn collider_center(bodies: Seq<Slot<RigidBody>>, c: Collider) -> Vec3 {
    match c.parent {
        Option::Some(p) => v_add_spec(bodies[p.index as int].value.unwrap().pos, c.offset),
        Option::None => c.offset,
    }
}

/// The parent body's velocity, or zero for fixed geometry.
pub open spec fn collider_vel(bodies: Seq<Slot<RigidBody>>, c: Collider) -> Vec3 {
    match c.parent {
        Option::Some(p) => bodies[p.index as int].value.unwrap().vel,
        Option::None => Vec3 { x: 0i64, y: 0i64, z: 0i64 },
    }
}

/// Whether the collider belongs to an awake dynamic body.
pub open spec fn collider_active(bodies: Seq<Slot<RigidBody>>, c: Collider) -> bool {
    match c.parent {
        Option::Some(p) => body_active(bodies[p.index as int].value.unwrap()),
        Option::None => false,
    }
}

/// One axis of the fattened bounds: the half-extent grown by the distance
/// the collider can travel this step and a fixed slop.
pub open spec fn fat_ext(half: int, vel: int, dt: int) -> int {
    clip(cadd(half, cadd(iabs(cmul(vel, dt)), BROAD_SLOP as int)))
}

/// The velocity-fattened bounding box of a collider.
pub open spec fn fat_aabb(bodies: Seq<Slot<RigidBody>>, c: Collider, dt: int) -> Aabb {
    let ctr = collider_center(bodies, c);
    let v = collider_vel(bodies, c);
    let h = c.shape.half_extents_spec();
    let ex = fat_ext(h.x as int, v.x as int, dt);
    let ey = fat_ext(h.y as int, v.y as int, dt);
    let ez = fat_ext(h.z as int, v.z as int, dt);
    Aabb {
        min: Vec3 {
            x: clip(ctr.x - ex) as i64,
            y: clip(ctr.y - ey) as i64,
            z: clip(ctr.z - ez) as i64,
        },
        max: Vec3 {
            x: clip(ctr.x + ex) as i64,
            y: clip(ctr.y + ey) as i64,
            z: clip(ctr.z + ez) as i64,
        },
    }
}

/// The broad-phase condition: both slots hold colliders, the group filter
/// passes, at least one side can move, and the fattened bounds overlap.
pub open spec fn pair_ok(
    bodies: Seq<Slot<RigidBody>>,
    cols: Seq<Slot<Collider>>,
    dt: int,
    i: int,
    j: int,
) -> bool {
    &&& cols[i].value is Some
    &&& cols[j].value is Some
    &&& filter_pair(cols[i].value.unwrap(), cols[j].value.unwrap())
    &&& (collider_active(bodies, cols[i].value.unwrap()) || collider_active(
        bodies,
        cols[j].value.unwrap(),
    ))
    &&& aabb_overlap(
        fat_aabb(bodies, cols[i].value.unwrap(), dt),
        fat_aabb(bodies, cols[j].value.unwrap(), dt),
    )
}

/// Candidate pairs in row `i` with second index from `j` up.
pub open spec fn pairs_row(
    bodies: Seq<Slot<RigidBody>>,
    cols: Seq<Slot<Collider>>,
    dt: int,
    i: int,
    j: int,
) -> Seq<(usize, usize)>
    decreases cols.len() - j,
{
    if j >= cols.len() || j < 0 {
        Seq::empty()
    } else {
        let rest = pairs_row(bodies, cols, dt, i, j + 1);
        if pair_ok(bodies, cols, dt, i, j) {
            seq![(i as usize, j as usize)] + rest
        } else {
            rest
        }
    }
}

/// All candidate pairs with first index from `i` up, in slot order: the
/// deterministic traversal the rest of the pipeline inherits.
pub open spec fn pairs_from(
    bodies: Seq<Slot<RigidBody>>,
    cols: Seq<Slot<Collider>>,
    dt: int,
    i: int,
) -> Seq<(usize, usize)>
    decreases cols.len() - i,
{
    if i >= cols.len() || i < 0 {
        Seq::empty()
    } else {
        pairs_row(bodies, cols, dt, i, i + 1) + pairs_from(bodies, cols, dt, i + 1)
    }
}

/// When no two colliders' fattened bounds overlap, the broad phase reports
/// nothing at all.
pub proof fn lemma_no_overlap_no_pairs(
    bodies: Seq<Slot<RigidBody>>,
    cols: Seq<Slot<Collider>>,
    dt: int,
    i: int,
)
    requires
        forall|a: int, b: int|
            0 <= a < b < cols.len() ==> !pair_ok(bodies, cols, dt, a, b),
        i >= 0,
    ensures
        pairs_from(bodies, cols, dt, i).len() == 0,
    decreases cols.len() - i,
{
    if i < cols.len() {
        lemma_no_pairs_row(bodies, cols, dt, i, i + 1);
        lemma_no_overlap_no_pairs(bodies, cols, dt, i + 1);
    }
}

proof fn lemma_no_pairs_row(
    bodies: Seq<Slot<RigidBody>>,
    cols: Seq<Slot<Collider>>,
    dt: int,
    i: int,
    j: int,
)
    requires
        forall|a: int, b: int|
            0 <= a < b < cols.len() ==> !pair_ok(bodies, cols, dt, a, b),
        0 <= i < j,
    ensures
        pairs_row(bodies, cols, dt, i, j).len() == 0,
    decreases cols.len() - j,
{
    if j < cols.len() {
        lemma_no_pairs_row(bodies, cols, dt, i, j + 1);
    }
}

/// Executable broad phase: enumerates candidate pairs in slot order.
pub fn broad_phase(w: &World, dt: i64) -> (r: Vec<(usize, usize)>)
    requires
        w.wf(),
        0 < dt <= FX_ONE as int,
    ensures
        r@ == pairs_from(w.bodies.slots@, w.colliders.slots@, dt as int, 0),
{
    let n: usize = w.colliders.slot_count();
    let mut out: Vec<(usize, usize)> = Vec::new();
    let mut i: usize = 0;
    while i < n
        invariant
            w.wf(),
            0 < dt <= FX_ONE as int,
            n as int == w.colliders.slots@.len(),
            i <= n,
            out@ + pairs_from(w.bodies.slots@, w.colliders.slots@, dt as int, i as int)
                == pairs_from(w.bodies.slots@, w.colliders.slots@, dt as int, 0),
        decreases n - i,
    {
        let ghost row_start = out@;
        let mut j: usize = i + 1;
        while j < n
            invariant
                w.wf(),
                0 < dt <= FX_ONE as int,
                n as int == w.colliders.slots@.len(),
                i < j,
                j <= n,
                i < n,
                out@ + pairs_row(w.bodies.slots@, w.colliders.slots@, dt as int, i as int, j as int)
                    == row_start + pairs_row(
                    w.bodies.slots@,
                    w.colliders.slots@,
                    dt as int,
                    i as int,
                    i as int + 1,
                ),
            decreases n - j,
        {
            if check_pair(w, dt, i, j) {
                out.push((i, j));
            }
            proof {
                assert(out@ + pairs_row(
                    w.bodies.slots@,
                    w.colliders.slots@,
                    dt as int,
                    i as int,
                    j as int + 1,
                ) =~= row_start + pairs_row(
                    w.bodies.slots@,
                    w.colliders.slots@,
                    dt as int,
                    i as int,
                    i as int + 1,
                ));
            }
            j = j + 1;
        }
        proof {
            assert(pairs_row(w.bodies.slots@, w.colliders.slots@, dt as int, i as int, n as int)
                =~= Seq::<(usize, usize)>::empty());
            assert(out@ =~= row_start + pairs_row(
                w.bodies.slots@,
                w.colliders.slots@,
                dt as int,
                i as int,
                i as int + 1,
            ));
            assert(out@ + pairs_from(w.bodies.slots@, w.colliders.slots@, dt as int, i as int + 1)
                =~= row_start + pairs_from(w.bodies.slots@, w.colliders.slots@, dt as int, i as int));
        }
        i = i + 1;
    }
    proof {
        assert(pairs_from(w.bodies.slots@, w.colliders.slots@, dt as int, n as int) =~= Seq::<
            (usize, usize),
        >::empty());
        assert(out@ =~= pairs_from(w.bodies.slots@, w.colliders.slots@, dt as int, 0));
    }
    out
}

/// Executable broad-phase condition for one pair.
fn check_pair(w: &World, dt: i64, i: usize, j: usize) -> (r: bool)
    requires
        w.wf(),
        0 < dt <= FX_ONE as int,
        (i as int) < w.colliders.slots@.len(),
        (j as int) < w.colliders.slots@.len(),
        i < j,
    ensures
        r == pair_ok(w.bodies.slots@, w.colliders.slots@, dt as int, i as int, j as int),
{
    let ca: Collider = match w.colliders.value_at(i) {
        Option::Some(c) => *c,
        Option::None => {
            return false;
        },
    };
    let cb: Collider = match w.colliders.value_at(j) {
        Option::Some(c) => *c,
        Option::None => {
            return false;
        },
    };
    if !((ca.groups & cb.mask) != 0 && (cb.groups & ca.mask) != 0) {
        return false;
    }
    proof {
        assert(w.colliders.occupied(i as int));
        assert(w.colliders.occupied(j as int));
        assert(collider_valid(ca));
        assert(collider_valid(cb));
    }
    let aa: bool = collider_active_exec(w, &ca);
    let ab: bool = collider_active_exec(w, &cb);
    if !(aa || ab) {
        return false;
    }
    let ba: Aabb = fat_aabb_exec(w, &ca, dt);
    let bb: Aabb = fat_aabb_exec(w, &cb, dt);
    aabb_overlap_check(&ba, &bb)
}

/// Executable [`collider_active`].
fn collider_active_exec(w: &World, c: &Collider) -> (r: bool)
    requires
        w.wf(),
        match c.parent {
            Option::Some(p) => w.bodies.live(p),
            Option::None => true,
        },
    ensures
        r == collider_active(w.bodies.slots@, *c),
{
    match c.parent {
        Option::Some(p) => {
            let b: &RigidBody = match w.bodies.get(p) {
                Option::Some(b) => b,
                Option::None => {
                    proof {
                        assert(false);
                    }
                    return false;
                },
            };
            let d: bool = match b.body_type {
                BodyType::Dynamic => true,
                _ => false,
            };
            d && !b.sleeping
        },
        Option::None => false,
    }
}

/// Executable [`fat_aabb`].
fn fat_aabb_exec(w: &World, c: &Collider, dt: i64) -> (r: Aabb)
    requires
        w.wf(),
        collider_valid(*c),
        0 < dt <= FX_ONE as int,
        match c.parent {
            Option::Some(p) => w.bodies.live(p),
            Option::None => true,
        },
    ensures
        r == fat_aabb(w.bodies.slots@, *c, dt as int),
{
    let (ctr, v): (Vec3, Vec3) = match c.parent {
        Option::Some(p) => {
            let b: &RigidBody = match w.bodies.get(p) {
                Option::Some(b) => b,
                Option::None => {
                    proof {
                        assert(false);
                    }
                    return Aabb {
                        min: Vec3 { x: 0, y: 0, z: 0 },
                        max: Vec3 { x: 0, y: 0, z: 0 },
                    };
                },
            };
            proof {
                assert(w.bodies.occupied(p.index as int));
                assert(body_valid(w.bodies.at(p.index as int)));
            }
            (b.pos.add(c.offset), b.vel)
        },
        Option::None => (c.offset, Vec3 { x: 0, y: 0, z: 0 }),
    };
    let h: Vec3 = c.shape.half_extents();
    proof {
        assert(crate::shape::shape_valid(c.shape));
    }
    let ex: i64 = fat_ext_exec(h.x, v.x, dt);
    let ey: i64 = fat_ext_exec(h.y, v.y, dt);
    let ez: i64 = fat_ext_exec(h.z, v.z, dt);
    Aabb {
        min: Vec3 {
            x: crate::fx::fx_clip(ctr.x - ex),
            y: crate::fx::fx_clip(ctr.y - ey),
            z: crate::fx::fx_clip(ctr.z - ez),
        },
        max: Vec3 {
            x: crate::fx::fx_clip(ctr.x + ex),
            y: crate::fx::fx_clip(ctr.y + ey),
            z: crate::fx::fx_clip(ctr.z + ez),
        },
    }
}

/// Executable [`fat_ext`].
fn fat_ext_exec(half: i64, vel: i64, dt: i64) -> (r: i64)
    requires
        fits(half as int),
        fits(vel as int),
        0 < dt <= FX_ONE as int,
    ensures
        r as int == fat_ext(half as int, vel as int, dt as int),
        fits(r as int),
{
    let travel: i64 = crate::fx::fx_mul(vel, dt);
    let t_abs: i64 = if travel >= 0 {
        travel
    } else {
        -travel
    };
    crate::fx::fx_clip(crate::fx::fx_add(half, crate::fx::fx_add(t_abs, BROAD_SLOP)))
}

} // verus!

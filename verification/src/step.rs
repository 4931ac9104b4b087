//! The pipeline orchestrator: one simulation step, start to finish.
//!
//! The step runs broad phase, narrow phase, waking, island building, the
//! solver, sleep bookkeeping, integration and continuous collision
//! detection in a fixed order, and its entire effect is given by
//! [`step_bodies_spec`], [`step_manifolds_spec`] and [`step_events_spec`]
//! as functions of the pre-step state and the configuration. Determinism
//! is therefore a theorem, not a hope: see
//! [`lemma_step_ignores_worker_count`].

use vstd::prelude::*;
use crate::arena::{Arena, Handle, Slot};
use crate::body::{RigidBody, BodyType, body_valid, body_active};
use crate::ccd::{ccd_upto, ccd_stage};
use crate::collider::Collider;
use crate::fx::{fits, FX_ONE, FX_MAX};
use crate::island::{
    build_labels, build_islands, sleep_spec, sleep_stage, wake_upto, wake_stage,
    lemma_labels_in_bounds,
};
use crate::joint::Joint;
use crate::manifold::{Manifold, ContactEvent, manifold_valid};
use crate::narrow::{narrow_manifolds, narrow_pair_events, gone_pair_events, narrow_phase};
use crate::pipeline::{
    StepConfig, config_valid, config_check, pairs_from, integrate_all, integrate_stage, broad_phase,
};
use crate::shape::PhysicsError;
use crate::solver::{solve_spec, solve_stage, bodies_ok, joints_ok, with_vel, with_pos};
use crate::vec3::{Vec3, v_fits};
use crate::world::{World, manifold_refs_live};

verus! {

/// Two body stores with the same slots, generations and occupancy: every
/// pipeline stage preserves this skeleton, so handle liveness and staleness
/// survive a step untouched.
pub open spec fn same_skeleton(a: Seq<Slot<RigidBody>>, b: Seq<Slot<RigidBody>>) -> bool {
    &&& a.len() == b.len()
    &&& forall|t: int|
        0 <= t < a.len() ==> (#[trigger] b[t]).generation == a[t].generation && (b[t].value is Some
            <==> a[t].value is Some)
}

/// The pre-integration positions handed to continuous collision detection.
pub open spec fn positions_of(bodies: Seq<Slot<RigidBody>>) -> Seq<Vec3> {
    Seq::new(
        bodies.len(),
        |t: int|
            match bodies[t].value {
                Option::Some(b) => b.pos,
                Option::None => Vec3 { x: 0i64, y: 0i64, z: 0i64 },
            },
    )
}

/// The bodies after one whole step.
pub open spec fn step_bodies_spec(
    bodies: Seq<Slot<RigidBody>>,
    cols: Seq<Slot<Collider>>,
    joints: Seq<Slot<Joint>>,
    ms: Seq<Manifold>,
    cfg: StepConfig,
) -> Seq<Slot<RigidBody>> {
    let pairs = pairs_from(bodies, cols, cfg.dt as int, 0);
    let ms1 = narrow_manifolds(bodies, cols, ms, pairs);
    let bw = wake_upto(bodies, cols, ms1, ms1.len() as int);
    let labels = build_labels(bw, cols, ms1, joints);
    let bs = solve_spec(bw, cols, joints, ms1, cfg.velocity_iterations as int, cfg.warm_start).0;
    let bsl = sleep_spec(bs, labels, cfg.sleep_threshold as int, cfg.sleep_min_steps);
    let bi = integrate_all(bsl, cfg.gravity, cfg.dt as int);
    if cfg.ccd_enabled {
        ccd_upto(bi, cols, positions_of(bsl), cfg.ccd_budget, bi.len() as int).0
    } else {
        bi
    }
}

/// The retained manifolds after one whole step.
pub open spec fn step_manifolds_spec(
    bodies: Seq<Slot<RigidBody>>,
    cols: Seq<Slot<Collider>>,
    joints: Seq<Slot<Joint>>,
    ms: Seq<Manifold>,
    cfg: StepConfig,
) -> Seq<Manifold> {
    let pairs = pairs_from(bodies, cols, cfg.dt as int, 0);
    let ms1 = narrow_manifolds(bodies, cols, ms, pairs);
    let bw = wake_upto(bodies, cols, ms1, ms1.len() as int);
    solve_spec(bw, cols, joints, ms1, cfg.velocity_iterations as int, cfg.warm_start).1
}

/// The events one whole step reports.
pub open spec fn step_events_spec(
    bodies: Seq<Slot<RigidBody>>,
    cols: Seq<Slot<Collider>>,
    joints: Seq<Slot<Joint>>,
    ms: Seq<Manifold>,
    cfg: StepConfig,
) -> Seq<ContactEvent> {
    let pairs = pairs_from(bodies, cols, cfg.dt as int, 0);
    let ms1 = narrow_manifolds(bodies, cols, ms, pairs);
    let contact_events = narrow_pair_events(bodies, cols, ms, pairs) + gone_pair_events(
        bodies,
        cols,
        ms,
        ms1,
    );
    let bw = wake_upto(bodies, cols, ms1, ms1.len() as int);
    let labels = build_labels(bw, cols, ms1, joints);
    let bs = solve_spec(bw, cols, joints, ms1, cfg.velocity_iterations as int, cfg.warm_start).0;
    let bsl = sleep_spec(bs, labels, cfg.sleep_threshold as int, cfg.sleep_min_steps);
    let bi = integrate_all(bsl, cfg.gravity, cfg.dt as int);
    if cfg.ccd_enabled {
        contact_events + ccd_upto(
            bi,
            cols,
            positions_of(bsl),
            cfg.ccd_budget,
            bi.len() as int,
        ).1
    } else {
        contact_events
    }
}

/// Worker-pool size cannot influence a step: the step's entire outcome is a
/// function of state and of the solver parameters, in which `workers` does
/// not occur. Replaying a snapshot on any pool size reproduces the same
/// bodies, manifolds and events.
pub proof fn lemma_step_ignores_worker_count(
    bodies: Seq<Slot<RigidBody>>,
    cols: Seq<Slot<Collider>>,
    joints: Seq<Slot<Joint>>,
    ms: Seq<Manifold>,
    cfg1: StepConfig,
    cfg2: StepConfig,
)
    requires
        cfg1 == (StepConfig { workers: cfg1.workers, ..cfg2 }),
    ensures
        step_bodies_spec(bodies, cols, joints, ms, cfg1) == step_bodies_spec(
            bodies,
            cols,
            joints,
            ms,
            cfg2,
        ),
        step_manifolds_spec(bodies, cols, joints, ms, cfg1) == step_manifolds_spec(
            bodies,
            cols,
            joints,
            ms,
            cfg2,
        ),
        step_events_spec(bodies, cols, joints, ms, cfg1) == step_events_spec(
            bodies,
            cols,
            joints,
            ms,
            cfg2,
        ),
{
}

/// With no joint stored, a velocity pass over the joint slots is the
/// identity.
proof fn lemma_joints_upto_id(bodies: Seq<Slot<RigidBody>>, joints: Seq<Slot<Joint>>, k: int)
    requires
        forall|t: int| 0 <= t < joints.len() ==> (#[trigger] joints[t]).value is None,
        k <= joints.len(),
    ensures
        crate::solver::joints_upto(bodies, joints, k) == bodies,
        crate::solver::correct_joints_upto(bodies, joints, k) == bodies,
    decreases k,
{
    if k > 0 {
        lemma_joints_upto_id(bodies, joints, k - 1);
    }
}

/// With no manifold and no joint, any number of velocity iterations is the
/// identity.
proof fn lemma_vel_iters_id(
    bodies: Seq<Slot<RigidBody>>,
    cols: Seq<Slot<Collider>>,
    joints: Seq<Slot<Joint>>,
    accs: Seq<i64>,
    biases: Seq<i64>,
    t: int,
)
    requires
        forall|q: int| 0 <= q < joints.len() ==> (#[trigger] joints[q]).value is None,
    ensures
        crate::solver::velocity_iters(
            bodies,
            cols,
            joints,
            Seq::empty(),
            accs,
            biases,
            t,
        ) == (bodies, accs),
    decreases t,
{
    if t > 0 {
        lemma_vel_iters_id(bodies, cols, joints, accs, biases, t - 1);
        lemma_joints_upto_id(bodies, joints, joints.len() as int);
    }
}

/// The counter pass changes nothing but the sleep counters.
proof fn lemma_counters_only_counters(
    bodies: Seq<Slot<RigidBody>>,
    labels: Seq<usize>,
    slow: Seq<bool>,
    k: int,
)
    requires
        0 <= k <= bodies.len(),
    ensures
        crate::island::counters_upto(bodies, labels, slow, k).len() == bodies.len(),
        forall|t: int|
            0 <= t < bodies.len() ==> ((#[trigger] crate::island::counters_upto(
                bodies,
                labels,
                slow,
                k,
            )[t]).value is Some <==> bodies[t].value is Some),
        forall|t: int|
            0 <= t < bodies.len() && bodies[t].value is Some ==> (#[trigger] crate::island::counters_upto(
                bodies,
                labels,
                slow,
                k,
            )[t]).value.unwrap() == (RigidBody {
                sleep_steps: crate::island::counters_upto(
                    bodies,
                    labels,
                    slow,
                    k,
                )[t].value.unwrap().sleep_steps,
                ..bodies[t].value.unwrap()
            }),
    decreases k,
{
    if k > 0 {
        lemma_counters_only_counters(bodies, labels, slow, k - 1);
    }
}

/// When every member's counter is still short of the minimum, no island is
/// ready and the sleep pass is the identity.
proof fn lemma_ready_false(
    bodies: Seq<Slot<RigidBody>>,
    labels: Seq<usize>,
    min_steps: u32,
    all: Seq<bool>,
    k: int,
    i: int,
)
    requires
        0 <= i < k <= bodies.len(),
        crate::island::node(bodies, i),
        bodies[i].value.unwrap().sleep_steps < min_steps,
        labels.len() == bodies.len(),
        all.len() == bodies.len(),
        forall|t: int| 0 <= t < labels.len() ==> 0 <= (#[trigger] labels[t] as int) < all.len(),
        0 <= (labels[i] as int) < all.len(),
    ensures
        crate::island::ready_flags_upto(bodies, labels, min_steps, all, k)[labels[i] as int]
            == false,
    decreases k,
{
    lemma_ready_len(bodies, labels, min_steps, all, k - 1);
    lemma_ready_len(bodies, labels, min_steps, all, k);
    if k - 1 == i {
    } else {
        lemma_ready_false(bodies, labels, min_steps, all, k - 1, i);
    }
}

/// The readiness fold keeps the flag vector's length.
proof fn lemma_ready_len(
    bodies: Seq<Slot<RigidBody>>,
    labels: Seq<usize>,
    min_steps: u32,
    all: Seq<bool>,
    k: int,
)
    requires
        0 <= k <= bodies.len(),
        labels.len() == bodies.len(),
        all.len() == bodies.len(),
        forall|t: int| 0 <= t < labels.len() ==> 0 <= (#[trigger] labels[t] as int) < all.len(),
    ensures
        crate::island::ready_flags_upto(bodies, labels, min_steps, all, k).len() == all.len(),
    decreases k,
{
    if k > 0 {
        lemma_ready_len(bodies, labels, min_steps, all, k - 1);
    }
}

proof fn lemma_apply_sleep_id(
    bodies: Seq<Slot<RigidBody>>,
    labels: Seq<usize>,
    ready: Seq<bool>,
    k: int,
)
    requires
        0 <= k <= bodies.len(),
        labels.len() == bodies.len(),
        forall|t: int|
            0 <= t < bodies.len() && crate::island::node(bodies, t) && 0 <= (
            #[trigger] labels[t] as int) < ready.len() ==> ready[labels[t] as int] == false,
        forall|t: int| 0 <= t < labels.len() ==> 0 <= (#[trigger] labels[t] as int) < ready.len(),
    ensures
        crate::island::apply_sleep_upto(bodies, labels, ready, k) == bodies,
    decreases k,
{
    if k > 0 {
        lemma_apply_sleep_id(bodies, labels, ready, k - 1);
    }
}

/// With no candidate pair, no retained manifold and no joint, a step whose
/// continuous collision detection is off changes each awake dynamic body's
/// velocity by exactly the gravity integration and nothing else, produces
/// no contact point and reports no event. Static and sleeping bodies do not
/// move at all.
pub proof fn lemma_free_fall_step(
    bodies: Seq<Slot<RigidBody>>,
    cols: Seq<Slot<Collider>>,
    joints: Seq<Slot<Joint>>,
    cfg: StepConfig,
)
    requires
        forall|a: int, b: int|
            0 <= a < b < cols.len() ==> !crate::pipeline::pair_ok(
                bodies,
                cols,
                cfg.dt as int,
                a,
                b,
            ),
        forall|t: int| 0 <= t < joints.len() ==> (#[trigger] joints[t]).value is None,
        forall|t: int|
            0 <= t < bodies.len() && (#[trigger] bodies[t]).value is Some ==> (
            bodies[t].value.unwrap().sleep_steps as int) + 1 < cfg.sleep_min_steps as int,
        !cfg.ccd_enabled,
        bodies.len() <= usize::MAX,
    ensures
        step_manifolds_spec(bodies, cols, joints, Seq::empty(), cfg).len() == 0,
        step_events_spec(bodies, cols, joints, Seq::empty(), cfg).len() == 0,
        ({
            let out = step_bodies_spec(bodies, cols, joints, Seq::empty(), cfg);
            &&& out.len() == bodies.len()
            &&& forall|t: int|
                0 <= t < bodies.len() && (#[trigger] bodies[t]).value is Some && body_active(
                    bodies[t].value.unwrap(),
                ) ==> out[t].value.unwrap().vel == crate::vec3::v_add_spec(
                    bodies[t].value.unwrap().vel,
                    crate::vec3::v_scale_spec(cfg.gravity, cfg.dt as int),
                ) && out[t].value.unwrap().pos == crate::vec3::v_add_spec(
                    bodies[t].value.unwrap().pos,
                    crate::vec3::v_scale_spec(
                        crate::vec3::v_add_spec(
                            bodies[t].value.unwrap().vel,
                            crate::vec3::v_scale_spec(cfg.gravity, cfg.dt as int),
                        ),
                        cfg.dt as int,
                    ),
                )
            &&& forall|t: int|
                0 <= t < bodies.len() && (#[trigger] bodies[t]).value is Some && !body_active(
                    bodies[t].value.unwrap(),
                ) && !(bodies[t].value.unwrap().body_type is Kinematic)
                    ==> out[t].value.unwrap().pos == bodies[t].value.unwrap().pos
                    && out[t].value.unwrap().vel == bodies[t].value.unwrap().vel
        }),
{
    crate::pipeline::lemma_no_overlap_no_pairs(bodies, cols, cfg.dt as int, 0);
    let pairs = pairs_from(bodies, cols, cfg.dt as int, 0);
    assert(pairs =~= Seq::<(usize, usize)>::empty());
    let ms1 = narrow_manifolds(bodies, cols, Seq::empty(), pairs);
    assert(ms1.len() == 0);
    assert(ms1 =~= Seq::<Manifold>::empty());
    let bw = wake_upto(bodies, cols, ms1, 0);
    assert(bw == bodies);
    let labels = build_labels(bw, cols, ms1, joints);
    lemma_labels_in_bounds(bw, cols, ms1, joints);
    // the solver is the identity
    let accs0 = Seq::new(0nat, |k: int| 0i64);
    lemma_vel_iters_id(
        bodies,
        cols,
        joints,
        Seq::new(ms1.len(), |k: int| if cfg.warm_start { ms1[k].warm_impulse } else { 0i64 }),
        crate::solver::all_biases(bodies, cols, ms1),
        cfg.velocity_iterations as int,
    );
    lemma_joints_upto_id(bodies, joints, joints.len() as int);
    let bs = solve_spec(
        bodies,
        cols,
        joints,
        ms1,
        cfg.velocity_iterations as int,
        cfg.warm_start,
    ).0;
    assert(bs == bodies);
    assert(solve_spec(
        bodies,
        cols,
        joints,
        ms1,
        cfg.velocity_iterations as int,
        cfg.warm_start,
    ).1.len() == 0);
    // sleep bookkeeping only advances counters
    let n = bodies.len() as int;
    let all = Seq::new(bodies.len(), |t: int| true);
    let slow = crate::island::slow_flags_upto(bodies, labels, cfg.sleep_threshold as int, all, n);
    lemma_counters_only_counters(bodies, labels, slow, n);
    let b2 = crate::island::counters_upto(bodies, labels, slow, n);
    let ready = crate::island::ready_flags_upto(b2, labels, cfg.sleep_min_steps, all, n);
    lemma_ready_len(b2, labels, cfg.sleep_min_steps, all, n);
    assert forall|t: int|
        0 <= t < b2.len() && crate::island::node(b2, t) && 0 <= (#[trigger] labels[t] as int)
            < ready.len() implies ready[labels[t] as int] == false by {
        assert(bodies[t].value is Some);
        lemma_counters_counter_bound(bodies, labels, slow, n, t);
        assert(b2[t].value.unwrap().sleep_steps as int <= bodies[t].value.unwrap().sleep_steps
            as int + 1);
        lemma_ready_false(b2, labels, cfg.sleep_min_steps, all, n, t);
    }
    lemma_apply_sleep_id(b2, labels, ready, n);
    let bsl = sleep_spec(bodies, labels, cfg.sleep_threshold as int, cfg.sleep_min_steps);
    assert(bsl == b2);
    // integration is all that is left
    let out = step_bodies_spec(bodies, cols, joints, Seq::empty(), cfg);
    assert(out == integrate_all(bsl, cfg.gravity, cfg.dt as int));
    assert forall|t: int|
        0 <= t < bodies.len() && (#[trigger] bodies[t]).value is Some implies out[t].value is Some
            && out[t].value.unwrap() == crate::pipeline::integrate_body(
            bsl[t].value.unwrap(),
            cfg.gravity,
            cfg.dt as int,
        ) by {
        assert(out[t] == crate::pipeline::integrate_slot(bsl[t], cfg.gravity, cfg.dt as int));
    }
    assert(step_events_spec(bodies, cols, joints, Seq::empty(), cfg).len() == 0);
}

/// One counter pass adds at most one to each counter.
proof fn lemma_counters_counter_bound(
    bodies: Seq<Slot<RigidBody>>,
    labels: Seq<usize>,
    slow: Seq<bool>,
    k: int,
    t: int,
)
    requires
        0 <= k <= bodies.len(),
        0 <= t < bodies.len(),
        bodies[t].value is Some,
    ensures
        (crate::island::counters_upto(bodies, labels, slow, k)[t].value.unwrap().sleep_steps
            as int) <= bodies[t].value.unwrap().sleep_steps as int + 1,
    decreases k,
{
    if k > 0 {
        lemma_counters_counter_bound(bodies, labels, slow, k - 1, t);
        crate::island::lemma_counters_frame(bodies, labels, slow, k - 1);
        lemma_counters_only_counters(bodies, labels, slow, k - 1);
    }
}

/// One simulation step. Rejects an out-of-range configuration without
/// touching the world; otherwise it always succeeds, returning the step's
/// contact and CCD events, and its whole effect is given by the step spec
/// functions.
#[verifier::rlimit(60)]
pub fn step(w: &mut World, cfg: &StepConfig) -> (r: Result<Vec<ContactEvent>, PhysicsError>)
    requires
        old(w).wf(),
    ensures
        final(w).wf(),
        r.is_ok() <==> config_valid(*cfg),
        r.is_err() ==> *final(w) == *old(w) && r.unwrap_err()
            == PhysicsError::InvalidShapeParameters,
        r.is_ok() ==> final(w).bodies.slots@ == step_bodies_spec(
            old(w).bodies.slots@,
            old(w).colliders.slots@,
            old(w).joints.slots@,
            old(w).manifolds@,
            *cfg,
        ),
        r.is_ok() ==> final(w).manifolds@ == step_manifolds_spec(
            old(w).bodies.slots@,
            old(w).colliders.slots@,
            old(w).joints.slots@,
            old(w).manifolds@,
            *cfg,
        ),
        r.is_ok() ==> r.unwrap()@ == step_events_spec(
            old(w).bodies.slots@,
            old(w).colliders.slots@,
            old(w).joints.slots@,
            old(w).manifolds@,
            *cfg,
        ),
        final(w).colliders == old(w).colliders,
        final(w).joints == old(w).joints,
        same_skeleton(old(w).bodies.slots@, final(w).bodies.slots@),
{
    if !config_check(cfg) {
        return Err(PhysicsError::InvalidShapeParameters);
    }
    let ghost w0 = *w;
    let nb0: usize = w.bodies.slot_count();
    proof {
        assert(w0.bodies.slots@.len() == nb0 as int);
        assert forall|t: int|
            0 <= t < w.bodies.slots@.len() && (#[trigger] w.bodies.slots@[t]).value
                is Some implies body_valid(w.bodies.slots@[t].value.unwrap()) by {
            assert(w.bodies.occupied(t));
            assert(body_valid(w.bodies.at(t)));
        }
        assert forall|t: int|
            0 <= t < w.joints.slots@.len() && (#[trigger] w.joints.slots@[t]).value
                is Some implies crate::joint::joint_valid(w.joints.slots@[t].value.unwrap()) by {
            assert(w.joints.occupied(t));
            assert(crate::joint::joint_valid(w.joints.at(t)));
        }
        assert forall|t: int|
            0 <= t < w.manifolds@.len() implies manifold_valid(#[trigger] w.manifolds@[t]) by {}
    }
    // broad phase: deterministic candidate pairs
    let pairs: Vec<(usize, usize)> = broad_phase(w, cfg.dt);
    // narrow phase: exact contacts, persistent manifolds, events
    let (ms1, mut events): (Vec<Manifold>, Vec<ContactEvent>) = narrow_phase(w, cfg.dt, &pairs);
    // wake everything a fresh contact touches
    let ghost ms1v = ms1@;
    let ghost bw_pre = w.bodies.slots@;
    wake_stage(&mut w.bodies, &w.colliders, &ms1);
    proof {
        lemma_wake_skeleton(bw_pre, w0.colliders.slots@, ms1@, ms1@.len() as int);
    }
    // islands: connected components of the contact/joint graph
    let labels: Vec<usize> = build_islands(&w.bodies, &w.colliders, &ms1, &w.joints);
    // solver: velocity iterations, position pass, impulse write-back
    let ghost bs_pre = w.bodies.slots@;
    let mut ms_solved: Vec<Manifold> = ms1;
    solve_stage(
        &mut w.bodies,
        &w.colliders,
        &w.joints,
        &mut ms_solved,
        cfg.velocity_iterations,
        cfg.warm_start,
    );
    proof {
        lemma_solve_skeleton(
            bs_pre,
            w0.colliders.slots@,
            w0.joints.slots@,
            narrow_manifolds(
                w0.bodies.slots@,
                w0.colliders.slots@,
                w0.manifolds@,
                pairs@,
            ),
            cfg.velocity_iterations as int,
            cfg.warm_start,
        );
    }
    // sleep bookkeeping, while solved velocities are current
    let ghost bsl_pre = w.bodies.slots@;
    proof {
        assert(same_skeleton(w0.bodies.slots@, bs_pre));
        assert(bs_pre.len() == nb0 as int);
        lemma_labels_in_bounds(bs_pre, w0.colliders.slots@, ms1v, w0.joints.slots@);
        assert(labels@ == build_labels(bs_pre, w0.colliders.slots@, ms1v, w0.joints.slots@));
        assert(labels@.len() == w.bodies.slots@.len());
    }
    sleep_stage(&mut w.bodies, &labels, cfg.sleep_threshold, cfg.sleep_min_steps);
    proof {
        lemma_sleep_skeleton(
            bsl_pre,
            labels@,
            cfg.sleep_threshold as int,
            cfg.sleep_min_steps,
        );
    }
    // snapshot positions, then integrate
    let nb: usize = w.bodies.slot_count();
    let mut prev_pos: Vec<Vec3> = Vec::new();
    let mut i: usize = 0;
    while i < nb
        invariant
            nb as int == w.bodies.slots@.len(),
            i <= nb,
            bodies_ok(w.bodies.slots@),
            prev_pos@.len() == i as int,
            forall|t: int|
                0 <= t < i as int ==> prev_pos@[t] == positions_of(w.bodies.slots@)[t],
            forall|t: int| 0 <= t < i as int ==> v_fits(#[trigger] prev_pos@[t]),
        decreases nb - i,
    {
        match w.bodies.value_at(i) {
            Option::Some(b) => {
                proof {
                    assert(w.bodies.slots@[i as int].value is Some);
                }
                prev_pos.push(b.pos);
            },
            Option::None => {
                prev_pos.push(Vec3 { x: 0, y: 0, z: 0 });
            },
        }
        i = i + 1;
    }
    proof {
        assert(prev_pos@ =~= positions_of(w.bodies.slots@));
    }
    let ghost bi_pre = w.bodies.slots@;
    proof {
        assert(same_skeleton(w0.bodies.slots@, w.bodies.slots@));
        assert forall|t: int| w.bodies.occupied(t) implies w.bodies.slot_gen(t)
            < u64::MAX as int by {
            assert(w0.bodies.occupied(t));
        }
        assert forall|t: int| w.bodies.occupied(t) implies body_valid(
            #[trigger] w.bodies.at(t),
        ) by {
            assert(w.bodies.slots@[t].value is Some);
        }
    }
    integrate_stage(&mut w.bodies, cfg.gravity, cfg.dt);
    proof {
        lemma_integrate_skeleton(bi_pre, cfg.gravity, cfg.dt as int);
    }
    // continuous collision detection for fast bodies
    if cfg.ccd_enabled {
        let ghost bc_pre = w.bodies.slots@;
        proof {
            assert forall|t: int|
                w.colliders.occupied(t) implies crate::collider::collider_valid(
                #[trigger] w.colliders.at(t),
            ) by {
                assert(w0.colliders.occupied(t));
            }
            assert forall|t: int|
                w.colliders.occupied(t) implies (match (#[trigger] w.colliders.at(t)).parent {
                Option::Some(p) => (p.index as int) < w.bodies.slots@.len(),
                Option::None => true,
            }) by {
                assert(w0.colliders.occupied(t));
                match w0.colliders.at(t).parent {
                    Option::Some(p) => {
                        assert(w0.bodies.live(p));
                    },
                    Option::None => {},
                }
            }
        }
        let ccd_events: Vec<ContactEvent> = ccd_stage(
            &mut w.bodies,
            &w.colliders,
            &prev_pos,
            cfg.ccd_budget,
        );
        proof {
            lemma_ccd_skeleton(bc_pre, w0.colliders.slots@, prev_pos@, cfg.ccd_budget);
        }
        let mut e: usize = 0;
        let ne: usize = ccd_events.len();
        let ghost ev0 = events@;
        while e < ne
            invariant
                ne == ccd_events@.len(),
                e <= ne,
                events@ == ev0 + ccd_events@.take(e as int),
            decreases ne - e,
        {
            events.push(ccd_events[e]);
            proof {
                assert(events@ =~= ev0 + ccd_events@.take(e as int + 1));
            }
            e = e + 1;
        }
        proof {
            assert(ccd_events@.take(ne as int) =~= ccd_events@);
        }
    }
    // store the solved manifolds
    w.manifolds = ms_solved;
    proof {
        lemma_step_wf(w0, *w);
    }
    Ok(events)
}

/// Re-establishes the world invariant after a step: the body skeleton is
/// unchanged, colliders and joints are untouched, and the new manifolds are
/// well-formed with live collider references.
proof fn lemma_step_wf(w0: World, w1: World)
    requires
        w0.wf(),
        w1.colliders == w0.colliders,
        w1.joints == w0.joints,
        same_skeleton(w0.bodies.slots@, w1.bodies.slots@),
        bodies_ok(w1.bodies.slots@),
        forall|t: int|
            0 <= t < w1.manifolds@.len() ==> manifold_valid(#[trigger] w1.manifolds@[t])
                && w0.colliders.live(w1.manifolds@[t].collider_a) && w0.colliders.live(
                w1.manifolds@[t].collider_b,
            ),
    ensures
        w1.wf(),
{
    assert forall|t: int| w1.bodies.occupied(t) implies w1.bodies.slot_gen(t) < u64::MAX as int by {
        assert(w0.bodies.occupied(t));
    }
    assert forall|t: int| w1.bodies.occupied(t) implies body_valid(#[trigger] w1.bodies.at(t)) by {
        assert(w1.bodies.slots@[t].value is Some);
    }
    assert forall|t: int| w1.colliders.occupied(t) implies (match (
    #[trigger] w1.colliders.at(t)).parent {
        Option::Some(p) => w1.bodies.live(p),
        Option::None => true,
    }) by {
        assert(w0.colliders.occupied(t));
        match w0.colliders.at(t).parent {
            Option::Some(p) => {
                assert(w0.bodies.live(p));
            },
            Option::None => {},
        }
    }
    assert forall|t: int| w1.joints.occupied(t) implies w1.bodies.live(
        (#[trigger] w1.joints.at(t)).body_a,
    ) && w1.bodies.live(w1.joints.at(t).body_b) by {
        assert(w0.joints.occupied(t));
        assert(w0.bodies.live(w0.joints.at(t).body_a));
        assert(w0.bodies.live(w0.joints.at(t).body_b));
    }
    assert forall|k: int| 0 <= k < w1.manifolds@.len() implies manifold_valid(
        #[trigger] w1.manifolds@[k],
    ) && manifold_refs_live(w1, w1.manifolds@[k]) by {}
}

proof fn lemma_wake_skeleton(
    bodies: Seq<Slot<RigidBody>>,
    cols: Seq<Slot<Collider>>,
    ms: Seq<Manifold>,
    k: int,
)
    requires
        0 <= k,
    ensures
        same_skeleton(bodies, wake_upto(bodies, cols, ms, k)),
    decreases k,
{
    if k > 0 {
        lemma_wake_skeleton(bodies, cols, ms, k - 1);
        let prev = wake_upto(bodies, cols, ms, k - 1);
        lemma_wake_manifold_skeleton(prev, cols, ms[k - 1]);
    }
}

proof fn lemma_wake_manifold_skeleton(
    bodies: Seq<Slot<RigidBody>>,
    cols: Seq<Slot<Collider>>,
    m: Manifold,
)
    ensures
        same_skeleton(bodies, crate::island::wake_manifold(bodies, cols, m)),
{
}

proof fn lemma_integrate_skeleton(bodies: Seq<Slot<RigidBody>>, gravity: Vec3, dt: int)
    ensures
        same_skeleton(bodies, integrate_all(bodies, gravity, dt)),
{
    assert forall|t: int|
        0 <= t < bodies.len() implies (#[trigger] integrate_all(bodies, gravity, dt)[t]).generation
            == bodies[t].generation && (integrate_all(bodies, gravity, dt)[t].value is Some
            <==> bodies[t].value is Some) by {
        assert(integrate_all(bodies, gravity, dt)[t] == crate::pipeline::integrate_slot(
            bodies[t],
            gravity,
            dt,
        ));
    }
}

proof fn lemma_with_vel_skeleton(bodies: Seq<Slot<RigidBody>>, p: Option<Handle>, v: Vec3)
    ensures
        same_skeleton(bodies, with_vel(bodies, p, v)),
{
}

proof fn lemma_warm_skeleton(
    bodies: Seq<Slot<RigidBody>>,
    cols: Seq<Slot<Collider>>,
    ms: Seq<Manifold>,
    k: int,
)
    ensures
        same_skeleton(bodies, crate::solver::warm_upto(bodies, cols, ms, k)),
    decreases k,
{
    if k > 0 {
        lemma_warm_skeleton(bodies, cols, ms, k - 1);
        let prev = crate::solver::warm_upto(bodies, cols, ms, k - 1);
        let m = ms[k - 1];
        if m.contact is Some {
            let pa = crate::solver::parent_of(cols, m.collider_a);
            let pb = crate::solver::parent_of(cols, m.collider_b);
            lemma_with_vel_skeleton(
                prev,
                pa,
                crate::vec3::v_sub_spec(
                    crate::solver::opt_vel(prev, pa),
                    crate::vec3::v_scale_spec(
                        crate::solver::vclip(m.contact.unwrap().normal),
                        crate::vec3::cmul(
                            m.warm_impulse as int,
                            crate::solver::opt_inv_mass(prev, pa),
                        ),
                    ),
                ),
            );
            let b1 = with_vel(
                prev,
                pa,
                crate::vec3::v_sub_spec(
                    crate::solver::opt_vel(prev, pa),
                    crate::vec3::v_scale_spec(
                        crate::solver::vclip(m.contact.unwrap().normal),
                        crate::vec3::cmul(
                            m.warm_impulse as int,
                            crate::solver::opt_inv_mass(prev, pa),
                        ),
                    ),
                ),
            );
            lemma_with_vel_skeleton(
                b1,
                pb,
                crate::vec3::v_add_spec(
                    crate::solver::opt_vel(prev, pb),
                    crate::vec3::v_scale_spec(
                        crate::solver::vclip(m.contact.unwrap().normal),
                        crate::vec3::cmul(
                            m.warm_impulse as int,
                            crate::solver::opt_inv_mass(prev, pb),
                        ),
                    ),
                ),
            );
        }
    }
}

proof fn lemma_contacts_skeleton(
    bodies: Seq<Slot<RigidBody>>,
    cols: Seq<Slot<Collider>>,
    ms: Seq<Manifold>,
    accs: Seq<i64>,
    biases: Seq<i64>,
    k: int,
)
    ensures
        same_skeleton(bodies, crate::solver::contacts_upto(bodies, cols, ms, accs, biases, k).0),
    decreases k,
{
    if k > 0 {
        lemma_contacts_skeleton(bodies, cols, ms, accs, biases, k - 1);
        let prev = crate::solver::contacts_upto(bodies, cols, ms, accs, biases, k - 1);
        let step = crate::solver::solve_contact(
            prev.0,
            cols,
            ms[k - 1],
            prev.1[k - 1] as int,
            biases[k - 1] as int,
        );
        lemma_solve_contact_skeleton(prev.0, cols, ms[k - 1], prev.1[k - 1] as int, biases[k
            - 1] as int);
    }
}

proof fn lemma_solve_contact_skeleton(
    bodies: Seq<Slot<RigidBody>>,
    cols: Seq<Slot<Collider>>,
    m: Manifold,
    acc: int,
    bias: int,
)
    ensures
        same_skeleton(bodies, crate::solver::solve_contact(bodies, cols, m, acc, bias).0),
{
}

proof fn lemma_joints_skeleton(bodies: Seq<Slot<RigidBody>>, joints: Seq<Slot<Joint>>, k: int)
    ensures
        same_skeleton(bodies, crate::solver::joints_upto(bodies, joints, k)),
    decreases k,
{
    if k > 0 {
        lemma_joints_skeleton(bodies, joints, k - 1);
    }
}

proof fn lemma_vel_iters_skeleton(
    bodies: Seq<Slot<RigidBody>>,
    cols: Seq<Slot<Collider>>,
    joints: Seq<Slot<Joint>>,
    ms: Seq<Manifold>,
    accs: Seq<i64>,
    biases: Seq<i64>,
    t: int,
)
    ensures
        same_skeleton(
            bodies,
            crate::solver::velocity_iters(bodies, cols, joints, ms, accs, biases, t).0,
        ),
    decreases t,
{
    if t > 0 {
        lemma_vel_iters_skeleton(bodies, cols, joints, ms, accs, biases, t - 1);
        let prev = crate::solver::velocity_iters(bodies, cols, joints, ms, accs, biases, t - 1);
        lemma_contacts_skeleton(prev.0, cols, ms, prev.1, biases, ms.len() as int);
        let c = crate::solver::contacts_upto(prev.0, cols, ms, prev.1, biases, ms.len() as int);
        lemma_joints_skeleton(c.0, joints, joints.len() as int);
    }
}

proof fn lemma_correct_contacts_skeleton(
    bodies: Seq<Slot<RigidBody>>,
    cols: Seq<Slot<Collider>>,
    ms: Seq<Manifold>,
    k: int,
)
    ensures
        same_skeleton(bodies, crate::solver::correct_contacts_upto(bodies, cols, ms, k)),
    decreases k,
{
    if k > 0 {
        lemma_correct_contacts_skeleton(bodies, cols, ms, k - 1);
    }
}

proof fn lemma_correct_joints_skeleton(
    bodies: Seq<Slot<RigidBody>>,
    joints: Seq<Slot<Joint>>,
    k: int,
)
    ensures
        same_skeleton(bodies, crate::solver::correct_joints_upto(bodies, joints, k)),
    decreases k,
{
    if k > 0 {
        lemma_correct_joints_skeleton(bodies, joints, k - 1);
    }
}

proof fn lemma_solve_skeleton(
    bodies: Seq<Slot<RigidBody>>,
    cols: Seq<Slot<Collider>>,
    joints: Seq<Slot<Joint>>,
    ms: Seq<Manifold>,
    iters: int,
    warm: bool,
)
    ensures
        same_skeleton(bodies, solve_spec(bodies, cols, joints, ms, iters, warm).0),
{
    let accs0 = Seq::new(
        ms.len(),
        |k: int|
            if warm {
                ms[k].warm_impulse
            } else {
                0i64
            },
    );
    let biases = crate::solver::all_biases(bodies, cols, ms);
    lemma_warm_skeleton(bodies, cols, ms, ms.len() as int);
    let b1 = if warm {
        crate::solver::warm_upto(bodies, cols, ms, ms.len() as int)
    } else {
        bodies
    };
    lemma_vel_iters_skeleton(b1, cols, joints, ms, accs0, biases, iters);
    let it = crate::solver::velocity_iters(b1, cols, joints, ms, accs0, biases, iters);
    lemma_correct_contacts_skeleton(it.0, cols, ms, ms.len() as int);
    let b2 = crate::solver::correct_contacts_upto(it.0, cols, ms, ms.len() as int);
    lemma_correct_joints_skeleton(b2, joints, joints.len() as int);
}

proof fn lemma_counters_skeleton(
    bodies: Seq<Slot<RigidBody>>,
    labels: Seq<usize>,
    slow: Seq<bool>,
    k: int,
)
    ensures
        same_skeleton(bodies, crate::island::counters_upto(bodies, labels, slow, k)),
    decreases k,
{
    if k > 0 {
        lemma_counters_skeleton(bodies, labels, slow, k - 1);
    }
}

proof fn lemma_apply_sleep_skeleton(
    bodies: Seq<Slot<RigidBody>>,
    labels: Seq<usize>,
    ready: Seq<bool>,
    k: int,
)
    ensures
        same_skeleton(bodies, crate::island::apply_sleep_upto(bodies, labels, ready, k)),
    decreases k,
{
    if k > 0 {
        lemma_apply_sleep_skeleton(bodies, labels, ready, k - 1);
    }
}

proof fn lemma_sleep_skeleton(
    bodies: Seq<Slot<RigidBody>>,
    labels: Seq<usize>,
    thr: int,
    min_steps: u32,
)
    ensures
        same_skeleton(bodies, sleep_spec(bodies, labels, thr, min_steps)),
{
    let n = bodies.len() as int;
    let all = Seq::new(bodies.len(), |t: int| true);
    let slow = crate::island::slow_flags_upto(bodies, labels, thr, all, n);
    lemma_counters_skeleton(bodies, labels, slow, n);
    let b2 = crate::island::counters_upto(bodies, labels, slow, n);
    let ready = crate::island::ready_flags_upto(b2, labels, min_steps, all, n);
    lemma_apply_sleep_skeleton(b2, labels, ready, n);
}

proof fn lemma_ccd_skeleton(
    bodies: Seq<Slot<RigidBody>>,
    cols: Seq<Slot<Collider>>,
    prev_pos: Seq<Vec3>,
    budget: u32,
)
    ensures
        same_skeleton(
            bodies,
            ccd_upto(bodies, cols, prev_pos, budget, bodies.len() as int).0,
        ),
{
    lemma_ccd_skeleton_upto(bodies, cols, prev_pos, budget, bodies.len() as int);
}

proof fn lemma_ccd_skeleton_upto(
    bodies: Seq<Slot<RigidBody>>,
    cols: Seq<Slot<Collider>>,
    prev_pos: Seq<Vec3>,
    budget: u32,
    k: int,
)
    requires
        k <= bodies.len(),
    ensures
        same_skeleton(bodies, ccd_upto(bodies, cols, prev_pos, budget, k).0),
    decreases k,
{
    if k > 0 {
        lemma_ccd_skeleton_upto(bodies, cols, prev_pos, budget, k - 1);
    }
}

} // verus!

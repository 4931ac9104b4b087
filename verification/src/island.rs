//! Island building and sleep bookkeeping.
//!
//! Awake dynamic bodies are the nodes; manifolds with a contact and joints
//! are the edges. Labels are merged per edge in deterministic order, so two
//! bodies joined by an active constraint always end in the same island, and
//! a whole island goes to sleep atomically once every member has rested
//! long enough.

use vstd::prelude::*;
use crate::arena::{Arena, Handle, Slot};
use crate::body::{RigidBody, BodyType, body_valid, body_active};
use crate::collider::Collider;
use crate::fx::{FX_MAX, clip};
use crate::geometry::iabs;
use crate::joint::Joint;
use crate::manifold::Manifold;
use crate::solver::{parent_of, bodies_ok};
use crate::vec3::Vec3;
use crate::world::World;

verus! {

/// Slot `i` holds an island node: an awake dynamic body.
pub open spec fn node(bodies: Seq<Slot<RigidBody>>, i: int) -> bool {
    0 <= i < bodies.len() && bodies[i].value is Some && body_active(bodies[i].value.unwrap())
}

/// The island edge a manifold induces, if both sides are nodes.
pub open spec fn edge_of_manifold(
    bodies: Seq<Slot<RigidBody>>,
    cols: Seq<Slot<Collider>>,
    m: Manifold,
) -> Option<(int, int)> {
    if m.contact is Some {
        match (parent_of(cols, m.collider_a), parent_of(cols, m.collider_b)) {
            (Option::Some(pa), Option::Some(pb)) => if node(bodies, pa.index as int) && node(
                bodies,
                pb.index as int,
            ) {
                Option::Some((pa.index as int, pb.index as int))
            } else {
                Option::None
            },
            _ => Option::None,
        }
    } else {
        Option::None
    }
}

/// The island edge a joint induces, if both sides are nodes.
pub open spec fn edge_of_joint(bodies: Seq<Slot<RigidBody>>, j: Joint) -> Option<(int, int)> {
    if node(bodies, j.body_a.index as int) && node(bodies, j.body_b.index as int) {
        Option::Some((j.body_a.index as int, j.body_b.index as int))
    } else {
        Option::None
    }
}

/// Every occurrence of label `from` replaced by `to`.
pub open spec fn relabel(l: Seq<usize>, from: usize, to: usize) -> Seq<usize> {
    Seq::new(
        l.len(),
        |t: int|
            if l[t] == from {
                to
            } else {
                l[t]
            },
    )
}

/// Merging an edge: the second endpoint's whole class takes the first
/// endpoint's label.
pub open spec fn merge(l: Seq<usize>, a: int, b: int) -> Seq<usize> {
    if 0 <= a < l.len() && 0 <= b < l.len() {
        relabel(l, l[b], l[a])
    } else {
        l
    }
}

/// Merging makes the edge's endpoints share a label and keeps every pair of
/// equal labels equal.
pub proof fn lemma_merge(l: Seq<usize>, a: int, b: int)
    requires
        0 <= a < l.len(),
        0 <= b < l.len(),
    ensures
        merge(l, a, b)[a] == merge(l, a, b)[b],
        forall|x: int, y: int|
            0 <= x < l.len() && 0 <= y < l.len() && l[x] == l[y] ==> merge(l, a, b)[x] == merge(
                l,
                a,
                b,
            )[y],
{
}

/// Labels after folding the first `k` manifolds' edges.
pub open spec fn labels_after_manifolds(
    bodies: Seq<Slot<RigidBody>>,
    cols: Seq<Slot<Collider>>,
    ms: Seq<Manifold>,
    l0: Seq<usize>,
    k: int,
) -> Seq<usize>
    decreases k,
{
    if k <= 0 {
        l0
    } else {
        let prev = labels_after_manifolds(bodies, cols, ms, l0, k - 1);
        match edge_of_manifold(bodies, cols, ms[k - 1]) {
            Option::Some(e) => merge(prev, e.0, e.1),
            Option::None => prev,
        }
    }
}

/// Labels after folding the first `k` joint slots' edges.
pub open spec fn labels_after_joints(
    bodies: Seq<Slot<RigidBody>>,
    joints: Seq<Slot<Joint>>,
    l0: Seq<usize>,
    k: int,
) -> Seq<usize>
    decreases k,
{
    if k <= 0 {
        l0
    } else {
        let prev = labels_after_joints(bodies, joints, l0, k - 1);
        match joints[k - 1].value {
            Option::Some(j) => match edge_of_joint(bodies, j) {
                Option::Some(e) => merge(prev, e.0, e.1),
                Option::None => prev,
            },
            Option::None => prev,
        }
    }
}

/// Each slot starts as its own island.
pub open spec fn init_labels(n: int) -> Seq<usize> {
    Seq::new(n as nat, |t: int| t as usize)
}

/// The island labels of a world: every awake dynamic body's island is
/// `labels[slot]`, and connected bodies share the value.
pub open spec fn build_labels(
    bodies: Seq<Slot<RigidBody>>,
    cols: Seq<Slot<Collider>>,
    ms: Seq<Manifold>,
    joints: Seq<Slot<Joint>>,
) -> Seq<usize> {
    labels_after_joints(
        bodies,
        joints,
        labels_after_manifolds(bodies, cols, ms, init_labels(bodies.len() as int), ms.len() as int),
        joints.len() as int,
    )
}

/// The labels of the first `k`-manifold fold keep every already-merged edge
/// merged and merge each processed edge.
pub proof fn lemma_manifold_fold_edges(
    bodies: Seq<Slot<RigidBody>>,
    cols: Seq<Slot<Collider>>,
    ms: Seq<Manifold>,
    l0: Seq<usize>,
    k: int,
)
    requires
        0 <= k <= ms.len(),
        l0.len() == bodies.len(),
    ensures
        labels_after_manifolds(bodies, cols, ms, l0, k).len() == bodies.len(),
        forall|t: int|
            0 <= t < k ==> (match #[trigger] edge_of_manifold(bodies, cols, ms[t]) {
                Option::Some(e) => labels_after_manifolds(bodies, cols, ms, l0, k)[e.0]
                    == labels_after_manifolds(bodies, cols, ms, l0, k)[e.1],
                Option::None => true,
            }),
    decreases k,
{
    if k > 0 {
        lemma_manifold_fold_edges(bodies, cols, ms, l0, k - 1);
        let prev = labels_after_manifolds(bodies, cols, ms, l0, k - 1);
        let cur = labels_after_manifolds(bodies, cols, ms, l0, k);
        assert forall|t: int|
            0 <= t < k implies (match #[trigger] edge_of_manifold(bodies, cols, ms[t]) {
            Option::Some(e) => cur[e.0] == cur[e.1],
            Option::None => true,
        }) by {
            match edge_of_manifold(bodies, cols, ms[t]) {
                Option::Some(e) => {
                    if t == k - 1 {
                        lemma_merge(prev, e.0, e.1);
                    } else {
                        match edge_of_manifold(bodies, cols, ms[k - 1]) {
                            Option::Some(e2) => {
                                lemma_merge(prev, e2.0, e2.1);
                            },
                            Option::None => {},
                        }
                    }
                },
                Option::None => {},
            }
        }
    }
}

/// Same preservation over the joint fold, also keeping every manifold edge
/// merged.
pub proof fn lemma_joint_fold_edges(
    bodies: Seq<Slot<RigidBody>>,
    cols: Seq<Slot<Collider>>,
    ms: Seq<Manifold>,
    joints: Seq<Slot<Joint>>,
    l0: Seq<usize>,
    k: int,
)
    requires
        0 <= k <= joints.len(),
        l0.len() == bodies.len(),
        forall|t: int|
            0 <= t < ms.len() ==> (match #[trigger] edge_of_manifold(bodies, cols, ms[t]) {
                Option::Some(e) => l0[e.0] == l0[e.1],
                Option::None => true,
            }),
    ensures
        labels_after_joints(bodies, joints, l0, k).len() == bodies.len(),
        forall|t: int|
            0 <= t < ms.len() ==> (match #[trigger] edge_of_manifold(bodies, cols, ms[t]) {
                Option::Some(e) => labels_after_joints(bodies, joints, l0, k)[e.0]
                    == labels_after_joints(bodies, joints, l0, k)[e.1],
                Option::None => true,
            }),
        forall|t: int|
            0 <= t < k ==> (match #[trigger] joints[t].value {
                Option::Some(j) => match edge_of_joint(bodies, j) {
                    Option::Some(e) => labels_after_joints(bodies, joints, l0, k)[e.0]
                        == labels_after_joints(bodies, joints, l0, k)[e.1],
                    Option::None => true,
                },
                Option::None => true,
            }),
    decreases k,
{
    if k > 0 {
        lemma_joint_fold_edges(bodies, cols, ms, joints, l0, k - 1);
        let prev = labels_after_joints(bodies, joints, l0, k - 1);
        let cur = labels_after_joints(bodies, joints, l0, k);
        match joints[k - 1].value {
            Option::Some(j) => {
                match edge_of_joint(bodies, j) {
                    Option::Some(e2) => {
                        lemma_merge(prev, e2.0, e2.1);
                    },
                    Option::None => {},
                }
            },
            Option::None => {},
        }
    }
}

/// Island partitioning. Every awake dynamic body has exactly one island,
/// the value `build_labels` gives its slot, and two bodies connected by an
/// active manifold or by a joint always land in the same island.
pub proof fn lemma_island_partition(
    bodies: Seq<Slot<RigidBody>>,
    cols: Seq<Slot<Collider>>,
    ms: Seq<Manifold>,
    joints: Seq<Slot<Joint>>,
)
    ensures
        build_labels(bodies, cols, ms, joints).len() == bodies.len(),
        forall|t: int|
            0 <= t < ms.len() ==> (match #[trigger] edge_of_manifold(bodies, cols, ms[t]) {
                Option::Some(e) => build_labels(bodies, cols, ms, joints)[e.0] == build_labels(
                    bodies,
                    cols,
                    ms,
                    joints,
                )[e.1],
                Option::None => true,
            }),
        forall|t: int|
            0 <= t < joints.len() ==> (match #[trigger] joints[t].value {
                Option::Some(j) => match edge_of_joint(bodies, j) {
                    Option::Some(e) => build_labels(bodies, cols, ms, joints)[e.0] == build_labels(
                        bodies,
                        cols,
                        ms,
                        joints,
                    )[e.1],
                    Option::None => true,
                },
                Option::None => true,
            }),
{
    lemma_manifold_fold_edges(
        bodies,
        cols,
        ms,
        init_labels(bodies.len() as int),
        ms.len() as int,
    );
    lemma_joint_fold_edges(
        bodies,
        cols,
        ms,
        joints,
        labels_after_manifolds(bodies, cols, ms, init_labels(bodies.len() as int), ms.len() as int),
        joints.len() as int,
    );
}

/// All labels index a body slot.
pub proof fn lemma_labels_in_bounds(
    bodies: Seq<Slot<RigidBody>>,
    cols: Seq<Slot<Collider>>,
    ms: Seq<Manifold>,
    joints: Seq<Slot<Joint>>,
)
    requires
        bodies.len() <= usize::MAX,
    ensures
        build_labels(bodies, cols, ms, joints).len() == bodies.len(),
        forall|t: int|
            0 <= t < bodies.len() ==> (#[trigger] build_labels(bodies, cols, ms, joints)[t] as int)
                < bodies.len(),
{
    lemma_manifold_bounds(bodies, cols, ms, init_labels(bodies.len() as int), ms.len() as int);
    lemma_joint_bounds(
        bodies,
        joints,
        labels_after_manifolds(bodies, cols, ms, init_labels(bodies.len() as int), ms.len() as int),
        joints.len() as int,
    );
}

proof fn lemma_manifold_bounds(
    bodies: Seq<Slot<RigidBody>>,
    cols: Seq<Slot<Collider>>,
    ms: Seq<Manifold>,
    l0: Seq<usize>,
    k: int,
)
    requires
        0 <= k <= ms.len(),
        l0.len() == bodies.len(),
        forall|t: int| 0 <= t < l0.len() ==> (#[trigger] l0[t] as int) < bodies.len(),
    ensures
        labels_after_manifolds(bodies, cols, ms, l0, k).len() == bodies.len(),
        forall|t: int|
            0 <= t < bodies.len() ==> (#[trigger] labels_after_manifolds(bodies, cols, ms, l0, k)[t]
                as int) < bodies.len(),
    decreases k,
{
    if k > 0 {
        lemma_manifold_bounds(bodies, cols, ms, l0, k - 1);
    }
}

proof fn lemma_joint_bounds(
    bodies: Seq<Slot<RigidBody>>,
    joints: Seq<Slot<Joint>>,
    l0: Seq<usize>,
    k: int,
)
    requires
        0 <= k <= joints.len(),
        l0.len() == bodies.len(),
        forall|t: int| 0 <= t < l0.len() ==> (#[trigger] l0[t] as int) < bodies.len(),
    ensures
        labels_after_joints(bodies, joints, l0, k).len() == bodies.len(),
        forall|t: int|
            0 <= t < bodies.len() ==> (#[trigger] labels_after_joints(bodies, joints, l0, k)[t]
                as int) < bodies.len(),
    decreases k,
{
    if k > 0 {
        lemma_joint_bounds(bodies, joints, l0, k - 1);
    }
}

/// Executable island builder.
pub fn build_islands(
    bodies: &Arena<RigidBody>,
    cols: &Arena<Collider>,
    ms: &Vec<Manifold>,
    joints: &Arena<Joint>,
) -> (r: Vec<usize>)
    ensures
        r@ == build_labels(bodies.slots@, cols.slots@, ms@, joints.slots@),
{
    let n: usize = bodies.slot_count();
    let mut labels: Vec<usize> = Vec::new();
    let mut i: usize = 0;
    while i < n
        invariant
            n as int == bodies.slots@.len(),
            i <= n,
            labels@.len() == i as int,
            forall|t: int| 0 <= t < i as int ==> labels@[t] == t as usize,
        decreases n - i,
    {
        labels.push(i);
        i = i + 1;
    }
    proof {
        assert(labels@ =~= init_labels(n as int));
    }
    let nm: usize = ms.len();
    let mut k: usize = 0;
    while k < nm
        invariant
            n as int == bodies.slots@.len(),
            nm == ms@.len(),
            k <= nm,
            labels@ == labels_after_manifolds(
                bodies.slots@,
                cols.slots@,
                ms@,
                init_labels(n as int),
                k as int,
            ),
            labels@.len() == n as int,
        decreases nm - k,
    {
        proof {
            lemma_manifold_bounds(
                bodies.slots@,
                cols.slots@,
                ms@,
                init_labels(n as int),
                k as int,
            );
        }
        let m = ms[k];
        let e: Option<(usize, usize)> = manifold_edge_exec(bodies, cols, &m);
        match e {
            Option::Some((a, b)) => {
                merge_exec(&mut labels, a, b);
            },
            Option::None => {},
        }
        k = k + 1;
    }
    let nj: usize = joints.slot_count();
    let ghost lm = labels@;
    let mut q: usize = 0;
    while q < nj
        invariant
            n as int == bodies.slots@.len(),
            nj as int == joints.slots@.len(),
            q <= nj,
            labels@ == labels_after_joints(bodies.slots@, joints.slots@, lm, q as int),
            labels@.len() == n as int,
            lm.len() == n as int,
        decreases nj - q,
    {
        let jv: Option<Joint> = match joints.value_at(q) {
            Option::Some(j) => Option::Some(*j),
            Option::None => Option::None,
        };
        match jv {
            Option::Some(j) => {
                let e: Option<(usize, usize)> = joint_edge_exec(bodies, &j);
                match e {
                    Option::Some((a, b)) => {
                        merge_exec(&mut labels, a, b);
                    },
                    Option::None => {},
                }
            },
            Option::None => {},
        }
        q = q + 1;
    }
    labels
}

/// A sleeping dynamic body woken in place; an already awake body keeps its
/// rest counter, so persistent resting contacts can still put it to sleep.
pub open spec fn wake_at_index(bodies: Seq<Slot<RigidBody>>, i: int) -> Seq<Slot<RigidBody>> {
    if 0 <= i < bodies.len() && bodies[i].value is Some && bodies[i].value.unwrap().body_type
        is Dynamic && bodies[i].value.unwrap().sleeping {
        bodies.update(
            i,
            Slot {
                generation: bodies[i].generation,
                value: Option::Some(
                    RigidBody { sleeping: false, sleep_steps: 0u32, ..bodies[i].value.unwrap() },
                ),
            },
        )
    } else {
        bodies
    }
}

/// Both dynamic parents of a touching manifold woken.
pub open spec fn wake_manifold(
    bodies: Seq<Slot<RigidBody>>,
    cols: Seq<Slot<Collider>>,
    m: Manifold,
) -> Seq<Slot<RigidBody>> {
    if m.contact is Some {
        let b1 = match parent_of(cols, m.collider_a) {
            Option::Some(p) => wake_at_index(bodies, p.index as int),
            Option::None => bodies,
        };
        match parent_of(cols, m.collider_b) {
            Option::Some(p) => wake_at_index(b1, p.index as int),
            Option::None => b1,
        }
    } else {
        bodies
    }
}

/// Wake fold over the first `k` manifolds.
pub open spec fn wake_upto(
    bodies: Seq<Slot<RigidBody>>,
    cols: Seq<Slot<Collider>>,
    ms: Seq<Manifold>,
    k: int,
) -> Seq<Slot<RigidBody>>
    decreases k,
{
    if k <= 0 {
        bodies
    } else {
        wake_manifold(wake_upto(bodies, cols, ms, k - 1), cols, ms[k - 1])
    }
}

/// Executable wake stage: every body touched by a fresh contact is awake
/// before islands are built.
pub fn wake_stage(bodies: &mut Arena<RigidBody>, cols: &Arena<Collider>, ms: &Vec<Manifold>)
    requires
        bodies_ok(old(bodies).slots@),
    ensures
        final(bodies).slots@ == wake_upto(old(bodies).slots@, cols.slots@, ms@, ms@.len() as int),
        bodies_ok(final(bodies).slots@),
{
    let nm: usize = ms.len();
    let mut k: usize = 0;
    while k < nm
        invariant
            bodies_ok(bodies.slots@),
            nm == ms@.len(),
            k <= nm,
            bodies.slots@ == wake_upto(old(bodies).slots@, cols.slots@, ms@, k as int),
        decreases nm - k,
    {
        let m = ms[k];
        if m.contact.is_some() {
            let pa: Option<Handle> = parent_handle_exec(cols, m.collider_a);
            let pb: Option<Handle> = parent_handle_exec(cols, m.collider_b);
            match pa {
                Option::Some(p) => {
                    wake_index_exec(bodies, p.index);
                },
                Option::None => {},
            }
            match pb {
                Option::Some(p) => {
                    wake_index_exec(bodies, p.index);
                },
                Option::None => {},
            }
        }
        k = k + 1;
    }
}

/// Executable [`wake_at_index`].
fn wake_index_exec(bodies: &mut Arena<RigidBody>, i: usize)
    requires
        bodies_ok(old(bodies).slots@),
    ensures
        final(bodies).slots@ == wake_at_index(old(bodies).slots@, i as int),
        bodies_ok(final(bodies).slots@),
{
    let n: usize = bodies.slot_count();
    if i >= n {
        return ;
    }
    let cur: Option<RigidBody> = match bodies.value_at(i) {
        Option::Some(b) => Option::Some(*b),
        Option::None => Option::None,
    };
    match cur {
        Option::Some(b) => {
            let d: bool = match b.body_type {
                BodyType::Dynamic => true,
                _ => false,
            };
            if d && b.sleeping {
                bodies.update_at(i, RigidBody { sleeping: false, sleep_steps: 0, ..b });
                proof {
                    assert forall|t: int|
                        0 <= t < bodies.slots@.len() && (#[trigger] bodies.slots@[t]).value
                            is Some implies body_valid(bodies.slots@[t].value.unwrap()) by {
                        if t != i as int {
                            assert(old(bodies).slots@[t] == bodies.slots@[t]);
                        }
                    }
                }
            }
        },
        Option::None => {},
    }
}

/// A body counts as resting when all velocity components are within the
/// threshold.
pub open spec fn body_slow(b: RigidBody, thr: int) -> bool {
    &&& iabs(b.vel.x as int) <= thr
    &&& iabs(b.vel.y as int) <= thr
    &&& iabs(b.vel.z as int) <= thr
    &&& iabs(b.angvel.x as int) <= thr
    &&& iabs(b.angvel.y as int) <= thr
    &&& iabs(b.angvel.z as int) <= thr
}

/// Island rest flags after scanning the first `k` bodies: an island keeps
/// its flag only while every scanned member is resting.
pub open spec fn slow_flags_upto(
    bodies: Seq<Slot<RigidBody>>,
    labels: Seq<usize>,
    thr: int,
    flags: Seq<bool>,
    k: int,
) -> Seq<bool>
    decreases k,
{
    if k <= 0 {
        flags
    } else {
        let prev = slow_flags_upto(bodies, labels, thr, flags, k - 1);
        if node(bodies, k - 1) && !body_slow(bodies[k - 1].value.unwrap(), thr) {
            prev.update(labels[k - 1] as int, false)
        } else {
            prev
        }
    }
}

/// Sleep counters after the island rest flags are known: members of resting
/// islands count up, anyone else resets.
pub open spec fn counters_upto(
    bodies: Seq<Slot<RigidBody>>,
    labels: Seq<usize>,
    slow: Seq<bool>,
    k: int,
) -> Seq<Slot<RigidBody>>
    decreases k,
{
    if k <= 0 {
        bodies
    } else {
        let prev = counters_upto(bodies, labels, slow, k - 1);
        if node(bodies, k - 1) {
            let b = prev[k - 1].value.unwrap();
            let ss = if slow[labels[k - 1] as int] {
                if b.sleep_steps < u32::MAX {
                    (b.sleep_steps + 1) as u32
                } else {
                    b.sleep_steps
                }
            } else {
                0u32
            };
            prev.update(
                k - 1,
                Slot {
                    generation: prev[k - 1].generation,
                    value: Option::Some(RigidBody { sleep_steps: ss, ..b }),
                },
            )
        } else {
            prev
        }
    }
}

/// Island readiness flags: an island may sleep only when every member's
/// counter has reached the configured minimum.
pub open spec fn ready_flags_upto(
    bodies: Seq<Slot<RigidBody>>,
    labels: Seq<usize>,
    min_steps: u32,
    flags: Seq<bool>,
    k: int,
) -> Seq<bool>
    decreases k,
{
    if k <= 0 {
        flags
    } else {
        let prev = ready_flags_upto(bodies, labels, min_steps, flags, k - 1);
        if node(bodies, k - 1) && bodies[k - 1].value.unwrap().sleep_steps < min_steps {
            prev.update(labels[k - 1] as int, false)
        } else {
            prev
        }
    }
}

/// Whole islands put to sleep atomically: every member of a ready island
/// stops moving and is flagged asleep in the same step.
pub open spec fn apply_sleep_upto(
    bodies: Seq<Slot<RigidBody>>,
    labels: Seq<usize>,
    ready: Seq<bool>,
    k: int,
) -> Seq<Slot<RigidBody>>
    decreases k,
{
    if k <= 0 {
        bodies
    } else {
        let prev = apply_sleep_upto(bodies, labels, ready, k - 1);
        if node(bodies, k - 1) && ready[labels[k - 1] as int] {
            let b = prev[k - 1].value.unwrap();
            prev.update(
                k - 1,
                Slot {
                    generation: prev[k - 1].generation,
                    value: Option::Some(
                        RigidBody {
                            sleeping: true,
                            vel: Vec3 { x: 0i64, y: 0i64, z: 0i64 },
                            angvel: Vec3 { x: 0i64, y: 0i64, z: 0i64 },
                            ..b
                        },
                    ),
                },
            )
        } else {
            prev
        }
    }
}

/// The whole sleep bookkeeping stage as a function of its inputs.
pub open spec fn sleep_spec(
    bodies: Seq<Slot<RigidBody>>,
    labels: Seq<usize>,
    thr: int,
    min_steps: u32,
) -> Seq<Slot<RigidBody>> {
    let n = bodies.len() as int;
    let all = Seq::new(bodies.len(), |t: int| true);
    let slow = slow_flags_upto(bodies, labels, thr, all, n);
    let b2 = counters_upto(bodies, labels, slow, n);
    let ready = ready_flags_upto(b2, labels, min_steps, all, n);
    apply_sleep_upto(b2, labels, ready, n)
}

/// Executable sleep stage, run right after the solver while resting bodies
/// still have their solved velocities.
pub fn sleep_stage(bodies: &mut Arena<RigidBody>, labels: &Vec<usize>, thr: i64, min_steps: u32)
    requires
        bodies_ok(old(bodies).slots@),
        labels@.len() == old(bodies).slots@.len(),
        forall|t: int|
            0 <= t < labels@.len() ==> (#[trigger] labels@[t] as int) < labels@.len(),
        0 <= thr,
    ensures
        final(bodies).slots@ == sleep_spec(old(bodies).slots@, labels@, thr as int, min_steps),
        bodies_ok(final(bodies).slots@),
{
    let n: usize = bodies.slot_count();
    let ghost b0 = bodies.slots@;
    let mut slow: Vec<bool> = Vec::new();
    let mut i: usize = 0;
    while i < n
        invariant
            i <= n,
            slow@.len() == i as int,
            forall|t: int| 0 <= t < i as int ==> slow@[t] == true,
        decreases n - i,
    {
        slow.push(true);
        i = i + 1;
    }
    proof {
        assert(slow@ =~= Seq::new(b0.len(), |t: int| true));
    }
    let ghost all = slow@;
    let mut i2: usize = 0;
    while i2 < n
        invariant
            bodies_ok(bodies.slots@),
            n as int == bodies.slots@.len(),
            i2 <= n,
            bodies.slots@ == b0,
            labels@.len() == n as int,
            forall|t: int|
                0 <= t < labels@.len() ==> (#[trigger] labels@[t] as int) < labels@.len(),
            slow@ == slow_flags_upto(b0, labels@, thr as int, all, i2 as int),
            slow@.len() == n as int,
            0 <= thr,
        decreases n - i2,
    {
        let is_node: bool = node_exec(bodies, i2);
        if is_node {
            let b: RigidBody = match bodies.value_at(i2) {
                Option::Some(x) => *x,
                Option::None => {
                    proof {
                        assert(false);
                    }
                    RigidBody { ..*bodies.value_at(i2).unwrap() }
                },
            };
            let fast: bool = !body_slow_exec(&b, thr);
            if fast {
                let l: usize = labels[i2];
                slow[l] = false;
            }
        }
        i2 = i2 + 1;
    }
    let ghost slowf = slow@;
    let mut i3: usize = 0;
    while i3 < n
        invariant
            bodies_ok(bodies.slots@),
            n as int == bodies.slots@.len(),
            i3 <= n,
            labels@.len() == n as int,
            forall|t: int|
                0 <= t < labels@.len() ==> (#[trigger] labels@[t] as int) < labels@.len(),
            slow@ == slowf,
            slowf.len() == n as int,
            bodies.slots@ == counters_upto(b0, labels@, slowf, i3 as int),
            b0.len() == n as int,
            bodies_ok(b0),
        decreases n - i3,
    {
        proof {
            lemma_counters_frame(b0, labels@, slowf, i3 as int);
        }
        let is_node: bool = node_exec(bodies, i3);
        if is_node {
            let b: RigidBody = match bodies.value_at(i3) {
                Option::Some(x) => *x,
                Option::None => {
                    proof {
                        assert(false);
                    }
                    RigidBody { ..*bodies.value_at(i3).unwrap() }
                },
            };
            let l: usize = labels[i3];
            let ss: u32 = if slow[l] {
                if b.sleep_steps < u32::MAX {
                    b.sleep_steps + 1
                } else {
                    b.sleep_steps
                }
            } else {
                0
            };
            bodies.update_at(i3, RigidBody { sleep_steps: ss, ..b });
            proof {
                assert forall|t: int|
                    0 <= t < bodies.slots@.len() && (#[trigger] bodies.slots@[t]).value
                        is Some implies body_valid(bodies.slots@[t].value.unwrap()) by {
                    if t != i3 as int {
                        assert(counters_upto(b0, labels@, slowf, i3 as int)[t]
                            == bodies.slots@[t]);
                    }
                }
            }
        }
        i3 = i3 + 1;
    }
    let ghost b2 = bodies.slots@;
    let mut ready: Vec<bool> = Vec::new();
    let mut i4: usize = 0;
    while i4 < n
        invariant
            i4 <= n,
            ready@.len() == i4 as int,
            forall|t: int| 0 <= t < i4 as int ==> ready@[t] == true,
        decreases n - i4,
    {
        ready.push(true);
        i4 = i4 + 1;
    }
    proof {
        assert(ready@ =~= all);
    }
    let mut i5: usize = 0;
    while i5 < n
        invariant
            bodies_ok(bodies.slots@),
            n as int == bodies.slots@.len(),
            i5 <= n,
            bodies.slots@ == b2,
            labels@.len() == n as int,
            forall|t: int|
                0 <= t < labels@.len() ==> (#[trigger] labels@[t] as int) < labels@.len(),
            ready@ == ready_flags_upto(b2, labels@, min_steps, all, i5 as int),
            ready@.len() == n as int,
        decreases n - i5,
    {
        let is_node: bool = node_exec(bodies, i5);
        if is_node {
            let b: RigidBody = match bodies.value_at(i5) {
                Option::Some(x) => *x,
                Option::None => {
                    proof {
                        assert(false);
                    }
                    RigidBody { ..*bodies.value_at(i5).unwrap() }
                },
            };
            if b.sleep_steps < min_steps {
                let l: usize = labels[i5];
                ready[l] = false;
            }
        }
        i5 = i5 + 1;
    }
    let ghost readyf = ready@;
    let mut i6: usize = 0;
    while i6 < n
        invariant
            bodies_ok(bodies.slots@),
            n as int == bodies.slots@.len(),
            i6 <= n,
            labels@.len() == n as int,
            forall|t: int|
                0 <= t < labels@.len() ==> (#[trigger] labels@[t] as int) < labels@.len(),
            ready@ == readyf,
            readyf.len() == n as int,
            bodies.slots@ == apply_sleep_upto(b2, labels@, readyf, i6 as int),
            b2.len() == n as int,
            bodies_ok(b2),
        decreases n - i6,
    {
        proof {
            lemma_sleep_frame(b2, labels@, readyf, i6 as int);
        }
        let is_node: bool = node_exec2(bodies, i6, Ghost(b2));
        if is_node {
            let b: RigidBody = match bodies.value_at(i6) {
                Option::Some(x) => *x,
                Option::None => {
                    proof {
                        assert(false);
                    }
                    RigidBody { ..*bodies.value_at(i6).unwrap() }
                },
            };
            let l: usize = labels[i6];
            if ready[l] {
                bodies.update_at(
                    i6,
                    RigidBody {
                        sleeping: true,
                        vel: Vec3 { x: 0, y: 0, z: 0 },
                        angvel: Vec3 { x: 0, y: 0, z: 0 },
                        ..b
                    },
                );
                proof {
                    assert forall|t: int|
                        0 <= t < bodies.slots@.len() && (#[trigger] bodies.slots@[t]).value
                            is Some implies body_valid(bodies.slots@[t].value.unwrap()) by {
                        if t != i6 as int {
                            assert(apply_sleep_upto(b2, labels@, readyf, i6 as int)[t]
                                == bodies.slots@[t]);
                        }
                    }
                }
            }
        }
        i6 = i6 + 1;
    }
}

/// The counter fold touches only already-scanned slots.
pub proof fn lemma_counters_frame(
    bodies: Seq<Slot<RigidBody>>,
    labels: Seq<usize>,
    slow: Seq<bool>,
    k: int,
)
    requires
        0 <= k <= bodies.len(),
    ensures
        counters_upto(bodies, labels, slow, k).len() == bodies.len(),
        forall|t: int|
            k <= t < bodies.len() ==> counters_upto(bodies, labels, slow, k)[t] == bodies[t],
        forall|t: int|
            0 <= t < bodies.len() ==> ((#[trigger] counters_upto(bodies, labels, slow, k)[t]).value
                is Some <==> bodies[t].value is Some),
        forall|t: int|
            0 <= t < bodies.len() && bodies[t].value is Some ==> (#[trigger] counters_upto(
                bodies,
                labels,
                slow,
                k,
            )[t]).value.unwrap().body_type == bodies[t].value.unwrap().body_type && counters_upto(
                bodies,
                labels,
                slow,
                k,
            )[t].value.unwrap().sleeping == bodies[t].value.unwrap().sleeping,
    decreases k,
{
    if k > 0 {
        lemma_counters_frame(bodies, labels, slow, k - 1);
    }
}

/// The sleep fold touches only already-scanned slots.
pub proof fn lemma_sleep_frame(
    bodies: Seq<Slot<RigidBody>>,
    labels: Seq<usize>,
    ready: Seq<bool>,
    k: int,
)
    requires
        0 <= k <= bodies.len(),
    ensures
        apply_sleep_upto(bodies, labels, ready, k).len() == bodies.len(),
        forall|t: int|
            k <= t < bodies.len() ==> apply_sleep_upto(bodies, labels, ready, k)[t] == bodies[t],
    decreases k,
{
    if k > 0 {
        lemma_sleep_frame(bodies, labels, ready, k - 1);
    }
}

/// Executable [`node`] against a ghost snapshot that agrees on the slot.
fn node_exec2(bodies: &Arena<RigidBody>, i: usize, Ghost(snap): Ghost<Seq<Slot<RigidBody>>>) -> (r:
    bool)
    requires
        snap.len() == bodies.slots@.len(),
        (i as int) < snap.len() ==> ((bodies.slots@[i as int].value is Some <==> snap[i as int].value
            is Some) && (snap[i as int].value is Some
            ==> bodies.slots@[i as int].value.unwrap().body_type
            == snap[i as int].value.unwrap().body_type
            && bodies.slots@[i as int].value.unwrap().sleeping
            == snap[i as int].value.unwrap().sleeping)),
    ensures
        r == node(snap, i as int),
{
    let n: usize = bodies.slot_count();
    if i >= n {
        return false;
    }
    match bodies.value_at(i) {
        Option::Some(b) => {
            let d: bool = match b.body_type {
                BodyType::Dynamic => true,
                _ => false,
            };
            d && !b.sleeping
        },
        Option::None => false,
    }
}

/// Executable [`body_slow`].
fn body_slow_exec(b: &RigidBody, thr: i64) -> (r: bool)
    requires
        body_valid(*b),
        0 <= thr,
    ensures
        r == body_slow(*b, thr as int),
{
    let vx: i64 = if b.vel.x >= 0 { b.vel.x } else { -b.vel.x };
    let vy: i64 = if b.vel.y >= 0 { b.vel.y } else { -b.vel.y };
    let vz: i64 = if b.vel.z >= 0 { b.vel.z } else { -b.vel.z };
    let wx: i64 = if b.angvel.x >= 0 { b.angvel.x } else { -b.angvel.x };
    let wy: i64 = if b.angvel.y >= 0 { b.angvel.y } else { -b.angvel.y };
    let wz: i64 = if b.angvel.z >= 0 { b.angvel.z } else { -b.angvel.z };
    vx <= thr && vy <= thr && vz <= thr && wx <= thr && wy <= thr && wz <= thr
}

/// Executable edge extraction from a manifold.
fn manifold_edge_exec(bodies: &Arena<RigidBody>, cols: &Arena<Collider>, m: &Manifold) -> (r:
    Option<(usize, usize)>)
    ensures
        r is Some <==> edge_of_manifold(bodies.slots@, cols.slots@, *m) is Some,
        r is Some ==> r.unwrap().0 as int == edge_of_manifold(
            bodies.slots@,
            cols.slots@,
            *m,
        ).unwrap().0 && r.unwrap().1 as int == edge_of_manifold(
            bodies.slots@,
            cols.slots@,
            *m,
        ).unwrap().1,
{
    if m.contact.is_none() {
        return Option::None;
    }
    let pa: Option<Handle> = parent_handle_exec(cols, m.collider_a);
    let pb: Option<Handle> = parent_handle_exec(cols, m.collider_b);
    match (pa, pb) {
        (Option::Some(a), Option::Some(b)) => {
            if node_exec(bodies, a.index) && node_exec(bodies, b.index) {
                Option::Some((a.index, b.index))
            } else {
                Option::None
            }
        },
        _ => Option::None,
    }
}

/// Executable edge extraction from a joint.
fn joint_edge_exec(bodies: &Arena<RigidBody>, j: &Joint) -> (r: Option<(usize, usize)>)
    ensures
        r is Some <==> edge_of_joint(bodies.slots@, *j) is Some,
        r is Some ==> r.unwrap().0 as int == edge_of_joint(bodies.slots@, *j).unwrap().0
            && r.unwrap().1 as int == edge_of_joint(bodies.slots@, *j).unwrap().1,
{
    if node_exec(bodies, j.body_a.index) && node_exec(bodies, j.body_b.index) {
        Option::Some((j.body_a.index, j.body_b.index))
    } else {
        Option::None
    }
}

/// Executable [`parent_of`].
fn parent_handle_exec(cols: &Arena<Collider>, h: Handle) -> (r: Option<Handle>)
    ensures
        r == parent_of(cols.slots@, h),
{
    let n: usize = cols.slot_count();
    if h.index >= n {
        return Option::None;
    }
    match cols.value_at(h.index) {
        Option::Some(c) => c.parent,
        Option::None => Option::None,
    }
}

/// Executable [`node`].
pub fn node_exec(bodies: &Arena<RigidBody>, i: usize) -> (r: bool)
    ensures
        r == node(bodies.slots@, i as int),
{
    let n: usize = bodies.slot_count();
    if i >= n {
        return false;
    }
    match bodies.value_at(i) {
        Option::Some(b) => {
            let d: bool = match b.body_type {
                BodyType::Dynamic => true,
                _ => false,
            };
            d && !b.sleeping
        },
        Option::None => false,
    }
}

/// Executable [`merge`].
fn merge_exec(labels: &mut Vec<usize>, a: usize, b: usize)
    ensures
        final(labels)@ == merge(old(labels)@, a as int, b as int),
{
    let n: usize = labels.len();
    if a >= n || b >= n {
        return ;
    }
    let from: usize = labels[b];
    let to: usize = labels[a];
    let mut t: usize = 0;
    while t < n
        invariant
            n == labels@.len(),
            old(labels)@.len() == n as int,
            t <= n,
            from == old(labels)@[b as int],
            to == old(labels)@[a as int],
            (a as int) < n,
            (b as int) < n,
            forall|s: int| 0 <= s < t as int ==> labels@[s] == relabel(old(labels)@, from, to)[s],
            forall|s: int| t as int <= s < n ==> labels@[s] == old(labels)@[s],
        decreases n - t,
    {
        let ghost before = labels@;
        if labels[t] == from {
            labels[t] = to;
        }
        proof {
            assert forall|s: int| 0 <= s < t as int + 1 implies labels@[s] == relabel(
                old(labels)@,
                from,
                to,
            )[s] by {
                if s < t as int {
                    assert(labels@[s] == before[s]);
                } else {
                    assert(before[s] == old(labels)@[s]);
                }
            }
        }
        t = t + 1;
    }
    proof {
        assert(labels@ =~= relabel(old(labels)@, from, to));
    }
}

} // verus!

//! The constraint solver: projected Gauss-Seidel over contact and joint
//! constraints, with warm-started accumulated impulses, followed by one
//! position-correction pass that removes residual penetration without
//! feeding energy into velocities.
//!
//! Every routine is a function of the body store, the manifold list and the
//! joint store, traversed in slot order; effective masses are sums of
//! inverse masses, which the body invariant keeps strictly positive for
//! dynamic bodies, so no division ever sees a near-zero denominator.

use vstd::prelude::*;
use crate::arena::{Arena, Handle, Slot};
use crate::body::{RigidBody, body_valid};
use crate::collider::Collider;
use crate::fx::{fits, clip, tdiv, fx_mul_spec, FX_MAX, FX_ONE};
use crate::joint::{Joint, JointKind, Axis, joint_locks_axis};
use crate::manifold::Manifold;
use crate::vec3::{Vec3, v_fits, v_add_spec, v_sub_spec, v_scale_spec, v_dot_spec, cmul};

verus! {

/// Position correction rate per step, in fixed point.
pub const POS_BETA: i64 = 205;

/// Penetration below this depth is tolerated, to keep resting contacts
/// stable.
pub const POS_SLOP: i64 = 8;

/// A vector with every component saturated to the representable range.
pub open spec fn vclip(v: Vec3) -> Vec3 {
    Vec3 { x: clip(v.x as int) as i64, y: clip(v.y as int) as i64, z: clip(v.z as int) as i64 }
}

/// Executable [`vclip`].
pub fn vclip_exec(v: Vec3) -> (r: Vec3)
    ensures
        r == vclip(v),
        v_fits(r),
{
    Vec3 {
        x: crate::fx::fx_clip(v.x),
        y: crate::fx::fx_clip(v.y),
        z: crate::fx::fx_clip(v.z),
    }
}

/// The body a collider slot's parent handle points at, if any.
pub open spec fn parent_of(cols: Seq<Slot<Collider>>, h: Handle) -> Option<Handle> {
    if 0 <= (h.index as int) < cols.len() && cols[h.index as int].value is Some {
        cols[h.index as int].value.unwrap().parent
    } else {
        Option::None
    }
}

/// Inverse mass seen through an optional body handle: absent bodies weigh
/// like static ones.
pub open spec fn opt_inv_mass(bodies: Seq<Slot<RigidBody>>, p: Option<Handle>) -> int {
    match p {
        Option::Some(h) => if 0 <= (h.index as int) < bodies.len() && bodies[h.index as int].value
            is Some {
            bodies[h.index as int].value.unwrap().inv_mass as int
        } else {
            0
        },
        Option::None => 0,
    }
}

/// Velocity seen through an optional body handle.
pub open spec fn opt_vel(bodies: Seq<Slot<RigidBody>>, p: Option<Handle>) -> Vec3 {
    match p {
        Option::Some(h) => if 0 <= (h.index as int) < bodies.len() && bodies[h.index as int].value
            is Some {
            bodies[h.index as int].value.unwrap().vel
        } else {
            Vec3 { x: 0i64, y: 0i64, z: 0i64 }
        },
        Option::None => Vec3 { x: 0i64, y: 0i64, z: 0i64 },
    }
}

/// Restitution seen through an optional body handle.
pub open spec fn opt_restitution(bodies: Seq<Slot<RigidBody>>, p: Option<Handle>) -> int {
    match p {
        Option::Some(h) => if 0 <= (h.index as int) < bodies.len() && bodies[h.index as int].value
            is Some {
            bodies[h.index as int].value.unwrap().restitution as int
        } else {
            0
        },
        Option::None => 0,
    }
}

/// The body store with one body's velocity replaced, when the handle points
/// at a stored body.
pub open spec fn with_vel(bodies: Seq<Slot<RigidBody>>, p: Option<Handle>, v: Vec3) -> Seq<
    Slot<RigidBody>,
> {
    match p {
        Option::Some(h) => if 0 <= (h.index as int) < bodies.len() && bodies[h.index as int].value
            is Some {
            bodies.update(
                h.index as int,
                Slot {
                    generation: bodies[h.index as int].generation,
                    value: Option::Some(
                        RigidBody { vel: v, ..bodies[h.index as int].value.unwrap() },
                    ),
                },
            )
        } else {
            bodies
        },
        Option::None => bodies,
    }
}

/// The body store with one body's position replaced.
pub open spec fn with_pos(bodies: Seq<Slot<RigidBody>>, p: Option<Handle>, x: Vec3) -> Seq<
    Slot<RigidBody>,
> {
    match p {
        Option::Some(h) => if 0 <= (h.index as int) < bodies.len() && bodies[h.index as int].value
            is Some {
            bodies.update(
                h.index as int,
                Slot {
                    generation: bodies[h.index as int].generation,
                    value: Option::Some(
                        RigidBody { pos: x, ..bodies[h.index as int].value.unwrap() },
                    ),
                },
            )
        } else {
            bodies
        },
        Option::None => bodies,
    }
}

/// Position seen through an optional body handle.
pub open spec fn opt_pos(bodies: Seq<Slot<RigidBody>>, p: Option<Handle>) -> Vec3 {
    match p {
        Option::Some(h) => if 0 <= (h.index as int) < bodies.len() && bodies[h.index as int].value
            is Some {
            bodies[h.index as int].value.unwrap().pos
        } else {
            Vec3 { x: 0i64, y: 0i64, z: 0i64 }
        },
        Option::None => Vec3 { x: 0i64, y: 0i64, z: 0i64 },
    }
}

/// Accumulated impulse clamped into the friction-free contact cone: never
/// pulling, never past the representable range.
pub open spec fn clamp_acc(x: int) -> int {
    if x < 0 {
        0
    } else if x > FX_MAX as int {
        FX_MAX as int
    } else {
        x
    }
}

/// One Gauss-Seidel update of one contact: measure the relative normal
/// velocity, take the impulse that drives it to the restitution target,
/// clamp the accumulated impulse, and apply the difference to both bodies.
/// Returns the new body store and accumulated impulse.
pub open spec fn solve_contact(
    bodies: Seq<Slot<RigidBody>>,
    cols: Seq<Slot<Collider>>,
    m: Manifold,
    acc: int,
    bias: int,
) -> (Seq<Slot<RigidBody>>, int) {
    if m.contact is None {
        (bodies, acc)
    } else {
        let pa = parent_of(cols, m.collider_a);
        let pb = parent_of(cols, m.collider_b);
        let n = vclip(m.contact.unwrap().normal);
        let ima = opt_inv_mass(bodies, pa);
        let imb = opt_inv_mass(bodies, pb);
        let k = ima + imb;
        if k == 0 {
            (bodies, acc)
        } else {
            let rel = v_sub_spec(opt_vel(bodies, pb), opt_vel(bodies, pa));
            let vn = v_dot_spec(n, rel);
            let lambda = clip(tdiv((bias - vn) * (FX_ONE as int), k));
            let acc2 = clamp_acc(acc + lambda);
            let d = acc2 - acc;
            let va2 = v_sub_spec(opt_vel(bodies, pa), v_scale_spec(n, cmul(d, ima)));
            let vb2 = v_add_spec(opt_vel(bodies, pb), v_scale_spec(n, cmul(d, imb)));
            let b1 = with_vel(bodies, pa, va2);
            let b2 = with_vel(b1, pb, vb2);
            (b2, acc2)
        }
    }
}

/// The restitution bias of one contact, from the approach speed before the
/// solve: a separating or resting pair gets no bounce.
pub open spec fn contact_bias(
    bodies: Seq<Slot<RigidBody>>,
    cols: Seq<Slot<Collider>>,
    m: Manifold,
) -> int {
    if m.contact is None {
        0
    } else {
        let pa = parent_of(cols, m.collider_a);
        let pb = parent_of(cols, m.collider_b);
        let n = vclip(m.contact.unwrap().normal);
        let rel = v_sub_spec(opt_vel(bodies, pb), opt_vel(bodies, pa));
        let vn = v_dot_spec(n, rel);
        let ra = opt_restitution(bodies, pa);
        let rb = opt_restitution(bodies, pb);
        let e = if ra >= rb {
            ra
        } else {
            rb
        };
        if vn < 0 {
            cmul(e, -vn)
        } else {
            0
        }
    }
}

/// Warm start of one contact: the previous step's accumulated impulse is
/// applied up front, so iterations refine instead of rebuilding it.
pub open spec fn warm_start_contact(
    bodies: Seq<Slot<RigidBody>>,
    cols: Seq<Slot<Collider>>,
    m: Manifold,
) -> Seq<Slot<RigidBody>> {
    if m.contact is None {
        bodies
    } else {
        let pa = parent_of(cols, m.collider_a);
        let pb = parent_of(cols, m.collider_b);
        let n = vclip(m.contact.unwrap().normal);
        let ima = opt_inv_mass(bodies, pa);
        let imb = opt_inv_mass(bodies, pb);
        let d = m.warm_impulse as int;
        let va2 = v_sub_spec(opt_vel(bodies, pa), v_scale_spec(n, cmul(d, ima)));
        let vb2 = v_add_spec(opt_vel(bodies, pb), v_scale_spec(n, cmul(d, imb)));
        with_vel(with_vel(bodies, pa, va2), pb, vb2)
    }
}

/// One joint axis update: the impulse that zeroes the locked axis's
/// relative velocity, split by inverse mass.
pub open spec fn solve_joint_axis(dv: int, va: int, vb: int, ima: int, imb: int) -> (int, int) {
    let k = ima + imb;
    if k == 0 {
        (va, vb)
    } else {
        let j = clip(tdiv(dv * (FX_ONE as int), k));
        (clip(va + cmul(j, ima)), clip(vb - cmul(j, imb)))
    }
}

/// One Gauss-Seidel update of one joint: every locked axis of the relative
/// linear velocity is driven to zero.
pub open spec fn solve_joint(bodies: Seq<Slot<RigidBody>>, j: Joint) -> Seq<Slot<RigidBody>> {
    let pa = Option::Some(j.body_a);
    let pb = Option::Some(j.body_b);
    let va = opt_vel(bodies, pa);
    let vb = opt_vel(bodies, pb);
    let ima = opt_inv_mass(bodies, pa);
    let imb = opt_inv_mass(bodies, pb);
    let dv = v_sub_spec(vb, va);
    let (vax, vbx) = if joint_locks_axis(j.kind, Axis::X) {
        solve_joint_axis(dv.x as int, va.x as int, vb.x as int, ima, imb)
    } else {
        (va.x as int, vb.x as int)
    };
    let (vay, vby) = if joint_locks_axis(j.kind, Axis::Y) {
        solve_joint_axis(dv.y as int, va.y as int, vb.y as int, ima, imb)
    } else {
        (va.y as int, vb.y as int)
    };
    let (vaz, vbz) = if joint_locks_axis(j.kind, Axis::Z) {
        solve_joint_axis(dv.z as int, va.z as int, vb.z as int, ima, imb)
    } else {
        (va.z as int, vb.z as int)
    };
    let va2 = Vec3 { x: vax as i64, y: vay as i64, z: vaz as i64 };
    let vb2 = Vec3 { x: vbx as i64, y: vby as i64, z: vbz as i64 };
    with_vel(with_vel(bodies, pa, va2), pb, vb2)
}

/// Position correction of one contact: both bodies move apart along the
/// normal by a fraction of the tolerated-excess penetration, split by
/// inverse mass. Velocities are untouched.
pub open spec fn correct_contact(
    bodies: Seq<Slot<RigidBody>>,
    cols: Seq<Slot<Collider>>,
    m: Manifold,
) -> Seq<Slot<RigidBody>> {
    if m.contact is None {
        bodies
    } else {
        let pa = parent_of(cols, m.collider_a);
        let pb = parent_of(cols, m.collider_b);
        let n = vclip(m.contact.unwrap().normal);
        let ima = opt_inv_mass(bodies, pa);
        let imb = opt_inv_mass(bodies, pb);
        let k = ima + imb;
        let depth = clip(m.contact.unwrap().depth as int);
        let excess = if depth > POS_SLOP as int {
            depth - POS_SLOP as int
        } else {
            0
        };
        let corr = cmul(POS_BETA as int, excess);
        if k == 0 {
            bodies
        } else {
            let sa = tdiv(corr * ima, k);
            let sb = tdiv(corr * imb, k);
            let xa2 = v_sub_spec(opt_pos(bodies, pa), v_scale_spec(n, clip(sa)));
            let xb2 = v_add_spec(opt_pos(bodies, pb), v_scale_spec(n, clip(sb)));
            with_pos(with_pos(bodies, pa, xa2), pb, xb2)
        }
    }
}

/// Two equal unit-inverse-mass bodies meeting head-on along the contact
/// normal with restitution one exchange their velocities exactly: one
/// Gauss-Seidel update from a cold start swaps the normal components and
/// leaves the tangential ones alone.
pub proof fn lemma_elastic_head_on_swap(
    bodies: Seq<Slot<RigidBody>>,
    cols: Seq<Slot<Collider>>,
    m: Manifold,
)
    requires
        m.contact is Some,
        m.contact.unwrap().normal == (Vec3 { x: FX_ONE, y: 0i64, z: 0i64 }),
        parent_of(cols, m.collider_a) is Some,
        parent_of(cols, m.collider_b) is Some,
        opt_inv_mass(bodies, parent_of(cols, m.collider_a)) == FX_ONE as int,
        opt_inv_mass(bodies, parent_of(cols, m.collider_b)) == FX_ONE as int,
        opt_restitution(bodies, parent_of(cols, m.collider_a)) == FX_ONE as int,
        opt_restitution(bodies, parent_of(cols, m.collider_b)) == FX_ONE as int,
        parent_of(cols, m.collider_a).unwrap().index != parent_of(cols, m.collider_b).unwrap().index,
        v_fits(opt_vel(bodies, parent_of(cols, m.collider_a))),
        v_fits(opt_vel(bodies, parent_of(cols, m.collider_b))),
        // approaching along the normal, within solver range
        opt_vel(bodies, parent_of(cols, m.collider_b)).x
            < opt_vel(bodies, parent_of(cols, m.collider_a)).x,
        opt_vel(bodies, parent_of(cols, m.collider_b)).x - opt_vel(
            bodies,
            parent_of(cols, m.collider_a),
        ).x >= -(FX_MAX as int),
    ensures
        ({
            let pa = parent_of(cols, m.collider_a);
            let pb = parent_of(cols, m.collider_b);
            let out = solve_contact(bodies, cols, m, 0, contact_bias(bodies, cols, m)).0;
            &&& opt_vel(out, pa).x == opt_vel(bodies, pb).x
            &&& opt_vel(out, pb).x == opt_vel(bodies, pa).x
            &&& opt_vel(out, pa).y == opt_vel(bodies, pa).y
            &&& opt_vel(out, pa).z == opt_vel(bodies, pa).z
            &&& opt_vel(out, pb).y == opt_vel(bodies, pb).y
            &&& opt_vel(out, pb).z == opt_vel(bodies, pb).z
        }),
{
    let pa = parent_of(cols, m.collider_a);
    let pb = parent_of(cols, m.collider_b);
    let va = opt_vel(bodies, pa);
    let vb = opt_vel(bodies, pb);
    let n = vclip(m.contact.unwrap().normal);
    assert(n == m.contact.unwrap().normal);
    let rel = v_sub_spec(vb, va);
    lemma_cmul_one(rel.x as int);
    let vn = v_dot_spec(n, rel);
    assert(cmul(n.y as int, rel.y as int) == 0 && cmul(n.z as int, rel.z as int) == 0) by {
        lemma_cmul_zero(rel.y as int);
        lemma_cmul_zero(rel.z as int);
    }
    assert(vn == rel.x as int);
    assert(rel.x as int == vb.x - va.x);
    let e = FX_ONE as int;
    lemma_cmul_one(-vn);
    let bias = contact_bias(bodies, cols, m);
    assert(bias == -vn);
    let k = 2 * (FX_ONE as int);
    let lambda = clip(tdiv((bias - vn) * (FX_ONE as int), k));
    assert(tdiv((-2 * vn) * (FX_ONE as int), 2 * (FX_ONE as int)) == -vn) by (nonlinear_arith)
        requires
            vn < 0,
            -4_000_000_000 <= vn,
            FX_ONE == 1024i64,
    ;
    assert(lambda == clip(-vn));
    assert(0 < -vn <= 4_000_000_000);
    let acc2 = clamp_acc(0 + lambda);
    let d = acc2 - 0;
    if -vn > FX_MAX as int {
        assert(d == FX_MAX as int);
    } else {
        assert(d == -vn);
    }
    assert(-vn <= FX_MAX as int) by {
        assert(va.x <= FX_MAX as int && vb.x >= -(FX_MAX as int));
        assert(rel.x as int == clip(vb.x - va.x));
    }
    assert(d == -vn);
    lemma_cmul_one(d);
    let dvec = v_scale_spec(n, cmul(d, FX_ONE as int));
    assert(dvec.x as int == d && dvec.y == 0 && dvec.z == 0) by {
        lemma_cmul_one(d);
        lemma_cmul_zero_left(d);
    }
    let va2 = v_sub_spec(va, dvec);
    let vb2 = v_add_spec(vb, dvec);
    assert(va2.x as int == clip(va.x - d));
    assert(va.x - d == va.x + vn);
    assert(vn == vb.x - va.x);
    assert(va2.x as int == clip(vb.x as int) && clip(vb.x as int) == vb.x as int);
    assert(vb2.x as int == clip(vb.x + d) && vb.x + d == va.x as int);
    assert(va2.y == va.y && va2.z == va.z && vb2.y == vb.y && vb2.z == vb.z);
    let out = solve_contact(bodies, cols, m, 0, bias).0;
    let b1 = with_vel(bodies, pa, va2);
    assert(opt_vel(b1, pb) == vb);
    assert(out == with_vel(b1, pb, vb2));
    assert(opt_vel(out, pb) == vb2);
    assert(opt_vel(out, pa) == va2);
}

/// `cmul` by the fixed-point unit is the identity on in-range scalars.
proof fn lemma_cmul_one(x: int)
    requires
        -4_000_000_000 <= x <= 4_000_000_000,
    ensures
        cmul(FX_ONE as int, x) == clip(x),
        cmul(x, FX_ONE as int) == clip(x),
{
    assert(x * (FX_ONE as int) == (FX_ONE as int) * x && tdiv(x * (FX_ONE as int), FX_ONE as int)
        == x) by (nonlinear_arith)
        requires
            FX_ONE == 1024i64,
            -4_000_000_000 <= x <= 4_000_000_000,
    ;
}

/// `cmul` with a zero factor is zero.
proof fn lemma_cmul_zero(x: int)
    ensures
        cmul(0, x) == 0,
{
    assert(0 * x == 0) by (nonlinear_arith);
}

proof fn lemma_cmul_zero_left(x: int)
    ensures
        cmul(x, 0) == 0,
        cmul(0, x) == 0,
{
    assert(x * 0 == 0 && 0 * x == 0) by (nonlinear_arith);
}

/// A contact whose relative normal velocity already meets its target takes
/// no further impulse: iterating the solver past convergence changes
/// nothing, which is why warm-started impulses cost no extra passes.
pub proof fn lemma_converged_contact_stable(
    bodies: Seq<Slot<RigidBody>>,
    cols: Seq<Slot<Collider>>,
    m: Manifold,
    acc: int,
    bias: int,
)
    requires
        m.contact is Some,
        0 <= acc <= FX_MAX as int,
        ({
            let pa = parent_of(cols, m.collider_a);
            let pb = parent_of(cols, m.collider_b);
            let n = vclip(m.contact.unwrap().normal);
            let rel = v_sub_spec(opt_vel(bodies, pb), opt_vel(bodies, pa));
            v_dot_spec(n, rel) == bias
        }),
        v_fits(opt_vel(bodies, parent_of(cols, m.collider_a))),
        v_fits(opt_vel(bodies, parent_of(cols, m.collider_b))),
    ensures
        solve_contact(bodies, cols, m, acc, bias).1 == acc,
        ({
            let pa = parent_of(cols, m.collider_a);
            let pb = parent_of(cols, m.collider_b);
            let out = solve_contact(bodies, cols, m, acc, bias).0;
            opt_vel(out, pa) == opt_vel(bodies, pa) && opt_vel(out, pb) == opt_vel(bodies, pb)
        }),
{
    let pa = parent_of(cols, m.collider_a);
    let pb = parent_of(cols, m.collider_b);
    let n = vclip(m.contact.unwrap().normal);
    let ima = opt_inv_mass(bodies, pa);
    let imb = opt_inv_mass(bodies, pb);
    let k = ima + imb;
    let va = opt_vel(bodies, pa);
    let vb = opt_vel(bodies, pb);
    if k != 0 {
        let rel = v_sub_spec(vb, va);
        let vn = v_dot_spec(n, rel);
        assert((bias - vn) * (FX_ONE as int) == 0 && tdiv(0, k) == 0) by (nonlinear_arith)
            requires
                bias == vn,
                k != 0,
        ;
        let lambda = clip(tdiv((bias - vn) * (FX_ONE as int), k));
        assert(lambda == 0);
        let acc2 = clamp_acc(acc + 0);
        assert(acc2 == acc);
        let d = acc2 - acc;
        assert(d == 0);
        lemma_solve_zero_delta(bodies, cols, m, pa, pb, n, ima, imb);
        let out = solve_contact(bodies, cols, m, acc, bias).0;
        let b1 = with_vel(bodies, pa, va);
        assert(out == with_vel(b1, pb, vb));
        assert(opt_vel(b1, pa) == va);
        assert(opt_vel(b1, pb) == vb);
        assert(opt_vel(out, pb) == vb);
        assert(opt_vel(out, pa) == va);
    }
}

/// Applying a zero impulse difference leaves both velocities untouched.
proof fn lemma_solve_zero_delta(
    bodies: Seq<Slot<RigidBody>>,
    cols: Seq<Slot<Collider>>,
    m: Manifold,
    pa: Option<Handle>,
    pb: Option<Handle>,
    n: Vec3,
    ima: int,
    imb: int,
)
    requires
        v_fits(opt_vel(bodies, pa)),
        v_fits(opt_vel(bodies, pb)),
    ensures
        v_sub_spec(opt_vel(bodies, pa), v_scale_spec(n, cmul(0, ima))) == opt_vel(bodies, pa),
        v_add_spec(opt_vel(bodies, pb), v_scale_spec(n, cmul(0, imb))) == opt_vel(bodies, pb),
{
    lemma_cmul_zero(ima);
    lemma_cmul_zero(imb);
    lemma_cmul_zero_left(n.x as int);
    lemma_cmul_zero_left(n.y as int);
    lemma_cmul_zero_left(n.z as int);
}

/// Restitution biases of every manifold, from pre-solve velocities.
pub open spec fn all_biases(
    bodies: Seq<Slot<RigidBody>>,
    cols: Seq<Slot<Collider>>,
    ms: Seq<Manifold>,
) -> Seq<i64> {
    Seq::new(ms.len(), |k: int| contact_bias(bodies, cols, ms[k]) as i64)
}

/// Warm start applied to the first `k` manifolds.
pub open spec fn warm_upto(
    bodies: Seq<Slot<RigidBody>>,
    cols: Seq<Slot<Collider>>,
    ms: Seq<Manifold>,
    k: int,
) -> Seq<Slot<RigidBody>>
    decreases k,
{
    if k <= 0 {
        bodies
    } else {
        warm_start_contact(warm_upto(bodies, cols, ms, k - 1), cols, ms[k - 1])
    }
}

/// One velocity pass over the first `k` contacts.
pub open spec fn contacts_upto(
    bodies: Seq<Slot<RigidBody>>,
    cols: Seq<Slot<Collider>>,
    ms: Seq<Manifold>,
    accs: Seq<i64>,
    biases: Seq<i64>,
    k: int,
) -> (Seq<Slot<RigidBody>>, Seq<i64>)
    decreases k,
{
    if k <= 0 {
        (bodies, accs)
    } else {
        let prev = contacts_upto(bodies, cols, ms, accs, biases, k - 1);
        let step = solve_contact(prev.0, cols, ms[k - 1], prev.1[k - 1] as int, biases[k - 1] as int);
        (step.0, prev.1.update(k - 1, step.1 as i64))
    }
}

/// One velocity pass over the first `k` joint slots.
pub open spec fn joints_upto(
    bodies: Seq<Slot<RigidBody>>,
    joints: Seq<Slot<Joint>>,
    k: int,
) -> Seq<Slot<RigidBody>>
    decreases k,
{
    if k <= 0 {
        bodies
    } else {
        let prev = joints_upto(bodies, joints, k - 1);
        match joints[k - 1].value {
            Option::Some(j) => solve_joint(prev, j),
            Option::None => prev,
        }
    }
}

/// One full velocity iteration: contacts in manifold order, then joints in
/// slot order.
pub open spec fn velocity_iter(
    bodies: Seq<Slot<RigidBody>>,
    cols: Seq<Slot<Collider>>,
    joints: Seq<Slot<Joint>>,
    ms: Seq<Manifold>,
    accs: Seq<i64>,
    biases: Seq<i64>,
) -> (Seq<Slot<RigidBody>>, Seq<i64>) {
    let c = contacts_upto(bodies, cols, ms, accs, biases, ms.len() as int);
    (joints_upto(c.0, joints, joints.len() as int), c.1)
}

/// `t` velocity iterations.
pub open spec fn velocity_iters(
    bodies: Seq<Slot<RigidBody>>,
    cols: Seq<Slot<Collider>>,
    joints: Seq<Slot<Joint>>,
    ms: Seq<Manifold>,
    accs: Seq<i64>,
    biases: Seq<i64>,
    t: int,
) -> (Seq<Slot<RigidBody>>, Seq<i64>)
    decreases t,
{
    if t <= 0 {
        (bodies, accs)
    } else {
        let prev = velocity_iters(bodies, cols, joints, ms, accs, biases, t - 1);
        velocity_iter(prev.0, cols, joints, ms, prev.1, biases)
    }
}

/// Position correction of one joint: both bodies move along each locked
/// axis by a fraction of the offset error, split by inverse mass.
pub open spec fn correct_joint(bodies: Seq<Slot<RigidBody>>, j: Joint) -> Seq<Slot<RigidBody>> {
    let pa = Option::Some(j.body_a);
    let pb = Option::Some(j.body_b);
    let xa = opt_pos(bodies, pa);
    let xb = opt_pos(bodies, pb);
    let ima = opt_inv_mass(bodies, pa);
    let imb = opt_inv_mass(bodies, pb);
    let k = ima + imb;
    if k == 0 {
        bodies
    } else {
        let ex = clip(clip(xb.x - xa.x) - j.rest_offset.x);
        let ey = clip(clip(xb.y - xa.y) - j.rest_offset.y);
        let ez = clip(clip(xb.z - xa.z) - j.rest_offset.z);
        let cx = if joint_locks_axis(j.kind, Axis::X) {
            cmul(POS_BETA as int, ex)
        } else {
            0
        };
        let cy = if joint_locks_axis(j.kind, Axis::Y) {
            cmul(POS_BETA as int, ey)
        } else {
            0
        };
        let cz = if joint_locks_axis(j.kind, Axis::Z) {
            cmul(POS_BETA as int, ez)
        } else {
            0
        };
        let xa2 = Vec3 {
            x: clip(xa.x + tdiv(cx * ima, k)) as i64,
            y: clip(xa.y + tdiv(cy * ima, k)) as i64,
            z: clip(xa.z + tdiv(cz * ima, k)) as i64,
        };
        let xb2 = Vec3 {
            x: clip(xb.x - tdiv(cx * imb, k)) as i64,
            y: clip(xb.y - tdiv(cy * imb, k)) as i64,
            z: clip(xb.z - tdiv(cz * imb, k)) as i64,
        };
        with_pos(with_pos(bodies, pa, xa2), pb, xb2)
    }
}

/// Position pass over the first `k` contacts.
pub open spec fn correct_contacts_upto(
    bodies: Seq<Slot<RigidBody>>,
    cols: Seq<Slot<Collider>>,
    ms: Seq<Manifold>,
    k: int,
) -> Seq<Slot<RigidBody>>
    decreases k,
{
    if k <= 0 {
        bodies
    } else {
        correct_contact(correct_contacts_upto(bodies, cols, ms, k - 1), cols, ms[k - 1])
    }
}

/// Position pass over the first `k` joint slots.
pub open spec fn correct_joints_upto(
    bodies: Seq<Slot<RigidBody>>,
    joints: Seq<Slot<Joint>>,
    k: int,
) -> Seq<Slot<RigidBody>>
    decreases k,
{
    if k <= 0 {
        bodies
    } else {
        let prev = correct_joints_upto(bodies, joints, k - 1);
        match joints[k - 1].value {
            Option::Some(j) => correct_joint(prev, j),
            Option::None => prev,
        }
    }
}

/// The manifolds with this step's accumulated impulses stored for the next
/// step's warm start.
pub open spec fn store_impulses(ms: Seq<Manifold>, accs: Seq<i64>) -> Seq<Manifold> {
    Seq::new(ms.len(), |k: int| Manifold { warm_impulse: accs[k], ..ms[k] })
}

/// The whole solver stage as a function of its inputs.
pub open spec fn solve_spec(
    bodies: Seq<Slot<RigidBody>>,
    cols: Seq<Slot<Collider>>,
    joints: Seq<Slot<Joint>>,
    ms: Seq<Manifold>,
    iters: int,
    warm: bool,
) -> (Seq<Slot<RigidBody>>, Seq<Manifold>) {
    let biases = all_biases(bodies, cols, ms);
    let accs0 = Seq::new(ms.len(), |k: int| if warm { ms[k].warm_impulse } else { 0i64 });
    let b1 = if warm {
        warm_upto(bodies, cols, ms, ms.len() as int)
    } else {
        bodies
    };
    let it = velocity_iters(b1, cols, joints, ms, accs0, biases, iters);
    let b2 = correct_contacts_upto(it.0, cols, ms, ms.len() as int);
    let b3 = correct_joints_upto(b2, joints, joints.len() as int);
    (b3, store_impulses(ms, it.1))
}

/// Every stored body is well-formed.
pub open spec fn bodies_ok(s: Seq<Slot<RigidBody>>) -> bool {
    forall|k: int|
        0 <= k < s.len() && (#[trigger] s[k]).value is Some ==> body_valid(s[k].value.unwrap())
}

/// Every stored joint is well-formed.
pub open spec fn joints_ok(s: Seq<Slot<Joint>>) -> bool {
    forall|k: int|
        0 <= k < s.len() && (#[trigger] s[k]).value is Some ==> crate::joint::joint_valid(
            s[k].value.unwrap(),
        )
}

/// Replacing a velocity or position with an in-range one keeps the store
/// well-formed.
proof fn lemma_with_vel_ok(bodies: Seq<Slot<RigidBody>>, p: Option<Handle>, v: Vec3)
    requires
        bodies_ok(bodies),
        v_fits(v),
    ensures
        bodies_ok(with_vel(bodies, p, v)),
        with_vel(bodies, p, v).len() == bodies.len(),
        forall|k: int|
            0 <= k < bodies.len() ==> (#[trigger] with_vel(bodies, p, v)[k]).generation
                == bodies[k].generation && (with_vel(bodies, p, v)[k].value is Some <==> bodies[k].value
                is Some),
{
    let out = with_vel(bodies, p, v);
    assert forall|k: int| 0 <= k < out.len() && (#[trigger] out[k]).value is Some implies
        body_valid(out[k].value.unwrap()) by {
        assert(bodies[k].value is Some);
    }
}

proof fn lemma_with_pos_ok(bodies: Seq<Slot<RigidBody>>, p: Option<Handle>, x: Vec3)
    requires
        bodies_ok(bodies),
        v_fits(x),
    ensures
        bodies_ok(with_pos(bodies, p, x)),
        with_pos(bodies, p, x).len() == bodies.len(),
        forall|k: int|
            0 <= k < bodies.len() ==> (#[trigger] with_pos(bodies, p, x)[k]).generation
                == bodies[k].generation && (with_pos(bodies, p, x)[k].value is Some <==> bodies[k].value
                is Some),
{
    let out = with_pos(bodies, p, x);
    assert forall|k: int| 0 <= k < out.len() && (#[trigger] out[k]).value is Some implies
        body_valid(out[k].value.unwrap()) by {
        assert(bodies[k].value is Some);
    }
}

/// Executable parent lookup through a collider handle.
fn parent_exec(cols: &Arena<Collider>, h: Handle) -> (r: Option<Handle>)
    ensures
        r == parent_of(cols.slots@, h),
{
    let n: usize = cols.slot_count();
    if h.index >= n {
        return Option::None;
    }
    match cols.value_at(h.index) {
        Option::Some(c) => c.parent,
        Option::None => Option::None,
    }
}

/// Executable velocity read through an optional handle.
fn vel_exec(bodies: &Arena<RigidBody>, p: Option<Handle>) -> (r: Vec3)
    requires
        bodies_ok(bodies.slots@),
    ensures
        r == opt_vel(bodies.slots@, p),
        v_fits(r),
{
    match p {
        Option::Some(h) => {
            let n: usize = bodies.slot_count();
            if h.index >= n {
                return Vec3 { x: 0, y: 0, z: 0 };
            }
            match bodies.value_at(h.index) {
                Option::Some(b) => b.vel,
                Option::None => Vec3 { x: 0, y: 0, z: 0 },
            }
        },
        Option::None => Vec3 { x: 0, y: 0, z: 0 },
    }
}

/// Executable position read through an optional handle.
fn pos_exec(bodies: &Arena<RigidBody>, p: Option<Handle>) -> (r: Vec3)
    requires
        bodies_ok(bodies.slots@),
    ensures
        r == opt_pos(bodies.slots@, p),
        v_fits(r),
{
    match p {
        Option::Some(h) => {
            let n: usize = bodies.slot_count();
            if h.index >= n {
                return Vec3 { x: 0, y: 0, z: 0 };
            }
            match bodies.value_at(h.index) {
                Option::Some(b) => b.pos,
                Option::None => Vec3 { x: 0, y: 0, z: 0 },
            }
        },
        Option::None => Vec3 { x: 0, y: 0, z: 0 },
    }
}

/// Executable inverse-mass read through an optional handle.
fn inv_mass_exec(bodies: &Arena<RigidBody>, p: Option<Handle>) -> (r: i64)
    requires
        bodies_ok(bodies.slots@),
    ensures
        r as int == opt_inv_mass(bodies.slots@, p),
        0 <= r <= FX_MAX,
{
    match p {
        Option::Some(h) => {
            let n: usize = bodies.slot_count();
            if h.index >= n {
                return 0;
            }
            match bodies.value_at(h.index) {
                Option::Some(b) => b.inv_mass,
                Option::None => 0,
            }
        },
        Option::None => 0,
    }
}

/// Executable restitution read through an optional handle.
fn restitution_exec(bodies: &Arena<RigidBody>, p: Option<Handle>) -> (r: i64)
    requires
        bodies_ok(bodies.slots@),
    ensures
        r as int == opt_restitution(bodies.slots@, p),
        0 <= r <= FX_MAX,
{
    match p {
        Option::Some(h) => {
            let n: usize = bodies.slot_count();
            if h.index >= n {
                return 0;
            }
            match bodies.value_at(h.index) {
                Option::Some(b) => b.restitution,
                Option::None => 0,
            }
        },
        Option::None => 0,
    }
}

/// Executable velocity write through an optional handle.
fn set_vel_exec(bodies: &mut Arena<RigidBody>, p: Option<Handle>, v: Vec3)
    requires
        bodies_ok(old(bodies).slots@),
        v_fits(v),
    ensures
        final(bodies).slots@ == with_vel(old(bodies).slots@, p, v),
        bodies_ok(final(bodies).slots@),
{
    proof {
        lemma_with_vel_ok(old(bodies).slots@, p, v);
    }
    match p {
        Option::Some(h) => {
            let n: usize = bodies.slot_count();
            if h.index >= n {
                return ;
            }
            let cur: Option<RigidBody> = match bodies.value_at(h.index) {
                Option::Some(b) => Option::Some(*b),
                Option::None => Option::None,
            };
            match cur {
                Option::Some(b) => {
                    bodies.update_at(h.index, RigidBody { vel: v, ..b });
                },
                Option::None => {},
            }
        },
        Option::None => {},
    }
}

/// Executable position write through an optional handle.
fn set_pos_exec(bodies: &mut Arena<RigidBody>, p: Option<Handle>, x: Vec3)
    requires
        bodies_ok(old(bodies).slots@),
        v_fits(x),
    ensures
        final(bodies).slots@ == with_pos(old(bodies).slots@, p, x),
        bodies_ok(final(bodies).slots@),
{
    proof {
        lemma_with_pos_ok(old(bodies).slots@, p, x);
    }
    match p {
        Option::Some(h) => {
            let n: usize = bodies.slot_count();
            if h.index >= n {
                return ;
            }
            let cur: Option<RigidBody> = match bodies.value_at(h.index) {
                Option::Some(b) => Option::Some(*b),
                Option::None => Option::None,
            };
            match cur {
                Option::Some(b) => {
                    bodies.update_at(h.index, RigidBody { pos: x, ..b });
                },
                Option::None => {},
            }
        },
        Option::None => {},
    }
}

/// Executable restitution bias of one contact.
fn contact_bias_exec(bodies: &Arena<RigidBody>, cols: &Arena<Collider>, m: &Manifold) -> (r: i64)
    requires
        bodies_ok(bodies.slots@),
    ensures
        r as int == contact_bias(bodies.slots@, cols.slots@, *m),
        fits(r as int),
{
    match m.contact {
        Option::None => 0,
        Option::Some(c) => {
            let pa = parent_exec(cols, m.collider_a);
            let pb = parent_exec(cols, m.collider_b);
            let n = vclip_exec(c.normal);
            let va = vel_exec(bodies, pa);
            let vb = vel_exec(bodies, pb);
            let vn: i64 = n.dot(vb.sub(va));
            let ra = restitution_exec(bodies, pa);
            let rb = restitution_exec(bodies, pb);
            let e: i64 = if ra >= rb {
                ra
            } else {
                rb
            };
            if vn < 0 {
                crate::fx::fx_mul(e, -vn)
            } else {
                0
            }
        },
    }
}

/// Executable warm start of one contact.
fn warm_start_contact_exec(bodies: &mut Arena<RigidBody>, cols: &Arena<Collider>, m: &Manifold)
    requires
        bodies_ok(old(bodies).slots@),
        0 <= m.warm_impulse <= FX_MAX,
    ensures
        final(bodies).slots@ == warm_start_contact(old(bodies).slots@, cols.slots@, *m),
        bodies_ok(final(bodies).slots@),
{
    match m.contact {
        Option::None => {},
        Option::Some(c) => {
            let pa = parent_exec(cols, m.collider_a);
            let pb = parent_exec(cols, m.collider_b);
            let n = vclip_exec(c.normal);
            let ima = inv_mass_exec(bodies, pa);
            let imb = inv_mass_exec(bodies, pb);
            let va = vel_exec(bodies, pa);
            let vb = vel_exec(bodies, pb);
            let va2 = va.sub(n.scale(crate::fx::fx_mul(m.warm_impulse, ima)));
            let vb2 = vb.add(n.scale(crate::fx::fx_mul(m.warm_impulse, imb)));
            set_vel_exec(bodies, pa, va2);
            set_vel_exec(bodies, pb, vb2);
        },
    }
}

/// Executable Gauss-Seidel update of one contact.
fn solve_contact_exec(
    bodies: &mut Arena<RigidBody>,
    cols: &Arena<Collider>,
    m: &Manifold,
    acc: i64,
    bias: i64,
) -> (r: i64)
    requires
        bodies_ok(old(bodies).slots@),
        0 <= acc <= FX_MAX,
        fits(bias as int),
    ensures
        final(bodies).slots@ == solve_contact(
            old(bodies).slots@,
            cols.slots@,
            *m,
            acc as int,
            bias as int,
        ).0,
        r as int == solve_contact(old(bodies).slots@, cols.slots@, *m, acc as int, bias as int).1,
        bodies_ok(final(bodies).slots@),
        0 <= r <= FX_MAX,
{
    match m.contact {
        Option::None => acc,
        Option::Some(c) => {
            let pa = parent_exec(cols, m.collider_a);
            let pb = parent_exec(cols, m.collider_b);
            let n = vclip_exec(c.normal);
            let ima = inv_mass_exec(bodies, pa);
            let imb = inv_mass_exec(bodies, pb);
            let k: i64 = ima + imb;
            if k == 0 {
                return acc;
            }
            let va = vel_exec(bodies, pa);
            let vb = vel_exec(bodies, pb);
            let vn: i64 = n.dot(vb.sub(va));
            let prod: i64 = (bias - vn) * FX_ONE;
            let lam: i64 = crate::fx::fx_clip(crate::geometry::div_signed(prod, k));
            let sum: i64 = acc + lam;
            let acc2: i64 = if sum < 0 {
                0
            } else if sum > FX_MAX {
                FX_MAX
            } else {
                sum
            };
            let d: i64 = acc2 - acc;
            let va2 = va.sub(n.scale(crate::fx::fx_mul(d, ima)));
            let vb2 = vb.add(n.scale(crate::fx::fx_mul(d, imb)));
            set_vel_exec(bodies, pa, va2);
            set_vel_exec(bodies, pb, vb2);
            acc2
        },
    }
}

/// Executable Gauss-Seidel update of one joint.
fn solve_joint_exec(bodies: &mut Arena<RigidBody>, j: &Joint)
    requires
        bodies_ok(old(bodies).slots@),
    ensures
        final(bodies).slots@ == solve_joint(old(bodies).slots@, *j),
        bodies_ok(final(bodies).slots@),
{
    let pa = Option::Some(j.body_a);
    let pb = Option::Some(j.body_b);
    let va = vel_exec(bodies, pa);
    let vb = vel_exec(bodies, pb);
    let ima = inv_mass_exec(bodies, pa);
    let imb = inv_mass_exec(bodies, pb);
    let k: i64 = ima + imb;
    let dv = vb.sub(va);
    let (vax, vbx): (i64, i64) = if joint_locks_exec(&j.kind, 0) && k != 0 {
        let jx = crate::fx::fx_clip(crate::geometry::div_signed(dv.x * FX_ONE, k));
        (
            crate::fx::fx_clip(va.x + crate::fx::fx_mul(jx, ima)),
            crate::fx::fx_clip(vb.x - crate::fx::fx_mul(jx, imb)),
        )
    } else {
        (va.x, vb.x)
    };
    let (vay, vby): (i64, i64) = if joint_locks_exec(&j.kind, 1) && k != 0 {
        let jy = crate::fx::fx_clip(crate::geometry::div_signed(dv.y * FX_ONE, k));
        (
            crate::fx::fx_clip(va.y + crate::fx::fx_mul(jy, ima)),
            crate::fx::fx_clip(vb.y - crate::fx::fx_mul(jy, imb)),
        )
    } else {
        (va.y, vb.y)
    };
    let (vaz, vbz): (i64, i64) = if joint_locks_exec(&j.kind, 2) && k != 0 {
        let jz = crate::fx::fx_clip(crate::geometry::div_signed(dv.z * FX_ONE, k));
        (
            crate::fx::fx_clip(va.z + crate::fx::fx_mul(jz, ima)),
            crate::fx::fx_clip(vb.z - crate::fx::fx_mul(jz, imb)),
        )
    } else {
        (va.z, vb.z)
    };
    let va2 = Vec3 { x: vax, y: vay, z: vaz };
    let vb2 = Vec3 { x: vbx, y: vby, z: vbz };
    set_vel_exec(bodies, pa, va2);
    set_vel_exec(bodies, pb, vb2);
}

/// Executable [`joint_locks_axis`], with 0, 1, 2 for x, y, z.
fn joint_locks_exec(kind: &JointKind, axis: u8) -> (r: bool)
    requires
        axis < 3,
    ensures
        axis == 0 ==> r == joint_locks_axis(*kind, Axis::X),
        axis == 1 ==> r == joint_locks_axis(*kind, Axis::Y),
        axis == 2 ==> r == joint_locks_axis(*kind, Axis::Z),
{
    match kind {
        JointKind::Fixed => true,
        JointKind::Prismatic { axis: free } => {
            let free_idx: u8 = match free {
                Axis::X => 0,
                Axis::Y => 1,
                Axis::Z => 2,
            };
            free_idx != axis
        },
    }
}

/// Executable position correction of one contact.
fn correct_contact_exec(bodies: &mut Arena<RigidBody>, cols: &Arena<Collider>, m: &Manifold)
    requires
        bodies_ok(old(bodies).slots@),
    ensures
        final(bodies).slots@ == correct_contact(old(bodies).slots@, cols.slots@, *m),
        bodies_ok(final(bodies).slots@),
{
    match m.contact {
        Option::None => {},
        Option::Some(c) => {
            let pa = parent_exec(cols, m.collider_a);
            let pb = parent_exec(cols, m.collider_b);
            let n = vclip_exec(c.normal);
            let ima = inv_mass_exec(bodies, pa);
            let imb = inv_mass_exec(bodies, pb);
            let k: i64 = ima + imb;
            let depth: i64 = crate::fx::fx_clip(c.depth);
            let excess: i64 = if depth > POS_SLOP {
                depth - POS_SLOP
            } else {
                0
            };
            let corr: i64 = crate::fx::fx_mul(POS_BETA, excess);
            if k == 0 {
                return ;
            }
            proof {
                assert((corr as int) * (ima as int) <= 4_000_000_000_000_000_000 && (corr as int)
                    * (ima as int) >= -4_000_000_000_000_000_000 && (corr as int) * (imb as int)
                    <= 4_000_000_000_000_000_000 && (corr as int) * (imb as int)
                    >= -4_000_000_000_000_000_000) by (nonlinear_arith)
                    requires
                        -2_000_000_000 <= corr as int <= 2_000_000_000,
                        0 <= ima as int <= 2_000_000_000,
                        0 <= imb as int <= 2_000_000_000,
                ;
            }
            let sa: i64 = crate::geometry::div_signed(corr * ima, k);
            let sb: i64 = crate::geometry::div_signed(corr * imb, k);
            let xa2 = pos_exec(bodies, pa).sub(n.scale(crate::fx::fx_clip(sa)));
            let xb2 = pos_exec(bodies, pb).add(n.scale(crate::fx::fx_clip(sb)));
            set_pos_exec(bodies, pa, xa2);
            set_pos_exec(bodies, pb, xb2);
        },
    }
}

/// Executable position correction of one joint.
fn correct_joint_exec(bodies: &mut Arena<RigidBody>, j: &Joint)
    requires
        bodies_ok(old(bodies).slots@),
        crate::joint::joint_valid(*j),
    ensures
        final(bodies).slots@ == correct_joint(old(bodies).slots@, *j),
        bodies_ok(final(bodies).slots@),
{
    let pa = Option::Some(j.body_a);
    let pb = Option::Some(j.body_b);
    let xa = pos_exec(bodies, pa);
    let xb = pos_exec(bodies, pb);
    let ima = inv_mass_exec(bodies, pa);
    let imb = inv_mass_exec(bodies, pb);
    let k: i64 = ima + imb;
    if k == 0 {
        return ;
    }
    let ex: i64 = crate::fx::fx_clip(crate::fx::fx_clip(xb.x - xa.x) - j.rest_offset.x);
    let ey: i64 = crate::fx::fx_clip(crate::fx::fx_clip(xb.y - xa.y) - j.rest_offset.y);
    let ez: i64 = crate::fx::fx_clip(crate::fx::fx_clip(xb.z - xa.z) - j.rest_offset.z);
    let cx: i64 = if joint_locks_exec(&j.kind, 0) {
        crate::fx::fx_mul(POS_BETA, ex)
    } else {
        0
    };
    let cy: i64 = if joint_locks_exec(&j.kind, 1) {
        crate::fx::fx_mul(POS_BETA, ey)
    } else {
        0
    };
    let cz: i64 = if joint_locks_exec(&j.kind, 2) {
        crate::fx::fx_mul(POS_BETA, ez)
    } else {
        0
    };
    proof {
        assert((cx as int) * (ima as int) <= 4_000_000_000_000_000_000 && (cx as int) * (
        ima as int) >= -4_000_000_000_000_000_000 && (cy as int) * (ima as int)
            <= 4_000_000_000_000_000_000 && (cy as int) * (ima as int)
            >= -4_000_000_000_000_000_000 && (cz as int) * (ima as int)
            <= 4_000_000_000_000_000_000 && (cz as int) * (ima as int)
            >= -4_000_000_000_000_000_000 && (cx as int) * (imb as int)
            <= 4_000_000_000_000_000_000 && (cx as int) * (imb as int)
            >= -4_000_000_000_000_000_000 && (cy as int) * (imb as int)
            <= 4_000_000_000_000_000_000 && (cy as int) * (imb as int)
            >= -4_000_000_000_000_000_000 && (cz as int) * (imb as int)
            <= 4_000_000_000_000_000_000 && (cz as int) * (imb as int)
            >= -4_000_000_000_000_000_000) by (nonlinear_arith)
            requires
                -2_000_000_000 <= cx as int <= 2_000_000_000,
                -2_000_000_000 <= cy as int <= 2_000_000_000,
                -2_000_000_000 <= cz as int <= 2_000_000_000,
                0 <= ima as int <= 2_000_000_000,
                0 <= imb as int <= 2_000_000_000,
        ;
    }
    let xa2 = Vec3 {
        x: crate::fx::fx_clip(xa.x + crate::geometry::div_signed(cx * ima, k)),
        y: crate::fx::fx_clip(xa.y + crate::geometry::div_signed(cy * ima, k)),
        z: crate::fx::fx_clip(xa.z + crate::geometry::div_signed(cz * ima, k)),
    };
    let xb2 = Vec3 {
        x: crate::fx::fx_clip(xb.x - crate::geometry::div_signed(cx * imb, k)),
        y: crate::fx::fx_clip(xb.y - crate::geometry::div_signed(cy * imb, k)),
        z: crate::fx::fx_clip(xb.z - crate::geometry::div_signed(cz * imb, k)),
    };
    set_pos_exec(bodies, pa, xa2);
    set_pos_exec(bodies, pb, xb2);
}

/// The executable solver stage: warm start, the configured number of
/// velocity iterations over contacts then joints, one position pass, and
/// the write-back of accumulated impulses for next step's warm start.
pub fn solve_stage(
    bodies: &mut Arena<RigidBody>,
    cols: &Arena<Collider>,
    joints: &Arena<Joint>,
    manifolds: &mut Vec<Manifold>,
    iters: u32,
    warm: bool,
)
    requires
        bodies_ok(old(bodies).slots@),
        joints_ok(joints.slots@),
        forall|k: int|
            0 <= k < old(manifolds)@.len() ==> crate::manifold::manifold_valid(
                #[trigger] old(manifolds)@[k],
            ),
        iters <= 1000,
    ensures
        final(bodies).slots@ == solve_spec(
            old(bodies).slots@,
            cols.slots@,
            joints.slots@,
            old(manifolds)@,
            iters as int,
            warm,
        ).0,
        final(manifolds)@ == solve_spec(
            old(bodies).slots@,
            cols.slots@,
            joints.slots@,
            old(manifolds)@,
            iters as int,
            warm,
        ).1,
        bodies_ok(final(bodies).slots@),
        forall|k: int|
            0 <= k < final(manifolds)@.len() ==> crate::manifold::manifold_valid(
                #[trigger] final(manifolds)@[k],
            ),
{
    let nm: usize = manifolds.len();
    let nj: usize = joints.slot_count();
    let ghost b0 = bodies.slots@;
    let ghost ms0 = manifolds@;

    // restitution biases from pre-solve velocities
    let mut biases: Vec<i64> = Vec::new();
    let mut k: usize = 0;
    while k < nm
        invariant
            bodies_ok(bodies.slots@),
            nm == manifolds@.len(),
            k <= nm,
            bodies.slots@ == b0,
            manifolds@ == ms0,
            biases@.len() == k as int,
            forall|t: int|
                0 <= t < k as int ==> biases@[t] as int == contact_bias(b0, cols.slots@, ms0[t])
                    && fits(#[trigger] biases@[t] as int),
        decreases nm - k,
    {
        let b = contact_bias_exec(bodies, cols, &manifolds[k]);
        biases.push(b);
        k = k + 1;
    }
    proof {
        assert(biases@ =~= all_biases(b0, cols.slots@, ms0));
    }

    // initial accumulated impulses
    let mut accs: Vec<i64> = Vec::new();
    let mut k2: usize = 0;
    while k2 < nm
        invariant
            nm == manifolds@.len(),
            k2 <= nm,
            manifolds@ == ms0,
            forall|t: int|
                0 <= t < ms0.len() ==> crate::manifold::manifold_valid(#[trigger] ms0[t]),
            accs@.len() == k2 as int,
            forall|t: int|
                0 <= t < k2 as int ==> accs@[t] == (if warm {
                    ms0[t].warm_impulse
                } else {
                    0i64
                }) && 0 <= #[trigger] accs@[t] <= FX_MAX,
        decreases nm - k2,
    {
        if warm {
            proof {
                assert(crate::manifold::manifold_valid(ms0[k2 as int]));
            }
            accs.push(manifolds[k2].warm_impulse);
        } else {
            accs.push(0);
        }
        k2 = k2 + 1;
    }
    proof {
        assert(accs@ =~= Seq::new(
            ms0.len(),
            |t: int|
                if warm {
                    ms0[t].warm_impulse
                } else {
                    0i64
                },
        ));
    }

    // warm start
    if warm {
        let mut k3: usize = 0;
        while k3 < nm
            invariant
                bodies_ok(bodies.slots@),
                nm == manifolds@.len(),
                k3 <= nm,
                manifolds@ == ms0,
                forall|t: int|
                    0 <= t < ms0.len() ==> crate::manifold::manifold_valid(#[trigger] ms0[t]),
                bodies.slots@ == warm_upto(b0, cols.slots@, ms0, k3 as int),
            decreases nm - k3,
        {
            proof {
                assert(crate::manifold::manifold_valid(ms0[k3 as int]));
            }
            warm_start_contact_exec(bodies, cols, &manifolds[k3]);
            k3 = k3 + 1;
        }
    }
    let ghost b1 = if warm {
        warm_upto(b0, cols.slots@, ms0, ms0.len() as int)
    } else {
        b0
    };
    let ghost accs0 = accs@;

    // velocity iterations
    let mut it: u32 = 0;
    while it < iters
        invariant
            bodies_ok(bodies.slots@),
            nm == manifolds@.len(),
            nj as int == joints.slots@.len(),
            manifolds@ == ms0,
            it <= iters,
            iters <= 1000,
            joints_ok(joints.slots@),
            biases@ == all_biases(b0, cols.slots@, ms0),
            forall|t: int| 0 <= t < biases@.len() ==> fits(#[trigger] biases@[t] as int),
            accs@.len() == nm as int,
            forall|t: int| 0 <= t < accs@.len() ==> 0 <= #[trigger] accs@[t] <= FX_MAX,
            (bodies.slots@, accs@) == velocity_iters(
                b1,
                cols.slots@,
                joints.slots@,
                ms0,
                accs0,
                biases@,
                it as int,
            ),
        decreases iters - it,
    {
        let ghost bit = bodies.slots@;
        let ghost ait = accs@;
        let mut c: usize = 0;
        while c < nm
            invariant
                bodies_ok(bodies.slots@),
                nm == manifolds@.len(),
                c <= nm,
                manifolds@ == ms0,
                biases@.len() == nm as int,
                forall|t: int| 0 <= t < biases@.len() ==> fits(#[trigger] biases@[t] as int),
                accs@.len() == nm as int,
                forall|t: int| 0 <= t < accs@.len() ==> 0 <= #[trigger] accs@[t] <= FX_MAX,
                (bodies.slots@, accs@) == contacts_upto(
                    bit,
                    cols.slots@,
                    ms0,
                    ait,
                    biases@,
                    c as int,
                ),
            decreases nm - c,
        {
            let a = accs[c];
            let b = biases[c];
            let m = manifolds[c];
            let a2 = solve_contact_exec(bodies, cols, &m, a, b);
            accs[c] = a2;
            proof {
                assert(accs@ =~= contacts_upto(
                    bit,
                    cols.slots@,
                    ms0,
                    ait,
                    biases@,
                    c as int + 1,
                ).1);
            }
            c = c + 1;
        }
        let mut jx: usize = 0;
        let ghost bj = bodies.slots@;
        while jx < nj
            invariant
                bodies_ok(bodies.slots@),
                nj as int == joints.slots@.len(),
                jx <= nj,
                joints_ok(joints.slots@),
                bodies.slots@ == joints_upto(bj, joints.slots@, jx as int),
            decreases nj - jx,
        {
            let jv: Option<Joint> = match joints.value_at(jx) {
                Option::Some(j) => Option::Some(*j),
                Option::None => Option::None,
            };
            match jv {
                Option::Some(j) => {
                    solve_joint_exec(bodies, &j);
                },
                Option::None => {},
            }
            jx = jx + 1;
        }
        it = it + 1;
    }

    // position pass: contacts, then joints
    let ghost b2in = bodies.slots@;
    let mut pc: usize = 0;
    while pc < nm
        invariant
            bodies_ok(bodies.slots@),
            nm == manifolds@.len(),
            pc <= nm,
            manifolds@ == ms0,
            bodies.slots@ == correct_contacts_upto(b2in, cols.slots@, ms0, pc as int),
        decreases nm - pc,
    {
        let m = manifolds[pc];
        correct_contact_exec(bodies, cols, &m);
        pc = pc + 1;
    }
    let ghost b3in = bodies.slots@;
    let mut pj: usize = 0;
    while pj < nj
        invariant
            bodies_ok(bodies.slots@),
            nj as int == joints.slots@.len(),
            pj <= nj,
            joints_ok(joints.slots@),
            bodies.slots@ == correct_joints_upto(b3in, joints.slots@, pj as int),
        decreases nj - pj,
    {
        let jv: Option<Joint> = match joints.value_at(pj) {
            Option::Some(j) => Option::Some(*j),
            Option::None => Option::None,
        };
        match jv {
            Option::Some(j) => {
                proof {
                    assert(joints.occupied(pj as int));
                    assert(crate::joint::joint_valid(joints.at(pj as int)));
                }
                correct_joint_exec(bodies, &j);
            },
            Option::None => {},
        }
        pj = pj + 1;
    }

    // store accumulated impulses for next step's warm start
    let mut wk: usize = 0;
    while wk < nm
        invariant
            nm == manifolds@.len(),
            wk <= nm,
            accs@.len() == nm as int,
            forall|t: int| 0 <= t < accs@.len() ==> 0 <= #[trigger] accs@[t] <= FX_MAX,
            forall|t: int|
                0 <= t < ms0.len() ==> crate::manifold::manifold_valid(#[trigger] ms0[t]),
            forall|t: int|
                wk as int <= t < nm as int ==> manifolds@[t] == ms0[t],
            forall|t: int|
                0 <= t < wk as int ==> manifolds@[t] == (Manifold {
                    warm_impulse: accs@[t],
                    ..ms0[t]
                }),
        decreases nm - wk,
    {
        let m = manifolds[wk];
        let a = accs[wk];
        manifolds[wk] = Manifold {
            collider_a: m.collider_a,
            collider_b: m.collider_b,
            contact: m.contact,
            warm_impulse: a,
            steps_without_contact: m.steps_without_contact,
        };
        wk = wk + 1;
    }
    proof {
        assert(manifolds@ =~= store_impulses(
            ms0,
            velocity_iters(b1, cols.slots@, joints.slots@, ms0, accs0, biases@, iters as int).1,
        ));
        assert forall|t: int| 0 <= t < manifolds@.len() implies crate::manifold::manifold_valid(
            #[trigger] manifolds@[t],
        ) by {
            assert(crate::manifold::manifold_valid(ms0[t]));
        }
    }
}

} // verus!

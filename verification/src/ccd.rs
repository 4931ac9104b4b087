//! Continuous collision detection for fast balls.
//!
//! After integration, a dynamic ball whose step displacement exceeds its
//! radius is swept as a segment against every static collider's bounds,
//! inflated by the radius. The earliest time of impact is found by exact
//! slab arithmetic on fractions — no rounding decides whether a wall is
//! hit — and the ball is rolled back to (never beyond) the impact point,
//! to be resolved by the next step's narrow phase. A body whose candidate
//! count exceeds the configured budget keeps its integrated pose and the
//! step reports it instead of failing.

use vstd::prelude::*;
use crate::arena::{Arena, Handle, Slot};
use crate::body::{RigidBody, BodyType, body_valid, body_active};
use crate::collider::Collider;
use crate::fx::{fits, clip, tdiv, FX_MAX};
use crate::geometry::iabs;
use crate::manifold::ContactEvent;
use crate::shape::Shape;
use crate::solver::bodies_ok;
use crate::vec3::{Vec3, v_fits};
use crate::world::World;

verus! {

/// One axis of the slab test, on exact fractions with positive
/// denominators. `lo..hi` is the inflated box interval, `p` the segment
/// start, `d` the displacement. Returns the updated entry and exit
/// fractions, or `None` when this axis rules a hit out.
pub open spec fn slab_axis(
    p: int,
    d: int,
    lo: int,
    hi: int,
    tn: (int, int),
    tx: (int, int),
) -> Option<((int, int), (int, int))> {
    if d == 0 {
        if lo <= p <= hi {
            Option::Some((tn, tx))
        } else {
            Option::None
        }
    } else {
        let den = iabs(d);
        let n0 = if d > 0 {
            lo - p
        } else {
            p - hi
        };
        let n1 = if d > 0 {
            hi - p
        } else {
            p - lo
        };
        if n0 > den || n1 < 0 {
            Option::None
        } else {
            let n0c = if n0 < 0 {
                0
            } else {
                n0
            };
            let n1c = if n1 > den {
                den
            } else {
                n1
            };
            let tn2 = if n0c * tn.1 > tn.0 * den {
                (n0c, den)
            } else {
                tn
            };
            let tx2 = if n1c * tx.1 < tx.0 * den {
                (n1c, den)
            } else {
                tx
            };
            Option::Some((tn2, tx2))
        }
    }
}

/// The entry fraction at which the segment `p0 + t * d`, `t` in `[0, 1]`,
/// first meets the box inflated by `r`, or `None` when it does not, starts
/// inside, or never leaves the start cell.
pub open spec fn sweep_ball_box(p0: Vec3, d: Vec3, r: int, bmin: Vec3, bmax: Vec3) -> Option<
    (int, int),
> {
    let lox = bmin.x - r;
    let hix = bmax.x + r;
    let loy = bmin.y - r;
    let hiy = bmax.y + r;
    let loz = bmin.z - r;
    let hiz = bmax.z + r;
    if lox <= p0.x <= hix && loy <= p0.y <= hiy && loz <= p0.z <= hiz {
        Option::None
    } else {
        match slab_axis(p0.x as int, d.x as int, lox, hix, (0, 1), (1, 1)) {
            Option::None => Option::None,
            Option::Some(s1) => match slab_axis(p0.y as int, d.y as int, loy, hiy, s1.0, s1.1) {
                Option::None => Option::None,
                Option::Some(s2) => match slab_axis(
                    p0.z as int,
                    d.z as int,
                    loz,
                    hiz,
                    s2.0,
                    s2.1,
                ) {
                    Option::None => Option::None,
                    Option::Some(s3) => {
                        let tn = s3.0;
                        let tx = s3.1;
                        if tn.0 * tx.1 <= tx.0 * tn.1 {
                            Option::Some(tn)
                        } else {
                            Option::None
                        }
                    },
                },
            },
        }
    }
}

/// The position rolled back to the impact fraction, truncating toward the
/// start so the body ends at or before the contact, never beyond it.
pub open spec fn rollback(p0: Vec3, d: Vec3, num: int, den: int) -> Vec3 {
    Vec3 {
        x: clip(p0.x + tdiv((d.x as int) * num, den)) as i64,
        y: clip(p0.y + tdiv((d.y as int) * num, den)) as i64,
        z: clip(p0.z + tdiv((d.z as int) * num, den)) as i64,
    }
}

/// A ball swept head-on along the x axis at a wall it starts clear of ends
/// at or before the wall surface after rollback: continuous collision
/// detection cannot tunnel it to the far side.
pub proof fn lemma_ccd_no_tunnel_head_on(p0: Vec3, d: Vec3, r: int, bmin: Vec3, bmax: Vec3)
    requires
        d.y == 0,
        d.z == 0,
        d.x as int > 0,
        r > 0,
        p0.x + r <= bmin.x,
        bmin.y - r <= p0.y <= bmax.y + r,
        bmin.z - r <= p0.z <= bmax.z + r,
        bmin.x <= bmax.x,
        fits(p0.x as int),
        -(FX_MAX as int) <= bmin.x - r,
        sweep_ball_box(p0, d, r, bmin, bmax) is Some,
    ensures
        ({
            let t = sweep_ball_box(p0, d, r, bmin, bmax).unwrap();
            rollback(p0, d, t.0, t.1).x + r <= bmin.x
        }),
{
    let lox = bmin.x - r;
    let hix = bmax.x + r;
    let den = iabs(d.x as int);
    let n0 = lox - p0.x;
    assert(p0.x < lox);
    let s1 = slab_axis(p0.x as int, d.x as int, lox, hix, (0int, 1int), (1int, 1int));
    assert(s1 is Some);
    assert(n0 * 1int == n0 && 0int * den == 0 && den * 1int == den && 1int * den == den)
        by (nonlinear_arith);
    assert(s1.unwrap().0 == (n0, den));
    let s2 = slab_axis(p0.y as int, d.y as int, bmin.y - r, bmax.y + r, s1.unwrap().0, s1.unwrap().1);
    assert(s2 == s1);
    let s3 = slab_axis(p0.z as int, d.z as int, bmin.z - r, bmax.z + r, s2.unwrap().0, s2.unwrap().1);
    assert(s3 == s1);
    let t = sweep_ball_box(p0, d, r, bmin, bmax).unwrap();
    assert(t == (n0, den));
    let num = t.0;
    assert(0 <= num <= n0);
    assert(tdiv((d.x as int) * num, den) <= num) by {
        assert((d.x as int) * num == num * den) by (nonlinear_arith)
            requires
                d.x as int == den,
        ;
        assert((num * den) / den == num) by (nonlinear_arith)
            requires
                den > 0,
        ;
    }
    assert(clip(p0.x + tdiv((d.x as int) * num, den)) <= p0.x + n0);
}

/// Events and bodies after sweeping the first `k` body slots.
pub open spec fn ccd_upto(
    bodies: Seq<Slot<RigidBody>>,
    cols: Seq<Slot<Collider>>,
    prev_pos: Seq<Vec3>,
    budget: u32,
    k: int,
) -> (Seq<Slot<RigidBody>>, Seq<ContactEvent>)
    decreases k,
{
    if k <= 0 {
        (bodies, Seq::empty())
    } else {
        let prev = ccd_upto(bodies, cols, prev_pos, budget, k - 1);
        let r = ccd_body(bodies, cols, prev_pos, budget, k - 1);
        match r {
            Option::Some((pos, ev)) => {
                let b2 = match ev {
                    Option::Some(e) => prev.1.push(e),
                    Option::None => prev.1,
                };
                (
                    prev.0.update(
                        k - 1,
                        Slot {
                            generation: prev.0[k - 1].generation,
                            value: Option::Some(
                                RigidBody { pos, ..prev.0[k - 1].value.unwrap() },
                            ),
                        },
                    ),
                    b2,
                )
            },
            Option::None => prev,
        }
    }
}

/// What continuous collision detection does to body slot `i`, against the
/// pre-integration positions: `None` leaves the body alone; otherwise the
/// new position, with a budget event when the sweep was skipped.
pub open spec fn ccd_body(
    bodies: Seq<Slot<RigidBody>>,
    cols: Seq<Slot<Collider>>,
    prev_pos: Seq<Vec3>,
    budget: u32,
    i: int,
) -> Option<(Vec3, Option<ContactEvent>)> {
    if !(0 <= i < bodies.len() && 0 <= i < prev_pos.len() && bodies[i].value is Some && body_active(
        bodies[i].value.unwrap(),
    )) {
        Option::None
    } else {
        let b = bodies[i].value.unwrap();
        match ball_radius_of(cols, i, cols.len() as int) {
            Option::None => Option::None,
            Option::Some(r) => {
                let p0 = prev_pos[i];
                let d = crate::vec3::v_sub_spec(b.pos, p0);
                let fast = iabs(d.x as int) > r || iabs(d.y as int) > r || iabs(d.z as int) > r;
                if !fast {
                    Option::None
                } else if static_collider_count(bodies, cols, cols.len() as int) > budget as int {
                    Option::Some(
                        (
                            b.pos,
                            Option::Some(
                                ContactEvent::CcdBudgetExceeded {
                                    body: Handle {
                                        index: i as usize,
                                        generation: bodies[i].generation,
                                    },
                                },
                            ),
                        ),
                    )
                } else {
                    match best_toi(bodies, cols, p0, d, r, cols.len() as int) {
                        Option::Some(t) => Option::Some(
                            (rollback(p0, d, t.0, t.1), Option::None),
                        ),
                        Option::None => Option::None,
                    }
                }
            },
        }
    }
}

/// The radius of the first ball collider owned by body slot `i`, scanning
/// the first `k` collider slots.
pub open spec fn ball_radius_of(cols: Seq<Slot<Collider>>, i: int, k: int) -> Option<int>
    decreases k,
{
    if k <= 0 {
        Option::None
    } else {
        match ball_radius_of(cols, i, k - 1) {
            Option::Some(r) => Option::Some(r),
            Option::None => {
                if cols[k - 1].value is Some && (match cols[k - 1].value.unwrap().parent {
                    Option::Some(p) => p.index as int == i,
                    Option::None => false,
                }) {
                    match cols[k - 1].value.unwrap().shape {
                        Shape::Ball { radius } => Option::Some(radius as int),
                        _ => Option::None,
                    }
                } else {
                    Option::None
                }
            },
        }
    }
}

/// How many colliders stand on static ground: parentless ones and those of
/// static bodies.
pub open spec fn static_collider_count(
    bodies: Seq<Slot<RigidBody>>,
    cols: Seq<Slot<Collider>>,
    k: int,
) -> int
    decreases k,
{
    if k <= 0 {
        0
    } else {
        static_collider_count(bodies, cols, k - 1) + (if is_static_obstacle(bodies, cols, k - 1) {
            1int
        } else {
            0int
        })
    }
}

/// Collider slot `c` is a static obstacle for sweeps.
pub open spec fn is_static_obstacle(
    bodies: Seq<Slot<RigidBody>>,
    cols: Seq<Slot<Collider>>,
    c: int,
) -> bool {
    0 <= c < cols.len() && cols[c].value is Some && (match cols[c].value.unwrap().parent {
        Option::None => true,
        Option::Some(p) => 0 <= (p.index as int) < bodies.len() && bodies[p.index as int].value
            is Some && bodies[p.index as int].value.unwrap().body_type is Static,
    })
}

/// The world-space bounds of a static obstacle.
pub open spec fn obstacle_bounds(
    bodies: Seq<Slot<RigidBody>>,
    cols: Seq<Slot<Collider>>,
    c: int,
) -> (Vec3, Vec3) {
    let col = cols[c].value.unwrap();
    let ctr = crate::pipeline::collider_center(bodies, col);
    let h = col.shape.half_extents_spec();
    (
        Vec3 {
            x: clip(ctr.x - h.x) as i64,
            y: clip(ctr.y - h.y) as i64,
            z: clip(ctr.z - h.z) as i64,
        },
        Vec3 {
            x: clip(ctr.x + h.x) as i64,
            y: clip(ctr.y + h.y) as i64,
            z: clip(ctr.z + h.z) as i64,
        },
    )
}

/// Earliest impact fraction over the first `k` collider slots, first hit
/// winning ties: the deterministic reduction order.
pub open spec fn best_toi(
    bodies: Seq<Slot<RigidBody>>,
    cols: Seq<Slot<Collider>>,
    p0: Vec3,
    d: Vec3,
    r: int,
    k: int,
) -> Option<(int, int)>
    decreases k,
{
    if k <= 0 {
        Option::None
    } else {
        let prev = best_toi(bodies, cols, p0, d, r, k - 1);
        if is_static_obstacle(bodies, cols, k - 1) {
            let bb = obstacle_bounds(bodies, cols, k - 1);
            match sweep_ball_box(p0, d, r, bb.0, bb.1) {
                Option::Some(t) => match prev {
                    Option::Some(pt) => if t.0 * pt.1 < pt.0 * t.1 {
                        Option::Some(t)
                    } else {
                        prev
                    },
                    Option::None => Option::Some(t),
                },
                Option::None => prev,
            }
        } else {
            prev
        }
    }
}

/// The fold updates only already-scanned slots, and the update at a slot
/// starts from the base store's body.
proof fn lemma_ccd_frame(
    bodies: Seq<Slot<RigidBody>>,
    cols: Seq<Slot<Collider>>,
    prev_pos: Seq<Vec3>,
    budget: u32,
    k: int,
)
    requires
        0 <= k <= bodies.len(),
    ensures
        ccd_upto(bodies, cols, prev_pos, budget, k).0.len() == bodies.len(),
        forall|t: int|
            k <= t < bodies.len() ==> ccd_upto(bodies, cols, prev_pos, budget, k).0[t] == bodies[t],
    decreases k,
{
    if k > 0 {
        lemma_ccd_frame(bodies, cols, prev_pos, budget, k - 1);
    }
}

/// Executable sweep of a ball segment against an inflated box.
fn sweep_exec(p0: Vec3, d: Vec3, r: i64, bmin: Vec3, bmax: Vec3) -> (res: Option<(i64, i64)>)
    requires
        v_fits(p0),
        v_fits(d),
        0 < r <= FX_MAX as int,
        v_fits(bmin),
        v_fits(bmax),
    ensures
        res is Some <==> sweep_ball_box(p0, d, r as int, bmin, bmax) is Some,
        res is Some ==> res.unwrap().0 as int == sweep_ball_box(
            p0,
            d,
            r as int,
            bmin,
            bmax,
        ).unwrap().0 && res.unwrap().1 as int == sweep_ball_box(
            p0,
            d,
            r as int,
            bmin,
            bmax,
        ).unwrap().1,
        res is Some ==> 0 <= res.unwrap().0 <= res.unwrap().1 && 0 < res.unwrap().1
            <= 2_000_000_000,
{
    let lox: i64 = bmin.x - r;
    let hix: i64 = bmax.x + r;
    let loy: i64 = bmin.y - r;
    let hiy: i64 = bmax.y + r;
    let loz: i64 = bmin.z - r;
    let hiz: i64 = bmax.z + r;
    if lox <= p0.x && p0.x <= hix && loy <= p0.y && p0.y <= hiy && loz <= p0.z && p0.z <= hiz {
        return Option::None;
    }
    let mut tn: (i64, i64) = (0, 1);
    let mut tx: (i64, i64) = (1, 1);
    let s1 = slab_exec(p0.x, d.x, lox, hix, tn, tx);
    match s1 {
        Option::None => Option::None,
        Option::Some((tn1, tx1)) => {
            let s2 = slab_exec(p0.y, d.y, loy, hiy, tn1, tx1);
            match s2 {
                Option::None => Option::None,
                Option::Some((tn2, tx2)) => {
                    let s3 = slab_exec(p0.z, d.z, loz, hiz, tn2, tx2);
                    match s3 {
                        Option::None => Option::None,
                        Option::Some((tn3, tx3)) => {
                            proof {
                                assert((tn3.0 as int) * (tx3.1 as int)
                                    <= 4_000_000_000_000_000_000 && (tn3.0 as int) * (tx3.1 as int)
                                    >= 0 && (tx3.0 as int) * (tn3.1 as int)
                                    <= 4_000_000_000_000_000_000 && (tx3.0 as int) * (tn3.1 as int)
                                    >= 0) by (nonlinear_arith)
                                    requires
                                        0 <= tn3.0 as int <= 2_000_000_000,
                                        0 < tn3.1 as int <= 2_000_000_000,
                                        0 <= tx3.0 as int <= 2_000_000_000,
                                        0 < tx3.1 as int <= 2_000_000_000,
                                ;
                            }
                            if tn3.0 * tx3.1 <= tx3.0 * tn3.1 {
                                Option::Some(tn3)
                            } else {
                                Option::None
                            }
                        },
                    }
                },
            }
        },
    }
}

/// Executable [`slab_axis`], carrying fraction range bounds.
fn slab_exec(p: i64, d: i64, lo: i64, hi: i64, tn: (i64, i64), tx: (i64, i64)) -> (res: Option<
    ((i64, i64), (i64, i64)),
>)
    requires
        fits(p as int),
        fits(d as int),
        -4_000_000_000 <= lo as int <= 4_000_000_000,
        -4_000_000_000 <= hi as int <= 4_000_000_000,
        0 <= tn.0 <= tn.1,
        0 < tn.1 <= 2_000_000_000,
        0 <= tx.0 <= tx.1,
        0 < tx.1 <= 2_000_000_000,
    ensures
        res is Some <==> slab_axis(p as int, d as int, lo as int, hi as int, (tn.0 as int, tn.1 as int), (tx.0 as int, tx.1 as int)) is Some,
        res is Some ==> ({
            let s = slab_axis(
                p as int,
                d as int,
                lo as int,
                hi as int,
                (tn.0 as int, tn.1 as int),
                (tx.0 as int, tx.1 as int),
            ).unwrap();
            res.unwrap().0.0 as int == s.0.0 && res.unwrap().0.1 as int == s.0.1
                && res.unwrap().1.0 as int == s.1.0 && res.unwrap().1.1 as int == s.1.1
        }),
        res is Some ==> 0 <= res.unwrap().0.0 <= res.unwrap().0.1 && 0 < res.unwrap().0.1
            <= 2_000_000_000 && 0 <= res.unwrap().1.0 <= res.unwrap().1.1 && 0 < res.unwrap().1.1
            <= 2_000_000_000,
{
    if d == 0 {
        if lo <= p && p <= hi {
            return Option::Some((tn, tx));
        }
        return Option::None;
    }
    let den: i64 = if d > 0 {
        d
    } else {
        -d
    };
    let n0: i64 = if d > 0 {
        lo - p
    } else {
        p - hi
    };
    let n1: i64 = if d > 0 {
        hi - p
    } else {
        p - lo
    };
    if n0 > den || n1 < 0 {
        return Option::None;
    }
    let n0c: i64 = if n0 < 0 {
        0
    } else {
        n0
    };
    let n1c: i64 = if n1 > den {
        den
    } else {
        n1
    };
    proof {
        assert((n0c as int) * (tn.1 as int) <= 4_000_000_000_000_000_000 && (n0c as int) * (
        tn.1 as int) >= 0 && (tn.0 as int) * (den as int) <= 4_000_000_000_000_000_000 && (
        tn.0 as int) * (den as int) >= 0 && (n1c as int) * (tx.1 as int)
            <= 4_000_000_000_000_000_000 && (n1c as int) * (tx.1 as int) >= 0 && (tx.0 as int) * (
        den as int) <= 4_000_000_000_000_000_000 && (tx.0 as int) * (den as int) >= 0)
            by (nonlinear_arith)
            requires
                0 <= n0c as int <= 2_000_000_000,
                0 <= n1c as int <= 2_000_000_000,
                0 < den as int <= 2_000_000_000,
                0 <= tn.0 <= tn.1,
                0 < tn.1 <= 2_000_000_000,
                0 <= tx.0 <= tx.1,
                0 < tx.1 <= 2_000_000_000,
        ;
    }
    let tn2: (i64, i64) = if n0c * tn.1 > tn.0 * den {
        (n0c, den)
    } else {
        tn
    };
    let tx2: (i64, i64) = if n1c * tx.1 < tx.0 * den {
        (n1c, den)
    } else {
        tx
    };
    Option::Some((tn2, tx2))
}

/// Executable [`ball_radius_of`].
fn ball_radius_exec(cols: &Arena<Collider>, i: usize) -> (r: Option<i64>)
    ensures
        r is Some <==> ball_radius_of(cols.slots@, i as int, cols.slots@.len() as int) is Some,
        r is Some ==> r.unwrap() as int == ball_radius_of(
            cols.slots@,
            i as int,
            cols.slots@.len() as int,
        ).unwrap(),
{
    let n: usize = cols.slot_count();
    let mut k: usize = 0;
    let mut found: Option<i64> = Option::None;
    while k < n
        invariant
            n as int == cols.slots@.len(),
            k <= n,
            found is Some <==> ball_radius_of(cols.slots@, i as int, k as int) is Some,
            found is Some ==> found.unwrap() as int == ball_radius_of(
                cols.slots@,
                i as int,
                k as int,
            ).unwrap(),
        decreases n - k,
    {
        if found.is_none() {
            match cols.value_at(k) {
                Option::Some(c) => {
                    let owned: bool = match c.parent {
                        Option::Some(p) => p.index == i,
                        Option::None => false,
                    };
                    if owned {
                        match c.shape {
                            Shape::Ball { radius } => {
                                found = Option::Some(radius);
                            },
                            _ => {},
                        }
                    }
                },
                Option::None => {},
            }
        }
        k = k + 1;
    }
    found
}

/// Executable [`static_collider_count`] compared against the budget.
fn over_budget_exec(
    bodies: &Arena<RigidBody>,
    cols: &Arena<Collider>,
    budget: u32,
) -> (r: bool)
    ensures
        r == (static_collider_count(bodies.slots@, cols.slots@, cols.slots@.len() as int)
            > budget as int),
{
    let n: usize = cols.slot_count();
    let mut k: usize = 0;
    let mut count: u64 = 0;
    while k < n
        invariant
            n as int == cols.slots@.len(),
            k <= n,
            count as int == static_collider_count(bodies.slots@, cols.slots@, k as int),
            count as int <= k as int,
        decreases n - k,
    {
        if is_static_exec(bodies, cols, k) {
            count = count + 1;
        }
        k = k + 1;
    }
    count > budget as u64
}

/// Executable [`is_static_obstacle`].
fn is_static_exec(bodies: &Arena<RigidBody>, cols: &Arena<Collider>, c: usize) -> (r: bool)
    ensures
        r == is_static_obstacle(bodies.slots@, cols.slots@, c as int),
{
    let n: usize = cols.slot_count();
    if c >= n {
        return false;
    }
    match cols.value_at(c) {
        Option::Some(col) => match col.parent {
            Option::None => true,
            Option::Some(p) => {
                let nb: usize = bodies.slot_count();
                if p.index >= nb {
                    return false;
                }
                match bodies.value_at(p.index) {
                    Option::Some(b) => match b.body_type {
                        BodyType::Static => true,
                        _ => false,
                    },
                    Option::None => false,
                }
            },
        },
        Option::None => false,
    }
}

/// Executable [`best_toi`].
fn best_toi_exec(
    bodies: &Arena<RigidBody>,
    cols: &Arena<Collider>,
    p0: Vec3,
    d: Vec3,
    r: i64,
) -> (res: Option<(i64, i64)>)
    requires
        v_fits(p0),
        v_fits(d),
        0 < r <= FX_MAX as int,
        bodies_ok(bodies.slots@),
        forall|t: int|
            cols.occupied(t) ==> crate::collider::collider_valid(#[trigger] cols.at(t)),
        forall|t: int|
            cols.occupied(t) ==> (match (#[trigger] cols.at(t)).parent {
                Option::Some(p) => (p.index as int) < bodies.slots@.len(),
                Option::None => true,
            }),
    ensures
        res is Some <==> best_toi(bodies.slots@, cols.slots@, p0, d, r as int, cols.slots@.len() as int) is Some,
        res is Some ==> res.unwrap().0 as int == best_toi(
            bodies.slots@,
            cols.slots@,
            p0,
            d,
            r as int,
            cols.slots@.len() as int,
        ).unwrap().0 && res.unwrap().1 as int == best_toi(
            bodies.slots@,
            cols.slots@,
            p0,
            d,
            r as int,
            cols.slots@.len() as int,
        ).unwrap().1,
        res is Some ==> 0 <= res.unwrap().0 <= res.unwrap().1 && 0 < res.unwrap().1
            <= 2_000_000_000,
{
    let n: usize = cols.slot_count();
    let mut k: usize = 0;
    let mut best: Option<(i64, i64)> = Option::None;
    while k < n
        invariant
            n as int == cols.slots@.len(),
            k <= n,
            v_fits(p0),
            v_fits(d),
            0 < r <= FX_MAX as int,
            bodies_ok(bodies.slots@),
            forall|t: int|
                cols.occupied(t) ==> crate::collider::collider_valid(#[trigger] cols.at(t)),
            forall|t: int|
                cols.occupied(t) ==> (match (#[trigger] cols.at(t)).parent {
                    Option::Some(p) => (p.index as int) < bodies.slots@.len(),
                    Option::None => true,
                }),
            best is Some <==> best_toi(bodies.slots@, cols.slots@, p0, d, r as int, k as int)
                is Some,
            best is Some ==> best.unwrap().0 as int == best_toi(
                bodies.slots@,
                cols.slots@,
                p0,
                d,
                r as int,
                k as int,
            ).unwrap().0 && best.unwrap().1 as int == best_toi(
                bodies.slots@,
                cols.slots@,
                p0,
                d,
                r as int,
                k as int,
            ).unwrap().1,
            best is Some ==> 0 <= best.unwrap().0 <= best.unwrap().1 && 0 < best.unwrap().1
                <= 2_000_000_000,
        decreases n - k,
    {
        if is_static_exec(bodies, cols, k) {
            let col: Collider = match cols.value_at(k) {
                Option::Some(c) => *c,
                Option::None => {
                    proof {
                        assert(false);
                    }
                    Collider {
                        shape: Shape::Ball { radius: 1 },
                        parent: Option::None,
                        offset: Vec3 { x: 0, y: 0, z: 0 },
                        groups: 0,
                        mask: 0,
                    }
                },
            };
            proof {
                assert(cols.occupied(k as int));
                assert(crate::collider::collider_valid(cols.at(k as int)));
            }
            let ctr: Vec3 = match col.parent {
                Option::Some(p) => {
                    let b: RigidBody = match bodies.value_at(p.index) {
                        Option::Some(x) => *x,
                        Option::None => RigidBody {
                            pos: Vec3 { x: 0, y: 0, z: 0 },
                            vel: Vec3 { x: 0, y: 0, z: 0 },
                            angvel: Vec3 { x: 0, y: 0, z: 0 },
                            rot: Vec3 { x: 0, y: 0, z: 0 },
                            inv_mass: 0,
                            restitution: 0,
                            body_type: BodyType::Static,
                            sleeping: false,
                            sleep_steps: 0,
                        },
                    };
                    proof {
                        assert(bodies.occupied(p.index as int) ==> body_valid(
                            bodies.at(p.index as int),
                        ));
                    }
                    if bodies.value_at(p.index).is_some() {
                        b.pos.add(col.offset)
                    } else {
                        proof {
                            assert(false);
                        }
                        col.offset
                    }
                },
                Option::None => col.offset,
            };
            let h: Vec3 = col.shape.half_extents();
            let bmin = Vec3 {
                x: crate::fx::fx_clip(ctr.x - h.x),
                y: crate::fx::fx_clip(ctr.y - h.y),
                z: crate::fx::fx_clip(ctr.z - h.z),
            };
            let bmax = Vec3 {
                x: crate::fx::fx_clip(ctr.x + h.x),
                y: crate::fx::fx_clip(ctr.y + h.y),
                z: crate::fx::fx_clip(ctr.z + h.z),
            };
            let hit: Option<(i64, i64)> = sweep_exec(p0, d, r, bmin, bmax);
            match hit {
                Option::Some(t) => {
                    match best {
                        Option::Some(bt) => {
                            proof {
                                assert((t.0 as int) * (bt.1 as int) <= 4_000_000_000_000_000_000
                                    && (t.0 as int) * (bt.1 as int) >= 0 && (bt.0 as int) * (
                                t.1 as int) <= 4_000_000_000_000_000_000 && (bt.0 as int) * (
                                t.1 as int) >= 0) by (nonlinear_arith)
                                    requires
                                        0 <= t.0 <= 2_000_000_000,
                                        0 < t.1 <= 2_000_000_000,
                                        0 <= bt.0 <= 2_000_000_000,
                                        0 < bt.1 <= 2_000_000_000,
                                ;
                            }
                            if t.0 * bt.1 < bt.0 * t.1 {
                                best = Option::Some(t);
                            }
                        },
                        Option::None => {
                            best = Option::Some(t);
                        },
                    }
                },
                Option::None => {},
            }
        }
        k = k + 1;
    }
    best
}

/// Executable continuous collision detection stage.
pub fn ccd_stage(
    bodies: &mut Arena<RigidBody>,
    cols: &Arena<Collider>,
    prev_pos: &Vec<Vec3>,
    budget: u32,
) -> (events: Vec<ContactEvent>)
    requires
        bodies_ok(old(bodies).slots@),
        prev_pos@.len() == old(bodies).slots@.len(),
        forall|t: int| 0 <= t < prev_pos@.len() ==> v_fits(#[trigger] prev_pos@[t]),
        forall|t: int|
            cols.occupied(t) ==> crate::collider::collider_valid(#[trigger] cols.at(t)),
        forall|t: int|
            cols.occupied(t) ==> (match (#[trigger] cols.at(t)).parent {
                Option::Some(p) => (p.index as int) < old(bodies).slots@.len(),
                Option::None => true,
            }),
    ensures
        final(bodies).slots@ == ccd_upto(
            old(bodies).slots@,
            cols.slots@,
            prev_pos@,
            budget,
            old(bodies).slots@.len() as int,
        ).0,
        events@ == ccd_upto(
            old(bodies).slots@,
            cols.slots@,
            prev_pos@,
            budget,
            old(bodies).slots@.len() as int,
        ).1,
        bodies_ok(final(bodies).slots@),
{
    let n: usize = bodies.slot_count();
    let ghost b0 = bodies.slots@;
    // phase one: decide every body's outcome against the untouched store
    let mut plans: Vec<Option<(Vec3, Option<ContactEvent>)>> = Vec::new();
    let mut i: usize = 0;
    while i < n
        invariant
            n as int == bodies.slots@.len(),
            i <= n,
            bodies.slots@ == b0,
            bodies_ok(b0),
            prev_pos@.len() == n as int,
            forall|t: int| 0 <= t < prev_pos@.len() ==> v_fits(#[trigger] prev_pos@[t]),
            forall|t: int|
                cols.occupied(t) ==> crate::collider::collider_valid(#[trigger] cols.at(t)),
            forall|t: int|
                cols.occupied(t) ==> (match (#[trigger] cols.at(t)).parent {
                    Option::Some(p) => (p.index as int) < b0.len(),
                    Option::None => true,
                }),
            plans@.len() == i as int,
            forall|t: int|
                0 <= t < i as int ==> plans@[t] == ccd_body(b0, cols.slots@, prev_pos@, budget, t),
            forall|t: int|
                0 <= t < i as int ==> (match #[trigger] plans@[t] {
                    Option::Some(pl) => v_fits(pl.0),
                    Option::None => true,
                }),
        decreases n - i,
    {
        let plan: Option<(Vec3, Option<ContactEvent>)> = ccd_decide(
            bodies,
            cols,
            prev_pos,
            budget,
            i,
        );
        plans.push(plan);
        i = i + 1;
    }
    // phase two: apply rollbacks and collect events in slot order
    let mut events: Vec<ContactEvent> = Vec::new();
    let mut j: usize = 0;
    while j < n
        invariant
            n as int == b0.len(),
            j <= n,
            bodies_ok(bodies.slots@),
            plans@.len() == n as int,
            forall|t: int|
                0 <= t < n as int ==> plans@[t] == ccd_body(b0, cols.slots@, prev_pos@, budget, t),
            forall|t: int|
                0 <= t < n as int ==> (match #[trigger] plans@[t] {
                    Option::Some(pl) => v_fits(pl.0),
                    Option::None => true,
                }),
            bodies.slots@ == ccd_upto(b0, cols.slots@, prev_pos@, budget, j as int).0,
            events@ == ccd_upto(b0, cols.slots@, prev_pos@, budget, j as int).1,
        decreases n - j,
    {
        proof {
            lemma_ccd_frame(b0, cols.slots@, prev_pos@, budget, j as int);
        }
        let plan = plans[j];
        match plan {
            Option::Some((pos, ev)) => {
                proof {
                    assert(ccd_body(b0, cols.slots@, prev_pos@, budget, j as int) is Some);
                    assert(b0[j as int].value is Some);
                    assert(bodies.slots@[j as int] == b0[j as int]);
                }
                let b: RigidBody = match bodies.value_at(j) {
                    Option::Some(x) => *x,
                    Option::None => {
                        proof {
                            assert(false);
                        }
                        RigidBody { ..*bodies.value_at(j).unwrap() }
                    },
                };
                bodies.update_at(j, RigidBody { pos, ..b });
                match ev {
                    Option::Some(e) => {
                        events.push(e);
                    },
                    Option::None => {},
                }
                proof {
                    assert forall|t: int|
                        0 <= t < bodies.slots@.len() && (#[trigger] bodies.slots@[t]).value
                            is Some implies body_valid(bodies.slots@[t].value.unwrap()) by {
                        if t != j as int {
                            assert(ccd_upto(b0, cols.slots@, prev_pos@, budget, j as int).0[t]
                                == bodies.slots@[t]);
                        }
                    }
                }
            },
            Option::None => {},
        }
        j = j + 1;
    }
    events
}

/// Phase-one decision for one body slot.
fn ccd_decide(
    bodies: &Arena<RigidBody>,
    cols: &Arena<Collider>,
    prev_pos: &Vec<Vec3>,
    budget: u32,
    i: usize,
) -> (r: Option<(Vec3, Option<ContactEvent>)>)
    requires
        bodies_ok(bodies.slots@),
        prev_pos@.len() == bodies.slots@.len(),
        forall|t: int| 0 <= t < prev_pos@.len() ==> v_fits(#[trigger] prev_pos@[t]),
        forall|t: int|
            cols.occupied(t) ==> crate::collider::collider_valid(#[trigger] cols.at(t)),
        forall|t: int|
            cols.occupied(t) ==> (match (#[trigger] cols.at(t)).parent {
                Option::Some(p) => (p.index as int) < bodies.slots@.len(),
                Option::None => true,
            }),
    ensures
        r == ccd_body(bodies.slots@, cols.slots@, prev_pos@, budget, i as int),
        r is Some ==> v_fits(r.unwrap().0),
{
    let n: usize = bodies.slot_count();
    if i >= n {
        return Option::None;
    }
    let active: bool = crate::island::node_exec(bodies, i);
    if !active {
        return Option::None;
    }
    let b: RigidBody = match bodies.value_at(i) {
        Option::Some(x) => *x,
        Option::None => {
            proof {
                assert(false);
            }
            RigidBody { ..*bodies.value_at(i).unwrap() }
        },
    };
    proof {
        assert(bodies.slots@[i as int].value is Some);
        assert(body_valid(b));
    }
    let r_opt: Option<i64> = ball_radius_exec(cols, i);
    match r_opt {
        Option::None => Option::None,
        Option::Some(radius) => {
            proof {
                lemma_ball_radius_valid(cols, i as int, cols.slots@.len() as int);
            }
            let p0: Vec3 = prev_pos[i];
            let d: Vec3 = b.pos.sub(p0);
            let ax: i64 = if d.x >= 0 {
                d.x
            } else {
                -d.x
            };
            let ay: i64 = if d.y >= 0 {
                d.y
            } else {
                -d.y
            };
            let az: i64 = if d.z >= 0 {
                d.z
            } else {
                -d.z
            };
            let fast: bool = ax > radius || ay > radius || az > radius;
            if !fast {
                return Option::None;
            }
            if over_budget_exec(bodies, cols, budget) {
                let h: Option<Handle> = bodies.handle_at(i);
                let hb: Handle = match h {
                    Option::Some(x) => x,
                    Option::None => {
                        proof {
                            assert(false);
                        }
                        Handle { index: 0, generation: 0 }
                    },
                };
                return Option::Some(
                    (b.pos, Option::Some(ContactEvent::CcdBudgetExceeded { body: hb })),
                );
            }
            match best_toi_exec(bodies, cols, p0, d, radius) {
                Option::Some(t) => {
                    proof {
                        assert((d.x as int) * (t.0 as int) <= 4_000_000_000_000_000_000 && (
                        d.x as int) * (t.0 as int) >= -4_000_000_000_000_000_000 && (d.y as int) * (
                        t.0 as int) <= 4_000_000_000_000_000_000 && (d.y as int) * (t.0 as int)
                            >= -4_000_000_000_000_000_000 && (d.z as int) * (t.0 as int)
                            <= 4_000_000_000_000_000_000 && (d.z as int) * (t.0 as int)
                            >= -4_000_000_000_000_000_000) by (nonlinear_arith)
                            requires
                                -2_000_000_000 <= d.x as int <= 2_000_000_000,
                                -2_000_000_000 <= d.y as int <= 2_000_000_000,
                                -2_000_000_000 <= d.z as int <= 2_000_000_000,
                                0 <= t.0 <= 2_000_000_000,
                        ;
                    }
                    let pos = Vec3 {
                        x: crate::fx::fx_clip(
                            p0.x + crate::geometry::div_signed(d.x * t.0, t.1),
                        ),
                        y: crate::fx::fx_clip(
                            p0.y + crate::geometry::div_signed(d.y * t.0, t.1),
                        ),
                        z: crate::fx::fx_clip(
                            p0.z + crate::geometry::div_signed(d.z * t.0, t.1),
                        ),
                    };
                    Option::Some((pos, Option::None))
                },
                Option::None => Option::None,
            }
        },
    }
}

/// A found ball radius is a validated shape's radius.
proof fn lemma_ball_radius_valid(cols: &Arena<Collider>, i: int, k: int)
    requires
        forall|t: int|
            cols.occupied(t) ==> crate::collider::collider_valid(#[trigger] cols.at(t)),
        k <= cols.slots@.len(),
        ball_radius_of(cols.slots@, i, k) is Some,
    ensures
        0 < ball_radius_of(cols.slots@, i, k).unwrap() <= FX_MAX as int,
    decreases k,
{
    if k > 0 {
        if ball_radius_of(cols.slots@, i, k - 1) is Some {
            lemma_ball_radius_valid(cols, i, k - 1);
        } else {
            assert(cols.occupied(k - 1));
            assert(crate::collider::collider_valid(cols.at(k - 1)));
        }
    }
}

} // verus!

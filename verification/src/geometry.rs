//! Exact contact geometry on fixed-point coordinates.
//!
//! Squared distances are compared exactly in integer arithmetic, so whether
//! two shapes touch is decided without any rounding. Only contact normals
//! and depths go through the floor square root, and they mirror their spec
//! functions exactly.

use vstd::prelude::*;
use crate::fx::{fits, clip, tdiv, FX_MAX, FX_ONE};
use crate::manifold::Contact;
use crate::shape::Shape;
use crate::vec3::{Vec3, v_fits, v_add_spec, v_sub_spec};

verus! {

/// The floor of the square root of `n` (0 for negative `n`).
pub open spec fn sqrt_floor(n: int) -> int
    decreases n,
{
    if n <= 0 {
        0
    } else {
        let r = sqrt_floor(n - 1);
        if (r + 1) * (r + 1) <= n {
            r + 1
        } else {
            r
        }
    }
}

/// `sqrt_floor` is the unique integer whose square brackets `n`.
pub proof fn lemma_sqrt_floor_bounds(n: int)
    requires
        n >= 0,
    ensures
        sqrt_floor(n) >= 0,
        sqrt_floor(n) * sqrt_floor(n) <= n,
        n < (sqrt_floor(n) + 1) * (sqrt_floor(n) + 1),
    decreases n,
{
    if n > 0 {
        lemma_sqrt_floor_bounds(n - 1);
        let r = sqrt_floor(n - 1);
        if (r + 1) * (r + 1) <= n {
            assert(n < (r + 2) * (r + 2)) by (nonlinear_arith)
                requires
                    n - 1 < (r + 1) * (r + 1),
                    r >= 0,
            ;
        }
    }
}

/// Any integer whose square brackets `n` is `sqrt_floor(n)`.
pub proof fn lemma_sqrt_floor_unique(n: int, r: int)
    requires
        n >= 0,
        r >= 0,
        r * r <= n,
        n < (r + 1) * (r + 1),
    ensures
        r == sqrt_floor(n),
{
    lemma_sqrt_floor_bounds(n);
    let s = sqrt_floor(n);
    if r < s {
        assert((r + 1) * (r + 1) <= s * s) by (nonlinear_arith)
            requires
                0 <= r,
                r + 1 <= s,
        ;
    }
    if s < r {
        assert((s + 1) * (s + 1) <= r * r) by (nonlinear_arith)
            requires
                0 <= s,
                s + 1 <= r,
        ;
    }
}

/// Executable floor square root by binary search.
pub fn isqrt(x: u64) -> (r: u64)
    ensures
        r as int == sqrt_floor(x as int),
{
    let mut lo: u64 = 0;
    let mut hi: u64 = 4_294_967_295;
    proof {
        assert((hi as int + 1) * (hi as int + 1) > x as int) by (nonlinear_arith)
            requires
                hi as int == 4_294_967_295int,
                x as int <= 18_446_744_073_709_551_615int,
        ;
    }
    while lo < hi
        invariant
            lo <= hi <= 4_294_967_295,
            (lo as int) * (lo as int) <= x as int,
            (hi as int + 1) * (hi as int + 1) > x as int,
        decreases hi - lo,
    {
        let mid: u64 = (lo + hi + 1) / 2;
        proof {
            assert(lo < mid <= hi);
            assert(mid * mid <= 18_446_744_073_709_551_615u64) by (nonlinear_arith)
                requires
                    mid <= 4_294_967_295u64,
            ;
        }
        if mid * mid <= x {
            lo = mid;
        } else {
            hi = mid - 1;
        }
    }
    proof {
        lemma_sqrt_floor_unique(x as int, lo as int);
    }
    lo
}

/// An axis-aligned bounding box.
#[derive(Clone, Copy, PartialEq, Eq, Structural, Debug)]
pub struct Aabb {
    pub min: Vec3,
    pub max: Vec3,
}

/// Whether two boxes overlap (touching counts).
pub open spec fn aabb_overlap(a: Aabb, b: Aabb) -> bool {
    &&& a.min.x <= b.max.x && b.min.x <= a.max.x
    &&& a.min.y <= b.max.y && b.min.y <= a.max.y
    &&& a.min.z <= b.max.z && b.min.z <= a.max.z
}

/// Executable overlap test.
pub fn aabb_overlap_check(a: &Aabb, b: &Aabb) -> (r: bool)
    ensures
        r == aabb_overlap(*a, *b),
{
    a.min.x <= b.max.x && b.min.x <= a.max.x && a.min.y <= b.max.y && b.min.y <= a.max.y && a.min.z
        <= b.max.z && b.min.z <= a.max.z
}

/// The squared length of `v` as a mathematical integer.
pub open spec fn len_sq(v: Vec3) -> int {
    (v.x as int) * (v.x as int) + (v.y as int) * (v.y as int) + (v.z as int) * (v.z as int)
}

/// Executable squared length of an in-range vector; exact, no rounding.
pub fn len_sq_exec(v: &Vec3) -> (r: u64)
    requires
        v_fits(*v),
    ensures
        r as int == len_sq(*v),
{
    proof {
        assert((v.x as int) * (v.x as int) <= 4_000_000_000_000_000_000 && (v.x as int) * (
        v.x as int) >= 0 && (v.y as int) * (v.y as int) <= 4_000_000_000_000_000_000 && (
        v.y as int) * (v.y as int) >= 0 && (v.z as int) * (v.z as int)
            <= 4_000_000_000_000_000_000 && (v.z as int) * (v.z as int) >= 0) by (nonlinear_arith)
            requires
                v_fits(*v),
        ;
    }
    let xx: u64 = (v.x * v.x) as u64;
    let yy: u64 = (v.y * v.y) as u64;
    let zz: u64 = (v.z * v.z) as u64;
    xx + yy + zz
}

/// The contact between two balls, if they touch: normal from the first
/// toward the second, depth `r_a + r_b - dist`, point midway between the
/// centers. Exactly touching centers fall back to the x axis.
pub open spec fn ball_ball_contact(pa: Vec3, ra: int, pb: Vec3, rb: int) -> Option<Contact> {
    let d = v_sub_spec(pb, pa);
    let d2 = len_sq(d);
    let rsum = ra + rb;
    if d2 > rsum * rsum {
        Option::None
    } else {
        let dist = sqrt_floor(d2);
        let depth = clip(rsum - dist);
        let n = if dist > 0 {
            Vec3 {
                x: tdiv((d.x as int) * (FX_ONE as int), dist) as i64,
                y: tdiv((d.y as int) * (FX_ONE as int), dist) as i64,
                z: tdiv((d.z as int) * (FX_ONE as int), dist) as i64,
            }
        } else {
            Vec3 { x: FX_ONE, y: 0i64, z: 0i64 }
        };
        let p = Vec3 {
            x: clip(pa.x + tdiv(d.x as int, 2)) as i64,
            y: clip(pa.y + tdiv(d.y as int, 2)) as i64,
            z: clip(pa.z + tdiv(d.z as int, 2)) as i64,
        };
        Option::Some(Contact { point: p, normal: n, depth: depth as i64 })
    }
}

/// Executable ball-ball contact.
pub fn ball_ball_contact_exec(pa: Vec3, ra: i64, pb: Vec3, rb: i64) -> (r: Option<Contact>)
    requires
        v_fits(pa),
        v_fits(pb),
        0 < ra <= FX_MAX as int,
        0 < rb <= FX_MAX as int,
    ensures
        r == ball_ball_contact(pa, ra as int, pb, rb as int),
{
    let d = pb.sub(pa);
    let d2: u64 = len_sq_exec(&d);
    let rsum: i64 = ra + rb;
    proof {
        assert((rsum as u64) * (rsum as u64) <= 16_000_000_000_000_000_000u64 && (rsum as int) * (
        rsum as int) == ((rsum as u64) * (rsum as u64)) as int) by (nonlinear_arith)
            requires
                0 < rsum as int <= 4_000_000_000,
                rsum as u64 == rsum as int,
        ;
    }
    let rsum2: u64 = (rsum as u64) * (rsum as u64);
    if d2 > rsum2 {
        return Option::None;
    }
    let dist_u: u64 = isqrt(d2);
    proof {
        lemma_sqrt_floor_bounds(d2 as int);
        assert(sqrt_floor(d2 as int) * sqrt_floor(d2 as int) <= d2 as int);
        assert(dist_u as int <= 4_294_967_296) by (nonlinear_arith)
            requires
                dist_u as int >= 0,
                (dist_u as int) * (dist_u as int) <= 18_446_744_073_709_551_615int,
        ;
    }
    let dist: i64 = dist_u as i64;
    let depth: i64 = crate::fx::fx_clip(rsum - dist);
    let n: Vec3 = if dist > 0 {
        Vec3 {
            x: div_signed(d.x * FX_ONE, dist),
            y: div_signed(d.y * FX_ONE, dist),
            z: div_signed(d.z * FX_ONE, dist),
        }
    } else {
        Vec3 { x: FX_ONE, y: 0, z: 0 }
    };
    let p = Vec3 {
        x: crate::fx::fx_clip(pa.x + div_signed(d.x, 2)),
        y: crate::fx::fx_clip(pa.y + div_signed(d.y, 2)),
        z: crate::fx::fx_clip(pa.z + div_signed(d.z, 2)),
    };
    Option::Some(Contact { point: p, normal: n, depth })
}

/// Absolute value at spec level.
pub open spec fn iabs(x: int) -> int {
    if x >= 0 {
        x
    } else {
        -x
    }
}

/// The contact between two axis-aligned cuboids, if every axis overlaps:
/// the normal is the axis of least overlap (ties broken x, y, z), pointing
/// from the first body toward the second, and the point is the center of
/// the overlap region.
pub open spec fn cuboid_cuboid_contact(pa: Vec3, ha: Vec3, pb: Vec3, hb: Vec3) -> Option<Contact> {
    let d = v_sub_spec(pb, pa);
    let ox = (ha.x as int + hb.x as int) - iabs(d.x as int);
    let oy = (ha.y as int + hb.y as int) - iabs(d.y as int);
    let oz = (ha.z as int + hb.z as int) - iabs(d.z as int);
    if ox < 0 || oy < 0 || oz < 0 {
        Option::None
    } else {
        let n = if ox <= oy && ox <= oz {
            Vec3 {
                x: if d.x as int >= 0 { FX_ONE } else { (-(FX_ONE as int)) as i64 },
                y: 0i64,
                z: 0i64,
            }
        } else if oy <= oz {
            Vec3 {
                x: 0i64,
                y: if d.y as int >= 0 { FX_ONE } else { (-(FX_ONE as int)) as i64 },
                z: 0i64,
            }
        } else {
            Vec3 {
                x: 0i64,
                y: 0i64,
                z: if d.z as int >= 0 { FX_ONE } else { (-(FX_ONE as int)) as i64 },
            }
        };
        let depth = if ox <= oy && ox <= oz {
            clip(ox)
        } else if oy <= oz {
            clip(oy)
        } else {
            clip(oz)
        };
        let p = Vec3 {
            x: clip(tdiv(overlap_lo(pa.x as int, ha.x as int, pb.x as int, hb.x as int)
                + overlap_hi(pa.x as int, ha.x as int, pb.x as int, hb.x as int), 2)) as i64,
            y: clip(tdiv(overlap_lo(pa.y as int, ha.y as int, pb.y as int, hb.y as int)
                + overlap_hi(pa.y as int, ha.y as int, pb.y as int, hb.y as int), 2)) as i64,
            z: clip(tdiv(overlap_lo(pa.z as int, ha.z as int, pb.z as int, hb.z as int)
                + overlap_hi(pa.z as int, ha.z as int, pb.z as int, hb.z as int), 2)) as i64,
        };
        Option::Some(Contact { point: p, normal: n, depth: depth as i64 })
    }
}

/// Lower end of the overlap interval on one axis.
pub open spec fn overlap_lo(pa: int, ha: int, pb: int, hb: int) -> int {
    if pa - ha >= pb - hb {
        pa - ha
    } else {
        pb - hb
    }
}

/// Upper end of the overlap interval on one axis.
pub open spec fn overlap_hi(pa: int, ha: int, pb: int, hb: int) -> int {
    if pa + ha <= pb + hb {
        pa + ha
    } else {
        pb + hb
    }
}

/// Executable cuboid-cuboid contact.
pub fn cuboid_cuboid_contact_exec(pa: Vec3, ha: Vec3, pb: Vec3, hb: Vec3) -> (r: Option<Contact>)
    requires
        v_fits(pa),
        v_fits(pb),
        v_fits(ha),
        v_fits(hb),
    ensures
        r == cuboid_cuboid_contact(pa, ha, pb, hb),
{
    let d = pb.sub(pa);
    let ox: i64 = (ha.x + hb.x) - (if d.x >= 0 { d.x } else { -d.x });
    let oy: i64 = (ha.y + hb.y) - (if d.y >= 0 { d.y } else { -d.y });
    let oz: i64 = (ha.z + hb.z) - (if d.z >= 0 { d.z } else { -d.z });
    if ox < 0 || oy < 0 || oz < 0 {
        return Option::None;
    }
    let n: Vec3 = if ox <= oy && ox <= oz {
        Vec3 { x: if d.x >= 0 { FX_ONE } else { -FX_ONE }, y: 0, z: 0 }
    } else if oy <= oz {
        Vec3 { x: 0, y: if d.y >= 0 { FX_ONE } else { -FX_ONE }, z: 0 }
    } else {
        Vec3 { x: 0, y: 0, z: if d.z >= 0 { FX_ONE } else { -FX_ONE } }
    };
    let depth: i64 = if ox <= oy && ox <= oz {
        crate::fx::fx_clip(ox)
    } else if oy <= oz {
        crate::fx::fx_clip(oy)
    } else {
        crate::fx::fx_clip(oz)
    };
    let lx: i64 = if pa.x - ha.x >= pb.x - hb.x { pa.x - ha.x } else { pb.x - hb.x };
    let hx: i64 = if pa.x + ha.x <= pb.x + hb.x { pa.x + ha.x } else { pb.x + hb.x };
    let ly: i64 = if pa.y - ha.y >= pb.y - hb.y { pa.y - ha.y } else { pb.y - hb.y };
    let hy: i64 = if pa.y + ha.y <= pb.y + hb.y { pa.y + ha.y } else { pb.y + hb.y };
    let lz: i64 = if pa.z - ha.z >= pb.z - hb.z { pa.z - ha.z } else { pb.z - hb.z };
    let hz: i64 = if pa.z + ha.z <= pb.z + hb.z { pa.z + ha.z } else { pb.z + hb.z };
    let p = Vec3 {
        x: crate::fx::fx_clip(div_signed(lx + hx, 2)),
        y: crate::fx::fx_clip(div_signed(ly + hy, 2)),
        z: crate::fx::fx_clip(div_signed(lz + hz, 2)),
    };
    Option::Some(Contact { point: p, normal: n, depth })
}

/// The contact between a ball and an axis-aligned cuboid, if they touch:
/// the ball center is clamped to the box to find the closest point; a
/// center inside the box falls back to the axis of least penetration. The
/// normal points from the ball toward the cuboid.
pub open spec fn ball_cuboid_contact(pa: Vec3, ra: int, pb: Vec3, hb: Vec3) -> Option<Contact> {
    let cx = clamp1(pa.x as int, pb.x as int - hb.x as int, pb.x as int + hb.x as int);
    let cy = clamp1(pa.y as int, pb.y as int - hb.y as int, pb.y as int + hb.y as int);
    let cz = clamp1(pa.z as int, pb.z as int - hb.z as int, pb.z as int + hb.z as int);
    let d = Vec3 { x: clip(pa.x - cx) as i64, y: clip(pa.y - cy) as i64, z: clip(pa.z - cz) as i64 };
    let d2 = len_sq(d);
    if d2 > ra * ra {
        Option::None
    } else if d2 > 0 {
        let dist = sqrt_floor(d2);
        let n = Vec3 {
            x: tdiv(-(d.x as int) * (FX_ONE as int), dist) as i64,
            y: tdiv(-(d.y as int) * (FX_ONE as int), dist) as i64,
            z: tdiv(-(d.z as int) * (FX_ONE as int), dist) as i64,
        };
        Option::Some(
            Contact {
                point: Vec3 { x: clip(cx) as i64, y: clip(cy) as i64, z: clip(cz) as i64 },
                normal: n,
                depth: clip(ra - dist) as i64,
            },
        )
    } else {
        let px = (hb.x as int + ra) - iabs(pa.x as int - pb.x as int);
        let py = (hb.y as int + ra) - iabs(pa.y as int - pb.y as int);
        let pz = (hb.z as int + ra) - iabs(pa.z as int - pb.z as int);
        let n = if px <= py && px <= pz {
            Vec3 {
                x: if pb.x as int - pa.x as int >= 0 { FX_ONE } else { (-(FX_ONE as int)) as i64 },
                y: 0i64,
                z: 0i64,
            }
        } else if py <= pz {
            Vec3 {
                x: 0i64,
                y: if pb.y as int - pa.y as int >= 0 { FX_ONE } else { (-(FX_ONE as int)) as i64 },
                z: 0i64,
            }
        } else {
            Vec3 {
                x: 0i64,
                y: 0i64,
                z: if pb.z as int - pa.z as int >= 0 { FX_ONE } else { (-(FX_ONE as int)) as i64 },
            }
        };
        let depth = if px <= py && px <= pz {
            clip(px)
        } else if py <= pz {
            clip(py)
        } else {
            clip(pz)
        };
        Option::Some(Contact { point: pa, normal: n, depth: depth as i64 })
    }
}

/// Clamp of a scalar to an interval.
pub open spec fn clamp1(x: int, lo: int, hi: int) -> int {
    if x < lo {
        lo
    } else if x > hi {
        hi
    } else {
        x
    }
}

/// Executable ball-cuboid contact.
pub fn ball_cuboid_contact_exec(pa: Vec3, ra: i64, pb: Vec3, hb: Vec3) -> (r: Option<Contact>)
    requires
        v_fits(pa),
        v_fits(pb),
        v_fits(hb),
        0 < ra <= FX_MAX as int,
    ensures
        r == ball_cuboid_contact(pa, ra as int, pb, hb),
        r is Some ==> -3_000_000_000_000 <= r.unwrap().normal.x <= 3_000_000_000_000
            && -3_000_000_000_000 <= r.unwrap().normal.y <= 3_000_000_000_000
            && -3_000_000_000_000 <= r.unwrap().normal.z <= 3_000_000_000_000,
{
    let cx: i64 = if pa.x < pb.x - hb.x {
        pb.x - hb.x
    } else if pa.x > pb.x + hb.x {
        pb.x + hb.x
    } else {
        pa.x
    };
    let cy: i64 = if pa.y < pb.y - hb.y {
        pb.y - hb.y
    } else if pa.y > pb.y + hb.y {
        pb.y + hb.y
    } else {
        pa.y
    };
    let cz: i64 = if pa.z < pb.z - hb.z {
        pb.z - hb.z
    } else if pa.z > pb.z + hb.z {
        pb.z + hb.z
    } else {
        pa.z
    };
    let d = Vec3 {
        x: crate::fx::fx_clip(pa.x - cx),
        y: crate::fx::fx_clip(pa.y - cy),
        z: crate::fx::fx_clip(pa.z - cz),
    };
    let d2: u64 = len_sq_exec(&d);
    proof {
        assert((ra as u64) * (ra as u64) <= 4_000_000_000_000_000_000u64 && (ra as int) * (
        ra as int) == ((ra as u64) * (ra as u64)) as int) by (nonlinear_arith)
            requires
                0 < ra as int <= 2_000_000_000,
                ra as u64 == ra as int,
        ;
    }
    let ra2: u64 = (ra as u64) * (ra as u64);
    if d2 > ra2 {
        return Option::None;
    }
    if d2 > 0 {
        let dist_u: u64 = isqrt(d2);
        proof {
            lemma_sqrt_floor_bounds(d2 as int);
            assert(dist_u as int <= 4_294_967_296) by (nonlinear_arith)
                requires
                    dist_u as int >= 0,
                    (dist_u as int) * (dist_u as int) <= 18_446_744_073_709_551_615int,
            ;
            if dist_u == 0 {
                assert((d2 as int) < (sqrt_floor(d2 as int) + 1) * (sqrt_floor(d2 as int) + 1));
                assert((sqrt_floor(d2 as int) + 1) * (sqrt_floor(d2 as int) + 1) == 1)
                    by (nonlinear_arith)
                    requires
                        sqrt_floor(d2 as int) == 0,
                ;
                assert((d2 as int) < 1);
            }
        }
        let dist: i64 = dist_u as i64;
        let n = Vec3 {
            x: div_signed(-d.x * FX_ONE, dist),
            y: div_signed(-d.y * FX_ONE, dist),
            z: div_signed(-d.z * FX_ONE, dist),
        };
        Option::Some(
            Contact {
                point: Vec3 {
                    x: crate::fx::fx_clip(cx),
                    y: crate::fx::fx_clip(cy),
                    z: crate::fx::fx_clip(cz),
                },
                normal: n,
                depth: crate::fx::fx_clip(ra - dist),
            },
        )
    } else {
        let px: i64 = (hb.x + ra) - (if pa.x - pb.x >= 0 { pa.x - pb.x } else { -(pa.x - pb.x) });
        let py: i64 = (hb.y + ra) - (if pa.y - pb.y >= 0 { pa.y - pb.y } else { -(pa.y - pb.y) });
        let pz: i64 = (hb.z + ra) - (if pa.z - pb.z >= 0 { pa.z - pb.z } else { -(pa.z - pb.z) });
        let n: Vec3 = if px <= py && px <= pz {
            Vec3 { x: if pb.x - pa.x >= 0 { FX_ONE } else { -FX_ONE }, y: 0, z: 0 }
        } else if py <= pz {
            Vec3 { x: 0, y: if pb.y - pa.y >= 0 { FX_ONE } else { -FX_ONE }, z: 0 }
        } else {
            Vec3 { x: 0, y: 0, z: if pb.z - pa.z >= 0 { FX_ONE } else { -FX_ONE } }
        };
        let depth: i64 = if px <= py && px <= pz {
            crate::fx::fx_clip(px)
        } else if py <= pz {
            crate::fx::fx_clip(py)
        } else {
            crate::fx::fx_clip(pz)
        };
        Option::Some(Contact { point: pa, normal: n, depth })
    }
}

/// The same contact with its normal reversed, for dispatching a flipped
/// shape pair.
pub open spec fn flip_contact(c: Contact) -> Contact {
    Contact {
        point: c.point,
        normal: Vec3 {
            x: clip(-(c.normal.x as int)) as i64,
            y: clip(-(c.normal.y as int)) as i64,
            z: clip(-(c.normal.z as int)) as i64,
        },
        depth: c.depth,
    }
}

/// The contact between any two placed shapes, dispatched on the variant
/// pair; the normal always points from the first toward the second.
pub open spec fn shape_contact(sa: Shape, pa: Vec3, sb: Shape, pb: Vec3) -> Option<Contact> {
    match (sa, sb) {
        (Shape::Ball { radius: ra }, Shape::Ball { radius: rb }) => ball_ball_contact(
            pa,
            ra as int,
            pb,
            rb as int,
        ),
        (Shape::Ball { radius: ra }, Shape::Cuboid { hx, hy, hz }) => ball_cuboid_contact(
            pa,
            ra as int,
            pb,
            Vec3 { x: hx, y: hy, z: hz },
        ),
        (Shape::Cuboid { hx, hy, hz }, Shape::Ball { radius: rb }) => match ball_cuboid_contact(
            pb,
            rb as int,
            pa,
            Vec3 { x: hx, y: hy, z: hz },
        ) {
            Option::Some(c) => Option::Some(flip_contact(c)),
            Option::None => Option::None,
        },
        (Shape::Cuboid { hx: ax, hy: ay, hz: az }, Shape::Cuboid { hx: bx, hy: by, hz: bz }) =>
            cuboid_cuboid_contact(
            pa,
            Vec3 { x: ax, y: ay, z: az },
            pb,
            Vec3 { x: bx, y: by, z: bz },
        ),
    }
}

/// Executable shape-pair dispatch.
pub fn shape_contact_exec(sa: &Shape, pa: Vec3, sb: &Shape, pb: Vec3) -> (r: Option<Contact>)
    requires
        v_fits(pa),
        v_fits(pb),
        crate::shape::shape_valid(*sa),
        crate::shape::shape_valid(*sb),
    ensures
        r == shape_contact(*sa, pa, *sb, pb),
{
    match (sa, sb) {
        (Shape::Ball { radius: ra }, Shape::Ball { radius: rb }) => ball_ball_contact_exec(
            pa,
            *ra,
            pb,
            *rb,
        ),
        (Shape::Ball { radius: ra }, Shape::Cuboid { hx, hy, hz }) => ball_cuboid_contact_exec(
            pa,
            *ra,
            pb,
            Vec3 { x: *hx, y: *hy, z: *hz },
        ),
        (Shape::Cuboid { hx, hy, hz }, Shape::Ball { radius: rb }) => {
            match ball_cuboid_contact_exec(pb, *rb, pa, Vec3 { x: *hx, y: *hy, z: *hz }) {
                Option::Some(c) => Option::Some(
                    Contact {
                        point: c.point,
                        normal: Vec3 {
                            x: crate::fx::fx_clip(-c.normal.x),
                            y: crate::fx::fx_clip(-c.normal.y),
                            z: crate::fx::fx_clip(-c.normal.z),
                        },
                        depth: c.depth,
                    },
                ),
                Option::None => Option::None,
            }
        },
        (Shape::Cuboid { hx: ax, hy: ay, hz: az }, Shape::Cuboid { hx: bx, hy: by, hz: bz }) => {
            cuboid_cuboid_contact_exec(
                pa,
                Vec3 { x: *ax, y: *ay, z: *az },
                pb,
                Vec3 { x: *bx, y: *by, z: *bz },
            )
        },
    }
}

/// Truncating division with a positive divisor, exposed for geometry.
pub fn div_signed(a: i64, b: i64) -> (r: i64)
    requires
        b > 0,
        a > i64::MIN,
    ensures
        r as int == tdiv(a as int, b as int),
        a >= 0 ==> 0 <= r <= a,
        a < 0 ==> a <= r <= 0,
{
    proof {
        if a >= 0 {
            vstd::arithmetic::div_mod::lemma_div_is_ordered_by_denominator(a as int, 1, b as int);
            vstd::arithmetic::div_mod::lemma_div_pos_is_pos(a as int, b as int);
        } else {
            vstd::arithmetic::div_mod::lemma_div_is_ordered_by_denominator(-(a as int), 1, b as int);
            vstd::arithmetic::div_mod::lemma_div_pos_is_pos(-(a as int), b as int);
        }
    }
    if a >= 0 {
        a / b
    } else {
        -((-a) / b)
    }
}

} // verus!

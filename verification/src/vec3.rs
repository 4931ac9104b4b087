//! Three-component fixed-point vectors.

use vstd::prelude::*;
use crate::fx::{fits, clip, fx_mul_spec, fx_add, fx_sub, fx_mul, FX_MAX};

verus! {

/// A 3-vector of fixed-point scalars.
#[derive(Clone, Copy, PartialEq, Eq, Structural, Debug)]
pub struct Vec3 {
    pub x: i64,
    pub y: i64,
    pub z: i64,
}

/// All three components are in the representable range.
pub open spec fn v_fits(v: Vec3) -> bool {
    fits(v.x as int) && fits(v.y as int) && fits(v.z as int)
}

/// Saturating scalar addition, at spec level.
pub open spec fn cadd(a: int, b: int) -> int {
    clip(a + b)
}

/// Saturating fixed-point scalar product, at spec level.
pub open spec fn cmul(a: int, b: int) -> int {
    clip(fx_mul_spec(a, b))
}

/// Componentwise saturating sum.
pub open spec fn v_add_spec(a: Vec3, b: Vec3) -> Vec3 {
    Vec3 { x: cadd(a.x as int, b.x as int) as i64, y: cadd(a.y as int, b.y as int) as i64, z: cadd(
        a.z as int,
        b.z as int,
    ) as i64 }
}

/// Componentwise saturating difference.
pub open spec fn v_sub_spec(a: Vec3, b: Vec3) -> Vec3 {
    Vec3 {
        x: clip(a.x - b.x) as i64,
        y: clip(a.y - b.y) as i64,
        z: clip(a.z - b.z) as i64,
    }
}

/// Componentwise saturating scaling by a fixed-point factor.
pub open spec fn v_scale_spec(a: Vec3, s: int) -> Vec3 {
    Vec3 { x: cmul(a.x as int, s) as i64, y: cmul(a.y as int, s) as i64, z: cmul(
        a.z as int,
        s,
    ) as i64 }
}

/// Saturating fixed-point dot product, folded left over x, y, z.
pub open spec fn v_dot_spec(a: Vec3, b: Vec3) -> int {
    cadd(
        cadd(cmul(a.x as int, b.x as int), cmul(a.y as int, b.y as int)),
        cmul(a.z as int, b.z as int),
    )
}

impl Vec3 {
    /// The zero vector.
    pub fn zero() -> (r: Vec3)
        ensures
            r == (Vec3 { x: 0i64, y: 0i64, z: 0i64 }),
    {
        Vec3 { x: 0, y: 0, z: 0 }
    }

    /// Builds a vector after checking that each component is in range.
    pub fn new(x: i64, y: i64, z: i64) -> (r: Option<Vec3>)
        ensures
            r.is_some() <==> v_fits(Vec3 { x, y, z }),
            r.is_some() ==> r.unwrap() == (Vec3 { x, y, z }),
    {
        if x >= -FX_MAX && x <= FX_MAX && y >= -FX_MAX && y <= FX_MAX && z >= -FX_MAX && z
            <= FX_MAX {
            Some(Vec3 { x, y, z })
        } else {
            None
        }
    }

    /// Saturating vector sum.
    pub fn add(self, o: Vec3) -> (r: Vec3)
        requires
            v_fits(self),
            v_fits(o),
        ensures
            r == v_add_spec(self, o),
            v_fits(r),
    {
        Vec3 { x: fx_add(self.x, o.x), y: fx_add(self.y, o.y), z: fx_add(self.z, o.z) }
    }

    /// Saturating vector difference.
    pub fn sub(self, o: Vec3) -> (r: Vec3)
        requires
            v_fits(self),
            v_fits(o),
        ensures
            r == v_sub_spec(self, o),
            v_fits(r),
    {
        Vec3 { x: fx_sub(self.x, o.x), y: fx_sub(self.y, o.y), z: fx_sub(self.z, o.z) }
    }

    /// Saturating scaling by a fixed-point factor.
    pub fn scale(self, s: i64) -> (r: Vec3)
        requires
            v_fits(self),
            fits(s as int),
        ensures
            r == v_scale_spec(self, s as int),
            v_fits(r),
    {
        Vec3 { x: fx_mul(self.x, s), y: fx_mul(self.y, s), z: fx_mul(self.z, s) }
    }

    /// Saturating fixed-point dot product.
    pub fn dot(self, o: Vec3) -> (r: i64)
        requires
            v_fits(self),
            v_fits(o),
        ensures
            r as int == v_dot_spec(self, o),
            fits(r as int),
    {
        let mx: i64 = fx_mul(self.x, o.x);
        let my: i64 = fx_mul(self.y, o.y);
        let mz: i64 = fx_mul(self.z, o.z);
        fx_add(fx_add(mx, my), mz)
    }
}

} // verus!

//! Colliders: a shape placed in the world, optionally attached to a body.

use vstd::prelude::*;
use crate::arena::Handle;
use crate::shape::{Shape, shape_valid};
use crate::vec3::{Vec3, v_fits};

verus! {

/// A collision shape instance. It either follows a parent body (translated
/// by `offset` from the body's center) or stands alone as static geometry at
/// `offset` itself.
#[derive(Clone, Copy, PartialEq, Eq, Structural, Debug)]
pub struct Collider {
    /// The shape variant.
    pub shape: Shape,
    /// The owning body, or `None` for fixed geometry.
    pub parent: Option<Handle>,
    /// Displacement from the parent body's center, or the world position
    /// for a parentless collider.
    pub offset: Vec3,
    /// Collision group membership bits.
    pub groups: u32,
    /// Which groups this collider may touch.
    pub mask: u32,
}

/// Well-formedness of a collider's own data.
pub open spec fn collider_valid(c: Collider) -> bool {
    shape_valid(c.shape) && v_fits(c.offset)
}

/// The group filter both ways: each collider's groups must intersect the
/// other's mask. Applied before a candidate pair is ever reported.
pub open spec fn filter_pair(a: Collider, b: Collider) -> bool {
    (a.groups & b.mask) != 0 && (b.groups & a.mask) != 0
}

impl Collider {
    /// A collider over a validated shape, colliding with everything.
    pub fn new(shape: Shape, parent: Option<Handle>, offset: Vec3) -> (r: Result<
        Collider,
        crate::shape::PhysicsError,
    >)
        requires
            shape_valid(shape),
        ensures
            r.is_ok() <==> v_fits(offset),
            r.is_ok() ==> r.unwrap() == (Collider {
                shape,
                parent,
                offset,
                groups: 0xffff_ffffu32,
                mask: 0xffff_ffffu32,
            }),
            r.is_ok() ==> collider_valid(r.unwrap()),
            r.is_err() ==> r.unwrap_err() == crate::shape::PhysicsError::InvalidShapeParameters,
    {
        if Vec3::new(offset.x, offset.y, offset.z).is_some() {
            Ok(Collider { shape, parent, offset, groups: 0xffff_ffff, mask: 0xffff_ffff })
        } else {
            Err(crate::shape::PhysicsError::InvalidShapeParameters)
        }
    }

    /// The same collider restricted to the given groups and mask.
    pub fn with_filter(self, groups: u32, mask: u32) -> (r: Collider)
        ensures
            r == (Collider { groups, mask, ..self }),
    {
        Collider { shape: self.shape, parent: self.parent, offset: self.offset, groups, mask }
    }
}

} // verus!

//! Collision shapes, bounding boxes, and construction-time validation.

use vstd::prelude::*;
use crate::fx::{fits, FX_MAX};
use crate::vec3::{Vec3, v_fits};

verus! {

/// Errors surfaced to callers. Numerical degeneracies inside the solver are
/// recovered locally and never reported here.
#[derive(Clone, Copy, PartialEq, Eq, Structural, Debug)]
pub enum PhysicsError {
    /// The operation referenced a destroyed or unknown entity: the handle's
    /// generation does not match a live slot.
    InvalidHandle,
    /// Shape construction was given out-of-range parameters, such as a
    /// non-positive radius.
    InvalidShapeParameters,
}

/// The closed set of collision shape variants. Cuboids are axis-aligned:
/// this core models translational dynamics and central impulses.
#[derive(Clone, Copy, PartialEq, Eq, Structural, Debug)]
pub enum Shape {
    /// A sphere with the given fixed-point radius.
    Ball { radius: i64 },
    /// An axis-aligned box with the given fixed-point half-extents.
    Cuboid { hx: i64, hy: i64, hz: i64 },
}

/// Shape parameters are strictly positive and in range.
pub open spec fn shape_valid(s: Shape) -> bool {
    match s {
        Shape::Ball { radius } => 0 < radius <= FX_MAX as int,
        Shape::Cuboid { hx, hy, hz } => 0 < hx <= FX_MAX as int && 0 < hy <= FX_MAX as int && 0
            < hz <= FX_MAX as int,
    }
}

/// Runtime check of [`shape_valid`].
pub fn shape_check(s: &Shape) -> (r: bool)
    ensures
        r == shape_valid(*s),
{
    match s {
        Shape::Ball { radius } => *radius > 0 && *radius <= FX_MAX,
        Shape::Cuboid { hx, hy, hz } => *hx > 0 && *hx <= FX_MAX && *hy > 0 && *hy <= FX_MAX && *hz
            > 0 && *hz <= FX_MAX,
    }
}

impl Shape {
    /// Validated ball construction: fails exactly on a non-positive or
    /// out-of-range radius.
    pub fn ball(radius: i64) -> (r: Result<Shape, PhysicsError>)
        ensures
            r.is_ok() <==> shape_valid(Shape::Ball { radius }),
            r.is_ok() ==> r.unwrap() == (Shape::Ball { radius }),
            r.is_err() ==> r.unwrap_err() == PhysicsError::InvalidShapeParameters,
    {
        if radius > 0 && radius <= FX_MAX {
            Ok(Shape::Ball { radius })
        } else {
            Err(PhysicsError::InvalidShapeParameters)
        }
    }

    /// Validated cuboid construction: fails exactly when a half-extent is
    /// non-positive or out of range.
    pub fn cuboid(hx: i64, hy: i64, hz: i64) -> (r: Result<Shape, PhysicsError>)
        ensures
            r.is_ok() <==> shape_valid(Shape::Cuboid { hx, hy, hz }),
            r.is_ok() ==> r.unwrap() == (Shape::Cuboid { hx, hy, hz }),
            r.is_err() ==> r.unwrap_err() == PhysicsError::InvalidShapeParameters,
    {
        if hx > 0 && hx <= FX_MAX && hy > 0 && hy <= FX_MAX && hz > 0 && hz <= FX_MAX {
            Ok(Shape::Cuboid { hx, hy, hz })
        } else {
            Err(PhysicsError::InvalidShapeParameters)
        }
    }

    /// The half-extent of the shape along each axis (a ball's radius, a
    /// cuboid's half-extents), used for bounding boxes.
    pub open spec fn half_extents_spec(self) -> Vec3 {
        match self {
            Shape::Ball { radius } => Vec3 { x: radius, y: radius, z: radius },
            Shape::Cuboid { hx, hy, hz } => Vec3 { x: hx, y: hy, z: hz },
        }
    }

    /// Executable half-extents.
    pub fn half_extents(&self) -> (r: Vec3)
        ensures
            r == self.half_extents_spec(),
    {
        match self {
            Shape::Ball { radius } => Vec3 { x: *radius, y: *radius, z: *radius },
            Shape::Cuboid { hx, hy, hz } => Vec3 { x: *hx, y: *hy, z: *hz },
        }
    }

    /// The smallest half-extent: the scale against which one step's
    /// displacement is judged a tunneling risk.
    pub open spec fn min_extent_spec(self) -> int {
        let h = self.half_extents_spec();
        if h.x <= h.y && h.x <= h.z {
            h.x as int
        } else if h.y <= h.z {
            h.y as int
        } else {
            h.z as int
        }
    }

    /// Executable smallest half-extent.
    pub fn min_extent(&self) -> (r: i64)
        ensures
            r as int == self.min_extent_spec(),
    {
        let h = self.half_extents();
        if h.x <= h.y && h.x <= h.z {
            h.x
        } else if h.y <= h.z {
            h.y
        } else {
            h.z
        }
    }
}

} // verus!

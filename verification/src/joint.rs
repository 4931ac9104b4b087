//! Joint constraints between two bodies.

use vstd::prelude::*;
use crate::arena::Handle;
use crate::vec3::{Vec3, v_fits};

verus! {

/// A coordinate axis, used to parameterize joint degrees of freedom.
#[derive(Clone, Copy, PartialEq, Eq, Structural, Debug)]
pub enum Axis {
    X,
    Y,
    Z,
}

/// The closed set of joint variants, each defining which relative linear
/// motion it removes. The set would grow alongside angular dynamics.
#[derive(Clone, Copy, PartialEq, Eq, Structural, Debug)]
pub enum JointKind {
    /// Locks all relative translation: the second body is held at the rest
    /// offset from the first.
    Fixed,
    /// Allows translation along one axis only, locking the other two.
    Prismatic { axis: Axis },
}

/// A joint between two bodies, holding its rest offset (the target of
/// `pos_b - pos_a`) and the impulses accumulated last step for warm
/// starting.
#[derive(Clone, Copy, PartialEq, Eq, Structural, Debug)]
pub struct Joint {
    pub body_a: Handle,
    pub body_b: Handle,
    pub kind: JointKind,
    /// Desired `pos_b - pos_a`.
    pub rest_offset: Vec3,
    /// Accumulated impulse from the previous solve, per axis.
    pub warm_impulse: Vec3,
}

/// Well-formedness of a joint's numeric state.
pub open spec fn joint_valid(j: Joint) -> bool {
    v_fits(j.rest_offset) && v_fits(j.warm_impulse)
}

/// Whether the joint constrains motion along the given axis.
pub open spec fn joint_locks_axis(kind: JointKind, axis: Axis) -> bool {
    match kind {
        JointKind::Fixed => true,
        JointKind::Prismatic { axis: free } => free != axis,
    }
}

impl Joint {
    /// A joint of the given kind with zero warm-start impulse. Fails exactly
    /// when the rest offset is out of range.
    pub fn new(body_a: Handle, body_b: Handle, kind: JointKind, rest_offset: Vec3) -> (r: Result<
        Joint,
        crate::shape::PhysicsError,
    >)
        ensures
            r.is_ok() <==> v_fits(rest_offset),
            r.is_ok() ==> r.unwrap() == (Joint {
                body_a,
                body_b,
                kind,
                rest_offset,
                warm_impulse: Vec3 { x: 0i64, y: 0i64, z: 0i64 },
            }),
            r.is_ok() ==> joint_valid(r.unwrap()),
            r.is_err() ==> r.unwrap_err() == crate::shape::PhysicsError::InvalidShapeParameters,
    {
        if Vec3::new(rest_offset.x, rest_offset.y, rest_offset.z).is_some() {
            Ok(
                Joint {
                    body_a,
                    body_b,
                    kind,
                    rest_offset,
                    warm_impulse: Vec3 { x: 0, y: 0, z: 0 },
                },
            )
        } else {
            Err(crate::shape::PhysicsError::InvalidShapeParameters)
        }
    }
}

} // verus!

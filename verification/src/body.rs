//! Rigid bodies: pose, velocity, mass, and sleep state.

use vstd::prelude::*;
use crate::fx::{fits, FX_MAX};
use crate::vec3::{Vec3, v_fits};

verus! {

/// How a body participates in the simulation.
#[derive(Clone, Copy, PartialEq, Eq, Structural, Debug)]
pub enum BodyType {
    /// Moved by forces and impulses.
    Dynamic,
    /// Pose driven externally; infinite mass, unaffected by forces.
    Kinematic,
    /// Never moves.
    Static,
}

/// A rigid body. This core models translational dynamics with central
/// impulses: orientation is carried as an accumulated small-angle rotation
/// vector that contact generation does not consult (shapes are axis-aligned).
#[derive(Clone, Copy, PartialEq, Eq, Structural, Debug)]
pub struct RigidBody {
    /// World-space position of the center of mass.
    pub pos: Vec3,
    /// Linear velocity.
    pub vel: Vec3,
    /// Angular velocity, integrated into `rot` but not coupled to contacts.
    pub angvel: Vec3,
    /// Accumulated rotation vector.
    pub rot: Vec3,
    /// Inverse mass in fixed point; zero for static and kinematic bodies,
    /// strictly positive for dynamic ones, so no constraint ever divides by
    /// a near-zero effective mass.
    pub inv_mass: i64,
    /// Coefficient of restitution in fixed point (`FX_ONE` = perfectly
    /// elastic).
    pub restitution: i64,
    /// Dynamic, kinematic or static.
    pub body_type: BodyType,
    /// Whether the body is asleep; sleeping bodies are skipped by every
    /// pipeline stage until woken.
    pub sleeping: bool,
    /// Consecutive steps this body's island has stayed below the sleep
    /// velocity threshold.
    pub sleep_steps: u32,
}

/// Well-formedness of a body's numeric state.
pub open spec fn body_valid(b: RigidBody) -> bool {
    &&& v_fits(b.pos)
    &&& v_fits(b.vel)
    &&& v_fits(b.angvel)
    &&& v_fits(b.rot)
    &&& 0 <= b.inv_mass <= FX_MAX as int
    &&& (b.body_type is Dynamic ==> b.inv_mass > 0)
    &&& (!(b.body_type is Dynamic) ==> b.inv_mass == 0)
    &&& 0 <= b.restitution <= FX_MAX as int
}

/// A body takes part in solving: dynamic and awake.
pub open spec fn body_active(b: RigidBody) -> bool {
    b.body_type is Dynamic && !b.sleeping
}

impl RigidBody {
    /// A dynamic body at rest at `pos`, with the given inverse mass and
    /// restitution. Fails exactly when the position is out of range, the
    /// inverse mass is not strictly positive, or the restitution is
    /// negative or out of range.
    pub fn dynamic(pos: Vec3, inv_mass: i64, restitution: i64) -> (r: Result<
        RigidBody,
        crate::shape::PhysicsError,
    >)
        ensures
            r.is_ok() <==> (v_fits(pos) && 0 < inv_mass <= FX_MAX as int && 0 <= restitution
                <= FX_MAX as int),
            r.is_ok() ==> r.unwrap() == (RigidBody {
                pos,
                vel: Vec3 { x: 0i64, y: 0i64, z: 0i64 },
                angvel: Vec3 { x: 0i64, y: 0i64, z: 0i64 },
                rot: Vec3 { x: 0i64, y: 0i64, z: 0i64 },
                inv_mass,
                restitution,
                body_type: BodyType::Dynamic,
                sleeping: false,
                sleep_steps: 0u32,
            }),
            r.is_ok() ==> body_valid(r.unwrap()) && body_active(r.unwrap()),
            r.is_err() ==> r.unwrap_err() == crate::shape::PhysicsError::InvalidShapeParameters,
    {
        let zero = Vec3 { x: 0, y: 0, z: 0 };
        if Vec3::new(pos.x, pos.y, pos.z).is_some() && inv_mass > 0 && inv_mass <= FX_MAX
            && restitution >= 0 && restitution <= FX_MAX {
            Ok(
                RigidBody {
                    pos,
                    vel: zero,
                    angvel: zero,
                    rot: zero,
                    inv_mass,
                    restitution,
                    body_type: BodyType::Dynamic,
                    sleeping: false,
                    sleep_steps: 0,
                },
            )
        } else {
            Err(crate::shape::PhysicsError::InvalidShapeParameters)
        }
    }

    /// A body that never moves, placed at `pos`.
    pub fn fixed(pos: Vec3) -> (r: Result<RigidBody, crate::shape::PhysicsError>)
        ensures
            r.is_ok() <==> v_fits(pos),
            r.is_ok() ==> r.unwrap() == (RigidBody {
                pos,
                vel: Vec3 { x: 0i64, y: 0i64, z: 0i64 },
                angvel: Vec3 { x: 0i64, y: 0i64, z: 0i64 },
                rot: Vec3 { x: 0i64, y: 0i64, z: 0i64 },
                inv_mass: 0i64,
                restitution: 0i64,
                body_type: BodyType::Static,
                sleeping: false,
                sleep_steps: 0u32,
            }),
            r.is_ok() ==> body_valid(r.unwrap()),
            r.is_err() ==> r.unwrap_err() == crate::shape::PhysicsError::InvalidShapeParameters,
    {
        let zero = Vec3 { x: 0, y: 0, z: 0 };
        if Vec3::new(pos.x, pos.y, pos.z).is_some() {
            Ok(
                RigidBody {
                    pos,
                    vel: zero,
                    angvel: zero,
                    rot: zero,
                    inv_mass: 0,
                    restitution: 0,
                    body_type: BodyType::Static,
                    sleeping: false,
                    sleep_steps: 0,
                },
            )
        } else {
            Err(crate::shape::PhysicsError::InvalidShapeParameters)
        }
    }
}

} // verus!

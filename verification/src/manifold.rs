//! Contact manifolds and the events a step reports.

use vstd::prelude::*;
use crate::arena::Handle;
use crate::fx::fits;
use crate::vec3::Vec3;

verus! {

/// One contact point: where two shapes touch, the contact normal (unit
/// length in fixed point, pointing from the first collider toward the
/// second), and how deep they interpenetrate (non-negative, raw units).
#[derive(Clone, Copy, PartialEq, Eq, Structural, Debug)]
pub struct Contact {
    pub point: Vec3,
    pub normal: Vec3,
    pub depth: i64,
}

/// A persistent contact manifold for an ordered collider pair. It is
/// retained while the pair's fattened bounds overlap and carries the
/// previous step's accumulated impulse so the solver can warm-start.
#[derive(Clone, Copy, PartialEq, Eq, Structural, Debug)]
pub struct Manifold {
    /// The pair, ordered by slot index so manifold order never depends on
    /// discovery order.
    pub collider_a: Handle,
    pub collider_b: Handle,
    /// The current contact, if the shapes actually touch.
    pub contact: Option<Contact>,
    /// Accumulated normal impulse from the last solve, the warm-start seed.
    pub warm_impulse: i64,
    /// Consecutive steps this manifold has had no contact; it is dropped
    /// once this passes the retention limit.
    pub steps_without_contact: u32,
}

/// How many consecutive contactless steps a manifold survives before it is
/// dropped and a separation event is reported.
pub const MANIFOLD_RETENTION: u32 = 4;

/// Well-formedness of a manifold's bookkeeping. Contact coordinates are
/// clamped where they are consumed, so they carry no invariant here.
pub open spec fn manifold_valid(m: Manifold) -> bool {
    &&& m.collider_a.index < m.collider_b.index
    &&& fits(m.warm_impulse as int)
    &&& 0 <= m.warm_impulse
    &&& m.steps_without_contact <= MANIFOLD_RETENTION
}

/// What a step reports about contact state changes.
#[derive(Clone, Copy, PartialEq, Eq, Structural, Debug)]
pub enum ContactEvent {
    /// The pair's manifold gained its first contact point.
    Started { collider_a: Handle, collider_b: Handle },
    /// The pair separated: its manifold lost its contact or was dropped.
    Stopped { collider_a: Handle, collider_b: Handle },
    /// Continuous collision detection gave up on this body within its
    /// budget and kept the integrated pose.
    CcdBudgetExceeded { body: Handle },
}

} // verus!

//! A deterministic rigid-body physics core.
//!
//! The engine advances a set of rigid bodies, collision shapes and joint
//! constraints one discrete time step at a time, resolving contacts so that
//! bodies do not interpenetrate. All state is held in fixed-point integer
//! arithmetic, so a step is a pure function of its inputs: replaying the same
//! snapshot with the same configuration reproduces bit-identical state on any
//! machine, regardless of how many workers a host would use.

pub mod fx;
pub mod vec3;
pub mod arena;
pub mod shape;
pub mod body;
pub mod collider;
pub mod joint;
pub mod manifold;
pub mod geometry;
pub mod pipeline;
pub mod narrow;
pub mod solver;
pub mod island;
pub mod ccd;
pub mod step;
pub mod world;

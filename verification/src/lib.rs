//! A fixed-timestep 2D rigid-body simulation core for a top-down action game.
//!
//! The library owns all physical bodies and shapes, advances them
//! deterministically in fixed time steps, and turns raw contact events into
//! gameplay effects: bullet damage, knockback, and entity lifecycle.
//!
//! All quantities are exact fixed-point integers: lengths, velocities and
//! masses carry a scale of [`num::SCALE`] units per world unit, and time is
//! measured in microseconds.  This keeps every state transition a pure
//! integer function, so the whole simulation is deterministic and its
//! behaviour can be stated and proved exactly.

use vstd::prelude::*;

pub mod arena;
pub mod body;
pub mod contact;
pub mod damage;
pub mod handle;
pub mod lights;
pub mod movement;
pub mod num;
pub mod physics;
pub mod registry;
pub mod shape;
pub mod timestep;
pub mod vec2;

verus! {

/// Errors reported by the simulation core.
///
/// `InvalidHandle` marks an operation against a removed or unknown body or
/// shape; callers treat it as a skip, since removal races within a tick are
/// expected.  `CapacityExceeded` marks a bounded resource (the light
/// registry) refusing a new registration.
#[derive(Clone, Copy, Debug, PartialEq, Eq, Structural)]
pub enum SimError {
    InvalidHandle,
    CapacityExceeded,
}

} // verus!

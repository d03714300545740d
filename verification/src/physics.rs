//! Plain physics components carried by simulation objects.
//!
//! The physics engine itself is an external collaborator; these are the
//! parts of its state the synchronization layer tags objects with.

use vstd::prelude::*;

verus! {

/// Collision-resolution dominance group of a body.
#[derive(Clone, Copy, PartialEq, Eq, Debug, Structural)]
pub struct Dominance {
    pub group: i8,
}

/// Marker for a dynamically simulated rigid body.
#[derive(Clone, Copy, PartialEq, Eq, Debug, Structural)]
pub struct RigidBody;

} // verus!

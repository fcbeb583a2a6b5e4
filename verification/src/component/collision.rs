//! The per-frame collision update system and the kinds of collider.

use vstd::prelude::*;

verus! {

/// The system that runs collision processing each frame.
#[derive(Debug, Clone, Copy)]
pub struct CollisionUpdateSystem;

/// The kinds of collision volume.
#[derive(Debug, Clone, Copy)]
pub enum Collider {
    Sphere,
    AABB,
    OBB,
    ConvexHull,
    Mesh,
}

} // verus!

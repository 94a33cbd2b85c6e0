//! Which bodies collide with which, and the rays that look for them.

use crate::entity::Entity;
use crate::scalar::Scalar;
use crate::vector::Vec3;
use vstd::prelude::*;

verus! {

/// The layers that a body can belong to.
#[derive(Clone, Copy, Debug, PartialEq, Eq, Structural)]
pub enum GameLayer {
    Default,
    Player,
    Ground,
}

/// The mask that holds every layer.
pub const ALL_LAYERS: u32 = 0xffff_ffff;

/// What a body is, and what it collides with.
#[derive(Clone, Copy, Debug, PartialEq, Eq, Structural)]
pub struct CollisionLayers {
    pub memberships: u32,
    pub filters: u32,
}

impl GameLayer {
    pub open spec fn spec_bit(self) -> u32 {
        match self {
            GameLayer::Default => 1,
            GameLayer::Player => 2,
            GameLayer::Ground => 4,
        }
    }

    /// The bit of this layer in a mask.
    #[verifier::when_used_as_spec(spec_bit)]
    pub fn bit(self) -> (r: u32)
        ensures
            r == self.spec_bit(),
    {
        match self {
            GameLayer::Default => 1,
            GameLayer::Player => 2,
            GameLayer::Ground => 4,
        }
    }
}

pub open spec fn spec_mask_of(default: bool, player: bool, ground: bool) -> u32 {
    match (default, player, ground) {
        (false, false, false) => 0,
        (true, false, false) => 1,
        (false, true, false) => 2,
        (true, true, false) => 3,
        (false, false, true) => 4,
        (true, false, true) => 5,
        (false, true, true) => 6,
        (true, true, true) => 7,
    }
}

/// The mask of the named layers that are wanted.
#[verifier::when_used_as_spec(spec_mask_of)]
pub fn mask_of(default: bool, player: bool, ground: bool) -> (r: u32)
    ensures
        r == spec_mask_of(default, player, ground),
{
    match (default, player, ground) {
        (false, false, false) => 0,
        (true, false, false) => 1,
        (false, true, false) => 2,
        (true, true, false) => 3,
        (false, false, true) => 4,
        (true, false, true) => 5,
        (false, true, true) => 6,
        (true, true, true) => 7,
    }
}

/// A ray to be sent through the world. It meets the first body within its range
/// that it does not ignore.
#[derive(Debug)]
pub struct Ray {
    pub origin: Vec3,
    /// One long.
    pub direction: Vec3,
    pub range: Scalar,
    pub ignored: Vec<Entity>,
}

impl Ray {
    /// Whether the ray goes from `origin` along `direction`, as far as `range`, and
    /// through what is in `ignored`.
    pub open spec fn goes(
        self,
        origin: Vec3,
        direction: Vec3,
        range: Scalar,
        ignored: Seq<Entity>,
    ) -> bool {
        &&& self.origin == origin
        &&& self.direction == direction
        &&& self.range == range
        &&& self.ignored@ == ignored
    }
}

impl CollisionLayers {
    pub open spec fn spec_new(layer: GameLayer, filters: u32) -> CollisionLayers {
        CollisionLayers { memberships: layer.bit(), filters }
    }

    /// A body of one layer that collides with those in `filters`.
    #[verifier::when_used_as_spec(spec_new)]
    pub fn new(layer: GameLayer, filters: u32) -> (r: CollisionLayers)
        ensures
            r == Self::spec_new(layer, filters),
    {
        CollisionLayers { memberships: layer.bit(), filters }
    }
}

} // verus!

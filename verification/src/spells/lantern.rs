//! Lanterns, as their caster throws them and picks them up.

use crate::net::protocol::{PickupLanternMessage, ThrowLanternMessage};
use crate::scalar::Scalar;
use crate::spells::portal::up;
use crate::vector::Vec3;
use vstd::prelude::*;

verus! {

/// How fast a lantern is thrown ahead (`9.0`).
#[verifier::allow_in_spec]
pub fn throw_forward() -> Scalar
    returns
        (Scalar { bits: 0x4110_0000 }),
{
    Scalar { bits: 0x4110_0000 }
}

/// How fast a lantern is thrown up (`3.0`).
#[verifier::allow_in_spec]
pub fn throw_up() -> Scalar
    returns
        (Scalar { bits: 0x4040_0000 }),
{
    Scalar { bits: 0x4040_0000 }
}

/// How far ahead of the eyes a lantern starts (`1.5`).
#[verifier::allow_in_spec]
pub fn spawn_offset_forward() -> Scalar
    returns
        (Scalar { bits: 0x3fc0_0000 }),
{
    Scalar { bits: 0x3fc0_0000 }
}

pub open spec fn spec_throw_handler(eye: Vec3, forward: Vec3) -> ThrowLanternMessage {
    ThrowLanternMessage {
        origin: eye.plus(forward.scale(spawn_offset_forward())),
        velocity: forward.scale(throw_forward()).plus(up().scale(throw_up())),
    }
}

/// The throw of a player whose eyes are at `eye` and look `forward`.
#[verifier::when_used_as_spec(spec_throw_handler)]
pub fn throw_handler(eye: Vec3, forward: Vec3) -> (r: ThrowLanternMessage)
    ensures
        r == spec_throw_handler(eye, forward),
{
    ThrowLanternMessage {
        origin: eye.plus(forward.scale(spawn_offset_forward())),
        velocity: forward.scale(throw_forward()).plus(up().scale(throw_up())),
    }
}

pub open spec fn spec_pickup_handler(position: Vec3) -> PickupLanternMessage {
    PickupLanternMessage { player_position: position }
}

/// The request of a player at `position` to pick up what is near.
#[verifier::when_used_as_spec(spec_pickup_handler)]
pub fn pickup_handler(position: Vec3) -> (r: PickupLanternMessage)
    ensures
        r == spec_pickup_handler(position),
{
    PickupLanternMessage { player_position: position }
}

} // verus!

//! The iris: it gathers the lens's power, and lets it go in one burst.

use crate::net::protocol::BeamImpulseMessage;
use crate::scalar::{zero, Scalar};
use crate::spells::convex_lens::{BeamHit, BentSegment};
use crate::spells::effects::Push;
use crate::spells::engine::{CastInstance, CastPhase};
use crate::vector::Vec3;
use vstd::prelude::*;

verus! {

/// How far a burst goes (`30.0`).
#[verifier::allow_in_spec]
pub fn iris_beam_range() -> Scalar
    returns
        (Scalar { bits: 0x41f0_0000 }),
{
    Scalar { bits: 0x41f0_0000 }
}

/// The full charge (`3.0`).
#[verifier::allow_in_spec]
pub fn iris_max_charge() -> Scalar
    returns
        (Scalar { bits: 0x4040_0000 }),
{
    Scalar { bits: 0x4040_0000 }
}

/// How long a burst is seen (`0.12`).
#[verifier::allow_in_spec]
pub fn iris_burst_duration() -> Scalar
    returns
        (Scalar { bits: 0x3df5_c28f }),
{
    Scalar { bits: 0x3df5_c28f }
}

/// How hard a burst pushes at a charge of one (`150.0`).
#[verifier::allow_in_spec]
pub fn iris_burst_impulse() -> Scalar
    returns
        (Scalar { bits: 0x4316_0000 }),
{
    Scalar { bits: 0x4316_0000 }
}

/// How much a burst hurts at a charge of one (`22.0`).
#[verifier::allow_in_spec]
pub fn iris_burst_damage() -> Scalar
    returns
        (Scalar { bits: 0x41b0_0000 }),
{
    Scalar { bits: 0x41b0_0000 }
}

/// The least charge that bursts (`0.05`).
#[verifier::allow_in_spec]
pub fn iris_burst_min() -> Scalar
    returns
        (Scalar { bits: 0x3d4c_cccd }),
{
    Scalar { bits: 0x3d4c_cccd }
}

/// How wide a burst is, from its middle (`0.07`).
#[verifier::allow_in_spec]
pub fn iris_burst_radius() -> Scalar
    returns
        (Scalar { bits: 0x3d8f_5c29 }),
{
    Scalar { bits: 0x3d8f_5c29 }
}

/// A burst that is still seen.
#[derive(Clone, Copy, Debug, PartialEq, Eq, Structural)]
pub struct IrisBurst {
    pub burst_charge: Scalar,
    pub burst_timer: Scalar,
}

pub open spec fn spec_burst_charge(instance: Option<CastInstance>) -> Option<Scalar> {
    match instance {
        Some(instance) => {
            let charge = match instance.captured_charge {
                Some(charge) => charge,
                None => zero(),
            };
            if instance.phase != CastPhase::Releasing || charge.lt(iris_burst_min()) {
                None
            } else {
                Some(charge)
            }
        },
        None => None,
    }
}

/// The charge that bursts this frame, if the cast is let go with enough of it.
#[verifier::when_used_as_spec(spec_burst_charge)]
pub fn burst_charge(instance: Option<CastInstance>) -> (r: Option<Scalar>)
    ensures
        r == spec_burst_charge(instance),
{
    match instance {
        Some(instance) => {
            let charge = match instance.captured_charge {
                Some(charge) => charge,
                None => zero(),
            };
            if instance.phase != CastPhase::Releasing || charge.lt(iris_burst_min()) {
                None
            } else {
                Some(charge)
            }
        },
        None => None,
    }
}

/// Starts a burst if one is due: the result is its charge.
pub fn apply_burst_on_release(burst: &mut IrisBurst, instance: Option<CastInstance>) -> (r: Option<
    Scalar,
>)
    ensures
        r == burst_charge(instance),
        *final(burst) == (match burst_charge(instance) {
            Some(charge) => IrisBurst { burst_charge: charge, burst_timer: iris_burst_duration() },
            None => *old(burst),
        }),
{
    let due = burst_charge(instance);
    if let Some(charge) = due {
        *burst = IrisBurst { burst_charge: charge, burst_timer: iris_burst_duration() };
    }
    due
}

pub open spec fn spec_burst_push(hit: BeamHit, charge: Scalar) -> Option<Push> {
    match hit.impulse_info {
        Some(info) => Some(
            Push {
                entity: info.entity,
                impulse: info.direction.scale(iris_burst_impulse()).scale(charge),
            },
        ),
        None => None,
    }
}

/// The push that what a burst meets gets.
#[verifier::when_used_as_spec(spec_burst_push)]
pub fn burst_push(hit: BeamHit, charge: Scalar) -> (r: Option<Push>)
    ensures
        r == spec_burst_push(hit, charge),
{
    match hit.impulse_info {
        Some(info) => Some(
            Push {
                entity: info.entity,
                impulse: info.direction.scale(iris_burst_impulse()).scale(charge),
            },
        ),
        None => None,
    }
}

pub open spec fn spec_burst_message(
    lens: Vec3,
    direction: Vec3,
    charge: Scalar,
) -> BeamImpulseMessage {
    BeamImpulseMessage {
        origin: lens,
        direction,
        range: iris_beam_range(),
        magnitude: iris_burst_impulse().times(charge),
        damage: iris_burst_damage().times(charge),
    }
}

/// The burst, for the server to carry out.
#[verifier::when_used_as_spec(spec_burst_message)]
pub fn burst_message(lens: Vec3, direction: Vec3, charge: Scalar) -> (r: BeamImpulseMessage)
    ensures
        r == spec_burst_message(lens, direction, charge),
{
    BeamImpulseMessage {
        origin: lens,
        direction,
        range: iris_beam_range(),
        magnitude: iris_burst_impulse().times(charge),
        damage: iris_burst_damage().times(charge),
    }
}

/// Lets `dt` seconds of a burst pass. The result tells whether it is seen.
pub fn drive_iris_flash(burst: &mut IrisBurst, in_control: bool, dt: Scalar) -> (r: bool)
    ensures
        r == (in_control && !old(burst).burst_timer.le(zero())),
        final(burst).burst_charge == old(burst).burst_charge,
        final(burst).burst_timer == (if r {
            old(burst).burst_timer.minus(dt).max(zero())
        } else {
            old(burst).burst_timer
        }),
{
    if !in_control || burst.burst_timer.le(zero()) {
        return false;
    }
    burst.burst_timer = burst.burst_timer.minus(dt).max(zero());
    true
}

pub open spec fn spec_burst_beyond(hit: BeamHit) -> Option<BentSegment> {
    match hit.bent {
        Some(bent) => match bent.direction.direction() {
            Some(_) => Some(bent),
            None => None,
        },
        None => None,
    }
}

/// The part of a burst beyond a portal, where it can be drawn.
#[verifier::when_used_as_spec(spec_burst_beyond)]
pub fn burst_beyond(hit: BeamHit) -> (r: Option<BentSegment>)
    ensures
        r == spec_burst_beyond(hit),
{
    match hit.bent {
        Some(bent) => match bent.direction.direction() {
            Some(_) => Some(bent),
            None => None,
        },
        None => None,
    }
}

} // verus!

//! Portals that a player carries ahead.

use crate::net::protocol::HoldPortalMessage;
use crate::scalar::{zero, Scalar};
use crate::spells::engine::{CastInstance, CastPhase};
use crate::spells::portal::{ahead, disc_rotation, PortalSlot};
use crate::vector::{Quat, Vec3};
use vstd::prelude::*;

verus! {

/// How far ahead of the eyes a carried portal is (`2.0`).
#[verifier::allow_in_spec]
pub fn held_portal_distance() -> Scalar
    returns
        (Scalar { bits: 0x4000_0000 }),
{
    Scalar { bits: 0x4000_0000 }
}

/// Which portals were carried a frame ago.
#[derive(Clone, Copy, Debug, PartialEq, Eq, Structural)]
pub struct HandheldTx {
    pub primary_active: bool,
    pub secondary_active: bool,
}

/// Where the eyes of a carrier are, and where they look.
#[derive(Clone, Copy, Debug, PartialEq, Eq, Structural)]
pub struct Carrier {
    pub eye: Vec3,
    pub forward: Vec3,
    pub yaw: Scalar,
    pub pitch: Scalar,
}

pub open spec fn spec_is_channeling(instance: Option<CastInstance>) -> bool {
    match instance {
        Some(instance) => instance.phase == CastPhase::Channeling,
        None => false,
    }
}

/// Whether a cast channels.
#[verifier::when_used_as_spec(spec_is_channeling)]
pub fn is_channeling(instance: Option<CastInstance>) -> (r: bool)
    ensures
        r == spec_is_channeling(instance),
{
    match instance {
        Some(instance) => instance.phase == CastPhase::Channeling,
        None => false,
    }
}

pub open spec fn spec_slot_message(
    slot: PortalSlot,
    channeling: bool,
    was_active: bool,
    carrier: Carrier,
) -> Option<HoldPortalMessage> {
    if channeling {
        Some(
            HoldPortalMessage {
                slot,
                active: true,
                position: carrier.eye.plus(carrier.forward.scale(held_portal_distance())),
                yaw: carrier.yaw,
                pitch: carrier.pitch,
            },
        )
    } else if was_active {
        Some(
            HoldPortalMessage {
                slot,
                active: false,
                position: Vec3::origin(),
                yaw: zero(),
                pitch: zero(),
            },
        )
    } else {
        None
    }
}

/// What is sent about one portal: where it is while it is carried, and once that
/// it is let go.
#[verifier::when_used_as_spec(spec_slot_message)]
pub fn slot_message(
    slot: PortalSlot,
    channeling: bool,
    was_active: bool,
    carrier: Carrier,
) -> (r: Option<HoldPortalMessage>)
    ensures
        r == spec_slot_message(slot, channeling, was_active, carrier),
{
    if channeling {
        Some(
            HoldPortalMessage {
                slot,
                active: true,
                position: carrier.eye.plus(carrier.forward.scale(held_portal_distance())),
                yaw: carrier.yaw,
                pitch: carrier.pitch,
            },
        )
    } else if was_active {
        Some(
            HoldPortalMessage {
                slot,
                active: false,
                position: Vec3::origin(),
                yaw: zero(),
                pitch: zero(),
            },
        )
    } else {
        None
    }
}

/// What is sent about both portals this frame.
pub fn drive_handheld_portal_messages(
    tx: &mut HandheldTx,
    primary: Option<CastInstance>,
    secondary: Option<CastInstance>,
    carrier: Carrier,
) -> (r: (Option<HoldPortalMessage>, Option<HoldPortalMessage>))
    ensures
        r.0 == slot_message(
            PortalSlot::Primary,
            is_channeling(primary),
            old(tx).primary_active,
            carrier,
        ),
        r.1 == slot_message(
            PortalSlot::Secondary,
            is_channeling(secondary),
            old(tx).secondary_active,
            carrier,
        ),
        final(tx).primary_active == is_channeling(primary),
        final(tx).secondary_active == is_channeling(secondary),
{
    let first = slot_message(
        PortalSlot::Primary,
        is_channeling(primary),
        tx.primary_active,
        carrier,
    );
    let second = slot_message(
        PortalSlot::Secondary,
        is_channeling(secondary),
        tx.secondary_active,
        carrier,
    );
    tx.primary_active = is_channeling(primary);
    tx.secondary_active = is_channeling(secondary);
    (first, second)
}

/// That a portal is let go is sent once: a frame later there is nothing to send.
pub proof fn law_release_is_sent_once(slot: PortalSlot, carrier: Carrier, later: Carrier)
    ensures
        slot_message(slot, false, true, carrier) is Some,
        !slot_message(slot, false, true, carrier)->Some_0.active,
        slot_message(slot, false, false, later) is None,
{
}

pub open spec fn spec_sync_handheld_portal_rotation(yaw: Quat, pitch: Quat) -> Quat {
    disc_rotation(yaw.compose(pitch).rotate(ahead()).neg())
}

/// How the disc of a carried portal is turned: towards a carrier who is turned by
/// `yaw` and then by `pitch`.
#[verifier::when_used_as_spec(spec_sync_handheld_portal_rotation)]
pub fn sync_handheld_portal_rotation(yaw: Quat, pitch: Quat) -> (r: Quat)
    ensures
        r == spec_sync_handheld_portal_rotation(yaw, pitch),
{
    disc_rotation(yaw.compose(pitch).rotate(ahead()).neg())
}

} // verus!

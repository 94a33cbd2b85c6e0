//! What bodies are marked as.

use crate::entity::Entity;
use crate::scalar::{one, zero, Scalar};
use crate::spells::data::MarkerKind;
use crate::vector::Vec3;
use vstd::prelude::*;

verus! {

/// How long a spike lasts that is a body's marker only (`180.0`).
#[verifier::allow_in_spec]
pub fn marked_spike_lifetime() -> Scalar
    returns
        (Scalar { bits: 0x4334_0000 }),
{
    Scalar { bits: 0x4334_0000 }
}

/// A ball of ice that rolls, leaves a trail of frost and grows on that of others.
#[derive(Clone, Copy, Debug, PartialEq, Eq, Structural)]
pub struct RollingGlacier {
    /// How far it has rolled since it last left frost.
    pub since_last_tile: Scalar,
    pub last_pos: Option<Vec3>,
    pub caster: Option<Entity>,
    /// How many times its first size it has.
    pub size_mult: Scalar,
}

/// A spike of ice.
#[derive(Clone, Copy, Debug, PartialEq, Eq, Structural)]
pub struct FrostSpike {
    /// How long it is still there.
    pub lifetime: Scalar,
    /// How long it still rises. It only hurts while it does.
    pub rise_remaining: Scalar,
    pub damage: Scalar,
    pub caster: Option<Entity>,
}

impl RollingGlacier {
    pub open spec fn spec_new(caster: Option<Entity>) -> RollingGlacier {
        RollingGlacier { since_last_tile: zero(), last_pos: None, caster, size_mult: one() }
    }

    /// A ball that has not rolled yet.
    #[verifier::when_used_as_spec(spec_new)]
    pub fn new(caster: Option<Entity>) -> (r: RollingGlacier)
        ensures
            r == Self::spec_new(caster),
    {
        RollingGlacier { since_last_tile: zero(), last_pos: None, caster, size_mult: one() }
    }
}

/// What a marker makes of a body.
#[derive(Clone, Copy, Debug, PartialEq, Eq, Structural)]
pub enum Mark {
    Lantern,
    PortalTraveler,
    Glacier(RollingGlacier),
    Spike(FrostSpike),
}

pub open spec fn spec_mark_of(marker: MarkerKind, caster: Option<Entity>) -> Mark {
    match marker {
        MarkerKind::Lantern => Mark::Lantern,
        MarkerKind::PortalTraveler => Mark::PortalTraveler,
        MarkerKind::RollingGlacier => Mark::Glacier(RollingGlacier::new(caster)),
        MarkerKind::FrostSpike => Mark::Spike(
            FrostSpike {
                lifetime: marked_spike_lifetime(),
                rise_remaining: zero(),
                damage: zero(),
                caster,
            },
        ),
    }
}

/// What a marker makes of a body that a player cast. A spike that is a marker
/// only neither rises nor hurts.
#[verifier::when_used_as_spec(spec_mark_of)]
pub fn mark_of(marker: MarkerKind, caster: Option<Entity>) -> (r: Mark)
    ensures
        r == spec_mark_of(marker, caster),
{
    match marker {
        MarkerKind::Lantern => Mark::Lantern,
        MarkerKind::PortalTraveler => Mark::PortalTraveler,
        MarkerKind::RollingGlacier => Mark::Glacier(RollingGlacier::new(caster)),
        MarkerKind::FrostSpike => Mark::Spike(
            FrostSpike {
                lifetime: marked_spike_lifetime(),
                rise_remaining: zero(),
                damage: zero(),
                caster,
            },
        ),
    }
}

/// What its markers make of a body, in their order.
pub fn marks_of(markers: &Vec<MarkerKind>, caster: Option<Entity>) -> (r: Vec<Mark>)
    ensures
        r@ == markers@.map_values(|m: MarkerKind| mark_of(m, caster)),
{
    let mut marks: Vec<Mark> = Vec::new();
    let mut i: usize = 0;
    while i < markers.len()
        invariant
            i <= markers.len(),
            marks@.len() == i,
            forall|j: int| 0 <= j < i ==> #[trigger] marks@[j] == mark_of(markers@[j], caster),
        decreases markers.len() - i,
    {
        marks.push(mark_of(markers[i], caster));
        i += 1;
    }
    assert(marks@ =~= markers@.map_values(|m: MarkerKind| mark_of(m, caster)));
    marks
}

} // verus!

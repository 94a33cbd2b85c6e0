//! What an author writes down about a spell.
//!
//! A spell is a list of casts. A cast has an action that triggers it, a charge
//! that it may need, a payload that goes out into the world, and an effect on
//! what the payload meets.

use crate::scalar::{infinity, Scalar};
use crate::spells::bodies::ColorDef;
use crate::table::same_text;
use crate::vector::Vec3;
use vstd::prelude::*;

verus! {

/// Names a spell.
#[derive(Debug)]
pub struct SpellId(pub String);

/// Names a cast, in all the catalog.
#[derive(Debug)]
pub struct CastId(pub String);

/// Names a body template.
#[derive(Debug)]
pub struct BodyTemplateId(pub String);

/// Names the look of a beam.
#[derive(Debug)]
pub struct BeamVisualId(pub String);

/// Names a handler that code registers.
#[derive(Debug)]
pub struct HandlerId(pub String);

impl SpellId {
    /// The spell with this name.
    pub fn new(name: &str) -> (r: SpellId)
        ensures
            r.0@ == name@,
    {
        SpellId(name.to_owned())
    }

    /// Whether this is the spell with that name.
    pub fn is(&self, name: &str) -> (r: bool)
        ensures
            r == (self.0@ == name@),
    {
        same_text(self.0.as_str(), name)
    }

    /// The same name once more.
    pub fn copy(&self) -> (r: SpellId)
        ensures
            r.0@ == self.0@,
    {
        SpellId(self.0.clone())
    }
}

impl CastId {
    /// The same name once more.
    pub fn copy(&self) -> (r: CastId)
        ensures
            r.0@ == self.0@,
    {
        CastId(self.0.clone())
    }
}

/// A spell, as it is written down.
#[derive(Debug)]
pub struct SpellDef {
    pub id: SpellId,
    pub label: String,
    pub icon: Option<String>,
    /// The color of its charge, if it has one of its own.
    pub tint: Option<ColorDef>,
    pub casts: Vec<CastDef>,
}

/// One way to cast a spell.
#[derive(Debug)]
pub struct CastDef {
    pub id: CastId,
    pub label: String,
    /// Whether the spell has to be the active one.
    pub requires_active: bool,
    pub trigger: TriggerDef,
    pub conditions: Vec<ConditionDef>,
    pub charging: ChargingDef,
    /// In seconds; none if zero.
    pub cooldown: Scalar,
    pub origin: OriginDef,
    pub target: TargetDef,
    pub payload: PayloadDef,
    pub effect: EffectDef,
}

/// Which edge of which action starts a cast.
#[derive(Clone, Copy, Debug, PartialEq, Eq, Structural)]
pub enum TriggerDef {
    /// Once, when the action starts.
    Press { action: ActionRef },
    /// For as long as the action lasts.
    Hold { action: ActionRef },
    /// Once, when the action ends, with the charge gathered meanwhile.
    PressReleaseCharged { action: ActionRef },
}

/// An action of a player.
#[derive(Clone, Copy, Debug, PartialEq, Eq, Structural)]
pub enum ActionRef {
    Fire,
    FireSecondary,
    ThrowLantern,
    Pickup,
    Jump,
}

impl TriggerDef {
    pub open spec fn spec_action(self) -> ActionRef {
        match self {
            TriggerDef::Press { action } => action,
            TriggerDef::Hold { action } => action,
            TriggerDef::PressReleaseCharged { action } => action,
        }
    }

    /// The action that the trigger watches.
    #[verifier::when_used_as_spec(spec_action)]
    pub fn action(self) -> (r: ActionRef)
        ensures
            r == self.spec_action(),
    {
        match self {
            TriggerDef::Press { action } => action,
            TriggerDef::Hold { action } => action,
            TriggerDef::PressReleaseCharged { action } => action,
        }
    }
}

/// Whether, and from what, a cast gathers charge.
#[derive(Clone, Copy, Debug, PartialEq, Eq, Structural)]
pub enum ChargingDef {
    /// Not at all.
    Uncharged,
    Charging {
        source: ChargeSource,
        /// The least charge that lets go; less fizzles.
        min_release: Scalar,
        /// The full charge. A held cast channels from here on.
        max_charge: Scalar,
        /// What a dry source loses in a second.
        decay_rate: Scalar,
        /// How far beyond full the charge may go, if it may.
        overcharge: Option<OverchargeDef>,
    },
}

/// What fills a charge.
#[derive(Clone, Copy, Debug, PartialEq, Eq, Structural)]
pub enum ChargeSource {
    /// Time: full after `duration` seconds.
    Time { duration: Scalar },
    /// A source of power: its scalar each second.
    Powered { source: PowerSourceRef },
}

/// A charge beyond full.
#[derive(Clone, Copy, Debug, PartialEq, Eq, Structural)]
pub struct OverchargeDef {
    pub max: Scalar,
}

/// A source of power.
#[derive(Clone, Copy, Debug, PartialEq, Eq, Structural)]
pub enum PowerSourceRef {
    LensPower,
}

/// What has to hold for a cast to go out.
#[derive(Clone, Copy, Debug, PartialEq, Eq, Structural)]
pub enum ConditionDef {
    /// Fewer than `max` things carry the marker.
    MaxCount { marker: MarkerKind, max: u32 },
    /// The lens power is at least this.
    LensPowerAtLeast(Scalar),
}

/// Where a cast starts from.
#[derive(Clone, Copy, Debug, PartialEq, Eq, Structural)]
pub enum OriginDef {
    /// The tip of the caster's wand.
    Wand,
    /// The caster.
    Self_,
    /// A point in the world, for casts that another cast's body sets off.
    Impact(Vec3),
}

/// What a cast aims at.
#[derive(Clone, Copy, Debug, PartialEq, Eq, Structural)]
pub enum TargetDef {
    /// Along the wand, as far as `distance`.
    Forward { distance: Scalar },
    /// The caster.
    Self_,
    /// All around the origin.
    Area { shape: AreaShape },
}

/// The extent of an area.
#[derive(Clone, Copy, Debug, PartialEq, Eq, Structural)]
pub enum AreaShape {
    Sphere { radius: Scalar },
}

impl TargetDef {
    pub open spec fn spec_unbounded() -> TargetDef {
        TargetDef::Forward { distance: infinity() }
    }

    /// Along the wand, without a limit: what a cast aims at unless it says otherwise.
    #[verifier::when_used_as_spec(spec_unbounded)]
    pub fn unbounded() -> (r: TargetDef)
        ensures
            r == Self::spec_unbounded(),
    {
        TargetDef::Forward { distance: infinity() }
    }

    pub open spec fn spec_reach(self) -> Scalar {
        match self {
            TargetDef::Forward { distance } => distance,
            TargetDef::Self_ => infinity(),
            TargetDef::Area { shape: _ } => infinity(),
        }
    }

    /// How far the target may be.
    #[verifier::when_used_as_spec(spec_reach)]
    pub fn reach(self) -> (r: Scalar)
        ensures
            r == self.spec_reach(),
    {
        match self {
            TargetDef::Forward { distance } => distance,
            TargetDef::Self_ => infinity(),
            TargetDef::Area { shape: _ } => infinity(),
        }
    }
}

impl Default for TargetDef {
    fn default() -> (r: TargetDef)
        ensures
            r == TargetDef::unbounded(),
    {
        TargetDef::unbounded()
    }
}

/// What a cast sends out.
#[derive(Debug)]
pub enum PayloadDef {
    /// A body, from a template.
    SpawnBody {
        template: BodyTemplateId,
        launch: LaunchKind,
        on_event: Vec<BodyEventTrigger>,
    },
    /// One ray.
    Hitscan { portal_aware: bool },
    /// A ray each frame.
    Beam { portal_aware: bool, visual: BeamVisualId },
    /// Whatever the handler does.
    Custom { handler: HandlerId },
}

/// When a body sets off another cast.
#[derive(Debug)]
pub enum BodyEventTrigger {
    /// When it first touches something.
    OnCollision { triggers: TriggerSpec },
    /// When it has been there for `secs` seconds.
    OnTimeout { secs: Scalar, triggers: TriggerSpec },
}

/// Names the cast that a body sets off.
#[derive(Debug)]
pub struct TriggerSpec {
    pub spell_id: SpellId,
    pub cast_id: CastId,
}

/// How a body starts.
#[derive(Clone, Copy, Debug, PartialEq, Eq, Structural)]
pub enum LaunchKind {
    /// Along the wand and up.
    Throw { forward: Scalar, up: Scalar },
    /// At rest.
    Drop,
    /// Carried.
    Held,
}

/// What a cast does to what its payload met.
#[derive(Debug)]
pub enum EffectDef {
    /// Nothing.
    NoEffect,
    /// One push.
    Impulse { magnitude: Scalar },
    /// A push each second.
    ImpulseTick { magnitude_per_sec: Scalar },
    /// It vanishes.
    Despawn,
    /// What carries the marker and is near the caster vanishes.
    DespawnNearbyMatching { marker: MarkerKind, radius: Scalar },
    /// Whatever the handler does.
    Custom { handler: HandlerId },
}

/// What a body can be marked as.
#[derive(Clone, Copy, Debug, PartialEq, Eq, Structural)]
pub enum MarkerKind {
    Lantern,
    PortalTraveler,
    RollingGlacier,
    FrostSpike,
}

} // verus!

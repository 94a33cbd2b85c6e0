//! What a player consists of when it appears.

use crate::player::controller::Facing;
use crate::scalar::{zero, Scalar};
use crate::spells::data::SpellId;
use crate::spells::SpellRegistry;
use crate::vector::Vec3;
use vstd::prelude::*;

verus! {

/// The layer of a player's own body, which the player's eyes do not see.
pub const SELF_BODY_LAYER: usize = 1;

/// The layer of a player's own hands, which only the player's eyes see.
pub const VIEWMODEL_LAYER: usize = 2;

/// How high up a player starts (`1.5`).
#[verifier::allow_in_spec]
pub fn start_height() -> Scalar
    returns
        (Scalar { bits: 0x3fc0_0000 }),
{
    Scalar { bits: 0x3fc0_0000 }
}

/// How far back a player starts (`5.0`).
#[verifier::allow_in_spec]
pub fn start_back() -> Scalar
    returns
        (Scalar { bits: 0x40a0_0000 }),
{
    Scalar { bits: 0x40a0_0000 }
}

/// From a player's middle to where the body stands (`-1.0`).
#[verifier::allow_in_spec]
pub fn body_drop() -> Scalar
    returns
        (Scalar { bits: 0xbf80_0000 }),
{
    Scalar { bits: 0xbf80_0000 }
}

/// The model looks the other way (`3.14159265358979`).
#[verifier::allow_in_spec]
pub fn half_turn() -> Scalar
    returns
        (Scalar { bits: 0x4049_0fdb }),
{
    Scalar { bits: 0x4049_0fdb }
}

/// How far to the right the wand is (`0.25`).
#[verifier::allow_in_spec]
pub fn hand_right() -> Scalar
    returns
        (Scalar { bits: 0x3e80_0000 }),
{
    Scalar { bits: 0x3e80_0000 }
}

/// How far below the eyes the wand is (`-0.3`).
#[verifier::allow_in_spec]
pub fn hand_drop() -> Scalar
    returns
        (Scalar { bits: 0xbe99_999a }),
{
    Scalar { bits: 0xbe99_999a }
}

/// How far ahead of the eyes the wand is (`-0.5`).
#[verifier::allow_in_spec]
pub fn hand_ahead() -> Scalar
    returns
        (Scalar { bits: 0xbf00_0000 }),
{
    Scalar { bits: 0xbf00_0000 }
}

/// How far below the eyes the model of the hands is (`-1.4`).
#[verifier::allow_in_spec]
pub fn viewmodel_drop() -> Scalar
    returns
        (Scalar { bits: 0xbfb3_3333 }),
{
    Scalar { bits: 0xbfb3_3333 }
}

/// How far above the middle the eyes are (`0.7`).
#[verifier::allow_in_spec]
pub fn eyes_up() -> Scalar
    returns
        (Scalar { bits: 0x3f33_3333 }),
{
    Scalar { bits: 0x3f33_3333 }
}

/// From the middle to where the ground is looked for (`-0.9`).
#[verifier::allow_in_spec]
pub fn probe_drop() -> Scalar
    returns
        (Scalar { bits: 0xbf66_6666 }),
{
    Scalar { bits: 0xbf66_6666 }
}

/// How far below that the ground may be (`0.25`).
#[verifier::allow_in_spec]
pub fn probe_reach() -> Scalar
    returns
        (Scalar { bits: 0x3e80_0000 }),
{
    Scalar { bits: 0x3e80_0000 }
}

/// Whose a player is.
#[derive(Clone, Copy, Debug, PartialEq, Eq, Structural)]
pub enum PlayerOwner {
    Local,
}

/// What a player looks like, and how that stands.
#[derive(Debug)]
pub struct CharacterVisuals {
    pub scene_asset: String,
    pub body_offset: Vec3,
    pub body_yaw: Scalar,
}

impl Default for CharacterVisuals {
    fn default() -> (r: CharacterVisuals)
        ensures
            r.scene_asset@ == "character.glb"@,
            r.body_offset == (Vec3 { x: zero(), y: body_drop(), z: zero() }),
            r.body_yaw == half_turn(),
    {
        CharacterVisuals {
            scene_asset: "character.glb".to_owned(),
            body_offset: Vec3 { x: zero(), y: body_drop(), z: zero() },
            body_yaw: half_turn(),
        }
    }
}

/// A player to be put into the world.
#[derive(Debug)]
pub struct PlayerSpawn {
    pub position: Vec3,
    pub yaw: Scalar,
    pub initial_spell: SpellId,
    pub visuals: CharacterVisuals,
    pub owner: PlayerOwner,
    /// Whether the player is the one at this machine.
    pub is_local: bool,
}

impl Default for PlayerSpawn {
    fn default() -> (r: PlayerSpawn)
        ensures
            r.position == (Vec3 { x: zero(), y: start_height(), z: start_back() }),
            r.yaw == zero(),
            r.initial_spell.0@ == "convex_lens"@,
            r.visuals.scene_asset@ == "character.glb"@,
            r.visuals.body_offset == (Vec3 { x: zero(), y: body_drop(), z: zero() }),
            r.visuals.body_yaw == half_turn(),
            r.owner == PlayerOwner::Local,
            r.is_local,
    {
        PlayerSpawn {
            position: Vec3 { x: zero(), y: start_height(), z: start_back() },
            yaw: zero(),
            initial_spell: SpellId::new("convex_lens"),
            visuals: CharacterVisuals::default(),
            owner: PlayerOwner::Local,
            is_local: true,
        }
    }
}

/// A part of a player.
#[derive(Clone, Copy, Debug, PartialEq, Eq, Structural)]
pub enum RigPart {
    Player,
    Camera,
    LensAnchor,
    Body,
    Viewmodel,
}

impl RigPart {
    pub open spec fn spec_parent(self) -> Option<RigPart> {
        match self {
            RigPart::Player => None,
            RigPart::Camera => Some(RigPart::Player),
            RigPart::Body => Some(RigPart::Player),
            RigPart::LensAnchor => Some(RigPart::Camera),
            RigPart::Viewmodel => Some(RigPart::Camera),
        }
    }

    /// The part that a part hangs from.
    #[verifier::when_used_as_spec(spec_parent)]
    pub fn parent(self) -> (r: Option<RigPart>)
        ensures
            r == self.spec_parent(),
    {
        match self {
            RigPart::Player => None,
            RigPart::Camera => Some(RigPart::Player),
            RigPart::Body => Some(RigPart::Player),
            RigPart::LensAnchor => Some(RigPart::Camera),
            RigPart::Viewmodel => Some(RigPart::Camera),
        }
    }

    pub open spec fn spec_is_marked(self, is_local: bool) -> bool {
        is_local && self != RigPart::Viewmodel
    }

    /// Whether a part is marked as that of the player at this machine.
    #[verifier::when_used_as_spec(spec_is_marked)]
    pub fn is_marked(self, is_local: bool) -> (r: bool)
        ensures
            r == self.spec_is_marked(is_local),
    {
        is_local && self != RigPart::Viewmodel
    }
}

/// What a player consists of: where its parts are, and what it starts with.
#[derive(Debug)]
pub struct RigPlan {
    pub at: Vec3,
    pub facing: Facing,
    /// Where the ray starts that looks for the ground, and how far down it goes.
    pub probe_at: Vec3,
    pub probe_range: Scalar,
    pub camera_at: Vec3,
    pub lens_at: Vec3,
    pub viewmodel_at: Vec3,
    pub body_at: Vec3,
    /// By how much body and hands are turned.
    pub body_yaw: Scalar,
    pub active_spell: SpellId,
    /// The place of the spell among those that have to be switched on, if it is
    /// one of them.
    pub activate: Option<usize>,
    pub is_local: bool,
}

/// Plans a player.
pub fn spawn_player(spawn: &PlayerSpawn, spells: &SpellRegistry) -> (r: RigPlan)
    requires
        spells.wf(),
    ensures
        r.at == spawn.position,
        r.facing == (Facing { yaw: spawn.yaw, pitch: zero(), grounded: false }),
        r.probe_at == (Vec3 { x: zero(), y: probe_drop(), z: zero() }),
        r.probe_range == probe_reach(),
        r.camera_at == (Vec3 { x: zero(), y: eyes_up(), z: zero() }),
        r.lens_at == (Vec3 { x: hand_right(), y: hand_drop(), z: hand_ahead() }),
        r.viewmodel_at == (Vec3 { x: zero(), y: viewmodel_drop(), z: zero() }),
        r.body_at == spawn.visuals.body_offset,
        r.body_yaw == spawn.visuals.body_yaw,
        r.active_spell.0@ == spawn.initial_spell.0@,
        r.is_local == spawn.is_local,
        match r.activate {
            Some(i) => i < spells.names().len() && spells.names()[i as int]
                == spawn.initial_spell.0@,
            None => !spells.names().contains(spawn.initial_spell.0@),
        },
{
    RigPlan {
        at: spawn.position,
        facing: Facing { yaw: spawn.yaw, pitch: zero(), grounded: false },
        probe_at: Vec3 { x: zero(), y: probe_drop(), z: zero() },
        probe_range: probe_reach(),
        camera_at: Vec3 { x: zero(), y: eyes_up(), z: zero() },
        lens_at: Vec3 { x: hand_right(), y: hand_drop(), z: hand_ahead() },
        viewmodel_at: Vec3 { x: zero(), y: viewmodel_drop(), z: zero() },
        body_at: spawn.visuals.body_offset,
        body_yaw: spawn.visuals.body_yaw,
        active_spell: spawn.initial_spell.copy(),
        activate: spells.place(&spawn.initial_spell),
        is_local: spawn.is_local,
    }
}

} // verus!

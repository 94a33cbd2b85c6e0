//! Which character is seen, and which of its movements.

use crate::closeness::{
    exact, grains, lemma_clamp_close, lemma_exact, lemma_exact_constants, lemma_exact_ordered,
    lemma_minus_close, lemma_size_of_product, lemma_times_close, size, within,
};
use crate::player::rig::{ancestor_has_body_marker, ancestor_is_local_player, RigNode};
use crate::player::setup::SELF_BODY_LAYER;
use crate::scalar::{
    lemma_order_is_value, lemma_over_at_least_one, lemma_over_at_most_one, lemma_over_not_negative,
    lemma_plus_no_less, lemma_product, lemma_quotient, lemma_sum_ordered, lemma_times_at_most,
    lemma_times_not_negative, lemma_units_of_power, one, zero, Scalar,
};
use crate::rounding::{lemma_units_increase, units};
use vstd::arithmetic::power2::pow2;
use crate::spells::engine::{CastPhase, CastState};
use crate::table::{has_key, place_of};
use crate::vector::{Quat, Vec3};
use vstd::prelude::*;

verus! {

/// Below this speed a character stands (`0.2`).
#[verifier::allow_in_spec]
pub fn walk_min_speed() -> Scalar
    returns
        (Scalar { bits: 0x3e4c_cccd }),
{
    Scalar { bits: 0x3e4c_cccd }
}

/// From this speed on a character walks all the way (`3.5`).
#[verifier::allow_in_spec]
pub fn locomotion_ref_speed() -> Scalar
    returns
        (Scalar { bits: 0x4060_0000 }),
{
    Scalar { bits: 0x4060_0000 }
}

/// How much of a jump shows in each frame (`0.25`).
#[verifier::allow_in_spec]
pub fn airborne_alpha() -> Scalar
    returns
        (Scalar { bits: 0x3e80_0000 }),
{
    Scalar { bits: 0x3e80_0000 }
}

/// How much of a cast shows in each frame (`0.2`).
#[verifier::allow_in_spec]
pub fn casting_alpha() -> Scalar
    returns
        (Scalar { bits: 0x3e4c_cccd }),
{
    Scalar { bits: 0x3e4c_cccd }
}

/// How much faster the steps backward go (`1.15`).
#[verifier::allow_in_spec]
pub fn backward_speed() -> Scalar
    returns
        (Scalar { bits: 0x3f93_3333 }),
{
    Scalar { bits: 0x3f93_3333 }
}

/// A character that there is.
#[derive(Debug)]
pub struct CharacterDef {
    pub id: String,
    pub asset: String,
    pub label: String,
}

/// The characters that there are, in order.
#[derive(Debug)]
pub struct CharacterRegistry {
    pub characters: Vec<CharacterDef>,
}

impl Default for CharacterRegistry {
    fn default() -> (r: CharacterRegistry)
        ensures
            r.characters@.len() == 1,
            r.characters@[0].id@ == "character"@,
            r.characters@[0].asset@ == "character.glb"@,
            r.characters@[0].label@ == "Character"@,
    {
        let mut characters: Vec<CharacterDef> = Vec::new();
        characters.push(
            CharacterDef {
                id: "character".to_owned(),
                asset: "character.glb".to_owned(),
                label: "Character".to_owned(),
            },
        );
        CharacterRegistry { characters }
    }
}

/// Which character is seen, by its place.
#[derive(Clone, Copy, Debug, PartialEq, Eq, Structural)]
pub struct CurrentCharacter {
    pub index: usize,
}

impl Default for CurrentCharacter {
    fn default() -> (r: CurrentCharacter)
        ensures
            r.index == 0,
    {
        CurrentCharacter { index: 0 }
    }
}

impl CurrentCharacter {
    /// The character that is seen, if there is one at its place.
    pub fn current<'a>(&self, registry: &'a CharacterRegistry) -> (r: Option<&'a CharacterDef>)
        ensures
            match r {
                Some(def) => self.index < registry.characters@.len() && *def
                    == registry.characters@[self.index as int],
                None => self.index >= registry.characters@.len(),
            },
    {
        if self.index < registry.characters.len() {
            Some(&registry.characters[self.index])
        } else {
            None
        }
    }

    /// Goes on to the next character; from the last one to the first.
    pub fn advance(&mut self, registry: &CharacterRegistry)
        requires
            old(self).index < usize::MAX,
        ensures
            final(self).index == (if registry.characters@.len() == 0 {
                old(self).index as int
            } else {
                (old(self).index + 1) % (registry.characters@.len() as int)
            }),
    {
        if registry.characters.len() > 0 {
            self.index = (self.index + 1) % registry.characters.len();
        }
    }
}

/// Goes on to the next character when the key has just been pressed.
pub fn cycle_character_on_input(
    pressed: bool,
    before: &mut bool,
    registry: &CharacterRegistry,
    current: &mut CurrentCharacter,
)
    requires
        old(current).index < usize::MAX,
    ensures
        *final(before) == pressed,
        !(pressed && !*old(before)) ==> *final(current) == *old(current),
        pressed && !*old(before) ==> final(current).index == (if registry.characters@.len() == 0 {
            old(current).index as int
        } else {
            (old(current).index + 1) % (registry.characters@.len() as int)
        }),
{
    let edge = pressed && !*before;
    *before = pressed;
    if edge {
        current.advance(registry);
    }
}

/// The model to load, if another character is seen from now on. That there is a
/// character at all is no change.
pub fn apply_character_change<'a>(
    registry: &'a CharacterRegistry,
    current: CurrentCharacter,
    changed: bool,
    added: bool,
) -> (r: Option<&'a str>)
    ensures
        match r {
            Some(asset) => changed && !added && current.index < registry.characters@.len() && asset@
                == registry.characters@[current.index as int].asset@,
            None => !changed || added || current.index >= registry.characters@.len(),
        },
{
    if !changed || added {
        return None;
    }
    match current.current(registry) {
        Some(def) => Some(def.asset.as_str()),
        None => None,
    }
}

/// What the label of the character says from now on, if that changes.
pub fn update_character_label<'a>(
    registry: &'a CharacterRegistry,
    current: CurrentCharacter,
    changed: bool,
) -> (r: Option<&'a str>)
    ensures
        match r {
            Some(label) => changed && current.index < registry.characters@.len() && label@
                == registry.characters@[current.index as int].label@,
            None => !changed || current.index >= registry.characters@.len(),
        },
{
    if !changed {
        return None;
    }
    match current.current(registry) {
        Some(def) => Some(def.label.as_str()),
        None => None,
    }
}

/// A movement that a character can make.
#[derive(Clone, Copy, Debug, PartialEq, Eq, Structural)]
pub enum Clip {
    Idle,
    WalkForward,
    WalkBackward,
    WalkLeft,
    WalkRight,
    Falling,
    CastIdle,
    CastWalkForward,
    CastWalkBackward,
    CastWalkLeft,
    CastWalkRight,
}

/// How many movements there are.
pub const CLIPS: usize = 11;

pub open spec fn spec_clip_at(i: usize) -> Clip {
    match i {
        0 => Clip::Idle,
        1 => Clip::WalkForward,
        2 => Clip::WalkBackward,
        3 => Clip::WalkLeft,
        4 => Clip::WalkRight,
        5 => Clip::Falling,
        6 => Clip::CastIdle,
        7 => Clip::CastWalkForward,
        8 => Clip::CastWalkBackward,
        9 => Clip::CastWalkLeft,
        _ => Clip::CastWalkRight,
    }
}

/// The movements, in the order in which they are looked up.
#[verifier::when_used_as_spec(spec_clip_at)]
pub fn clip_at(i: usize) -> (r: Clip)
    ensures
        r == spec_clip_at(i),
{
    match i {
        0 => Clip::Idle,
        1 => Clip::WalkForward,
        2 => Clip::WalkBackward,
        3 => Clip::WalkLeft,
        4 => Clip::WalkRight,
        5 => Clip::Falling,
        6 => Clip::CastIdle,
        7 => Clip::CastWalkForward,
        8 => Clip::CastWalkBackward,
        9 => Clip::CastWalkLeft,
        _ => Clip::CastWalkRight,
    }
}

impl Clip {
    pub open spec fn spec_name(self) -> &'static str {
        match self {
            Clip::Idle => "idle",
            Clip::WalkForward => "walk_forward",
            Clip::WalkBackward => "walk_backward",
            Clip::WalkLeft => "walk_left",
            Clip::WalkRight => "walk_right",
            Clip::Falling => "falling",
            Clip::CastIdle => "casting_idle",
            Clip::CastWalkForward => "casting_walk_forward",
            Clip::CastWalkBackward => "casting_walk_backward",
            Clip::CastWalkLeft => "casting_walk_left",
            Clip::CastWalkRight => "casting_walk_right",
        }
    }

    /// What the movement is called in the model.
    #[verifier::when_used_as_spec(spec_name)]
    pub fn name(self) -> (r: &'static str)
        ensures
            r == self.spec_name(),
    {
        match self {
            Clip::Idle => "idle",
            Clip::WalkForward => "walk_forward",
            Clip::WalkBackward => "walk_backward",
            Clip::WalkLeft => "walk_left",
            Clip::WalkRight => "walk_right",
            Clip::Falling => "falling",
            Clip::CastIdle => "casting_idle",
            Clip::CastWalkForward => "casting_walk_forward",
            Clip::CastWalkBackward => "casting_walk_backward",
            Clip::CastWalkLeft => "casting_walk_left",
            Clip::CastWalkRight => "casting_walk_right",
        }
    }

    pub open spec fn spec_speed(self) -> Scalar {
        match self {
            Clip::WalkBackward => backward_speed(),
            Clip::CastWalkBackward => backward_speed(),
            _ => one(),
        }
    }

    /// How fast the movement goes.
    #[verifier::when_used_as_spec(spec_speed)]
    pub fn speed(self) -> (r: Scalar)
        ensures
            r == self.spec_speed(),
    {
        match self {
            Clip::WalkBackward => backward_speed(),
            Clip::CastWalkBackward => backward_speed(),
            _ => one(),
        }
    }

    pub open spec fn spec_first_weight(self) -> Scalar {
        match self {
            Clip::Idle => one(),
            _ => zero(),
        }
    }

    /// How much of the movement shows before anything has moved.
    #[verifier::when_used_as_spec(spec_first_weight)]
    pub fn first_weight(self) -> (r: Scalar)
        ensures
            r == self.spec_first_weight(),
    {
        match self {
            Clip::Idle => one(),
            _ => zero(),
        }
    }
}

/// The movements that a model has, by their handles in it.
#[derive(Clone, Copy, Debug, PartialEq, Eq, Structural)]
pub struct WizardClips {
    pub idle: Option<u32>,
    pub walk_f: Option<u32>,
    pub walk_b: Option<u32>,
    pub walk_l: Option<u32>,
    pub walk_r: Option<u32>,
    pub falling: Option<u32>,
    pub cast_idle: Option<u32>,
    pub cast_walk_f: Option<u32>,
    pub cast_walk_b: Option<u32>,
    pub cast_walk_l: Option<u32>,
    pub cast_walk_r: Option<u32>,
}

impl WizardClips {
    pub open spec fn spec_node(self, clip: Clip) -> Option<u32> {
        match clip {
            Clip::Idle => self.idle,
            Clip::WalkForward => self.walk_f,
            Clip::WalkBackward => self.walk_b,
            Clip::WalkLeft => self.walk_l,
            Clip::WalkRight => self.walk_r,
            Clip::Falling => self.falling,
            Clip::CastIdle => self.cast_idle,
            Clip::CastWalkForward => self.cast_walk_f,
            Clip::CastWalkBackward => self.cast_walk_b,
            Clip::CastWalkLeft => self.cast_walk_l,
            Clip::CastWalkRight => self.cast_walk_r,
        }
    }

    /// The handle of a movement, if the model has it.
    #[verifier::when_used_as_spec(spec_node)]
    pub fn node(self, clip: Clip) -> (r: Option<u32>)
        ensures
            r == self.spec_node(clip),
    {
        match clip {
            Clip::Idle => self.idle,
            Clip::WalkForward => self.walk_f,
            Clip::WalkBackward => self.walk_b,
            Clip::WalkLeft => self.walk_l,
            Clip::WalkRight => self.walk_r,
            Clip::Falling => self.falling,
            Clip::CastIdle => self.cast_idle,
            Clip::CastWalkForward => self.cast_walk_f,
            Clip::CastWalkBackward => self.cast_walk_b,
            Clip::CastWalkLeft => self.cast_walk_l,
            Clip::CastWalkRight => self.cast_walk_r,
        }
    }

    pub open spec fn spec_ready(self) -> bool {
        self.idle.is_some()
    }

    /// Whether the model can be seen: it has to be able to stand.
    #[verifier::when_used_as_spec(spec_ready)]
    pub fn ready(self) -> (r: bool)
        ensures
            r == self.spec_ready(),
    {
        self.idle.is_some()
    }
}

/// How a character moves on the ground.
#[derive(Clone, Copy, Debug, PartialEq, Eq, Structural)]
pub struct Gait {
    pub idle: Scalar,
    pub forward: Scalar,
    pub backward: Scalar,
    pub left: Scalar,
    pub right: Scalar,
}

pub open spec fn spec_ground_speed(velocity: Vec3) -> Scalar {
    Vec3 { x: velocity.x, y: zero(), z: velocity.z }.length()
}

/// How fast a character moves over the ground.
#[verifier::when_used_as_spec(spec_ground_speed)]
pub fn ground_speed(velocity: Vec3) -> (r: Scalar)
    ensures
        r == spec_ground_speed(velocity),
{
    Vec3 { x: velocity.x, y: zero(), z: velocity.z }.length()
}

pub open spec fn spec_standing(grounded: Scalar) -> Gait {
    Gait { idle: grounded, forward: zero(), backward: zero(), left: zero(), right: zero() }
}

/// A character that does not walk.
#[verifier::when_used_as_spec(spec_standing)]
pub fn standing(grounded: Scalar) -> (r: Gait)
    ensures
        r == spec_standing(grounded),
{
    Gait { idle: grounded, forward: zero(), backward: zero(), left: zero(), right: zero() }
}

pub open spec fn spec_gait(velocity: Vec3, facing: Quat, grounded: Scalar) -> Gait {
    let speed = ground_speed(velocity);
    let local = facing.rotate(Vec3 { x: velocity.x, y: zero(), z: velocity.z }).shrink(speed);
    let both = local.z.abs().plus(local.x.abs());
    if speed.lt(walk_min_speed()) || !both.is_finite() || !both.gt(zero()) {
        standing(grounded)
    } else {
        let walk = speed.over(locomotion_ref_speed()).clamp(zero(), one());
        let walking = grounded.times(walk);
        let along = local.z.abs().over(both);
        let across = one().minus(along);
        Gait {
            idle: grounded.times(one().minus(walk)),
            forward: if local.z.lt(zero()) {
                walking.times(along)
            } else {
                zero()
            },
            backward: if local.z.gt(zero()) {
                walking.times(along)
            } else {
                zero()
            },
            left: if local.x.lt(zero()) {
                walking.times(across)
            } else {
                zero()
            },
            right: if local.x.gt(zero()) {
                walking.times(across)
            } else {
                zero()
            },
        }
    }
}

/// How a character moves on the ground: standing at rest, and walking the more the
/// faster it goes. The directions that it goes share the walking by how much it goes
/// in each. `facing` turns from the world into the character's own directions.
#[verifier::when_used_as_spec(spec_gait)]
pub fn gait(velocity: Vec3, facing: Quat, grounded: Scalar) -> (r: Gait)
    ensures
        r == spec_gait(velocity, facing, grounded),
{
    let speed = ground_speed(velocity);
    let local = facing.rotate(Vec3 { x: velocity.x, y: zero(), z: velocity.z }).shrink(speed);
    let both = local.z.abs().plus(local.x.abs());
    if speed.lt(walk_min_speed()) || !both.is_finite() || !both.gt(zero()) {
        standing(grounded)
    } else {
        let walk = speed.over(locomotion_ref_speed()).clamp(zero(), one());
        let walking = grounded.times(walk);
        let along = local.z.abs().over(both);
        let across = one().minus(along);
        Gait {
            idle: grounded.times(one().minus(walk)),
            forward: if local.z.lt(zero()) {
                walking.times(along)
            } else {
                zero()
            },
            backward: if local.z.gt(zero()) {
                walking.times(along)
            } else {
                zero()
            },
            left: if local.x.lt(zero()) {
                walking.times(across)
            } else {
                zero()
            },
            right: if local.x.gt(zero()) {
                walking.times(across)
            } else {
                zero()
            },
        }
    }
}

pub open spec fn spec_plain_part(share: Scalar, plain: Scalar, with_cast: Option<u32>) -> Scalar {
    match with_cast {
        Some(_) => share.times(plain),
        None => share,
    }
}

/// How much of a share a movement shows, next to what the same movement with a cast
/// shows: all of it, if the model lacks that.
#[verifier::when_used_as_spec(spec_plain_part)]
pub fn plain_part(share: Scalar, plain: Scalar, with_cast: Option<u32>) -> (r: Scalar)
    ensures
        r == spec_plain_part(share, plain, with_cast),
{
    match with_cast {
        Some(_) => share.times(plain),
        None => share,
    }
}

pub open spec fn spec_weight(
    clips: WizardClips,
    clip: Clip,
    velocity: Vec3,
    facing: Quat,
    airborne: Scalar,
    casting: Scalar,
) -> Scalar {
    let air = airborne.clamp(zero(), one());
    let cast = casting.clamp(zero(), one());
    let plain = one().minus(cast);
    let on_ground = gait(velocity, facing, one().minus(air));
    match clip {
        Clip::Falling => air,
        Clip::Idle => plain_part(on_ground.idle, plain, clips.cast_idle),
        Clip::CastIdle => on_ground.idle.times(cast),
        Clip::WalkForward => plain_part(on_ground.forward, plain, clips.cast_walk_f),
        Clip::WalkBackward => plain_part(on_ground.backward, plain, clips.cast_walk_b),
        Clip::WalkLeft => plain_part(on_ground.left, plain, clips.cast_walk_l),
        Clip::WalkRight => plain_part(on_ground.right, plain, clips.cast_walk_r),
        Clip::CastWalkForward => on_ground.forward.times(cast),
        Clip::CastWalkBackward => on_ground.backward.times(cast),
        Clip::CastWalkLeft => on_ground.left.times(cast),
        Clip::CastWalkRight => on_ground.right.times(cast),
    }
}

/// How much of a movement shows. `airborne` and `casting` go from nought to one.
#[verifier::when_used_as_spec(spec_weight)]
pub fn weight(
    clips: WizardClips,
    clip: Clip,
    velocity: Vec3,
    facing: Quat,
    airborne: Scalar,
    casting: Scalar,
) -> (r: Scalar)
    ensures
        r == spec_weight(clips, clip, velocity, facing, airborne, casting),
{
    let air = airborne.clamp(zero(), one());
    let cast = casting.clamp(zero(), one());
    let plain = one().minus(cast);
    let on_ground = gait(velocity, facing, one().minus(air));
    match clip {
        Clip::Falling => air,
        Clip::Idle => plain_part(on_ground.idle, plain, clips.cast_idle),
        Clip::CastIdle => on_ground.idle.times(cast),
        Clip::WalkForward => plain_part(on_ground.forward, plain, clips.cast_walk_f),
        Clip::WalkBackward => plain_part(on_ground.backward, plain, clips.cast_walk_b),
        Clip::WalkLeft => plain_part(on_ground.left, plain, clips.cast_walk_l),
        Clip::WalkRight => plain_part(on_ground.right, plain, clips.cast_walk_r),
        Clip::CastWalkForward => on_ground.forward.times(cast),
        Clip::CastWalkBackward => on_ground.backward.times(cast),
        Clip::CastWalkLeft => on_ground.left.times(cast),
        Clip::CastWalkRight => on_ground.right.times(cast),
    }
}

/// A movement of a model, and how much of it shows.
#[derive(Clone, Copy, Debug, PartialEq, Eq, Structural)]
pub struct ClipWeight {
    pub node: u32,
    pub weight: Scalar,
}

/// How much of each movement shows that the model has, of the first `n`.
pub open spec fn blend(
    clips: WizardClips,
    velocity: Vec3,
    facing: Quat,
    airborne: Scalar,
    casting: Scalar,
    n: int,
) -> Seq<ClipWeight>
    decreases n,
{
    if n <= 0 {
        Seq::empty()
    } else {
        let before = blend(clips, velocity, facing, airborne, casting, n - 1);
        let clip = clip_at((n - 1) as usize);
        match clips.node(clip) {
            Some(node) => before.push(
                ClipWeight { node, weight: weight(clips, clip, velocity, facing, airborne, casting) },
            ),
            None => before,
        }
    }
}

/// How much of each movement shows that the model has.
pub fn locomotion_blend(
    clips: WizardClips,
    velocity: Vec3,
    facing: Quat,
    airborne: Scalar,
    casting: Scalar,
) -> (r: Vec<ClipWeight>)
    ensures
        r@ == blend(clips, velocity, facing, airborne, casting, CLIPS as int),
{
    let mut weights: Vec<ClipWeight> = Vec::new();
    let mut i: usize = 0;
    while i < CLIPS
        invariant
            i <= CLIPS,
            weights@ == blend(clips, velocity, facing, airborne, casting, i as int),
        decreases CLIPS - i,
    {
        let clip = clip_at(i);
        match clips.node(clip) {
            Some(node) => {
                weights.push(
                    ClipWeight { node, weight: weight(clips, clip, velocity, facing, airborne, casting) },
                );
            },
            None => {},
        }
        i += 1;
    }
    weights
}

/// How a movement of a model starts.
#[derive(Clone, Copy, Debug, PartialEq, Eq, Structural)]
pub struct ClipStart {
    pub node: u32,
    pub weight: Scalar,
    pub speed: Scalar,
}

/// How the movements start that the model has, of the first `n`.
pub open spec fn starts(clips: WizardClips, n: int) -> Seq<ClipStart>
    decreases n,
{
    if n <= 0 {
        Seq::empty()
    } else {
        let before = starts(clips, n - 1);
        let clip = clip_at((n - 1) as usize);
        match clips.node(clip) {
            Some(node) => before.push(
                ClipStart { node, weight: clip.first_weight(), speed: clip.speed() },
            ),
            None => before,
        }
    }
}

/// How the movements start that the model has: all of them at once, the model
/// standing. Nothing starts while the model is not ready.
pub fn attach_animation_graph(clips: WizardClips) -> (r: Vec<ClipStart>)
    ensures
        r@ == (if clips.ready() {
            starts(clips, CLIPS as int)
        } else {
            Seq::empty()
        }),
{
    let mut started: Vec<ClipStart> = Vec::new();
    if !clips.ready() {
        return started;
    }
    let mut i: usize = 0;
    while i < CLIPS
        invariant
            i <= CLIPS,
            started@ == starts(clips, i as int),
        decreases CLIPS - i,
    {
        let clip = clip_at(i);
        match clips.node(clip) {
            Some(node) => {
                started.push(ClipStart { node, weight: clip.first_weight(), speed: clip.speed() });
            },
            None => {},
        }
        i += 1;
    }
    started
}

pub open spec fn spec_eased(current: Scalar, target: Scalar, alpha: Scalar) -> Scalar {
    current.plus(target.minus(current).times(alpha))
}

/// A value a little nearer to where it goes.
#[verifier::when_used_as_spec(spec_eased)]
pub fn eased(current: Scalar, target: Scalar, alpha: Scalar) -> (r: Scalar)
    ensures
        r == spec_eased(current, target, alpha),
{
    current.plus(target.minus(current).times(alpha))
}

pub open spec fn spec_step_airborne_blend(current: Scalar, grounded: bool) -> Scalar {
    if grounded {
        eased(current, zero(), airborne_alpha())
    } else {
        eased(current, one(), airborne_alpha())
    }
}

/// How much of a jump shows, a frame later.
#[verifier::when_used_as_spec(spec_step_airborne_blend)]
pub fn step_airborne_blend(current: Scalar, grounded: bool) -> (r: Scalar)
    ensures
        r == spec_step_airborne_blend(current, grounded),
{
    if grounded {
        eased(current, zero(), airborne_alpha())
    } else {
        eased(current, one(), airborne_alpha())
    }
}

pub open spec fn spec_step_casting_blend(current: Scalar, casting: bool) -> Scalar {
    if casting {
        eased(current, one(), casting_alpha())
    } else {
        eased(current, zero(), casting_alpha())
    }
}

/// How much of a cast shows, a frame later.
#[verifier::when_used_as_spec(spec_step_casting_blend)]
pub fn step_casting_blend(current: Scalar, casting: bool) -> (r: Scalar)
    ensures
        r == spec_step_casting_blend(current, casting),
{
    if casting {
        eased(current, one(), casting_alpha())
    } else {
        eased(current, zero(), casting_alpha())
    }
}

pub open spec fn spec_is_casting_phase(phase: CastPhase) -> bool {
    phase == CastPhase::Charging || phase == CastPhase::Channeling
}

/// Whether a cast in this phase shows.
#[verifier::when_used_as_spec(spec_is_casting_phase)]
pub fn is_casting_phase(phase: CastPhase) -> (r: bool)
    ensures
        r == spec_is_casting_phase(phase),
{
    phase == CastPhase::Charging || phase == CastPhase::Channeling
}

/// Whether some cast of a player shows.
pub fn is_casting(state: &CastState) -> (r: bool)
    requires
        state.wf(),
    ensures
        r == exists|id: Seq<char>|
            state@.contains_key(id) && is_casting_phase((#[trigger] state@[id]).phase),
{
    let mut i: usize = 0;
    while i < state.instances.values.len()
        invariant
            i <= state.instances.values.len(),
            state.wf(),
            forall|j: int|
                0 <= j < i ==> !is_casting_phase((#[trigger] state.instances.values@[j]).phase),
        decreases state.instances.values.len() - i,
    {
        if is_casting_phase(state.instances.values[i].phase) {
            proof {
                state.instances.lemma_at(i as int);
                let id = state.instances.keys@[i as int]@;
                assert(state@.contains_key(id) && is_casting_phase(state@[id].phase));
            }
            return true;
        }
        i += 1;
    }
    proof {
        assert forall|id: Seq<char>| state@.contains_key(id) implies !is_casting_phase(
            (#[trigger] state@[id]).phase,
        ) by {
            let p = place_of(state.instances.keys@, id);
            assert(has_key(state.instances.keys@, id));
            state.instances.lemma_at(p);
        }
    }
    false
}

/// How much of a jump and of a cast shows of the player at this machine.
#[derive(Clone, Copy, Debug, PartialEq, Eq, Structural)]
pub struct LocalAnimBlend {
    pub airborne: Scalar,
    pub casting: Scalar,
}

impl Default for LocalAnimBlend {
    fn default() -> (r: LocalAnimBlend)
        ensures
            r == (LocalAnimBlend { airborne: zero(), casting: zero() }),
    {
        LocalAnimBlend { airborne: zero(), casting: zero() }
    }
}

/// Lets a frame pass for the player at this machine. The result is how much of
/// each movement shows.
pub fn drive_animation(
    clips: WizardClips,
    velocity: Vec3,
    facing: Quat,
    grounded: bool,
    casting: bool,
    state: &mut LocalAnimBlend,
) -> (r: Vec<ClipWeight>)
    ensures
        *final(state) == (LocalAnimBlend {
            airborne: step_airborne_blend(old(state).airborne, grounded),
            casting: step_casting_blend(old(state).casting, casting),
        }),
        r@ == blend(
            clips,
            velocity,
            facing,
            final(state).airborne,
            final(state).casting,
            CLIPS as int,
        ),
{
    state.airborne = step_airborne_blend(state.airborne, grounded);
    state.casting = step_casting_blend(state.casting, casting);
    locomotion_blend(clips, velocity, facing, state.airborne, state.casting)
}

/// Whether what moves a model belongs to the player at this machine.
pub fn drives_locally(line: &Vec<RigNode>) -> (r: bool)
    ensures
        r == exists|i: int| 0 <= i < line@.len() && (#[trigger] line@[i]).local_player,
{
    ancestor_is_local_player(line)
}

/// The layer that a part is drawn on, if it is part of the body of the player at
/// this machine: one that the player does not see.
pub fn propagate_self_body_render_layer(line: &Vec<RigNode>) -> (r: Option<usize>)
    ensures
        r == (if exists|i: int| 0 <= i < line@.len() && (#[trigger] line@[i]).local_body {
            Some(SELF_BODY_LAYER)
        } else {
            None
        }),
{
    if ancestor_has_body_marker(line) {
        Some(SELF_BODY_LAYER)
    } else {
        None
    }
}

/// Whether a number is a part of a whole.
pub open spec fn is_part(a: Scalar) -> bool {
    a.ge(zero()) && a.le(one())
}

/// A part of a part is a part.
proof fn lemma_part_of_part(a: Scalar, b: Scalar)
    requires
        is_part(a),
        is_part(b),
    ensures
        is_part(a.times(b)),
        within(a.times(b), exact(a) * exact(b), 1real),
        0real <= exact(a) <= 1real,
        0real <= exact(b) <= 1real,
        0real <= exact(a) * exact(b) <= 1real,
        exact(a) * exact(b) <= exact(a),
{
    lemma_part_exact(a);
    lemma_part_exact(b);
    let (x, y) = (exact(a), exact(b));
    assert(0real <= x * y <= 1real && x * y <= x) by (nonlinear_arith)
        requires
            0real <= x <= 1real,
            0real <= y <= 1real,
    ;
    lemma_times_close(a, b, 1real);
    lemma_times_not_negative(a, b);
    lemma_units_of_power(127);
    let t = pow2(149) as int;
    let (ua, ub) = (units(a.magnitude()), units(b.magnitude()));
    lemma_order_is_value(a, one());
    lemma_order_is_value(b, one());
    lemma_units_increase(0, a.magnitude());
    lemma_units_increase(0, b.magnitude());
    assert(ua * ub <= t * t) by (nonlinear_arith)
        requires
            0 <= ua <= t,
            0 <= ub <= t,
    ;
    lemma_times_at_most(a, b, one());
}

proof fn lemma_part_exact(a: Scalar)
    requires
        is_part(a),
    ensures
        a.is_finite(),
        0real <= exact(a) <= 1real,
        a.value() >= 0,
{
    lemma_exact_constants();
    lemma_exact_ordered(zero(), a);
    lemma_exact_ordered(a, one());
    lemma_order_is_value(zero(), a);
}

/// The rest of a whole is a part.
proof fn lemma_rest(a: Scalar)
    requires
        is_part(a),
    ensures
        is_part(one().minus(a)),
        within(one().minus(a), 1real - exact(a), 1real),
{
    lemma_part_exact(a);
    lemma_exact_constants();
    lemma_minus_close(one(), a, 1real);
    lemma_order_is_value(a, one());
    lemma_sum_ordered(one(), a.neg(), one());
    lemma_sum_ordered(one(), a.neg(), zero());
}

/// A share splits into what shows without a cast and with one.
proof fn lemma_split(share: Scalar, cast: Scalar)
    requires
        is_part(share),
        is_part(cast),
    ensures
        is_part(share.times(one().minus(cast))),
        is_part(share.times(cast)),
        size(
            exact(share.times(one().minus(cast))) + exact(share.times(cast)) - exact(share),
        ) * grains() <= 3real,
{
    let plain = one().minus(cast);
    lemma_rest(cast);
    lemma_part_of_part(share, plain);
    lemma_part_of_part(share, cast);
    let (x, c, p) = (exact(share), exact(cast), exact(plain));
    let off = p - (1real - c);
    assert(x * p + x * c == x + x * off) by (nonlinear_arith)
        requires
            off == p - (1real - c),
    ;
    lemma_size_of_product(x, off, 1real, size(off));
}

/// The ways that a character moves on the ground share what is on the ground.
proof fn lemma_gait(velocity: Vec3, facing: Quat, grounded: Scalar)
    requires
        is_part(grounded),
    ensures
        ({
            let g = gait(velocity, facing, grounded);
            &&& is_part(g.idle)
            &&& is_part(g.forward)
            &&& is_part(g.backward)
            &&& is_part(g.left)
            &&& is_part(g.right)
            &&& size(
                exact(g.idle) + exact(g.forward) + exact(g.backward) + exact(g.left) + exact(g.right)
                    - exact(grounded),
            ) * grains() <= 6real
        }),
{
    lemma_exact_constants();
    lemma_part_exact(grounded);
    let speed = ground_speed(velocity);
    let local = facing.rotate(Vec3 { x: velocity.x, y: zero(), z: velocity.z }).shrink(speed);
    let (a, b) = (local.z.abs(), local.x.abs());
    let both = a.plus(b);
    if speed.lt(walk_min_speed()) || !both.is_finite() || !both.gt(zero()) {
    } else {
        assert(a.is_finite() && b.is_finite() && !speed.is_nan()) by {
            reveal(Scalar::spec_plus);
            reveal(Scalar::spec_over);
        }
        let quick = speed.over(locomotion_ref_speed());
        assert(!quick.is_nan()) by {
            reveal(Scalar::spec_over);
            if speed.is_finite() {
                lemma_quotient(speed.magnitude(), locomotion_ref_speed().magnitude());
            }
        }
        let walk = quick.clamp(zero(), one());
        lemma_clamp_close(quick);
        lemma_exact_ordered(zero(), walk);
        lemma_exact_ordered(walk, one());
        let walking = grounded.times(walk);
        lemma_part_of_part(grounded, walk);
        lemma_rest(walk);
        let still = one().minus(walk);
        lemma_part_of_part(grounded, still);
        let along = a.over(both);
        lemma_plus_no_less(a, b);
        lemma_over_not_negative(a, both);
        lemma_over_at_most_one(a, both);
        assert(is_part(along));
        let across = one().minus(along);
        lemma_rest(along);
        lemma_part_of_part(walking, along);
        lemma_part_of_part(walking, across);
        // Without one of the directions the other has it all.
        assert(a.magnitude() == 0 ==> along.magnitude() == 0) by {
            reveal(Scalar::spec_over);
            lemma_quotient(a.magnitude(), both.magnitude());
        }
        lemma_exact_ordered(along, zero());
        assert(b.magnitude() == 0 ==> exact(across) == 0real) by {
            if b.magnitude() == 0 {
                lemma_sum_ordered(a, b, a);
                lemma_exact_ordered(a, both);
                lemma_exact_ordered(both, a);
                lemma_order_is_value(a, both);
                lemma_over_at_least_one(a, both);
                lemma_exact_ordered(one(), along);
                lemma_part_exact(along);
                lemma_rest_of_all(along);
            }
        }
        let (x, w, s) = (exact(grounded), exact(walk), exact(still));
        let off = s - (1real - w);
        assert(x * s + x * w == x + x * off) by (nonlinear_arith)
            requires
                off == s - (1real - w),
        ;
        lemma_size_of_product(x, off, 1real, size(off));
        let (y, p, q) = (exact(walking), exact(along), exact(across));
        let off2 = q - (1real - p);
        assert(y * p + y * q == y + y * off2) by (nonlinear_arith)
            requires
                off2 == q - (1real - p),
        ;
        lemma_size_of_product(y, off2, 1real, size(off2));
        assert(exact(along) == 0real ==> exact(walking.times(along)) == 0real) by {
            if along.magnitude() == 0 {
                reveal(Scalar::spec_times);
                lemma_product(walking.magnitude(), along.magnitude());
                lemma_exact_ordered(walking.times(along), zero());
            }
        }
        lemma_exact_ordered(across, zero());
        assert(exact(across) == 0real ==> exact(walking.times(across)) == 0real) by {
            if across.magnitude() == 0 {
                reveal(Scalar::spec_times);
                lemma_product(walking.magnitude(), across.magnitude());
                lemma_exact_ordered(walking.times(across), zero());
            }
        }
    }
}

/// Nothing is left of a whole without all of it.
proof fn lemma_rest_of_all(a: Scalar)
    requires
        is_part(a),
        exact(a) == 1real,
    ensures
        exact(one().minus(a)) == 0real,
{
    lemma_exact_constants();
    lemma_exact(a);
    lemma_exact(one());
    lemma_sum_ordered(one(), a.neg(), zero());
    lemma_rest(a);
    lemma_exact_ordered(one().minus(a), zero());
    lemma_exact_ordered(zero(), one().minus(a));
}

/// What shows of any movement is a part of what shows in all.
pub proof fn law_weights_are_parts(
    clips: WizardClips,
    clip: Clip,
    velocity: Vec3,
    facing: Quat,
    airborne: Scalar,
    casting: Scalar,
)
    requires
        !airborne.is_nan(),
        !casting.is_nan(),
    ensures
        is_part(weight(clips, clip, velocity, facing, airborne, casting)),
        clip == Clip::Falling ==> weight(clips, clip, velocity, facing, airborne, casting)
            == airborne.clamp(zero(), one()),
{
    let air = airborne.clamp(zero(), one());
    let cast = casting.clamp(zero(), one());
    assert(is_part(air) && is_part(cast));
    lemma_rest(air);
    lemma_gait(velocity, facing, one().minus(air));
    let g = gait(velocity, facing, one().minus(air));
    lemma_split(g.idle, cast);
    lemma_split(g.forward, cast);
    lemma_split(g.backward, cast);
    lemma_split(g.left, cast);
    lemma_split(g.right, cast);
}

/// Whether no two movements of a model are the same node.
pub open spec fn are_apart(clips: WizardClips) -> bool {
    forall|i: int, j: int|
        0 <= i < j < CLIPS ==> (#[trigger] clips.node(clip_at(i as usize))) is None || (
        #[trigger] clips.node(clip_at(j as usize))) is None || clips.node(clip_at(i as usize))
            != clips.node(clip_at(j as usize))
}

/// Whether a node shows exactly once, as much as it is to.
pub open spec fn shows_once(shown: Seq<ClipWeight>, one: ClipWeight) -> bool {
    exists|k: int|
        0 <= k < shown.len() && #[trigger] shown[k] == one && forall|j: int|
            0 <= j < shown.len() && j != k ==> (#[trigger] shown[j]).node != one.node
}

/// Each movement that a model has shows exactly once.
pub proof fn law_each_movement_shows_once(
    clips: WizardClips,
    velocity: Vec3,
    facing: Quat,
    airborne: Scalar,
    casting: Scalar,
    i: int,
)
    requires
        are_apart(clips),
        0 <= i < CLIPS,
        clips.node(clip_at(i as usize)) is Some,
    ensures
        shows_once(
            blend(clips, velocity, facing, airborne, casting, CLIPS as int),
            ClipWeight {
                node: clips.node(clip_at(i as usize))->Some_0,
                weight: weight(clips, clip_at(i as usize), velocity, facing, airborne, casting),
            },
        ),
{
    lemma_shows(clips, velocity, facing, airborne, casting, i, CLIPS as int);
}

proof fn lemma_shows(
    clips: WizardClips,
    velocity: Vec3,
    facing: Quat,
    airborne: Scalar,
    casting: Scalar,
    i: int,
    n: int,
)
    requires
        are_apart(clips),
        0 <= i < CLIPS,
        0 <= n <= CLIPS,
        clips.node(clip_at(i as usize)) is Some,
    ensures
        ({
            let shown = blend(clips, velocity, facing, airborne, casting, n);
            let one = ClipWeight {
                node: clips.node(clip_at(i as usize))->Some_0,
                weight: weight(clips, clip_at(i as usize), velocity, facing, airborne, casting),
            };
            if i < n {
                shows_once(shown, one)
            } else {
                forall|j: int| 0 <= j < shown.len() ==> (#[trigger] shown[j]).node != one.node
            }
        }),
    decreases n,
{
    if n > 0 {
        lemma_shows(clips, velocity, facing, airborne, casting, i, n - 1);
        let before = blend(clips, velocity, facing, airborne, casting, n - 1);
        let shown = blend(clips, velocity, facing, airborne, casting, n);
        let node = clips.node(clip_at(i as usize));
        let last = clips.node(clip_at((n - 1) as usize));
        let one = ClipWeight {
            node: node->Some_0,
            weight: weight(clips, clip_at(i as usize), velocity, facing, airborne, casting),
        };
        if i == n - 1 {
            assert(shown[before.len() as int] == one);
        } else if i < n - 1 {
            let k = choose|k: int|
                0 <= k < before.len() && #[trigger] before[k] == one && forall|j: int|
                    0 <= j < before.len() && j != k ==> (#[trigger] before[j]).node != one.node;
            assert(last is Some ==> last != node);
            assert(shown[k] == one);
        }
    }
}

/// How much shows of all movements together.
pub open spec fn total(weights: Seq<ClipWeight>) -> real
    decreases weights.len(),
{
    if weights.len() == 0 {
        0real
    } else {
        total(weights.drop_last()) + exact(weights.last().weight)
    }
}

/// How much a movement adds to what shows.
spec fn added(
    clips: WizardClips,
    i: int,
    velocity: Vec3,
    facing: Quat,
    airborne: Scalar,
    casting: Scalar,
) -> real {
    let clip = clip_at(i as usize);
    if clips.node(clip) is Some {
        exact(weight(clips, clip, velocity, facing, airborne, casting))
    } else {
        0real
    }
}

proof fn lemma_total_step(
    clips: WizardClips,
    velocity: Vec3,
    facing: Quat,
    airborne: Scalar,
    casting: Scalar,
    n: int,
)
    requires
        0 < n <= CLIPS,
    ensures
        total(blend(clips, velocity, facing, airborne, casting, n)) == total(
            blend(clips, velocity, facing, airborne, casting, n - 1),
        ) + added(clips, n - 1, velocity, facing, airborne, casting),
{
    let before = blend(clips, velocity, facing, airborne, casting, n - 1);
    let after = blend(clips, velocity, facing, airborne, casting, n);
    if clips.node(clip_at((n - 1) as usize)) is Some {
        assert(after.drop_last() =~= before);
    }
}

/// All that shows is what each movement adds.
proof fn lemma_total(
    clips: WizardClips,
    velocity: Vec3,
    facing: Quat,
    airborne: Scalar,
    casting: Scalar,
)
    ensures
        ({
            let d = |i: int| added(clips, i, velocity, facing, airborne, casting);
            total(blend(clips, velocity, facing, airborne, casting, CLIPS as int)) == d(0) + d(1)
                + d(2) + d(3) + d(4) + d(5) + d(6) + d(7) + d(8) + d(9) + d(10)
        }),
{
    assert(total(blend(clips, velocity, facing, airborne, casting, 0)) == 0real);
    lemma_total_step(clips, velocity, facing, airborne, casting, 1);
    lemma_total_step(clips, velocity, facing, airborne, casting, 2);
    lemma_total_step(clips, velocity, facing, airborne, casting, 3);
    lemma_total_step(clips, velocity, facing, airborne, casting, 4);
    lemma_total_step(clips, velocity, facing, airborne, casting, 5);
    lemma_total_step(clips, velocity, facing, airborne, casting, 6);
    lemma_total_step(clips, velocity, facing, airborne, casting, 7);
    lemma_total_step(clips, velocity, facing, airborne, casting, 8);
    lemma_total_step(clips, velocity, facing, airborne, casting, 9);
    lemma_total_step(clips, velocity, facing, airborne, casting, 10);
    lemma_total_step(clips, velocity, facing, airborne, casting, 11);
}

/// What a movement shows without a cast and with one is its share.
proof fn lemma_pair(share: Scalar, cast: Scalar, with_cast: Option<u32>)
    requires
        is_part(share),
        is_part(cast),
    ensures
        size(
            exact(plain_part(share, one().minus(cast), with_cast)) + (if with_cast is Some {
                exact(share.times(cast))
            } else {
                0real
            }) - exact(share),
        ) * grains() <= 3real,
{
    lemma_split(share, cast);
}

/// What one way to move on the ground shows is its share.
proof fn lemma_way(
    clips: WizardClips,
    velocity: Vec3,
    facing: Quat,
    airborne: Scalar,
    casting: Scalar,
    i: int,
)
    requires
        !airborne.is_nan(),
        !casting.is_nan(),
        0 <= i < 5,
        clips.node(clip_at(i as usize)) is Some,
    ensures
        size(
            added(clips, i, velocity, facing, airborne, casting) + added(
                clips,
                i + 6,
                velocity,
                facing,
                airborne,
                casting,
            ) - exact(way(velocity, facing, airborne, i)),
        ) * grains() <= 3real,
{
    let air = airborne.clamp(zero(), one());
    let cast = casting.clamp(zero(), one());
    assert(is_part(air) && is_part(cast));
    lemma_rest(air);
    let grounded = one().minus(air);
    lemma_gait(velocity, facing, grounded);
    let with_cast = clips.node(clip_at((i + 6) as usize));
    lemma_pair(way(velocity, facing, airborne, i), cast, with_cast);
}

/// The share of a way to move on the ground.
spec fn way(velocity: Vec3, facing: Quat, airborne: Scalar, i: int) -> Scalar {
    let g = gait(velocity, facing, one().minus(airborne.clamp(zero(), one())));
    if i == 0 {
        g.idle
    } else if i == 1 {
        g.forward
    } else if i == 2 {
        g.backward
    } else if i == 3 {
        g.left
    } else {
        g.right
    }
}

/// Shares that are each met closely are met closely together.
proof fn lemma_add_up(d: spec_fn(int) -> real, w: spec_fn(int) -> real, air: real, grounded: real)
    requires
        forall|i: int| 0 <= i < 5 ==> size(#[trigger] d(i) + d(i + 6) - w(i)) * grains() <= 3real,
        d(5) == air,
        size(w(0) + w(1) + w(2) + w(3) + w(4) - grounded) * grains() <= 6real,
        size(grounded - (1real - air)) * grains() <= 1real,
    ensures
        size(
            d(0) + d(1) + d(2) + d(3) + d(4) + d(5) + d(6) + d(7) + d(8) + d(9) + d(10) - 1real,
        ) * grains() <= 22real,
{
    assert(size(d(0) + d(6) - w(0)) * grains() <= 3real);
    assert(size(d(1) + d(7) - w(1)) * grains() <= 3real);
    assert(size(d(2) + d(8) - w(2)) * grains() <= 3real);
    assert(size(d(3) + d(9) - w(3)) * grains() <= 3real);
    assert(size(d(4) + d(10) - w(4)) * grains() <= 3real);
}

/// All that shows adds up to one, as far as rounding allows, whatever movements with a
/// cast the model lacks.
pub proof fn law_weights_add_up(
    clips: WizardClips,
    velocity: Vec3,
    facing: Quat,
    airborne: Scalar,
    casting: Scalar,
)
    requires
        !airborne.is_nan(),
        !casting.is_nan(),
        clips.idle is Some,
        clips.walk_f is Some,
        clips.walk_b is Some,
        clips.walk_l is Some,
        clips.walk_r is Some,
        clips.falling is Some,
    ensures
        size(total(blend(clips, velocity, facing, airborne, casting, CLIPS as int)) - 1real)
            * grains() <= 22real,
{
    let air = airborne.clamp(zero(), one());
    let grounded = one().minus(air);
    let d = |n: int| added(clips, n, velocity, facing, airborne, casting);
    let w = |n: int| exact(way(velocity, facing, airborne, n));
    lemma_total(clips, velocity, facing, airborne, casting);
    assert forall|i: int| 0 <= i < 5 implies size(#[trigger] d(i) + d(i + 6) - w(i)) * grains()
        <= 3real by {
        lemma_way(clips, velocity, facing, airborne, casting, i);
    }
    assert(is_part(air));
    lemma_rest(air);
    lemma_gait(velocity, facing, grounded);
    assert(d(5) == exact(air));
    lemma_add_up(d, w, exact(air), exact(grounded));
}

/// Of a character that stands nothing shows but standing and falling.
pub proof fn law_at_rest_only_standing_shows(
    clips: WizardClips,
    velocity: Vec3,
    facing: Quat,
    airborne: Scalar,
    casting: Scalar,
    clip: Clip,
)
    requires
        ground_speed(velocity).lt(walk_min_speed()),
        !casting.is_nan(),
        clip != Clip::Idle,
        clip != Clip::CastIdle,
        clip != Clip::Falling,
    ensures
        weight(clips, clip, velocity, facing, airborne, casting).equals(zero()),
{
    let cast = casting.clamp(zero(), one());
    assert(is_part(cast));
    lemma_rest(cast);
    lemma_part_exact(cast);
    lemma_part_exact(one().minus(cast));
    reveal(Scalar::spec_times);
    lemma_product(0, cast.magnitude());
    lemma_product(0, one().minus(cast).magnitude());
}

} // verus!

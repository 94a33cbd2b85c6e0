//! The lens spells of the game for one.
//!
//! A lantern is thrown and picked up again. While a lens is in hand and the
//! player holds fire, the convex lens throws a beam, and the iris gathers charge
//! that it lets go of in one burst.

use crate::input::InputMode;
use crate::player::spells::SpellId;
use crate::scalar::{zero, Scalar};
use crate::spells::convex_lens::{
    beam_impulse_rate, beam_shape, best_of, compute_lens_power, lens_radius, max_lumens,
    total_power, BeamHit, BeamShape, BentSegment, LensSource,
};
use crate::spells::effects::Push;
use crate::spells::iris::{
    burst_beyond, iris_burst_duration, iris_burst_impulse, iris_burst_min, iris_burst_radius,
    iris_max_charge,
};
use crate::spells::lantern::{throw_forward, throw_up};
use crate::spells::portal::up;
use crate::vector::Vec3;
use vstd::prelude::*;

verus! {

/// How many lanterns can be out at once.
pub const MAX_LANTERNS: usize = 3;

/// How far ahead of the eyes a lantern starts (`0.6`).
#[verifier::allow_in_spec]
pub fn near_throw_offset() -> Scalar
    returns
        (Scalar { bits: 0x3f19_999a }),
{
    Scalar { bits: 0x3f19_999a }
}

/// How near a player has to be to pick up a lantern (`1.8`).
#[verifier::allow_in_spec]
pub fn pickup_radius() -> Scalar
    returns
        (Scalar { bits: 0x3fe6_6666 }),
{
    Scalar { bits: 0x3fe6_6666 }
}

/// How fast the iris gathers charge at a power of one (`1.0`).
#[verifier::allow_in_spec]
pub fn iris_charge_rate() -> Scalar
    returns
        (Scalar { bits: 0x3f80_0000 }),
{
    Scalar { bits: 0x3f80_0000 }
}

/// How fast the iris loses charge in a second (`2.0`).
#[verifier::allow_in_spec]
pub fn iris_decay_rate() -> Scalar
    returns
        (Scalar { bits: 0x4000_0000 }),
{
    Scalar { bits: 0x4000_0000 }
}

/// A lantern on its way.
#[derive(Clone, Copy, Debug, PartialEq, Eq, Structural)]
pub struct Throw {
    pub origin: Vec3,
    pub velocity: Vec3,
}

pub open spec fn spec_on_throw_lantern(out: usize, eye: Vec3, forward: Vec3) -> Option<Throw> {
    if out >= MAX_LANTERNS {
        None
    } else {
        Some(
            Throw {
                origin: eye.plus(forward.scale(near_throw_offset())),
                velocity: forward.scale(throw_forward()).plus(up().scale(throw_up())),
            },
        )
    }
}

/// The throw of a player whose eyes are at `eye` and look `forward`, unless
/// enough lanterns are out.
#[verifier::when_used_as_spec(spec_on_throw_lantern)]
pub fn on_throw_lantern(out: usize, eye: Vec3, forward: Vec3) -> (r: Option<Throw>)
    ensures
        r == spec_on_throw_lantern(out, eye, forward),
{
    if out >= MAX_LANTERNS {
        None
    } else {
        Some(
            Throw {
                origin: eye.plus(forward.scale(near_throw_offset())),
                velocity: forward.scale(throw_forward()).plus(up().scale(throw_up())),
            },
        )
    }
}

pub open spec fn spec_on_pickup(player: Vec3, lantern: Vec3) -> bool {
    player.distance(lantern).le(pickup_radius())
}

/// Whether a player picks up a lantern.
#[verifier::when_used_as_spec(spec_on_pickup)]
pub fn on_pickup(player: Vec3, lantern: Vec3) -> (r: bool)
    ensures
        r == spec_on_pickup(player, lantern),
{
    player.distance(lantern).le(pickup_radius())
}

/// What the iris has gathered, and the burst that is still seen.
#[derive(Clone, Copy, Debug, PartialEq, Eq, Structural)]
pub struct IrisState {
    pub charge: Scalar,
    pub burst_charge: Scalar,
    pub burst_timer: Scalar,
}

impl Default for IrisState {
    fn default() -> (r: IrisState)
        ensures
            r == (IrisState { charge: zero(), burst_charge: zero(), burst_timer: zero() }),
    {
        IrisState { charge: zero(), burst_charge: zero(), burst_timer: zero() }
    }
}

/// How much power enters the lens, and whether it is put to use.
#[derive(Debug)]
pub struct LensPower {
    pub power: crate::spells::convex_lens::LensPower,
    pub lens_active: bool,
}

pub open spec fn spec_is_lens_spell(active: SpellId) -> bool {
    active == SpellId::ConvexLens || active == SpellId::Iris
}

/// Whether a spell uses the lens.
#[verifier::when_used_as_spec(spec_is_lens_spell)]
pub fn is_lens_spell(active: SpellId) -> (r: bool)
    ensures
        r == spec_is_lens_spell(active),
{
    active == SpellId::ConvexLens || active == SpellId::Iris
}

/// How much power enters the lens from these lanterns. It is put to use while the
/// player holds fire with a spell that uses the lens.
pub fn lens_power(sources: Vec<LensSource>, channeling: bool, active: SpellId) -> (r: LensPower)
    ensures
        r.power.sources@ == sources@,
        r.power.in_range == (sources@.len() > 0),
        sources@.len() == 0 ==> {
            &&& r.power.scalar == zero()
            &&& !r.power.aligned
            &&& r.power.lens_distance == zero()
            &&& r.power.lumens == zero()
            &&& r.power.active_lantern is None
        },
        sources@.len() > 0 ==> {
            let best = best_of(sources@);
            &&& r.power.scalar == total_power(sources@)
            &&& r.power.aligned == best.aligned
            &&& r.power.lens_distance == best.lens_distance
            &&& r.power.lumens == r.power.scalar.times(max_lumens())
            &&& r.power.active_lantern == Some(best.entity)
        },
        r.lens_active == (r.power.scalar.gt(zero()) && channeling && is_lens_spell(active)),
{
    let power = compute_lens_power(sources);
    let lens_active = power.scalar.gt(zero()) && channeling && is_lens_spell(active);
    LensPower { power, lens_active }
}

pub open spec fn spec_after_release(iris: IrisState) -> IrisState {
    if iris.charge.lt(iris_burst_min()) {
        IrisState { charge: zero(), ..iris }
    } else {
        IrisState {
            charge: zero(),
            burst_charge: iris.charge,
            burst_timer: iris_burst_duration(),
        }
    }
}

/// What is left of the iris's charge once fire is let go, and the burst.
#[verifier::when_used_as_spec(spec_after_release)]
pub fn after_release(iris: IrisState) -> (r: IrisState)
    ensures
        r == spec_after_release(iris),
{
    if iris.charge.lt(iris_burst_min()) {
        IrisState { charge: zero(), ..iris }
    } else {
        IrisState {
            charge: zero(),
            burst_charge: iris.charge,
            burst_timer: iris_burst_duration(),
        }
    }
}

/// Ends the channel. With the iris in hand, and enough charge, that makes a
/// burst: the result is its charge.
pub fn on_fire_end(active: SpellId, channeling: &mut bool, iris: &mut IrisState) -> (r: Option<
    Scalar,
>)
    ensures
        !*final(channeling),
        *final(iris) == (if active == SpellId::Iris {
            after_release(*old(iris))
        } else {
            *old(iris)
        }),
        r == (if active == SpellId::Iris && !old(iris).charge.lt(iris_burst_min()) {
            Some(old(iris).charge)
        } else {
            None
        }),
{
    *channeling = false;
    if active != SpellId::Iris {
        return None;
    }
    let charge = iris.charge;
    *iris = after_release(*iris);
    if charge.lt(iris_burst_min()) {
        None
    } else {
        Some(charge)
    }
}

pub open spec fn spec_release_push(hit: BeamHit, charge: Scalar) -> Option<Push> {
    match hit.impulse_info {
        Some(info) => Some(
            Push {
                entity: info.entity,
                impulse: info.direction.scale(iris_burst_impulse()).scale(charge),
            },
        ),
        None => None,
    }
}

/// The push that what a burst meets gets.
#[verifier::when_used_as_spec(spec_release_push)]
pub fn release_push(hit: BeamHit, charge: Scalar) -> (r: Option<Push>)
    ensures
        r == spec_release_push(hit, charge),
{
    match hit.impulse_info {
        Some(info) => Some(
            Push {
                entity: info.entity,
                impulse: info.direction.scale(iris_burst_impulse()).scale(charge),
            },
        ),
        None => None,
    }
}

/// What is seen of a lens spell.
#[derive(Clone, Copy, Debug, PartialEq, Eq, Structural)]
pub enum BeamShow {
    Hidden,
    /// The beam of the convex lens.
    Lens,
    /// The burst of the iris.
    Burst,
}

pub open spec fn spec_kept_iris(active: SpellId, iris: IrisState) -> IrisState {
    if active == SpellId::Iris {
        iris
    } else {
        IrisState { charge: zero(), burst_charge: iris.burst_charge, burst_timer: zero() }
    }
}

/// The iris's state in a frame: nothing is kept when another spell is in hand.
#[verifier::when_used_as_spec(spec_kept_iris)]
pub fn kept_iris(active: SpellId, iris: IrisState) -> (r: IrisState)
    ensures
        r == spec_kept_iris(active, iris),
{
    if active == SpellId::Iris {
        iris
    } else {
        IrisState { charge: zero(), burst_charge: iris.burst_charge, burst_timer: zero() }
    }
}

pub open spec fn spec_beam_show(
    active: SpellId,
    mode: InputMode,
    lens_active: bool,
    iris: IrisState,
) -> BeamShow {
    if mode != InputMode::Player {
        BeamShow::Hidden
    } else if active == SpellId::ConvexLens && lens_active {
        BeamShow::Lens
    } else if active == SpellId::Iris && iris.burst_timer.gt(zero()) {
        BeamShow::Burst
    } else {
        BeamShow::Hidden
    }
}

/// What is seen of a lens spell.
#[verifier::when_used_as_spec(spec_beam_show)]
pub fn beam_show(
    active: SpellId,
    mode: InputMode,
    lens_active: bool,
    iris: IrisState,
) -> (r: BeamShow)
    ensures
        r == spec_beam_show(active, mode, lens_active, iris),
{
    if mode != InputMode::Player {
        BeamShow::Hidden
    } else if active == SpellId::ConvexLens && lens_active {
        BeamShow::Lens
    } else if active == SpellId::Iris && iris.burst_timer.gt(zero()) {
        BeamShow::Burst
    } else {
        BeamShow::Hidden
    }
}

pub open spec fn spec_charge_after(
    iris: IrisState,
    channeling: bool,
    power: Scalar,
    dt: Scalar,
) -> Scalar {
    if channeling && power.gt(zero()) {
        iris.charge.plus(power.times(iris_charge_rate()).times(dt)).min(iris_max_charge())
    } else if iris.charge.gt(zero()) {
        iris.charge.minus(iris_decay_rate().times(dt)).max(zero())
    } else {
        iris.charge
    }
}

/// The iris's charge after `dt` seconds: more while it is fed, less while not.
#[verifier::when_used_as_spec(spec_charge_after)]
pub fn charge_after(iris: IrisState, channeling: bool, power: Scalar, dt: Scalar) -> (r: Scalar)
    ensures
        r == spec_charge_after(iris, channeling, power, dt),
{
    if channeling && power.gt(zero()) {
        iris.charge.plus(power.times(iris_charge_rate()).times(dt)).min(iris_max_charge())
    } else if iris.charge.gt(zero()) {
        iris.charge.minus(iris_decay_rate().times(dt)).max(zero())
    } else {
        iris.charge
    }
}

pub open spec fn spec_iris_after(
    active: SpellId,
    mode: InputMode,
    channeling: bool,
    power: Scalar,
    dt: Scalar,
    iris: IrisState,
) -> IrisState {
    let kept = kept_iris(active, iris);
    if mode != InputMode::Player || active != SpellId::Iris {
        kept
    } else if kept.burst_timer.gt(zero()) {
        IrisState { burst_timer: kept.burst_timer.minus(dt).max(zero()), ..kept }
    } else {
        IrisState { charge: charge_after(kept, channeling, power, dt), ..kept }
    }
}

/// The iris's state after a frame of `dt` seconds.
#[verifier::when_used_as_spec(spec_iris_after)]
pub fn iris_after(
    active: SpellId,
    mode: InputMode,
    channeling: bool,
    power: Scalar,
    dt: Scalar,
    iris: IrisState,
) -> (r: IrisState)
    ensures
        r == spec_iris_after(active, mode, channeling, power, dt, iris),
{
    let kept = kept_iris(active, iris);
    if mode != InputMode::Player || active != SpellId::Iris {
        kept
    } else if kept.burst_timer.gt(zero()) {
        IrisState { burst_timer: kept.burst_timer.minus(dt).max(zero()), ..kept }
    } else {
        IrisState { charge: charge_after(kept, channeling, power, dt), ..kept }
    }
}

/// Lets a frame of `dt` seconds pass for the lens spells. The result tells what is
/// seen.
pub fn cast_beam(
    active: SpellId,
    mode: InputMode,
    channeling: bool,
    power: Scalar,
    lens_active: bool,
    dt: Scalar,
    iris: &mut IrisState,
) -> (r: BeamShow)
    ensures
        r == beam_show(active, mode, lens_active, kept_iris(active, *old(iris))),
        *final(iris) == iris_after(active, mode, channeling, power, dt, *old(iris)),
{
    let show = beam_show(active, mode, lens_active, kept_iris(active, *iris));
    *iris = iris_after(active, mode, channeling, power, dt, *iris);
    show
}

/// What is drawn of a beam, and what it pushes.
#[derive(Clone, Copy, Debug, PartialEq, Eq, Structural)]
pub struct BeamDraw {
    pub start_radius: Scalar,
    pub shape: BeamShape,
    /// The part beyond a portal, as wide all along as the beam starts.
    pub beyond: Option<BentSegment>,
    pub push: Option<Push>,
}

pub open spec fn spec_lens_draw(
    lens_distance: Scalar,
    power: Scalar,
    dt: Scalar,
    hit: BeamHit,
) -> BeamDraw {
    BeamDraw {
        start_radius: lens_radius(),
        shape: beam_shape(lens_distance, hit.primary_dist),
        beyond: burst_beyond(hit),
        push: match hit.impulse_info {
            Some(info) => Some(
                Push {
                    entity: info.entity,
                    impulse: info.direction.scale(beam_impulse_rate()).scale(power).scale(dt),
                },
            ),
            None => None,
        },
    }
}

/// What is drawn of the beam of the convex lens, and what it pushes.
#[verifier::when_used_as_spec(spec_lens_draw)]
pub fn lens_draw(lens_distance: Scalar, power: Scalar, dt: Scalar, hit: BeamHit) -> (r: BeamDraw)
    ensures
        r == spec_lens_draw(lens_distance, power, dt, hit),
{
    BeamDraw {
        start_radius: lens_radius(),
        shape: beam_shape(lens_distance, hit.primary_dist),
        beyond: burst_beyond(hit),
        push: match hit.impulse_info {
            Some(info) => Some(
                Push {
                    entity: info.entity,
                    impulse: info.direction.scale(beam_impulse_rate()).scale(power).scale(dt),
                },
            ),
            None => None,
        },
    }
}

pub open spec fn spec_burst_draw(hit: BeamHit) -> BeamDraw {
    BeamDraw {
        start_radius: iris_burst_radius(),
        shape: BeamShape { length: hit.primary_dist, end_radius: iris_burst_radius() },
        beyond: burst_beyond(hit),
        push: None,
    }
}

/// What is drawn of the burst of the iris. It has pushed already.
#[verifier::when_used_as_spec(spec_burst_draw)]
pub fn burst_draw(hit: BeamHit) -> (r: BeamDraw)
    ensures
        r == spec_burst_draw(hit),
{
    BeamDraw {
        start_radius: iris_burst_radius(),
        shape: BeamShape { length: hit.primary_dist, end_radius: iris_burst_radius() },
        beyond: burst_beyond(hit),
        push: None,
    }
}

/// A charge does not outlast its spell: with another one in hand there is none,
/// and no burst is seen.
pub proof fn law_charge_does_not_bleed(
    active: SpellId,
    mode: InputMode,
    channeling: bool,
    power: Scalar,
    dt: Scalar,
    iris: IrisState,
)
    requires
        active != SpellId::Iris,
    ensures
        iris_after(active, mode, channeling, power, dt, iris).charge == zero(),
        iris_after(active, mode, channeling, power, dt, iris).burst_timer == zero(),
{
}

/// Letting go always empties the iris, and a second time makes no burst.
pub proof fn law_release_empties_the_iris(iris: IrisState)
    ensures
        after_release(iris).charge == zero(),
        after_release(after_release(iris)) == after_release(iris),
{
    assert(zero().lt(iris_burst_min()));
}

} // verus!

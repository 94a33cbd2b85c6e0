//! Ice: balls that roll and leave frost, and spikes that rise out of it.

use crate::entity::Entity;
use crate::net::protocol::{NetworkedProp, PropShape};
use crate::physics::Ray;
use crate::rounding::{lemma_units_increase, units};
use crate::scalar::{
    lemma_over_not_negative, lemma_plus_no_less, lemma_product, lemma_times_at_least,
    lemma_times_at_most, lemma_times_not_negative, lemma_units_of_power, one, zero, Scalar,
};
use crate::spells::bodies::ColorDef;
use crate::spells::damage::{takes, Hitbox, Hurtbox, Team};
use crate::spells::data::SpellId;
use crate::spells::hud::{a_half, HudBox};
use crate::spells::markers::{FrostSpike, RollingGlacier};
use crate::spells::portal::{disc_rotation, up, SurfaceHit};
use crate::vector::{Quat, Vec3};
use vstd::arithmetic::power2::{lemma_pow2_adds, lemma_pow2_pos, pow2};
use vstd::prelude::*;

verus! {

/// How far a ball rolls from one tile of frost to the next (`0.8`).
#[verifier::allow_in_spec]
pub fn glacier_trail_step() -> Scalar
    returns
        (Scalar { bits: 0x3f4c_cccd }),
{
    Scalar { bits: 0x3f4c_cccd }
}

/// How near two tiles have to be to count as one (`0.25`).
#[verifier::allow_in_spec]
pub fn glacier_tile_dedup_dist() -> Scalar
    returns
        (Scalar { bits: 0x3e80_0000 }),
{
    Scalar { bits: 0x3e80_0000 }
}

/// How wide a tile is, from its middle (`0.45`).
#[verifier::allow_in_spec]
pub fn glacier_trail_radius() -> Scalar
    returns
        (Scalar { bits: 0x3ee6_6666 }),
{
    Scalar { bits: 0x3ee6_6666 }
}

/// How wide a ball is at first, from its middle (`0.32`).
#[verifier::allow_in_spec]
pub fn glacier_ball_base_radius() -> Scalar
    returns
        (Scalar { bits: 0x3ea3_d70a }),
{
    Scalar { bits: 0x3ea3_d70a }
}

/// How long a tile stays (`180.0`).
#[verifier::allow_in_spec]
pub fn frozen_ground_lifetime() -> Scalar
    returns
        (Scalar { bits: 0x4334_0000 }),
{
    Scalar { bits: 0x4334_0000 }
}

/// How long a spike stays (`180.0`).
#[verifier::allow_in_spec]
pub fn frost_spike_lifetime() -> Scalar
    returns
        (Scalar { bits: 0x4334_0000 }),
{
    Scalar { bits: 0x4334_0000 }
}

/// How long a spike rises (`0.15`).
#[verifier::allow_in_spec]
pub fn frost_spike_rise_duration() -> Scalar
    returns
        (Scalar { bits: 0x3e19_999a }),
{
    Scalar { bits: 0x3e19_999a }
}

/// How deep a spike stands in the ground (`0.08`).
#[verifier::allow_in_spec]
pub fn frost_spike_ground_inset() -> Scalar
    returns
        (Scalar { bits: 0x3da3_d70a }),
{
    Scalar { bits: 0x3da3_d70a }
}

/// How much a spike hurts at its first size (`22.0`).
#[verifier::allow_in_spec]
pub fn frost_spike_base_damage() -> Scalar
    returns
        (Scalar { bits: 0x41b0_0000 }),
{
    Scalar { bits: 0x41b0_0000 }
}

/// How much more it hurts for each unit of charge (`18.0`).
#[verifier::allow_in_spec]
pub fn frost_spike_damage_per_charge() -> Scalar
    returns
        (Scalar { bits: 0x4190_0000 }),
{
    Scalar { bits: 0x4190_0000 }
}

/// How wide a spike is at its first size (`0.55`).
#[verifier::allow_in_spec]
pub fn frost_spike_base_width() -> Scalar
    returns
        (Scalar { bits: 0x3f0c_cccd }),
{
    Scalar { bits: 0x3f0c_cccd }
}

/// How high a spike is at its first size (`1.6`).
#[verifier::allow_in_spec]
pub fn frost_spike_base_height() -> Scalar
    returns
        (Scalar { bits: 0x3fcc_cccd }),
{
    Scalar { bits: 0x3fcc_cccd }
}

/// How heavy a spike is at its first size (`20.0`).
#[verifier::allow_in_spec]
pub fn frost_spike_base_mass() -> Scalar
    returns
        (Scalar { bits: 0x41a0_0000 }),
{
    Scalar { bits: 0x41a0_0000 }
}

/// What a spike's colour varies by: nothing (`0.0`).
#[verifier::allow_in_spec]
pub fn frost_spike_tint_seed() -> Scalar
    returns
        (Scalar { bits: 0 }),
{
    Scalar { bits: 0 }
}

/// The colour of a spike: that of ice (`0.65`, `0.9`, `1.0`).
#[verifier::allow_in_spec]
pub fn frost_spike_tint() -> Vec3
    returns
        (Vec3 {
            x: Scalar { bits: 0x3f26_6666 },
            y: Scalar { bits: 0x3f66_6666 },
            z: Scalar { bits: 0x3f80_0000 },
        }),
{
    Vec3 {
        x: Scalar { bits: 0x3f26_6666 },
        y: Scalar { bits: 0x3f66_6666 },
        z: Scalar { bits: 0x3f80_0000 },
    }
}

/// How much a spike rubs (`0.6`).
#[verifier::allow_in_spec]
pub fn frost_spike_friction() -> Scalar
    returns
        (Scalar { bits: 0x3f19_999a }),
{
    Scalar { bits: 0x3f19_999a }
}

/// How much a spike throws back what hits it (`0.0`).
#[verifier::allow_in_spec]
pub fn frost_spike_restitution() -> Scalar
    returns
        (Scalar { bits: 0 }),
{
    Scalar { bits: 0 }
}

/// How far off a spike can be called up (`60.0`).
#[verifier::allow_in_spec]
pub fn frost_spire_range() -> Scalar
    returns
        (Scalar { bits: 0x4270_0000 }),
{
    Scalar { bits: 0x4270_0000 }
}

/// How far off the ice a call may be (`0.3`).
#[verifier::allow_in_spec]
pub fn frost_spire_match_slack() -> Scalar
    returns
        (Scalar { bits: 0x3e99_999a }),
{
    Scalar { bits: 0x3e99_999a }
}

/// How much smaller a spike is than the one it comes out of (`0.7`).
#[verifier::allow_in_spec]
pub fn spike_chain_scale() -> Scalar
    returns
        (Scalar { bits: 0x3f33_3333 }),
{
    Scalar { bits: 0x3f33_3333 }
}

/// How much a ball hurts (`28.0`).
#[verifier::allow_in_spec]
pub fn glacier_contact_damage() -> Scalar
    returns
        (Scalar { bits: 0x41e0_0000 }),
{
    Scalar { bits: 0x41e0_0000 }
}

/// How much of a tile sticks to a ball (`1.8`).
#[verifier::allow_in_spec]
pub fn glacier_growth_factor() -> Scalar
    returns
        (Scalar { bits: 0x3fe6_6666 }),
{
    Scalar { bits: 0x3fe6_6666 }
}

/// How many times its first size a ball can have (`12.0`).
#[verifier::allow_in_spec]
pub fn glacier_max_size_mult() -> Scalar
    returns
        (Scalar { bits: 0x4140_0000 }),
{
    Scalar { bits: 0x4140_0000 }
}

/// The size that a ball counts as, at least (`0.1`).
#[verifier::allow_in_spec]
pub fn glacier_least_size() -> Scalar
    returns
        (Scalar { bits: 0x3dcc_cccd }),
{
    Scalar { bits: 0x3dcc_cccd }
}

/// How far below a ball the ground is looked for (`4.0`).
#[verifier::allow_in_spec]
pub fn trail_ray_length() -> Scalar
    returns
        (Scalar { bits: 0x4080_0000 }),
{
    Scalar { bits: 0x4080_0000 }
}

/// How thick a tile is (`0.06`).
#[verifier::allow_in_spec]
pub fn disc_thickness() -> Scalar
    returns
        (Scalar { bits: 0x3d75_c28f }),
{
    Scalar { bits: 0x3d75_c28f }
}

/// How far above the ground a tile lies (`0.001`).
#[verifier::allow_in_spec]
pub fn disc_lift() -> Scalar
    returns
        (Scalar { bits: 0x3a83_126f }),
{
    Scalar { bits: 0x3a83_126f }
}

/// `0.5`.
#[verifier::allow_in_spec]
pub fn half_of() -> Scalar
    returns
        (Scalar { bits: 0x3f00_0000 }),
{
    Scalar { bits: 0x3f00_0000 }
}

/// The smallest that a ball is shown (`0.01`).
#[verifier::allow_in_spec]
pub fn least_shown_scale() -> Scalar
    returns
        (Scalar { bits: 0x3c23_d70a }),
{
    Scalar { bits: 0x3c23_d70a }
}

/// Where a client calls up a spike.
#[derive(Clone, Copy, Debug, PartialEq, Eq, Structural)]
pub struct FrostSpireMessage {
    pub origin: Vec3,
    pub normal: Vec3,
    pub captured_charge: Scalar,
}

/// A tile of frost.
#[derive(Clone, Copy, Debug, PartialEq, Eq, Structural)]
pub struct FrozenTile {
    pub entity: Entity,
    pub position: Vec3,
    pub radius: Scalar,
    pub life: FrozenGroundLife,
}

/// How old a tile is, and which ball left it.
#[derive(Clone, Copy, Debug, PartialEq, Eq, Structural)]
pub struct FrozenGroundLife {
    pub age: Scalar,
    pub creator: Option<Entity>,
}

/// A ball of ice.
#[derive(Clone, Copy, Debug, PartialEq, Eq, Structural)]
pub struct GlacierBall {
    pub entity: Entity,
    pub net_id: u64,
    pub glacier: RollingGlacier,
}

/// A spike that stands already.
#[derive(Clone, Copy, Debug, PartialEq, Eq, Structural)]
pub struct StandingSpike {
    pub position: Vec3,
    pub shape: PropShape,
}

pub open spec fn spec_attach_glacier_hitbox(glacier: RollingGlacier) -> Hitbox {
    Hitbox {
        damage: glacier_contact_damage(),
        team: Team::Neutral,
        source: glacier.caster,
        single_hit: false,
    }
}

/// What a ball hurts with: everyone but its caster, and again and again.
#[verifier::when_used_as_spec(spec_attach_glacier_hitbox)]
pub fn attach_glacier_hitbox(glacier: RollingGlacier) -> (r: Hitbox)
    ensures
        r == spec_attach_glacier_hitbox(glacier),
{
    Hitbox {
        damage: glacier_contact_damage(),
        team: Team::Neutral,
        source: glacier.caster,
        single_hit: false,
    }
}

pub open spec fn spec_attach_spike_hitbox(spike: FrostSpike) -> Hitbox {
    Hitbox { damage: spike.damage, team: Team::Players, source: spike.caster, single_hit: false }
}

/// What a spike hurts with: nobody on the players' side.
#[verifier::when_used_as_spec(spec_attach_spike_hitbox)]
pub fn attach_spike_hitbox(spike: FrostSpike) -> (r: Hitbox)
    ensures
        r == spec_attach_spike_hitbox(spike),
{
    Hitbox { damage: spike.damage, team: Team::Players, source: spike.caster, single_hit: false }
}

pub open spec fn spec_grown(size_mult: Scalar, tile_radius: Scalar) -> Scalar {
    let size = size_mult.max(glacier_least_size());
    size_mult.plus(
        tile_radius.times(glacier_growth_factor()).over(size.times(size).times(size)),
    ).min(glacier_max_size_mult())
}

/// The size of a ball that has rolled over a tile: the larger it is, the less it
/// grows.
#[verifier::when_used_as_spec(spec_grown)]
pub fn grown(size_mult: Scalar, tile_radius: Scalar) -> (r: Scalar)
    ensures
        r == spec_grown(size_mult, tile_radius),
{
    let size = size_mult.max(glacier_least_size());
    size_mult.plus(
        tile_radius.times(glacier_growth_factor()).over(size.times(size).times(size)),
    ).min(glacier_max_size_mult())
}

/// A ball that has taken up a tile.
#[derive(Clone, Copy, Debug, PartialEq, Eq, Structural)]
pub struct Growth {
    pub ball: Entity,
    pub tile: Entity,
    pub net_id: u64,
    pub scale: Scalar,
}

/// Where the first ball named `entity` stands; the length, if there is none.
pub open spec fn ball_place(balls: Seq<GlacierBall>, entity: Entity) -> int
    decreases balls.len(),
{
    if balls.len() == 0 || balls[0].entity == entity {
        0
    } else {
        1 + ball_place(balls.skip(1), entity)
    }
}

/// Where the first tile named `entity` stands; the length, if there is none.
pub open spec fn tile_place(tiles: Seq<FrozenTile>, entity: Entity) -> int
    decreases tiles.len(),
{
    if tiles.len() == 0 || tiles[0].entity == entity {
        0
    } else {
        1 + tile_place(tiles.skip(1), entity)
    }
}

fn find_ball(balls: &Vec<GlacierBall>, entity: Entity) -> (r: usize)
    ensures
        r == ball_place(balls@, entity),
        r <= balls@.len(),
        r < balls@.len() ==> balls@[r as int].entity == entity,
{
    let mut i: usize = 0;
    assert(balls@.skip(0) =~= balls@);
    while i < balls.len()
        invariant
            i <= balls.len(),
            ball_place(balls@, entity) == i + ball_place(balls@.skip(i as int), entity),
        decreases balls.len() - i,
    {
        if balls[i].entity == entity {
            return i;
        }
        assert(balls@.skip(i as int).skip(1) =~= balls@.skip(i + 1));
        i += 1;
    }
    i
}

fn find_tile(tiles: &Vec<FrozenTile>, entity: Entity) -> (r: usize)
    ensures
        r == tile_place(tiles@, entity),
        r <= tiles@.len(),
        r < tiles@.len() ==> tiles@[r as int].entity == entity,
{
    let mut i: usize = 0;
    assert(tiles@.skip(0) =~= tiles@);
    while i < tiles.len()
        invariant
            i <= tiles.len(),
            tile_place(tiles@, entity) == i + tile_place(tiles@.skip(i as int), entity),
        decreases tiles.len() - i,
    {
        if tiles[i].entity == entity {
            return i;
        }
        assert(tiles@.skip(i as int).skip(1) =~= tiles@.skip(i + 1));
        i += 1;
    }
    i
}

pub open spec fn spec_takes_up(ball: GlacierBall, tile: FrozenTile) -> bool {
    tile.life.creator != Some(ball.entity) && !ball.glacier.size_mult.ge(glacier_max_size_mult())
}

/// Whether a ball takes up a tile: not its own, and not once it is as large as
/// can be.
#[verifier::when_used_as_spec(spec_takes_up)]
pub fn takes_up(ball: GlacierBall, tile: FrozenTile) -> (r: bool)
    ensures
        r == spec_takes_up(ball, tile),
{
    tile.life.creator != Some(ball.entity) && !ball.glacier.size_mult.ge(glacier_max_size_mult())
}

/// The ball and the tile of two things that touch, by their places.
pub open spec fn ball_on_tile(
    balls: Seq<GlacierBall>,
    tiles: Seq<FrozenTile>,
    first: Entity,
    second: Entity,
) -> Option<(int, int)> {
    if ball_place(balls, first) < balls.len() && tile_place(tiles, second) < tiles.len() {
        Some((ball_place(balls, first), tile_place(tiles, second)))
    } else if tile_place(tiles, first) < tiles.len() && ball_place(balls, second) < balls.len() {
        Some((ball_place(balls, second), tile_place(tiles, first)))
    } else {
        None
    }
}

/// A ball of another size.
pub open spec fn resized(ball: GlacierBall, size_mult: Scalar) -> GlacierBall {
    GlacierBall { glacier: RollingGlacier { size_mult, ..ball.glacier }, ..ball }
}

/// The balls, and what they have taken up, after two things touch.
pub open spec fn roll_over(
    state: (Seq<GlacierBall>, Seq<Growth>),
    tiles: Seq<FrozenTile>,
    first: Entity,
    second: Entity,
) -> (Seq<GlacierBall>, Seq<Growth>) {
    let (balls, growths) = state;
    match ball_on_tile(balls, tiles, first, second) {
        None => state,
        Some((b, t)) => if takes_up(balls[b], tiles[t]) {
            let scale = grown(balls[b].glacier.size_mult, tiles[t].radius);
            (
                balls.update(b, resized(balls[b], scale)),
                growths.push(
                    Growth {
                        ball: balls[b].entity,
                        tile: tiles[t].entity,
                        net_id: balls[b].net_id,
                        scale,
                    },
                ),
            )
        } else {
            state
        },
    }
}

/// The balls, and what they have taken up, after the first `n` collisions.
pub open spec fn rolled_over(
    balls: Seq<GlacierBall>,
    tiles: Seq<FrozenTile>,
    collisions: Seq<(Entity, Entity)>,
    n: int,
) -> (Seq<GlacierBall>, Seq<Growth>)
    decreases n,
{
    if n <= 0 {
        (balls, Seq::empty())
    } else {
        roll_over(
            rolled_over(balls, tiles, collisions, n - 1),
            tiles,
            collisions[n - 1].0,
            collisions[n - 1].1,
        )
    }
}

/// Lets balls that roll over others' frost take it up. The result tells which
/// grew on which tile, and how large they now are.
pub fn grow_glacier_on_foreign_ice(
    collisions: &Vec<(Entity, Entity)>,
    balls: &mut Vec<GlacierBall>,
    tiles: &Vec<FrozenTile>,
) -> (growths: Vec<Growth>)
    ensures
        (final(balls)@, growths@) == rolled_over(
            old(balls)@,
            tiles@,
            collisions@,
            collisions@.len() as int,
        ),
{
    let ghost start = balls@;
    let mut growths: Vec<Growth> = Vec::new();
    let mut i: usize = 0;
    assert(growths@ =~= Seq::<Growth>::empty());
    while i < collisions.len()
        invariant
            i <= collisions.len(),
            (balls@, growths@) == rolled_over(start, tiles@, collisions@, i as int),
        decreases collisions.len() - i,
    {
        let (first, second) = collisions[i];
        let ball_first = find_ball(balls, first);
        let ball_second = find_ball(balls, second);
        let tile_first = find_tile(tiles, first);
        let tile_second = find_tile(tiles, second);
        let b: usize;
        let t: usize;
        if ball_first < balls.len() && tile_second < tiles.len() {
            b = ball_first;
            t = tile_second;
        } else if tile_first < tiles.len() && ball_second < balls.len() {
            b = ball_second;
            t = tile_first;
        } else {
            b = balls.len();
            t = tiles.len();
        }
        if b < balls.len() && t < tiles.len() {
            let mut ball = balls[b];
            let tile = tiles[t];
            if takes_up(ball, tile) {
                let scale = grown(ball.glacier.size_mult, tile.radius);
                growths.push(
                    Growth { ball: ball.entity, tile: tile.entity, net_id: ball.net_id, scale },
                );
                ball.glacier.size_mult = scale;
                balls.set(b, ball);
            }
        }
        i += 1;
    }
    growths
}

pub open spec fn spec_ball_radius(scale: Scalar) -> Scalar {
    glacier_ball_base_radius().times(scale)
}

/// How wide a ball of this size is, from its middle.
#[verifier::when_used_as_spec(spec_ball_radius)]
pub fn ball_radius(scale: Scalar) -> (r: Scalar)
    ensures
        r == spec_ball_radius(scale),
{
    glacier_ball_base_radius().times(scale)
}

pub open spec fn spec_shown_scale(scale: Scalar) -> Scalar {
    scale.max(least_shown_scale())
}

/// How large a ball is shown.
#[verifier::when_used_as_spec(spec_shown_scale)]
pub fn shown_scale(scale: Scalar) -> (r: Scalar)
    ensures
        r == spec_shown_scale(scale),
{
    scale.max(least_shown_scale())
}

/// How large a ball is now, for everyone to see.
#[derive(Clone, Copy, Debug, PartialEq, Eq, Structural)]
pub struct GlacierScaleBroadcast {
    pub net_id: u64,
    pub scale: Scalar,
}

/// A body, and how large it is shown.
#[derive(Clone, Copy, Debug, PartialEq, Eq, Structural)]
pub struct ScaledProp {
    pub net_id: u64,
    pub scale: Scalar,
}

/// Where the first body of this name stands; the length, if there is none.
pub open spec fn scaled_place(props: Seq<ScaledProp>, net_id: u64) -> int
    decreases props.len(),
{
    if props.len() == 0 || props[0].net_id == net_id {
        0
    } else {
        1 + scaled_place(props.skip(1), net_id)
    }
}

/// The bodies after a message.
pub open spec fn scaled_by(props: Seq<ScaledProp>, msg: GlacierScaleBroadcast) -> Seq<ScaledProp> {
    let p = scaled_place(props, msg.net_id);
    if p < props.len() {
        props.update(p, ScaledProp { net_id: msg.net_id, scale: shown_scale(msg.scale) })
    } else {
        props
    }
}

/// The bodies after the first `n` messages.
pub open spec fn scaled_by_all(
    props: Seq<ScaledProp>,
    messages: Seq<GlacierScaleBroadcast>,
    n: int,
) -> Seq<ScaledProp>
    decreases n,
{
    if n <= 0 {
        props
    } else {
        scaled_by(scaled_by_all(props, messages, n - 1), messages[n - 1])
    }
}

fn scale_one(props: &mut Vec<ScaledProp>, msg: GlacierScaleBroadcast)
    ensures
        final(props)@ == scaled_by(old(props)@, msg),
{
    let mut i: usize = 0;
    assert(props@.skip(0) =~= props@);
    while i < props.len()
        invariant
            i <= props.len(),
            props@ == old(props)@,
            scaled_place(props@, msg.net_id) == i + scaled_place(
                props@.skip(i as int),
                msg.net_id,
            ),
        decreases props.len() - i,
    {
        if props[i].net_id == msg.net_id {
            props.set(i, ScaledProp { net_id: msg.net_id, scale: shown_scale(msg.scale) });
            return;
        }
        assert(props@.skip(i as int).skip(1) =~= props@.skip(i + 1));
        i += 1;
    }
}

/// Shows the balls as large as the messages tell.
pub fn apply_glacier_scale_broadcasts(
    messages: &Vec<GlacierScaleBroadcast>,
    props: &mut Vec<ScaledProp>,
)
    ensures
        final(props)@ == scaled_by_all(old(props)@, messages@, messages@.len() as int),
{
    let mut i: usize = 0;
    while i < messages.len()
        invariant
            i <= messages.len(),
            props@ == scaled_by_all(old(props)@, messages@, i as int),
        decreases messages.len() - i,
    {
        scale_one(props, messages[i]);
        i += 1;
    }
}

/// Lets a ball roll on to `pos`. The result tells whether it is time for a tile.
pub fn roll_to(glacier: &mut RollingGlacier, pos: Vec3) -> (r: bool)
    ensures
        ({
            let prev = match old(glacier).last_pos {
                Some(p) => p,
                None => pos,
            };
            let since = old(glacier).since_last_tile.plus(pos.distance(prev));
            &&& *final(glacier) == (RollingGlacier {
                since_last_tile: since,
                last_pos: Some(pos),
                caster: old(glacier).caster,
                size_mult: old(glacier).size_mult,
            })
            &&& r == !since.lt(glacier_trail_step())
        }),
{
    let prev = match glacier.last_pos {
        Some(p) => p,
        None => pos,
    };
    glacier.since_last_tile = glacier.since_last_tile.plus(pos.distance(prev));
    glacier.last_pos = Some(pos);
    !glacier.since_last_tile.lt(glacier_trail_step())
}

pub open spec fn spec_lies_on(point: Vec3, tile: Vec3) -> bool {
    let dx = tile.x.minus(point.x);
    let dz = tile.z.minus(point.z);
    dx.times(dx).plus(dz.times(dz)).lt(
        glacier_tile_dedup_dist().times(glacier_tile_dedup_dist()),
    )
}

/// Whether a tile at `point` would lie on another.
#[verifier::when_used_as_spec(spec_lies_on)]
pub fn lies_on(point: Vec3, tile: Vec3) -> (r: bool)
    ensures
        r == spec_lies_on(point, tile),
{
    let dx = tile.x.minus(point.x);
    let dz = tile.z.minus(point.z);
    dx.times(dx).plus(dz.times(dz)).lt(
        glacier_tile_dedup_dist().times(glacier_tile_dedup_dist()),
    )
}

/// Whether a tile at `point` would lie on one of those that there are.
pub open spec fn stacks(point: Vec3, tiles: Seq<FrozenTile>) -> bool {
    exists|i: int| 0 <= i < tiles.len() && lies_on(point, (#[trigger] tiles[i]).position)
}

fn find_stack(point: Vec3, tiles: &Vec<FrozenTile>) -> (r: bool)
    ensures
        r == stacks(point, tiles@),
{
    let mut i: usize = 0;
    while i < tiles.len()
        invariant
            i <= tiles.len(),
            forall|j: int| 0 <= j < i ==> !lies_on(point, (#[trigger] tiles@[j]).position),
        decreases tiles.len() - i,
    {
        if lies_on(point, tiles[i].position) {
            assert(lies_on(point, tiles@[i as int].position));
            return true;
        }
        i += 1;
    }
    false
}

/// A new tile: where on the ground it is, and how wide, from its middle.
#[derive(Clone, Copy, Debug, PartialEq, Eq, Structural)]
pub struct TileDrop {
    pub ground: Vec3,
    pub radius: Scalar,
}

pub open spec fn spec_ground_below(pos: Vec3, distance: Scalar) -> Vec3 {
    pos.plus(Vec3 { x: zero(), y: one().neg(), z: zero() }.scale(distance))
}

/// The ground below a ball.
#[verifier::when_used_as_spec(spec_ground_below)]
pub fn ground_below(pos: Vec3, distance: Scalar) -> (r: Vec3)
    ensures
        r == spec_ground_below(pos, distance),
{
    pos.plus(Vec3 { x: zero(), y: one().neg(), z: zero() }.scale(distance))
}

/// The tiles by their names.
pub open spec fn tile_names(tiles: Seq<FrozenTile>) -> Seq<Entity> {
    tiles.map_values(|t: FrozenTile| t.entity)
}

/// The ray that looks for the ground below a ball at `pos`. It goes through the
/// ball, and through tiles: a tile does not lie on another.
pub fn trail_ray(pos: Vec3, ball: Entity, tiles: &Vec<FrozenTile>) -> (r: Ray)
    ensures
        r.goes(
            pos,
            Vec3 { x: zero(), y: one().neg(), z: zero() },
            trail_ray_length(),
            seq![ball] + tile_names(tiles@),
        ),
{
    let mut ignored: Vec<Entity> = Vec::new();
    ignored.push(ball);
    let mut i: usize = 0;
    while i < tiles.len()
        invariant
            i <= tiles.len(),
            ignored@ =~= seq![ball] + tile_names(tiles@.take(i as int)),
        decreases tiles.len() - i,
    {
        ignored.push(tiles[i].entity);
        i += 1;
    }
    assert(tiles@.take(i as int) =~= tiles@);
    Ray {
        origin: pos,
        direction: Vec3 { x: zero(), y: one().neg(), z: zero() },
        range: trail_ray_length(),
        ignored,
    }
}

/// The tile that a ball at `pos` leaves, given how far below it the ground is:
/// none over a void, and none on top of another tile.
pub fn drop_glacier_trail(
    glacier: &mut RollingGlacier,
    pos: Vec3,
    ground: Option<Scalar>,
    tiles: &Vec<FrozenTile>,
) -> (r: Option<TileDrop>)
    ensures
        *final(glacier) == (RollingGlacier { since_last_tile: zero(), ..*old(glacier) }),
        r == match ground {
            None => None,
            Some(distance) => if stacks(ground_below(pos, distance), tiles@) {
                None
            } else {
                Some(
                    TileDrop {
                        ground: ground_below(pos, distance),
                        radius: glacier_trail_radius().times(old(glacier).size_mult),
                    },
                )
            },
        },
{
    glacier.since_last_tile = zero();
    match ground {
        None => None,
        Some(distance) => {
            let point = ground_below(pos, distance);
            if find_stack(point, tiles) {
                None
            } else {
                Some(
                    TileDrop {
                        ground: point,
                        radius: glacier_trail_radius().times(glacier.size_mult),
                    },
                )
            }
        },
    }
}

pub open spec fn spec_spawn_frozen_ground(pos: Vec3) -> Vec3 {
    Vec3 {
        x: pos.x,
        y: pos.y.plus(disc_thickness().times(half_of())).plus(disc_lift()),
        z: pos.z,
    }
}

/// Where a tile lies that is put on the ground at `pos`.
#[verifier::when_used_as_spec(spec_spawn_frozen_ground)]
pub fn spawn_frozen_ground(pos: Vec3) -> (r: Vec3)
    ensures
        r == spec_spawn_frozen_ground(pos),
{
    Vec3 {
        x: pos.x,
        y: pos.y.plus(disc_thickness().times(half_of())).plus(disc_lift()),
        z: pos.z,
    }
}

/// Lets a tile grow older. The result tells whether it melts.
pub fn tick_frozen_ground_lifetime(life: &mut FrozenGroundLife, dt: Scalar) -> (r: bool)
    ensures
        final(life).age == old(life).age.plus(dt),
        final(life).creator == old(life).creator,
        r == old(life).age.plus(dt).ge(frozen_ground_lifetime()),
{
    life.age = life.age.plus(dt);
    life.age.ge(frozen_ground_lifetime())
}

/// Lets a spike grow older. The result tells whether it melts.
pub fn tick_frost_spike_lifetime(spike: &mut FrostSpike, dt: Scalar) -> (r: bool)
    ensures
        *final(spike) == (FrostSpike { lifetime: old(spike).lifetime.minus(dt), ..*old(spike) }),
        r == old(spike).lifetime.minus(dt).le(zero()),
{
    spike.lifetime = spike.lifetime.minus(dt);
    spike.lifetime.le(zero())
}

/// Lets a spike rise. The result tells whether it has just come to rest: from
/// then on it stands still and hurts no longer.
pub fn settle_frost_spike(spike: &mut FrostSpike, hitbox: &mut Hitbox, dt: Scalar) -> (r: bool)
    ensures
        ({
            let rising = !old(spike).rise_remaining.le(zero());
            let left = old(spike).rise_remaining.minus(dt);
            &&& r == (rising && !left.gt(zero()))
            &&& *final(spike) == (FrostSpike {
                rise_remaining: if rising {
                    left
                } else {
                    old(spike).rise_remaining
                },
                ..*old(spike)
            })
            &&& *final(hitbox) == (Hitbox {
                damage: if r {
                    zero()
                } else {
                    old(hitbox).damage
                },
                ..*old(hitbox)
            })
        }),
{
    if spike.rise_remaining.le(zero()) {
        return false;
    }
    spike.rise_remaining = spike.rise_remaining.minus(dt);
    if spike.rise_remaining.gt(zero()) {
        return false;
    }
    hitbox.damage = zero();
    true
}

/// The ray that looks for ice to call a spike up from, if the player looks
/// anywhere. It goes through the player.
pub fn spire_ray(eye: Vec3, forward: Vec3, player: Entity) -> (r: Option<Ray>)
    ensures
        match (forward.direction(), r) {
            (Some(direction), Some(ray)) => ray.goes(
                eye,
                direction,
                frost_spire_range(),
                seq![player],
            ),
            (None, None) => true,
            _ => false,
        },
{
    match forward.direction() {
        Some(direction) => {
            let mut ignored: Vec<Entity> = Vec::new();
            ignored.push(player);
            assert(ignored@ =~= seq![player]);
            Some(Ray { origin: eye, direction, range: frost_spire_range(), ignored })
        },
        None => None,
    }
}

pub open spec fn spec_frost_spire_handler(
    eye: Vec3,
    forward: Vec3,
    hit: Option<SurfaceHit>,
    on_ice: bool,
    captured_charge: Option<Scalar>,
) -> Option<FrostSpireMessage> {
    match (forward.direction(), hit) {
        (Some(_), Some(hit)) => if on_ice {
            Some(
                FrostSpireMessage {
                    origin: eye.plus(forward.scale(hit.distance)),
                    normal: hit.normal.normalize_or_zero(),
                    captured_charge: match captured_charge {
                        Some(charge) => charge,
                        None => zero(),
                    },
                },
            )
        } else {
            None
        },
        _ => None,
    }
}

/// The call for a spike of a player whose eyes are at `eye` and look `forward`:
/// only onto ice.
#[verifier::when_used_as_spec(spec_frost_spire_handler)]
pub fn frost_spire_handler(
    eye: Vec3,
    forward: Vec3,
    hit: Option<SurfaceHit>,
    on_ice: bool,
    captured_charge: Option<Scalar>,
) -> (r: Option<FrostSpireMessage>)
    ensures
        r == spec_frost_spire_handler(eye, forward, hit, on_ice, captured_charge),
{
    match (forward.direction(), hit) {
        (Some(_), Some(hit)) => if on_ice {
            Some(
                FrostSpireMessage {
                    origin: eye.plus(forward.scale(hit.distance)),
                    normal: hit.normal.normalize_or_zero(),
                    captured_charge: match captured_charge {
                        Some(charge) => charge,
                        None => zero(),
                    },
                },
            )
        } else {
            None
        },
        _ => None,
    }
}

/// How far below the middle the mark for calls is (`30.0`).
#[verifier::allow_in_spec]
pub fn indicator_offset() -> Scalar
    returns
        (Scalar { bits: 0x41f0_0000 }),
{
    Scalar { bits: 0x41f0_0000 }
}

/// The size of the mark for calls (`10.0`).
#[verifier::allow_in_spec]
pub fn indicator_size() -> Scalar
    returns
        (Scalar { bits: 0x4120_0000 }),
{
    Scalar { bits: 0x4120_0000 }
}

/// The color of the mark before it shows (`0.4`, `0.1`, `0.15`, `0.85`).
#[verifier::allow_in_spec]
pub fn new_indicator_color() -> ColorDef
    returns
        (ColorDef {
            r: Scalar { bits: 0x3ecc_cccd },
            g: Scalar { bits: 0x3dcc_cccd },
            b: Scalar { bits: 0x3e19_999a },
            a: Scalar { bits: 0x3f59_999a },
        }),
{
    ColorDef {
        r: Scalar { bits: 0x3ecc_cccd },
        g: Scalar { bits: 0x3dcc_cccd },
        b: Scalar { bits: 0x3e19_999a },
        a: Scalar { bits: 0x3f59_999a },
    }
}

/// The color of the mark where a call would do (`0.45`, `0.85`, `1.0`, `0.95`).
#[verifier::allow_in_spec]
pub fn ready_color() -> ColorDef
    returns
        (ColorDef {
            r: Scalar { bits: 0x3ee6_6666 },
            g: Scalar { bits: 0x3f59_999a },
            b: Scalar { bits: 0x3f80_0000 },
            a: Scalar { bits: 0x3f73_3333 },
        }),
{
    ColorDef {
        r: Scalar { bits: 0x3ee6_6666 },
        g: Scalar { bits: 0x3f59_999a },
        b: Scalar { bits: 0x3f80_0000 },
        a: Scalar { bits: 0x3f73_3333 },
    }
}

/// The color of the mark where a call would do nothing (`0.35`, `0.1`, `0.15`, `0.7`).
#[verifier::allow_in_spec]
pub fn unready_color() -> ColorDef
    returns
        (ColorDef {
            r: Scalar { bits: 0x3eb3_3333 },
            g: Scalar { bits: 0x3dcc_cccd },
            b: Scalar { bits: 0x3e19_999a },
            a: Scalar { bits: 0x3f33_3333 },
        }),
{
    ColorDef {
        r: Scalar { bits: 0x3eb3_3333 },
        g: Scalar { bits: 0x3dcc_cccd },
        b: Scalar { bits: 0x3e19_999a },
        a: Scalar { bits: 0x3f33_3333 },
    }
}

pub open spec fn spec_spawn_frost_spire_indicator() -> HudBox {
    HudBox {
        left: indicator_size().neg().times(a_half()),
        top: indicator_offset(),
        width: indicator_size(),
        height: Some(indicator_size()),
        color: Some(new_indicator_color()),
        shown: false,
    }
}

/// The mark for calls on the screen. It does not show at first.
#[verifier::when_used_as_spec(spec_spawn_frost_spire_indicator)]
pub fn spawn_frost_spire_indicator() -> (r: HudBox)
    ensures
        r == spec_spawn_frost_spire_indicator(),
{
    HudBox {
        left: indicator_size().neg().times(a_half()),
        top: indicator_offset(),
        width: indicator_size(),
        height: Some(indicator_size()),
        color: Some(new_indicator_color()),
        shown: false,
    }
}

pub open spec fn spec_show_indicator(mark: HudBox, ready: Option<bool>) -> HudBox {
    match ready {
        None => HudBox { shown: false, ..mark },
        Some(true) => HudBox { shown: true, color: Some(ready_color()), ..mark },
        Some(false) => HudBox { shown: true, color: Some(unready_color()), ..mark },
    }
}

/// The mark for calls on the screen, if it shows whether a call would do.
#[verifier::when_used_as_spec(spec_show_indicator)]
pub fn show_indicator(mark: HudBox, ready: Option<bool>) -> (r: HudBox)
    ensures
        r == spec_show_indicator(mark, ready),
{
    match ready {
        None => HudBox { shown: false, ..mark },
        Some(true) => HudBox { shown: true, color: Some(ready_color()), ..mark },
        Some(false) => HudBox { shown: true, color: Some(unready_color()), ..mark },
    }
}

/// Whether the mark for calls shows, and whether it says that a call would do.
pub fn update_frost_spire_indicator(
    active: &SpellId,
    forward: Vec3,
    on_ice: bool,
) -> (r: Option<bool>)
    ensures
        r == (if active.0@ == "frost_spire"@ && forward.direction() is Some {
            Some(on_ice)
        } else {
            None
        }),
{
    if active.is("frost_spire") && forward.direction().is_some() {
        Some(on_ice)
    } else {
        None
    }
}

pub open spec fn spec_within_tolerance(distance_squared: Scalar, tolerance: Scalar) -> bool {
    !distance_squared.gt(tolerance.times(tolerance))
}

/// Whether what is `distance_squared` away is within `tolerance`.
#[verifier::when_used_as_spec(spec_within_tolerance)]
pub fn within_tolerance(distance_squared: Scalar, tolerance: Scalar) -> (r: bool)
    ensures
        r == spec_within_tolerance(distance_squared, tolerance),
{
    !distance_squared.gt(tolerance.times(tolerance))
}

/// Where the tile lies that a call is about: the nearest of those that it is close
/// enough to, the first of two that are equally near.
pub open spec fn called_place(tiles: Seq<FrozenTile>, origin: Vec3) -> Option<int>
    decreases tiles.len(),
{
    if tiles.len() == 0 {
        None
    } else {
        let before = called_place(tiles.drop_last(), origin);
        let tile = tiles.last();
        let d2 = tile.position.minus(origin).length_squared();
        if !within_tolerance(d2, tile.radius.plus(frost_spire_match_slack())) {
            before
        } else {
            match before {
                None => Some(tiles.len() - 1),
                Some(b) => if d2.lt(tiles[b].position.minus(origin).length_squared()) {
                    Some(tiles.len() - 1)
                } else {
                    before
                },
            }
        }
    }
}

/// The tile that a call is about.
pub open spec fn called_tile(tiles: Seq<FrozenTile>, origin: Vec3) -> Option<FrozenTile> {
    match called_place(tiles, origin) {
        Some(place) => Some(tiles[place]),
        None => None,
    }
}

/// The tiles that a call leaves: all but the one that it is about.
pub open spec fn tiles_left(tiles: Seq<FrozenTile>, origin: Vec3) -> Seq<FrozenTile> {
    match called_place(tiles, origin) {
        Some(place) => tiles.remove(place),
        None => tiles,
    }
}

fn find_called_tile(tiles: &Vec<FrozenTile>, origin: Vec3) -> (r: Option<usize>)
    ensures
        r is Some <==> called_place(tiles@, origin) is Some,
        r is Some ==> r->Some_0 == called_place(tiles@, origin)->Some_0 && r->Some_0 < tiles.len(),
{
    let mut best: Option<usize> = None;
    let mut i: usize = 0;
    while i < tiles.len()
        invariant
            i <= tiles.len(),
            best is Some <==> called_place(tiles@.take(i as int), origin) is Some,
            best is Some ==> best->Some_0 == called_place(tiles@.take(i as int), origin)->Some_0
                && best->Some_0 < i,
        decreases tiles.len() - i,
    {
        assert(tiles@.take(i + 1).drop_last() =~= tiles@.take(i as int));
        let tile = tiles[i];
        let d2 = tile.position.minus(origin).length_squared();
        if within_tolerance(d2, tile.radius.plus(frost_spire_match_slack())) {
            let nearer = match best {
                None => true,
                Some(b) => d2.lt(tiles[b].position.minus(origin).length_squared()),
            };
            if nearer {
                best = Some(i);
            }
        }
        i += 1;
    }
    assert(tiles@.take(tiles.len() as int) =~= tiles@);
    best
}

pub open spec fn spec_spike_width(shape: PropShape) -> Scalar {
    match shape {
        PropShape::Cuboid { x, y: _, z: _ } => x,
        _ => frost_spike_base_width(),
    }
}

/// How wide a spike is.
#[verifier::when_used_as_spec(spec_spike_width)]
pub fn spike_width(shape: PropShape) -> (r: Scalar)
    ensures
        r == spec_spike_width(shape),
{
    match shape {
        PropShape::Cuboid { x, y: _, z: _ } => x,
        _ => frost_spike_base_width(),
    }
}

pub open spec fn spec_spike_height(shape: PropShape) -> Scalar {
    match shape {
        PropShape::Cuboid { x: _, y, z: _ } => y,
        _ => frost_spike_base_height(),
    }
}

/// How high a spike is.
#[verifier::when_used_as_spec(spec_spike_height)]
pub fn spike_height(shape: PropShape) -> (r: Scalar)
    ensures
        r == spec_spike_height(shape),
{
    match shape {
        PropShape::Cuboid { x: _, y, z: _ } => y,
        _ => frost_spike_base_height(),
    }
}

pub open spec fn spec_spike_tolerance(shape: PropShape) -> Scalar {
    spike_width(shape).max(spike_height(shape)).times(half_of()).plus(frost_spire_match_slack())
}

/// How close to the middle of a spike a call about it is.
#[verifier::when_used_as_spec(spec_spike_tolerance)]
pub fn spike_tolerance(shape: PropShape) -> (r: Scalar)
    ensures
        r == spec_spike_tolerance(shape),
{
    spike_width(shape).max(spike_height(shape)).times(half_of()).plus(frost_spire_match_slack())
}

/// The spike that a call is about: the nearest of those that it is close enough
/// to, the first of two that are equally near.
pub open spec fn called_spike(spikes: Seq<StandingSpike>, origin: Vec3) -> Option<StandingSpike>
    decreases spikes.len(),
{
    if spikes.len() == 0 {
        None
    } else {
        let before = called_spike(spikes.drop_last(), origin);
        let spike = spikes.last();
        let d2 = spike.position.minus(origin).length_squared();
        if !within_tolerance(d2, spike_tolerance(spike.shape)) {
            before
        } else {
            match before {
                None => Some(spike),
                Some(b) => if d2.lt(b.position.minus(origin).length_squared()) {
                    Some(spike)
                } else {
                    before
                },
            }
        }
    }
}

fn find_called_spike(spikes: &Vec<StandingSpike>, origin: Vec3) -> (r: Option<StandingSpike>)
    ensures
        r == called_spike(spikes@, origin),
{
    let mut best: Option<StandingSpike> = None;
    let mut i: usize = 0;
    while i < spikes.len()
        invariant
            i <= spikes.len(),
            best == called_spike(spikes@.take(i as int), origin),
        decreases spikes.len() - i,
    {
        assert(spikes@.take(i + 1).drop_last() =~= spikes@.take(i as int));
        let spike = spikes[i];
        let d2 = spike.position.minus(origin).length_squared();
        if within_tolerance(d2, spike_tolerance(spike.shape)) {
            let nearer = match best {
                None => true,
                Some(b) => d2.lt(b.position.minus(origin).length_squared()),
            };
            if nearer {
                best = Some(spike);
            }
        }
        i += 1;
    }
    assert(spikes@.take(spikes.len() as int) =~= spikes@);
    best
}

pub open spec fn spec_emergence_axis(normal: Vec3) -> Vec3 {
    if one().over(normal.length()).is_finite() && one().over(normal.length()).gt(zero()) {
        normal.scale(one().over(normal.length()))
    } else {
        up()
    }
}

/// Which way a spike comes out of a surface that faces along `normal`: up, if
/// that is no direction.
#[verifier::when_used_as_spec(spec_emergence_axis)]
pub fn emergence_axis(normal: Vec3) -> (r: Vec3)
    ensures
        r == spec_emergence_axis(normal),
{
    if one().over(normal.length()).is_finite() && one().over(normal.length()).gt(zero()) {
        normal.scale(one().over(normal.length()))
    } else {
        up()
    }
}

/// How many times its first size a spike has that is called up: by the tile that
/// it takes up, or smaller than the spike that it comes out of.
pub open spec fn spire_scale(tile: Option<FrozenTile>, spike: Option<StandingSpike>) -> Option<
    Scalar,
> {
    match (tile, spike) {
        (Some(tile), _) => Some(tile.radius.over(glacier_trail_radius()).max(one())),
        (None, Some(spike)) => Some(
            spike_width(spike.shape).over(frost_spike_base_width()).times(spike_chain_scale()),
        ),
        (None, None) => None,
    }
}

/// A spike that rises.
#[derive(Clone, Copy, Debug, PartialEq, Eq, Structural)]
pub struct NewSpike {
    /// What everyone sees of it.
    pub prop: NetworkedProp,
    pub start: Vec3,
    /// How it is turned: its top along `normal`.
    pub rotation: Quat,
    pub velocity: Vec3,
    pub normal: Vec3,
    pub friction: Scalar,
    pub restitution: Scalar,
    pub spike: FrostSpike,
}

pub open spec fn spec_risen(
    msg: FrostSpireMessage,
    scale: Scalar,
    caster: Option<Entity>,
) -> NewSpike {
    let normal = emergence_axis(msg.normal);
    let width = frost_spike_base_width().times(scale);
    let height = frost_spike_base_height().times(scale);
    let rest = msg.origin.plus(
        normal.scale(height.times(half_of()).minus(frost_spike_ground_inset())),
    );
    NewSpike {
        prop: NetworkedProp {
            shape: PropShape::Cuboid { x: width, y: height, z: width },
            tint_seed: frost_spike_tint_seed(),
            mass: frost_spike_base_mass().times(scale).times(scale).times(scale),
            tint: frost_spike_tint(),
        },
        start: rest.minus(normal.scale(height)),
        rotation: disc_rotation(normal),
        velocity: normal.scale(height.over(frost_spike_rise_duration())),
        normal,
        friction: frost_spike_friction(),
        restitution: frost_spike_restitution(),
        spike: FrostSpike {
            lifetime: frost_spike_lifetime(),
            rise_remaining: frost_spike_rise_duration(),
            damage: frost_spike_base_damage().times(scale).plus(
                frost_spike_damage_per_charge().times(msg.captured_charge),
            ),
            caster,
        },
    }
}

/// A spike of this size that rises out of a surface at `msg.origin`. It starts a
/// whole height below where it comes to rest.
#[verifier::when_used_as_spec(spec_risen)]
pub fn risen(msg: FrostSpireMessage, scale: Scalar, caster: Option<Entity>) -> (r: NewSpike)
    ensures
        r == spec_risen(msg, scale, caster),
{
    let normal = emergence_axis(msg.normal);
    let width = frost_spike_base_width().times(scale);
    let height = frost_spike_base_height().times(scale);
    let rest = msg.origin.plus(
        normal.scale(height.times(half_of()).minus(frost_spike_ground_inset())),
    );
    NewSpike {
        prop: NetworkedProp {
            shape: PropShape::Cuboid { x: width, y: height, z: width },
            tint_seed: frost_spike_tint_seed(),
            mass: frost_spike_base_mass().times(scale).times(scale).times(scale),
            tint: frost_spike_tint(),
        },
        start: rest.minus(normal.scale(height)),
        rotation: disc_rotation(normal),
        velocity: normal.scale(height.over(frost_spike_rise_duration())),
        normal,
        friction: frost_spike_friction(),
        restitution: frost_spike_restitution(),
        spike: FrostSpike {
            lifetime: frost_spike_lifetime(),
            rise_remaining: frost_spike_rise_duration(),
            damage: frost_spike_base_damage().times(scale).plus(
                frost_spike_damage_per_charge().times(msg.captured_charge),
            ),
            caster,
        },
    }
}

/// The spike that a call brings up, and the tile that it takes up for that, which is
/// then gone from `tiles`. A call away from all ice, or from nowhere, brings up nothing.
pub fn handle_frost_spire(
    msg: FrostSpireMessage,
    tiles: &mut Vec<FrozenTile>,
    spikes: &Vec<StandingSpike>,
    caster: Option<Entity>,
) -> (r: Option<(NewSpike, Option<Entity>)>)
    ensures
        ({
            let tile = called_tile(old(tiles)@, msg.origin);
            let scale = spire_scale(tile, called_spike(spikes@, msg.origin));
            r == (if msg.origin.is_finite() && scale is Some {
                Some(
                    (
                        risen(msg, scale->Some_0, caster),
                        match tile {
                            Some(tile) => Some(tile.entity),
                            None => None,
                        },
                    ),
                )
            } else {
                None
            })
        }),
        final(tiles)@ == (if msg.origin.is_finite() {
            tiles_left(old(tiles)@, msg.origin)
        } else {
            old(tiles)@
        }),
{
    if !msg.origin.is_finite() {
        return None;
    }
    match find_called_tile(tiles, msg.origin) {
        Some(place) => {
            let tile = tiles.remove(place);
            let scale = tile.radius.over(glacier_trail_radius()).max(one());
            Some((risen(msg, scale, caster), Some(tile.entity)))
        },
        None => match find_called_spike(spikes, msg.origin) {
            Some(spike) => {
                let scale = spike_width(spike.shape).over(frost_spike_base_width()).times(
                    spike_chain_scale(),
                );
                Some((risen(msg, scale, caster), None))
            },
            None => None,
        },
    }
}

/// A call about a tile leaves one tile fewer, and none that is the one it took up: each
/// tile makes one spike.
pub proof fn law_one_tile_one_spike(tiles: Seq<FrozenTile>, origin: Vec3)
    requires
        forall|i: int, j: int|
            0 <= i < j < tiles.len() ==> #[trigger] tiles[i].entity != #[trigger] tiles[j].entity,
        called_tile(tiles, origin) is Some,
    ensures
        tiles.contains(called_tile(tiles, origin)->Some_0),
        tiles_left(tiles, origin).len() == tiles.len() - 1,
        forall|i: int|
            0 <= i < tiles_left(tiles, origin).len() ==> tiles.contains(
                #[trigger] tiles_left(tiles, origin)[i],
            ) && tiles_left(tiles, origin)[i].entity != called_tile(tiles, origin)->Some_0.entity,
{
    lemma_called_place(tiles, origin);
    let place = called_place(tiles, origin)->Some_0;
    let left = tiles_left(tiles, origin);
    assert forall|i: int| 0 <= i < left.len() implies tiles.contains(#[trigger] left[i])
        && left[i].entity != tiles[place].entity by {
        if i < place {
            assert(left[i] == tiles[i]);
        } else {
            assert(left[i] == tiles[i + 1]);
        }
    }
}

/// A called tile lies among the tiles.
proof fn lemma_called_place(tiles: Seq<FrozenTile>, origin: Vec3)
    ensures
        called_place(tiles, origin) is Some ==> 0 <= called_place(tiles, origin)->Some_0
            < tiles.len(),
    decreases tiles.len(),
{
    if tiles.len() > 0 {
        lemma_called_place(tiles.drop_last(), origin);
    }
}

/// A ball never grows beyond its limit.
pub proof fn law_glacier_is_capped(size_mult: Scalar, tile_radius: Scalar)
    ensures
        grown(size_mult, tile_radius).le(glacier_max_size_mult()),
{
}

/// The cube of a ball's size is neither nothing nor beyond measure.
proof fn lemma_size_cubed(size: Scalar)
    requires
        size.ge(glacier_least_size()),
        size.le(glacier_max_size_mult()),
    ensures
        size.times(size).times(size).gt(zero()),
        size.times(size).times(size).is_finite(),
{
    // Between a sixteenth and sixteen; the square and the cube accordingly.
    let m = size.magnitude();
    lemma_units_of_power(123);
    lemma_units_of_power(131);
    lemma_units_increase(123int * 0x80_0000, m);
    lemma_units_increase(m, 131int * 0x80_0000);
    lemma_pow2_adds(145, 145);
    lemma_pow2_adds(141, 149);
    lemma_pow2_adds(153, 153);
    lemma_pow2_adds(157, 149);
    let u = units(m);
    let (low, high) = (pow2(145) as int, pow2(153) as int);
    lemma_pow2_pos(145);
    assert(low * low <= u * u <= high * high) by (nonlinear_arith)
        requires
            0 < low <= u <= high,
    ;
    lemma_units_of_power(119);
    lemma_units_of_power(135);
    let square = size.times(size);
    let (square_low, square_high) = (
        Scalar { bits: 0x3b80_0000 },
        Scalar { bits: 0x4380_0000 },
    );
    lemma_times_at_least(size, size, square_low);
    lemma_times_at_most(size, size, square_high);
    let v = units(square.magnitude());
    lemma_units_increase(119int * 0x80_0000, square.magnitude());
    lemma_units_increase(square.magnitude(), 135int * 0x80_0000);
    lemma_pow2_adds(141, 145);
    lemma_pow2_adds(137, 149);
    lemma_pow2_adds(157, 153);
    lemma_pow2_adds(161, 149);
    let (a, b) = (pow2(141) as int, pow2(157) as int);
    lemma_pow2_pos(141);
    assert(a * low <= v * u <= b * high) by (nonlinear_arith)
        requires
            0 < a <= v <= b,
            0 < low <= u <= high,
    ;
    lemma_units_of_power(115);
    lemma_units_of_power(139);
    lemma_times_at_least(square, size, Scalar { bits: 0x3980_0000 });
    lemma_times_at_most(square, size, Scalar { bits: 0x4580_0000 });
}

/// A ball that takes up a tile does not shrink.
pub proof fn law_glacier_does_not_shrink(ball: GlacierBall, tile: FrozenTile)
    requires
        takes_up(ball, tile),
        ball.glacier.size_mult.is_finite(),
        tile.radius.ge(zero()),
    ensures
        grown(ball.glacier.size_mult, tile.radius).ge(ball.glacier.size_mult),
{
    let size = ball.glacier.size_mult.max(glacier_least_size());
    let cube = size.times(size).times(size);
    lemma_size_cubed(size);
    let gain = tile.radius.times(glacier_growth_factor());
    lemma_times_not_negative(tile.radius, glacier_growth_factor());
    assert(!gain.is_nan()) by {
        reveal(Scalar::spec_times);
        if tile.radius.is_finite() {
            lemma_product(tile.radius.magnitude(), glacier_growth_factor().magnitude());
        }
    }
    lemma_over_not_negative(gain, cube);
    lemma_plus_no_less(ball.glacier.size_mult, gain.over(cube));
}

/// A ball does not grow on its own trail.
pub proof fn law_no_growth_on_own_trail(ball: GlacierBall, tile: FrozenTile)
    requires
        tile.life.creator == Some(ball.entity),
    ensures
        !takes_up(ball, tile),
{
}

/// A spike that has come to rest hurts nobody.
pub proof fn law_settled_spike_is_harmless(hurtbox: Hurtbox)
    ensures
        !takes(hurtbox, zero()),
{
}

} // verus!

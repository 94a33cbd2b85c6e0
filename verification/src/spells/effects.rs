//! What a cast does to what its payload met.

use crate::entity::{placeholder, Entity};
use crate::scalar::{one, Scalar};
use crate::spells::damage::{Blast, FalloffKind, Team};
use crate::spells::data::TargetDef;
use crate::spells::deliveries::{area_radius, Aim};
use crate::spells::engine::DeliveryTarget;
use crate::vector::Vec3;
use vstd::prelude::*;

verus! {

/// A push that something gets.
#[derive(Clone, Copy, Debug, PartialEq, Eq, Structural)]
pub struct Push {
    pub entity: Entity,
    pub impulse: Vec3,
}

pub open spec fn spec_charge_scale(captured_charge: Option<Scalar>) -> Scalar {
    match captured_charge {
        Some(charge) => charge,
        None => one(),
    }
}

/// A charge as a factor: one, where there is none.
#[verifier::when_used_as_spec(spec_charge_scale)]
pub fn charge_scale(captured_charge: Option<Scalar>) -> (r: Scalar)
    ensures
        r == spec_charge_scale(captured_charge),
{
    match captured_charge {
        Some(charge) => charge,
        None => one(),
    }
}

pub open spec fn spec_impulse(
    target: DeliveryTarget,
    magnitude: Scalar,
    captured_charge: Option<Scalar>,
) -> Option<Push> {
    match (target.entity, target.direction) {
        (Some(entity), Some(direction)) => Some(
            Push {
                entity,
                impulse: direction.scale(magnitude).scale(charge_scale(captured_charge)),
            },
        ),
        _ => None,
    }
}

/// The one push that what the payload met gets, scaled by the charge.
#[verifier::when_used_as_spec(spec_impulse)]
pub fn impulse(
    target: DeliveryTarget,
    magnitude: Scalar,
    captured_charge: Option<Scalar>,
) -> (r: Option<Push>)
    ensures
        r == spec_impulse(target, magnitude, captured_charge),
{
    match (target.entity, target.direction) {
        (Some(entity), Some(direction)) => Some(
            Push {
                entity,
                impulse: direction.scale(magnitude).scale(charge_scale(captured_charge)),
            },
        ),
        _ => None,
    }
}

pub open spec fn spec_impulse_tick(
    target: DeliveryTarget,
    magnitude_per_sec: Scalar,
    dt: Scalar,
) -> Option<Push> {
    match (target.entity, target.direction) {
        (Some(entity), Some(direction)) => Some(
            Push { entity, impulse: direction.scale(magnitude_per_sec).scale(dt) },
        ),
        _ => None,
    }
}

/// The push that what the payload meets gets in `dt` seconds.
#[verifier::when_used_as_spec(spec_impulse_tick)]
pub fn impulse_tick(
    target: DeliveryTarget,
    magnitude_per_sec: Scalar,
    dt: Scalar,
) -> (r: Option<Push>)
    ensures
        r == spec_impulse_tick(target, magnitude_per_sec, dt),
{
    match (target.entity, target.direction) {
        (Some(entity), Some(direction)) => Some(
            Push { entity, impulse: direction.scale(magnitude_per_sec).scale(dt) },
        ),
        _ => None,
    }
}

pub open spec fn spec_despawn(target: DeliveryTarget) -> Option<Entity> {
    target.entity
}

/// What vanishes: what the payload met.
#[verifier::when_used_as_spec(spec_despawn)]
pub fn despawn(target: DeliveryTarget) -> (r: Option<Entity>)
    ensures
        r == spec_despawn(target),
{
    target.entity
}

/// Something, and where it is.
#[derive(Clone, Copy, Debug, PartialEq, Eq, Structural)]
pub struct Located {
    pub entity: Entity,
    pub position: Vec3,
}

/// The things within reach of a point, in their order.
pub open spec fn within(things: Seq<Located>, point: Vec3, radius: Scalar) -> Seq<Entity>
    decreases things.len(),
{
    if things.len() == 0 {
        Seq::empty()
    } else if point.distance(things.last().position).le(radius) {
        within(things.drop_last(), point, radius).push(things.last().entity)
    } else {
        within(things.drop_last(), point, radius)
    }
}

/// The things within `radius` of `point`, of those that carry the marker.
pub fn despawn_nearby_matching(
    things: &Vec<Located>,
    point: Vec3,
    radius: Scalar,
) -> (r: Vec<Entity>)
    ensures
        r@ == within(things@, point, radius),
{
    let mut near: Vec<Entity> = Vec::new();
    let mut i: usize = 0;
    while i < things.len()
        invariant
            i <= things.len(),
            near@ == within(things@.take(i as int), point, radius),
        decreases things.len() - i,
    {
        assert(things@.take(i + 1).drop_last() =~= things@.take(i as int));
        if point.distance(things[i].position).le(radius) {
            near.push(things[i].entity);
        }
        i += 1;
    }
    assert(things@.take(things.len() as int) =~= things@);
    near
}

pub open spec fn spec_area_damage(
    target: TargetDef,
    aim: Option<Aim>,
    base_damage: Scalar,
    falloff: FalloffKind,
    captured_charge: Option<Scalar>,
    caster: Entity,
) -> Option<Blast> {
    match (area_radius(target), aim) {
        (Some(radius), Some(aim)) => Some(
            Blast {
                origin: aim.position,
                radius,
                base_damage: base_damage.times(charge_scale(captured_charge)),
                falloff,
                source: if caster == placeholder() {
                    None
                } else {
                    Some(caster)
                },
                source_team: Team::Neutral,
            },
        ),
        _ => None,
    }
}

/// The blast of a cast that hurts an area, scaled by the charge; none unless it
/// aims at an area and has an origin. It is on no side, so that players can hurt
/// each other, but never its caster.
#[verifier::when_used_as_spec(spec_area_damage)]
pub fn area_damage(
    target: TargetDef,
    aim: Option<Aim>,
    base_damage: Scalar,
    falloff: FalloffKind,
    captured_charge: Option<Scalar>,
    caster: Entity,
) -> (r: Option<Blast>)
    ensures
        r == spec_area_damage(target, aim, base_damage, falloff, captured_charge, caster),
{
    match (area_radius(target), aim) {
        (Some(radius), Some(aim)) => Some(
            Blast {
                origin: aim.position,
                radius,
                base_damage: base_damage.times(charge_scale(captured_charge)),
                falloff,
                source: if caster == placeholder() {
                    None
                } else {
                    Some(caster)
                },
                source_team: Team::Neutral,
            },
        ),
        _ => None,
    }
}

} // verus!

//! How a payload goes out into the world.

use crate::entity::Entity;
use crate::net::protocol::{ParentCastInfo, PropShape, SpawnBodyMessage};
use crate::physics::Ray;
use crate::scalar::{one, zero, Scalar};
use crate::spells::bodies::{BodyDef, ColliderShape};
use crate::spells::catalog::BodyCatalog;
use crate::spells::data::{AreaShape, BodyTemplateId, LaunchKind, OriginDef, TargetDef};
use crate::spells::engine::DeliveryTarget;
use crate::spells::handlers::CastContext;
use crate::spells::portal::up;
use crate::vector::Vec3;
use vstd::prelude::*;

verus! {

/// How far ahead of its origin a body starts, so as not to touch it (`0.4`).
#[verifier::allow_in_spec]
pub fn spawn_clearance() -> Scalar
    returns
        (Scalar { bits: 0x3ecc_cccd }),
{
    Scalar { bits: 0x3ecc_cccd }
}

/// How much the sides of a cube may differ (`1e-3`).
#[verifier::allow_in_spec]
pub fn cube_tolerance() -> Scalar
    returns
        (Scalar { bits: 0x3a83_126f }),
{
    Scalar { bits: 0x3a83_126f }
}

/// `3.0`.
#[verifier::allow_in_spec]
pub fn three() -> Scalar
    returns
        (Scalar { bits: 0x4040_0000 }),
{
    Scalar { bits: 0x4040_0000 }
}

/// A point and the direction from it.
#[derive(Clone, Copy, Debug, PartialEq, Eq, Structural)]
pub struct Aim {
    pub position: Vec3,
    pub forward: Vec3,
}

pub open spec fn spec_resolve_origin(
    origin: OriginDef,
    wand: Option<Aim>,
    caster: Option<Aim>,
) -> Option<Aim> {
    match origin {
        OriginDef::Wand => wand,
        OriginDef::Self_ => caster,
        OriginDef::Impact(point) => Some(
            Aim { position: point, forward: Vec3 { x: zero(), y: zero(), z: one() } },
        ),
    }
}

/// Where a cast starts from: the wand, the caster, or a point of impact. A point
/// of impact faces along the Z axis, for want of a direction of its own.
#[verifier::when_used_as_spec(spec_resolve_origin)]
pub fn resolve_origin(
    origin: OriginDef,
    wand: Option<Aim>,
    caster: Option<Aim>,
) -> (r: Option<Aim>)
    ensures
        r == spec_resolve_origin(origin, wand, caster),
{
    match origin {
        OriginDef::Wand => wand,
        OriginDef::Self_ => caster,
        OriginDef::Impact(point) => Some(
            Aim { position: point, forward: Vec3 { x: zero(), y: zero(), z: one() } },
        ),
    }
}

pub open spec fn spec_launch_velocity(launch: LaunchKind, forward: Vec3) -> Vec3 {
    match launch {
        LaunchKind::Throw { forward: ahead, up: high } => forward.scale(ahead).plus(
            up().scale(high),
        ),
        LaunchKind::Drop => Vec3::origin(),
        LaunchKind::Held => Vec3::origin(),
    }
}

/// How fast a body starts.
#[verifier::when_used_as_spec(spec_launch_velocity)]
pub fn launch_velocity(launch: LaunchKind, forward: Vec3) -> (r: Vec3)
    ensures
        r == spec_launch_velocity(launch, forward),
{
    match launch {
        LaunchKind::Throw { forward: ahead, up: high } => forward.scale(ahead).plus(
            up().scale(high),
        ),
        LaunchKind::Drop => Vec3::origin(),
        LaunchKind::Held => Vec3::origin(),
    }
}

pub open spec fn spec_prop_shape_from_collider(shape: ColliderShape) -> Option<PropShape> {
    match shape {
        ColliderShape::Sphere { radius } => Some(PropShape::Sphere { radius }),
        ColliderShape::Cuboid { x, y, z } => if x.minus(y).abs().lt(cube_tolerance()) && y.minus(
            z,
        ).abs().lt(cube_tolerance()) {
            Some(PropShape::Cube { size: x })
        } else {
            Some(PropShape::Cube { size: x.plus(y).plus(z).over(three()) })
        },
        ColliderShape::Cylinder { radius: _, height: _ } => None,
        ColliderShape::Capsule { radius: _, height: _ } => None,
    }
}

/// What the wire makes of a shape: a box whose sides differ becomes a cube of
/// their mean. What is round but no ball cannot be sent.
#[verifier::when_used_as_spec(spec_prop_shape_from_collider)]
pub fn prop_shape_from_collider(shape: ColliderShape) -> (r: Option<PropShape>)
    ensures
        r == spec_prop_shape_from_collider(shape),
{
    match shape {
        ColliderShape::Sphere { radius } => Some(PropShape::Sphere { radius }),
        ColliderShape::Cuboid { x, y, z } => if x.minus(y).abs().lt(cube_tolerance()) && y.minus(
            z,
        ).abs().lt(cube_tolerance()) {
            Some(PropShape::Cube { size: x })
        } else {
            Some(PropShape::Cube { size: x.plus(y).plus(z).over(three()) })
        },
        ColliderShape::Cylinder { radius: _, height: _ } => None,
        ColliderShape::Capsule { radius: _, height: _ } => None,
    }
}

/// Whether a message sends out the body of a cast.
pub open spec fn sends_body(
    msg: SpawnBodyMessage,
    context: CastContext,
    aim: Aim,
    def: BodyDef,
    shape: PropShape,
    launch: LaunchKind,
) -> bool {
    &&& msg.origin == aim.position.plus(aim.forward.scale(spawn_clearance()))
    &&& msg.velocity == launch_velocity(launch, aim.forward)
    &&& msg.shape == shape
    &&& msg.mass == def.physics.mass
    &&& msg.friction == def.physics.friction
    &&& msg.linear_damping == def.physics.linear_damping
    &&& msg.angular_damping == def.physics.angular_damping
    &&& msg.restitution == def.physics.restitution
    &&& msg.tint_seed == zero()
    &&& msg.tint == Vec3::origin()
    &&& msg.parent_cast matches Some(parent) && parent.spell_id@ == context.spell_id.0@
        && parent.cast_id@ == context.cast_id.0@ && parent.captured_charge
        == context.captured_charge && parent.chain_depth == context.chain_depth
}

/// The message that sends out the body of a cast: none without an origin, or for
/// a body that there is not, or whose shape the wire does not know.
pub fn spawn_body(
    context: &CastContext,
    aim: Option<Aim>,
    bodies: &BodyCatalog,
    template: &BodyTemplateId,
    launch: LaunchKind,
) -> (r: Option<SpawnBodyMessage>)
    requires
        bodies.wf(),
    ensures
        r is Some <==> aim is Some && bodies@.contains_key(template.0@)
            && prop_shape_from_collider(bodies@[template.0@].physics.collider) is Some,
        r matches Some(msg) ==> sends_body(
            msg,
            *context,
            aim->Some_0,
            bodies@[template.0@],
            prop_shape_from_collider(bodies@[template.0@].physics.collider)->Some_0,
            launch,
        ),
{
    let aim = match aim {
        Some(aim) => aim,
        None => {
            return None;
        },
    };
    let def = match bodies.get(template) {
        Some(def) => def,
        None => {
            return None;
        },
    };
    let shape = match prop_shape_from_collider(def.physics.collider) {
        Some(shape) => shape,
        None => {
            return None;
        },
    };
    Some(
        SpawnBodyMessage {
            origin: aim.position.plus(aim.forward.scale(spawn_clearance())),
            velocity: launch_velocity(launch, aim.forward),
            shape,
            mass: def.physics.mass,
            friction: def.physics.friction,
            linear_damping: def.physics.linear_damping,
            angular_damping: def.physics.angular_damping,
            restitution: def.physics.restitution,
            tint_seed: zero(),
            tint: Vec3::origin(),
            parent_cast: Some(
                ParentCastInfo {
                    spell_id: context.spell_id.0.clone(),
                    cast_id: context.cast_id.0.clone(),
                    captured_charge: context.captured_charge,
                    chain_depth: context.chain_depth,
                },
            ),
        },
    )
}

pub open spec fn spec_ray_direction(aim: Option<Aim>) -> Option<Vec3> {
    match aim {
        Some(aim) => aim.forward.direction(),
        None => None,
    }
}

/// The direction of the ray that a cast sends from `aim`, if it has one.
#[verifier::when_used_as_spec(spec_ray_direction)]
pub fn ray_direction(aim: Option<Aim>) -> (r: Option<Vec3>)
    ensures
        r == spec_ray_direction(aim),
{
    match aim {
        Some(aim) => aim.forward.direction(),
        None => None,
    }
}

/// The ray that a cast sends from `aim`, if it has a direction: as far as `reach`,
/// and through its caster.
pub fn cast_ray(aim: Option<Aim>, reach: Scalar, caster: Entity) -> (r: Option<Ray>)
    ensures
        match (ray_direction(aim), r) {
            (Some(direction), Some(ray)) => ray.goes(
                aim->Some_0.position,
                direction,
                reach,
                seq![caster],
            ),
            (None, None) => true,
            _ => false,
        },
{
    match (aim, ray_direction(aim)) {
        (Some(aim), Some(direction)) => {
            let mut ignored: Vec<Entity> = Vec::new();
            ignored.push(caster);
            assert(ignored@ =~= seq![caster]);
            Some(Ray { origin: aim.position, direction, range: reach, ignored })
        },
        _ => None,
    }
}

pub open spec fn spec_area_radius(target: TargetDef) -> Option<Scalar> {
    match target {
        TargetDef::Area { shape: AreaShape::Sphere { radius } } => Some(radius),
        _ => None,
    }
}

/// How far around its origin a cast reaches; not at all unless it aims at an area.
#[verifier::when_used_as_spec(spec_area_radius)]
pub fn area_radius(target: TargetDef) -> (r: Option<Scalar>)
    ensures
        r == spec_area_radius(target),
{
    match target {
        TargetDef::Area { shape: AreaShape::Sphere { radius } } => Some(radius),
        _ => None,
    }
}

pub open spec fn spec_hitscan(aim: Option<Aim>, hit: Option<Entity>) -> DeliveryTarget {
    match (aim, ray_direction(aim)) {
        (Some(aim), Some(_)) => DeliveryTarget { entity: hit, direction: Some(aim.forward) },
        _ => DeliveryTarget { entity: None, direction: None },
    }
}

/// What the ray of a cast from `aim` comes to, when it met `hit`: nothing without
/// a direction to cast it in.
#[verifier::when_used_as_spec(spec_hitscan)]
pub fn hitscan(aim: Option<Aim>, hit: Option<Entity>) -> (r: DeliveryTarget)
    ensures
        r == spec_hitscan(aim, hit),
{
    match (aim, ray_direction(aim)) {
        (Some(aim), Some(_)) => DeliveryTarget { entity: hit, direction: Some(aim.forward) },
        _ => DeliveryTarget { entity: None, direction: None },
    }
}

pub open spec fn spec_beam(aim: Option<Aim>, hit: Option<Entity>) -> DeliveryTarget {
    hitscan(aim, hit)
}

/// What the beam of a cast comes to in a frame: the same as a ray.
#[verifier::when_used_as_spec(spec_beam)]
pub fn beam(aim: Option<Aim>, hit: Option<Entity>) -> (r: DeliveryTarget)
    ensures
        r == spec_beam(aim, hit),
{
    hitscan(aim, hit)
}

} // verus!

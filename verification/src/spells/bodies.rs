//! Templates of the bodies that spells put into the world.

use crate::physics::{CollisionLayers, GameLayer, ALL_LAYERS};
use crate::scalar::Scalar;
use crate::spells::data::{BodyTemplateId, MarkerKind};
use crate::spells::markers::{mark_of, marks_of, Mark};
use crate::vector::{Pose, Vec3};
use vstd::prelude::*;
use vstd::string::StringExecFns;

verus! {

/// A body, as it is written down.
#[derive(Debug)]
pub struct BodyDef {
    pub id: BodyTemplateId,
    pub mesh: MeshDef,
    pub material: MaterialDef,
    pub physics: PhysicsDef,
    pub light: Option<LightDef>,
    pub markers: Vec<MarkerKind>,
}

/// What a body looks like.
#[derive(Clone, Copy, Debug, PartialEq, Eq, Structural)]
pub enum MeshDef {
    Sphere { radius: Scalar },
    Cuboid { x: Scalar, y: Scalar, z: Scalar },
    Cylinder { radius: Scalar, height: Scalar },
}

/// What a body is made of.
#[derive(Clone, Copy, Debug, PartialEq, Eq, Structural)]
pub struct MaterialDef {
    pub base_color: ColorDef,
    pub emissive: ColorDef,
    pub roughness: Scalar,
}

/// A color, each part from nought to one.
#[derive(Clone, Copy, Debug, PartialEq, Eq, Structural)]
pub struct ColorDef {
    pub r: Scalar,
    pub g: Scalar,
    pub b: Scalar,
    pub a: Scalar,
}

/// How a body moves.
#[derive(Clone, Copy, Debug, PartialEq, Eq, Structural)]
pub struct PhysicsDef {
    pub body: RigidBodyKind,
    pub collider: ColliderShape,
    pub mass: Scalar,
    pub friction: Scalar,
    pub linear_damping: Scalar,
    pub angular_damping: Scalar,
    pub restitution: Scalar,
}

/// What moves a body.
#[derive(Clone, Copy, Debug, PartialEq, Eq, Structural)]
pub enum RigidBodyKind {
    Dynamic,
    Static,
    Kinematic,
}

/// What of a body collides.
#[derive(Clone, Copy, Debug, PartialEq, Eq, Structural)]
pub enum ColliderShape {
    Sphere { radius: Scalar },
    Cuboid { x: Scalar, y: Scalar, z: Scalar },
    Cylinder { radius: Scalar, height: Scalar },
    Capsule { radius: Scalar, height: Scalar },
}

/// A light that a body carries.
#[derive(Clone, Copy, Debug, PartialEq, Eq, Structural)]
pub struct LightDef {
    pub color: ColorDef,
    pub intensity: Scalar,
    pub range: Scalar,
}

/// A light to put on a body.
#[derive(Debug)]
pub struct BodyLight {
    pub name: String,
    pub light: LightDef,
}

/// A body to put into the world.
#[derive(Debug)]
pub struct BodyPlan {
    pub name: String,
    pub mesh: MeshDef,
    pub material: MaterialDef,
    pub physics: PhysicsDef,
    pub layers: CollisionLayers,
    pub at: Pose,
    pub velocity: Vec3,
    pub light: Option<BodyLight>,
    pub marks: Vec<Mark>,
}

/// What a template makes at a place and with a velocity. Nobody has cast it.
pub fn spawn_body(def: &BodyDef, at: Pose, velocity: Vec3) -> (r: BodyPlan)
    ensures
        r.name@ == def.id.0@,
        r.mesh == def.mesh,
        r.material == def.material,
        r.physics == def.physics,
        r.layers == CollisionLayers::new(GameLayer::Default, ALL_LAYERS),
        r.at == at,
        r.velocity == velocity,
        match (r.light, def.light) {
            (Some(on), Some(light)) => on.name@ == def.id.0@ + "-Light"@ && on.light == light,
            (None, None) => true,
            _ => false,
        },
        r.marks@ == def.markers@.map_values(|m: MarkerKind| mark_of(m, None)),
{
    let light = match def.light {
        Some(light) => {
            let mut name = def.id.0.clone();
            name.append("-Light");
            Some(BodyLight { name, light })
        },
        None => None,
    };
    BodyPlan {
        name: def.id.0.clone(),
        mesh: def.mesh,
        material: def.material,
        physics: def.physics,
        layers: CollisionLayers::new(GameLayer::Default, ALL_LAYERS),
        at,
        velocity,
        light,
        marks: marks_of(&def.markers, None),
    }
}

} // verus!

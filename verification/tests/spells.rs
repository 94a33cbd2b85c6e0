use wisp::entity::Entity;
use wisp::input::InputMode;
use wisp::magic;
use wisp::net::protocol::{ChargeStateBroadcast, PropShape};
use wisp::player::spells::SpellId as WheelSpell;
use wisp::scalar::Scalar;
use wisp::spells::bodies::{
    BodyDef, ColliderShape, ColorDef, LightDef, MaterialDef, MeshDef, PhysicsDef, RigidBodyKind,
};
use wisp::spells::catalog::{BodyCatalog, SpellCatalog};
use wisp::spells::charge_orb::{
    current_charge_state, drain_charge_broadcasts, find_remote_player, lookup_tint, orb_is_due, orb_look,
    orb_stays, orb_tint, send_local_charge_state, update_local_charge_orb, Ancestor, LocalChargeTx,
    OrbAction, RemoteChargeState, RemoteCharger,
};
use wisp::spells::convex_lens::{
    beam_shape, beam_shows, build_frustum_indices, build_frustum_mesh, cast_beam, cast_beam_ray,
    collect_portal_pairs, compute_lens_power, finish_beam, lens_ray, lens_source, lens_view,
    rewrite_frustum, spoke_angle, tethers, BeamHit, BeamPath, ImpulseInfo, LensAngles, LensSource,
    RayHit, Spoke, BEAM_SEGMENTS,
};
use wisp::spells::damage::{FalloffKind, Team};
use wisp::spells::data::{
    ActionRef, AreaShape, BodyTemplateId, CastDef, CastId, ChargeSource, ChargingDef, EffectDef,
    HandlerId, LaunchKind, MarkerKind, OriginDef, PayloadDef, SpellDef, SpellId, TargetDef,
    TriggerDef,
};
use wisp::spells::deliveries::{
    area_radius, beam, cast_ray, hitscan, launch_velocity, prop_shape_from_collider, resolve_origin,
    spawn_body, Aim,
};
use wisp::spells::effects::{
    area_damage, despawn, despawn_nearby_matching, impulse, impulse_tick, Located,
};
use wisp::spells::engine::{CastInstance, CastPhase, CastState, DeliveryTarget};
use wisp::spells::explosion::apply_explosion;
use wisp::spells::handheld_portal::{
    drive_handheld_portal_messages, sync_handheld_portal_rotation, Carrier, HandheldTx,
};
use wisp::spells::handlers::{Authority, CastContext};
use wisp::spells::hud::{
    bar_warmth, show_charge_bar, spawn_charge_bar, update_charge_bar, ChargeBar,
};
use wisp::spells::ice::{
    apply_glacier_scale_broadcasts, attach_glacier_hitbox, attach_spike_hitbox,
    drop_glacier_trail, frost_spire_handler, grow_glacier_on_foreign_ice, handle_frost_spire,
    roll_to, settle_frost_spike, show_indicator, spawn_frost_spire_indicator,
    spawn_frozen_ground, spire_ray, tick_frost_spike_lifetime,
    tick_frozen_ground_lifetime, trail_ray, update_frost_spire_indicator, FrostSpireMessage,
    FrozenGroundLife, FrozenTile, GlacierBall, GlacierScaleBroadcast, ScaledProp, StandingSpike,
};
use wisp::spells::iris::{
    apply_burst_on_release, burst_message, burst_push, drive_iris_flash, IrisBurst,
};
use wisp::spells::lantern::{pickup_handler, throw_handler};
use wisp::spells::lens_hud::{
    alignment_dot, dot_color, lumen_readout, shows_lens_readouts, spawn,
    update_alignment_indicator, update_lumen_text, DotLook, LumenReadout, MAX_LANTERN_DOTS,
};
use wisp::spells::markers::{mark_of, marks_of, FrostSpike, Mark, RollingGlacier};
use wisp::spells::portal::{HalfTurns, Portal, PortalSlot, SurfaceHit};
use wisp::vector::{Pose, Quat, Vec3};

use bevy::math::Quat as EngineQuat;

const PI: f32 = std::f32::consts::PI;

fn s(x: f32) -> Scalar {
    Scalar::from_bits(x.to_bits())
}

fn f(x: Scalar) -> f32 {
    f32::from_bits(x.to_bits())
}

fn v(x: f32, y: f32, z: f32) -> Vec3 {
    Vec3::new(s(x), s(y), s(z))
}

fn e(bits: u64) -> Entity {
    Entity { bits }
}

fn q(a: EngineQuat) -> Quat {
    Quat { x: s(a.x), y: s(a.y), z: s(a.z), w: s(a.w) }
}

fn near(a: Vec3, x: f32, y: f32, z: f32) -> bool {
    (f(a.x) - x).abs() < 1e-4 && (f(a.y) - y).abs() < 1e-4 && (f(a.z) - z).abs() < 1e-4
}

fn turns() -> HalfTurns {
    HalfTurns {
        x: q(EngineQuat::from_rotation_x(PI)),
        y: q(EngineQuat::from_rotation_y(PI)),
        z: q(EngineQuat::from_rotation_z(PI)),
    }
}

const AHEAD: Vec3 = Vec3 {
    x: Scalar { bits: 0 },
    y: Scalar { bits: 0 },
    z: Scalar { bits: 0xbf80_0000 },
};

fn tile(bits: u64, at: Vec3, radius: f32, creator: Option<Entity>) -> FrozenTile {
    FrozenTile {
        entity: e(bits),
        position: at,
        radius: s(radius),
        life: FrozenGroundLife { age: s(0.0), creator },
    }
}

fn ball(bits: u64, size: f32) -> GlacierBall {
    let mut glacier = RollingGlacier::new(Some(e(7)));
    glacier.size_mult = s(size);
    GlacierBall { entity: e(bits), net_id: bits * 100, glacier }
}

#[test]
fn a_ball_grows_on_the_ice_of_others() {
    let mut balls = vec![ball(1, 1.0)];
    let tiles = vec![tile(11, v(0.0, 0.0, 0.0), 0.45, Some(e(2)))];
    let growths = grow_glacier_on_foreign_ice(&vec![(e(11), e(1))], &mut balls, &tiles);
    assert_eq!(growths.len(), 1);
    assert_eq!((growths[0].ball, growths[0].tile, growths[0].net_id), (e(1), e(11), 100));
    assert_eq!(f(growths[0].scale), 1.0 + 0.45 * 1.8);
    assert_eq!(f(balls[0].glacier.size_mult), 1.0 + 0.45 * 1.8);
}

#[test]
fn a_ball_does_not_grow_on_its_own_trail() {
    let mut balls = vec![ball(1, 1.0)];
    let tiles = vec![tile(11, v(0.0, 0.0, 0.0), 0.45, Some(e(1)))];
    assert_eq!(grow_glacier_on_foreign_ice(&vec![(e(1), e(11))], &mut balls, &tiles), vec![]);
    assert_eq!(f(balls[0].glacier.size_mult), 1.0);
}

#[test]
fn a_ball_grows_only_so_far() {
    let mut balls = vec![ball(1, 12.0), ball(2, 0.5)];
    let tiles = vec![tile(11, v(0.0, 0.0, 0.0), 100.0, None)];
    assert_eq!(grow_glacier_on_foreign_ice(&vec![(e(1), e(11))], &mut balls, &tiles), vec![]);
    grow_glacier_on_foreign_ice(&vec![(e(2), e(11))], &mut balls, &tiles);
    assert_eq!(f(balls[1].glacier.size_mult), 12.0);
}

#[test]
fn a_ball_leaves_a_tile_every_so_often() {
    let mut glacier = RollingGlacier::new(None);
    assert!(!roll_to(&mut glacier, v(0.0, 1.0, 0.0)));
    assert!(!roll_to(&mut glacier, v(0.5, 1.0, 0.0)));
    assert!(roll_to(&mut glacier, v(1.0, 1.0, 0.0)));
    let dropped = drop_glacier_trail(&mut glacier, v(1.0, 1.0, 0.0), Some(s(1.0)), &vec![]);
    assert_eq!(dropped.unwrap().ground, v(1.0, 0.0, 0.0));
    assert_eq!(f(dropped.unwrap().radius), 0.45);
    assert_eq!(f(glacier.since_last_tile), 0.0);
    assert_eq!(drop_glacier_trail(&mut glacier, v(1.0, 1.0, 0.0), None, &vec![]), None);
    let there = vec![tile(11, v(1.125, 0.0, 0.0), 0.45, None)];
    assert_eq!(
        drop_glacier_trail(&mut glacier, v(1.0, 1.0, 0.0), Some(s(1.0)), &there),
        None
    );
    assert!(near(spawn_frozen_ground(v(1.0, 0.0, 2.0)), 1.0, 0.031, 2.0));
}

#[test]
fn ice_melts() {
    let mut life = FrozenGroundLife { age: s(0.0), creator: None };
    assert!(!tick_frozen_ground_lifetime(&mut life, s(179.0)));
    assert!(tick_frozen_ground_lifetime(&mut life, s(1.0)));
    let mut spike = FrostSpike {
        lifetime: s(1.0),
        rise_remaining: s(0.0),
        damage: s(0.0),
        caster: None,
    };
    assert!(!tick_frost_spike_lifetime(&mut spike, s(0.5)));
    assert!(tick_frost_spike_lifetime(&mut spike, s(0.5)));
}

#[test]
fn a_spike_hurts_only_while_it_rises() {
    let mut spike = FrostSpike {
        lifetime: s(180.0),
        rise_remaining: s(0.125),
        damage: s(22.0),
        caster: Some(e(7)),
    };
    let mut hitbox = attach_spike_hitbox(spike);
    assert_eq!(f(hitbox.damage), 22.0);
    assert_eq!(hitbox.team, Team::Players);
    assert!(!settle_frost_spike(&mut spike, &mut hitbox, s(0.0625)));
    assert_eq!(f(hitbox.damage), 22.0);
    assert!(settle_frost_spike(&mut spike, &mut hitbox, s(0.0625)));
    assert_eq!(f(hitbox.damage), 0.0);
    assert!(!settle_frost_spike(&mut spike, &mut hitbox, s(0.0625)));
    let ball = attach_glacier_hitbox(RollingGlacier::new(Some(e(7))));
    assert_eq!((f(ball.damage), ball.team, ball.source), (28.0, Team::Neutral, Some(e(7))));
}

#[test]
fn a_spike_is_called_up_on_ice_only() {
    let hit = SurfaceHit { distance: s(4.0), normal: v(0.0, 2.0, 0.0) };
    let eye = v(0.0, 1.0, 0.0);
    let call = frost_spire_handler(eye, AHEAD, Some(hit), true, Some(s(0.5))).unwrap();
    assert_eq!(call.origin, v(0.0, 1.0, -4.0));
    assert_eq!(call.normal, v(0.0, 1.0, 0.0));
    assert_eq!(f(call.captured_charge), 0.5);
    assert_eq!(frost_spire_handler(eye, AHEAD, Some(hit), false, None), None);
    assert_eq!(frost_spire_handler(eye, AHEAD, None, true, None), None);
    assert_eq!(frost_spire_handler(eye, v(0.0, 0.0, 0.0), Some(hit), true, None), None);
    assert_eq!(update_frost_spire_indicator(&SpellId::new("portal"), AHEAD, true), None);
}

fn spire(at: Vec3) -> FrostSpireMessage {
    FrostSpireMessage { origin: at, normal: v(0.0, 1.0, 0.0), captured_charge: s(0.5) }
}

#[test]
fn a_spike_takes_up_the_nearest_tile() {
    let mut tiles = vec![
        tile(11, v(0.5, 0.0, 0.0), 0.45, None),
        tile(12, v(0.25, 0.0, 0.0), 0.9, None),
        tile(13, v(5.0, 0.0, 0.0), 0.45, None),
    ];
    let (new, gone) = handle_frost_spire(spire(v(0.0, 0.0, 0.0)), &mut tiles, &vec![], Some(e(7)))
        .unwrap();
    assert_eq!(gone, Some(e(12)));
    assert_eq!(tiles.iter().map(|t| t.entity).collect::<Vec<_>>(), vec![e(11), e(13)]);
    assert_eq!(new.prop.shape, PropShape::Cuboid { x: s(1.1), y: s(3.2), z: s(1.1) });
    assert_eq!(f(new.prop.mass), 160.0);
    assert_eq!((new.prop.tint, f(new.prop.tint_seed)), (v(0.65, 0.9, 1.0), 0.0));
    assert_eq!((f(new.friction), f(new.restitution)), (0.6, 0.0));
    assert!(near(new.rotation.rotate(v(0.0, 1.0, 0.0)), 0.0, 1.0, 0.0));
    assert_eq!(f(new.spike.damage), 22.0 * 2.0 + 18.0 * 0.5);
    assert_eq!(new.spike.caster, Some(e(7)));
    assert!(near(new.start, 0.0, 1.6 - 0.08 - 3.2, 0.0));
    assert!((f(new.velocity.y) - 3.2 / 0.15).abs() < 1e-3);
}

#[test]
fn a_tile_makes_one_spike() {
    let mut tiles = vec![tile(11, v(0.25, 0.0, 0.0), 0.45, None)];
    let call = spire(v(0.0, 0.0, 0.0));
    assert!(handle_frost_spire(call, &mut tiles, &vec![], None).is_some());
    assert!(tiles.is_empty());
    assert!(handle_frost_spire(call, &mut tiles, &vec![], None).is_none());
}

#[test]
fn a_spike_comes_out_of_a_spike() {
    let spikes = vec![StandingSpike {
        position: v(0.0, 0.5, 0.0),
        shape: PropShape::Cuboid { x: s(0.55), y: s(1.6), z: s(0.55) },
    }];
    let (new, gone) = handle_frost_spire(spire(v(0.0, 0.0, 0.0)), &mut vec![], &spikes, None).unwrap();
    assert_eq!(gone, None);
    assert!(matches!(new.prop.shape, PropShape::Cuboid { x, .. } if (f(x) - 0.55 * 0.7).abs() < 1e-6));
    assert!(handle_frost_spire(spire(v(9.0, 0.0, 0.0)), &mut vec![], &spikes, None).is_none());
    assert!(handle_frost_spire(spire(v(f32::NAN, 0.0, 0.0)), &mut vec![], &spikes, None).is_none());
}

#[test]
fn markers_make_something_of_a_body() {
    let marks = marks_of(&vec![MarkerKind::Lantern, MarkerKind::FrostSpike], Some(e(7)));
    assert_eq!(marks[0], Mark::Lantern);
    assert!(matches!(marks[1], Mark::Spike(spike)
        if f(spike.lifetime) == 180.0 && f(spike.damage) == 0.0));
    assert!(matches!(mark_of(MarkerKind::RollingGlacier, None), Mark::Glacier(g)
        if f(g.size_mult) == 1.0));
}

#[test]
fn a_template_makes_a_body() {
    let grey = ColorDef { r: s(0.5), g: s(0.5), b: s(0.5), a: s(1.0) };
    let mut def = BodyDef {
        id: BodyTemplateId("rock".to_string()),
        mesh: MeshDef::Sphere { radius: s(0.3) },
        material: MaterialDef { base_color: grey, emissive: grey, roughness: s(0.9) },
        physics: PhysicsDef {
            body: RigidBodyKind::Dynamic,
            collider: ColliderShape::Sphere { radius: s(0.3) },
            mass: s(2.0),
            friction: s(0.4),
            linear_damping: s(0.0),
            angular_damping: s(0.1),
            restitution: s(0.2),
        },
        light: Some(LightDef { color: grey, intensity: s(100.0), range: s(4.0) }),
        markers: vec![MarkerKind::PortalTraveler, MarkerKind::RollingGlacier],
    };
    let at = Pose { translation: v(1.0, 2.0, 3.0), rotation: Quat::identity() };
    let plan = wisp::spells::bodies::spawn_body(&def, at, v(0.0, 5.0, 0.0));
    assert_eq!((plan.name.as_str(), plan.at, plan.velocity), ("rock", at, v(0.0, 5.0, 0.0)));
    assert_eq!(plan.physics, def.physics);
    assert_eq!((plan.mesh, plan.material), (def.mesh, def.material));
    let light = plan.light.unwrap();
    assert_eq!((light.name.as_str(), f(light.light.range)), ("rock-Light", 4.0));
    let rolling = Mark::Glacier(RollingGlacier::new(None));
    assert_eq!(plan.marks, vec![Mark::PortalTraveler, rolling]);
    assert_eq!(plan.layers.filters, u32::MAX);
    def.light = None;
    assert!(wisp::spells::bodies::spawn_body(&def, at, v(0.0, 0.0, 0.0)).light.is_none());
}

#[test]
fn an_explosion_pushes_away() {
    let things = vec![
        Located { entity: e(1), position: v(2.0, 0.0, 0.0) },
        Located { entity: e(2), position: v(0.0, 0.0, 0.0) },
        Located { entity: e(3), position: v(0.0, -3.0, 0.0) },
    ];
    let pushes = apply_explosion(&things, v(0.0, 0.0, 0.0), Some(s(0.5)));
    assert_eq!(pushes.len(), 2);
    assert_eq!((pushes[0].entity, pushes[0].impulse), (e(1), v(100.0, 0.0, 0.0)));
    assert!(near(pushes[1].impulse, 0.0, -100.0, 0.0));
    assert!(near(apply_explosion(&things, v(0.0, 0.0, 0.0), None)[0].impulse, 200.0, 0.0, 0.0));
}

#[test]
fn effects_act_on_what_was_met() {
    let met = DeliveryTarget { entity: Some(e(5)), direction: Some(AHEAD) };
    assert!(near(impulse(met, s(4.0), Some(s(0.5))).unwrap().impulse, 0.0, 0.0, -2.0));
    assert!(near(impulse(met, s(4.0), None).unwrap().impulse, 0.0, 0.0, -4.0));
    assert!(near(impulse_tick(met, s(4.0), s(0.25)).unwrap().impulse, 0.0, 0.0, -1.0));
    assert_eq!(despawn(met), Some(e(5)));
    assert_eq!(impulse(DeliveryTarget::nothing(), s(4.0), None), None);
    assert_eq!(impulse_tick(DeliveryTarget::nothing(), s(4.0), s(1.0)), None);
    let things = vec![
        Located { entity: e(1), position: v(1.0, 0.0, 0.0) },
        Located { entity: e(2), position: v(3.0, 0.0, 0.0) },
    ];
    assert_eq!(despawn_nearby_matching(&things, v(0.0, 0.0, 0.0), s(1.0)), vec![e(1)]);
}

#[test]
fn a_blast_needs_an_area_and_an_origin() {
    let area = TargetDef::Area { shape: AreaShape::Sphere { radius: s(3.0) } };
    let aim = Some(Aim { position: v(1.0, 2.0, 3.0), forward: AHEAD });
    let blast = |target: TargetDef, aim: Option<Aim>, caster: Entity| {
        area_damage(target, aim, s(40.0), FalloffKind::Linear, Some(s(0.5)), caster)
    };
    let live = blast(area, aim, e(7)).unwrap();
    assert_eq!(live.origin, v(1.0, 2.0, 3.0));
    assert_eq!((f(live.radius), f(live.base_damage)), (3.0, 20.0));
    assert_eq!((live.source, live.source_team), (Some(e(7)), Team::Neutral));
    assert_eq!(blast(area, None, e(7)), None);
    assert_eq!(blast(TargetDef::Self_, aim, e(7)), None);
    assert_eq!(blast(area, aim, wisp::entity::placeholder()).unwrap().source, None);
    assert_eq!(area_radius(area), Some(s(3.0)));
    assert_eq!(area_radius(TargetDef::Self_), None);
}

#[test]
fn a_cast_starts_somewhere() {
    let wand = Some(Aim { position: v(1.0, 0.0, 0.0), forward: AHEAD });
    let own = Some(Aim { position: v(2.0, 0.0, 0.0), forward: AHEAD });
    assert_eq!(resolve_origin(OriginDef::Wand, wand, own), wand);
    assert_eq!(resolve_origin(OriginDef::Self_, wand, own), own);
    let impact = resolve_origin(OriginDef::Impact(v(3.0, 0.0, 0.0)), None, None).unwrap();
    assert_eq!((impact.position, impact.forward), (v(3.0, 0.0, 0.0), v(0.0, 0.0, 1.0)));
    assert_eq!(resolve_origin(OriginDef::Wand, None, own), None);

    let thrown = launch_velocity(LaunchKind::Throw { forward: s(8.0), up: s(2.0) }, AHEAD);
    assert!(near(thrown, 0.0, 2.0, -8.0));
    assert_eq!(launch_velocity(LaunchKind::Drop, AHEAD), v(0.0, 0.0, 0.0));
    assert_eq!(launch_velocity(LaunchKind::Held, AHEAD), v(0.0, 0.0, 0.0));

    assert_eq!(hitscan(wand, Some(e(5))).entity, Some(e(5)));
    assert_eq!(beam(wand, None).direction, Some(AHEAD));
    let nowhere = Some(Aim { position: v(0.0, 0.0, 0.0), forward: v(0.0, 0.0, 0.0) });
    assert_eq!(hitscan(nowhere, Some(e(5))), DeliveryTarget::nothing());
    assert_eq!(hitscan(None, Some(e(5))), DeliveryTarget::nothing());
}

#[test]
fn some_shapes_can_be_sent() {
    let sphere = ColliderShape::Sphere { radius: s(0.5) };
    assert_eq!(prop_shape_from_collider(sphere), Some(PropShape::Sphere { radius: s(0.5) }));
    let cube = ColliderShape::Cuboid { x: s(1.0), y: s(1.0005), z: s(1.0) };
    assert_eq!(prop_shape_from_collider(cube), Some(PropShape::Cube { size: s(1.0) }));
    let slab = ColliderShape::Cuboid { x: s(1.0), y: s(2.0), z: s(3.0) };
    assert_eq!(prop_shape_from_collider(slab), Some(PropShape::Cube { size: s(2.0) }));
    let tin = ColliderShape::Cylinder { radius: s(1.0), height: s(2.0) };
    assert_eq!(prop_shape_from_collider(tin), None);
    let pill = ColliderShape::Capsule { radius: s(1.0), height: s(2.0) };
    assert_eq!(prop_shape_from_collider(pill), None);
}

#[test]
fn an_unknown_body_is_not_sent() {
    let context = CastContext {
        player: e(7),
        spell_id: SpellId::new("fireball"),
        cast_id: CastId("fireball.throw".to_string()),
        authority: Authority::Both,
        captured_charge: None,
        chain_depth: 0,
        origin: OriginDef::Wand,
        target: TargetDef::default(),
    };
    let aim = Some(Aim { position: v(1.0, 0.0, 0.0), forward: AHEAD });
    let template = BodyTemplateId("ball".to_string());
    let sent = spawn_body(&context, aim, &BodyCatalog::new(), &template, LaunchKind::Drop);
    assert!(sent.is_none());
}

#[test]
fn a_lantern_is_thrown_and_picked_up() {
    let throw = throw_handler(v(0.0, 1.0, 0.0), AHEAD);
    assert!(near(throw.origin, 0.0, 1.0, -1.5));
    assert!(near(throw.velocity, 0.0, 3.0, -9.0));
    assert_eq!(pickup_handler(v(1.0, 2.0, 3.0)).player_position, v(1.0, 2.0, 3.0));
    let near_throw = magic::on_throw_lantern(2, v(0.0, 1.0, 0.0), AHEAD).unwrap();
    assert!(near(near_throw.origin, 0.0, 1.0, -0.6));
    assert_eq!(magic::on_throw_lantern(3, v(0.0, 1.0, 0.0), AHEAD), None);
    assert!(magic::on_pickup(v(0.0, 0.0, 0.0), v(1.8, 0.0, 0.0)));
    assert!(!magic::on_pickup(v(0.0, 0.0, 0.0), v(1.9, 0.0, 0.0)));
}

fn seen(bits: u64, aligned: bool, distance: f32) -> LensSource {
    LensSource {
        entity: e(bits),
        yaw_offset: s(0.0),
        pitch_offset: s(0.0),
        aligned,
        lens_distance: s(distance),
    }
}

#[test]
fn the_best_lantern_is_aligned_and_near() {
    let power = compute_lens_power(vec![
        seen(1, false, 1.0),
        seen(2, true, 7.0),
        seen(3, true, 3.5),
        seen(4, true, 99.0),
    ]);
    assert_eq!(power.active_lantern, Some(e(3)));
    assert!(power.aligned && power.in_range);
    assert_eq!(f(power.scalar), 0.5 + 0.75);
    assert_eq!(f(power.lumens), 1.25 * 1200.0);
    assert_eq!(f(power.lens_distance), 3.5);
    let nothing = compute_lens_power(vec![]);
    assert!(!nothing.in_range && nothing.active_lantern.is_none());
    let used = magic::lens_power(vec![seen(2, true, 7.0)], true, WheelSpell::Iris);
    assert!(used.lens_active);
    assert!(!magic::lens_power(vec![seen(2, true, 7.0)], true, WheelSpell::Portal).lens_active);
    assert!(!magic::lens_power(vec![seen(2, true, 7.0)], false, WheelSpell::Iris).lens_active);
}

#[test]
fn a_lens_sees_a_lantern_at_an_angle() {
    let lens = Pose { translation: v(0.0, 0.0, 0.0), rotation: Quat::identity() };
    let view = lens_view(lens, v(0.0, 0.0, 4.0)).unwrap();
    assert_eq!(f(view.distance), 4.0);
    assert!(near(view.local.unwrap(), 0.0, 0.0, -1.0));
    assert!(lens_view(lens, v(0.0, 0.0, 26.0)).is_none());
    assert!(lens_view(lens, v(0.0, 0.0, 0.0)).unwrap().local.is_none());
    let angles = |yaw: f32, pitch: f32| Some(LensAngles { yaw: s(yaw), pitch: s(pitch) });
    assert!(lens_source(e(1), s(4.0), angles(0.25, 0.5)).aligned);
    assert!(!lens_source(e(1), s(4.0), angles(0.27, 0.0)).aligned);
    assert!(!lens_source(e(1), s(4.0), angles(0.0, -0.62)).aligned);
    assert!(lens_source(e(1), s(0.0), None).aligned);
    assert_eq!(tethers(&vec![seen(1, true, 1.0), seen(2, false, 1.0)]).len(), 1);
}

fn lens_doors() -> Vec<Portal> {
    let upright = EngineQuat::from_rotation_x(PI / 2.0);
    let at = |bits: u64, slot: PortalSlot, z: f32, rotation: EngineQuat| {
        let pose = Pose { translation: v(0.0, 1.0, z), rotation: q(rotation) };
        Portal { entity: e(bits), slot, pose, prev: pose }
    };
    vec![
        at(1, PortalSlot::Primary, -5.0, upright),
        at(2, PortalSlot::Secondary, 5.0, EngineQuat::from_rotation_y(PI) * upright),
    ]
}

#[test]
fn a_beam_ends_where_it_meets_something() {
    let hit = Some(RayHit { distance: s(4.0), entity: e(5) });
    let path = cast_beam_ray(v(0.0, 1.0, 0.0), AHEAD, s(30.0), hit, &vec![], turns());
    let beam = finish_beam(path, None);
    assert_eq!(f(beam.primary_dist), 4.0);
    assert_eq!(beam.impulse_info.unwrap().entity, e(5));
    let path = cast_beam_ray(v(0.0, 1.0, 0.0), AHEAD, s(30.0), None, &vec![], turns());
    let beam = finish_beam(path, None);
    assert_eq!(f(beam.primary_dist), 30.0);
    assert!(beam.impulse_info.is_none() && beam.bent.is_none());
}

#[test]
fn a_beam_goes_through_a_portal() {
    let passages = collect_portal_pairs(&lens_doors());
    assert_eq!(passages.len(), 2);
    let path = cast_beam_ray(v(0.0, 1.0, 0.0), AHEAD, s(30.0), None, &passages, turns());
    match path {
        BeamPath::Bent { primary_dist, remaining, origin, direction, .. } => {
            assert!((f(primary_dist) - 5.0).abs() < 1e-4);
            assert!((f(remaining) - 25.0).abs() < 1e-4);
            assert!((f(origin.z) - 5.0).abs() < 0.2);
            assert!(near(direction, 0.0, 0.0, -1.0));
        },
        BeamPath::Straight(hit) => panic!("{:?}", hit),
    }
    let wall = Some(RayHit { distance: s(2.0), entity: e(5) });
    let path = cast_beam_ray(v(0.0, 1.0, 0.0), AHEAD, s(30.0), wall, &passages, turns());
    assert!(matches!(path, BeamPath::Straight(_)));
    assert!(collect_portal_pairs(&vec![lens_doors()[0]]).is_empty());
}

#[test]
fn a_beam_has_a_shape() {
    let parallel = beam_shape(s(3.0), s(10.0));
    assert_eq!((f(parallel.length), f(parallel.end_radius)), (10.0, 0.1));
    let converging = beam_shape(s(6.0), s(3.0));
    assert_eq!((f(converging.length), f(converging.end_radius)), (3.0, 0.05));
    let focused = beam_shape(s(6.0), s(10.0));
    assert_eq!((f(focused.length), f(focused.end_radius)), (6.0, 0.0));
    let diverging = beam_shape(s(1.5), s(3.0));
    assert_eq!((f(diverging.length), f(diverging.end_radius)), (3.0, 0.2));
    assert!(beam_shows(true, true, s(0.5)));
    assert!(!beam_shows(true, true, s(0.0)));
    assert!(!beam_shows(false, true, s(0.5)));
}

#[test]
fn a_beam_pushes_and_tells_the_server() {
    let hit = BeamHit {
        primary_dist: s(4.0),
        impulse_info: Some(ImpulseInfo { direction: AHEAD, entity: e(5) }),
        bent: None,
    };
    let frame = cast_beam(v(0.0, 1.0, 0.0), AHEAD, s(0.5), s(3.0), s(0.25), hit);
    assert_eq!(f(frame.message.magnitude), 80.0 * 0.5 * 0.25);
    assert_eq!(f(frame.message.damage), 30.0 * 0.5 * 0.25);
    assert_eq!(f(frame.message.range), 30.0);
    assert!(near(frame.push.unwrap().impulse, 0.0, 0.0, -10.0));
    let drawn = magic::lens_draw(s(3.0), s(0.5), s(0.25), hit);
    assert!(near(drawn.push.unwrap().impulse, 0.0, 0.0, -10.0));
    assert_eq!(f(drawn.start_radius), 0.1);
    assert_eq!(magic::burst_draw(hit).push, None);
}

#[test]
fn a_frustum_has_two_triangles_for_each_side() {
    assert_eq!(
        build_frustum_indices(3),
        vec![0, 1, 3, 0, 3, 2, 2, 3, 5, 2, 5, 4, 4, 5, 1, 4, 1, 0]
    );
    assert_eq!(build_frustum_indices(0), Vec::<u32>::new());
}

#[test]
fn a_beam_is_as_wide_and_long_as_told() {
    let mut spokes = Vec::new();
    for i in 0..BEAM_SEGMENTS {
        let angle = f(spoke_angle(i, BEAM_SEGMENTS));
        assert_eq!(angle, i as f32 * std::f32::consts::TAU / BEAM_SEGMENTS as f32);
        let (sine, cosine) = angle.sin_cos();
        spokes.push(Spoke { sine: s(sine), cosine: s(cosine) });
    }
    let mesh = build_frustum_mesh(&spokes, s(0.5), s(2.0), s(7.0));
    assert_eq!(mesh.sides.positions.len(), 48);
    assert_eq!(mesh.indices, build_frustum_indices(BEAM_SEGMENTS));
    let quarter = f(spoke_angle(6, BEAM_SEGMENTS)).sin_cos();
    assert_eq!(mesh.sides.positions[12], v(0.5 * quarter.1, 0.5 * quarter.0, 0.0));
    assert_eq!(mesh.sides.positions[13], v(2.0 * quarter.1, 2.0 * quarter.0, -7.0));
    assert_eq!(mesh.sides.normals[12], v(quarter.1, quarter.0, 0.0));
    assert_eq!(mesh.sides.normals[13], mesh.sides.normals[12]);
    assert!(mesh.indices.iter().all(|k| (*k as usize) < mesh.sides.positions.len()));
    let longer = rewrite_frustum(&spokes, s(0.5), s(2.0), s(9.0));
    assert_eq!(longer.positions[1], v(2.0, 0.0, -9.0));
    assert_eq!(longer.normals, mesh.sides.normals);
}

fn parts(color: ColorDef) -> [f32; 4] {
    [f(color.r), f(color.g), f(color.b), f(color.a)]
}

#[test]
fn nothing_about_the_lens_shows_at_first() {
    let hud = spawn();
    assert!(!hud.text.shown && !hud.frame.shown);
    assert_eq!((f(hud.text.left), f(hud.text.top), f(hud.text.width)), (-60.0, 96.0, 120.0));
    assert_eq!(hud.text.height, None);
    assert_eq!(parts(hud.text_color), [0.7, 0.7, 0.7, 0.85]);
    assert_eq!((f(hud.frame.left), f(hud.frame.top)), (-36.0, -84.0));
    let sides: Vec<[f32; 4]> = hud
        .borders
        .iter()
        .map(|side| [f(side.left), f(side.top), f(side.width), f(side.height.unwrap())])
        .collect();
    assert_eq!(
        sides,
        vec![
            [0.0, 0.0, 72.0, 1.5],
            [0.0, 166.5, 72.0, 1.5],
            [0.0, 0.0, 1.5, 168.0],
            [70.5, 0.0, 1.5, 168.0],
        ]
    );
    assert_eq!(parts(hud.borders[3].color.unwrap()), [0.85, 0.85, 0.85, 0.55]);
    assert_eq!(hud.dots.len(), MAX_LANTERN_DOTS);
    assert!(hud.dots.iter().all(|dot| !dot.shown && f(dot.left) == -3.0 && f(dot.width) == 6.0));
}

#[test]
fn the_screen_follows_the_lens() {
    let power = compute_lens_power(vec![
        seen(1, true, 7.0),
        seen(2, false, 1.0),
        seen(3, true, 2.0),
        seen(4, true, 9.0),
    ]);
    let lens = SpellId::new("iris");
    let text = update_lumen_text(&lens, &power).unwrap();
    let LumenReadout::Lumens { warmth, .. } = text.readout else { panic!("{:?}", text) };
    let w = f(warmth);
    assert_eq!(parts(text.color), [1.0, 0.85 + 0.15 * w, 0.55 + 0.45 * (1.0 - w), 0.85]);
    let view = update_alignment_indicator(&lens, &power);
    assert!(view.boxed);
    let looks: Vec<DotLook> = view.dots.iter().map(|dot| dot.unwrap().look).collect();
    assert_eq!(looks, vec![DotLook::Aligned, DotLook::Misaligned, DotLook::Active]);
    assert_eq!(parts(dot_color(looks[2])), [1.0, 0.9, 0.4, 0.95]);
    assert_eq!(parts(dot_color(looks[1])), [1.0, 0.35, 0.35, 0.9]);

    let dark = compute_lens_power(vec![]);
    let text = update_lumen_text(&lens, &dark).unwrap();
    assert_eq!(text.readout, LumenReadout::OutOfRange);
    assert_eq!(parts(text.color), [0.5, 0.5, 0.5, 0.6]);
    let view = update_alignment_indicator(&lens, &dark);
    assert!(!view.boxed);
    assert_eq!(view.dots, vec![None; MAX_LANTERN_DOTS]);

    let other = SpellId::new("portal");
    assert_eq!(update_lumen_text(&other, &power), None);
    let view = update_alignment_indicator(&other, &power);
    assert!(!view.boxed);
    assert_eq!(view.dots, vec![None; MAX_LANTERN_DOTS]);
}

#[test]
fn the_bar_grows_with_the_charge() {
    let boxes = spawn_charge_bar();
    assert_eq!((f(boxes.back.left), f(boxes.back.top)), (-60.0, 124.0));
    assert!(!boxes.back.shown);
    let bar = ChargeBar { ratio: s(0.25), full: false };
    let shown = show_charge_bar(boxes, Some(bar));
    assert!(shown.back.shown);
    assert_eq!(f(shown.fill.width), 30.0);
    let color = parts(shown.fill.color.unwrap());
    assert_eq!(color, [1.0, 0.75 + 0.25 * 0.25, 0.4 + 0.5 * 0.25, 0.95]);
    let hidden = show_charge_bar(shown, None);
    assert!(!hidden.back.shown);
    assert_eq!(hidden.fill, shown.fill);
}

#[test]
fn the_mark_tells_whether_a_call_would_do() {
    let mark = spawn_frost_spire_indicator();
    assert_eq!((f(mark.left), f(mark.top), f(mark.width)), (-5.0, 30.0, 10.0));
    assert!(!mark.shown);
    let ready = show_indicator(mark, Some(true));
    assert!(ready.shown);
    assert_eq!(parts(ready.color.unwrap()), [0.45, 0.85, 1.0, 0.95]);
    let unready = show_indicator(mark, Some(false));
    assert_eq!(parts(unready.color.unwrap()), [0.35, 0.1, 0.15, 0.7]);
    assert!(!show_indicator(ready, None).shown);
}

#[test]
fn the_readout_tells_the_power() {
    assert_eq!(lumen_readout(false, true, s(1.0), s(1.0)), LumenReadout::OutOfRange);
    assert_eq!(lumen_readout(true, false, s(1.0), s(1.0)), LumenReadout::Misaligned);
    assert_eq!(
        lumen_readout(true, true, s(899.5), s(0.75)),
        LumenReadout::Lumens { lumens: 900, warmth: s(0.75) }
    );
    let dot = alignment_dot(seen(1, true, 1.0), Some(e(1)));
    assert_eq!((f(dot.left), f(dot.top)), (-3.0, -3.0));
    assert_eq!(dot.look, DotLook::Active);
    assert_eq!(alignment_dot(seen(1, true, 1.0), None).look, DotLook::Aligned);
    let off = LensSource { yaw_offset: s(9.0), ..seen(1, false, 1.0) };
    let dot = alignment_dot(off, Some(e(1)));
    assert_eq!(f(dot.left), -3.0 + 1.6 * 36.0);
    assert_eq!(dot.look, DotLook::Misaligned);
    assert!(shows_lens_readouts(&SpellId::new("convex_lens")));
    assert!(!shows_lens_readouts(&SpellId::new("portal")));
}

fn released(charge: f32) -> Option<CastInstance> {
    Some(CastInstance {
        phase: CastPhase::Releasing,
        captured_charge: Some(s(charge)),
        ..CastInstance::idle()
    })
}

#[test]
fn the_iris_bursts_with_enough_charge() {
    let mut burst = IrisBurst { burst_charge: s(0.0), burst_timer: s(0.0) };
    assert_eq!(apply_burst_on_release(&mut burst, released(0.04)), None);
    assert_eq!(apply_burst_on_release(&mut burst, None), None);
    assert_eq!(apply_burst_on_release(&mut burst, released(2.0)), Some(s(2.0)));
    assert_eq!(f(burst.burst_timer), 0.12);
    let msg = burst_message(v(0.0, 1.0, 0.0), AHEAD, s(2.0));
    assert_eq!((f(msg.magnitude), f(msg.damage), f(msg.range)), (300.0, 44.0, 30.0));
    let hit = BeamHit {
        primary_dist: s(4.0),
        impulse_info: Some(ImpulseInfo { direction: AHEAD, entity: e(5) }),
        bent: None,
    };
    assert!(near(burst_push(hit, s(2.0)).unwrap().impulse, 0.0, 0.0, -300.0));
    assert!(near(magic::release_push(hit, s(2.0)).unwrap().impulse, 0.0, 0.0, -300.0));
    assert!(!drive_iris_flash(&mut burst, false, s(0.0625)));
    assert!(drive_iris_flash(&mut burst, true, s(0.0625)));
    assert!(drive_iris_flash(&mut burst, true, s(0.0625)));
    assert_eq!(f(burst.burst_timer), 0.0);
    assert!(!drive_iris_flash(&mut burst, true, s(0.0625)));
}

#[test]
fn a_charge_does_not_outlast_its_spell() {
    let mut iris = magic::IrisState { charge: s(2.0), burst_charge: s(0.0), burst_timer: s(0.1) };
    let show = magic::cast_beam(
        WheelSpell::Portal,
        InputMode::Player,
        true,
        s(1.0),
        true,
        s(0.5),
        &mut iris,
    );
    assert_eq!(show, magic::BeamShow::Hidden);
    assert_eq!((f(iris.charge), f(iris.burst_timer)), (0.0, 0.0));
}

#[test]
fn the_iris_gathers_and_loses_charge() {
    let mut iris = magic::IrisState::default();
    let frame = |channeling: bool, power: f32, iris: &mut magic::IrisState| {
        magic::cast_beam(
            WheelSpell::Iris,
            InputMode::Player,
            channeling,
            s(power),
            channeling,
            s(0.5),
            iris,
        )
    };
    frame(true, 1.0, &mut iris);
    assert_eq!(f(iris.charge), 0.5);
    frame(true, 10.0, &mut iris);
    assert_eq!(f(iris.charge), 3.0);
    frame(false, 1.0, &mut iris);
    assert_eq!(f(iris.charge), 2.0);
    let mut channeling = true;
    assert_eq!(magic::on_fire_end(WheelSpell::Iris, &mut channeling, &mut iris), Some(s(2.0)));
    assert!(!channeling);
    assert_eq!((f(iris.charge), f(iris.burst_charge)), (0.0, 2.0));
    assert_eq!(frame(false, 0.0, &mut iris), magic::BeamShow::Burst);
    assert_eq!(frame(false, 0.0, &mut iris), magic::BeamShow::Hidden);
    assert_eq!(magic::on_fire_end(WheelSpell::Iris, &mut channeling, &mut iris), None);
    assert_eq!(magic::on_fire_end(WheelSpell::Portal, &mut channeling, &mut iris), None);
}

#[test]
fn a_carried_portal_is_let_go_of_once() {
    let channeling = Some(CastInstance { phase: CastPhase::Channeling, ..CastInstance::idle() });
    let carrier =
        Carrier { eye: v(0.0, 1.0, 0.0), forward: AHEAD, yaw: s(0.5), pitch: s(0.25) };
    let mut tx = HandheldTx { primary_active: false, secondary_active: false };
    let (first, second) = drive_handheld_portal_messages(&mut tx, channeling, None, carrier);
    assert_eq!(first.unwrap().position, v(0.0, 1.0, -2.0));
    assert!(first.unwrap().active);
    assert_eq!(second, None);
    let (first, _) = drive_handheld_portal_messages(&mut tx, None, None, carrier);
    assert!(!first.unwrap().active);
    assert_eq!(drive_handheld_portal_messages(&mut tx, None, None, carrier), (None, None));
    let turned = sync_handheld_portal_rotation(Quat::identity(), Quat::identity());
    assert!(near(turned.rotate(v(0.0, 1.0, 0.0)), 0.0, 0.0, 1.0));
}

fn charging_spell() -> SpellCatalog {
    let cast = CastDef {
        id: CastId("fireball.throw".to_string()),
        label: "Throw".to_string(),
        requires_active: true,
        trigger: TriggerDef::PressReleaseCharged { action: ActionRef::Fire },
        conditions: vec![],
        charging: ChargingDef::Charging {
            source: ChargeSource::Time { duration: s(1.0) },
            min_release: s(0.5),
            max_charge: s(2.0),
            decay_rate: s(0.0),
            overcharge: None,
        },
        cooldown: s(0.0),
        origin: OriginDef::Wand,
        target: TargetDef::default(),
        payload: PayloadDef::Custom { handler: HandlerId("none".to_string()) },
        effect: EffectDef::NoEffect,
    };
    let mut catalog = SpellCatalog::new();
    catalog.insert_for_test(SpellDef {
        id: SpellId::new("fireball"),
        label: "Fireball".to_string(),
        icon: None,
        tint: Some(ColorDef { r: s(1.0), g: s(0.5), b: s(0.25), a: s(1.0) }),
        casts: vec![cast],
    });
    catalog
}

fn charging(charge: f32) -> CastState {
    let mut state = CastState::new();
    let instance = CastInstance {
        phase: CastPhase::Charging,
        charge: s(charge),
        ..CastInstance::idle()
    };
    state.instances.insert("fireball.throw".to_string(), instance);
    state
}

#[test]
fn the_bar_shows_the_charge() {
    let catalog = charging_spell();
    let fireball = SpellId::new("fireball");
    let bar = update_charge_bar(&catalog, &fireball, &charging(1.0)).unwrap();
    assert_eq!(f(bar.ratio), 0.5);
    let empty = update_charge_bar(&catalog, &fireball, &CastState::new()).unwrap();
    assert_eq!((f(empty.ratio), empty.full), (0.0, false));
    assert!(update_charge_bar(&catalog, &SpellId::new("other"), &charging(1.0)).is_none());
    let full = update_charge_bar(&catalog, &fireball, &charging(2.0)).unwrap();
    assert_eq!((f(full.ratio), f(bar_warmth(full))), (1.0, 1.0));
}

#[test]
fn an_orb_shows_the_charge() {
    let catalog = charging_spell();
    let fireball = SpellId::new("fireball");
    let now = current_charge_state(&catalog, &fireball, &charging(1.0));
    assert_eq!(f(now.unwrap().ratio), 0.5);
    assert_eq!(now.unwrap().tint, v(1.0, 0.5, 0.25));
    assert_eq!(current_charge_state(&catalog, &fireball, &CastState::new()), None);

    let spell = catalog.get(&fireball).unwrap();
    let act = |now, orb, anchored| update_local_charge_orb(spell, now, orb, anchored);
    assert!(matches!(act(now, None, true), OrbAction::Spawn { cast: 0, .. }));
    assert_eq!(act(now, None, false), OrbAction::Nothing);
    assert!(matches!(act(now, Some("fireball.throw"), true), OrbAction::Update { .. }));
    assert_eq!(act(None, Some("fireball.throw"), true), OrbAction::Despawn);
    assert_eq!(act(None, None, true), OrbAction::Nothing);

    let look = orb_look(v(1.0, 0.5, 0.0), s(1.0));
    assert_eq!(look.emissive, v(8.0, 4.0, 0.0));
    assert_eq!(f(look.light), 60000.0);
    assert_eq!(f(orb_look(v(1.0, 0.5, 0.0), s(0.0)).light), 800.0);
    assert_eq!(orb_tint(None), v(1.0, 0.95, 0.7));
}

#[test]
fn the_end_of_a_charge_is_told_once() {
    let catalog = charging_spell();
    let now = current_charge_state(&catalog, &SpellId::new("fireball"), &charging(1.0));
    let mut tx = LocalChargeTx { was_active: false };
    assert!(send_local_charge_state(&mut tx, now).unwrap().active);
    assert!(!send_local_charge_state(&mut tx, None).unwrap().active);
    assert_eq!(send_local_charge_state(&mut tx, None), None);
}

#[test]
fn the_charges_of_others_are_shown() {
    let off = RemoteChargeState { active: false, ratio: s(0.0), tint: v(0.0, 0.0, 0.0) };
    let mut players = vec![
        RemoteCharger { player: e(1), owner: 7, state: off },
        RemoteCharger { player: e(2), owner: 8, state: off },
    ];
    let word = |client: u64| ChargeStateBroadcast {
        client_id: client,
        active: true,
        ratio: s(0.5),
        tint: v(1.0, 0.0, 0.0),
    };
    drain_charge_broadcasts(&mut players, Some(7), &vec![word(7), word(8)]);
    assert!(!players[0].state.active && players[1].state.active);
    assert!(orb_is_due(Some(e(2)), &vec![], Some(players[1].state)));
    assert!(!orb_is_due(Some(e(2)), &vec![e(2)], Some(players[1].state)));
    assert!(!orb_is_due(None, &vec![], Some(players[1].state)));
    assert!(!orb_is_due(Some(e(1)), &vec![], Some(players[0].state)));
    assert!(orb_stays(Some(players[1].state)) && !orb_stays(None));
    let chain = vec![
        Ancestor { entity: e(5), is_body: true, is_player: false },
        Ancestor { entity: e(6), is_body: false, is_player: true },
    ];
    assert_eq!(find_remote_player(&chain), Some(e(6)));
    assert_eq!(find_remote_player(&vec![]), None);
}

#[test]
fn rays_go_through_who_sends_them() {
    let ray = lens_ray(v(0.0, 1.0, 0.0), AHEAD, &vec![e(1), e(2)], e(7));
    assert_eq!((ray.origin, ray.direction), (v(0.0, 1.0, 0.0), AHEAD));
    assert_eq!(f(ray.range), 30.0);
    assert_eq!(ray.ignored, vec![e(1), e(2), e(7)]);

    let ray = spire_ray(v(0.0, 1.0, 0.0), v(0.0, 0.0, -3.0), e(7)).unwrap();
    assert!(near(ray.direction, 0.0, 0.0, -1.0));
    assert_eq!((f(ray.range), ray.ignored), (60.0, vec![e(7)]));
    assert!(spire_ray(v(0.0, 1.0, 0.0), v(0.0, 0.0, 0.0), e(7)).is_none());

    let tiles = vec![tile(11, v(0.0, 0.0, 0.0), 0.45, None), tile(12, v(1.0, 0.0, 0.0), 0.45, None)];
    let ray = trail_ray(v(0.0, 1.0, 0.0), e(3), &tiles);
    assert_eq!(ray.direction, v(0.0, -1.0, 0.0));
    assert_eq!((f(ray.range), ray.ignored), (4.0, vec![e(3), e(11), e(12)]));

    let aim = Some(Aim { position: v(1.0, 0.0, 0.0), forward: AHEAD });
    let ray = cast_ray(aim, s(12.0), e(7)).unwrap();
    assert_eq!((ray.origin, f(ray.range), ray.ignored), (v(1.0, 0.0, 0.0), 12.0, vec![e(7)]));
    assert!(cast_ray(None, s(12.0), e(7)).is_none());
}

#[test]
fn balls_are_shown_as_large_as_they_are() {
    let mut props = vec![
        ScaledProp { net_id: 1, scale: s(1.0) },
        ScaledProp { net_id: 2, scale: s(1.0) },
    ];
    let news = vec![
        GlacierScaleBroadcast { net_id: 2, scale: s(3.0) },
        GlacierScaleBroadcast { net_id: 9, scale: s(5.0) },
        GlacierScaleBroadcast { net_id: 1, scale: s(0.0) },
        GlacierScaleBroadcast { net_id: 2, scale: s(4.0) },
    ];
    apply_glacier_scale_broadcasts(&news, &mut props);
    assert_eq!((f(props[0].scale), f(props[1].scale)), (0.01, 4.0));
}

#[test]
fn a_spell_without_a_color_has_a_warm_one() {
    let catalog = charging_spell();
    assert_eq!(lookup_tint(&catalog, &SpellId::new("fireball")), v(1.0, 0.5, 0.25));
    assert_eq!(lookup_tint(&catalog, &SpellId::new("other")), v(1.0, 0.95, 0.7));
}

use bevy::math::{Mat3, Quat as EngineQuat, Vec3 as EngineVec3};
use bevy::prelude::Transform;
use wisp::entity::Entity;
use wisp::net::protocol::NetworkedPortal;
use wisp::net::server_portals::{
    server_portal_teleport, update_networked_player_falling, update_networked_prop_falling,
    update_prev_portal_pose, ServerPortal,
};
use wisp::physics::{CollisionLayers, GameLayer, ALL_LAYERS};
use wisp::player::spells::SpellId;
use wisp::scalar::Scalar;
use wisp::spatial;
use wisp::spells::portal::{
    carried_position, carried_rotation, carried_velocity, cleanup_orphan_portal_cameras,
    disc_axes, disc_rotation, find_pair, heading, limited_pitch, needs_x_flip, on_networked_portal_replicated,
    pitch_sine, place_portal, place_portal_handler, player_layers, portal_ray,
    portal_texture_size, portal_virtual_transform, process_teleports, process_traveler_teleports,
    retain_lockout, traveler_layers, update_player_falling,
    update_portal_cameras, update_traveler_falling, velocity_at_exit, view_pose, CameraUpdate, HalfTurns,
    Portal, PortalCamera, PortalSlot, SurfaceHit, Traveler,
};
use wisp::vector::{from_axes, looking, Pose, Quat, Vec3};

const PI: f32 = std::f32::consts::PI;

fn s(x: f32) -> Scalar {
    Scalar::from_bits(x.to_bits())
}

fn f(x: Scalar) -> f32 {
    f32::from_bits(x.to_bits())
}

fn v(x: f32, y: f32, z: f32) -> Vec3 {
    Vec3::new(s(x), s(y), s(z))
}

fn e(bits: u64) -> Entity {
    Entity { bits }
}

fn q(a: EngineQuat) -> Quat {
    Quat { x: s(a.x), y: s(a.y), z: s(a.z), w: s(a.w) }
}

fn vec3(a: EngineVec3) -> Vec3 {
    v(a.x, a.y, a.z)
}

fn near(a: Vec3, x: f32, y: f32, z: f32) -> bool {
    (f(a.x) - x).abs() < 1e-4 && (f(a.y) - y).abs() < 1e-4 && (f(a.z) - z).abs() < 1e-4
}

fn turns() -> HalfTurns {
    HalfTurns {
        x: q(EngineQuat::from_rotation_x(PI)),
        y: q(EngineQuat::from_rotation_y(PI)),
        z: q(EngineQuat::from_rotation_z(PI)),
    }
}

/// A disc whose face looks along `+z`, moved there.
fn upright() -> EngineQuat {
    EngineQuat::from_rotation_x(PI / 2.0)
}

fn portal(bits: u64, slot: PortalSlot, at: Vec3, rotation: EngineQuat) -> Portal {
    let pose = Pose { translation: at, rotation: q(rotation) };
    Portal { entity: e(bits), slot, pose, prev: pose }
}

/// Two doors that face each other: one at `z = -5` looking back, one at `z = 5`
/// looking ahead.
fn doors() -> Vec<Portal> {
    vec![
        portal(1, PortalSlot::Primary, v(0.0, 1.0, -5.0), upright()),
        portal(
            2,
            PortalSlot::Secondary,
            v(0.0, 1.0, 5.0),
            EngineQuat::from_rotation_y(PI) * upright(),
        ),
    ]
}

/// Two trapdoors in the floor.
fn trapdoors() -> Vec<Portal> {
    vec![
        portal(1, PortalSlot::Primary, v(-5.0, 0.0, 0.0), EngineQuat::IDENTITY),
        portal(2, PortalSlot::Secondary, v(5.0, 0.0, 0.0), EngineQuat::IDENTITY),
    ]
}

fn body(from: Vec3, to: Vec3, velocity: Vec3) -> Traveler {
    Traveler {
        entity: e(9),
        pose: Pose { translation: to, rotation: Quat::identity() },
        velocity,
        prev: Some(from),
        lockout: vec![],
    }
}

fn server(portals: &Vec<Portal>) -> Vec<ServerPortal> {
    portals.iter().map(|p| ServerPortal { portal: *p, disc: p.pose.rotation }).collect()
}

#[test]
fn a_disc_looks_along_its_normal() {
    for normal in [v(0.0, 1.0, 0.0), v(0.0, 0.0, 1.0), v(1.0, 0.0, 0.0), v(0.6, 0.0, -0.8)] {
        let axes = disc_axes(normal).unwrap();
        assert!(near(disc_rotation(normal).rotate(v(0.0, 1.0, 0.0)), f(normal.x), f(normal.y), f(normal.z)));
        assert!(near(axes.y, f(normal.x), f(normal.y), f(normal.z)));
        assert!(f(axes.x.dot(axes.y)).abs() < 1e-6);
        assert!(f(axes.y.dot(axes.z)).abs() < 1e-6);
        assert!((f(axes.x.length()) - 1.0).abs() < 1e-6);
        assert!(axes.x.cross(axes.y).minus(axes.z).length().lt(s(1e-6)));
    }
    assert_eq!(disc_axes(v(0.0, 0.0, 0.0)), None);
    assert_eq!(disc_rotation(v(0.0, 0.0, 0.0)), Quat::identity());
}

#[test]
fn rotations_with_given_axes_are_the_engines() {
    let mut x: u32 = 0x1234_5677;
    let mut next = || {
        x ^= x << 13;
        x ^= x >> 17;
        x ^= x << 5;
        x as f32 / u32::MAX as f32 * 2.0 - 1.0
    };
    for _ in 0..200 {
        let (a, b) = (
            EngineVec3::new(next(), next(), next()),
            EngineVec3::new(next(), next(), next()),
        );
        let turned = Transform::default().looking_to(a, b).rotation;
        assert_eq!(looking(vec3(a), vec3(b)), q(turned));
        let m = Mat3::from_quat(turned);
        let same = from_axes(vec3(m.x_axis), vec3(m.y_axis), vec3(m.z_axis));
        assert_eq!(same, q(EngineQuat::from_mat3(&m)));
    }
    let along = EngineVec3::new(0.0, 1.0, 0.0);
    let none = EngineVec3::ZERO;
    for (a, b) in [(along, along), (-along, along), (none, along), (along, none), (none, none)] {
        assert_eq!(looking(vec3(a), vec3(b)), q(Transform::default().looking_to(a, b).rotation));
    }
}

#[test]
fn the_way_through_is_what_the_engine_computes() {
    let mut x: u32 = 0x9e37_79b9;
    let mut next = || {
        x ^= x << 13;
        x ^= x >> 17;
        x ^= x << 5;
        (x >> 8) as f32 / (1u32 << 24) as f32 * 6.0 - 3.0
    };
    for _ in 0..50 {
        let entry_rot = EngineQuat::from_rotation_y(next()) * EngineQuat::from_rotation_x(next());
        let exit_rot = EngineQuat::from_rotation_y(next()) * EngineQuat::from_rotation_x(next());
        let (entry_at, exit_at, pos) = (
            EngineVec3::new(next(), next(), next()),
            EngineVec3::new(next(), next(), next()),
            EngineVec3::new(next(), next(), next()),
        );
        let (view, velocity) = (
            EngineQuat::from_rotation_y(next()),
            EngineVec3::new(next(), next(), next()),
        );
        let entry = Pose { translation: vec3(entry_at), rotation: q(entry_rot) };
        let exit = Pose { translation: vec3(exit_at), rotation: q(exit_rot) };

        let opposed = (entry_rot * EngineVec3::Y)
            .normalize_or_zero()
            .dot((exit_rot * EngineVec3::Y).normalize_or_zero())
            < -0.5;
        assert_eq!(needs_x_flip(q(entry_rot), q(exit_rot)), opposed);

        let mut local = entry_rot.inverse() * (pos - entry_at);
        if opposed {
            local.x = -local.x;
        }
        if (exit_rot * EngineVec3::Y).normalize_or_zero().y >= 0.7 {
            local.y = local.y.abs();
        }
        let out = exit_at + exit_rot * local;
        assert!(carried_position(vec3(pos), entry, exit).equals(vec3(out)));

        let flip = if opposed {
            EngineQuat::from_rotation_z(PI)
        } else {
            EngineQuat::from_rotation_x(PI)
        };
        let fast = exit_rot * flip * entry_rot.inverse() * velocity;
        let ours = carried_velocity(vec3(velocity), q(entry_rot), q(exit_rot), turns());
        assert!(near(ours, fast.x, fast.y, fast.z));

        let turned = if opposed {
            exit_rot * EngineQuat::from_rotation_z(PI) * entry_rot.inverse() * view
        } else {
            exit_rot * entry_rot.inverse() * view
        };
        let ours = carried_rotation(q(view), q(entry_rot), q(exit_rot), turns());
        assert!((f(ours.x) - turned.x).abs() < 1e-5 && (f(ours.w) - turned.w).abs() < 1e-5);

        let seen = EngineQuat::from_rotation_z(PI)
            * (entry_rot.inverse() * (view * EngineVec3::NEG_Z));
        let eye = exit_at
            + exit_rot * (EngineQuat::from_rotation_y(PI) * (entry_rot.inverse() * (pos - entry_at)));
        let forward = exit_rot * seen;
        let viewer = Pose { translation: vec3(pos), rotation: q(view) };
        let ours = portal_virtual_transform(viewer, entry, exit, turns());
        assert!(near(ours.position, eye.x, eye.y, eye.z));
        assert!(near(ours.forward, forward.x, forward.y, forward.z));
    }
}

#[test]
fn a_view_keeps_its_side_and_leads_back() {
    let exact = |x: f32, y: f32, z: f32| Quat { x: s(x), y: s(y), z: s(z), w: s(0.0) };
    let exactly = HalfTurns {
        x: exact(1.0, 0.0, 0.0),
        y: exact(0.0, 1.0, 0.0),
        z: exact(0.0, 0.0, 1.0),
    };
    let place = v(1.25, -3.5, 0.1);
    assert!(exactly.y.rotate(place).equals(v(-1.25, -3.5, -0.1)));
    assert!(exactly.z.rotate(place).equals(v(-1.25, 3.5, 0.1)));
    assert!(exactly.y.rotate(exactly.y.rotate(place)).equals(place));
    assert!(exactly.z.rotate(exactly.z.rotate(place)).equals(place));

    let (entry_rot, exit_rot) = (EngineQuat::from_rotation_x(1.1), EngineQuat::from_rotation_z(0.4));
    let entry = Pose { translation: v(1.0, 2.0, 3.0), rotation: q(entry_rot) };
    let exit = Pose { translation: v(-4.0, 0.5, 2.0), rotation: q(exit_rot) };
    let view = EngineQuat::from_rotation_y(0.7) * EngineQuat::from_rotation_x(0.2);
    let viewer = Pose { translation: v(2.0, 3.5, 2.5), rotation: q(view) };
    let height = |at: Vec3, disc: Pose, turned: EngineQuat| {
        let d = at.minus(disc.translation);
        EngineVec3::new(f(d.x), f(d.y), f(d.z)).dot(turned * EngineVec3::Y)
    };
    for turns in [turns(), exactly] {
        let there = portal_virtual_transform(viewer, entry, exit, turns);
        let before = height(viewer.translation, entry, entry_rot);
        let behind = height(there.position, exit, exit_rot);
        assert!((before - behind).abs() < 1e-5);
        let forward = EngineVec3::new(f(there.forward.x), f(there.forward.y), f(there.forward.z));
        let looking = EngineQuat::from_rotation_arc(EngineVec3::NEG_Z, forward.normalize());
        let other = Pose { translation: there.position, rotation: q(looking) };
        let back = portal_virtual_transform(other, exit, entry, turns);
        assert!(near(back.position, 2.0, 3.5, 2.5));
        let ahead = view * EngineVec3::NEG_Z;
        assert!(near(back.forward, ahead.x, ahead.y, ahead.z));
    }
}

#[test]
fn who_looks_along_a_view_sees_back_as_the_viewer_did() {
    let level = EngineQuat::from_rotation_y(0.7);
    let tilted = level * EngineQuat::from_rotation_x(0.2);
    // From a wall to a wall, and from a wall to the floor: there the view is straight up.
    let ways = [
        (upright(), EngineQuat::from_rotation_y(2.0) * upright(), tilted),
        (upright(), EngineQuat::IDENTITY, EngineQuat::IDENTITY),
        (EngineQuat::from_rotation_y(0.7) * upright(), EngineQuat::from_rotation_z(PI), level),
    ];
    for (entry_rot, exit_rot, view) in ways {
        let entry = Pose { translation: v(1.0, 2.0, 3.0), rotation: q(entry_rot) };
        let exit = Pose { translation: v(-4.0, 0.5, 2.0), rotation: q(exit_rot) };
        let viewer = Pose { translation: v(2.0, 3.5, 2.5), rotation: q(view) };
        let there = portal_virtual_transform(viewer, entry, exit, turns());
        let other = view_pose(there);
        assert_eq!(other.translation, there.position);
        let along = other.rotation.rotate(v(0.0, 0.0, -1.0));
        assert!(near(along, f(there.forward.x), f(there.forward.y), f(there.forward.z)));
        let back = portal_virtual_transform(other, exit, entry, turns());
        assert!(near(back.position, 2.0, 3.5, 2.5));
        let ahead = view * EngineVec3::NEG_Z;
        assert!(near(back.forward, ahead.x, ahead.y, ahead.z));
    }
    // Straight up, the level way that the viewer looks is up.
    let entry = Pose { translation: v(1.0, 2.0, 3.0), rotation: q(upright()) };
    let exit = Pose { translation: v(-4.0, 0.5, 2.0), rotation: Quat::identity() };
    let viewer = Pose { translation: v(2.0, 3.5, 2.5), rotation: Quat::identity() };
    let there = portal_virtual_transform(viewer, entry, exit, turns());
    assert!(near(there.up, 0.0, 0.0, -1.0));
    assert!(f(there.forward.y).abs() > 0.999);
}

#[test]
fn one_portal_leads_nowhere() {
    let mut portals = doors();
    portals.pop();
    assert_eq!(find_pair(&portals), None);
    let mut thing = body(v(0.0, 1.0, -4.0), v(0.0, 1.0, -6.0), v(0.0, 0.0, -2.0));
    process_traveler_teleports(&portals, &mut thing, turns());
    assert_eq!(thing.pose.translation, v(0.0, 1.0, -6.0));
    assert_eq!(thing.prev, Some(v(0.0, 1.0, -6.0)));
    let mut thing = body(v(0.0, 1.0, -4.0), v(0.0, 1.0, -6.0), v(0.0, 0.0, -2.0));
    assert_eq!(server_portal_teleport(&server(&portals), &mut thing, false, turns()), None);
    assert_eq!(thing.pose.translation, v(0.0, 1.0, -6.0));
}

#[test]
fn the_later_of_two_portals_in_a_slot_counts() {
    let mut portals = doors();
    portals.push(portal(3, PortalSlot::Primary, v(9.0, 1.0, 0.0), upright()));
    let (first, second) = find_pair(&portals).unwrap();
    assert_eq!((first.entity, second.entity), (e(3), e(2)));
}

#[test]
fn a_body_goes_in_at_one_door_and_out_at_the_other() {
    let mut thing = body(v(0.5, 1.0, -4.5), v(0.5, 1.0, -5.5), v(0.0, 0.0, -2.0));
    process_traveler_teleports(&doors(), &mut thing, turns());
    assert!(near(thing.pose.translation, -0.5, 1.0, 4.5));
    assert!(near(thing.velocity, 0.0, 0.0, -2.0));
    assert_eq!(thing.lockout, vec![e(1), e(2)]);

    let mut thing = body(v(0.5, 1.0, -4.5), v(0.5, 1.0, -5.5), v(0.0, 0.0, -2.0));
    server_portal_teleport(&server(&doors()), &mut thing, false, turns());
    assert!(near(thing.pose.translation, 0.5, 1.0, 4.5));
    assert!(near(thing.velocity, 0.0, 0.0, -2.0));
    assert_eq!(thing.lockout, vec![e(1), e(2)]);
}

#[test]
fn a_player_who_comes_through_looks_along_the_view() {
    let mut thing = body(v(0.5, 1.0, -4.5), v(0.5, 1.0, -5.5), v(0.0, 0.0, -2.0));
    let view = server_portal_teleport(&server(&doors()), &mut thing, true, turns()).unwrap();
    assert_eq!(thing.pose.translation, view.position);
    assert_eq!(thing.pose.rotation, looking(view.forward, view.up));
    let along = thing.pose.rotation.rotate(v(0.0, 0.0, -1.0));
    assert!(near(along, f(view.forward.x), f(view.forward.y), f(view.forward.z)));
    assert_ne!(thing.pose.rotation, Quat::identity());
}

#[test]
fn what_misses_the_rim_goes_on() {
    let mut thing = body(v(1.5, 1.0, -4.5), v(1.5, 1.0, -5.5), v(0.0, 0.0, -2.0));
    process_traveler_teleports(&doors(), &mut thing, turns());
    assert_eq!(thing.pose.translation, v(1.5, 1.0, -5.5));
    assert_eq!(thing.lockout, vec![]);
    let mut thing = body(v(1.5, 1.0, -4.5), v(1.5, 1.0, -5.5), v(0.0, 0.0, -2.0));
    server_portal_teleport(&server(&doors()), &mut thing, false, turns());
    assert_eq!(thing.pose.translation, v(1.5, 1.0, -5.5));
}

#[test]
fn what_came_out_does_not_go_back_at_once() {
    let mut thing = body(v(0.0, 1.0, 4.5), v(0.0, 1.0, 5.5), v(0.0, 0.0, 2.0));
    thing.lockout = vec![e(2)];
    server_portal_teleport(&server(&doors()), &mut thing, false, turns());
    assert_eq!(thing.pose.translation, v(0.0, 1.0, 5.5));
    assert_eq!(thing.lockout, vec![e(2)]);

    let mut thing = body(v(0.0, 1.0, 4.5), v(0.0, 1.0, 5.5), v(0.0, 0.0, 2.0));
    thing.lockout = vec![e(2)];
    process_traveler_teleports(&doors(), &mut thing, turns());
    assert_eq!(thing.pose.translation, v(0.0, 1.0, 5.5));
}

#[test]
fn what_moved_away_may_go_in_again() {
    let portals = doors();
    let mut lockout = vec![e(1), e(2), e(7)];
    retain_lockout(&portals, v(0.0, 1.0, -3.0), &mut lockout);
    assert_eq!(lockout, vec![e(1)]);
    retain_lockout(&portals, v(0.0, 1.0, -2.5), &mut lockout);
    assert_eq!(lockout, vec![]);
}

#[test]
fn what_rests_is_not_carried_by_a_portal_at_rest() {
    let mut thing = body(v(0.0, 1.0, -5.0), v(0.0, 1.0, -5.0), v(0.0, 0.0, 0.0));
    server_portal_teleport(&server(&doors()), &mut thing, false, turns());
    assert_eq!(thing.pose.translation, v(0.0, 1.0, -5.0));
}

#[test]
fn a_portal_that_sweeps_over_a_body_takes_it() {
    let mut portals = doors();
    portals[0].pose.translation = v(0.0, 1.0, -3.0);
    let mut thing = body(v(0.0, 1.0, -4.0), v(0.0, 1.0, -4.0), v(0.0, 0.0, 0.0));
    server_portal_teleport(&server(&portals), &mut thing, false, turns());
    assert_eq!(thing.lockout, vec![e(1), e(2)]);
    assert!(near(thing.pose.translation, 0.0, 1.0, 4.0));

    let mut all = server(&portals);
    update_prev_portal_pose(&mut all);
    assert_eq!(all[0].portal.prev, all[0].portal.pose);
}

#[test]
fn a_new_portal_is_turned_by_its_normal() {
    let mut portals = server(&doors());
    for portal in portals.iter_mut() {
        portal.portal.pose.rotation = Quat::identity();
    }
    let mut thing = body(v(0.0, 1.0, -4.5), v(0.0, 1.0, -5.5), v(0.0, 0.0, -2.0));
    server_portal_teleport(&portals, &mut thing, false, turns());
    assert_eq!(thing.lockout, vec![e(1), e(2)]);
}

#[test]
fn a_player_on_the_server_sees_out_of_the_exit() {
    let mut player = body(v(0.0, 1.0, -4.5), v(0.0, 1.0, -5.5), v(0.0, 0.0, -2.0));
    let view = server_portal_teleport(&server(&doors()), &mut player, true, turns()).unwrap();
    assert!(near(view.forward, 0.0, 0.0, -1.0));
    assert_eq!(player.pose.translation, view.position);
    assert_eq!(player.pose.rotation, looking(view.forward, view.up));
}

#[test]
fn what_falls_through_a_trapdoor_flies_out_of_the_other() {
    let mut thing = body(v(-5.0, 0.5, 0.0), v(-5.0, -0.5, 0.0), v(0.0, -4.0, 0.0));
    process_traveler_teleports(&trapdoors(), &mut thing, turns());
    assert!(near(thing.pose.translation, 5.0, 0.5, 0.0));
    assert!(near(thing.velocity, 0.0, 4.0, 0.0));
}

#[test]
fn a_player_walks_through_a_door() {
    let camera = Quat::identity();
    let mut player = body(v(0.0, 1.0, -4.0), v(0.0, 1.0, -4.75), v(0.0, 0.0, -2.0));
    let crossing = process_teleports(&doors(), &mut player, camera, turns()).unwrap();
    assert!(!crossing.level);
    assert!(near(crossing.view.forward, 0.0, 0.0, -1.0));
    assert_eq!(player.lockout, vec![e(1), e(2)]);
    assert!(f(player.pose.translation.z) > 4.0);
    assert_eq!(velocity_at_exit(crossing, v(1.0, 2.0, 3.0)), v(0.0, 0.0, 0.0));

    let mut player = body(v(0.0, 1.0, -4.0), v(0.0, 1.0, -4.5), v(0.0, 0.0, -2.0));
    assert_eq!(process_teleports(&doors(), &mut player, camera, turns()), None);
    assert_eq!(player.prev, Some(v(0.0, 1.0, -4.5)));

    let mut player = body(v(0.0, 1.0, -4.0), v(0.0, 1.0, -4.75), v(0.0, 0.0, -2.0));
    player.prev = None;
    assert_eq!(process_teleports(&doors(), &mut player, camera, turns()), None);
}

#[test]
fn a_player_falls_through_a_trapdoor() {
    let mut player = body(v(-5.0, 0.5, 0.0), v(-5.0, -0.5, 0.0), v(0.0, -4.0, 0.0));
    let crossing =
        process_teleports(&trapdoors(), &mut player, Quat::identity(), turns()).unwrap();
    assert!(crossing.level);
    assert_eq!(velocity_at_exit(crossing, v(1.0, 2.0, 3.0)), v(1.0, 2.0, 3.0));
    assert!(near(player.pose.translation, 5.0, 0.0, 0.0));
}

#[test]
fn a_heading_is_the_sine_and_cosine_of_the_yaw() {
    let (sine, cosine) = heading(v(0.0, 0.0, -1.0)).unwrap();
    assert_eq!((f(sine), f(cosine)), (-0.0, 1.0));
    let (sine, cosine) = heading(v(-3.0, 7.0, 0.0)).unwrap();
    assert!((f(sine) - 1.0).abs() < 1e-6 && f(cosine).abs() < 1e-6);
    assert_eq!(heading(v(0.0, 1.0, 0.0)), None);
    assert_eq!(f(pitch_sine(v(0.0, 1.5, 0.0))), 1.0);
    assert_eq!(f(limited_pitch(s(2.0))), 85.0f32.to_radians());
    assert_eq!(f(limited_pitch(s(-2.0))), -85.0f32.to_radians());
}

#[test]
fn a_portal_sticks_to_what_it_meets_or_floats() {
    let eye = v(0.0, 1.0, 0.0);
    let forward = v(0.0, 0.0, -1.0);
    let hit = SurfaceHit { distance: s(4.0), normal: v(0.0, 0.0, 1.0) };
    let (at, normal) = place_portal(eye, forward, Some(hit)).unwrap();
    assert!(near(at, 0.0, 1.0, -3.98));
    assert_eq!(normal, v(0.0, 0.0, 1.0));
    let (at, normal) = place_portal(eye, forward, None).unwrap();
    assert!(near(at, 0.0, 1.0, -2.5));
    assert!(normal.equals(v(0.0, 0.0, 1.0)));
    assert_eq!(place_portal(eye, v(0.0, 0.0, 0.0), Some(hit)), None);
}

#[test]
fn the_picture_behind_a_portal_fits() {
    assert_eq!(portal_texture_size(800, 600), (800, 600));
    assert_eq!(portal_texture_size(1280, 1280), (1280, 1280));
    assert_eq!(portal_texture_size(2560, 1440), (1280, 720));
    assert_eq!(portal_texture_size(1440, 2560), (720, 1280));
    assert_eq!(portal_texture_size(0, 0), (1, 1));
    assert_eq!(portal_texture_size(100_000, 1), (1280, 1));
    let told = NetworkedPortal { slot: PortalSlot::Secondary, normal: v(0.0, 1.0, 0.0) };
    let look = on_networked_portal_replicated(told, 2560, 1440);
    assert_eq!(look.picture, (1280, 720));
    assert_eq!(look.rim, v(0.25, 0.85, 2.2));
    assert_eq!(look.rotation, disc_rotation(told.normal));
    let told = NetworkedPortal { slot: PortalSlot::Primary, ..told };
    assert_eq!(on_networked_portal_replicated(told, 1, 1).rim, v(1.5, 0.55, 0.12));
}

#[test]
fn the_cameras_follow_the_pair() {
    let viewer = Pose { translation: v(0.0, 1.0, 0.0), rotation: Quat::identity() };
    let updates = update_portal_cameras(&doors(), &vec![e(1), e(2), e(3)], viewer, turns());
    assert!(matches!(updates[0], CameraUpdate::On(_)));
    assert!(matches!(updates[1], CameraUpdate::On(_)));
    assert_eq!(updates[2], CameraUpdate::Keep);
    let one = vec![doors()[0]];
    assert_eq!(
        update_portal_cameras(&one, &vec![e(1)], viewer, turns()),
        vec![CameraUpdate::Off]
    );
    let cameras = vec![
        PortalCamera { camera: e(11), portal: e(1) },
        PortalCamera { camera: e(12), portal: e(2) },
    ];
    assert_eq!(cleanup_orphan_portal_cameras(&cameras, &vec![e(2)]), vec![cameras[0]]);
}

#[test]
fn the_floor_gives_way_over_a_trapdoor() {
    let over = v(-5.0, 1.0, 0.0);
    let beside = v(-3.0, 1.0, 0.0);
    let standing = player_layers(false);
    let falling = player_layers(true);
    assert_eq!(update_player_falling(&trapdoors(), over, standing, &vec![]), Some(falling));
    assert_eq!(update_player_falling(&trapdoors(), over, falling, &vec![]), None);
    assert_eq!(update_player_falling(&trapdoors(), over, falling, &vec![e(1)]), Some(standing));
    assert_eq!(update_player_falling(&trapdoors(), beside, falling, &vec![]), Some(standing));
    assert_eq!(update_player_falling(&doors(), v(0.0, 1.0, -5.0), standing, &vec![]), None);

    assert_eq!(falling.memberships, GameLayer::Player.bit());
    assert_eq!(falling.filters & GameLayer::Ground.bit(), 0);
    assert_eq!(falling.filters & GameLayer::Default.bit(), GameLayer::Default.bit());
    assert_eq!(standing.filters, ALL_LAYERS);

    let rest = traveler_layers(false);
    let (changed, falls) = update_traveler_falling(&trapdoors(), over, rest, &vec![]);
    assert_eq!(changed, Some(traveler_layers(true)));
    assert!(falls);
}

#[test]
fn on_the_server_it_takes_a_pair() {
    let over = v(-5.0, 1.0, 0.0);
    let standing = player_layers(false);
    let pair = trapdoors();
    assert!(update_networked_player_falling(&pair, over, standing, &vec![]).is_some());
    let one = vec![pair[0]];
    assert_eq!(update_networked_player_falling(&one, over, standing, &vec![]), None);
}

#[test]
fn a_body_goes_through_the_floor_or_the_wall() {
    let rest = CollisionLayers::new(GameLayer::Default, ALL_LAYERS);
    let through = |portals: &Vec<Portal>, pos: Vec3| {
        update_networked_prop_falling(portals, pos, rest, &vec![], s(1.0))
    };
    let floor = through(&trapdoors(), v(-5.0, 1.0, 0.0)).unwrap();
    assert_eq!(floor.filters & GameLayer::Ground.bit(), 0);
    assert_ne!(floor.filters & GameLayer::Default.bit(), 0);
    let wall = through(&doors(), v(0.0, 1.0, -4.5)).unwrap();
    assert_eq!(wall.filters & GameLayer::Default.bit(), 0);
    assert_eq!(through(&doors(), v(0.0, 1.0, 0.0)), None);
    assert_eq!(through(&doors(), v(0.0, 1.0, -3.5)), None);
}

#[test]
fn a_portal_of_the_wand_replaces_its_own() {
    let portals = doors();
    let eye = v(0.0, 1.0, 0.0);
    let forward = v(0.0, 0.0, -1.0);
    let placed =
        spatial::on_place_primary(SpellId::Portal, eye, forward, None, &portals).unwrap();
    assert_eq!(placed.slot, PortalSlot::Primary);
    assert_eq!(placed.gone, vec![e(1)]);
    let placed =
        spatial::on_place_secondary(SpellId::Portal, eye, forward, None, &portals).unwrap();
    assert_eq!(placed.slot, PortalSlot::Secondary);
    assert_eq!(placed.gone, vec![e(2)]);
    assert!(spatial::on_place_primary(SpellId::Iris, eye, forward, None, &portals).is_none());
}

#[test]
fn a_walker_is_pushed_out_of_the_other_door() {
    let mut walker = spatial::Walker {
        at: v(0.0, 1.0, -5.5),
        velocity: v(0.0, 0.0, -2.0),
        prev: Some(v(0.0, 1.0, -4.5)),
    };
    spatial::process_teleports(&doors(), &mut walker);
    assert!(near(walker.at, 0.0, 1.0, 4.1));
    assert!(near(walker.velocity, 0.0, 0.0, -3.0));
    assert_eq!(walker.prev, Some(walker.at));

    let mut still = spatial::Walker {
        at: v(0.0, 1.0, -5.0),
        velocity: v(0.0, 0.0, 0.0),
        prev: Some(v(0.0, 1.0, -5.0)),
    };
    spatial::process_teleports(&doors(), &mut still);
    assert_eq!(still.at, v(0.0, 1.0, -5.0));
}

#[test]
fn a_walker_steps_onto_a_trapdoor() {
    let mut walker = spatial::Walker {
        at: v(-4.0, 1.0, 0.0),
        velocity: v(-4.0, 0.0, 0.0),
        prev: Some(v(-3.0, 1.0, 0.0)),
    };
    spatial::process_teleports(&trapdoors(), &mut walker);
    assert!(near(walker.at, 5.0, 0.9, 0.0));
    assert!(near(walker.velocity, 0.0, 4.0, 0.0));
}

#[test]
fn a_portal_is_asked_for_where_the_player_looks() {
    let ray = portal_ray(v(0.0, 1.0, 0.0), v(0.0, 0.0, -1.0), &vec![e(1)], &vec![e(2)], e(7));
    let ray = ray.unwrap();
    assert_eq!((f(ray.range), ray.ignored), (15.0, vec![e(1), e(2), e(7)]));
    assert!(portal_ray(v(0.0, 1.0, 0.0), v(0.0, 0.0, 0.0), &vec![], &vec![], e(7)).is_none());
    let hit = SurfaceHit { distance: s(4.0), normal: v(0.0, 0.0, 1.0) };
    let request = place_portal_handler(
        PortalSlot::Secondary,
        v(0.0, 1.0, 0.0),
        v(0.0, 0.0, -1.0),
        Some(hit),
    )
    .unwrap();
    assert_eq!(request.slot, PortalSlot::Secondary);
    assert!(near(request.position, 0.0, 1.0, -3.98));
}

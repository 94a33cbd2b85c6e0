use wisp::entity::Entity;
use wisp::net::client::send_local_player_input;
use wisp::net::protocol::{
    lerp_networked_position, linear_velocity_should_rollback, position_should_rollback,
    rotation_should_rollback, yaw_between, BeamCastBroadcast, NetworkedPosition,
};
use wisp::net::replication::{
    beam_event, capture_networked_position_samples, cleanup_orphan_beam_meshes,
    drain_beam_broadcasts, drive_remote_animations, drive_remote_beam_visuals,
    hide_self_wizard_body, prop_color, sample_time, smooth_networked_transforms, yaw_step, BeamSlot,
    LocalBeamState, NetworkedPositionSmoothing, RemoteAnimState, RemoteBeamMesh, TraceArrivalKind,
};
use wisp::net::server::PeerId;
use wisp::player::controller::Facing;
use wisp::player::rig::RigNode;
use wisp::scalar::Scalar;
use wisp::spells::engine::{CastInstance, CastPhase, CastState};
use wisp::vector::{Vec2, Vec3};

const PI: f32 = std::f32::consts::PI;

fn s(x: f32) -> Scalar {
    Scalar::from_bits(x.to_bits())
}

fn f(x: Scalar) -> f32 {
    f32::from_bits(x.to_bits())
}

fn v(x: f32, y: f32, z: f32) -> Vec3 {
    Vec3::new(s(x), s(y), s(z))
}

fn e(bits: u64) -> Entity {
    Entity { bits }
}

fn at(x: f32, yaw: f32) -> NetworkedPosition {
    NetworkedPosition {
        x: s(x),
        y: s(0.0),
        z: s(0.0),
        yaw: s(yaw),
        pitch: s(0.0),
        airborne: false,
        casting: false,
    }
}

fn node(owner: Option<u64>) -> RigNode {
    RigNode {
        entity: e(1),
        name: None,
        local_body: false,
        remote_body: false,
        local_player: false,
        owner,
        look: None,
    }
}

#[test]
fn a_yaw_takes_the_short_way() {
    assert_eq!(f(yaw_between(s(0.25), s(0.75))), 0.5);
    assert!((f(yaw_between(s(3.0), s(-3.0))) - (2.0 * PI - 6.0)).abs() < 1e-5);
    assert!((f(yaw_between(s(-3.0), s(3.0))) + (2.0 * PI - 6.0)).abs() < 1e-5);
    assert!(f(yaw_between(s(0.0), s(4.0 * PI))).abs() < 1e-5);
    assert!((f(yaw_between(s(0.0), s(5.0 * PI - 0.5))) - (PI - 0.5)).abs() < 1e-5);
    assert!((f(yaw_between(s(1.0), s(1.5 - 20.0 * PI))) - 0.5).abs() < 1e-4);
    for i in -40..40 {
        for j in -40..40 {
            let (a, b) = (i as f32 * 0.3, j as f32 * 0.3);
            let way = f(yaw_between(s(a), s(b)));
            assert!(way.abs() <= PI);
            let rest = (a + way - b) / (2.0 * PI);
            assert!((rest - rest.round()).abs() < 1e-4);
        }
    }
}

#[test]
fn a_position_between_two() {
    let mut end = at(4.0, 1.0);
    end.airborne = true;
    let mid = lerp_networked_position(at(0.0, 0.0), end, s(0.25));
    assert_eq!(f(mid.x), 1.0);
    assert_eq!(f(mid.yaw), 0.25);
    assert!(!mid.airborne);
    let late = lerp_networked_position(at(0.0, 0.0), end, s(0.75));
    assert!(late.airborne);
    let far = lerp_networked_position(at(0.0, 0.0), at(4.0, 4.0 * PI + 1.0), s(0.5));
    assert!((f(far.yaw) - 0.5).abs() < 1e-5);
    let start = lerp_networked_position(at(1.0, 0.5), end, s(-3.0));
    assert_eq!((f(start.x), f(start.yaw)), (1.0, 0.5));
    let done = lerp_networked_position(at(1.0, 0.5), end, s(7.0));
    assert!((f(done.x) - 4.0).abs() < 1e-5 && (f(done.yaw) - 1.0).abs() < 1e-5);
}

#[test]
fn a_prediction_may_be_off_by_a_little() {
    assert!(!position_should_rollback(v(0.0, 0.0, 0.0), v(0.0, 0.005, 0.0)));
    assert!(position_should_rollback(v(0.0, 0.0, 0.0), v(0.0, 0.02, 0.0)));
    assert!(!linear_velocity_should_rollback(v(1.0, 0.0, 0.0), v(1.0, 0.0, 0.009)));
    assert!(linear_velocity_should_rollback(v(1.0, 0.0, 0.0), v(1.0, 0.0, 0.011)));
    assert!(!rotation_should_rollback(s(0.0099)));
    assert!(rotation_should_rollback(s(0.01)));
}

#[test]
fn something_is_seen_one_sample_late() {
    let mut samples = NetworkedPositionSmoothing::default();
    assert_eq!(smooth_networked_transforms(samples, s(0.0)), None);
    capture_networked_position_samples(&mut samples, at(2.0, 0.5), s(1.0));
    let seen = smooth_networked_transforms(samples, s(1.0)).unwrap();
    assert_eq!((f(seen.at.x), f(seen.yaw)), (2.0, 0.5));
    capture_networked_position_samples(&mut samples, at(6.0, 0.5), s(1.5));
    assert_eq!(f(smooth_networked_transforms(samples, s(1.5)).unwrap().at.x), 2.0);
    assert_eq!(f(smooth_networked_transforms(samples, s(1.75)).unwrap().at.x), 4.0);
    assert_eq!(f(smooth_networked_transforms(samples, s(2.0)).unwrap().at.x), 6.0);
}

#[test]
fn something_turns_the_other_way_round_past_half_a_turn() {
    assert_eq!(f(yaw_step(s(0.25), s(0.75))), 0.5);
    assert_eq!(f(yaw_step(s(-3.0), s(3.0))), 6.0 - 2.0 * PI);
    assert_eq!(f(yaw_step(s(3.0), s(-3.0))), 2.0 * PI - 6.0);
    assert_eq!(f(yaw_step(s(0.0), s(4.0 * PI))), 4.0 * PI - 2.0 * PI);
    let mut samples = NetworkedPositionSmoothing::default();
    capture_networked_position_samples(&mut samples, at(0.0, 0.0), s(1.0));
    capture_networked_position_samples(&mut samples, at(0.0, 12.0), s(1.5));
    let seen = smooth_networked_transforms(samples, s(1.75)).unwrap();
    assert_eq!(f(seen.yaw), (12.0 - 2.0 * PI) * 0.5);
}

#[test]
fn nothing_goes_beyond_what_is_known() {
    let mut samples = NetworkedPositionSmoothing::default();
    capture_networked_position_samples(&mut samples, at(0.0, 0.0), s(1.0));
    capture_networked_position_samples(&mut samples, at(1.0, 0.0), s(1.125));
    for i in -100..100 {
        let t = f(sample_time(samples, s(i as f32 * 0.1)));
        assert!((0.0..=1.0).contains(&t));
    }
    assert_eq!(f(smooth_networked_transforms(samples, s(100.0)).unwrap().at.x), 1.0);
}

#[test]
fn ones_own_body_is_hidden() {
    let mine = vec![node(None), node(Some(7))];
    assert_eq!(hide_self_wizard_body(&mine, Some(PeerId::Netcode(7))), Some(false));
    assert_eq!(hide_self_wizard_body(&mine, Some(PeerId::Netcode(8))), Some(true));
    assert_eq!(hide_self_wizard_body(&mine, None), None);
    assert_eq!(hide_self_wizard_body(&mine, Some(PeerId::Unnumbered)), None);
    assert_eq!(hide_self_wizard_body(&vec![node(None)], Some(PeerId::Netcode(7))), None);
}

#[test]
fn beams_are_those_of_others() {
    let off = LocalBeamState {
        active: false,
        origin: v(0.0, 0.0, 0.0),
        direction: v(0.0, 0.0, 0.0),
        length: s(0.0),
    };
    let mut players = vec![
        BeamSlot { client: 7, beam: off },
        BeamSlot { client: 8, beam: off },
    ];
    let word = |client: u64, length: f32| BeamCastBroadcast {
        client_id: client,
        active: true,
        origin: v(0.0, 1.0, 0.0),
        direction: v(0.0, 0.0, -1.0),
        length: s(length),
    };
    let news = vec![word(7, 1.0), word(8, 2.0), word(8, 3.0), word(9, 4.0)];
    drain_beam_broadcasts(&news, Some(PeerId::Netcode(7)), &mut players);
    assert_eq!(players[0].beam, off);
    assert_eq!(f(players[1].beam.length), 3.0);
    assert!(players[1].beam.active);
}

#[test]
fn a_beam_is_drawn_around_its_middle() {
    let beam = LocalBeamState {
        active: true,
        origin: v(0.0, 1.0, 0.0),
        direction: v(0.0, 0.0, -3.0),
        length: s(4.0),
    };
    let drawn = drive_remote_beam_visuals(Some(beam)).unwrap();
    assert!(drawn.middle.equals(v(0.0, 1.0, -2.0)));
    assert!(drawn.direction.equals(v(0.0, 0.0, -1.0)));
    assert_eq!(f(drawn.length), 4.0);
    let short = LocalBeamState { length: s(0.0), ..beam };
    assert_eq!(f(drive_remote_beam_visuals(Some(short)).unwrap().length), 0.01);
    assert_eq!(drive_remote_beam_visuals(Some(LocalBeamState { active: false, ..beam })), None);
    let nowhere = LocalBeamState { direction: v(0.0, 0.0, 0.0), ..beam };
    assert_eq!(drive_remote_beam_visuals(Some(nowhere)), None);
    assert_eq!(drive_remote_beam_visuals(None), None);
}

#[test]
fn a_beam_goes_with_its_player() {
    let beams = vec![
        RemoteBeamMesh { mesh: e(1), player: e(10) },
        RemoteBeamMesh { mesh: e(2), player: e(20) },
    ];
    assert_eq!(cleanup_orphan_beam_meshes(&beams, &vec![e(20)]), vec![beams[0]]);
    assert_eq!(cleanup_orphan_beam_meshes(&beams, &vec![e(10), e(20)]), vec![]);
}

#[test]
fn who_has_just_appeared_does_not_move() {
    let mut state = RemoteAnimState::default();
    drive_remote_animations(&mut state, at(100.0, 0.0), s(5.0));
    assert_eq!(state.smoothed_velocity, v(0.0, 0.0, 0.0));
    assert_eq!(state.last_pos, v(100.0, 0.0, 0.0));
    assert!(state.initialized);
}

#[test]
fn a_velocity_follows_the_news_and_fades_without() {
    let mut state = RemoteAnimState::default();
    drive_remote_animations(&mut state, at(0.0, 0.0), s(0.0));
    drive_remote_animations(&mut state, at(1.0, 0.0), s(0.5));
    assert!((f(state.smoothed_velocity.x) - 2.0 * 0.15).abs() < 1e-6);
    let before = f(state.smoothed_velocity.x);
    drive_remote_animations(&mut state, at(1.0, 0.0), s(0.625));
    assert_eq!(f(state.smoothed_velocity.x), before);
    drive_remote_animations(&mut state, at(1.0, 0.0), s(1.0));
    assert_eq!(f(state.smoothed_velocity.x), before * (1.0 - 0.15));
}

#[test]
fn a_jump_and_a_cast_show_bit_by_bit() {
    let mut state = RemoteAnimState::default();
    drive_remote_animations(&mut state, at(0.0, 0.0), s(0.0));
    let mut up = at(0.0, 0.0);
    up.airborne = true;
    up.casting = true;
    drive_remote_animations(&mut state, up, s(0.0));
    assert_eq!(f(state.airborne_blend), 0.25);
    assert_eq!(f(state.casting_blend), 0.2);
    drive_remote_animations(&mut state, up, s(0.0));
    assert_eq!(f(state.airborne_blend), 0.4375);
}

#[test]
fn a_seed_gives_a_color() {
    for seed in [0.0f32, 0.1, 0.4, 0.7, 1.0, 1.5, 2.1, -0.3] {
        let color = prop_color(s(seed));
        assert_eq!(f(color.x), 0.4 + 0.5 * (seed * 1.3).fract());
        assert_eq!(f(color.y), 0.4 + 0.5 * (seed * 2.7).fract());
        assert_eq!(f(color.z), 0.4 + 0.5 * (seed * 5.1).fract());
    }
}

#[test]
fn lines_name_what_arrives() {
    assert_eq!(TraceArrivalKind::Player.event(), "replicated_player");
    assert_eq!(TraceArrivalKind::Prop.event(), "replicated_prop");
    assert_eq!(TraceArrivalKind::Lantern.event(), "replicated_lantern");
    assert_eq!(TraceArrivalKind::Portal.event(), "replicated_portal");
    assert_eq!(beam_event(true), "beam_start");
    assert_eq!(beam_event(false), "beam_end");
}

#[test]
fn a_client_tells_what_its_player_does() {
    let facing = Facing { yaw: s(0.5), pitch: s(-0.25), grounded: true };
    let movement = Vec2 { x: s(1.0), y: s(0.0) };
    let mut casts = CastState::new();
    let told = send_local_player_input(facing, &casts, movement, true);
    assert_eq!((f(told.yaw), f(told.pitch)), (0.5, -0.25));
    assert_eq!(told.movement, movement);
    assert!(told.jump && !told.casting);
    let charging = CastInstance {
        phase: CastPhase::Charging,
        charge: s(0.5),
        captured_charge: None,
        cooldown_remaining: s(0.0),
    };
    casts.instances.insert("fireball.throw".to_string(), charging);
    assert!(send_local_player_input(facing, &casts, movement, false).casting);
}

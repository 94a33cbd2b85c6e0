use wisp::entity::Entity;
use wisp::net::protocol::{
    BeamImpulseMessage, ChargeStateMessage, CustomizeMessage, HoldPortalMessage,
    NetworkedPosition, ParentCastInfo, PickupLanternMessage, PlacePortalMessage,
    PlayerCustomization, PlayerInputMessage, PropShape, SpawnBodyMessage, ThrowLanternMessage,
    Tints,
};
use wisp::net::server::{
    forward_from_yaw_pitch, handle_hold_portal, handle_place_portal, ClientPlayerMap, HeldPortal,
    HeldPortalRegistry, HoldOutcome, NetworkedIdAlloc, PeerId, PortalRecord,
};
use wisp::net::server_bodies::{
    apply_beam_impulse, beam_ignores, beam_off, beam_ray, decay_beam_casts, handle_pickup_lantern,
    handle_spawn_body, handle_throw_lantern, spawn_arena, BeamCastTimer, BeamHit, Lantern,
};
use wisp::net::server_players::{
    despawn_disconnected_players, drain_customize_messages, drain_equip_messages,
    drain_player_inputs, ground_probe, ground_ray, moved_to, new_health, new_hurtbox,
    refresh_replicate_on_connect, relay_charge_states, run_player_controller,
    snap_after_teleport, spawn_place, sync_networked_players, sync_player_positions,
    walking_force, wanted_velocity, ClientLink, EquipWeaponsMessage, InputSlot, Loadout, LookSlot,
    Owned, PlayerInputState,
};
use wisp::player::parts::PartSelection;
use wisp::scalar::Scalar;
use wisp::spells::bodies::{
    BodyDef, ColliderShape, ColorDef, MaterialDef, MeshDef, PhysicsDef, RigidBodyKind,
};
use wisp::spells::catalog::{rebuild, BodyCatalog, Rebuild, SpellCatalog};
use wisp::spells::damage::{Hurtbox, Team, Victim};
use wisp::spells::data::{
    ActionRef, BodyEventTrigger, BodyTemplateId, CastDef, CastId, ChargingDef, EffectDef,
    LaunchKind, MarkerKind, OriginDef, PayloadDef, SpellDef, SpellId, TargetDef, TriggerDef,
    TriggerSpec,
};
use wisp::spells::markers::{Mark, RollingGlacier};
use wisp::spells::portal::PortalSlot;
use wisp::vector::{Quat, Vec2, Vec3};

fn s(x: f32) -> Scalar {
    Scalar::from_bits(x.to_bits())
}

fn f(x: Scalar) -> f32 {
    f32::from_bits(x.to_bits())
}

fn v(x: f32, y: f32, z: f32) -> Vec3 {
    Vec3::new(s(x), s(y), s(z))
}

fn e(bits: u64) -> Entity {
    Entity { bits }
}

fn place(slot: PortalSlot, at: Vec3, normal: Vec3) -> PlacePortalMessage {
    PlacePortalMessage { slot, position: at, normal }
}

fn hold(slot: PortalSlot, active: bool, at: Vec3) -> HoldPortalMessage {
    HoldPortalMessage { slot, active, position: at, yaw: s(0.5), pitch: s(0.25) }
}

fn input(x: f32, y: f32) -> PlayerInputState {
    PlayerInputState {
        movement: Vec2 { x: s(x), y: s(y) },
        yaw: s(0.0),
        pitch: s(0.0),
        jump: false,
        casting: false,
    }
}

#[test]
fn names_count_up_from_one() {
    let mut ids = NetworkedIdAlloc { next: 0 };
    assert_eq!(ids.next(), 1);
    assert_eq!(ids.next(), 2);
    assert_eq!(ids.next, 2);
}

#[test]
fn only_a_peer_with_a_number_is_a_client() {
    assert_eq!(PeerId::Netcode(7).client_id(), Some(7));
    assert_eq!(PeerId::Steam(8).client_id(), Some(8));
    assert_eq!(PeerId::Local(9).client_id(), Some(9));
    assert_eq!(PeerId::Entity(10).client_id(), Some(10));
    assert_eq!(PeerId::Unnumbered.client_id(), None);
}

#[test]
fn a_client_has_one_player() {
    let mut players = ClientPlayerMap(Default::default());
    assert_eq!(players.get(7), None);
    players.insert(7, e(1));
    players.insert(8, e(2));
    players.insert(7, e(3));
    assert_eq!(players.get(7), Some(e(3)));
    assert_eq!(players.player_of(PeerId::Netcode(8)), Some(e(2)));
    assert_eq!(players.player_of(PeerId::Unnumbered), None);
    players.remove(7);
    assert_eq!(players.get(7), None);
    assert_eq!(players.get(8), Some(e(2)));
}

#[test]
fn a_placed_portal_takes_the_place_of_the_one_before() {
    let mut portals = vec![
        PortalRecord { entity: e(1), slot: PortalSlot::Primary, carried: false },
        PortalRecord { entity: e(2), slot: PortalSlot::Secondary, carried: false },
        PortalRecord { entity: e(3), slot: PortalSlot::Primary, carried: true },
    ];
    let mut ids = NetworkedIdAlloc { next: 4 };
    let msg = place(PortalSlot::Primary, v(1.0, 2.0, 3.0), v(0.0, 1.0, 0.0));
    let new = handle_place_portal(msg, e(9), &mut portals, &mut ids).unwrap();
    assert_eq!(new.net_id, 5);
    assert_eq!(new.portal.normal, v(0.0, 1.0, 0.0));
    assert_eq!(new.position, NetworkedPosition::from_vec3(v(1.0, 2.0, 3.0)));
    assert!(new.gone.contains(&e(1)));
    assert!(!new.gone.contains(&e(2)));
    let left: Vec<Entity> =
        portals.iter().filter(|p| p.slot == PortalSlot::Primary).map(|p| p.entity).collect();
    assert_eq!(left.last(), Some(&e(9)));
    assert!(!left.contains(&e(1)));
    assert!(portals.iter().any(|p| p.entity == e(2)));
}

#[test]
fn a_portal_is_not_placed_nowhere() {
    for bad in [f32::NAN, f32::INFINITY, f32::NEG_INFINITY] {
        let mut portals = vec![];
        let mut ids = NetworkedIdAlloc { next: 0 };
        let msg = place(PortalSlot::Primary, v(bad, 0.0, 0.0), v(0.0, 1.0, 0.0));
        assert!(handle_place_portal(msg, e(9), &mut portals, &mut ids).is_none());
        let msg = place(PortalSlot::Primary, v(0.0, 0.0, 0.0), v(0.0, bad, 0.0));
        assert!(handle_place_portal(msg, e(9), &mut portals, &mut ids).is_none());
        assert_eq!(portals.len(), 0);
        assert_eq!(ids.next, 0);
    }
}

#[test]
fn a_carried_portal_appears_moves_and_goes() {
    let mut portals = vec![
        PortalRecord { entity: e(1), slot: PortalSlot::Primary, carried: false },
        PortalRecord { entity: e(2), slot: PortalSlot::Secondary, carried: false },
    ];
    let mut registry = HeldPortalRegistry { entries: vec![] };
    let mut ids = NetworkedIdAlloc { next: 0 };
    let forward = v(0.0, 0.0, -1.0);
    let msg = hold(PortalSlot::Primary, true, v(1.0, 2.0, 3.0));

    let raised = handle_hold_portal(7, msg, forward, e(9), &mut portals, &mut registry, &mut ids);
    match raised {
        HoldOutcome::Raised(new) => {
            assert_eq!(new.gone, vec![e(1)]);
            assert_eq!(new.net_id, 1);
            assert_eq!(new.portal.normal, v(-0.0, -0.0, 1.0));
            assert_eq!(f(new.position.yaw), 0.5);
            assert_eq!(f(new.position.pitch), 0.25);
        },
        other => panic!("{:?}", other),
    }
    assert_eq!(
        registry.entries,
        vec![HeldPortal { client: 7, slot: PortalSlot::Primary, entity: e(9) }]
    );
    assert_eq!(portals.len(), 2);

    let msg = hold(PortalSlot::Primary, true, v(4.0, 5.0, 6.0));
    let moved = handle_hold_portal(7, msg, forward, e(10), &mut portals, &mut registry, &mut ids);
    assert!(
        matches!(moved, HoldOutcome::Moved { entity, position, .. }
            if entity == e(9) && position.to_vec3() == v(4.0, 5.0, 6.0))
    );
    assert_eq!(ids.next, 1);

    let msg = hold(PortalSlot::Primary, false, v(4.0, 5.0, 6.0));
    let gone = handle_hold_portal(7, msg, forward, e(10), &mut portals, &mut registry, &mut ids);
    assert!(matches!(gone, HoldOutcome::Released(Some(entity)) if entity == e(9)));
    assert_eq!(registry.entries, vec![]);
    assert_eq!(
        portals,
        vec![PortalRecord { entity: e(2), slot: PortalSlot::Secondary, carried: false }]
    );

    let again = handle_hold_portal(7, msg, forward, e(10), &mut portals, &mut registry, &mut ids);
    assert!(matches!(again, HoldOutcome::Released(None)));
}

#[test]
fn one_client_takes_a_slot_from_another() {
    let mut portals = vec![];
    let mut registry = HeldPortalRegistry { entries: vec![] };
    let mut ids = NetworkedIdAlloc { next: 0 };
    let forward = v(0.0, 0.0, -1.0);
    let msg = hold(PortalSlot::Secondary, true, v(0.0, 1.0, 0.0));
    handle_hold_portal(7, msg, forward, e(9), &mut portals, &mut registry, &mut ids);
    let raised = handle_hold_portal(8, msg, forward, e(10), &mut portals, &mut registry, &mut ids);
    assert!(matches!(raised, HoldOutcome::Raised(new) if new.gone == vec![e(9)]));
    assert_eq!(
        registry.entries,
        vec![HeldPortal { client: 8, slot: PortalSlot::Secondary, entity: e(10) }]
    );
    assert_eq!(
        portals,
        vec![PortalRecord { entity: e(10), slot: PortalSlot::Secondary, carried: true }]
    );
}

#[test]
fn a_portal_is_not_carried_nowhere() {
    let mut portals = vec![];
    let mut registry = HeldPortalRegistry { entries: vec![] };
    let mut ids = NetworkedIdAlloc { next: 0 };
    let mut msg = hold(PortalSlot::Primary, true, v(0.0, 1.0, 0.0));
    msg.yaw = s(f32::NAN);
    let outcome = handle_hold_portal(
        7,
        msg,
        v(0.0, 0.0, -1.0),
        e(9),
        &mut portals,
        &mut registry,
        &mut ids,
    );
    assert!(matches!(outcome, HoldOutcome::Ignored));
    assert_eq!(portals.len(), 0);
    assert_eq!(registry.entries.len(), 0);
}

#[test]
fn without_a_turn_forward_is_ahead() {
    let ahead = forward_from_yaw_pitch(Quat::identity(), Quat::identity());
    assert!(ahead.equals(v(0.0, 0.0, -1.0)));
}

#[test]
fn a_client_throws_three_lanterns_and_no_more() {
    let mut owners = vec![8];
    let mut ids = NetworkedIdAlloc { next: 0 };
    let msg = ThrowLanternMessage { origin: v(0.0, 1.5, -2.0), velocity: v(0.0, 3.0, -6.0) };
    for n in 1..=3 {
        let new = handle_throw_lantern(7, msg, &mut owners, &mut ids).unwrap();
        assert_eq!(new.client, 7);
        assert_eq!(new.net_id, n);
        assert_eq!(new.velocity, v(0.0, 3.0, -6.0));
        assert_eq!(new.position.to_vec3(), v(0.0, 1.5, -2.0));
    }
    assert_eq!(handle_throw_lantern(7, msg, &mut owners, &mut ids), None);
    assert_eq!(owners, vec![8, 7, 7, 7]);
    assert_eq!(ids.next, 3);
    assert!(handle_throw_lantern(8, msg, &mut owners, &mut ids).is_some());
    let mut many = vec![7; 5];
    assert_eq!(handle_throw_lantern(7, msg, &mut many, &mut ids), None);
    assert_eq!(many.len(), 5);
}

#[test]
fn a_lantern_is_not_thrown_from_nowhere() {
    let mut owners = vec![];
    let mut ids = NetworkedIdAlloc { next: 0 };
    let msg = ThrowLanternMessage { origin: v(f32::NAN, 0.0, 0.0), velocity: v(0.0, 0.0, 0.0) };
    assert_eq!(handle_throw_lantern(7, msg, &mut owners, &mut ids), None);
    let msg = ThrowLanternMessage { origin: v(0.0, 0.0, 0.0), velocity: v(0.0, f32::INFINITY, 0.0) };
    assert_eq!(handle_throw_lantern(7, msg, &mut owners, &mut ids), None);
    assert_eq!(owners.len(), 0);
}

#[test]
fn lanterns_in_reach_are_picked_up() {
    let lanterns = vec![
        Lantern { entity: e(1), at: v(1.8, 0.0, 0.0) },
        Lantern { entity: e(2), at: v(1.9, 0.0, 0.0) },
        Lantern { entity: e(3), at: v(0.0, -1.0, 0.0) },
    ];
    let msg = PickupLanternMessage { player_position: v(0.0, 0.0, 0.0) };
    assert_eq!(handle_pickup_lantern(msg, &lanterns), vec![lanterns[0], lanterns[2]]);
    let msg = PickupLanternMessage { player_position: v(f32::NAN, 0.0, 0.0) };
    assert_eq!(handle_pickup_lantern(msg, &lanterns), vec![]);
}

fn beam(damage: f32) -> BeamImpulseMessage {
    BeamImpulseMessage {
        origin: v(0.0, 1.0, 0.0),
        direction: v(0.0, 0.0, -2.0),
        range: s(30.0),
        magnitude: s(0.5),
        damage: s(damage),
    }
}

#[test]
fn a_beam_pushes_and_hurts_what_it_meets() {
    let mut timers = vec![
        BeamCastTimer { client: 6, last_update: s(0.0), active: false },
        BeamCastTimer { client: 7, last_update: s(0.0), active: false },
    ];
    let mut victims = vec![Victim {
        entity: e(5),
        position: v(0.0, 1.0, -4.0),
        hurtbox: Hurtbox::new(s(10.0), Team::Players),
        health: None,
    }];
    let mut deaths = vec![];
    let hit = Some(BeamHit { entity: e(5), distance: s(4.0) });
    let outcome = apply_beam_impulse(
        7,
        Some(e(1)),
        beam(4.0),
        hit,
        s(2.0),
        &vec![e(5)],
        &mut timers,
        &mut victims,
        &mut deaths,
    )
    .unwrap();
    assert_eq!(outcome.broadcast.client_id, 7);
    assert!(outcome.broadcast.active);
    assert_eq!(f(outcome.broadcast.length), 4.0);
    assert_eq!(outcome.push.unwrap().impulse, v(0.0, 0.0, -0.5));
    assert_eq!(f(victims[0].hurtbox.hp), 6.0);
    assert_eq!(timers[1], BeamCastTimer { client: 7, last_update: s(2.0), active: true });
    assert!(!timers[0].active);
    assert_eq!(deaths.len(), 0);
}

#[test]
fn a_beam_that_meets_nothing_goes_all_the_way() {
    let mut timers = vec![];
    let mut victims = vec![];
    let mut deaths = vec![];
    let outcome = apply_beam_impulse(
        7,
        None,
        beam(4.0),
        None,
        s(2.0),
        &vec![],
        &mut timers,
        &mut victims,
        &mut deaths,
    )
    .unwrap();
    assert_eq!(f(outcome.broadcast.length), 30.0);
    assert_eq!(outcome.push, None);
}

#[test]
fn a_beam_without_a_direction_does_nothing() {
    let mut timers = vec![BeamCastTimer { client: 7, last_update: s(0.0), active: false }];
    let mut victims = vec![];
    let mut deaths = vec![];
    let mut msg = beam(4.0);
    msg.direction = v(0.0, 0.0, 0.0);
    let outcome = apply_beam_impulse(
        7,
        None,
        msg,
        None,
        s(2.0),
        &vec![],
        &mut timers,
        &mut victims,
        &mut deaths,
    );
    assert_eq!(outcome, None);
    assert!(!timers[0].active);
}

#[test]
fn a_beam_goes_through_lanterns_and_its_own_player() {
    assert_eq!(beam_ignores(&vec![e(1), e(2)], Some(e(3))), vec![e(1), e(2), e(3)]);
    assert_eq!(beam_ignores(&vec![e(1)], None), vec![e(1)]);
}

#[test]
fn a_silent_beam_goes_off_once() {
    let mut timer = BeamCastTimer { client: 7, last_update: s(1.0), active: true };
    assert_eq!(decay_beam_casts(&mut timer, s(1.125)), None);
    assert!(timer.active);
    let off = decay_beam_casts(&mut timer, s(1.25));
    assert_eq!(off, Some(beam_off(7)));
    assert!(!off.unwrap().active);
    assert!(!timer.active);
    assert_eq!(decay_beam_casts(&mut timer, s(9.0)), None);
}

fn spawning(parent: Option<ParentCastInfo>) -> SpawnBodyMessage {
    SpawnBodyMessage {
        origin: v(0.0, 1.0, 0.0),
        velocity: v(0.0, 0.0, -9.0),
        shape: PropShape::Sphere { radius: s(0.25) },
        mass: s(2.0),
        friction: s(0.5),
        linear_damping: s(0.1),
        angular_damping: s(0.2),
        restitution: s(0.3),
        tint_seed: s(0.7),
        tint: v(1.0, 0.5, 0.0),
        parent_cast: parent,
    }
}

fn ball_spell() -> SpellDef {
    SpellDef {
        id: SpellId::new("glacier"),
        label: "Glacier".to_string(),
        icon: None,
        tint: None,
        casts: vec![CastDef {
            id: CastId("glacier.roll".to_string()),
            label: "Roll".to_string(),
            requires_active: true,
            trigger: TriggerDef::Press { action: ActionRef::Fire },
            conditions: vec![],
            charging: ChargingDef::Uncharged,
            cooldown: s(0.0),
            origin: OriginDef::Wand,
            target: TargetDef::default(),
            payload: PayloadDef::SpawnBody {
                template: BodyTemplateId("ball".to_string()),
                launch: LaunchKind::Drop,
                on_event: vec![BodyEventTrigger::OnCollision {
                    triggers: TriggerSpec {
                        spell_id: SpellId::new("glacier"),
                        cast_id: CastId("glacier.burst".to_string()),
                    },
                }],
            },
            effect: EffectDef::NoEffect,
        }],
    }
}

fn ball_body() -> BodyDef {
    let white = ColorDef { r: s(1.0), g: s(1.0), b: s(1.0), a: s(1.0) };
    BodyDef {
        id: BodyTemplateId("ball".to_string()),
        mesh: MeshDef::Sphere { radius: s(0.25) },
        material: MaterialDef { base_color: white, emissive: white, roughness: s(0.5) },
        physics: PhysicsDef {
            body: RigidBodyKind::Dynamic,
            collider: ColliderShape::Sphere { radius: s(0.25) },
            mass: s(2.0),
            friction: s(0.5),
            linear_damping: s(0.1),
            angular_damping: s(0.2),
            restitution: s(0.3),
        },
        light: None,
        markers: vec![MarkerKind::RollingGlacier, MarkerKind::PortalTraveler],
    }
}

fn roll(cast: &str) -> Option<ParentCastInfo> {
    Some(ParentCastInfo {
        spell_id: "glacier".to_string(),
        cast_id: cast.to_string(),
        captured_charge: Some(s(0.75)),
        chain_depth: 2,
    })
}

#[test]
fn a_body_is_put_out_with_what_its_cast_says() {
    let mut spells = SpellCatalog::new();
    let mut bodies = BodyCatalog::new();
    let rebuilt = rebuild(vec![ball_spell()], vec![ball_body()], &mut spells, &mut bodies);
    assert!(matches!(rebuilt, Rebuild::Live { .. }));
    let mut ids = NetworkedIdAlloc { next: 0 };
    let new = handle_spawn_body(
        &spawning(roll("glacier.roll")),
        Some(e(3)),
        Some(&spells),
        Some(&bodies),
        &mut ids,
    )
    .unwrap();
    assert_eq!(new.net_id, 1);
    assert_eq!(new.prop.shape, PropShape::Sphere { radius: s(0.25) });
    assert_eq!(new.prop.tint, v(1.0, 0.5, 0.0));
    assert_eq!(f(new.prop.mass), 2.0);
    assert_eq!(new.velocity, v(0.0, 0.0, -9.0));
    let triggers = new.triggers.unwrap();
    assert_eq!(triggers.events.len(), 1);
    assert_eq!(triggers.original_caster, Some(e(3)));
    assert_eq!(triggers.captured_charge, Some(s(0.75)));
    assert_eq!(triggers.chain_depth, 2);
    assert_eq!(triggers.caused_by.unwrap().cast_id.0, "glacier.roll");
    assert!(!triggers.fired);
    assert_eq!(
        new.marks,
        vec![Mark::Glacier(RollingGlacier::new(Some(e(3)))), Mark::PortalTraveler]
    );
}

#[test]
fn a_body_of_no_known_cast_is_bare() {
    let mut spells = SpellCatalog::new();
    let mut bodies = BodyCatalog::new();
    rebuild(vec![ball_spell()], vec![ball_body()], &mut spells, &mut bodies);
    let mut ids = NetworkedIdAlloc { next: 0 };
    for (parent, catalog) in [
        (None, Some(&spells)),
        (roll("glacier.unheard_of"), Some(&spells)),
        (roll("glacier.roll"), None),
    ] {
        let new =
            handle_spawn_body(&spawning(parent), None, catalog, Some(&bodies), &mut ids).unwrap();
        assert!(new.triggers.is_none());
        assert_eq!(new.marks, vec![]);
    }
    assert_eq!(ids.next, 3);
}

#[test]
fn a_body_is_not_put_out_nowhere() {
    let mut ids = NetworkedIdAlloc { next: 0 };
    let mut msg = spawning(None);
    msg.origin = v(0.0, f32::INFINITY, 0.0);
    assert!(handle_spawn_body(&msg, None, None, None, &mut ids).is_none());
    let mut msg = spawning(None);
    msg.velocity = v(f32::NAN, 0.0, 0.0);
    assert!(handle_spawn_body(&msg, None, None, None, &mut ids).is_none());
    assert_eq!(ids.next, 0);
}

#[test]
fn the_arena_has_six_bodies() {
    let mut ids = NetworkedIdAlloc { next: 10 };
    let arena = spawn_arena(&mut ids);
    assert_eq!(ids.next, 16);
    let names: Vec<u64> = arena.iter().map(|p| p.net_id).collect();
    assert_eq!(names, vec![11, 12, 13, 14, 15, 16]);
    let places: Vec<Vec3> = arena.iter().map(|p| p.body.at).collect();
    assert_eq!(
        places,
        vec![
            v(-2.5, 0.5, 0.0),
            v(0.0, 0.5, 0.0),
            v(2.5, 0.5, -0.5),
            v(-1.2, 0.5, -2.5),
            v(1.5, 0.5, -3.0),
            v(0.3, 0.5, -5.0),
        ]
    );
    let masses: Vec<f32> = arena.iter().map(|p| f(p.body.prop.mass)).collect();
    assert_eq!(masses, vec![2.0, 3.5, 1.0, 1.5, 4.0, 2.5]);
    let seeds: Vec<f32> = arena.iter().map(|p| f(p.body.prop.tint_seed)).collect();
    assert_eq!(seeds, vec![0.1, 0.4, 0.7, 1.0, 1.5, 2.1]);
    assert_eq!(arena[0].body.prop.shape, PropShape::Cube { size: s(0.8) });
    assert_eq!(arena[1].body.prop.shape, PropShape::Sphere { radius: s(0.5) });
}

#[test]
fn every_client_gets_one_player() {
    let peers = vec![
        PeerId::Netcode(1),
        PeerId::Netcode(2),
        PeerId::Unnumbered,
        PeerId::Netcode(2),
        PeerId::Netcode(11),
    ];
    let mut ids = NetworkedIdAlloc { next: 5 };
    let new = sync_networked_players(&peers, &vec![1], &mut ids);
    assert_eq!(new.len(), 2);
    assert_eq!((new[0].client, new[0].net_id), (2, 6));
    assert_eq!((new[1].client, new[1].net_id), (11, 7));
    assert_eq!(new[0].at, v(-2.0, 1.5, 8.0));
    assert_eq!(new[1].at, v(0.0, 1.5, 8.0));
    assert_eq!(ids.next, 7);
    assert_eq!(spawn_place(u64::MAX), v(8.0, 1.5, 8.0));
    assert_eq!(f(new_hurtbox().hp), 100.0);
    assert_eq!(f(new_health().max_hp), 100.0);
}

#[test]
fn who_leaves_takes_everything_along() {
    let owned = vec![
        Owned { entity: e(1), client: 1 },
        Owned { entity: e(2), client: 2 },
        Owned { entity: e(3), client: 1 },
    ];
    let mut players = ClientPlayerMap(Default::default());
    players.insert(1, e(1));
    players.insert(2, e(2));
    let mut held = HeldPortalRegistry {
        entries: vec![
            HeldPortal { client: 1, slot: PortalSlot::Primary, entity: e(8) },
            HeldPortal { client: 2, slot: PortalSlot::Secondary, entity: e(9) },
        ],
    };
    let gone =
        despawn_disconnected_players(&vec![PeerId::Netcode(2)], &owned, &mut players, &mut held);
    assert_eq!(gone, vec![e(1), e(3), e(8)]);
    assert_eq!(players.get(1), None);
    assert_eq!(players.get(2), Some(e(2)));
    assert_eq!(
        held.entries,
        vec![HeldPortal { client: 2, slot: PortalSlot::Secondary, entity: e(9) }]
    );
}

#[test]
fn everything_is_told_anew_when_clients_come_or_go() {
    let mut before = 0;
    assert!(!refresh_replicate_on_connect(0, &mut before));
    assert!(refresh_replicate_on_connect(1, &mut before));
    assert!(!refresh_replicate_on_connect(1, &mut before));
    assert!(refresh_replicate_on_connect(0, &mut before));
    assert!(refresh_replicate_on_connect(2, &mut before));
    assert_eq!(before, 2);
}

#[test]
fn the_last_word_of_a_client_counts() {
    let mut players = vec![
        InputSlot { client: 1, input: input(0.0, 0.0) },
        InputSlot { client: 2, input: input(0.0, 0.0) },
    ];
    let word = |x: f32| PlayerInputMessage {
        movement: Vec2 { x: s(x), y: s(0.0) },
        yaw: s(x),
        pitch: s(0.0),
        jump: true,
        casting: false,
    };
    drain_player_inputs(2, &vec![word(1.0), word(2.0)], &mut players);
    assert_eq!(f(players[1].input.yaw), 2.0);
    assert!(players[1].input.jump);
    assert_eq!(players[0].input, input(0.0, 0.0));
    drain_player_inputs(2, &vec![], &mut players);
    assert_eq!(f(players[1].input.yaw), 2.0);
    drain_player_inputs(3, &vec![word(9.0)], &mut players);
    assert_eq!(f(players[1].input.yaw), 2.0);
}

#[test]
fn a_look_is_the_players_own() {
    let look = |top: u8| PlayerCustomization {
        body: Tints::first_body(),
        objects: Tints::first_objects(),
        parts: PartSelection { top, ..PartSelection::starter() },
    };
    let mut players = vec![
        LookSlot { client: 1, look: look(0) },
        LookSlot { client: 2, look: look(0) },
    ];
    drain_customize_messages(
        1,
        &vec![CustomizeMessage { customization: look(3) }],
        &mut players,
    );
    assert_eq!(players[0].look.parts.top, 3);
    assert_eq!(players[1].look.parts.top, 0);
}

#[test]
fn weapons_are_the_players_own() {
    let mut players = vec![
        Loadout { client: 1, first: None, second: None, active: 0 },
        Loadout { client: 2, first: None, second: None, active: 0 },
    ];
    let word = EquipWeaponsMessage {
        first: Some("wand".to_string()),
        second: None,
        active: 1,
    };
    drain_equip_messages(2, &vec![word], &mut players);
    assert_eq!(players[1].first, Some("wand".to_string()));
    assert_eq!(players[1].active, 1);
    assert_eq!(players[0].first, None);
}

#[test]
fn a_player_gets_up_to_speed() {
    let still = v(0.0, 0.0, 0.0);
    let dt = 1.0f32 / 64.0;
    let ahead = input(0.0, 1.0);
    let wanted = wanted_velocity(ahead, Quat::identity());
    assert!(wanted.equals(v(0.0, 0.0, -4.2)));

    let force = walking_force(ahead, Quat::identity(), still, true, s(dt));
    assert!((f(force.z) + 60.0 * 80.0).abs() < 1.0);
    let force = walking_force(ahead, Quat::identity(), still, false, s(dt));
    assert!((f(force.z) + 10.0 * 80.0).abs() < 1.0);
    let force = walking_force(ahead, Quat::identity(), v(0.0, -3.0, -4.2), true, s(dt));
    assert!(force.equals(still));
    let force = walking_force(input(0.0, 0.0), Quat::identity(), v(0.5, 0.0, 0.0), true, s(dt));
    assert_eq!(f(force.x), -0.5 / dt * 80.0);
}

#[test]
fn a_jump_pushes_once() {
    let mut jumped = false;
    let mut jump = input(0.0, 0.0);
    jump.jump = true;
    let still = v(0.0, 0.0, 0.0);
    let step = |input: PlayerInputState, grounded: bool, jumped: &mut bool| {
        run_player_controller(input, Quat::identity(), still, grounded, s(0.015625), jumped)
    };
    assert_eq!(step(jump, true, &mut jumped).impulse, Some(v(0.0, 400.0, 0.0)));
    assert_eq!(step(jump, true, &mut jumped).impulse, None);
    assert_eq!(step(input(0.0, 0.0), true, &mut jumped).impulse, None);
    assert_eq!(step(jump, false, &mut jumped).impulse, None);
    assert_eq!(step(jump, true, &mut jumped).impulse, None);
    assert_eq!(ground_probe(v(1.0, 3.0, 2.0)), v(1.0, 2.0, 2.0));
}

#[test]
fn everyone_sees_where_a_player_is() {
    let mut told = input(0.0, 0.0);
    told.yaw = s(0.5);
    told.pitch = s(-0.25);
    told.casting = true;
    let seen = sync_player_positions(v(1.0, 2.0, 3.0), told, false);
    assert_eq!(seen.to_vec3(), v(1.0, 2.0, 3.0));
    assert_eq!((f(seen.yaw), f(seen.pitch)), (0.5, -0.25));
    assert!(seen.airborne && seen.casting);
    let moved = moved_to(seen, v(4.0, 5.0, 6.0));
    assert_eq!(moved.to_vec3(), v(4.0, 5.0, 6.0));
    assert_eq!(f(moved.yaw), 0.5);
}

#[test]
fn who_comes_out_of_a_portal_is_turned() {
    let mut told = input(0.0, 0.0);
    let snap = snap_after_teleport(7, v(1.0, 0.0, 0.0), s(-1.5), &mut told);
    assert_eq!(snap.map(|snap| (snap.client_id, f(snap.new_yaw))), Some((7, -1.5)));
    assert_eq!(f(told.yaw), -1.5);
    assert_eq!(snap_after_teleport(7, v(0.0, 1.0, 0.0), s(0.5), &mut told), None);
    assert_eq!(f(told.yaw), -1.5);
}

#[test]
fn a_charge_is_told_to_everyone_else() {
    let links = vec![
        ClientLink { link: e(1), peer: PeerId::Netcode(7) },
        ClientLink { link: e(2), peer: PeerId::Netcode(8) },
        ClientLink { link: e(3), peer: PeerId::Unnumbered },
    ];
    let msg = ChargeStateMessage { active: true, ratio: s(0.5), tint: v(1.0, 0.0, 0.0) };
    let (told, to) = relay_charge_states(7, msg, &links);
    assert_eq!(told.client_id, 7);
    assert_eq!(f(told.ratio), 0.5);
    assert!(told.active);
    assert_eq!(to, vec![links[1], links[2]]);
}

#[test]
fn the_server_sends_rays() {
    let ray = beam_ray(beam(0.0), &vec![e(1)], Some(e(7))).unwrap();
    assert_eq!(ray.origin, v(0.0, 1.0, 0.0));
    assert!(ray.direction.equals(v(0.0, 0.0, -1.0)));
    assert_eq!((f(ray.range), ray.ignored), (30.0, vec![e(1), e(7)]));
    let mut nowhere = beam(0.0);
    nowhere.direction = v(f32::NAN, 0.0, 0.0);
    assert!(beam_ray(nowhere, &vec![], None).is_none());
    let ray = ground_ray(v(1.0, 3.0, 2.0), e(7));
    assert_eq!((ray.origin, ray.direction), (v(1.0, 2.0, 2.0), v(0.0, -1.0, 0.0)));
    assert_eq!((f(ray.range), ray.ignored), (0.2, vec![e(7)]));
}

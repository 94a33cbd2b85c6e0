use wisp::entity::Entity;
use wisp::net::protocol::NetworkedHealth;
use wisp::scalar::Scalar;
use wisp::spells::damage::{
    apply_aoe_damage, apply_contact_damage, apply_damage, handle_deaths, lookup_team, Blast, DeathEvent,
    FalloffKind, Hitbox, HitboxCarrier, Hurtbox, Mortal, Team, Victim,
};
use wisp::vector::Vec3;

fn s(x: f32) -> Scalar {
    Scalar::from_bits(x.to_bits())
}

fn f(x: Scalar) -> f32 {
    f32::from_bits(x.to_bits())
}

fn v(x: f32, y: f32, z: f32) -> Vec3 {
    Vec3::new(s(x), s(y), s(z))
}

fn e(bits: u64) -> Entity {
    Entity { bits }
}

fn victim(bits: u64, hp: f32, team: Team, at: Vec3) -> Victim {
    Victim {
        entity: e(bits),
        position: at,
        hurtbox: Hurtbox::new(s(hp), team),
        health: None,
    }
}

#[test]
fn team_can_damage_rejects_same_team_and_allows_different() {
    assert!(!Team::can_damage(Team::Players, Team::Players));
    assert!(Team::can_damage(Team::Players, Team::Hostile));
    assert!(Team::can_damage(Team::Hostile, Team::Players));
    assert!(Team::can_damage(Team::Players, Team::Neutral));
    assert!(Team::can_damage(Team::Neutral, Team::Players));
}

#[test]
fn falloff_linear_scales_to_zero_at_edge() {
    assert!((f(FalloffKind::Linear.scale(s(0.0), s(3.0))) - 1.0).abs() < 1e-6);
    assert!((f(FalloffKind::Linear.scale(s(1.5), s(3.0))) - 0.5).abs() < 1e-6);
    assert!(f(FalloffKind::Linear.scale(s(3.0), s(3.0))) <= 1e-6);
    assert!(f(FalloffKind::Linear.scale(s(4.0), s(3.0))) <= 1e-6);
    assert!((f(FalloffKind::Flat.scale(s(2.0), s(3.0))) - 1.0).abs() < 1e-6);
}

#[test]
fn a_blast_never_leaves_more_farther_out() {
    for radius in [-1.0, 0.0, 0.7, 3.0, f32::INFINITY] {
        let mut left = 1.0;
        for i in 0..40 {
            let here = f(FalloffKind::Linear.scale(s(i as f32 * 0.1), s(radius)));
            assert!(here <= left);
            left = here;
        }
    }
}

#[test]
fn apply_damage_reduces_hp_and_mirrors_into_networked_health() {
    let mut victims = vec![Victim {
        entity: e(5),
        position: v(0.0, 0.0, 0.0),
        hurtbox: Hurtbox::new(s(100.0), Team::Players),
        health: Some(NetworkedHealth { hp: s(100.0), max_hp: s(100.0) }),
    }];
    let mut deaths: Vec<DeathEvent> = Vec::new();
    apply_damage(&mut victims, e(5), s(30.0), None, &mut deaths);
    let hp = f(victims[0].hurtbox.hp);
    assert!((hp - 70.0).abs() < 1e-6, "hp = {}", hp);
    let net_hp = f(victims[0].health.unwrap().hp);
    assert!((net_hp - 70.0).abs() < 1e-6, "net_hp = {}", net_hp);
}

#[test]
fn apply_damage_emits_death_event_on_hp_zero() {
    let mut victims = vec![victim(5, 10.0, Team::Players, v(0.0, 0.0, 0.0))];
    let target = e(5);
    let killer = e(6);
    let mut events: Vec<DeathEvent> = Vec::new();
    apply_damage(&mut victims, target, s(50.0), Some(killer), &mut events);
    assert_eq!(events.len(), 1);
    assert_eq!(events[0].entity, target);
    assert_eq!(events[0].killer, Some(killer));
}

#[test]
fn apply_damage_clamps_at_zero_and_does_not_refire_death() {
    let mut victims = vec![victim(5, 10.0, Team::Players, v(0.0, 0.0, 0.0))];
    let mut events: Vec<DeathEvent> = Vec::new();
    apply_damage(&mut victims, e(5), s(50.0), None, &mut events);
    apply_damage(&mut victims, e(5), s(50.0), None, &mut events);
    assert_eq!(f(victims[0].hurtbox.hp), 0.0);
    assert_eq!(events.len(), 1, "over-kill must not re-emit DeathEvent");
}

#[test]
fn apply_aoe_damage_respects_falloff_and_team_gate() {
    let mut victims = vec![
        victim(5, 100.0, Team::Players, v(0.0, 0.0, 0.0)),
        victim(6, 100.0, Team::Players, v(2.5, 0.0, 0.0)),
        victim(7, 100.0, Team::Hostile, v(0.1, 0.0, 0.0)),
    ];
    let mut deaths: Vec<DeathEvent> = Vec::new();
    let blast = Blast {
        origin: v(0.0, 0.0, 0.0),
        radius: s(3.0),
        base_damage: s(40.0),
        falloff: FalloffKind::Linear,
        source: None,
        source_team: Team::Hostile,
    };
    apply_aoe_damage(&mut victims, blast, &mut deaths);
    let near_hp = f(victims[0].hurtbox.hp);
    let far_hp = f(victims[1].hurtbox.hp);
    let mate_hp = f(victims[2].hurtbox.hp);
    assert!((near_hp - 60.0).abs() < 1e-4, "near hp = {near_hp}");
    assert!((far_hp - (100.0 - 40.0 / 6.0)).abs() < 1e-4, "far hp = {far_hp}");
    assert!((mate_hp - 100.0).abs() < 1e-6, "teammate hp = {mate_hp}");
}

#[test]
fn a_blast_never_hurts_who_set_it_off() {
    let mut victims = vec![
        victim(5, 100.0, Team::Players, v(0.0, 0.0, 0.0)),
        victim(6, 100.0, Team::Players, v(0.0, 0.0, 0.0)),
    ];
    let mut deaths: Vec<DeathEvent> = Vec::new();
    let blast = Blast {
        origin: v(0.0, 0.0, 0.0),
        radius: s(3.0),
        base_damage: s(200.0),
        falloff: FalloffKind::Flat,
        source: Some(e(5)),
        source_team: Team::Neutral,
    };
    apply_aoe_damage(&mut victims, blast, &mut deaths);
    assert_eq!(f(victims[0].hurtbox.hp), 100.0);
    assert_eq!(f(victims[1].hurtbox.hp), 0.0);
    assert_eq!(deaths, vec![DeathEvent { entity: e(6), killer: Some(e(5)) }]);
}

#[test]
fn amounts_that_are_none_do_nothing() {
    for amount in [0.0, -5.0, f32::NAN, f32::INFINITY] {
        let mut victims = vec![victim(5, 10.0, Team::Players, v(0.0, 0.0, 0.0))];
        let mut deaths: Vec<DeathEvent> = Vec::new();
        apply_damage(&mut victims, e(5), s(amount), None, &mut deaths);
        assert_eq!(f(victims[0].hurtbox.hp), 10.0);
        assert!(deaths.is_empty());
    }
}

#[test]
fn a_hitbox_that_hurts_once_is_used_up_by_the_first_contact() {
    let mut victims = vec![
        victim(5, 100.0, Team::Players, v(0.0, 0.0, 0.0)),
        victim(6, 100.0, Team::Players, v(0.0, 0.0, 0.0)),
    ];
    let carriers = vec![HitboxCarrier {
        entity: e(9),
        hitbox: Hitbox {
            damage: s(25.0),
            team: Team::Neutral,
            source: Some(e(5)),
            single_hit: true,
        },
    }];
    let mut deaths: Vec<DeathEvent> = Vec::new();
    let used = apply_contact_damage(
        &vec![(e(9), e(5)), (e(6), e(9)), (e(9), e(6))],
        &carriers,
        &mut victims,
        &mut deaths,
    );
    assert_eq!(f(victims[0].hurtbox.hp), 100.0);
    assert_eq!(f(victims[1].hurtbox.hp), 75.0);
    assert_eq!(used, vec![e(9)]);
}

#[test]
fn dead_players_come_back_and_other_things_vanish() {
    let mut players = vec![Mortal {
        entity: e(5),
        owner: 9,
        hurtbox: Hurtbox { hp: s(0.0), max_hp: s(100.0), team: Team::Players },
        health: NetworkedHealth { hp: s(0.0), max_hp: s(100.0) },
        position: v(50.0, 1.0, 2.0),
        velocity: v(1.0, 1.0, 1.0),
    }];
    let gone = handle_deaths(
        &vec![
            DeathEvent { entity: e(5), killer: None },
            DeathEvent { entity: e(6), killer: Some(e(5)) },
        ],
        &mut players,
    );
    assert_eq!(gone, vec![e(6)]);
    assert_eq!(f(players[0].hurtbox.hp), 100.0);
    assert_eq!(f(players[0].health.hp), 100.0);
    assert_eq!(players[0].velocity, v(0.0, 0.0, 0.0));
}

#[test]
fn what_cannot_be_hurt_is_on_no_side() {
    let victims = vec![victim(1, 10.0, Team::Hostile, v(0.0, 0.0, 0.0))];
    assert_eq!(lookup_team(&victims, e(1)), Team::Hostile);
    assert_eq!(lookup_team(&victims, e(2)), Team::Neutral);
}

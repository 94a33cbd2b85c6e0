use wisp::entity::Entity;
use wisp::scalar::Scalar;
use wisp::spells::bodies::{
    BodyDef, ColliderShape, ColorDef, MaterialDef, MeshDef, PhysicsDef, RigidBodyKind,
};
use wisp::spells::catalog::{
    rebuild, validate, warn_cast, BodyCatalog, CatalogProblem, HandlerWarnings, ProblemKind,
    Rebuild, SpellCatalog,
};
use wisp::spells::data::{
    ActionRef, BodyEventTrigger, BodyTemplateId, CastDef, CastId, ChargeSource, ChargingDef,
    ConditionDef, EffectDef, HandlerId, LaunchKind, MarkerKind, OriginDef, OverchargeDef,
    PayloadDef, PowerSourceRef, SpellDef, SpellId, TargetDef, TriggerDef, TriggerSpec,
};
use wisp::spells::engine::{
    cancel_on_spell_change, clear_after_dispatch, conditions_met, dispatch_casts, execute_one,
    phase_advance, run_effect, run_payload, settle_cast, tick_charge, tick_cooldowns,
    ActionSnapshot, CastInstance, CastPhase, CastState, EffectRoute, Execution, MarkerCounts, PayloadRoute,
    PrevActionSnapshot,
};
use wisp::spells::handlers::{Authority, HandlerRegistry};
use wisp::spells::triggers::{
    child_of, dispatch_pending_child_casts, enqueue_pending_collision_triggers,
    enqueue_pending_timeout_triggers, BodyTriggers, PendingChildCast, TriggerBody,
};
use wisp::table::{comes_before, same_text, Table};
use wisp::vector::Vec3;

fn s(x: f32) -> Scalar {
    Scalar::from_bits(x.to_bits())
}

fn f(x: Scalar) -> f32 {
    f32::from_bits(x.to_bits())
}

fn v(x: f32, y: f32, z: f32) -> Vec3 {
    Vec3::new(s(x), s(y), s(z))
}

fn e(bits: u64) -> Entity {
    Entity { bits }
}

fn cast(id: &str, trigger: TriggerDef, charging: ChargingDef, cooldown: f32) -> CastDef {
    CastDef {
        id: CastId(id.to_string()),
        label: id.to_string(),
        requires_active: true,
        trigger,
        conditions: vec![],
        charging,
        cooldown: s(cooldown),
        origin: OriginDef::Wand,
        target: TargetDef::default(),
        payload: PayloadDef::Custom { handler: HandlerId(format!("{}.handler", id)) },
        effect: EffectDef::NoEffect,
    }
}

fn spell(id: &str, casts: Vec<CastDef>) -> SpellDef {
    SpellDef { id: SpellId::new(id), label: id.to_string(), icon: None, tint: None, casts }
}

fn one_spell(id: &str, cast: CastDef) -> SpellCatalog {
    let mut catalog = SpellCatalog::new();
    catalog.insert_for_test(spell(id, vec![cast]));
    catalog
}

fn timed(duration: f32, min_release: f32) -> ChargingDef {
    ChargingDef::Charging {
        source: ChargeSource::Time { duration: s(duration) },
        min_release: s(min_release),
        max_charge: s(1.0),
        decay_rate: s(0.0),
        overcharge: None,
    }
}

fn powered(beyond: Option<f32>) -> ChargingDef {
    ChargingDef::Charging {
        source: ChargeSource::Powered { source: PowerSourceRef::LensPower },
        min_release: s(0.0),
        max_charge: s(1.0),
        decay_rate: s(0.5),
        overcharge: beyond.map(|max| OverchargeDef { max: s(max) }),
    }
}

const PRESS: TriggerDef = TriggerDef::Press { action: ActionRef::Fire };
const HOLD: TriggerDef = TriggerDef::Hold { action: ActionRef::Fire };
const RELEASE: TriggerDef = TriggerDef::PressReleaseCharged { action: ActionRef::Fire };

fn firing(fire: bool) -> ActionSnapshot {
    ActionSnapshot { fire, ..ActionSnapshot::none() }
}

/// A player with one spell in hand.
struct Player {
    catalog: SpellCatalog,
    state: CastState,
    prev: PrevActionSnapshot,
}

impl Player {
    fn with(cast: CastDef) -> Player {
        Player {
            catalog: one_spell("spell", cast),
            state: CastState::new(),
            prev: PrevActionSnapshot { prev: ActionSnapshot::none() },
        }
    }

    fn fire(&mut self, held: bool) {
        let spell = SpellId::new("spell");
        phase_advance(&self.catalog, &spell, firing(held), &mut self.state, &mut self.prev);
    }

    fn charge(&mut self, power: f32, dt: f32) {
        tick_charge(&self.catalog, &mut self.state, Some(s(power)), s(dt));
    }

    fn now(&self) -> CastInstance {
        self.state.instance("cast").unwrap_or(CastInstance::idle())
    }
}

#[test]
fn a_press_without_charge_goes_out_at_once() {
    let mut player = Player::with(cast("cast", PRESS, ChargingDef::Uncharged, 0.5));
    player.fire(true);
    assert_eq!(player.now().phase, CastPhase::Releasing);
    assert_eq!(player.now().captured_charge, Some(s(1.0)));
    assert_eq!(dispatch_casts(&player.catalog, &player.state), vec![0]);
    clear_after_dispatch(&mut player.state, "cast", s(0.5));
    assert_eq!(player.now().phase, CastPhase::Cooldown);
    assert_eq!(player.now().captured_charge, None);

    player.fire(false);
    player.fire(true);
    assert_eq!(player.now().phase, CastPhase::Cooldown);
    tick_cooldowns(&mut player.state, s(0.25));
    assert_eq!(player.now().phase, CastPhase::Cooldown);
    tick_cooldowns(&mut player.state, s(0.25));
    assert_eq!(player.now().phase, CastPhase::Idle);
    player.fire(true);
    assert_eq!(player.now().phase, CastPhase::Idle);
    player.fire(false);
    player.fire(true);
    assert_eq!(player.now().phase, CastPhase::Releasing);
}

#[test]
fn a_cast_without_cooldown_is_ready_again() {
    let mut player = Player::with(cast("cast", PRESS, ChargingDef::Uncharged, 0.0));
    player.fire(true);
    clear_after_dispatch(&mut player.state, "cast", s(0.0));
    assert_eq!(player.now().phase, CastPhase::Idle);
}

#[test]
fn too_little_charge_fizzles() {
    let mut player = Player::with(cast("cast", RELEASE, timed(1.0, 0.5), 0.0));
    player.fire(true);
    assert_eq!(player.now().phase, CastPhase::Charging);
    player.charge(0.0, 0.25);
    assert_eq!(f(player.now().charge), 0.25);
    player.fire(false);
    assert_eq!(player.now().phase, CastPhase::Idle);
    assert_eq!(f(player.now().charge), 0.0);

    player.fire(true);
    player.charge(0.0, 0.75);
    player.fire(true);
    player.fire(false);
    assert_eq!(player.now().phase, CastPhase::Releasing);
    assert_eq!(player.now().captured_charge, Some(s(0.75)));
}

#[test]
fn a_charge_is_capped() {
    let mut player = Player::with(cast("cast", RELEASE, timed(1.0, 0.0), 0.0));
    player.fire(true);
    player.charge(0.0, 9.0);
    assert_eq!(f(player.now().charge), 1.0);

    let mut player = Player::with(cast("cast", RELEASE, powered(Some(3.0)), 0.0));
    player.fire(true);
    player.charge(4.0, 0.5);
    assert_eq!(f(player.now().charge), 2.0);
    player.charge(4.0, 0.5);
    assert_eq!(f(player.now().charge), 3.0);
    player.charge(0.0, 1.0);
    assert_eq!(f(player.now().charge), 2.5);
    player.charge(0.0, 9.0);
    assert_eq!(f(player.now().charge), 0.0);
}

#[test]
fn a_held_cast_channels_once_it_is_full() {
    let mut player = Player::with(cast("cast", HOLD, timed(0.5, 0.0), 2.0));
    player.fire(true);
    assert_eq!(player.now().phase, CastPhase::Charging);
    player.charge(0.0, 0.25);
    player.fire(true);
    assert_eq!(player.now().phase, CastPhase::Charging);
    player.charge(0.0, 0.25);
    assert_eq!(player.now().phase, CastPhase::Channeling);
    assert_eq!(f(player.now().charge), 0.0);
    player.fire(true);
    assert_eq!(player.now().phase, CastPhase::Channeling);
    player.fire(false);
    assert_eq!(player.now().phase, CastPhase::Cooldown);
    assert_eq!(f(player.now().cooldown_remaining), 2.0);

    let mut player = Player::with(cast("cast", HOLD, timed(0.5, 0.0), 0.0));
    player.fire(true);
    player.fire(false);
    assert_eq!(player.now().phase, CastPhase::Idle);

    let mut player = Player::with(cast("cast", HOLD, ChargingDef::Uncharged, 0.0));
    player.fire(true);
    assert_eq!(player.now().phase, CastPhase::Channeling);
    player.fire(false);
    assert_eq!(player.now().phase, CastPhase::Idle);
}

#[test]
fn a_charged_press_needs_its_least_charge() {
    let mut player = Player::with(cast("cast", PRESS, timed(1.0, 0.5), 0.0));
    player.fire(true);
    assert_eq!(player.now().phase, CastPhase::Charging);
    player.charge(0.0, 0.25);
    player.fire(false);
    assert_eq!(player.now().phase, CastPhase::Idle);
    player.fire(true);
    player.charge(0.0, 0.5);
    player.fire(false);
    assert_eq!(player.now().phase, CastPhase::Releasing);
    assert_eq!(f(player.now().charge), 0.0);
}

#[test]
fn only_the_spell_in_hand_is_cast() {
    let mut player = Player::with(cast("cast", PRESS, ChargingDef::Uncharged, 0.0));
    let other = SpellId::new("other");
    phase_advance(
        &player.catalog,
        &other,
        firing(true),
        &mut player.state,
        &mut player.prev,
    );
    assert_eq!(player.now().phase, CastPhase::Idle);
    assert!(dispatch_casts(&player.catalog, &player.state).is_empty());
    assert!(player.prev.prev.fire);
}

#[test]
fn a_change_of_spell_cancels_what_is_under_way() {
    let mut player = Player::with(cast("cast", HOLD, timed(0.5, 0.0), 0.0));
    player.fire(true);
    player.charge(0.0, 0.25);
    cancel_on_spell_change(&player.catalog, &SpellId::new("spell"), &mut player.state);
    assert_eq!(player.now().phase, CastPhase::Charging);
    cancel_on_spell_change(&player.catalog, &SpellId::new("other"), &mut player.state);
    assert_eq!(player.now().phase, CastPhase::Idle);
    assert_eq!(f(player.now().charge), 0.0);
}

#[test]
fn each_action_is_its_own() {
    let all = ActionSnapshot {
        fire: true,
        fire_secondary: false,
        throw_lantern: true,
        pickup: false,
        jump: true,
    };
    assert!(all.held(ActionRef::Fire));
    assert!(!all.held(ActionRef::FireSecondary));
    assert!(all.held(ActionRef::ThrowLantern));
    assert!(!all.held(ActionRef::Pickup));
    assert!(all.held(ActionRef::Jump));
}

const FEW: MarkerCounts = MarkerCounts { lanterns: 2, travelers: 0, glaciers: 0, spikes: 5 };

#[test]
fn conditions_hold_or_do_not() {
    let at_most = |max: u32| vec![ConditionDef::MaxCount { marker: MarkerKind::Lantern, max }];
    assert!(conditions_met(&vec![], FEW, s(0.0)));
    assert!(conditions_met(&at_most(3), FEW, s(0.0)));
    assert!(!conditions_met(&at_most(2), FEW, s(0.0)));
    let bright = vec![ConditionDef::LensPowerAtLeast(s(0.5))];
    assert!(conditions_met(&bright, FEW, s(0.5)));
    assert!(!conditions_met(&bright, FEW, s(0.25)));
    assert_eq!(FEW.of(MarkerKind::FrostSpike), 5);
}

#[test]
fn a_cast_runs_is_refused_or_is_gone() {
    let mut def = cast("cast", PRESS, ChargingDef::Uncharged, 0.0);
    def.conditions = vec![ConditionDef::MaxCount { marker: MarkerKind::Lantern, max: 2 }];
    let catalog = one_spell("spell", def);
    let released = CastInstance {
        phase: CastPhase::Releasing,
        captured_charge: Some(s(0.75)),
        ..CastInstance::idle()
    };
    assert!(matches!(
        execute_one(&catalog, e(7), "unheard_of", released, FEW, s(0.0)),
        Execution::Gone
    ));
    assert!(matches!(
        execute_one(&catalog, e(7), "cast", released, FEW, s(0.0)),
        Execution::Refused { spell: 0, cast: 0 }
    ));
    let none = MarkerCounts { lanterns: 0, ..FEW };
    match execute_one(&catalog, e(7), "cast", released, none, s(0.0)) {
        Execution::Run { spell: 0, cast: 0, context } => {
            assert_eq!(context.player, e(7));
            assert!(context.spell_id.is("spell"));
            assert_eq!(context.cast_id.0, "cast");
            assert_eq!(context.captured_charge, Some(s(0.75)));
            assert_eq!(context.authority, Authority::Both);
            assert_eq!(context.chain_depth, 0);
        },
        other => panic!("{:?}", other),
    }
}

#[test]
fn a_cast_that_was_carried_out_is_over_unless_it_channels() {
    let catalog = one_spell("spell", cast("cast", PRESS, ChargingDef::Uncharged, 0.5));
    let after = |phase: CastPhase, name: &str, done: &dyn Fn(CastInstance) -> Execution| {
        let mut state = CastState::new();
        let instance =
            CastInstance { phase, captured_charge: Some(s(0.75)), ..CastInstance::idle() };
        state.instances.insert("cast".to_string(), instance);
        settle_cast(&mut state, name, phase, &done(instance), s(0.5));
        state.instance("cast").unwrap()
    };
    let run = |i: CastInstance| execute_one(&catalog, e(7), "cast", i, FEW, s(0.0));
    let refused = |_: CastInstance| Execution::Refused { spell: 0, cast: 0 };
    let gone = |_: CastInstance| Execution::Gone;
    let over = after(CastPhase::Releasing, "cast", &run);
    assert_eq!((over.phase, over.captured_charge), (CastPhase::Cooldown, None));
    assert_eq!(f(over.cooldown_remaining), 0.5);
    assert_eq!(after(CastPhase::Releasing, "cast", &refused), over);
    let kept = after(CastPhase::Channeling, "cast", &run);
    assert_eq!((kept.phase, kept.captured_charge), (CastPhase::Channeling, Some(s(0.75))));
    assert_eq!(after(CastPhase::Releasing, "cast", &gone).phase, CastPhase::Releasing);
    assert_eq!(after(CastPhase::Releasing, "other", &run).phase, CastPhase::Releasing);
}

#[test]
fn a_charge_stays_between_nothing_and_its_cap() {
    for charging in [timed(0.7, 0.0), timed(0.0, 0.0), powered(None), powered(Some(1.5))] {
        let (cap, by_time) = match charging {
            ChargingDef::Charging { overcharge, source, .. } => {
                (overcharge.map_or(1.0, |o| f(o.max)), matches!(source, ChargeSource::Time { .. }))
            },
            ChargingDef::Uncharged => (0.0, true),
        };
        let mut player = Player::with(cast("cast", RELEASE, charging, 0.0));
        player.fire(true);
        let mut last = f(player.now().charge);
        for (power, dt) in [(0.5, 0.1), (9.0, 0.2), (0.0, 0.3), (-1.0, 9.0), (2.0, 0.01)] {
            player.charge(power, dt);
            let charge = f(player.now().charge);
            assert!(charge >= 0.0 && charge <= cap);
            assert!(!by_time || charge >= last);
            last = charge;
        }
    }
    let mut still = Player::with(cast("cast", PRESS, timed(0.5, 0.0), 0.0));
    let idle = CastInstance { charge: s(0.25), ..CastInstance::idle() };
    still.state.instances.insert("cast".to_string(), idle);
    still.charge(1.0, 1.0);
    assert_eq!(still.now(), idle);
}

#[test]
fn payloads_and_effects_have_their_ways() {
    let mut def = cast("cast", PRESS, ChargingDef::Uncharged, 0.0);
    let mut handlers: HandlerRegistry<u32> = HandlerRegistry::new();
    assert_eq!(run_payload(&def, &handlers), PayloadRoute::MissingHandler);
    assert!(!handlers.register(HandlerId("cast.handler".to_string()), 1));
    assert!(handlers.register(HandlerId("cast.handler".to_string()), 2));
    assert_eq!(handlers.get(&HandlerId("cast.handler".to_string())), Some(&2));
    assert_eq!(run_payload(&def, &handlers), PayloadRoute::Handler);
    def.target = TargetDef::Forward { distance: s(12.0) };
    def.payload = PayloadDef::Hitscan { portal_aware: false };
    assert_eq!(run_payload(&def, &handlers), PayloadRoute::Hitscan { reach: s(12.0) });

    assert_eq!(run_effect(&def, &handlers), EffectRoute::Nothing);
    def.effect = EffectDef::Impulse { magnitude: s(3.0) };
    assert_eq!(run_effect(&def, &handlers), EffectRoute::Impulse { magnitude: s(3.0) });
    def.effect = EffectDef::Despawn;
    assert_eq!(run_effect(&def, &handlers), EffectRoute::Despawn);
    def.effect = EffectDef::Custom { handler: HandlerId("none".to_string()) };
    assert_eq!(run_effect(&def, &handlers), EffectRoute::MissingHandler);
}

fn body(id: &str) -> BodyDef {
    let white = ColorDef { r: s(1.0), g: s(1.0), b: s(1.0), a: s(1.0) };
    BodyDef {
        id: BodyTemplateId(id.to_string()),
        mesh: MeshDef::Sphere { radius: s(0.25) },
        material: MaterialDef { base_color: white, emissive: white, roughness: s(0.5) },
        physics: PhysicsDef {
            body: RigidBodyKind::Dynamic,
            collider: ColliderShape::Sphere { radius: s(0.25) },
            mass: s(2.0),
            friction: s(0.5),
            linear_damping: s(0.1),
            angular_damping: s(0.2),
            restitution: s(0.3),
        },
        light: None,
        markers: vec![],
    }
}

fn throwing(template: &str) -> PayloadDef {
    PayloadDef::SpawnBody {
        template: BodyTemplateId(template.to_string()),
        launch: LaunchKind::Drop,
        on_event: vec![],
    }
}

#[test]
fn a_catalog_with_problems_is_not_taken() {
    let mut spells = SpellCatalog::new();
    let mut bodies = BodyCatalog::new();
    let good = vec![spell("a", vec![cast("a.one", PRESS, ChargingDef::Uncharged, 0.0)])];
    let first = rebuild(good, vec![body("ball")], &mut spells, &mut bodies);
    assert!(matches!(first, Rebuild::Live { announce: true }));

    let mut unknown = cast("b.one", PRESS, ChargingDef::Uncharged, 0.0);
    unknown.payload = throwing("cube");
    let bad = vec![
        spell("b", vec![unknown, cast("b.two", PRESS, ChargingDef::Uncharged, -1.0)]),
        spell("a", vec![cast("b.two", PRESS, ChargingDef::Uncharged, 0.0)]),
    ];
    match rebuild(bad, vec![body("ball")], &mut spells, &mut bodies) {
        Rebuild::Kept { problems, refused } => {
            assert_eq!(
                problems,
                vec![
                    CatalogProblem { spell: 1, cast: 0, kind: ProblemKind::UnknownBodyTemplate },
                    CatalogProblem { spell: 1, cast: 1, kind: ProblemKind::DuplicateCastId },
                    CatalogProblem { spell: 1, cast: 1, kind: ProblemKind::NegativeCooldown },
                ]
            );
            assert_eq!(refused.ids(), &vec!["a".to_string(), "b".to_string()]);
        },
        other => panic!("{:?}", other),
    }
    assert!(spells.get(&SpellId::new("a")).is_some());
    assert!(spells.get(&SpellId::new("b")).is_none());
    assert_eq!(spells.get(&SpellId::new("a")).unwrap().casts[0].id.0, "a.one");
}

#[test]
fn only_a_change_of_names_is_announced() {
    let mut spells = SpellCatalog::new();
    let mut bodies = BodyCatalog::new();
    let defs = || {
        vec![
            spell("b", vec![]),
            spell("a", vec![cast("a.one", PRESS, ChargingDef::Uncharged, 0.0)]),
        ]
    };
    rebuild(defs(), vec![body("ball")], &mut spells, &mut bodies);
    assert_eq!(spells.ids(), &vec!["a".to_string(), "b".to_string()]);
    let again = rebuild(defs(), vec![body("ball")], &mut spells, &mut bodies);
    assert!(matches!(again, Rebuild::Live { announce: false }));
    let more = rebuild(defs(), vec![body("ball"), body("cube")], &mut spells, &mut bodies);
    assert!(matches!(more, Rebuild::Live { announce: true }));
    assert!(bodies.get(&BodyTemplateId("cube".to_string())).is_some());
    assert!(bodies.get(&BodyTemplateId("cone".to_string())).is_none());
    assert!(!spells.is_empty());
}

#[test]
fn a_sound_catalog_has_no_problems() {
    let defs = vec![spell("a", vec![cast("a.one", PRESS, ChargingDef::Uncharged, 0.0)])];
    assert_eq!(validate(&defs, &BodyCatalog::new()), vec![]);
}

#[test]
fn a_missing_handler_is_told_of_once() {
    let def = cast("cast", PRESS, ChargingDef::Uncharged, 0.0);
    let mut handlers: HandlerRegistry<u32> = HandlerRegistry::new();
    let mut warnings = HandlerWarnings::new();
    assert_eq!(warn_cast(&def, &handlers, &mut warnings), (true, false));
    assert_eq!(warn_cast(&def, &handlers, &mut warnings), (false, false));
    handlers.register(HandlerId("cast.handler".to_string()), 1);
    let mut fresh = HandlerWarnings::new();
    assert_eq!(warn_cast(&def, &handlers, &mut fresh), (false, false));
}

fn fuse(bits: u64) -> TriggerBody {
    TriggerBody {
        entity: e(bits),
        position: v(bits as f32, 0.0, 0.0),
        triggers: BodyTriggers {
            events: vec![BodyEventTrigger::OnCollision {
                triggers: TriggerSpec {
                    spell_id: SpellId::new("fireball"),
                    cast_id: CastId("fireball.burst".to_string()),
                },
            }],
            original_caster: Some(e(7)),
            captured_charge: Some(s(0.5)),
            chain_depth: 1,
            caused_by: None,
            fired: false,
            elapsed: s(0.0),
        },
    }
}

#[test]
fn a_body_sets_off_its_cast_once() {
    let mut bodies = vec![fuse(1), fuse(2)];
    let mut pending = vec![];
    let touching = vec![(e(1), e(9)), (e(8), e(1)), (e(9), e(8))];
    let used = enqueue_pending_collision_triggers(&touching, &mut bodies, &mut pending);
    assert_eq!(used, vec![e(1)]);
    assert_eq!(pending.len(), 1);
    assert_eq!(pending[0].cast_id.0, "fireball.burst");
    assert_eq!(pending[0].origin, v(1.0, 0.0, 0.0));
    assert_eq!(pending[0].original_caster, Some(e(7)));
    assert!(bodies[0].triggers.fired && !bodies[1].triggers.fired);

    let child = child_of(&pending[0]);
    assert_eq!(child.origin, OriginDef::Impact(v(1.0, 0.0, 0.0)));
    assert_eq!(child.captured_charge, Some(s(0.5)));
    assert!(child.chain_depth > 1);
}

#[test]
fn a_table_has_every_name_once() {
    let mut table: Table<u32> = Table::new();
    assert!(table.is_empty());
    assert!(!table.insert("b".to_string(), 1));
    assert!(!table.insert("a".to_string(), 2));
    assert!(table.insert("b".to_string(), 3));
    assert_eq!(table.keys, vec!["b".to_string(), "a".to_string()]);
    assert_eq!(table.get("b"), Some(&3));
    assert_eq!(table.find("a"), Some(1));
    assert_eq!(table.find("c"), None);
    let mut sorted: Table<u32> = Table::new();
    for (key, value) in [("m", 1), ("a", 2), ("z", 3), ("m", 4), ("b", 5)] {
        sorted.insert_sorted(key.to_string(), value);
    }
    assert_eq!(sorted.keys, vec!["a", "b", "m", "z"]);
    assert_eq!(sorted.values, vec![2, 5, 4, 3]);
    assert!(same_text("iris", "iris") && !same_text("iris", "iri"));
    for (a, b) in [("a", "b"), ("a", "ab"), ("", "a"), ("Z", "a"), ("a.b", "a_b"), ("é", "ü")] {
        assert!(comes_before(a, b) && a < b);
        assert!(!comes_before(b, a) && comes_before(a, a));
    }
}

fn waiting(cast_id: &str, chain_depth: u8) -> PendingChildCast {
    PendingChildCast {
        spell_id: SpellId::new("spell"),
        cast_id: CastId(cast_id.to_string()),
        origin: v(1.0, 2.0, 3.0),
        original_caster: Some(e(7)),
        captured_charge: Some(s(0.5)),
        chain_depth,
        caused_by: None,
    }
}

#[test]
fn what_was_set_off_runs_once_and_in_order() {
    let catalog = one_spell("spell", cast("cast", PRESS, ChargingDef::Uncharged, 0.0));
    let mut pending = vec![waiting("cast", 1), waiting("unheard_of", 1), waiting("cast", 4)];
    let due = dispatch_pending_child_casts(&catalog, &mut pending);
    assert!(pending.is_empty());
    assert_eq!(due.len(), 2);
    assert_eq!((due[0].context.chain_depth, due[1].context.chain_depth), (1, 4));
    assert_eq!(due[0].context.player, e(7));
    assert_eq!(due[0].context.origin, OriginDef::Impact(v(1.0, 2.0, 3.0)));
    assert!(dispatch_pending_child_casts(&catalog, &mut pending).is_empty());
}

#[test]
fn a_chain_ends() {
    let catalog = one_spell("spell", cast("cast", PRESS, ChargingDef::Uncharged, 0.0));
    for depth in [4, 5, 254, 255] {
        let mut body = fuse(1);
        body.triggers.chain_depth = depth;
        body.triggers.events = vec![BodyEventTrigger::OnCollision {
            triggers: TriggerSpec {
                spell_id: SpellId::new("spell"),
                cast_id: CastId("cast".to_string()),
            },
        }];
        let mut pending = vec![];
        enqueue_pending_collision_triggers(&vec![(e(1), e(9))], &mut vec![body], &mut pending);
        assert_eq!(pending.len(), 1);
        assert!(dispatch_pending_child_casts(&catalog, &mut pending).is_empty());
    }
}

#[test]
fn a_fuse_burns_down_once() {
    let mut bomb = fuse(1);
    let spec = |cast_id: &str| TriggerSpec {
        spell_id: SpellId::new("bomb"),
        cast_id: CastId(cast_id.to_string()),
    };
    bomb.triggers.events = vec![
        BodyEventTrigger::OnCollision { triggers: spec("bomb.hit") },
        BodyEventTrigger::OnTimeout { secs: s(1.0), triggers: spec("bomb.late") },
        BodyEventTrigger::OnTimeout { secs: s(0.5), triggers: spec("bomb.early") },
    ];
    let mut bodies = vec![fuse(2), bomb];
    let mut pending = vec![];
    assert!(enqueue_pending_timeout_triggers(&mut bodies, s(0.25), &mut pending).is_empty());
    assert_eq!(f(bodies[1].triggers.elapsed), 0.25);
    let used = enqueue_pending_timeout_triggers(&mut bodies, s(0.25), &mut pending);
    assert_eq!(used, vec![e(1)]);
    assert_eq!(pending.len(), 1);
    assert_eq!(pending[0].cast_id.0, "bomb.early");
    assert_eq!(pending[0].origin, v(1.0, 0.0, 0.0));
    assert_eq!(pending[0].chain_depth, 2);
    assert!(enqueue_pending_timeout_triggers(&mut bodies, s(9.0), &mut pending).is_empty());
    assert!(!bodies[0].triggers.fired && bodies[1].triggers.fired);
    assert_eq!(pending.len(), 1);
}

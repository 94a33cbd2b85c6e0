use wisp::entity::{placeholder, Entity};
use wisp::scalar::Scalar;
use wisp::spells::catalog::SpellCatalog;
use wisp::spells::data::{
    ActionRef, AreaShape, CastDef, CastId, ChargingDef, EffectDef, HandlerId, OriginDef,
    PayloadDef, SpellDef, SpellId, TargetDef, TriggerDef,
};
use wisp::spells::engine::{
    dispatch_child_cast, run_payload, ChildCastContext, ChildDispatch, PayloadRoute,
};
use wisp::spells::handlers::HandlerRegistry;
use wisp::vector::Vec3;

fn s(x: f32) -> Scalar {
    Scalar::from_bits(x.to_bits())
}

fn f(x: Scalar) -> f32 {
    f32::from_bits(x.to_bits())
}

fn v(x: f32, y: f32, z: f32) -> Vec3 {
    Vec3::new(s(x), s(y), s(z))
}

fn probe_spell(spell_id: &str, cast_id: &str, handler: &str, target: TargetDef) -> SpellDef {
    SpellDef {
        id: SpellId::new(spell_id),
        label: "probe".to_string(),
        icon: None,
        tint: None,
        casts: vec![CastDef {
            id: CastId(cast_id.to_string()),
            label: "probe".to_string(),
            requires_active: false,
            trigger: TriggerDef::Press { action: ActionRef::Fire },
            conditions: vec![],
            charging: ChargingDef::Uncharged,
            cooldown: s(0.0),
            origin: OriginDef::Wand,
            target,
            payload: PayloadDef::Custom { handler: HandlerId(handler.to_string()) },
            effect: EffectDef::NoEffect,
        }],
    }
}

/// What a handler was told, if it was called.
#[derive(Default)]
struct Probe {
    calls: u32,
    captured_charge: Option<f32>,
    origin: Option<OriginDef>,
    target: Option<TargetDef>,
    chain_depth: Option<u8>,
}

fn dispatch(target: TargetDef, spell: &str, cast: &str, child: ChildCastContext) -> (bool, Probe) {
    let mut catalog = SpellCatalog::new();
    catalog.insert_for_test(probe_spell("test_spell", "test_spell.probe", "test.probe", target));
    let mut handlers: HandlerRegistry<u32> = HandlerRegistry::new();
    handlers.register(HandlerId("test.probe".to_string()), 17);
    let mut probe = Probe::default();
    let found: Option<ChildDispatch> =
        dispatch_child_cast(&catalog, &SpellId::new(spell), &CastId(cast.to_string()), &child);
    match found {
        Some(d) => {
            let cast = &catalog.iter()[d.spell].casts[d.cast];
            if matches!(run_payload(cast, &handlers), PayloadRoute::Handler) {
                probe.calls += 1;
                probe.captured_charge = d.context.captured_charge.map(f);
                probe.origin = Some(d.context.origin);
                probe.target = Some(d.context.target);
                probe.chain_depth = Some(d.context.chain_depth);
            }
            (true, probe)
        }
        None => (false, probe),
    }
}

#[test]
fn dispatch_child_cast_runs_custom_handler() {
    let (dispatched, snap) = dispatch(
        TargetDef::default(),
        "test_spell",
        "test_spell.probe",
        ChildCastContext {
            origin: OriginDef::Impact(v(1.0, 2.0, 3.0)),
            original_caster: None,
            captured_charge: Some(s(2.5)),
            chain_depth: 0,
            caused_by: None,
        },
    );
    assert!(dispatched, "expected dispatch_child_cast to succeed");
    assert_eq!(snap.calls, 1);
    assert_eq!(snap.captured_charge, Some(2.5));
    assert!(matches!(
        snap.origin,
        Some(OriginDef::Impact(p)) if p == v(1.0, 2.0, 3.0)
    ));
    assert_eq!(snap.chain_depth, Some(0));
}

#[test]
fn dispatch_child_cast_propagates_area_target_to_handler() {
    let (dispatched, snap) = dispatch(
        TargetDef::Area { shape: AreaShape::Sphere { radius: s(3.5) } },
        "test_spell",
        "test_spell.probe",
        ChildCastContext {
            origin: OriginDef::Impact(v(0.0, 0.0, 0.0)),
            original_caster: None,
            captured_charge: None,
            chain_depth: 2,
            caused_by: None,
        },
    );
    assert!(dispatched);
    assert_eq!(snap.chain_depth, Some(2));
    assert!(matches!(
        snap.target,
        Some(TargetDef::Area {
            shape: AreaShape::Sphere { radius }
        }) if (f(radius) - 3.5).abs() < 1e-6
    ));
}

#[test]
fn dispatch_child_cast_returns_false_when_chain_too_deep() {
    let (dispatched, snap) = dispatch(
        TargetDef::default(),
        "test_spell",
        "test_spell.probe",
        ChildCastContext {
            origin: OriginDef::Wand,
            original_caster: None,
            captured_charge: None,
            chain_depth: 5,
            caused_by: None,
        },
    );
    assert!(!dispatched, "expected abort");
    assert_eq!(snap.calls, 0, "handler must not run when depth exceeded");
}

#[test]
fn dispatch_child_cast_returns_false_for_unknown_spell() {
    let (dispatched, snap) = dispatch(
        TargetDef::default(),
        "nonexistent_spell",
        "nonexistent_spell.cast",
        ChildCastContext {
            origin: OriginDef::Wand,
            original_caster: None,
            captured_charge: None,
            chain_depth: 0,
            caused_by: None,
        },
    );
    assert!(!dispatched);
    assert_eq!(snap.calls, 0);
}

#[test]
fn a_chain_of_four_still_runs() {
    let (dispatched, _) = dispatch(
        TargetDef::default(),
        "test_spell",
        "test_spell.probe",
        ChildCastContext {
            origin: OriginDef::Wand,
            original_caster: Some(Entity { bits: 3 }),
            captured_charge: None,
            chain_depth: 4,
            caused_by: None,
        },
    );
    assert!(dispatched);
}

#[test]
fn nothing_has_the_handle_that_the_engine_keeps_for_it() {
    assert_eq!(placeholder().bits, bevy::prelude::Entity::PLACEHOLDER.to_bits());
}

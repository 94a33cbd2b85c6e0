//! The life of a cast: from idle over charging, channeling or releasing to its
//! cooldown.
//!
//! Each frame runs four steps: cooldowns tick, input moves casts from phase to
//! phase, charges tick, and casts that channel or release go out.

use crate::entity::{placeholder, Entity};
use crate::scalar::{
    lemma_minus_no_greater, lemma_over_not_negative, lemma_plus_no_less, lemma_times_not_negative,
    one, zero, Scalar,
};
use crate::spells::catalog::{named_before, SpellCatalog};
use crate::spells::data::{
    ActionRef, CastDef, CastId, ChargeSource, ChargingDef, ConditionDef, EffectDef, MarkerKind,
    OriginDef, PayloadDef, SpellDef, SpellId, TriggerDef, TriggerSpec,
};
use crate::spells::handlers::{Authority, CastContext, HandlerRegistry};
use crate::table::{has_key, place_of, same_text, Table};
use crate::vector::Vec3;
use vstd::prelude::*;

verus! {

/// Where a cast is in its life.
#[derive(Clone, Copy, Debug, PartialEq, Eq, Structural)]
pub enum CastPhase {
    Idle,
    /// Gathering charge.
    Charging,
    /// Going out each frame.
    Channeling,
    /// Going out once.
    Releasing,
    /// Waiting.
    Cooldown,
}

/// A player's progress with one cast.
#[derive(Clone, Copy, Debug, PartialEq, Eq, Structural)]
pub struct CastInstance {
    pub phase: CastPhase,
    pub charge: Scalar,
    /// The charge at the moment of release.
    pub captured_charge: Option<Scalar>,
    pub cooldown_remaining: Scalar,
}

impl CastInstance {
    pub open spec fn spec_idle() -> CastInstance {
        CastInstance {
            phase: CastPhase::Idle,
            charge: zero(),
            captured_charge: None,
            cooldown_remaining: zero(),
        }
    }

    /// A cast that has not been used yet.
    #[verifier::when_used_as_spec(spec_idle)]
    pub fn idle() -> (r: CastInstance)
        ensures
            r == Self::spec_idle(),
    {
        CastInstance {
            phase: CastPhase::Idle,
            charge: zero(),
            captured_charge: None,
            cooldown_remaining: zero(),
        }
    }
}

/// A player's progress with every cast used so far.
#[derive(Debug)]
pub struct CastState {
    pub instances: Table<CastInstance>,
}

impl View for CastState {
    type V = Map<Seq<char>, CastInstance>;

    open spec fn view(&self) -> Map<Seq<char>, CastInstance> {
        self.instances@
    }
}

impl CastState {
    /// No cast occurs twice.
    pub open spec fn wf(&self) -> bool {
        self.instances.wf()
    }

    /// Nothing cast yet.
    pub fn new() -> (r: CastState)
        ensures
            r.wf(),
            r@ == Map::<Seq<char>, CastInstance>::empty(),
    {
        CastState { instances: Table::new() }
    }

    /// The progress with a cast, if it was used.
    pub fn instance(&self, id: &str) -> (r: Option<CastInstance>)
        requires
            self.wf(),
        ensures
            r == (if self@.contains_key(id@) {
                Some(self@[id@])
            } else {
                None
            }),
    {
        match self.instances.find(id) {
            Some(i) => Some(self.instances.values[i]),
            None => None,
        }
    }
}

/// Which actions are going on.
#[derive(Clone, Copy, Debug, PartialEq, Eq, Structural)]
pub struct ActionSnapshot {
    pub fire: bool,
    pub fire_secondary: bool,
    pub throw_lantern: bool,
    pub pickup: bool,
    pub jump: bool,
}

impl ActionSnapshot {
    pub open spec fn spec_none() -> ActionSnapshot {
        ActionSnapshot {
            fire: false,
            fire_secondary: false,
            throw_lantern: false,
            pickup: false,
            jump: false,
        }
    }

    /// No action at all.
    #[verifier::when_used_as_spec(spec_none)]
    pub fn none() -> (r: ActionSnapshot)
        ensures
            r == Self::spec_none(),
    {
        ActionSnapshot {
            fire: false,
            fire_secondary: false,
            throw_lantern: false,
            pickup: false,
            jump: false,
        }
    }

    pub open spec fn spec_held(self, action: ActionRef) -> bool {
        match action {
            ActionRef::Fire => self.fire,
            ActionRef::FireSecondary => self.fire_secondary,
            ActionRef::ThrowLantern => self.throw_lantern,
            ActionRef::Pickup => self.pickup,
            ActionRef::Jump => self.jump,
        }
    }

    /// Whether an action is going on.
    #[verifier::when_used_as_spec(spec_held)]
    pub fn held(self, action: ActionRef) -> (r: bool)
        ensures
            r == self.spec_held(action),
    {
        match action {
            ActionRef::Fire => self.fire,
            ActionRef::FireSecondary => self.fire_secondary,
            ActionRef::ThrowLantern => self.throw_lantern,
            ActionRef::Pickup => self.pickup,
            ActionRef::Jump => self.jump,
        }
    }
}

/// The actions of the frame before.
#[derive(Clone, Copy, Debug, PartialEq, Eq, Structural)]
pub struct PrevActionSnapshot {
    pub prev: ActionSnapshot,
}

/// The shortest time in which a charge can fill (`1e-3`).
#[verifier::allow_in_spec]
pub fn shortest_duration() -> Scalar
    returns
        (Scalar { bits: 0x3a83_126f }),
{
    Scalar { bits: 0x3a83_126f }
}

pub open spec fn spec_cooled(instance: CastInstance, dt: Scalar) -> CastInstance {
    if instance.phase != CastPhase::Cooldown {
        instance
    } else if instance.cooldown_remaining.minus(dt).le(zero()) {
        CastInstance {
            phase: CastPhase::Idle,
            charge: instance.charge,
            captured_charge: instance.captured_charge,
            cooldown_remaining: zero(),
        }
    } else {
        CastInstance {
            phase: CastPhase::Cooldown,
            charge: instance.charge,
            captured_charge: instance.captured_charge,
            cooldown_remaining: instance.cooldown_remaining.minus(dt),
        }
    }
}

/// A cast after `dt` seconds of cooldown.
#[verifier::when_used_as_spec(spec_cooled)]
pub fn cooled(instance: CastInstance, dt: Scalar) -> (r: CastInstance)
    ensures
        r == spec_cooled(instance, dt),
{
    if instance.phase != CastPhase::Cooldown {
        instance
    } else if instance.cooldown_remaining.minus(dt).le(zero()) {
        CastInstance {
            phase: CastPhase::Idle,
            charge: instance.charge,
            captured_charge: instance.captured_charge,
            cooldown_remaining: zero(),
        }
    } else {
        CastInstance {
            phase: CastPhase::Cooldown,
            charge: instance.charge,
            captured_charge: instance.captured_charge,
            cooldown_remaining: instance.cooldown_remaining.minus(dt),
        }
    }
}

pub open spec fn spec_charged(
    charge: Scalar,
    source: ChargeSource,
    max_charge: Scalar,
    decay_rate: Scalar,
    hard_cap: Scalar,
    lens_power: Scalar,
    dt: Scalar,
) -> Scalar {
    match source {
        ChargeSource::Time { duration } => charge.plus(
            max_charge.over(duration.max(shortest_duration())).times(dt),
        ).min(hard_cap),
        ChargeSource::Powered { source: _ } => if lens_power.gt(zero()) {
            charge.plus(lens_power.times(dt)).min(hard_cap)
        } else {
            charge.minus(decay_rate.times(dt)).max(zero())
        },
    }
}

/// A charge after `dt` seconds.
#[verifier::when_used_as_spec(spec_charged)]
pub fn charged(
    charge: Scalar,
    source: ChargeSource,
    max_charge: Scalar,
    decay_rate: Scalar,
    hard_cap: Scalar,
    lens_power: Scalar,
    dt: Scalar,
) -> (r: Scalar)
    ensures
        r == spec_charged(charge, source, max_charge, decay_rate, hard_cap, lens_power, dt),
{
    match source {
        ChargeSource::Time { duration } => charge.plus(
            max_charge.over(duration.max(shortest_duration())).times(dt),
        ).min(hard_cap),
        ChargeSource::Powered { source: _ } => if lens_power.gt(zero()) {
            charge.plus(lens_power.times(dt)).min(hard_cap)
        } else {
            charge.minus(decay_rate.times(dt)).max(zero())
        },
    }
}

pub open spec fn spec_is_hold(trigger: TriggerDef) -> bool {
    match trigger {
        TriggerDef::Hold { action: _ } => true,
        _ => false,
    }
}

/// Whether a cast goes on for as long as its action.
#[verifier::when_used_as_spec(spec_is_hold)]
pub fn is_hold(trigger: TriggerDef) -> (r: bool)
    ensures
        r == spec_is_hold(trigger),
{
    match trigger {
        TriggerDef::Hold { action: _ } => true,
        _ => false,
    }
}

pub open spec fn spec_after_charge(
    instance: CastInstance,
    charging: ChargingDef,
    trigger: TriggerDef,
    lens_power: Scalar,
    dt: Scalar,
) -> CastInstance {
    if instance.phase != CastPhase::Charging {
        instance
    } else {
        match charging {
            ChargingDef::Uncharged => CastInstance {
                phase: CastPhase::Releasing,
                charge: instance.charge,
                captured_charge: Some(zero()),
                cooldown_remaining: instance.cooldown_remaining,
            },
            ChargingDef::Charging { source, min_release: _, max_charge, decay_rate, overcharge } => {
                let hard_cap = match overcharge {
                    Some(beyond) => beyond.max,
                    None => max_charge,
                };
                let charge = charged(
                    instance.charge,
                    source,
                    max_charge,
                    decay_rate,
                    hard_cap,
                    lens_power,
                    dt,
                );
                if is_hold(trigger) && charge.ge(max_charge) {
                    CastInstance {
                        phase: CastPhase::Channeling,
                        charge: zero(),
                        captured_charge: instance.captured_charge,
                        cooldown_remaining: instance.cooldown_remaining,
                    }
                } else {
                    CastInstance {
                        phase: CastPhase::Charging,
                        charge,
                        captured_charge: instance.captured_charge,
                        cooldown_remaining: instance.cooldown_remaining,
                    }
                }
            },
        }
    }
}

/// A cast after `dt` seconds of charging. A held cast channels once its charge
/// is full. One that charges without knowing how goes out with no charge.
#[verifier::when_used_as_spec(spec_after_charge)]
pub fn after_charge(
    instance: CastInstance,
    charging: ChargingDef,
    trigger: TriggerDef,
    lens_power: Scalar,
    dt: Scalar,
) -> (r: CastInstance)
    ensures
        r == spec_after_charge(instance, charging, trigger, lens_power, dt),
{
    if instance.phase != CastPhase::Charging {
        instance
    } else {
        match charging {
            ChargingDef::Uncharged => CastInstance {
                phase: CastPhase::Releasing,
                charge: instance.charge,
                captured_charge: Some(zero()),
                cooldown_remaining: instance.cooldown_remaining,
            },
            ChargingDef::Charging { source, min_release: _, max_charge, decay_rate, overcharge } => {
                let hard_cap = match overcharge {
                    Some(beyond) => beyond.max,
                    None => max_charge,
                };
                let charge = charged(
                    instance.charge,
                    source,
                    max_charge,
                    decay_rate,
                    hard_cap,
                    lens_power,
                    dt,
                );
                if is_hold(trigger) && charge.ge(max_charge) {
                    CastInstance {
                        phase: CastPhase::Channeling,
                        charge: zero(),
                        captured_charge: instance.captured_charge,
                        cooldown_remaining: instance.cooldown_remaining,
                    }
                } else {
                    CastInstance {
                        phase: CastPhase::Charging,
                        charge,
                        captured_charge: instance.captured_charge,
                        cooldown_remaining: instance.cooldown_remaining,
                    }
                }
            },
        }
    }
}

pub open spec fn spec_has_charging(charging: ChargingDef) -> bool {
    match charging {
        ChargingDef::Uncharged => false,
        _ => true,
    }
}

/// Whether a cast gathers charge at all.
#[verifier::when_used_as_spec(spec_has_charging)]
pub fn has_charging(charging: ChargingDef) -> (r: bool)
    ensures
        r == spec_has_charging(charging),
{
    match charging {
        ChargingDef::Uncharged => false,
        _ => true,
    }
}

pub open spec fn spec_least_charge(charging: ChargingDef) -> Scalar {
    match charging {
        ChargingDef::Uncharged => zero(),
        ChargingDef::Charging { source: _, min_release, max_charge: _, decay_rate: _, overcharge: _ } =>
            min_release,
    }
}

/// The least charge that a cast goes out with.
#[verifier::when_used_as_spec(spec_least_charge)]
pub fn least_charge(charging: ChargingDef) -> (r: Scalar)
    ensures
        r == spec_least_charge(charging),
{
    match charging {
        ChargingDef::Uncharged => zero(),
        ChargingDef::Charging { source: _, min_release, max_charge: _, decay_rate: _, overcharge: _ } =>
            min_release,
    }
}

pub open spec fn spec_with_phase(
    instance: CastInstance,
    phase: CastPhase,
    charge: Scalar,
) -> CastInstance {
    CastInstance {
        phase,
        charge,
        captured_charge: instance.captured_charge,
        cooldown_remaining: instance.cooldown_remaining,
    }
}

/// A cast in another phase, with another charge.
#[verifier::when_used_as_spec(spec_with_phase)]
pub fn with_phase(instance: CastInstance, phase: CastPhase, charge: Scalar) -> (r: CastInstance)
    ensures
        r == spec_with_phase(instance, phase, charge),
{
    CastInstance {
        phase,
        charge,
        captured_charge: instance.captured_charge,
        cooldown_remaining: instance.cooldown_remaining,
    }
}

pub open spec fn spec_releasing(
    instance: CastInstance,
    captured: Scalar,
    charge: Scalar,
) -> CastInstance {
    CastInstance {
        phase: CastPhase::Releasing,
        charge,
        captured_charge: Some(captured),
        cooldown_remaining: instance.cooldown_remaining,
    }
}

/// A cast that goes out once, with this charge.
#[verifier::when_used_as_spec(spec_releasing)]
pub fn releasing(instance: CastInstance, captured: Scalar, charge: Scalar) -> (r: CastInstance)
    ensures
        r == spec_releasing(instance, captured, charge),
{
    CastInstance {
        phase: CastPhase::Releasing,
        charge,
        captured_charge: Some(captured),
        cooldown_remaining: instance.cooldown_remaining,
    }
}

pub open spec fn spec_after_press(
    instance: CastInstance,
    charging: ChargingDef,
    held: bool,
    was_held: bool,
) -> CastInstance {
    if instance.phase == CastPhase::Idle && held && !was_held {
        if has_charging(charging) {
            with_phase(instance, CastPhase::Charging, zero())
        } else {
            releasing(instance, one(), instance.charge)
        }
    } else if instance.phase == CastPhase::Charging && !held && was_held {
        if instance.charge.ge(least_charge(charging)) {
            releasing(instance, instance.charge, zero())
        } else {
            with_phase(instance, CastPhase::Idle, zero())
        }
    } else {
        instance
    }
}

/// A pressed cast: it goes out at once, or charges until the action ends.
#[verifier::when_used_as_spec(spec_after_press)]
pub fn after_press(
    instance: CastInstance,
    charging: ChargingDef,
    held: bool,
    was_held: bool,
) -> (r: CastInstance)
    ensures
        r == spec_after_press(instance, charging, held, was_held),
{
    if instance.phase == CastPhase::Idle && held && !was_held {
        if has_charging(charging) {
            with_phase(instance, CastPhase::Charging, zero())
        } else {
            releasing(instance, one(), instance.charge)
        }
    } else if instance.phase == CastPhase::Charging && !held && was_held {
        if instance.charge.ge(least_charge(charging)) {
            releasing(instance, instance.charge, zero())
        } else {
            with_phase(instance, CastPhase::Idle, zero())
        }
    } else {
        instance
    }
}

pub open spec fn spec_after_hold(
    instance: CastInstance,
    charging: ChargingDef,
    cooldown: Scalar,
    held: bool,
) -> CastInstance {
    if instance.phase == CastPhase::Idle && held {
        if has_charging(charging) {
            with_phase(instance, CastPhase::Charging, zero())
        } else {
            with_phase(instance, CastPhase::Channeling, instance.charge)
        }
    } else if instance.phase == CastPhase::Charging && !held {
        with_phase(instance, CastPhase::Idle, zero())
    } else if instance.phase == CastPhase::Channeling && !held {
        if cooldown.gt(zero()) {
            CastInstance {
                phase: CastPhase::Cooldown,
                charge: instance.charge,
                captured_charge: instance.captured_charge,
                cooldown_remaining: cooldown,
            }
        } else {
            with_phase(instance, CastPhase::Idle, instance.charge)
        }
    } else {
        instance
    }
}

/// A held cast: it channels, after it has charged, until the action ends.
#[verifier::when_used_as_spec(spec_after_hold)]
pub fn after_hold(
    instance: CastInstance,
    charging: ChargingDef,
    cooldown: Scalar,
    held: bool,
) -> (r: CastInstance)
    ensures
        r == spec_after_hold(instance, charging, cooldown, held),
{
    if instance.phase == CastPhase::Idle && held {
        if has_charging(charging) {
            with_phase(instance, CastPhase::Charging, zero())
        } else {
            with_phase(instance, CastPhase::Channeling, instance.charge)
        }
    } else if instance.phase == CastPhase::Charging && !held {
        with_phase(instance, CastPhase::Idle, zero())
    } else if instance.phase == CastPhase::Channeling && !held {
        if cooldown.gt(zero()) {
            CastInstance {
                phase: CastPhase::Cooldown,
                charge: instance.charge,
                captured_charge: instance.captured_charge,
                cooldown_remaining: cooldown,
            }
        } else {
            with_phase(instance, CastPhase::Idle, instance.charge)
        }
    } else {
        instance
    }
}

pub open spec fn spec_after_press_release(
    instance: CastInstance,
    charging: ChargingDef,
    held: bool,
    was_held: bool,
) -> CastInstance {
    if instance.phase == CastPhase::Idle && held && !was_held {
        with_phase(instance, CastPhase::Charging, zero())
    } else if instance.phase == CastPhase::Charging && !held && was_held {
        if instance.charge.ge(least_charge(charging)) {
            releasing(instance, instance.charge, instance.charge)
        } else {
            with_phase(instance, CastPhase::Idle, zero())
        }
    } else {
        instance
    }
}

/// A charged cast: it charges while the action lasts, and goes out when it ends.
#[verifier::when_used_as_spec(spec_after_press_release)]
pub fn after_press_release(
    instance: CastInstance,
    charging: ChargingDef,
    held: bool,
    was_held: bool,
) -> (r: CastInstance)
    ensures
        r == spec_after_press_release(instance, charging, held, was_held),
{
    if instance.phase == CastPhase::Idle && held && !was_held {
        with_phase(instance, CastPhase::Charging, zero())
    } else if instance.phase == CastPhase::Charging && !held && was_held {
        if instance.charge.ge(least_charge(charging)) {
            releasing(instance, instance.charge, instance.charge)
        } else {
            with_phase(instance, CastPhase::Idle, zero())
        }
    } else {
        instance
    }
}

pub open spec fn spec_advanced(
    instance: CastInstance,
    trigger: TriggerDef,
    charging: ChargingDef,
    cooldown: Scalar,
    held: bool,
    was_held: bool,
) -> CastInstance {
    match trigger {
        TriggerDef::Press { action: _ } => after_press(instance, charging, held, was_held),
        TriggerDef::Hold { action: _ } => after_hold(instance, charging, cooldown, held),
        TriggerDef::PressReleaseCharged { action: _ } => after_press_release(
            instance,
            charging,
            held,
            was_held,
        ),
    }
}

/// A cast after one frame of input.
#[verifier::when_used_as_spec(spec_advanced)]
pub fn advanced(
    instance: CastInstance,
    trigger: TriggerDef,
    charging: ChargingDef,
    cooldown: Scalar,
    held: bool,
    was_held: bool,
) -> (r: CastInstance)
    ensures
        r == spec_advanced(instance, trigger, charging, cooldown, held, was_held),
{
    match trigger {
        TriggerDef::Press { action: _ } => after_press(instance, charging, held, was_held),
        TriggerDef::Hold { action: _ } => after_hold(instance, charging, cooldown, held),
        TriggerDef::PressReleaseCharged { action: _ } => after_press_release(
            instance,
            charging,
            held,
            was_held,
        ),
    }
}

pub open spec fn spec_after_dispatch(instance: CastInstance, cooldown: Scalar) -> CastInstance {
    if cooldown.gt(zero()) {
        CastInstance {
            phase: CastPhase::Cooldown,
            charge: instance.charge,
            captured_charge: None,
            cooldown_remaining: cooldown,
        }
    } else {
        CastInstance {
            phase: CastPhase::Idle,
            charge: instance.charge,
            captured_charge: None,
            cooldown_remaining: instance.cooldown_remaining,
        }
    }
}

/// A cast that has gone out once.
#[verifier::when_used_as_spec(spec_after_dispatch)]
pub fn after_dispatch(instance: CastInstance, cooldown: Scalar) -> (r: CastInstance)
    ensures
        r == spec_after_dispatch(instance, cooldown),
{
    if cooldown.gt(zero()) {
        CastInstance {
            phase: CastPhase::Cooldown,
            charge: instance.charge,
            captured_charge: None,
            cooldown_remaining: cooldown,
        }
    } else {
        CastInstance {
            phase: CastPhase::Idle,
            charge: instance.charge,
            captured_charge: None,
            cooldown_remaining: instance.cooldown_remaining,
        }
    }
}

pub open spec fn spec_under_way(phase: CastPhase) -> bool {
    phase == CastPhase::Charging || phase == CastPhase::Channeling || phase == CastPhase::Releasing
}

/// Whether a cast is under way.
#[verifier::when_used_as_spec(spec_under_way)]
pub fn under_way(phase: CastPhase) -> (r: bool)
    ensures
        r == spec_under_way(phase),
{
    phase == CastPhase::Charging || phase == CastPhase::Channeling || phase == CastPhase::Releasing
}

pub open spec fn spec_in_flight(phase: CastPhase) -> bool {
    phase == CastPhase::Channeling || phase == CastPhase::Releasing
}

/// Whether a cast goes out this frame.
#[verifier::when_used_as_spec(spec_in_flight)]
pub fn in_flight(phase: CastPhase) -> (r: bool)
    ensures
        r == spec_in_flight(phase),
{
    phase == CastPhase::Channeling || phase == CastPhase::Releasing
}

pub open spec fn spec_cancelled(instance: CastInstance) -> CastInstance {
    if under_way(instance.phase) {
        CastInstance {
            phase: CastPhase::Idle,
            charge: zero(),
            captured_charge: None,
            cooldown_remaining: instance.cooldown_remaining,
        }
    } else {
        instance
    }
}

/// A cast whose spell is put away: what is under way is dropped.
#[verifier::when_used_as_spec(spec_cancelled)]
pub fn cancelled(instance: CastInstance) -> (r: CastInstance)
    ensures
        r == spec_cancelled(instance),
{
    if under_way(instance.phase) {
        CastInstance {
            phase: CastPhase::Idle,
            charge: zero(),
            captured_charge: None,
            cooldown_remaining: instance.cooldown_remaining,
        }
    } else {
        instance
    }
}

/// `m` after `step` for each of the first `n` casts of a spell.
pub open spec fn over_casts<M>(
    m: M,
    spell: SpellDef,
    n: int,
    step: spec_fn(M, SpellDef, CastDef) -> M,
) -> M
    decreases n,
{
    if n <= 0 {
        m
    } else {
        step(over_casts(m, spell, n - 1, step), spell, spell.casts@[n - 1])
    }
}

/// `m` after `step` for each cast of the first `n` spells.
pub open spec fn over_spells<M>(
    m: M,
    spells: Seq<SpellDef>,
    n: int,
    step: spec_fn(M, SpellDef, CastDef) -> M,
) -> M
    decreases n,
{
    if n <= 0 {
        m
    } else {
        over_casts(
            over_spells(m, spells, n - 1, step),
            spells[n - 1],
            spells[n - 1].casts@.len() as int,
            step,
        )
    }
}

/// The progress with a cast; idle, if it was never used.
pub open spec fn instance_of(m: Map<Seq<char>, CastInstance>, id: Seq<char>) -> CastInstance {
    if m.contains_key(id) {
        m[id]
    } else {
        CastInstance::idle()
    }
}

/// One cast of a catalog, after one frame of input.
pub open spec fn advance_step(
    active: Seq<char>,
    now: ActionSnapshot,
    before: ActionSnapshot,
) -> spec_fn(Map<Seq<char>, CastInstance>, SpellDef, CastDef) -> Map<Seq<char>, CastInstance> {
    |m: Map<Seq<char>, CastInstance>, spell: SpellDef, cast: CastDef|
        if cast.requires_active && spell.id.0@ != active {
            m
        } else {
            m.insert(
                cast.id.0@,
                advanced(
                    instance_of(m, cast.id.0@),
                    cast.trigger,
                    cast.charging,
                    cast.cooldown,
                    now.held(cast.trigger.action()),
                    before.held(cast.trigger.action()),
                ),
            )
        }
}

/// One cast of a catalog, after `dt` seconds of charging.
pub open spec fn charge_step(lens_power: Scalar, dt: Scalar) -> spec_fn(
    Map<Seq<char>, CastInstance>,
    SpellDef,
    CastDef,
) -> Map<Seq<char>, CastInstance> {
    |m: Map<Seq<char>, CastInstance>, spell: SpellDef, cast: CastDef|
        if m.contains_key(cast.id.0@) {
            m.insert(
                cast.id.0@,
                after_charge(m[cast.id.0@], cast.charging, cast.trigger, lens_power, dt),
            )
        } else {
            m
        }
}

/// One cast of a catalog, after the active spell became `active`.
pub open spec fn cancel_step(active: Seq<char>) -> spec_fn(
    Map<Seq<char>, CastInstance>,
    SpellDef,
    CastDef,
) -> Map<Seq<char>, CastInstance> {
    |m: Map<Seq<char>, CastInstance>, spell: SpellDef, cast: CastDef|
        if spell.id.0@ == active || !m.contains_key(cast.id.0@) {
            m
        } else {
            m.insert(cast.id.0@, cancelled(m[cast.id.0@]))
        }
}

/// Lets `dt` seconds of cooldown pass.
pub fn tick_cooldowns(state: &mut CastState, dt: Scalar)
    requires
        old(state).wf(),
    ensures
        final(state).wf(),
        final(state)@ == old(state)@.map_values(|i: CastInstance| cooled(i, dt)),
{
    let ghost before = state.instances;
    let mut i: usize = 0;
    while i < state.instances.values.len()
        invariant
            before.wf(),
            state.wf(),
            i <= before.keys@.len(),
            state.instances.keys@ == before.keys@,
            forall|j: int|
                0 <= j < i ==> #[trigger] state.instances.values@[j] == cooled(
                    before.values@[j],
                    dt,
                ),
            forall|j: int|
                i <= j < before.keys@.len() ==> #[trigger] state.instances.values@[j]
                    == before.values@[j],
        decreases before.keys@.len() - i,
    {
        let next = cooled(state.instances.values[i], dt);
        state.instances.set_at(i, next);
        i += 1;
    }
    proof {
        let want = before@.map_values(|i: CastInstance| cooled(i, dt));
        assert forall|k: Seq<char>| #[trigger] state@.contains_key(k) implies state@[k] == want[k]
            by {
            let p = place_of(before.keys@, k);
            assert(has_key(before.keys@, k));
            before.lemma_at(p);
            state.instances.lemma_at(p);
        }
        assert(state@ =~= want);
    }
}

/// Moves the casts of a player from phase to phase, by what the player does now
/// and did a frame ago.
pub fn phase_advance(
    catalog: &SpellCatalog,
    active: &SpellId,
    now: ActionSnapshot,
    state: &mut CastState,
    prev: &mut PrevActionSnapshot,
)
    requires
        catalog.wf(),
        old(state).wf(),
    ensures
        final(state).wf(),
        final(state)@ == over_spells(
            old(state)@,
            catalog.defs(),
            catalog.defs().len() as int,
            advance_step(active.0@, now, old(prev).prev),
        ),
        final(prev).prev == (if catalog.defs().len() == 0 {
            old(prev).prev
        } else {
            now
        }),
{
    if catalog.is_empty() {
        return;
    }
    let before = prev.prev;
    let ghost start = state@;
    let ghost step = advance_step(active.0@, now, before);
    let spells = catalog.iter();
    let mut s: usize = 0;
    while s < spells.len()
        invariant
            s <= spells.len(),
            spells@ == catalog.defs(),
            state.wf(),
            step == advance_step(active.0@, now, before),
            state@ == over_spells(start, spells@, s as int, step),
        decreases spells.len() - s,
    {
        let spell = &spells[s];
        let n: usize = spell.casts.len();
        let mut c: usize = 0;
        while c < n
            invariant
                s < spells.len(),
                *spell == spells@[s as int],
                n == spell.casts@.len(),
                c <= n,
                state.wf(),
                step == advance_step(active.0@, now, before),
                state@ == over_casts(
                    over_spells(start, spells@, s as int, step),
                    *spell,
                    c as int,
                    step,
                ),
            decreases n - c,
        {
            let cast = &spell.casts[c];
            if !cast.requires_active || same_text(spell.id.0.as_str(), active.0.as_str()) {
                let instance = match state.instance(cast.id.0.as_str()) {
                    Some(instance) => instance,
                    None => CastInstance::idle(),
                };
                let action = cast.trigger.action();
                let next = advanced(
                    instance,
                    cast.trigger,
                    cast.charging,
                    cast.cooldown,
                    now.held(action),
                    before.held(action),
                );
                state.instances.insert(cast.id.0.clone(), next);
            }
            c += 1;
        }
        s += 1;
    }
    prev.prev = now;
}

/// Lets `dt` seconds of charging pass. `lens_power` is what enters the player's
/// lens, if the player has one.
pub fn tick_charge(
    catalog: &SpellCatalog,
    state: &mut CastState,
    lens_power: Option<Scalar>,
    dt: Scalar,
)
    requires
        catalog.wf(),
        old(state).wf(),
    ensures
        final(state).wf(),
        final(state)@ == over_spells(
            old(state)@,
            catalog.defs(),
            catalog.defs().len() as int,
            charge_step(
                match lens_power {
                    Some(p) => p,
                    None => zero(),
                },
                dt,
            ),
        ),
{
    let power = match lens_power {
        Some(p) => p,
        None => zero(),
    };
    let ghost start = state@;
    let ghost step = charge_step(power, dt);
    let spells = catalog.iter();
    let mut s: usize = 0;
    while s < spells.len()
        invariant
            s <= spells.len(),
            spells@ == catalog.defs(),
            state.wf(),
            step == charge_step(power, dt),
            state@ == over_spells(start, spells@, s as int, step),
        decreases spells.len() - s,
    {
        let spell = &spells[s];
        let n: usize = spell.casts.len();
        let mut c: usize = 0;
        while c < n
            invariant
                s < spells.len(),
                *spell == spells@[s as int],
                n == spell.casts@.len(),
                c <= n,
                state.wf(),
                step == charge_step(power, dt),
                state@ == over_casts(
                    over_spells(start, spells@, s as int, step),
                    *spell,
                    c as int,
                    step,
                ),
            decreases n - c,
        {
            let cast = &spell.casts[c];
            if let Some(i) = state.instances.find(cast.id.0.as_str()) {
                let next = after_charge(
                    state.instances.values[i],
                    cast.charging,
                    cast.trigger,
                    power,
                    dt,
                );
                state.instances.set_at(i, next);
            }
            c += 1;
        }
        s += 1;
    }
}

/// Drops what is under way of every spell but the one that is now active.
pub fn cancel_on_spell_change(catalog: &SpellCatalog, active: &SpellId, state: &mut CastState)
    requires
        catalog.wf(),
        old(state).wf(),
    ensures
        final(state).wf(),
        final(state)@ == over_spells(
            old(state)@,
            catalog.defs(),
            catalog.defs().len() as int,
            cancel_step(active.0@),
        ),
{
    let ghost start = state@;
    let ghost step = cancel_step(active.0@);
    let spells = catalog.iter();
    let mut s: usize = 0;
    while s < spells.len()
        invariant
            s <= spells.len(),
            spells@ == catalog.defs(),
            state.wf(),
            step == cancel_step(active.0@),
            state@ == over_spells(start, spells@, s as int, step),
        decreases spells.len() - s,
    {
        let spell = &spells[s];
        let n: usize = spell.casts.len();
        let other = !same_text(spell.id.0.as_str(), active.0.as_str());
        let mut c: usize = 0;
        while c < n
            invariant
                s < spells.len(),
                *spell == spells@[s as int],
                n == spell.casts@.len(),
                c <= n,
                other == (spell.id.0@ != active.0@),
                state.wf(),
                step == cancel_step(active.0@),
                state@ == over_casts(
                    over_spells(start, spells@, s as int, step),
                    *spell,
                    c as int,
                    step,
                ),
            decreases n - c,
        {
            if other {
                if let Some(i) = state.instances.find(spell.casts[c].id.0.as_str()) {
                    let next = cancelled(state.instances.values[i]);
                    state.instances.set_at(i, next);
                }
            }
            c += 1;
        }
        s += 1;
    }
}

/// The places of the casts that go out this frame, in their order.
pub open spec fn flights(instances: Seq<CastInstance>) -> Seq<usize>
    decreases instances.len(),
{
    if instances.len() == 0 {
        Seq::empty()
    } else if in_flight(instances.last().phase) {
        flights(instances.drop_last()).push((instances.len() - 1) as usize)
    } else {
        flights(instances.drop_last())
    }
}

/// The places of the casts that go out this frame; none while there are no spells.
pub fn dispatch_casts(catalog: &SpellCatalog, state: &CastState) -> (r: Vec<usize>)
    requires
        catalog.wf(),
        state.wf(),
    ensures
        r@ == (if catalog.defs().len() == 0 {
            Seq::empty()
        } else {
            flights(state.instances.values@)
        }),
{
    let mut work: Vec<usize> = Vec::new();
    if catalog.is_empty() {
        return work;
    }
    let values = &state.instances.values;
    let mut i: usize = 0;
    while i < values.len()
        invariant
            i <= values.len(),
            work@ == flights(values@.take(i as int)),
        decreases values.len() - i,
    {
        assert(values@.take(i + 1).drop_last() =~= values@.take(i as int));
        if in_flight(values[i].phase) {
            work.push(i);
        }
        i += 1;
    }
    assert(values@.take(values.len() as int) =~= values@);
    work
}

/// Whether the cast at `s` and `c` is the first with the name `id`.
pub open spec fn first_cast(spells: Seq<SpellDef>, s: int, c: int, id: Seq<char>) -> bool {
    &&& 0 <= s < spells.len()
    &&& 0 <= c < spells[s].casts@.len()
    &&& spells[s].casts@[c].id.0@ == id
    &&& !named_before(spells, s, c, id)
}

/// Whether some cast has the name `id`.
pub open spec fn has_cast(spells: Seq<SpellDef>, id: Seq<char>) -> bool {
    exists|s: int, c: int|
        0 <= s < spells.len() && 0 <= c < spells[s].casts@.len()
            && (#[trigger] spells[s].casts@[c]).id.0@ == id
}

/// Where the first cast with a name stands.
pub fn find_cast(spells: &Vec<SpellDef>, id: &str) -> (r: Option<(usize, usize)>)
    ensures
        match r {
            Some((s, c)) => first_cast(spells@, s as int, c as int, id@),
            None => !has_cast(spells@, id@),
        },
{
    let mut s: usize = 0;
    while s < spells.len()
        invariant
            s <= spells.len(),
            forall|a: int, b: int|
                0 <= a < s && 0 <= b < spells@[a].casts@.len() ==> (
                #[trigger] spells@[a].casts@[b]).id.0@ != id@,
        decreases spells.len() - s,
    {
        let casts = &spells[s].casts;
        let mut c: usize = 0;
        while c < casts.len()
            invariant
                s < spells.len(),
                casts@ == spells@[s as int].casts@,
                c <= casts.len(),
                forall|a: int, b: int|
                    0 <= a < s && 0 <= b < spells@[a].casts@.len() ==> (
                    #[trigger] spells@[a].casts@[b]).id.0@ != id@,
                forall|b: int| 0 <= b < c ==> (#[trigger] spells@[s as int].casts@[b]).id.0@ != id@,
            decreases casts.len() - c,
        {
            if same_text(casts[c].id.0.as_str(), id) {
                return Some((s, c));
            }
            c += 1;
        }
        s += 1;
    }
    None
}

/// How many things carry each marker.
#[derive(Clone, Copy, Debug, PartialEq, Eq, Structural)]
pub struct MarkerCounts {
    pub lanterns: usize,
    pub travelers: usize,
    pub glaciers: usize,
    pub spikes: usize,
}

impl MarkerCounts {
    pub open spec fn spec_of(self, marker: MarkerKind) -> usize {
        match marker {
            MarkerKind::Lantern => self.lanterns,
            MarkerKind::PortalTraveler => self.travelers,
            MarkerKind::RollingGlacier => self.glaciers,
            MarkerKind::FrostSpike => self.spikes,
        }
    }

    /// How many things carry a marker.
    #[verifier::when_used_as_spec(spec_of)]
    pub fn of(self, marker: MarkerKind) -> (r: usize)
        ensures
            r == self.spec_of(marker),
    {
        match marker {
            MarkerKind::Lantern => self.lanterns,
            MarkerKind::PortalTraveler => self.travelers,
            MarkerKind::RollingGlacier => self.glaciers,
            MarkerKind::FrostSpike => self.spikes,
        }
    }
}

/// Whether a condition holds.
pub open spec fn condition_met(
    condition: ConditionDef,
    counts: MarkerCounts,
    lens_power: Scalar,
) -> bool {
    match condition {
        ConditionDef::MaxCount { marker, max } => counts.of(marker) < max,
        ConditionDef::LensPowerAtLeast(threshold) => !lens_power.lt(threshold),
    }
}

/// Whether every condition holds.
pub open spec fn all_met(
    conditions: Seq<ConditionDef>,
    counts: MarkerCounts,
    lens_power: Scalar,
) -> bool {
    forall|i: int|
        0 <= i < conditions.len() ==> condition_met(#[trigger] conditions[i], counts, lens_power)
}

/// Whether every condition holds; without a lens, no power enters it.
pub fn conditions_met(
    conditions: &Vec<ConditionDef>,
    counts: MarkerCounts,
    lens_power: Scalar,
) -> (r: bool)
    ensures
        r == all_met(conditions@, counts, lens_power),
{
    let mut i: usize = 0;
    while i < conditions.len()
        invariant
            i <= conditions.len(),
            forall|j: int|
                0 <= j < i ==> condition_met(#[trigger] conditions@[j], counts, lens_power),
        decreases conditions.len() - i,
    {
        let met = match conditions[i] {
            ConditionDef::MaxCount { marker, max } => (counts.of(marker) as u64) < (max as u64),
            ConditionDef::LensPowerAtLeast(threshold) => !lens_power.lt(threshold),
        };
        if !met {
            assert(!condition_met(conditions@[i as int], counts, lens_power));
            return false;
        }
        i += 1;
    }
    true
}

/// What a cast that goes out does.
#[derive(Debug)]
pub enum Execution {
    /// The cast is no longer in the catalog: nothing.
    Gone,
    /// A condition does not hold: nothing, as if it had gone out.
    Refused { spell: usize, cast: usize },
    /// The payload and the effect run.
    Run { spell: usize, cast: usize, context: CastContext },
}

/// Whether a context is that of a cast that a player casts.
pub open spec fn cast_by_player(
    context: CastContext,
    player: Entity,
    spell: SpellDef,
    cast: CastDef,
    captured_charge: Option<Scalar>,
) -> bool {
    &&& context.player == player
    &&& context.spell_id.0@ == spell.id.0@
    &&& context.cast_id.0@ == cast.id.0@
    &&& context.authority == Authority::Both
    &&& context.captured_charge == captured_charge
    &&& context.chain_depth == 0
    &&& context.origin == cast.origin
    &&& context.target == cast.target
}

/// What the cast named `cast_id` does. Conditions only hold back a cast that
/// goes out once.
pub fn execute_one(
    catalog: &SpellCatalog,
    player: Entity,
    cast_id: &str,
    instance: CastInstance,
    counts: MarkerCounts,
    lens_power: Scalar,
) -> (r: Execution)
    ensures
        match r {
            Execution::Gone => !has_cast(catalog.defs(), cast_id@),
            Execution::Refused { spell, cast } => {
                &&& first_cast(catalog.defs(), spell as int, cast as int, cast_id@)
                &&& instance.phase == CastPhase::Releasing
                &&& !all_met(
                    catalog.defs()[spell as int].casts@[cast as int].conditions@,
                    counts,
                    lens_power,
                )
            },
            Execution::Run { spell, cast, context } => {
                &&& first_cast(catalog.defs(), spell as int, cast as int, cast_id@)
                &&& instance.phase != CastPhase::Releasing || all_met(
                    catalog.defs()[spell as int].casts@[cast as int].conditions@,
                    counts,
                    lens_power,
                )
                &&& cast_by_player(
                    context,
                    player,
                    catalog.defs()[spell as int],
                    catalog.defs()[spell as int].casts@[cast as int],
                    instance.captured_charge,
                )
            },
        },
        r is Gone <==> !has_cast(catalog.defs(), cast_id@),
{
    let spells = catalog.iter();
    let (s, c) = match find_cast(spells, cast_id) {
        Some(place) => place,
        None => {
            return Execution::Gone;
        },
    };
    assert(spells@[s as int].casts@[c as int].id.0@ == cast_id@);
    let spell = &spells[s];
    let cast = &spell.casts[c];
    if instance.phase == CastPhase::Releasing && !conditions_met(
        &cast.conditions,
        counts,
        lens_power,
    ) {
        return Execution::Refused { spell: s, cast: c };
    }
    Execution::Run {
        spell: s,
        cast: c,
        context: CastContext {
            player,
            spell_id: spell.id.copy(),
            cast_id: cast.id.copy(),
            authority: Authority::Both,
            captured_charge: instance.captured_charge,
            chain_depth: 0,
            origin: cast.origin,
            target: cast.target,
        },
    }
}

/// Ends a cast that has gone out once.
pub fn clear_after_dispatch(state: &mut CastState, cast_id: &str, cooldown: Scalar)
    requires
        old(state).wf(),
    ensures
        final(state).wf(),
        final(state)@ == (if old(state)@.contains_key(cast_id@) {
            old(state)@.insert(cast_id@, after_dispatch(old(state)@[cast_id@], cooldown))
        } else {
            old(state)@
        }),
{
    if let Some(i) = state.instances.find(cast_id) {
        let next = after_dispatch(state.instances.values[i], cooldown);
        state.instances.set_at(i, next);
    }
}

/// Whether a cast is over once it was carried out. One that channels goes on; one that
/// is in no catalog stays as it is.
pub open spec fn is_over(done: Execution, phase: CastPhase) -> bool {
    match done {
        Execution::Gone => false,
        Execution::Refused { spell: _, cast: _ } => true,
        Execution::Run { spell: _, cast: _, context: _ } => phase != CastPhase::Channeling,
    }
}

/// Ends a cast that was carried out, if it is over. `phase` is the one that it was
/// carried out in.
pub fn settle_cast(
    state: &mut CastState,
    cast_id: &str,
    phase: CastPhase,
    done: &Execution,
    cooldown: Scalar,
)
    requires
        old(state).wf(),
    ensures
        final(state).wf(),
        final(state)@ == (if is_over(*done, phase) && old(state)@.contains_key(cast_id@) {
            old(state)@.insert(cast_id@, after_dispatch(old(state)@[cast_id@], cooldown))
        } else {
            old(state)@
        }),
{
    let over = match done {
        Execution::Gone => false,
        Execution::Refused { spell: _, cast: _ } => true,
        Execution::Run { spell: _, cast: _, context: _ } => phase != CastPhase::Channeling,
    };
    if over {
        clear_after_dispatch(state, cast_id, cooldown);
    }
}

/// What a payload met.
#[derive(Clone, Copy, Debug, PartialEq, Eq, Structural)]
pub struct DeliveryTarget {
    pub entity: Option<Entity>,
    pub direction: Option<Vec3>,
}

impl DeliveryTarget {
    pub open spec fn spec_nothing() -> DeliveryTarget {
        DeliveryTarget { entity: None, direction: None }
    }

    /// Nothing.
    #[verifier::when_used_as_spec(spec_nothing)]
    pub fn nothing() -> (r: DeliveryTarget)
        ensures
            r == Self::spec_nothing(),
    {
        DeliveryTarget { entity: None, direction: None }
    }
}

/// Which way a payload goes out.
#[derive(Clone, Copy, Debug, PartialEq, Eq, Structural)]
pub enum PayloadRoute {
    SpawnBody,
    Hitscan { reach: Scalar },
    Beam { reach: Scalar },
    Handler,
    /// There is no such handler: nothing goes out.
    MissingHandler,
}

/// Which way the payload of a cast goes out.
pub fn run_payload<H>(cast: &CastDef, handlers: &HandlerRegistry<H>) -> (r: PayloadRoute)
    requires
        handlers.wf(),
    ensures
        r == match cast.payload {
            PayloadDef::SpawnBody { .. } => PayloadRoute::SpawnBody,
            PayloadDef::Hitscan { .. } => PayloadRoute::Hitscan { reach: cast.target.reach() },
            PayloadDef::Beam { .. } => PayloadRoute::Beam { reach: cast.target.reach() },
            PayloadDef::Custom { handler } => if handlers@.contains_key(handler.0@) {
                PayloadRoute::Handler
            } else {
                PayloadRoute::MissingHandler
            },
        },
{
    match &cast.payload {
        PayloadDef::SpawnBody { .. } => PayloadRoute::SpawnBody,
        PayloadDef::Hitscan { .. } => PayloadRoute::Hitscan { reach: cast.target.reach() },
        PayloadDef::Beam { .. } => PayloadRoute::Beam { reach: cast.target.reach() },
        PayloadDef::Custom { handler } => if handlers.contains(handler) {
            PayloadRoute::Handler
        } else {
            PayloadRoute::MissingHandler
        },
    }
}

/// What an effect does.
#[derive(Clone, Copy, Debug, PartialEq, Eq, Structural)]
pub enum EffectRoute {
    Nothing,
    Impulse { magnitude: Scalar },
    ImpulseTick { magnitude_per_sec: Scalar },
    Despawn,
    DespawnNearbyMatching { marker: MarkerKind, radius: Scalar },
    Handler,
    /// There is no such handler: nothing happens.
    MissingHandler,
}

/// What the effect of a cast does.
pub fn run_effect<H>(cast: &CastDef, handlers: &HandlerRegistry<H>) -> (r: EffectRoute)
    requires
        handlers.wf(),
    ensures
        r == match cast.effect {
            EffectDef::NoEffect => EffectRoute::Nothing,
            EffectDef::Impulse { magnitude } => EffectRoute::Impulse { magnitude },
            EffectDef::ImpulseTick { magnitude_per_sec } => EffectRoute::ImpulseTick {
                magnitude_per_sec,
            },
            EffectDef::Despawn => EffectRoute::Despawn,
            EffectDef::DespawnNearbyMatching { marker, radius } =>
                EffectRoute::DespawnNearbyMatching { marker, radius },
            EffectDef::Custom { handler } => if handlers@.contains_key(handler.0@) {
                EffectRoute::Handler
            } else {
                EffectRoute::MissingHandler
            },
        },
{
    match &cast.effect {
        EffectDef::NoEffect => EffectRoute::Nothing,
        EffectDef::Impulse { magnitude } => EffectRoute::Impulse { magnitude: *magnitude },
        EffectDef::ImpulseTick { magnitude_per_sec } => EffectRoute::ImpulseTick {
            magnitude_per_sec: *magnitude_per_sec,
        },
        EffectDef::Despawn => EffectRoute::Despawn,
        EffectDef::DespawnNearbyMatching { marker, radius } => EffectRoute::DespawnNearbyMatching {
            marker: *marker,
            radius: *radius,
        },
        EffectDef::Custom { handler } => if handlers.contains(handler) {
            EffectRoute::Handler
        } else {
            EffectRoute::MissingHandler
        },
    }
}

/// A cast that the world sets off, not a player's input.
#[derive(Debug)]
pub struct ChildCastContext {
    /// Where it starts from, whatever the cast itself says.
    pub origin: OriginDef,
    /// The player who began the chain, if still there.
    pub original_caster: Option<Entity>,
    pub captured_charge: Option<Scalar>,
    pub chain_depth: u8,
    /// The cast that set this one off.
    pub caused_by: Option<TriggerSpec>,
}

/// How long a chain of casts that set each other off may be.
pub const MAX_CHILD_CAST_CHAIN_DEPTH: u8 = 4;

/// A child cast to run: its place in the catalog, and what handlers are told.
#[derive(Debug)]
pub struct ChildDispatch {
    pub spell: usize,
    pub cast: usize,
    pub context: CastContext,
}

/// Whether the cast at `c` is the first of a spell with the name `id`.
pub open spec fn first_in_spell(spell: SpellDef, c: int, id: Seq<char>) -> bool {
    &&& 0 <= c < spell.casts@.len()
    &&& spell.casts@[c].id.0@ == id
    &&& forall|b: int| 0 <= b < c ==> (#[trigger] spell.casts@[b]).id.0@ != id
}

/// Whether a spell has a cast with the name `id`.
pub open spec fn spell_has_cast(spell: SpellDef, id: Seq<char>) -> bool {
    exists|b: int| 0 <= b < spell.casts@.len() && (#[trigger] spell.casts@[b]).id.0@ == id
}

/// Whether a child cast can be run: the chain is not too long, and there is
/// such a cast in such a spell.
pub open spec fn can_dispatch(
    catalog: Map<Seq<char>, SpellDef>,
    spell: Seq<char>,
    cast: Seq<char>,
    chain_depth: u8,
) -> bool {
    &&& chain_depth <= MAX_CHILD_CAST_CHAIN_DEPTH
    &&& catalog.contains_key(spell)
    &&& spell_has_cast(catalog[spell], cast)
}

/// The child cast to run, if it can be. It starts where the world set it off,
/// and asks neither for conditions nor for a cooldown.
pub fn dispatch_child_cast(
    catalog: &SpellCatalog,
    spell_id: &SpellId,
    cast_id: &CastId,
    child: &ChildCastContext,
) -> (r: Option<ChildDispatch>)
    requires
        catalog.wf(),
    ensures
        r is Some <==> can_dispatch(catalog@, spell_id.0@, cast_id.0@, child.chain_depth),
        match r {
            None => true,
            Some(d) => {
                let spell = catalog@[spell_id.0@];
                &&& d.spell < catalog.defs().len()
                &&& catalog.defs()[d.spell as int] == spell
                &&& first_in_spell(spell, d.cast as int, cast_id.0@)
                &&& d.context.player == match child.original_caster {
                    Some(e) => e,
                    None => placeholder(),
                }
                &&& d.context.spell_id.0@ == spell_id.0@
                &&& d.context.cast_id.0@ == cast_id.0@
                &&& d.context.authority == Authority::Both
                &&& d.context.captured_charge == child.captured_charge
                &&& d.context.chain_depth == child.chain_depth
                &&& d.context.origin == child.origin
                &&& d.context.target == spell.casts@[d.cast as int].target
            },
        },
{
    if child.chain_depth > MAX_CHILD_CAST_CHAIN_DEPTH {
        return None;
    }
    let s: usize = match catalog.spells.find(spell_id.0.as_str()) {
        Some(s) => s,
        None => {
            return None;
        },
    };
    let spell = &catalog.spells.values[s];
    let mut c: usize = 0;
    while c < spell.casts.len()
        invariant_except_break
            c <= spell.casts.len(),
            forall|b: int| 0 <= b < c ==> (#[trigger] spell.casts@[b]).id.0@ != cast_id.0@,
        ensures
            c <= spell.casts.len(),
            forall|b: int| 0 <= b < c ==> (#[trigger] spell.casts@[b]).id.0@ != cast_id.0@,
            c < spell.casts.len() ==> spell.casts@[c as int].id.0@ == cast_id.0@,
        decreases spell.casts.len() - c,
    {
        if same_text(spell.casts[c].id.0.as_str(), cast_id.0.as_str()) {
            break;
        }
        c += 1;
    }
    if c == spell.casts.len() {
        return None;
    }
    let player = match child.original_caster {
        Some(e) => e,
        None => placeholder(),
    };
    Some(
        ChildDispatch {
            spell: s,
            cast: c,
            context: CastContext {
                player,
                spell_id: spell_id.copy(),
                cast_id: cast_id.copy(),
                authority: Authority::Both,
                captured_charge: child.captured_charge,
                chain_depth: child.chain_depth,
                origin: child.origin,
                target: spell.casts[c].target,
            },
        },
    )
}

/// A cast that cools down stays as it is, whatever the player does.
pub proof fn law_cooldown_holds(
    instance: CastInstance,
    trigger: TriggerDef,
    charging: ChargingDef,
    cooldown: Scalar,
    held: bool,
    was_held: bool,
)
    requires
        instance.phase == CastPhase::Cooldown,
    ensures
        advanced(instance, trigger, charging, cooldown, held, was_held) == instance,
{
}

/// A cast that has gone out once, and has a cooldown, only goes out again after
/// as many seconds as that.
pub proof fn law_cooldown_follows_release(instance: CastInstance, cooldown: Scalar, dt: Scalar)
    requires
        cooldown.gt(zero()),
    ensures
        after_dispatch(instance, cooldown).phase == CastPhase::Cooldown,
        after_dispatch(instance, cooldown).cooldown_remaining == cooldown,
        cooled(after_dispatch(instance, cooldown), dt).phase == CastPhase::Cooldown
            <==> !cooldown.minus(dt).le(zero()),
{
}

/// A cast that starts with a press starts once: while the action lasts, a cast that
/// is not under way stays so.
pub proof fn law_holding_is_not_pressing(
    instance: CastInstance,
    action: ActionRef,
    charging: ChargingDef,
    cooldown: Scalar,
)
    requires
        instance.phase == CastPhase::Idle,
    ensures
        advanced(instance, TriggerDef::Press { action }, charging, cooldown, true, true) == instance,
        advanced(
            instance,
            TriggerDef::PressReleaseCharged { action },
            charging,
            cooldown,
            true,
            true,
        ) == instance,
{
}

/// A pressed cast that charges goes out when the action ends if its charge is
/// enough, and with that charge; else it fizzles.
pub proof fn law_press_needs_least_charge(
    instance: CastInstance,
    action: ActionRef,
    charging: ChargingDef,
    cooldown: Scalar,
)
    requires
        instance.phase == CastPhase::Charging,
    ensures
        ({
            let after = advanced(
                instance,
                TriggerDef::Press { action },
                charging,
                cooldown,
                false,
                true,
            );
            &&& instance.charge.ge(least_charge(charging)) ==> after.phase == CastPhase::Releasing
                && after.captured_charge == Some(instance.charge)
            &&& !instance.charge.ge(least_charge(charging)) ==> after.phase == CastPhase::Idle
            &&& after.charge == zero()
        }),
{
}

/// Whether what gathers a charge caps it at `cap`: at `overcharge.max` where there is
/// one, else at `max_charge`.
pub open spec fn caps_at(charging: ChargingDef, cap: Scalar) -> bool {
    match charging {
        ChargingDef::Uncharged => true,
        ChargingDef::Charging { source: _, min_release: _, max_charge, decay_rate, overcharge } => {
            &&& max_charge.ge(zero())
            &&& decay_rate.ge(zero())
            &&& cap == match overcharge {
                Some(beyond) => beyond.max,
                None => max_charge,
            }
        },
    }
}

/// Whether time alone fills a charge.
pub open spec fn fills_by_time(charging: ChargingDef) -> bool {
    match charging {
        ChargingDef::Uncharged => true,
        ChargingDef::Charging {
            source,
            min_release: _,
            max_charge: _,
            decay_rate: _,
            overcharge: _,
        } => source is Time,
    }
}

/// Whether a charge is no less than nothing and no more than its cap.
pub open spec fn in_range(charge: Scalar, cap: Scalar) -> bool {
    charge.ge(zero()) && charge.le(cap)
}

/// What charging leaves of a cast: its charge is in range, a cast that did not charge is
/// as it was, and one that time fills and that still charges has lost nothing.
spec fn kept(before: CastInstance, after: CastInstance, cap: Scalar, by_time: bool) -> bool {
    &&& in_range(after.charge, cap)
    &&& before.phase != CastPhase::Charging ==> after == before
    &&& by_time && after.phase == CastPhase::Charging ==> before.phase == CastPhase::Charging
        && after.charge.ge(before.charge)
}

/// Adding what is not below nothing takes nothing away.
proof fn lemma_gain(a: Scalar, b: Scalar, cap: Scalar)
    requires
        in_range(a, cap),
        b.is_nan() || b.ge(zero()),
    ensures
        in_range(a.plus(b).min(cap), cap),
        a.plus(b).min(cap).ge(a),
{
    if a.is_finite() && !b.is_nan() {
        lemma_plus_no_less(a, b);
    } else {
        reveal(Scalar::spec_plus);
    }
}

/// Taking away what is not below nothing adds nothing.
proof fn lemma_loss(a: Scalar, b: Scalar, cap: Scalar)
    requires
        in_range(a, cap),
        b.is_nan() || b.ge(zero()),
    ensures
        in_range(a.minus(b).max(zero()), cap),
{
    if a.is_finite() && !b.is_nan() {
        lemma_minus_no_greater(a, b);
    } else {
        reveal(Scalar::spec_plus);
    }
}

/// A rate of what is not below nothing is not below nothing.
proof fn lemma_rate(a: Scalar, b: Scalar)
    requires
        a.ge(zero()),
        b.gt(zero()),
    ensures
        a.over(b).is_nan() || a.over(b).ge(zero()),
{
    if b.is_finite() {
        lemma_over_not_negative(a, b);
    } else {
        reveal(Scalar::spec_over);
    }
}

proof fn lemma_after_charge(
    instance: CastInstance,
    charging: ChargingDef,
    trigger: TriggerDef,
    lens_power: Scalar,
    dt: Scalar,
    cap: Scalar,
)
    requires
        dt.ge(zero()),
        caps_at(charging, cap),
        in_range(instance.charge, cap),
    ensures
        kept(
            instance,
            after_charge(instance, charging, trigger, lens_power, dt),
            cap,
            fills_by_time(charging),
        ),
{
    match charging {
        ChargingDef::Uncharged => {},
        ChargingDef::Charging { source, min_release: _, max_charge, decay_rate, overcharge: _ } => {
            match source {
                ChargeSource::Time { duration } => {
                    let rate = max_charge.over(duration.max(shortest_duration()));
                    lemma_rate(max_charge, duration.max(shortest_duration()));
                    if !rate.is_nan() {
                        lemma_times_not_negative(rate, dt);
                    } else {
                        reveal(Scalar::spec_times);
                    }
                    lemma_gain(instance.charge, rate.times(dt), cap);
                },
                ChargeSource::Powered { source: _ } => {
                    if lens_power.gt(zero()) {
                        lemma_times_not_negative(lens_power, dt);
                        lemma_gain(instance.charge, lens_power.times(dt), cap);
                    } else {
                        lemma_times_not_negative(decay_rate, dt);
                        lemma_loss(instance.charge, decay_rate.times(dt), cap);
                    }
                },
            }
        },
    }
}

proof fn lemma_charge_casts(
    m: Map<Seq<char>, CastInstance>,
    spell: SpellDef,
    n: int,
    lens_power: Scalar,
    dt: Scalar,
    id: Seq<char>,
    cap: Scalar,
    by_time: bool,
)
    requires
        n <= spell.casts@.len(),
        dt.ge(zero()),
        m.contains_key(id) && in_range(m[id].charge, cap),
        forall|c: int|
            0 <= c < spell.casts@.len() && (#[trigger] spell.casts@[c]).id.0@ == id ==> caps_at(
                spell.casts@[c].charging,
                cap,
            ) && (by_time ==> fills_by_time(spell.casts@[c].charging)),
    ensures
        ({
            let after = over_casts(m, spell, n, charge_step(lens_power, dt));
            after.contains_key(id) && kept(m[id], after[id], cap, by_time)
        }),
    decreases n,
{
    if n > 0 {
        lemma_charge_casts(m, spell, n - 1, lens_power, dt, id, cap, by_time);
        let before = over_casts(m, spell, n - 1, charge_step(lens_power, dt));
        let cast = spell.casts@[n - 1];
        if cast.id.0@ == id {
            lemma_after_charge(before[id], cast.charging, cast.trigger, lens_power, dt, cap);
        }
    }
}

proof fn lemma_charge_spells(
    m: Map<Seq<char>, CastInstance>,
    spells: Seq<SpellDef>,
    n: int,
    lens_power: Scalar,
    dt: Scalar,
    id: Seq<char>,
    cap: Scalar,
    by_time: bool,
)
    requires
        0 <= n <= spells.len(),
        dt.ge(zero()),
        m.contains_key(id) && in_range(m[id].charge, cap),
        forall|s: int, c: int|
            0 <= s < spells.len() && 0 <= c < spells[s].casts@.len() && (
            #[trigger] spells[s].casts@[c]).id.0@ == id ==> caps_at(
                spells[s].casts@[c].charging,
                cap,
            ) && (by_time ==> fills_by_time(spells[s].casts@[c].charging)),
    ensures
        ({
            let after = over_spells(m, spells, n, charge_step(lens_power, dt));
            after.contains_key(id) && kept(m[id], after[id], cap, by_time)
        }),
    decreases n,
{
    if n > 0 {
        lemma_charge_spells(m, spells, n - 1, lens_power, dt, id, cap, by_time);
        lemma_charge_casts(
            over_spells(m, spells, n - 1, charge_step(lens_power, dt)),
            spells[n - 1],
            spells[n - 1].casts@.len() as int,
            lens_power,
            dt,
            id,
            cap,
            by_time,
        );
    }
}

/// A charge stays between nothing and its cap while charges tick.
pub proof fn law_charge_stays_in_range(
    m: Map<Seq<char>, CastInstance>,
    spells: Seq<SpellDef>,
    lens_power: Scalar,
    dt: Scalar,
    id: Seq<char>,
    cap: Scalar,
)
    requires
        dt.ge(zero()),
        m.contains_key(id) && in_range(m[id].charge, cap),
        forall|s: int, c: int|
            0 <= s < spells.len() && 0 <= c < spells[s].casts@.len() && (
            #[trigger] spells[s].casts@[c]).id.0@ == id ==> caps_at(
                spells[s].casts@[c].charging,
                cap,
            ),
    ensures
        ({
            let after = over_spells(m, spells, spells.len() as int, charge_step(lens_power, dt));
            after.contains_key(id) && in_range(after[id].charge, cap)
        }),
{
    lemma_charge_spells(m, spells, spells.len() as int, lens_power, dt, id, cap, false);
}

/// Time never lowers a charge: a cast that it fills and that still charges after a tick
/// has at least the charge that it had.
pub proof fn law_time_never_lowers_a_charge(
    m: Map<Seq<char>, CastInstance>,
    spells: Seq<SpellDef>,
    lens_power: Scalar,
    dt: Scalar,
    id: Seq<char>,
    cap: Scalar,
)
    requires
        dt.ge(zero()),
        m.contains_key(id) && in_range(m[id].charge, cap),
        forall|s: int, c: int|
            0 <= s < spells.len() && 0 <= c < spells[s].casts@.len() && (
            #[trigger] spells[s].casts@[c]).id.0@ == id ==> caps_at(
                spells[s].casts@[c].charging,
                cap,
            ) && fills_by_time(spells[s].casts@[c].charging),
    ensures
        ({
            let after = over_spells(m, spells, spells.len() as int, charge_step(lens_power, dt));
            after.contains_key(id) && (after[id].phase == CastPhase::Charging
                ==> after[id].charge.ge(m[id].charge))
        }),
{
    lemma_charge_spells(m, spells, spells.len() as int, lens_power, dt, id, cap, true);
}

proof fn lemma_tick_leaves(
    m: Map<Seq<char>, CastInstance>,
    spell: SpellDef,
    n: int,
    lens_power: Scalar,
    dt: Scalar,
    id: Seq<char>,
)
    requires
        m.contains_key(id) ==> m[id].phase != CastPhase::Charging,
    ensures
        ({
            let after = over_casts(m, spell, n, charge_step(lens_power, dt));
            &&& after.contains_key(id) == m.contains_key(id)
            &&& after[id] == m[id]
        }),
    decreases n,
{
    if n > 0 {
        lemma_tick_leaves(m, spell, n - 1, lens_power, dt, id);
    }
}

/// A cast that does not charge is as it was after charges tick.
pub proof fn law_only_what_charges_ticks(
    m: Map<Seq<char>, CastInstance>,
    spells: Seq<SpellDef>,
    n: int,
    lens_power: Scalar,
    dt: Scalar,
    id: Seq<char>,
)
    requires
        0 <= n <= spells.len(),
        m.contains_key(id) ==> m[id].phase != CastPhase::Charging,
    ensures
        ({
            let after = over_spells(m, spells, n, charge_step(lens_power, dt));
            &&& after.contains_key(id) == m.contains_key(id)
            &&& after[id] == m[id]
        }),
    decreases n,
{
    if n > 0 {
        law_only_what_charges_ticks(m, spells, n - 1, lens_power, dt, id);
        lemma_tick_leaves(
            over_spells(m, spells, n - 1, charge_step(lens_power, dt)),
            spells[n - 1],
            spells[n - 1].casts@.len() as int,
            lens_power,
            dt,
            id,
        );
    }
}

/// What is not under way stays so through a change of the active spell.
proof fn lemma_cancel_keeps_quiet(
    m: Map<Seq<char>, CastInstance>,
    spell: SpellDef,
    n: int,
    active: Seq<char>,
    id: Seq<char>,
)
    requires
        m.contains_key(id) ==> !under_way(m[id].phase),
    ensures
        ({
            let after = over_casts(m, spell, n, cancel_step(active));
            after.contains_key(id) ==> !under_way(after[id].phase)
        }),
    decreases n,
{
    if n > 0 {
        lemma_cancel_keeps_quiet(m, spell, n - 1, active, id);
    }
}

proof fn lemma_cancel_quiets(
    m: Map<Seq<char>, CastInstance>,
    spell: SpellDef,
    n: int,
    c: int,
    active: Seq<char>,
)
    requires
        spell.id.0@ != active,
        0 <= c < n <= spell.casts@.len(),
    ensures
        ({
            let after = over_casts(m, spell, n, cancel_step(active));
            let id = spell.casts@[c].id.0@;
            after.contains_key(id) ==> !under_way(after[id].phase)
        }),
    decreases n,
{
    if c < n - 1 {
        lemma_cancel_quiets(m, spell, n - 1, c, active);
    }
}

/// After a change of the active spell, no cast of another spell is under way.
pub proof fn law_cancel_leaves_no_other_spell_under_way(
    m: Map<Seq<char>, CastInstance>,
    spells: Seq<SpellDef>,
    n: int,
    s: int,
    c: int,
    active: Seq<char>,
)
    requires
        0 <= s < n <= spells.len(),
        0 <= c < spells[s].casts@.len(),
        spells[s].id.0@ != active,
    ensures
        ({
            let after = over_spells(m, spells, n, cancel_step(active));
            let id = spells[s].casts@[c].id.0@;
            after.contains_key(id) ==> !under_way(after[id].phase)
        }),
    decreases n,
{
    let before = over_spells(m, spells, n - 1, cancel_step(active));
    let id = spells[s].casts@[c].id.0@;
    if s < n - 1 {
        law_cancel_leaves_no_other_spell_under_way(m, spells, n - 1, s, c, active);
        lemma_cancel_keeps_quiet(
            before,
            spells[n - 1],
            spells[n - 1].casts@.len() as int,
            active,
            id,
        );
    } else {
        lemma_cancel_quiets(before, spells[s], spells[s].casts@.len() as int, c, active);
    }
}

proof fn lemma_advance_leaves(
    m: Map<Seq<char>, CastInstance>,
    spell: SpellDef,
    n: int,
    active: Seq<char>,
    now: ActionSnapshot,
    before: ActionSnapshot,
    id: Seq<char>,
)
    requires
        n <= spell.casts@.len(),
        forall|c: int|
            0 <= c < spell.casts@.len() && (#[trigger] spell.casts@[c]).id.0@ == id
                ==> spell.casts@[c].requires_active && spell.id.0@ != active,
    ensures
        ({
            let after = over_casts(m, spell, n, advance_step(active, now, before));
            &&& after.contains_key(id) == m.contains_key(id)
            &&& after[id] == m[id]
        }),
    decreases n,
{
    if n > 0 {
        lemma_advance_leaves(m, spell, n - 1, active, now, before, id);
    }
}

/// Input moves no cast that needs its spell to be active while it is not.
pub proof fn law_inactive_casts_do_not_advance(
    m: Map<Seq<char>, CastInstance>,
    spells: Seq<SpellDef>,
    n: int,
    active: Seq<char>,
    now: ActionSnapshot,
    before: ActionSnapshot,
    id: Seq<char>,
)
    requires
        0 <= n <= spells.len(),
        forall|s: int, c: int|
            0 <= s < spells.len() && 0 <= c < spells[s].casts@.len() && (
            #[trigger] spells[s].casts@[c]).id.0@ == id ==> spells[s].casts@[c].requires_active
                && spells[s].id.0@ != active,
    ensures
        ({
            let after = over_spells(m, spells, n, advance_step(active, now, before));
            &&& after.contains_key(id) == m.contains_key(id)
            &&& after[id] == m[id]
        }),
    decreases n,
{
    if n > 0 {
        law_inactive_casts_do_not_advance(m, spells, n - 1, active, now, before, id);
        lemma_advance_leaves(
            over_spells(m, spells, n - 1, advance_step(active, now, before)),
            spells[n - 1],
            spells[n - 1].casts@.len() as int,
            active,
            now,
            before,
            id,
        );
    }
}

} // verus!

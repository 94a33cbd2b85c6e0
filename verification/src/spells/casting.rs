//! What holds of a cast over time: how long it waits, how fast it charges, and when it
//! goes out.
//!
//! Times and charges are set against exact numbers. How far a result is off is counted
//! in grains.

use crate::closeness::{
    exact, grains, lemma_clamp_close, lemma_exact, lemma_exact_constants, lemma_exact_ordered,
    lemma_minus_close, lemma_neg_close, lemma_over_close, lemma_plus_close, lemma_quotient_back,
    lemma_size_of_product, lemma_times_close, lemma_whole, limit, size, within,
};
use crate::rounding::lemma_units_increase;
use crate::scalar::{
    lemma_minus_no_greater, lemma_order_is_value, lemma_over_at_least_one, lemma_over_at_most_one,
    lemma_over_not_negative, lemma_sum_ordered, lemma_units_of_power, one, zero, Scalar,
};
use crate::spells::data::{ChargeSource, ChargingDef, TriggerDef};
use crate::spells::engine::{
    advanced, after_charge, after_dispatch, cancelled, charged, cooled, shortest_duration,
    CastInstance, CastPhase,
};
use crate::spells::hud::{charge_ratio, smallest_full};
use crate::turning::{
    lemma_cancel, lemma_regroup, lemma_scale_ordered, lemma_spread, lemma_spread_minus, lemma_swap,
};
use vstd::arithmetic::power2::{lemma2_to64, lemma_pow2_adds};
use vstd::prelude::*;

verus! {

/// A cast after the steps `dts`, one after the other.
pub open spec fn after_steps(instance: CastInstance, dts: Seq<Scalar>) -> CastInstance
    decreases dts.len(),
{
    if dts.len() == 0 {
        instance
    } else {
        cooled(after_steps(instance, dts.drop_last()), dts.last())
    }
}

/// How long the steps last together.
pub open spec fn total(dts: Seq<Scalar>) -> real
    decreases dts.len(),
{
    if dts.len() == 0 {
        0real
    } else {
        total(dts.drop_last()) + exact(dts.last())
    }
}

/// Whether no step is shorter than nothing, nor beyond measure.
pub open spec fn are_steps(dts: Seq<Scalar>) -> bool {
    forall|i: int|
        0 <= i < dts.len() ==> (#[trigger] dts[i]).is_finite() && 0real <= exact(dts[i])
            <= limit() / 4real
}

/// Whether a cast waits, for at most `most` seconds.
pub open spec fn waits(instance: CastInstance, most: real) -> bool {
    &&& instance.phase == CastPhase::Cooldown
    &&& instance.cooldown_remaining.is_finite()
    &&& 0real < exact(instance.cooldown_remaining) <= most
    &&& 1real <= most * limit()
    &&& most <= limit() / 4real
}

/// A step that does not use up a cooldown takes its length off what is left, as far as
/// rounding allows, and one that does ends the wait. All else stays.
pub proof fn law_step_of_a_cooldown(instance: CastInstance, dt: Scalar, most: real)
    requires
        waits(instance, most),
        dt.is_finite(),
        0real <= exact(dt) <= limit() / 4real,
    ensures
        ({
            let after = cooled(instance, dt);
            let left = exact(instance.cooldown_remaining) - exact(dt);
            &&& after.charge == instance.charge
            &&& after.captured_charge == instance.captured_charge
            &&& left <= 0real ==> after.phase == CastPhase::Idle
            &&& left * grains() > most ==> after.phase == CastPhase::Cooldown
            &&& after.phase == CastPhase::Cooldown ==> waits(after, most) && within(
                after.cooldown_remaining,
                left,
                most,
            )
            &&& after.phase != CastPhase::Cooldown ==> after.phase == CastPhase::Idle
                && exact(after.cooldown_remaining) == 0real
        }),
{
    let rem = instance.cooldown_remaining;
    let left = exact(rem) - exact(dt);
    let next = rem.minus(dt);
    lemma_exact_constants();
    lemma_exact(rem);
    lemma_exact(dt);
    lemma_exact_ordered(dt, zero());
    lemma_neg_close(dt);
    lemma_exact(dt.neg());
    if left <= 0real {
        lemma_exact_ordered(rem, dt);
        lemma_order_is_value(rem, dt);
        lemma_sum_ordered(rem, dt.neg(), zero());
        assert(rem.value() <= dt.value());
        assert(dt.neg().value() == -dt.value());
    } else {
        lemma_minus_close(rem, dt, most);
        lemma_minus_no_greater(rem, dt);
        lemma_exact_ordered(next, rem);
        lemma_exact_ordered(next, zero());
    }
}

/// Over any steps, a cast waits for as long as they do not use up the cooldown that it
/// began with, and no longer. While it waits, what is left is what they leave of it.
pub proof fn law_cooldown_lasts(instance: CastInstance, dts: Seq<Scalar>, most: real)
    requires
        waits(instance, most),
        are_steps(dts),
    ensures
        ({
            let after = after_steps(instance, dts);
            let left = exact(instance.cooldown_remaining) - total(dts);
            let off = (dts.len() as real) * most;
            &&& left * grains() > off ==> after.phase == CastPhase::Cooldown
            &&& left * grains() < -off ==> after.phase == CastPhase::Idle
            &&& after.phase == CastPhase::Cooldown ==> within(
                after.cooldown_remaining,
                left,
                off,
            )
        }),
{
    lemma_steps(instance, dts, most);
}

proof fn lemma_steps(instance: CastInstance, dts: Seq<Scalar>, most: real)
    requires
        waits(instance, most),
        are_steps(dts),
    ensures
        ({
            let after = after_steps(instance, dts);
            let left = exact(instance.cooldown_remaining) - total(dts);
            let off = (dts.len() as real) * most;
            if after.phase == CastPhase::Cooldown {
                waits(after, most) && within(after.cooldown_remaining, left, off)
            } else {
                after.phase == CastPhase::Idle && left * grains() <= off
            }
        }),
    decreases dts.len(),
{
    if dts.len() == 0 {
        assert((0int as real) * most == 0real);
    } else {
        let sooner = dts.drop_last();
        let dt = dts.last();
        assert(dts[dts.len() - 1] == dt);
        assert forall|i: int| 0 <= i < sooner.len() implies (#[trigger] sooner[i]).is_finite()
            && 0real <= exact(sooner[i]) <= limit() / 4real by {
            assert(sooner[i] == dts[i]);
        }
        lemma_steps(instance, sooner, most);
        let before = after_steps(instance, sooner);
        let n = sooner.len() as real;
        assert(dts.len() as real == n + 1real);
        lemma_spread(n, 1real, most);
        if before.phase == CastPhase::Cooldown {
            law_step_of_a_cooldown(before, dt, most);
        } else {
            lemma_exact_ordered(dt, zero());
        }
    }
}

/// A cast that has gone out waits for as long as its cooldown says, over any steps.
pub proof fn law_release_is_followed_by_its_cooldown(
    instance: CastInstance,
    cooldown: Scalar,
    dts: Seq<Scalar>,
)
    requires
        cooldown.is_finite(),
        1real <= exact(cooldown) * limit(),
        exact(cooldown) <= limit() / 4real,
        are_steps(dts),
    ensures
        ({
            let after = after_steps(after_dispatch(instance, cooldown), dts);
            let left = exact(cooldown) - total(dts);
            let off = (dts.len() as real) * exact(cooldown);
            &&& left * grains() > off ==> after.phase == CastPhase::Cooldown
            &&& left * grains() < -off ==> after.phase == CastPhase::Idle
        }),
{
    lemma_exact_constants();
    lemma_exact_ordered(zero(), cooldown);
    law_cooldown_lasts(after_dispatch(instance, cooldown), dts, exact(cooldown));
}

/// A charge that time fills grows by its part of the full charge: by all of it in
/// `duration` seconds, and never beyond the cap.
pub proof fn law_time_fills_a_charge(
    charge: Scalar,
    duration: Scalar,
    max_charge: Scalar,
    decay_rate: Scalar,
    cap: Scalar,
    lens_power: Scalar,
    dt: Scalar,
    top: real,
)
    requires
        charge.is_finite(),
        duration.is_finite(),
        max_charge.is_finite(),
        cap.is_finite(),
        dt.is_finite(),
        exact(duration) * 512real >= 1real,
        0real <= exact(charge) <= top,
        0real <= exact(max_charge) <= top * exact(duration),
        0real <= exact(dt) <= 1real,
        1real <= top * limit(),
        top <= limit() / 4real,
    ensures
        ({
            let source = ChargeSource::Time { duration };
            let r = charged(charge, source, max_charge, decay_rate, cap, lens_power, dt);
            let fill = exact(charge) + exact(max_charge) / exact(duration) * exact(dt);
            &&& r.is_finite()
            &&& fill * grains() + top * 6real < exact(cap) * grains() ==> within(
                r,
                fill,
                top * 6real,
            )
            &&& fill * grains() > exact(cap) * grains() + top * 6real ==> r == cap
            &&& exact(r) <= exact(cap)
        }),
{
    let g = grains();
    let long = duration.max(shortest_duration());
    assert(long == duration) by {
        lemma_shortest();
        lemma_exact_ordered(duration, shortest_duration());
    }
    let (c, m, d, t) = (exact(charge), exact(max_charge), exact(duration), exact(dt));
    let q = m / d;
    lemma_exact_constants();
    lemma_exact_ordered(duration, zero());
    lemma_quotient_back(m, d);
    assert(0real <= q <= top) by {
        lemma_swap(q, d);
        lemma_swap(top, d);
        lemma_cancel(d, q, top);
        lemma_cancel(d, 0real, q);
    }
    lemma_over_close(max_charge, duration, top);
    let rate = max_charge.over(duration);
    let p = exact(rate);
    lemma_size_of_product((p - q) * g, t, top, 1real);
    lemma_regroup(p - q, g, t);
    lemma_spread_minus(p, q, t);
    lemma_scale_ordered(q, 0real, t);
    lemma_scale_ordered(q, t, 1real);
    assert(size(p) <= top * 2real);
    lemma_size_of_product(p, t, top * 2real, 1real);
    lemma_times_close(rate, dt, top * 2real);
    let gain = rate.times(dt);
    assert(within(gain, q * t, top * 3real));
    assert(size(c + exact(gain)) * g <= top * 2real * g + top * 3real);
    lemma_gain_close(charge, gain, q * t, top);
    let sum = charge.plus(gain);
    lemma_exact_ordered(cap, sum);
}

/// A charge and what it gains.
proof fn lemma_gain_close(charge: Scalar, gain: Scalar, x: real, top: real)
    requires
        charge.is_finite(),
        0real <= exact(charge) <= top,
        within(gain, x, top * 3real),
        0real <= x <= top,
        1real <= top * limit(),
        top <= limit() / 4real,
    ensures
        within(charge.plus(gain), exact(charge) + x, top * 6real),
{
    lemma_plus_close(charge, gain, top * 3real);
}

/// The shortest duration is less than two to the power of minus nine.
proof fn lemma_shortest()
    ensures
        shortest_duration().is_finite(),
        exact(shortest_duration()) * 512real <= 1real,
{
    let a = shortest_duration();
    lemma_exact(a);
    lemma_whole();
    lemma_units_of_power(118);
    lemma_units_increase(a.magnitude() as int, 118int * 0x80_0000int);
    lemma_pow2_adds(140, 9);
    lemma2_to64();
}

/// A charge that a lens fills grows by the power that enters it; without power it loses
/// what decays. It never goes beyond the cap, nor below nothing.
pub proof fn law_power_fills_a_charge(
    charge: Scalar,
    source: ChargeSource,
    max_charge: Scalar,
    decay_rate: Scalar,
    cap: Scalar,
    lens_power: Scalar,
    dt: Scalar,
    top: real,
)
    requires
        source is Powered,
        charge.is_finite(),
        decay_rate.is_finite(),
        cap.is_finite(),
        lens_power.is_finite(),
        dt.is_finite(),
        0real <= exact(charge) <= top,
        0real <= exact(decay_rate) <= top,
        size(exact(lens_power)) <= top,
        0real <= exact(dt) <= 1real,
        1real <= top * limit(),
        top <= limit() / 4real,
    ensures
        ({
            let r = charged(charge, source, max_charge, decay_rate, cap, lens_power, dt);
            let fill = exact(charge) + exact(lens_power) * exact(dt);
            let rest = exact(charge) - exact(decay_rate) * exact(dt);
            &&& r.is_finite()
            &&& exact(lens_power) > 0real ==> exact(r) <= exact(cap)
            &&& exact(lens_power) > 0real && fill * grains() + top * 6real < exact(cap) * grains()
                ==> within(r, fill, top * 6real)
            &&& exact(lens_power) > 0real && fill * grains() > exact(cap) * grains() + top * 6real
                ==> r == cap
            &&& exact(lens_power) <= 0real ==> exact(r) >= 0real
            &&& exact(lens_power) <= 0real && rest >= 0real ==> within(r, rest, top * 6real)
            &&& exact(lens_power) <= 0real && rest * grains() < -(top * 6real) ==> exact(r) == 0real
        }),
{
    let t = exact(dt);
    lemma_exact_constants();
    lemma_exact_ordered(zero(), lens_power);
    if exact(lens_power) > 0real {
        let p = exact(lens_power);
        lemma_scale_ordered(p, 0real, t);
        lemma_scale_ordered(p, t, 1real);
        lemma_times_close(lens_power, dt, top);
        let gain = lens_power.times(dt);
        lemma_gain_close(charge, gain, p * t, top);
        lemma_exact_ordered(cap, charge.plus(gain));
    } else {
        let p = exact(decay_rate);
        lemma_scale_ordered(p, 0real, t);
        lemma_scale_ordered(p, t, 1real);
        lemma_times_close(decay_rate, dt, top);
        let loss = decay_rate.times(dt);
        lemma_minus_close(charge, loss, top * 2real);
        lemma_exact_ordered(charge.minus(loss), zero());
    }
}

/// A cast that is not under way begins with its action: one that is held as long as it
/// goes on begins whenever the action is there, the others when it has just begun. One
/// that charges begins to, from nothing. Of those that do not, a pressed one goes out,
/// as with a charge of one, and a held one goes out for as long as it is held.
pub proof fn law_cast_begins_with_its_action(
    instance: CastInstance,
    trigger: TriggerDef,
    charging: ChargingDef,
    cooldown: Scalar,
    held: bool,
    was_held: bool,
)
    requires
        instance.phase == CastPhase::Idle,
    ensures
        ({
            let after = advanced(instance, trigger, charging, cooldown, held, was_held);
            let begins = held && (trigger is Hold || !was_held);
            let charges = charging is Charging || trigger is PressReleaseCharged;
            &&& !begins ==> after == instance
            &&& begins && charges ==> after.phase == CastPhase::Charging && exact(after.charge)
                == 0real && after.captured_charge == instance.captured_charge
            &&& begins && !charges && trigger is Press ==> after.phase == CastPhase::Releasing
                && after.captured_charge is Some && exact(after.captured_charge->0) == 1real
            &&& begins && !charges && trigger is Hold ==> after.phase == CastPhase::Channeling
            &&& after.cooldown_remaining == instance.cooldown_remaining
        }),
{
    lemma_exact_constants();
}

/// A cast charges for as long as its action lasts. When that ends, one that is held is
/// dropped; any other one goes out with the charge that it has if that is enough, and is
/// dropped if it is not.
pub proof fn law_charging_ends_with_the_action(
    instance: CastInstance,
    trigger: TriggerDef,
    source: ChargeSource,
    min_release: Scalar,
    max_charge: Scalar,
    decay_rate: Scalar,
    cooldown: Scalar,
    held: bool,
)
    requires
        instance.phase == CastPhase::Charging,
        instance.charge.is_finite(),
        min_release.is_finite(),
    ensures
        ({
            let charging = ChargingDef::Charging {
                source,
                min_release,
                max_charge,
                decay_rate,
                overcharge: None,
            };
            let after = advanced(instance, trigger, charging, cooldown, held, true);
            let enough = exact(instance.charge) >= exact(min_release);
            &&& held ==> after == instance
            &&& !held && (trigger is Hold || !enough) ==> after.phase == CastPhase::Idle && exact(
                after.charge,
            ) == 0real
            &&& !held && trigger !is Hold && enough ==> after.phase == CastPhase::Releasing
                && after.captured_charge == Some(instance.charge)
        }),
{
    lemma_exact_constants();
    lemma_exact_ordered(min_release, instance.charge);
}

/// What goes out for as long as it is held ends when it is let go: it waits for its
/// cooldown, if there is one. What goes out once, and what waits, does not change by what
/// the player does.
pub proof fn law_channel_ends_when_let_go(
    instance: CastInstance,
    trigger: TriggerDef,
    charging: ChargingDef,
    cooldown: Scalar,
    held: bool,
    was_held: bool,
)
    requires
        cooldown.is_finite(),
    ensures
        ({
            let after = advanced(instance, trigger, charging, cooldown, held, was_held);
            &&& instance.phase == CastPhase::Channeling && trigger is Hold && !held
                && exact(cooldown) > 0real ==> after.phase == CastPhase::Cooldown
                && after.cooldown_remaining == cooldown
            &&& instance.phase == CastPhase::Channeling && trigger is Hold && !held
                && exact(cooldown) <= 0real ==> after.phase == CastPhase::Idle
            &&& instance.phase == CastPhase::Channeling && (held || trigger !is Hold)
                ==> after == instance
            &&& instance.phase == CastPhase::Releasing || instance.phase == CastPhase::Cooldown
                ==> after == instance
        }),
{
    lemma_exact_constants();
    lemma_exact_ordered(zero(), cooldown);
}

/// A held cast goes out once it is full; until then, and any other one, it keeps
/// charging.
pub proof fn law_full_charge_channels(
    instance: CastInstance,
    duration: Scalar,
    min_release: Scalar,
    max_charge: Scalar,
    decay_rate: Scalar,
    trigger: TriggerDef,
    lens_power: Scalar,
    dt: Scalar,
    top: real,
)
    requires
        instance.phase == CastPhase::Charging,
        instance.charge.is_finite(),
        duration.is_finite(),
        max_charge.is_finite(),
        dt.is_finite(),
        exact(duration) * 512real >= 1real,
        0real <= exact(instance.charge) <= top,
        0real <= exact(max_charge) <= top * exact(duration),
        0real <= exact(dt) <= 1real,
        1real <= top * limit(),
        top <= limit() / 4real,
    ensures
        ({
            let source = ChargeSource::Time { duration };
            let charging = ChargingDef::Charging {
                source,
                min_release,
                max_charge,
                decay_rate,
                overcharge: None,
            };
            let after = after_charge(instance, charging, trigger, lens_power, dt);
            let fill = exact(instance.charge) + exact(max_charge) / exact(duration) * exact(dt);
            let (most, off) = (exact(max_charge) * grains(), top * 6real);
            &&& after.cooldown_remaining == instance.cooldown_remaining
            &&& after.captured_charge == instance.captured_charge
            &&& fill * grains() + off < most ==> after.phase == CastPhase::Charging && within(
                after.charge,
                fill,
                off,
            )
            &&& fill * grains() > most + off && trigger is Hold ==> after.phase
                == CastPhase::Channeling && exact(after.charge) == 0real
            &&& fill * grains() > most + off && trigger !is Hold ==> after.phase
                == CastPhase::Charging && after.charge == max_charge
        }),
{
    lemma_exact_constants();
    law_time_fills_a_charge(
        instance.charge,
        duration,
        max_charge,
        decay_rate,
        max_charge,
        lens_power,
        dt,
        top,
    );
    let r = charged(
        instance.charge,
        ChargeSource::Time { duration },
        max_charge,
        decay_rate,
        max_charge,
        lens_power,
        dt,
    );
    lemma_exact_ordered(max_charge, r);
}

/// A cast whose spell is put away is dropped with its charge; what waits goes on to.
pub proof fn law_put_away_spells_are_dropped(instance: CastInstance)
    ensures
        ({
            let after = cancelled(instance);
            &&& after.phase == CastPhase::Idle || after.phase == CastPhase::Cooldown
            &&& instance.phase == CastPhase::Cooldown || instance.phase == CastPhase::Idle
                ==> after == instance
            &&& after != instance ==> exact(after.charge) == 0real && after.captured_charge is None
            &&& after.cooldown_remaining == instance.cooldown_remaining
        }),
{
    lemma_exact_constants();
}

/// What the bar shows of a charge is its part of the full charge, and never more than all
/// of it.
pub proof fn law_bar_shows_the_part_that_is_charged(charge: Scalar, full: Scalar)
    requires
        charge.is_finite(),
        full.is_finite(),
        exact(charge) >= 0real,
        exact(full) * 1024real >= 1real,
        exact(charge) <= limit() / 1024real,
    ensures
        ({
            let r = charge_ratio(charge, full);
            &&& r.is_finite()
            &&& 0real <= exact(r) <= 1real
            &&& exact(charge) >= exact(full) ==> exact(r) == 1real
            &&& exact(charge) <= exact(full) ==> within(r, exact(charge) / exact(full), 1real)
        }),
{
    let (c, f) = (exact(charge), exact(full));
    lemma_least_full();
    lemma_exact_constants();
    lemma_exact_ordered(full, smallest_full());
    lemma_exact_ordered(zero(), charge);
    lemma_exact_ordered(zero(), full);
    lemma_exact_ordered(full, charge);
    let q = charge.over(full);
    lemma_over_not_negative(charge, full);
    lemma_clamp_close(q);
    if c >= f {
        lemma_over_at_least_one(charge, full);
    }
    if c <= f {
        let x = c / f;
        lemma_quotient_back(c, f);
        lemma_swap(x, f);
        lemma_cancel(f, x, 1real);
        lemma_cancel(f, 0real, x);
        lemma_over_close(charge, full, 1real);
        lemma_exact_ordered(charge, full);
        lemma_over_at_most_one(charge, full);
        lemma_exact_ordered(q, zero());
        lemma_exact_ordered(one(), q);
    }
}

/// The least that counts as a full charge is less than a thousandth.
proof fn lemma_least_full()
    ensures
        smallest_full().is_finite(),
        0real <= exact(smallest_full()) * 1024real <= 1real,
{
    let a = smallest_full();
    lemma_exact(a);
    lemma_whole();
    lemma_units_of_power(117);
    lemma_units_increase(0, a.magnitude() as int);
    lemma_units_increase(a.magnitude() as int, 117int * 0x80_0000int);
    lemma_pow2_adds(139, 10);
    lemma2_to64();
}

} // verus!

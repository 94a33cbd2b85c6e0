//! How the iris gathers what it lets go, set against exact numbers.
//!
//! How far a result is off is counted in grains.

use crate::closeness::{
    exact, grains, lemma_exact, lemma_exact_constants, lemma_exact_ordered, lemma_minus_close,
    lemma_plus_close, lemma_size_of_product, lemma_times_close, lemma_whole, limit, size, within,
};
use crate::input::InputMode;
use crate::magic::{
    after_release, charge_after, iris_after, iris_charge_rate, iris_decay_rate, release_push,
    IrisState,
};
use crate::measuring::lemma_times_near;
use crate::player::spells::SpellId;
use crate::rounding::lemma_units_increase;
use crate::scalar::{lemma_times_one, lemma_units_of_power, one, zero, Scalar};
use crate::spells::convex_lens::BeamHit;
use crate::spells::iris::{iris_burst_duration, iris_burst_impulse, iris_burst_min, iris_max_charge};
use crate::turning::{lemma_regroup, lemma_scale_ordered};
use vstd::arithmetic::power2::{lemma2_to64, lemma_pow2_adds};
use vstd::prelude::*;

verus! {

/// What the iris gains and loses in a second, exactly, and how hard it pushes, roughly.
proof fn lemma_rates()
    ensures
        iris_charge_rate() == one(),
        iris_decay_rate().is_finite(),
        exact(iris_decay_rate()) == 2real,
        iris_burst_impulse().is_finite(),
        128real <= exact(iris_burst_impulse()) <= 256real,
{
    let (a, b) = (iris_decay_rate(), iris_burst_impulse());
    lemma_exact(a);
    lemma_exact(b);
    lemma_whole();
    lemma2_to64();
    lemma_units_of_power(128);
    lemma_pow2_adds(149, 1);
    lemma_units_of_power(134);
    lemma_units_of_power(135);
    lemma_units_increase(134int * 0x80_0000int, b.magnitude() as int);
    lemma_units_increase(b.magnitude() as int, 135int * 0x80_0000int);
    lemma_pow2_adds(149, 7);
    lemma_pow2_adds(149, 8);
}

/// While it is fed, the iris gains the power that enters it, up to as much as it holds.
/// While it is not, it loses two in a second, down to nothing.
pub proof fn law_iris_fills_and_drains(
    iris: IrisState,
    channeling: bool,
    power: Scalar,
    dt: Scalar,
    top: real,
)
    requires
        iris.charge.is_finite(),
        0real <= exact(iris.charge) <= top,
        power.is_finite(),
        size(exact(power)) <= top,
        dt.is_finite(),
        0real <= exact(dt) <= 1real,
        2real <= top <= limit() / 8real,
    ensures
        ({
            let r = charge_after(iris, channeling, power, dt);
            let fed = channeling && exact(power) > 0real;
            let fill = exact(iris.charge) + exact(power) * exact(dt);
            let rest = exact(iris.charge) - 2real * exact(dt);
            let most = exact(iris_max_charge());
            &&& r.is_finite()
            &&& fed ==> exact(r) <= most
            &&& fed && fill * grains() + top * 6real < most * grains() ==> within(
                r,
                fill,
                top * 6real,
            )
            &&& fed && fill * grains() > most * grains() + top * 6real ==> r == iris_max_charge()
            &&& !fed ==> 0real <= exact(r) <= exact(iris.charge) + top
            &&& !fed && rest >= 0real ==> within(r, rest, top * 6real)
            &&& !fed && rest * grains() < -(top * 6real) ==> exact(r) == 0real
        }),
{
    let (c, p, t) = (exact(iris.charge), exact(power), exact(dt));
    lemma_exact_constants();
    lemma_rates();
    lemma_exact_ordered(zero(), power);
    lemma_exact_ordered(zero(), iris.charge);
    if channeling && power.gt(zero()) {
        let same = power.times(iris_charge_rate());
        lemma_times_one(power, one());
        lemma_exact(same);
        lemma_exact(power);
        assert(exact(same) == p);
        lemma_scale_ordered(p, 0real, t);
        lemma_scale_ordered(p, t, 1real);
        lemma_times_close(same, dt, top);
        let gain = same.times(dt);
        lemma_plus_close(iris.charge, gain, top * 3real);
        lemma_exact_ordered(iris_max_charge(), iris.charge.plus(gain));
        lemma_exact_ordered(iris.charge.plus(gain), iris_max_charge());
    } else if iris.charge.gt(zero()) {
        lemma_times_close(iris_decay_rate(), dt, top);
        let loss = iris_decay_rate().times(dt);
        lemma_minus_close(iris.charge, loss, top * 2real);
        lemma_exact_ordered(iris.charge.minus(loss), zero());
    }
}

/// In hand and with no burst under way, the iris fills and drains. A burst lasts for its
/// time, and the charge waits until it is over.
pub proof fn law_burst_runs_out(
    channeling: bool,
    power: Scalar,
    dt: Scalar,
    iris: IrisState,
    top: real,
)
    requires
        iris.burst_timer.is_finite(),
        0real <= exact(iris.burst_timer) <= top,
        dt.is_finite(),
        0real <= exact(dt) <= top,
        1real <= top * limit(),
        top <= limit() / 8real,
    ensures
        ({
            let r = iris_after(SpellId::Iris, InputMode::Player, channeling, power, dt, iris);
            let left = exact(iris.burst_timer) - exact(dt);
            &&& r.burst_charge == iris.burst_charge
            &&& exact(iris.burst_timer) == 0real ==> r.burst_timer == iris.burst_timer && r.charge
                == charge_after(iris, channeling, power, dt)
            &&& exact(iris.burst_timer) > 0real ==> r.charge == iris.charge
            &&& exact(iris.burst_timer) > 0real && left >= 0real ==> within(
                r.burst_timer,
                left,
                top,
            )
            &&& exact(iris.burst_timer) > 0real && left * grains() < -top ==> exact(r.burst_timer)
                == 0real
        }),
{
    lemma_exact_constants();
    lemma_exact_ordered(zero(), iris.burst_timer);
    lemma_minus_close(iris.burst_timer, dt, top);
    lemma_exact_ordered(iris.burst_timer.minus(dt), zero());
}

/// Letting go of enough charge makes a burst of all of it; too little is lost.
pub proof fn law_release_bursts_with_the_charge(iris: IrisState)
    requires
        !iris.charge.is_nan(),
    ensures
        ({
            let r = after_release(iris);
            &&& r.charge == zero()
            &&& iris.charge.ge(iris_burst_min()) ==> r.burst_charge == iris.charge
                && r.burst_timer == iris_burst_duration()
            &&& !iris.charge.ge(iris_burst_min()) ==> r.burst_charge == iris.burst_charge
                && r.burst_timer == iris.burst_timer
        }),
{
}

/// A burst pushes what it meets along itself, by how much charge is let go. What meets
/// nothing pushes nothing.
pub proof fn law_burst_pushes_along(hit: BeamHit, charge: Scalar, top: real)
    requires
        charge.is_finite(),
        0real <= exact(charge) <= top,
        1real <= top <= 1048576real,
        hit.impulse_info is Some ==> hit.impulse_info->0.direction.is_finite() && size(
            exact(hit.impulse_info->0.direction.x),
        ) <= 2real && size(exact(hit.impulse_info->0.direction.y)) <= 2real && size(
            exact(hit.impulse_info->0.direction.z),
        ) <= 2real,
    ensures
        ({
            let r = release_push(hit, charge);
            let k = exact(iris_burst_impulse()) * exact(charge);
            &&& r is Some <==> hit.impulse_info is Some
            &&& hit.impulse_info matches Some(info) ==> {
                &&& r->0.entity == info.entity
                &&& within(r->0.impulse.x, exact(info.direction.x) * k, top * 1600real)
                &&& within(r->0.impulse.y, exact(info.direction.y) * k, top * 1600real)
                &&& within(r->0.impulse.z, exact(info.direction.z) * k, top * 1600real)
            }
        }),
{
    if hit.impulse_info is Some {
        let info = hit.impulse_info->0;
        lemma_pushed(info.direction.x, charge, top);
        lemma_pushed(info.direction.y, charge, top);
        lemma_pushed(info.direction.z, charge, top);
    }
}

proof fn lemma_pushed(d: Scalar, charge: Scalar, top: real)
    requires
        d.is_finite(),
        size(exact(d)) <= 2real,
        charge.is_finite(),
        0real <= exact(charge) <= top,
        1real <= top <= 1048576real,
    ensures
        within(
            d.times(iris_burst_impulse()).times(charge),
            exact(d) * (exact(iris_burst_impulse()) * exact(charge)),
            top * 1600real,
        ),
{
    let (x, k, c) = (exact(d), exact(iris_burst_impulse()), exact(charge));
    lemma_rates();
    lemma_size_of_product(x, k, 2real, 256real);
    lemma_times_close(d, iris_burst_impulse(), 512real);
    let y = x * k;
    lemma_scale_ordered(c, size(y) * grains() + 512real, 8606711808real);
    lemma_times_near(d.times(iris_burst_impulse()), y, 512real, charge, top * 513real);
    lemma_regroup(x, k, c);
}

} // verus!

//! What is shown of how characters move, set against exact numbers.
//!
//! How far a result is off is counted in grains.

use crate::closeness::{
    exact, grains, lemma_exact, lemma_exact_constants, lemma_exact_ordered, lemma_minus_close,
    lemma_plus_within, lemma_size_of_product, lemma_times_close, lemma_whole, within,
};
use crate::player::visuals::{
    airborne_alpha, casting_alpha, eased, gait, ground_speed, step_airborne_blend,
    step_casting_blend, walk_min_speed,
};
use crate::rounding::lemma_units_increase;
use crate::scalar::{lemma_quotient, lemma_units_of_power, one, zero, Scalar};
use crate::turning::{
    is_scale, is_unit, lemma_close_parts, lemma_regroup, lemma_rotate_close, lemma_spread_minus,
    reaches, Spot, Turn,
};
use crate::vector::{Quat, Vec3};
use vstd::prelude::*;

verus! {

/// Which way over the ground a character goes, in its own directions.
pub open spec fn own_way(velocity: Vec3, facing: Quat) -> Spot {
    Turn::of(facing).turned(Spot { x: exact(velocity.x), y: 0real, z: exact(velocity.z) })
}

/// A character that goes ahead does not show walking back, and the other way round; nor
/// does one that goes left show walking right, or the other way round. Ahead is against
/// the third of its own axes, and right is along the first.
pub proof fn law_gait_goes_the_way_of_the_character(
    velocity: Vec3,
    facing: Quat,
    grounded: Scalar,
    d: real,
)
    requires
        is_unit(facing),
        velocity.is_finite(),
        reaches(Spot { x: exact(velocity.x), y: 0real, z: exact(velocity.z) }, d),
        is_scale(d / 65real),
        ground_speed(velocity).is_finite(),
    ensures
        ({
            let r = gait(velocity, facing, grounded);
            let way = own_way(velocity, facing);
            &&& way.z * grains() < -(d * 64real) ==> r.backward == zero()
            &&& way.z * grains() > d * 64real ==> r.forward == zero()
            &&& way.x * grains() < -(d * 64real) ==> r.right == zero()
            &&& way.x * grains() > d * 64real ==> r.left == zero()
        }),
{
    let flat = Vec3 { x: velocity.x, y: zero(), z: velocity.z };
    lemma_exact_constants();
    let s = d / 65real;
    assert(Spot::of(flat) == Spot { x: exact(velocity.x), y: 0real, z: exact(velocity.z) });
    assert(s * 65real == d);
    lemma_rotate_close(facing, flat, s);
    let v = facing.rotate(flat);
    lemma_close_parts(Spot::of(v), own_way(velocity, facing), s * 4146real);
    let speed = ground_speed(velocity);
    if !speed.lt(walk_min_speed()) {
        lemma_least_speed();
        lemma_exact_ordered(speed, walk_min_speed());
        lemma_side(v.z, speed);
        lemma_side(v.x, speed);
    }
}

/// What is shown as walking is faster than nothing.
proof fn lemma_least_speed()
    ensures
        walk_min_speed().is_finite(),
        exact(walk_min_speed()) > 0real,
{
    let a = walk_min_speed();
    lemma_exact(a);
    lemma_units_increase(0, a.magnitude() as int);
}

/// A part of something lies on the same side.
proof fn lemma_side(x: Scalar, s: Scalar)
    requires
        x.is_finite(),
        s.is_finite(),
        exact(s) > 0real,
    ensures
        exact(x) < 0real ==> !x.over(s).gt(zero()),
        exact(x) > 0real ==> !x.over(s).lt(zero()),
{
    reveal(Scalar::spec_over);
    lemma_exact(x);
    lemma_exact(s);
    lemma_units_increase(0, x.magnitude() as int);
    lemma_units_increase(0, s.magnitude() as int);
    lemma_quotient(x.magnitude() as int, s.magnitude() as int);
}

/// How fast what is shown follows, roughly.
proof fn lemma_shares()
    ensures
        airborne_alpha().is_finite(),
        0real < exact(airborne_alpha()) <= 1real,
        casting_alpha().is_finite(),
        0real < exact(casting_alpha()) <= 1real,
{
    let (a, b) = (airborne_alpha(), casting_alpha());
    lemma_exact(a);
    lemma_exact(b);
    lemma_whole();
    lemma_units_of_power(127);
    lemma_units_increase(0, a.magnitude() as int);
    lemma_units_increase(a.magnitude() as int, 127int * 0x80_0000int);
    lemma_units_increase(0, b.magnitude() as int);
    lemma_units_increase(b.magnitude() as int, 127int * 0x80_0000int);
}

/// What comes nearer to something by a part of what is missing.
proof fn lemma_eased(current: Scalar, target: Scalar, alpha: Scalar)
    requires
        current.is_finite(),
        target.is_finite(),
        alpha.is_finite(),
        0real <= exact(current) <= 1real,
        0real <= exact(target) <= 1real,
        0real <= exact(alpha) <= 1real,
    ensures
        within(
            eased(current, target, alpha),
            exact(current) + (exact(target) - exact(current)) * exact(alpha),
            6real,
        ),
{
    let g = grains();
    let (c, t, k) = (exact(current), exact(target), exact(alpha));
    lemma_minus_close(target, current, 1real);
    let m = target.minus(current);
    let x = exact(m);
    lemma_size_of_product(x, k, 2real, 1real);
    lemma_times_close(m, alpha, 2real);
    lemma_size_of_product((x - (t - c)) * g, k, 1real, 1real);
    lemma_regroup(x - (t - c), g, k);
    lemma_spread_minus(x, t - c, k);
    let y = (t - c) * k;
    lemma_size_of_product(t - c, k, 1real, 1real);
    lemma_plus_within(current, c, 0real, m.times(alpha), y, 3real, 3real);
}

/// A jump shows more and more while a character is in the air, and less and less on the
/// ground: each frame the same part of what is missing.
pub proof fn law_jumps_fade_in_and_out(current: Scalar)
    requires
        current.is_finite(),
        0real <= exact(current) <= 1real,
    ensures
        ({
            let (c, k) = (exact(current), exact(airborne_alpha()));
            &&& 0real < k <= 1real
            &&& within(step_airborne_blend(current, false), c + (1real - c) * k, 6real)
            &&& within(step_airborne_blend(current, true), c + (0real - c) * k, 6real)
        }),
{
    lemma_shares();
    lemma_exact_constants();
    lemma_eased(current, one(), airborne_alpha());
    lemma_eased(current, zero(), airborne_alpha());
}

/// A cast shows more and more while it lasts, and less and less once it is over.
pub proof fn law_casts_fade_in_and_out(current: Scalar)
    requires
        current.is_finite(),
        0real <= exact(current) <= 1real,
    ensures
        ({
            let (c, k) = (exact(current), exact(casting_alpha()));
            &&& 0real < k <= 1real
            &&& within(step_casting_blend(current, true), c + (1real - c) * k, 6real)
            &&& within(step_casting_blend(current, false), c + (0real - c) * k, 6real)
        }),
{
    lemma_shares();
    lemma_exact_constants();
    lemma_eased(current, one(), casting_alpha());
    lemma_eased(current, zero(), casting_alpha());
}

} // verus!

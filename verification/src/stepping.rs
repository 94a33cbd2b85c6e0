//! How the player of the game for one steps through portals, set against exact numbers.
//!
//! How far a result is off is counted in grains.

use crate::closeness::{
    exact, grains, lemma_exact, lemma_exact_constants, lemma_exact_ordered, lemma_minus_close,
    lemma_neg_close, lemma_plus_within, lemma_size_of_product, lemma_times_close, lemma_whole, size,
    within,
};
use crate::measuring::{lemma_length_close, lemma_times_near};
use crate::rounding::lemma_units_increase;
use crate::scalar::{
    lemma_over_at_most_one, lemma_over_not_negative, lemma_sum_ordered, lemma_units_of_power, one,
    zero, Scalar,
};
use crate::spatial::{exit_min_speed, exit_offset, put_out, takes, Walker};
use crate::spells::carrying::{
    is_off_by, law_along_is_how_far_in_front, law_face_is_the_second_axis, lemma_axes,
    lemma_norm_twice, outwards, part,
};
use crate::spells::passing::{
    is_round, lemma_inside_the_rim, lemma_off_the_rim, lemma_part_reach, lemma_point_on_the_way,
    place_of,
};
use crate::spells::portal::{along, face, is_level, portal_radius};
use crate::turning::{
    is_small, is_unit, lemma_close_parts, lemma_reach_parts, lemma_regroup, lemma_spread_minus,
    lemma_turn_keeps, reaches, Spot, Turn,
};
use crate::vector::{Pose, Vec3};
use vstd::arithmetic::power2::{lemma2_to64, lemma_pow2_adds};
use vstd::prelude::*;

verus! {

/// Whether a player who went from `prev_pos` to `pos` is near an upright disc.
pub open spec fn walks_by(prev_pos: Vec3, pos: Vec3, entry: Pose, l: real) -> bool {
    &&& is_off_by(prev_pos, entry, l)
    &&& is_off_by(pos, entry, l)
    &&& is_small(prev_pos, l / 2real)
    &&& is_small(pos, l / 2real)
    &&& l >= 2real
    &&& l <= 1048576real
    &&& !is_level(face(entry.rotation))
}

/// How far in front of a disc a place is, exactly.
pub open spec fn in_front(pos: Vec3, entry: Pose) -> real {
    part(place_of(pos, entry), entry.rotation, outwards())
}

/// An upright disc takes a player who walks into its front within the rim, and none who
/// comes from behind or stays on one side.
pub proof fn law_upright_discs_take_what_walks_into_the_front(
    prev_pos: Vec3,
    pos: Vec3,
    entry: Pose,
    rho: real,
    l: real,
)
    requires
        walks_by(prev_pos, pos, entry, l),
        0real <= rho <= l,
        (exact(portal_radius()) - rho) * grains() > l * 4700real,
        is_round(place_of(prev_pos, entry), entry.rotation, rho),
        is_round(place_of(pos, entry), entry.rotation, rho),
    ensures
        ({
            let (was, now) = (in_front(prev_pos, entry), in_front(pos, entry));
            let off = l * 2100real;
            &&& was * grains() > off && now * grains() < -off ==> takes(prev_pos, pos, entry)
            &&& was * grains() < -off || now * grains() > off ==> !takes(prev_pos, pos, entry)
        }),
{
    law_along_is_how_far_in_front(prev_pos, entry, l);
    law_along_is_how_far_in_front(pos, entry, l);
    let (a, b) = (along(prev_pos, entry), along(pos, entry));
    lemma_exact_constants();
    lemma_exact_ordered(zero(), a);
    lemma_exact_ordered(b, zero());
    if exact(a) > 0real && exact(b) <= 0real {
        lemma_time(prev_pos, pos, entry, l);
        let time = a.over(a.minus(b));
        lemma_point_on_the_way(prev_pos, pos, entry, time, l);
        lemma_inside_the_rim(
            prev_pos.lerp(pos, time).minus(entry.translation),
            place_of(prev_pos, entry),
            place_of(pos, entry),
            exact(time),
            entry,
            rho,
            l,
        );
    }
}

/// An upright disc takes no player who walks past it, beyond the rim.
pub proof fn law_upright_discs_leave_what_walks_past(
    prev_pos: Vec3,
    pos: Vec3,
    entry: Pose,
    w: Spot,
    l: real,
)
    requires
        walks_by(prev_pos, pos, entry, l),
        w.dot(w) == 1real,
        w.dot(Turn::of(entry.rotation).turned(outwards())) == 0real,
        (place_of(prev_pos, entry).dot(w) - exact(portal_radius())) * grains() > l * 4700real,
        (place_of(pos, entry).dot(w) - exact(portal_radius())) * grains() > l * 4700real,
    ensures
        !takes(prev_pos, pos, entry),
{
    law_along_is_how_far_in_front(prev_pos, entry, l);
    law_along_is_how_far_in_front(pos, entry, l);
    let (a, b) = (along(prev_pos, entry), along(pos, entry));
    lemma_exact_constants();
    lemma_exact_ordered(zero(), a);
    lemma_exact_ordered(b, zero());
    if exact(a) > 0real && exact(b) <= 0real {
        lemma_time(prev_pos, pos, entry, l);
        let time = a.over(a.minus(b));
        lemma_point_on_the_way(prev_pos, pos, entry, time, l);
        lemma_off_the_rim(
            prev_pos.lerp(pos, time).minus(entry.translation),
            place_of(prev_pos, entry),
            place_of(pos, entry),
            exact(time),
            entry,
            w,
            l,
        );
    }
}

/// The time at which a player who comes from the front is at a disc is a part of the step.
proof fn lemma_time(prev_pos: Vec3, pos: Vec3, entry: Pose, l: real)
    requires
        walks_by(prev_pos, pos, entry, l),
        along(prev_pos, entry).is_finite(),
        along(pos, entry).is_finite(),
        exact(along(prev_pos, entry)) > 0real,
        exact(along(pos, entry)) <= 0real,
    ensures
        ({
            let (a, b) = (along(prev_pos, entry), along(pos, entry));
            let time = a.over(a.minus(b));
            &&& time.is_finite()
            &&& 0real <= exact(time) <= 1real
        }),
{
    law_along_is_how_far_in_front(prev_pos, entry, l);
    law_along_is_how_far_in_front(pos, entry, l);
    let (a, b) = (along(prev_pos, entry), along(pos, entry));
    lemma_part_reach(place_of(prev_pos, entry), entry, l);
    lemma_part_reach(place_of(pos, entry), entry, l);
    lemma_minus_close(a, b, l * 5real);
    let d = a.minus(b);
    lemma_neg_close(b);
    lemma_exact(a);
    lemma_exact(b);
    lemma_exact(b.neg());
    lemma_sum_ordered(a, b.neg(), a);
    lemma_exact_constants();
    lemma_exact_ordered(zero(), a);
    lemma_exact_ordered(a, d);
    lemma_exact_ordered(zero(), d);
    lemma_over_at_most_one(a, d);
    lemma_over_not_negative(a, d);
    let time = a.over(d);
    lemma_exact_ordered(time, one());
    lemma_exact_ordered(zero(), time);
}

/// How far from a portal a player comes out, and how fast at least, roughly.
proof fn lemma_exit_constants()
    ensures
        exit_offset().is_finite(),
        0real <= exact(exit_offset()) <= 1real,
        exit_min_speed().is_finite(),
        2real <= exact(exit_min_speed()) <= 4real,
{
    let (a, b) = (exit_offset(), exit_min_speed());
    lemma_exact(a);
    lemma_exact(b);
    lemma_whole();
    lemma2_to64();
    lemma_units_of_power(127);
    lemma_units_of_power(128);
    lemma_units_of_power(129);
    lemma_pow2_adds(149, 1);
    lemma_pow2_adds(149, 2);
    lemma_units_increase(0, a.magnitude() as int);
    lemma_units_increase(a.magnitude() as int, 127int * 0x80_0000int);
    lemma_units_increase(128int * 0x80_0000int, b.magnitude() as int);
    lemma_units_increase(b.magnitude() as int, 129int * 0x80_0000int);
}

/// The greater of the two.
pub open spec fn greater(a: real, b: real) -> real {
    if a < b {
        b
    } else {
        a
    }
}

/// A player comes out before the exit, and goes straight away from it: as fast as
/// before, but not too slowly.
pub proof fn law_players_are_pushed_out(walker: Walker, exit: Pose, d: real, l: real)
    requires
        is_unit(exit.rotation),
        is_small(exit.translation, l),
        walker.velocity.is_finite(),
        d >= 0real,
        d * d == Spot::of(walker.velocity).dot(Spot::of(walker.velocity)),
        d <= 1048576real,
        1real <= l <= 1048576real,
    ensures
        ({
            let r = put_out(walker, exit);
            let out = Turn::of(exit.rotation).turned(outwards());
            let there = Spot::of(exit.translation).plus(out.scale(exact(exit_offset())));
            let speed = greater(d, exact(exit_min_speed()));
            let goes = out.scale(speed);
            &&& r.prev == Some(r.at)
            &&& within(r.at.x, there.x, l * 2100real)
            &&& within(r.at.y, there.y, l * 2100real)
            &&& within(r.at.z, there.z, l * 2100real)
            &&& within(r.velocity.x, goes.x, speed * 2100real)
            &&& within(r.velocity.y, goes.y, speed * 2100real)
            &&& within(r.velocity.z, goes.z, speed * 2100real)
        }),
{
    let n = face(exit.rotation);
    let out = Turn::of(exit.rotation).turned(outwards());
    law_face_is_the_second_axis(exit.rotation);
    lemma_close_parts(Spot::of(n), out, 2000real);
    lemma_axes(outwards());
    lemma_turn_keeps(Turn::of(exit.rotation), outwards(), outwards());
    lemma_norm_twice(Turn::of(exit.rotation).norm(), 64real);
    let c = 101real / 100real;
    assert(c * c == 10201real / 10000real);
    assert(reaches(out, c));
    lemma_reach_parts(out, c);
    lemma_exit_constants();
    lemma_length_close(walker.velocity, d);
    let k = walker.velocity.length();
    lemma_exact_ordered(k, exit_min_speed());
    let top = k.max(exit_min_speed());
    let speed = greater(d, exact(exit_min_speed()));
    assert(within(top, speed, speed * 12real + 2real));
    lemma_before(exit.translation.x, n.x, out.x, l);
    lemma_before(exit.translation.y, n.y, out.y, l);
    lemma_before(exit.translation.z, n.z, out.z, l);
    lemma_away(n.x, out.x, top, speed);
    lemma_away(n.y, out.y, top, speed);
    lemma_away(n.z, out.z, top, speed);
}

proof fn lemma_before(o: Scalar, n: Scalar, x: real, l: real)
    requires
        o.is_finite(),
        size(exact(o)) <= l,
        within(n, x, 2000real),
        size(x) * 100real <= 101real,
        1real <= l <= 1048576real,
    ensures
        within(o.plus(n.times(exit_offset())), exact(o) + x * exact(exit_offset()), l * 2100real),
{
    let k = exact(exit_offset());
    lemma_exit_constants();
    lemma_size_of_product(size(x) * grains() + 2000real, k, 2real * grains(), 1real);
    lemma_times_near(n, x, 2000real, exit_offset(), 2real);
    lemma_size_of_product(x, k, 101real / 100real, 1real);
    lemma_plus_within(
        o,
        exact(o),
        0real,
        n.times(exit_offset()),
        x * k,
        2000real * k + 2real,
        l * 3real,
    );
}

proof fn lemma_away(n: Scalar, x: real, top: Scalar, speed: real)
    requires
        within(n, x, 2000real),
        size(x) * 100real <= 101real,
        within(top, speed, speed * 12real + 2real),
        2real <= speed <= 1048576real,
    ensures
        within(n.times(top), x * speed, speed * 2100real),
{
    let g = grains();
    let (y, s) = (exact(n), exact(top));
    lemma_size_of_product(y, s, 102real / 100real, speed * 2real);
    lemma_times_close(n, top, speed * 3real);
    // The two factors are off by a little each.
    lemma_size_of_product((y - x) * g, s, 2000real, speed * (1001real / 1000real));
    lemma_regroup(y - x, g, s);
    lemma_spread_minus(y, x, s);
    lemma_size_of_product(x, (s - speed) * g, 101real / 100real, speed * 13real);
    lemma_regroup(x, s - speed, g);
    lemma_spread_minus(s, speed, x);
}

} // verus!

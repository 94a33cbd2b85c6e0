//! How the player at this machine moves, set against exact numbers.
//!
//! How far a result is off is counted in grains.

use crate::closeness::{
    exact, grains, lemma_exact, lemma_exact_constants, lemma_exact_ordered, lemma_neg_close,
    lemma_plus_within, lemma_sqrt_close, lemma_times_close, lemma_whole, size, within,
};
use crate::measuring::{
    lemma_difference_close, lemma_distance_close, lemma_length_squared, lemma_over_length,
    lemma_root_near, lemma_times_near,
};
use crate::net::server_players::{max_speed, no_longer, shortest_step};
use crate::net::walking::{grip, lemma_held_back, lemma_speed, lemma_walking_constants};
use crate::player::controller::{
    apply_ground_brake, apply_jump, apply_movement, brake_acceleration, jump_speed,
    no_longer_than_one, slow_enough,
};
use crate::rounding::lemma_units_increase;
use crate::scalar::{lemma_quotient, lemma_times_one, lemma_units_of_power, one, zero, Scalar};
use crate::spells::aiming::is_at;
use crate::spells::carrying::lemma_norm_twice;
use crate::turning::{
    is_unit, lemma_close_parts, lemma_reach_parts, lemma_regroup, lemma_rotate_close,
    lemma_scale_ordered, lemma_square, lemma_squares_ordered, lemma_swap, lemma_turn_keeps, reaches,
    Spot, Turn,
};
use crate::vector::{Quat, Vec2, Vec3};
use vstd::arithmetic::power2::{lemma2_to64, lemma_pow2_adds};
use vstd::prelude::*;

verus! {

/// Whether an input is `d` long, and in measure.
pub open spec fn is_input(input: Vec2, d: real) -> bool {
    &&& input.x.is_finite()
    &&& input.y.is_finite()
    &&& d * d == exact(input.x) * exact(input.x) + exact(input.y) * exact(input.y)
    &&& 1real <= d * 1048576real
    &&& d <= 1048576real
}

/// An input no longer than one is taken as it is. Of a longer one what is as long as one
/// is taken.
pub proof fn law_input_counts_up_to_one(input: Vec2, d: real)
    requires
        is_input(input, d),
    ensures
        ({
            let r = no_longer_than_one(input);
            &&& d * (grains() + 10real) < grains() ==> r == input
            &&& d * (grains() - 10real) > grains() ==> within(r.x, exact(input.x) / d, 28real)
                && within(r.y, exact(input.y) / d, 28real)
            &&& r.x.is_finite()
            &&& r.y.is_finite()
            &&& size(exact(r.x)) * 100real <= 101real
            &&& size(exact(r.y)) * 100real <= 101real
        }),
{
    let g = grains();
    let (x, y) = (exact(input.x), exact(input.y));
    let n = d * d;
    lemma_exact_constants();
    lemma_square(x);
    lemma_square(y);
    lemma_squares_ordered(1real, d * 1048576real);
    lemma_regroup(d, 1048576real, d * 1048576real);
    lemma_regroup(d, d, 1048576real);
    lemma_squares_ordered(d, 1048576real);
    lemma_squares_ordered(x, d);
    lemma_squares_ordered(y, d);
    lemma_times_close(input.x, input.x, n);
    lemma_times_close(input.y, input.y, n);
    let (p, q) = (input.x.times(input.x), input.y.times(input.y));
    lemma_plus_within(p, x * x, n, q, y * y, n, n * 2real);
    let squared = p.plus(q);
    assert(within(squared, n, n * 4real));
    lemma_times_one(one(), one());
    let whole = one().times(one());
    lemma_exact(whole);
    lemma_exact(one());
    assert(exact(whole) == 1real);
    lemma_exact_ordered(whole, squared);
    if squared.gt(whole) {
        lemma_sqrt_close(squared);
        let r = exact(squared.sqrt());
        let z = r * r;
        assert(size(z - n) * g <= n * 8real);
        lemma_root_near(r, d, 8real);
        lemma_over_length(input.x, x, squared.sqrt(), d);
        lemma_over_length(input.y, y, squared.sqrt(), d);
        let (a, b) = (input.x.over(squared.sqrt()), input.y.over(squared.sqrt()));
        lemma_times_one(a, one());
        lemma_times_one(b, one());
        lemma_exact(a);
        lemma_exact(b);
        lemma_exact(one().times(a));
        lemma_exact(one().times(b));
    } else {
        assert(n * (g - 4real) <= g);
        let c = 1001real / 1000real;
        assert(c * c == 1002001real / 1000000real);
        lemma_squares_ordered(d, c);
    }
    if d * (g + 10real) < g {
        lemma_apart_from_one(d);
    }
    if d * (g - 10real) > g {
        lemma_apart_from_one(d);
    }
}

/// The square of what is apart from one is apart from one.
proof fn lemma_apart_from_one(d: real)
    requires
        d > 0real,
    ensures
        d * 16777226real < 16777216real ==> (d * d) * 16777224real < 16777216real,
        d * 16777206real > 16777216real ==> (d * d) * 16777208real > 16777216real,
{
    let n = d * d;
    if d * 16777226real < 16777216real {
        lemma_scale_ordered(d, d, 16777216real / 16777226real);
        assert(n * 16777226real <= d * 16777216real);
    }
    if d * 16777206real > 16777216real {
        lemma_scale_ordered(d, 16777216real / 16777206real, d);
        assert(n * 16777206real >= d * 16777216real);
    }
}

/// The velocity that an input asks for, of a player who is turned by `facing`.
pub open spec fn asked(input: Vec2, facing: Quat) -> Vec3 {
    let way = no_longer_than_one(input);
    facing.rotate(Vec3 { x: way.x, y: zero(), z: way.y.neg() }).scale(max_speed())
}

/// An input asks for its part of the full speed, sideways by its first coordinate and
/// ahead by its second, as the player is turned.
pub proof fn law_input_asks_as_the_player_is_turned(input: Vec2, facing: Quat, d: real)
    requires
        is_input(input, d),
        is_unit(facing),
    ensures
        ({
            let way = no_longer_than_one(input);
            let walks = Spot { x: exact(way.x), y: 0real, z: -exact(way.y) };
            is_at(
                asked(input, facing),
                Turn::of(facing).turned(walks).scale(exact(max_speed())),
                1100real,
            )
        }),
{
    let way = no_longer_than_one(input);
    law_input_counts_up_to_one(input, d);
    let v = Vec3 { x: way.x, y: zero(), z: way.y.neg() };
    lemma_exact_constants();
    lemma_neg_close(way.y);
    let (x, z) = (exact(v.x), exact(v.z));
    let c = 101real / 100real;
    lemma_squares_ordered(x, c);
    lemma_squares_ordered(z, c);
    assert(c * c == 10201real / 10000real);
    let s = 2real / 65real;
    assert(s * 65real == 2real);
    assert(0real * 0real == 0real);
    assert(reaches(Spot::of(v), s * 65real));
    lemma_rotate_close(facing, v, s);
    let (u, e) = (facing.rotate(v), Turn::of(facing).turned(Spot::of(v)));
    lemma_close_parts(Spot::of(u), e, s * 4146real);
    lemma_turned_size(facing, Spot::of(v));
    lemma_speed();
    lemma_sped(u.x, e.x);
    lemma_sped(u.y, e.y);
    lemma_sped(u.z, e.z);
}

proof fn lemma_turned_size(facing: Quat, u: Spot)
    requires
        is_unit(facing),
        reaches(u, 2real),
    ensures
        ({
            let e = Turn::of(facing).turned(u);
            size(e.x) <= 3real && size(e.y) <= 3real && size(e.z) <= 3real
        }),
{
    let t = Turn::of(facing);
    lemma_turn_keeps(t, u, u);
    let n = t.norm() * t.norm();
    lemma_norm_twice(t.norm(), 64real);
    lemma_square(u.x);
    lemma_square(u.y);
    lemma_square(u.z);
    lemma_scale_ordered(u.dot(u), n, 2real);
    lemma_swap(u.dot(u), n);
    lemma_reach_parts(t.turned(u), 3real);
}

proof fn lemma_sped(u: Scalar, x: real)
    requires
        within(u, x, 128real),
        size(x) <= 3real,
    ensures
        within(u.times(max_speed()), x * exact(max_speed()), 1100real),
{
    let k = exact(max_speed());
    lemma_speed();
    lemma_scale_ordered(k, size(x) * grains() + 128real, 50331776real);
    lemma_times_near(u, x, 128real, max_speed(), 25real);
}

/// What a player still lacks of the velocity that is asked for, on the ground.
pub open spec fn lacks(input: Vec2, facing: Quat, velocity: Vec3) -> Spot {
    Spot::of(asked(input, facing)).minus(
        Spot { x: exact(velocity.x), y: 0real, z: exact(velocity.z) },
    )
}

/// A player who can get up to the velocity that is asked for within a frame does so; one
/// who cannot comes nearer to it as fast as the grip allows.
pub proof fn law_movement_makes_up_for_what_is_lacking(
    input: Vec2,
    facing: Quat,
    velocity: Vec3,
    grounded: bool,
    dt: Scalar,
    d: real,
)
    requires
        asked(input, facing).is_finite(),
        velocity.x.is_finite(),
        velocity.z.is_finite(),
        dt.is_finite(),
        exact(dt) * 65536real >= 1real,
        exact(dt) <= 1real,
        d * d == lacks(input, facing, velocity).dot(lacks(input, facing, velocity)),
        d * 268435456real >= 1real,
        d <= 65536real,
    ensures
        ({
            let r = apply_movement(input, facing, velocity, grounded, dt);
            let m = lacks(input, facing, velocity);
            let (a, s) = (exact(grip(grounded)), exact(dt));
            // Within a frame.
            &&& d * (grains() + 100real) < (a * s) * grains() ==> is_at(
                r,
                Spot { x: m.x / s, y: m.y / s, z: m.z / s },
                a * 34real,
            )
            // Not within a frame.
            &&& d * (grains() - 100real) > (a * s) * grains() ==> is_at(
                r,
                Spot { x: m.x / d * a, y: m.y / d * a, z: m.z / d * a },
                a * 34real,
            )
        }),
{
    let (w, flat) = (asked(input, facing), Vec3 { x: velocity.x, y: zero(), z: velocity.z });
    lemma_exact_constants();
    let m = lacks(input, facing, velocity);
    assert(Spot::of(w).minus(Spot::of(flat)) == m);
    lemma_difference_close(w, flat, d);
    lemma_distance_close(w, flat, d);
    lemma_walking_constants();
    lemma_exact_ordered(dt, shortest_step());
    lemma_held_back(w.minus(flat), m, grip(grounded), dt, d);
}

/// Which way over the ground a player goes.
pub open spec fn over_ground(velocity: Vec3) -> Spot {
    Spot { x: exact(velocity.x), y: 0real, z: exact(velocity.z) }
}

/// A player who asks for nothing on the ground is brought to a halt within a frame, or
/// slowed down as fast as can be. One who asks to move, is in the air or hardly moves is
/// not.
pub proof fn law_players_come_to_a_halt(
    grounded: bool,
    held: bool,
    velocity: Vec3,
    dt: Scalar,
    d: real,
)
    requires
        velocity.x.is_finite(),
        velocity.z.is_finite(),
        dt.is_finite(),
        exact(dt) * 65536real >= 1real,
        exact(dt) <= 1real,
        d * d == over_ground(velocity).dot(over_ground(velocity)),
        d * 1048576real >= 1real,
        d <= 65536real,
    ensures
        ({
            let r = apply_ground_brake(grounded, held, velocity, dt);
            let m = over_ground(velocity);
            let (a, s) = (exact(brake_acceleration()), exact(dt));
            let still = exact(slow_enough());
            &&& !grounded || held ==> r is None
            &&& (d * d) * (grains() + 20real) < still * grains() ==> r is None
            &&& grounded && !held && (d * d) * (grains() - 20real) > still * grains() ==> {
                &&& r is Some
                // Within a frame.
                &&& d * (grains() + 100real) < (a * s) * grains() ==> is_at(
                    r->0,
                    Spot { x: -(m.x / s), y: -(m.y / s), z: -(m.z / s) },
                    a * 34real,
                )
                // Not within a frame.
                &&& d * (grains() - 100real) > (a * s) * grains() ==> is_at(
                    r->0,
                    Spot { x: -(m.x / d * a), y: -(m.y / d * a), z: -(m.z / d * a) },
                    a * 34real,
                )
            }
        }),
{
    let g = grains();
    let v = Vec3 { x: velocity.x, y: zero(), z: velocity.z };
    let m = over_ground(velocity);
    lemma_exact_constants();
    assert(Spot::of(v) == m);
    let n = d * d;
    lemma_square(d);
    lemma_squares_ordered(1real, d * 1048576real);
    lemma_regroup(d, 1048576real, d * 1048576real);
    lemma_regroup(d, d, 1048576real);
    lemma_squares_ordered(d, 65536real);
    lemma_length_squared(v, n);
    lemma_root_near(exact(v.length()), d, 11real);
    assert(reaches(m, d));
    lemma_reach_parts(m, d);
    lemma_brake();
    lemma_exact_ordered(v.length_squared(), slow_enough());
    lemma_walking_constants();
    lemma_exact_ordered(dt, shortest_step());
    let k = brake_acceleration();
    lemma_held_back(v, m, k, dt, d);
    let h = no_longer(v, k.times(dt));
    lemma_over_neg(h.x, dt);
    lemma_over_neg(h.y, dt);
    lemma_over_neg(h.z, dt);
    let z = h.shrink(dt);
    let (a, s) = (exact(k), exact(dt));
    if d * (g + 100real) < (a * s) * g || d * (g - 100real) > (a * s) * g {
        lemma_neg_close(z.x);
        lemma_neg_close(z.y);
        lemma_neg_close(z.z);
    }
}

/// How fast players brake, and what hardly moves, roughly.
proof fn lemma_brake()
    ensures
        brake_acceleration().is_finite(),
        32real <= exact(brake_acceleration()) <= 64real,
        slow_enough().is_finite(),
{
    let a = brake_acceleration();
    lemma_exact(a);
    lemma_whole();
    lemma2_to64();
    lemma_units_of_power(132);
    lemma_units_of_power(133);
    lemma_units_increase(132int * 0x80_0000int, a.magnitude() as int);
    lemma_units_increase(a.magnitude() as int, 133int * 0x80_0000int);
    lemma_pow2_adds(149, 5);
    lemma_pow2_adds(149, 6);
}

/// A quotient of the opposite is the opposite.
proof fn lemma_over_neg(a: Scalar, b: Scalar)
    requires
        b.is_finite(),
        exact(b) > 0real,
    ensures
        a.over(b).is_finite() ==> a.neg().over(b) == a.over(b).neg(),
{
    reveal(Scalar::spec_over);
    lemma_exact(b);
    lemma_exact_constants();
    lemma_exact_ordered(zero(), b);
    if a.is_finite() {
        lemma_quotient(a.magnitude() as int, b.magnitude() as int);
    }
}

/// A player who stands jumps up, and goes on over the ground as before. One who does not
/// stand does not jump.
pub proof fn law_players_jump_from_the_ground(grounded: bool, velocity: Vec3)
    ensures
        ({
            let r = apply_jump(grounded, velocity);
            &&& r.x == velocity.x && r.z == velocity.z
            &&& grounded ==> r.y == jump_speed() && 4real <= exact(r.y) <= 8real
            &&& !grounded ==> r.y == velocity.y
        }),
{
    let a = jump_speed();
    lemma_exact(a);
    lemma_whole();
    lemma2_to64();
    lemma_units_of_power(129);
    lemma_units_of_power(130);
    lemma_units_increase(129int * 0x80_0000int, a.magnitude() as int);
    lemma_units_increase(a.magnitude() as int, 130int * 0x80_0000int);
    lemma_pow2_adds(149, 2);
    lemma_pow2_adds(149, 3);
}

} // verus!

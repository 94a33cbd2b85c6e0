//! How players walk: where they want to go, and what gets them there.
//!
//! How far a result is off is counted in grains.

use crate::closeness::{
    exact, grains, lemma_exact, lemma_exact_constants, lemma_exact_ordered, lemma_neg_close,
    lemma_quotient_back, lemma_size_of_product, lemma_times_close, lemma_twice, lemma_whole, size,
    within,
};
use crate::measuring::{
    lemma_difference_close, lemma_distance_close, lemma_normalized, lemma_over_near,
    lemma_times_near,
};
use crate::net::server_players::{
    air_acceleration, ground_acceleration, jump_impulse, jump_push, max_speed, no_longer,
    player_mass, shortest_step, walking_force, wanted_velocity, PlayerInputState,
};
use crate::rounding::lemma_units_increase;
use crate::scalar::{lemma_times_nothing, lemma_times_one, lemma_units_of_power, one, zero, Scalar};
use crate::spells::aiming::is_at;
use crate::spells::carrying::{
    crosswise, lemma_axes, lemma_length_near, lemma_part_out, outwards, part, sideways,
};
use crate::turning::{
    close, is_unit, lemma_cancel, lemma_close_parts, lemma_close_wider, lemma_dot_scale,
    lemma_dot_swap, lemma_nothing, lemma_opposite, lemma_own_close, lemma_parts_close,
    lemma_reach_parts, lemma_regroup, lemma_rotate_close, lemma_scale_ordered, lemma_spread,
    lemma_spread_minus, lemma_square, lemma_squares_ordered, lemma_swap, lemma_turn_keeps,
    lemma_turn_scale, lemma_unit_parts, reaches, Spot, Turn,
};
use crate::vector::{two, Quat, Vec3};
use vstd::arithmetic::power2::{lemma2_to64, lemma_pow2_adds};
use vstd::prelude::*;

verus! {

/// Where a player wants to go who has not turned: to the side, and ahead against the
/// third axis.
pub open spec fn walks(input: PlayerInputState) -> Spot {
    Spot { x: exact(input.movement.x), y: 0real, z: -exact(input.movement.y) }
}

/// How fast players walk is between four and eight.
pub proof fn lemma_speed()
    ensures
        max_speed().is_finite(),
        4real <= exact(max_speed()) <= 8real,
{
    let a = max_speed();
    lemma_exact(a);
    lemma_whole();
    lemma_units_of_power(129);
    lemma_units_of_power(130);
    lemma_units_increase(129int * 0x80_0000int, a.magnitude() as int);
    lemma_units_increase(a.magnitude() as int, 130int * 0x80_0000int);
    lemma_pow2_adds(149, 2);
    lemma_pow2_adds(149, 3);
    lemma2_to64();
}

/// A player wants to go where the movement says, as the player is turned, at full
/// speed: sideways by its first part, ahead by its second, and neither up nor down.
pub proof fn law_players_walk_where_they_face(input: PlayerInputState, facing: Quat, d: real)
    requires
        is_unit(facing),
        input.movement.x.is_finite(),
        input.movement.y.is_finite(),
        d * d == walks(input).dot(walks(input)),
        d * 524288real >= 1real,
        d <= 524288real,
    ensures
        ({
            let r = wanted_velocity(input, facing);
            let w = Spot::of(r);
            let speed = exact(max_speed());
            let (x, y) = (exact(input.movement.x), exact(input.movement.y));
            &&& r.is_finite()
            &&& size(part(w, facing, sideways()) - x * (speed / d)) * grains() <= 23000real
            &&& size(part(w, facing, outwards())) * grains() <= 23000real
            &&& size(part(w, facing, crosswise()) + y * (speed / d)) * grains() <= 23000real
        }),
{
    let g = grains();
    let v = Vec3 { x: input.movement.x, y: zero(), z: input.movement.y.neg() };
    let m = walks(input);
    lemma_exact_constants();
    lemma_neg_close(input.movement.y);
    assert(Spot::of(v) == m);
    let t = Turn::of(facing);
    let s = d / 65real;
    lemma_quotient_back(d, 65real);
    lemma_rotate_close(facing, v, s);
    let c = facing.rotate(v);
    let (e, f) = (Spot::of(c), t.turned(m));
    lemma_close_wider(e, f, s * 4146real, d * 64real);
    // How long it is.
    let n = d * d;
    lemma_turn_keeps(t, m, m);
    let k = t.norm() * t.norm();
    lemma_norm(t.norm());
    lemma_square(d);
    lemma_size_of_product((k - 1real) * g, n, 130real, n);
    lemma_regroup(k - 1real, g, n);
    lemma_spread_minus(k, 1real, n);
    let l = d * (101real / 100real);
    assert(l * l * 10000real == n * 10201real) by {
        assert(l * 100real == d * 101real);
        let (a, b) = (l * 100real, d * 101real);
        lemma_regroup(l, 100real, a);
        lemma_regroup(l, l, 100real);
        lemma_regroup(d, 101real, b);
        lemma_regroup(d, d, 101real);
        assert(a * a == ((l * l) * 100real) * 100real);
        assert(b * b == (n * 101real) * 101real);
    }
    lemma_length_near(e, f, d * 64real, l);
    assert((d * 64real) * l * 100real == n * 6464real) by {
        lemma_regroup(d, 64real, l);
        lemma_swap(d, l);
        lemma_regroup(d, d, 101real / 100real);
        assert(d * l * 100real == n * 101real) by {
            lemma_regroup(d, l, 100real);
            assert(l * 100real == d * 101real);
            lemma_regroup(d, d, 101real);
        }
    }
    assert(size(e.dot(e) - n) * g <= n * 330real);
    lemma_normalized(c, d, 330real);
    let u = c.normalize_or_zero();
    // At full speed.
    let speed = exact(max_speed());
    lemma_speed();
    let q = speed / d;
    lemma_quotient_back(speed, d);
    let mid = m.scale(q);
    lemma_turn_scale(t, m, q);
    assert(t.turned(mid) == f.scale(q));
    lemma_close_parts(e, f, d * 64real);
    lemma_reach_of(f, k, n, l);
    lemma_wanted_part(u.x, e.x, f.x, d, q, l);
    lemma_wanted_part(u.y, e.y, f.y, d, q, l);
    lemma_wanted_part(u.z, e.z, f.z, d, q, l);
    let w = Spot::of(wanted_velocity(input, facing));
    lemma_parts_close(w, t.turned(mid), 6000real, 10500real);
    assert(reaches(mid, 8real)) by {
        lemma_scaled_dot(m, q);
        assert(mid.dot(mid) == (q * q) * n);
        assert((q * q) * n == speed * speed) by {
            lemma_regroup(q, d, speed);
            lemma_swap(q, d);
            lemma_regroup(q, q, n);
            lemma_regroup(d, d, q);
            lemma_regroup(q, d, d);
            lemma_swap(q, n);
            lemma_swap(q, speed);
        }
        lemma_squares_ordered(speed, 8real);
    }
    lemma_axes(mid);
    lemma_part_out(w, mid, facing, sideways(), 10500real, 8real);
    lemma_part_out(w, mid, facing, outwards(), 10500real, 8real);
    lemma_part_out(w, mid, facing, crosswise(), 10500real, 8real);
    lemma_nothing(0real, q);
    lemma_opposite(q, exact(input.movement.y));
    lemma_swap(q, exact(input.movement.y));
    lemma_swap(q, -exact(input.movement.y));
}

/// Whether a vector has no extent.
pub open spec fn is_nothing(v: Vec3) -> bool {
    v.x.magnitude() == 0 && v.y.magnitude() == 0 && v.z.magnitude() == 0
}

/// A player who does not ask to move wants to stand.
pub proof fn law_players_who_ask_for_nothing_stand(input: PlayerInputState, facing: Quat)
    requires
        is_unit(facing),
        exact(input.movement.x) == 0real,
        exact(input.movement.y) == 0real,
        input.movement.x.is_finite(),
        input.movement.y.is_finite(),
    ensures
        is_nothing(wanted_velocity(input, facing)),
{
    let v = Vec3 { x: input.movement.x, y: zero(), z: input.movement.y.neg() };
    lemma_exact_constants();
    lemma_exact_ordered(input.movement.x, zero());
    lemma_exact_ordered(input.movement.y, zero());
    lemma_neg_close(input.movement.y);
    lemma_exact_ordered(v.z, zero());
    lemma_nothing_turned(facing, v);
    let u = facing.rotate(v);
    lemma_nothing_long(u);
    lemma_speed();
    lemma_times_nothing(max_speed(), zero());
}

proof fn lemma_no_sum(a: Scalar, b: Scalar)
    requires
        a.magnitude() == 0,
        b.magnitude() == 0,
    ensures
        a.plus(b).magnitude() == 0,
        a.minus(b).magnitude() == 0,
{
    reveal(Scalar::spec_plus);
    lemma_units_increase(0, 0);
}

/// What has no extent has no direction.
proof fn lemma_nothing_long(u: Vec3)
    requires
        is_nothing(u),
    ensures
        u.normalize_or_zero() == Vec3::origin(),
{
    lemma_times_nothing(u.x, u.x);
    lemma_times_nothing(u.y, u.y);
    lemma_times_nothing(u.z, u.z);
    let (a, b, c) = (u.x.times(u.x), u.y.times(u.y), u.z.times(u.z));
    lemma_no_sum(a, b);
    lemma_no_sum(a.plus(b), c);
    reveal(Scalar::spec_sqrt);
    reveal(Scalar::spec_over);
}

/// What has no extent has none however it is turned.
proof fn lemma_nothing_turned(q: Quat, v: Vec3)
    requires
        is_unit(q),
        is_nothing(v),
    ensures
        is_nothing(q.rotate(v)),
{
    let n = q.axis();
    lemma_own_close(q);
    let k = q.w.times(q.w).minus(n.dot(n));
    lemma_times_nothing(k, v.x);
    lemma_times_nothing(k, v.y);
    lemma_times_nothing(k, v.z);
    lemma_times_nothing(n.x, v.x);
    lemma_times_nothing(n.y, v.y);
    lemma_times_nothing(n.z, v.z);
    lemma_times_nothing(n.y, v.z);
    lemma_times_nothing(n.z, v.y);
    lemma_times_nothing(n.z, v.x);
    lemma_times_nothing(n.x, v.z);
    lemma_times_nothing(n.x, v.y);
    lemma_times_nothing(n.y, v.x);
    let (a, b, c) = (v.x.times(n.x), v.y.times(n.y), v.z.times(n.z));
    lemma_no_sum(a, b);
    lemma_no_sum(a.plus(b), c);
    let d = v.dot(n);
    lemma_times_nothing(two(), d);
    let e = d.times(two());
    lemma_times_nothing(n.x, e);
    lemma_times_nothing(n.y, e);
    lemma_times_nothing(n.z, e);
    let o = n.cross(v);
    lemma_no_sum(n.y.times(v.z), v.y.times(n.z));
    lemma_no_sum(n.z.times(v.x), v.z.times(n.x));
    lemma_no_sum(n.x.times(v.y), v.x.times(n.y));
    lemma_unit_parts(q);
    lemma_twice(q.w, two());
    let m = q.w.times(two());
    lemma_times_nothing(m, o.x);
    lemma_times_nothing(m, o.y);
    lemma_times_nothing(m, o.z);
    let (f, h, i) = (v.scale(k), n.scale(e), o.scale(m));
    lemma_no_sum(f.x, h.x);
    lemma_no_sum(f.y, h.y);
    lemma_no_sum(f.z, h.z);
    lemma_no_sum(f.x.plus(h.x), i.x);
    lemma_no_sum(f.y.plus(h.y), i.y);
    lemma_no_sum(f.z.plus(h.z), i.z);
}

/// A scaled vector is longer by as much, squared.
proof fn lemma_scaled_dot(m: Spot, q: real)
    ensures
        m.scale(q).dot(m.scale(q)) == (q * q) * m.dot(m),
{
    let a = m.scale(q);
    lemma_dot_scale(m, q, a);
    lemma_dot_swap(m, a);
    lemma_dot_scale(m, q, m);
    lemma_regroup(q, q, m.dot(m));
}

proof fn lemma_norm(n: real)
    requires
        size(n - 1real) * grains() <= 64real,
    ensures
        size(n * n - 1real) * grains() <= 130real,
{
    let g = grains();
    let a = n - 1real;
    lemma_spread(1real, a, n);
    lemma_spread(1real, a, a);
    lemma_size_of_product(a * g, a * g, 64real, 64real);
    lemma_regroup(a, g, a * g);
    lemma_regroup(a, a, g);
    assert((a * g) * (a * g) == ((a * a) * g) * g);
}

/// The coordinates of what a rotation made of something `d` long.
proof fn lemma_reach_of(f: Spot, k: real, n: real, l: real)
    requires
        f.dot(f) == k * n,
        size(k - 1real) * grains() <= 130real,
        n >= 0real,
        l >= 0real,
        l * l * 10000real == n * 10201real,
    ensures
        size(f.x) <= l,
        size(f.y) <= l,
        size(f.z) <= l,
        reaches(f, l),
{
    lemma_scale_ordered(n, k, 10201real / 10000real);
    lemma_swap(n, k);
    assert(n * (10201real / 10000real) == l * l) by {
        lemma_regroup(n, 10201real / 10000real, 10000real);
    }
    lemma_reach_parts(f, l);
}

/// One coordinate of the velocity that a player wants.
proof fn lemma_wanted_part(u: Scalar, e: real, f: real, d: real, q: real, l: real)
    requires
        d > 0real,
        within(u, e / d, 680real),
        size(e - f) * grains() <= d * 64real,
        q * d == exact(max_speed()),
        l == d * (101real / 100real),
        size(f) <= l,
    ensures
        within(u.times(max_speed()), f * q, 6000real),
{
    let g = grains();
    let speed = exact(max_speed());
    lemma_speed();
    let (a, b) = (e / d, f / d);
    lemma_quotient_back(e, d);
    lemma_quotient_back(f, d);
    lemma_swap(a, d);
    lemma_swap(b, d);
    lemma_spread_minus(a, b, d);
    lemma_spread_minus(b, a, d);
    let w = size(a - b);
    assert(d * w == size(e - f)) by {
        lemma_scale_ordered(d, 0real, w);
    }
    lemma_regroup(d, w, g);
    lemma_cancel(d, w * g, 64real);
    assert(within(u, b, 744real));
    lemma_cancel(d, b, 101real / 100real);
    lemma_opposite(d, b);
    lemma_cancel(d, -b, 101real / 100real);
    lemma_scale_ordered(speed, size(b) * g + 744real, 2real * g);
    lemma_swap(speed, size(b) * g + 744real);
    lemma_times_near(u, b, 744real, max_speed(), 16real);
    assert(b * speed == f * q) by {
        lemma_regroup(b, q, d);
        lemma_regroup(b, d, q);
    }
}

/// How fast a player gets up to speed, the mass and the shortest step, roughly.
pub proof fn lemma_walking_constants()
    ensures
        ground_acceleration().is_finite(),
        32real <= exact(ground_acceleration()) <= 64real,
        air_acceleration().is_finite(),
        8real <= exact(air_acceleration()) <= 16real,
        player_mass().is_finite(),
        64real <= exact(player_mass()) <= 128real,
        shortest_step().is_finite(),
        exact(shortest_step()) * 65536real <= 1real,
{
    let (a, b, c, d) = (
        ground_acceleration(),
        air_acceleration(),
        player_mass(),
        shortest_step(),
    );
    lemma_exact(a);
    lemma_exact(b);
    lemma_exact(c);
    lemma_exact(d);
    lemma_whole();
    lemma2_to64();
    lemma_units_of_power(132);
    lemma_units_of_power(133);
    lemma_units_increase(132int * 0x80_0000int, a.magnitude() as int);
    lemma_units_increase(a.magnitude() as int, 133int * 0x80_0000int);
    lemma_pow2_adds(149, 5);
    lemma_pow2_adds(149, 6);
    lemma_units_of_power(130);
    lemma_units_of_power(131);
    lemma_units_increase(130int * 0x80_0000int, b.magnitude() as int);
    lemma_units_increase(b.magnitude() as int, 131int * 0x80_0000int);
    lemma_pow2_adds(149, 3);
    lemma_pow2_adds(149, 4);
    lemma_units_of_power(134);
    lemma_units_increase(133int * 0x80_0000int, c.magnitude() as int);
    lemma_units_increase(c.magnitude() as int, 134int * 0x80_0000int);
    lemma_pow2_adds(149, 7);
    lemma_units_of_power(111);
    lemma_units_increase(d.magnitude() as int, 111int * 0x80_0000int);
    lemma_pow2_adds(133, 16);
}

/// How much a player's speed can change in a second: more on the ground than in the air.
pub open spec fn grip(grounded: bool) -> Scalar {
    if grounded {
        ground_acceleration()
    } else {
        air_acceleration()
    }
}

/// What a player still lacks of the velocity that the player wants, on the ground.
pub open spec fn lacks(input: PlayerInputState, facing: Quat, velocity: Vec3) -> Spot {
    Spot::of(wanted_velocity(input, facing)).minus(
        Spot { x: exact(velocity.x), y: 0real, z: exact(velocity.z) },
    )
}

/// A player who can get up to the wanted velocity within a step is pushed by just what
/// that takes; one who cannot is pushed the same way, as hard as the grip allows.
pub proof fn law_force_makes_up_for_what_a_player_lacks(
    input: PlayerInputState,
    facing: Quat,
    velocity: Vec3,
    grounded: bool,
    dt: Scalar,
    d: real,
)
    requires
        wanted_velocity(input, facing).is_finite(),
        velocity.x.is_finite(),
        velocity.z.is_finite(),
        dt.is_finite(),
        exact(dt) * 65536real >= 1real,
        exact(dt) <= 1real,
        d * d == lacks(input, facing, velocity).dot(lacks(input, facing, velocity)),
        d * 268435456real >= 1real,
        d <= 65536real,
    ensures
        ({
            let r = walking_force(input, facing, velocity, grounded, dt);
            let m = lacks(input, facing, velocity);
            let (a, s, mass) = (exact(grip(grounded)), exact(dt), exact(player_mass()));
            let off = a * mass * 100real;
            // Within a step.
            &&& d * (grains() + 100real) < (a * s) * grains() ==> within(
                r.x,
                m.x / s * mass,
                off,
            ) && within(r.y, m.y / s * mass, off) && within(r.z, m.z / s * mass, off)
            // Not within a step.
            &&& d * (grains() - 100real) > (a * s) * grains() ==> within(
                r.x,
                m.x / d * a * mass,
                off,
            ) && within(r.y, m.y / d * a * mass, off) && within(r.z, m.z / d * a * mass, off)
        }),
{
    let g = grains();
    let (w, flat) = (
        wanted_velocity(input, facing),
        Vec3 { x: velocity.x, y: zero(), z: velocity.z },
    );
    lemma_exact_constants();
    let m = lacks(input, facing, velocity);
    assert(Spot::of(w).minus(Spot::of(flat)) == m);
    lemma_difference_close(w, flat, d);
    lemma_distance_close(w, flat, d);
    let v = w.minus(flat);
    lemma_walking_constants();
    lemma_exact_ordered(dt, shortest_step());
    assert(dt.max(shortest_step()) == dt);
    let most = grip(grounded);
    let (a, s) = (exact(most), exact(dt));
    lemma_held_back(v, m, most, dt, d);
    let z = no_longer(v, most.times(dt)).shrink(dt);
    if d * (g + 100real) < (a * s) * g {
        lemma_with_mass(z.x, m.x / s, a);
        lemma_with_mass(z.y, m.y / s, a);
        lemma_with_mass(z.z, m.z / s, a);
    }
    if d * (g - 100real) > (a * s) * g {
        lemma_with_mass(z.x, m.x / d * a, a);
        lemma_with_mass(z.y, m.y / d * a, a);
        lemma_with_mass(z.z, m.z / d * a, a);
    }
}

/// Whether a vector that came out is `d` long, and as exact numbers have it, but for
/// rounding.
pub open spec fn is_about(v: Vec3, m: Spot, d: real) -> bool {
    &&& within(v.x, m.x, d * 2real)
    &&& within(v.y, m.y, d * 2real)
    &&& within(v.z, m.z, d * 2real)
    &&& size(m.x) <= d
    &&& size(m.y) <= d
    &&& size(m.z) <= d
    &&& d * 268435456real >= 1real
    &&& d <= 65536real
    &&& v.length_squared().is_finite()
    &&& size(exact(v.length_squared()) - d * d) * grains() <= (d * d) * 18real
    &&& v.length().is_finite()
    &&& size(exact(v.length()) - d) * grains() <= d * 21real
}

/// How fast a velocity changes by `m` within a step, where it can change by no more than
/// `most` in a second.
pub proof fn lemma_held_back(v: Vec3, m: Spot, most: Scalar, dt: Scalar, d: real)
    requires
        is_about(v, m, d),
        most.is_finite(),
        8real <= exact(most) <= 64real,
        dt.is_finite(),
        exact(dt) * 65536real >= 1real,
        exact(dt) <= 1real,
    ensures
        ({
            let r = no_longer(v, most.times(dt)).shrink(dt);
            let (a, s) = (exact(most), exact(dt));
            &&& d * (grains() + 100real) < (a * s) * grains() ==> {
                &&& is_at(r, Spot { x: m.x / s, y: m.y / s, z: m.z / s }, a * 34real)
                &&& size(m.x / s) <= a
                &&& size(m.y / s) <= a
                &&& size(m.z / s) <= a
            }
            &&& d * (grains() - 100real) > (a * s) * grains() ==> {
                &&& is_at(
                    r,
                    Spot { x: m.x / d * a, y: m.y / d * a, z: m.z / d * a },
                    a * 34real,
                )
                &&& size(m.x / d * a) <= a
                &&& size(m.y / d * a) <= a
                &&& size(m.z / d * a) <= a
            }
        }),
{
    let g = grains();
    let (a, s) = (exact(most), exact(dt));
    // How much the velocity can change in a step.
    let p = a * s;
    assert(p * 65536real >= 8real && p <= 64real) by {
        lemma_scale_ordered(s, 8real, a);
        lemma_scale_ordered(s, a, 64real);
        lemma_swap(s, a);
    }
    lemma_times_close(most, dt, p);
    let longest = most.times(dt);
    let q = exact(longest);
    lemma_over_squares(p, q);
    lemma_times_close(longest, longest, (p * p) * 2real);
    let (n, squared, cap) = (d * d, v.length_squared(), longest.times(longest));
    lemma_square(d);
    lemma_square(p);
    lemma_exact_ordered(cap, squared);
    if d * (g + 100real) < p * g {
        assert(n * g <= (p * p) * (g - 190real)) by {
            lemma_apart_squares(d, p);
        }
        assert(exact(squared) <= exact(cap));
        lemma_within_rate(v.x, m.x, dt, most, d, p);
        lemma_within_rate(v.y, m.y, dt, most, d, p);
        lemma_within_rate(v.z, m.z, dt, most, d, p);
    }
    if d * (g - 100real) > p * g {
        assert(n * (g - 190real) >= (p * p) * g) by {
            lemma_apart_squares(p, d);
        }
        assert(exact(squared) > exact(cap));
        lemma_beyond_rate(v.x, m.x, v.length(), longest, dt, most, d);
        lemma_beyond_rate(v.y, m.y, v.length(), longest, dt, most, d);
        lemma_beyond_rate(v.z, m.z, v.length(), longest, dt, most, d);
    }
}

/// The square of what is close to something.
proof fn lemma_over_squares(p: real, q: real)
    requires
        p * 65536real >= 8real,
        p <= 64real,
        size(q - p) * grains() <= p,
    ensures
        size(q * q - p * p) * grains() <= (p * p) * 3real,
        (p * p) * 4294967296real >= 64real,
        p * p <= 4096real,
        q > 0real,
{
    let g = grains();
    let e = q - p;
    lemma_spread(p, e, q);
    lemma_spread(p, e, p);
    lemma_spread(p, e, e);
    lemma_size_of_product(p, e * g, p, p);
    lemma_regroup(p, e, g);
    lemma_swap(p, e);
    lemma_size_of_product(e, e * g, p, p);
    lemma_regroup(e, e, g);
    lemma_size_of_product(e * g, e * g, p, p);
    lemma_regroup(e, g, e * g);
    assert((e * g) * (e * g) == ((e * e) * g) * g);
    lemma_squares_ordered(8real, p * 65536real);
    lemma_regroup(p, 65536real, p * 65536real);
    lemma_regroup(p, p, 65536real);
    lemma_squares_ordered(p, 64real);
}

/// The squares of what is apart are apart.
proof fn lemma_apart_squares(d: real, p: real)
    requires
        d >= 0real,
        p > 0real,
        d * (grains() + 100real) <= p * grains() || d * grains() <= p * (grains() - 100real),
    ensures
        (d * d) * grains() <= (p * p) * (grains() - 190real),
{
    assert(d * 16777316real <= p * 16777216real || d * 16777216real <= p * 16777116real);
    assert(d * 16777216real <= p * 16777117real);
    let (x, y) = (d * 16777216real, p * 16777117real);
    lemma_scale_ordered(d, x, y);
    lemma_scale_ordered(p, x, y);
    let (dd, dp, pp) = (d * d, d * p, p * p);
    lemma_regroup(d, d, 16777216real);
    lemma_regroup(p, d, 16777216real);
    lemma_regroup(p, p, 16777117real);
    lemma_regroup(d, p, 16777117real);
    lemma_swap(d, p);
    assert(dd * 16777216real <= dp * 16777117real);
    assert(dp * 16777216real <= pp * 16777117real);
    lemma_square(p);
    assert(dd * 16777216real <= pp * 16777026real);
}

/// How fast one changes that gets up to speed within a step.
proof fn lemma_within_rate(v: Scalar, x: real, dt: Scalar, most: Scalar, d: real, p: real)
    requires
        within(v, x, d * 2real),
        size(x) <= d,
        d > 0real,
        d <= p,
        dt.is_finite(),
        exact(dt) * 65536real >= 1real,
        exact(dt) <= 1real,
        most.is_finite(),
        8real <= exact(most) <= 64real,
        p == exact(most) * exact(dt),
    ensures
        within(v.over(dt), x / exact(dt), exact(most) * 34real),
        size(x / exact(dt)) <= exact(most),
{
    let g = grains();
    let (a, s) = (exact(most), exact(dt));
    let bound = a * 2real;
    assert(bound * s == p * 2real) by {
        lemma_regroup(a, 2real, s);
    }
    lemma_over_near(v, x, d * 2real, dt, bound);
    let y = x / s;
    lemma_quotient_back(x, s);
    let e = (d * 2real) / s;
    lemma_quotient_back(d * 2real, s);
    assert(0real <= e <= a * 2real) by {
        lemma_swap(e, s);
        lemma_swap(a * 2real, s);
        lemma_cancel(s, e, a * 2real);
        lemma_cancel(s, 0real, e);
    }
    assert(size(y) <= a) by {
        lemma_swap(y, s);
        lemma_swap(a, s);
        lemma_cancel(s, y, a);
        lemma_opposite(s, y);
        lemma_cancel(s, -y, a);
    }
}

/// What is held back, as heavy as the player is.
proof fn lemma_with_mass(z: Scalar, b: real, a: real)
    requires
        within(z, b, a * 34real),
        size(b) <= a,
        8real <= a <= 64real,
    ensures
        within(
            z.times(player_mass()),
            b * exact(player_mass()),
            a * exact(player_mass()) * 100real,
        ),
{
    let g = grains();
    let mass = exact(player_mass());
    lemma_walking_constants();
    let top = (a * 2real) * mass;
    assert((size(b) * g + a * 34real) * mass <= top * g) by {
        lemma_scale_ordered(mass, size(b) * g + a * 34real, a * 2real * g);
        lemma_swap(mass, size(b) * g + a * 34real);
        lemma_regroup(a * 2real, g, mass);
        lemma_swap(mass, a * 2real * g);
    }
    lemma_scale_ordered(mass, 16real, a * 2real);
    lemma_scale_ordered(mass, a * 2real, 128real);
    lemma_swap(mass, a * 2real);
    lemma_times_near(z, b, a * 34real, player_mass(), top);
    let o = a * mass;
    lemma_regroup(a, 2real, mass);
    lemma_regroup(a, 34real, mass);
    lemma_scale_ordered(mass, 8real, a);
    lemma_swap(mass, a);
    lemma_wider(z.times(player_mass()), b * mass, (a * 34real) * mass + top, o * 100real);
}

proof fn lemma_wider(a: Scalar, x: real, e: real, f: real)
    requires
        within(a, x, e),
        e <= f,
    ensures
        within(a, x, f),
{
}

/// How fast one changes that changes as fast as can be.
proof fn lemma_beyond_rate(
    v: Scalar,
    x: real,
    r: Scalar,
    longest: Scalar,
    dt: Scalar,
    most: Scalar,
    d: real,
)
    requires
        within(v, x, d * 2real),
        size(x) <= d,
        d > 0real,
        r.is_finite(),
        size(exact(r) - d) * grains() <= d * 21real,
        dt.is_finite(),
        exact(dt) * 65536real >= 1real,
        exact(dt) <= 1real,
        most.is_finite(),
        8real <= exact(most) <= 64real,
        longest.is_finite(),
        size(exact(longest) - exact(most) * exact(dt)) * grains() <= exact(most) * exact(dt),
    ensures
        within(v.over(r).times(longest).over(dt), x / d * exact(most), exact(most) * 34real),
        size(x / d * exact(most)) <= exact(most),
{
    let g = grains();
    let (a, s, c) = (exact(most), exact(dt), exact(longest));
    let y = exact(r);
    let p = a * s;
    assert(p * 65536real >= 8real && p <= 64real) by {
        lemma_scale_ordered(s, 8real, a);
        lemma_scale_ordered(s, a, 64real);
        lemma_swap(s, a);
    }
    assert(y * 1000real >= d * 999real && y * 1000real <= d * 1001real);
    // Along what is lacking.
    assert(size(x) * g + d * 2real <= (2real * y) * g);
    lemma_over_near(v, x, d * 2real, r, 2real);
    let (q, t, f) = (x / y, x / d, (d * 2real) / y);
    lemma_quotient_back(x, y);
    lemma_quotient_back(x, d);
    lemma_quotient_back(d * 2real, y);
    lemma_swap(f, y);
    lemma_cancel(y, f, 3real);
    lemma_cancel(y, 0real, f);
    lemma_swap(t, d);
    lemma_cancel(d, t, 1real);
    lemma_opposite(d, t);
    lemma_cancel(d, -t, 1real);
    assert(size(q - t) * g <= 22real) by {
        // The two differ by what the lengths do.
        lemma_spread_minus(q, t, y);
        lemma_spread_minus(y, d, t);
        lemma_swap(q, y);
        lemma_swap(t, y);
        assert(y * (q - t) == t * (d - y)) by {
            lemma_spread_minus(d, y, t);
            lemma_swap(t, d);
        }
        lemma_size_of_product(t, (d - y) * g, 1real, d * 21real);
        lemma_regroup(t, d - y, g);
        let k = size(q - t);
        assert(y * k <= size(t * (d - y))) by {
            lemma_opposite(y, q - t);
            lemma_spread_minus(t, q, y);
        }
        lemma_regroup(y, k, g);
        assert(y * (k * g) <= y * 22real);
        lemma_cancel(y, k * g, 22real);
    }
    let u = v.over(r);
    assert(within(u, t, 28real));
    // As much as can be.
    lemma_scale_ordered(c, size(t) * g + 28real, 2real * g);
    lemma_swap(c, size(t) * g + 28real);
    lemma_swap(c, 2real * g);
    lemma_times_near(u, t, 28real, longest, c * 2real);
    let w = u.times(longest);
    assert(within(w, t * c, c * 30real));
    // In a second.
    lemma_size_of_product(t, c, 1real, c);
    assert(size(t * c) * g + c * 30real <= ((a * 2real) * s) * g) by {
        lemma_regroup(a, 2real, s);
    }
    lemma_over_near(w, t * c, c * 30real, dt, a * 2real);
    let (h, e) = ((t * c) / s, (c * 30real) / s);
    lemma_quotient_back(t * c, s);
    lemma_quotient_back(c * 30real, s);
    assert(0real <= e <= a * 31real) by {
        lemma_swap(e, s);
        lemma_swap(a * 31real, s);
        lemma_regroup(a, 31real, s);
        lemma_cancel(s, e, a * 31real);
        lemma_cancel(s, 0real, e);
    }
    assert(size(h - t * a) * g <= a) by {
        let b = t * a;
        lemma_regroup(t, a, s);
        lemma_spread_minus(h, b, s);
        lemma_spread_minus(c, p, t);
        assert(s * (h - b) == t * (c - p)) by {
            lemma_swap(h, s);
            lemma_swap(b, s);
        }
        lemma_size_of_product(t, (c - p) * g, 1real, p);
        lemma_regroup(t, c - p, g);
        let k = size(h - b);
        assert(s * k <= size(t * (c - p))) by {
            lemma_opposite(s, h - b);
            lemma_spread_minus(b, h, s);
        }
        lemma_regroup(s, k, g);
        lemma_swap(a, s);
        lemma_cancel(s, k * g, a);
    }
    let z = w.over(dt);
    let b = t * a;
    assert(within(z, b, a * 34real));
    lemma_size_of_product(t, a, 1real, a);
}

/// A player jumps when the player has just begun to want to and stands: straight up.
pub proof fn law_players_jump_off_the_ground(jump: bool, before: bool, grounded: bool)
    ensures
        ({
            let r = jump_impulse(jump, before, grounded);
            &&& r is Some <==> jump && !before && grounded
            &&& r is Some ==> exact(r->0.x) == 0real && exact(r->0.z) == 0real && exact(r->0.y)
                == exact(jump_push()) && exact(jump_push()) > 0real
        }),
{
    lemma_exact_constants();
    let a = jump_push();
    lemma_exact(a);
    lemma_units_increase(0, a.magnitude() as int);
    lemma_exact_ordered(zero(), a);
    lemma_whole();
    lemma_times_nothing(a, zero());
    lemma_times_one(a, one());
    lemma_exact(zero().times(a));
    lemma_exact(one().times(a));
    lemma_exact_ordered(zero().times(a), zero());
}

} // verus!

//! What goes through a portal and what misses it.
//!
//! How far a result is off is counted in grains.

use crate::closeness::{
    exact, grains, lemma_clamp_close, lemma_exact, lemma_exact_constants, lemma_exact_ordered,
    lemma_minus_close, lemma_minus_within, lemma_plus_within, lemma_quotient_back,
    lemma_size_of_product, lemma_times_close, lemma_whole, limit, size, within,
};
use crate::frames::{is_little, lemma_axis_parts};
use crate::measuring::{lemma_length_squared, lemma_length_tiny};
use crate::rounding::lemma_units_increase;
use crate::scalar::{lemma_quotient, lemma_units_of_power, one, zero, Scalar};
use crate::spells::carrying::{
    crosswise, is_off_by, law_along_is_how_far_in_front, law_face_is_the_second_axis,
    lemma_along_term, lemma_axes, lemma_both_ways, lemma_norm_twice, lemma_part_in, outwards, part,
    sideways,
};
use crate::spells::portal::{
    along, crossing_time, face, passes, passes_fixed, portal_radius, radial, tiny,
};
use crate::turning::{
    close, is_small, is_unit, lemma_close_wider, lemma_dot_minus, lemma_dot_plus, lemma_dot_scale,
    lemma_dot_swap, lemma_in_common, lemma_nothing, lemma_opposite, lemma_parts_close,
    lemma_reach_close, lemma_reach_near, lemma_reach_parts, lemma_regroup, lemma_scale_ordered,
    lemma_spread, lemma_spread_minus, lemma_square, lemma_squares_ordered, lemma_swap,
    lemma_turn_back, lemma_turn_keeps, lemma_turn_minus, lemma_turn_moves_over, lemma_turn_scale,
    lemma_unit_product, lemma_way_round, origin, reaches, Spot, Turn,
};
use crate::vector::{Pose, Quat, Vec3};
use vstd::arithmetic::power2::{lemma2_to64, lemma_pow2_adds};
use vstd::prelude::*;

verus! {

/// A length is not more than what it reaches.
proof fn lemma_length_upper(v: Vec3, m: real)
    requires
        v.is_finite(),
        reaches(Spot::of(v), m),
        m * 1048576real >= 1real,
        m <= 4194304real,
    ensures
        v.length().is_finite(),
        exact(v.length()) * grains() <= m * grains() + m * 12real + 1real,
{
    let g = grains();
    let u = Spot::of(v);
    let n = u.dot(u);
    lemma_square(u.x);
    lemma_square(u.y);
    lemma_square(u.z);
    lemma_squares_ordered(m, 4194304real);
    if n * limit() >= 1real {
        lemma_length_squared(v, n);
        let r = exact(v.length());
        let e = m * 12real / g;
        lemma_quotient_back(m * 12real, g);
        let t = m + e;
        assert(r * r <= t * t) by {
            lemma_spread(m, e, t);
            lemma_spread(m, e, m);
            lemma_spread(m, e, e);
            lemma_square(e);
            lemma_swap(m, e);
            let k = m * e;
            assert(k * g == (m * m) * 12real) by {
                lemma_regroup(m, e, g);
                lemma_regroup(m, m, 12real);
            }
            assert(t * t >= m * m + k);
            assert((r * r) * g <= n * g + n * 11real);
        }
        lemma_squares_ordered(r, t);
    } else {
        let o = 1real / 134217728real;
        lemma_quotient_back(1real, 134217728real);
        assert(o * o * limit() >= 1real) by {
            lemma_regroup(o, o, 134217728real);
            lemma_regroup(o, o * 134217728real, 134217728real);
            assert((o * o) * 18014398509481984real == 1real) by {
                let p = o * 134217728real;
                lemma_regroup(o, 134217728real, p);
                lemma_regroup(134217728real, o, 134217728real);
                lemma_regroup(o, o, 18014398509481984real);
                assert(p == 1real);
            }
        }
        lemma_squares_ordered(u.x, o);
        lemma_squares_ordered(u.y, o);
        lemma_squares_ordered(u.z, o);
        lemma_length_tiny(v);
    }
}

/// A length is not less than its part along a direction.
proof fn lemma_length_lower(v: Vec3, w: Spot, c: real)
    requires
        v.is_finite(),
        w.dot(w) == 1real,
        Spot::of(v).dot(w) >= c,
        c * 1024real >= 1real,
        Spot::of(v).dot(Spot::of(v)) * 16real <= limit(),
    ensures
        v.length().is_finite(),
        exact(v.length()) * grains() >= c * grains() - c * 12real,
{
    let g = grains();
    let u = Spot::of(v);
    let (n, p) = (u.dot(u), u.dot(w));
    // What is left of it across is not less than nothing.
    let d = u.minus(w.scale(p));
    lemma_square(d.x);
    lemma_square(d.y);
    lemma_square(d.z);
    lemma_dot_minus(u, w.scale(p), d);
    lemma_dot_swap(u, d);
    lemma_dot_minus(u, w.scale(p), u);
    lemma_dot_scale(w, p, u);
    lemma_dot_swap(w, u);
    lemma_dot_scale(w, p, d);
    lemma_dot_swap(w, d);
    lemma_dot_minus(u, w.scale(p), w);
    lemma_dot_scale(w, p, w);
    assert(d.dot(w) == 0real);
    lemma_nothing(0real, p);
    assert(n >= p * p);
    lemma_squares_ordered(c, p);
    let m = c * c;
    lemma_squares_ordered(1real, c * 1024real);
    lemma_regroup(c, 1024real, c * 1024real);
    lemma_regroup(c, c, 1024real);
    lemma_length_squared(v, n);
    let r = exact(v.length());
    let e = c * 12real / g;
    lemma_quotient_back(c * 12real, g);
    let t = c - e;
    assert(t * t <= r * r) by {
        lemma_spread_minus(c, e, t);
        lemma_spread_minus(c, e, c);
        lemma_spread_minus(c, e, e);
        lemma_swap(c, e);
        let k = c * e;
        assert(k * g == m * 12real) by {
            lemma_regroup(c, e, g);
            lemma_regroup(c, c, 12real);
        }
        lemma_scale_ordered(e, e, c);
        assert(t * t <= m - k);
        assert((r * r) * g >= n * g - n * 11real);
        assert(n * (g - 11real) >= m * (g - 11real)) by {
            lemma_scale_ordered(g - 11real, m, n);
        }
    }
    lemma_squares_ordered(t, r);
}

/// The time of a crossing is a part of a step.
proof fn lemma_crossing_time(a: Scalar, b: Scalar)
    requires
        a.is_finite(),
        b.is_finite(),
        b.minus(a).is_finite(),
    ensures
        crossing_time(a, b).is_finite(),
        0real <= exact(crossing_time(a, b)) <= 1real,
{
    lemma_exact_constants();
    lemma_exact(zero());
    let d = b.minus(a);
    if d.abs().gt(tiny()) {
        lemma_not_nan(a.neg(), d);
        lemma_clamp_close(a.neg().over(d));
    }
}

pub proof fn lemma_not_nan(a: Scalar, b: Scalar)
    requires
        a.is_finite(),
        b.is_finite(),
        b.abs().gt(tiny()),
    ensures
        !a.over(b).is_nan(),
{
    reveal(Scalar::spec_over);
    lemma_tiny_value();
    lemma_quotient(a.magnitude() as int, b.magnitude() as int);
}

/// What counts as nothing is more than that.
proof fn lemma_tiny_value()
    ensures
        tiny().magnitude() > 0,
{
}

/// A coordinate on the way from one to another.
pub proof fn lemma_on_the_way(a: Scalar, x: real, b: Scalar, y: real, t: Scalar, l: real)
    requires
        within(a, x, l),
        within(b, y, l),
        size(x) <= l,
        size(y) <= l,
        t.is_finite(),
        0real <= exact(t) <= 1real,
        l >= 1real,
        l <= 1048576real,
    ensures
        within(
            a.times(one().minus(t)).plus(b.times(t)),
            x * (1real - exact(t)) + y * exact(t),
            l * 14real,
        ),
{
    let g = grains();
    let k = exact(t);
    lemma_exact_constants();
    lemma_minus_close(one(), t, 1real);
    let s = one().minus(t);
    let (u, v, w) = (exact(a), exact(b), exact(s));
    lemma_size_of_product(u, w, l * 2real, 2real);
    lemma_times_close(a, s, l * 4real);
    lemma_size_of_product((u - x) * g, w, l, 2real);
    lemma_regroup(u - x, g, w);
    lemma_spread_minus(u, x, w);
    lemma_size_of_product(x, (w - (1real - k)) * g, l, 1real);
    lemma_regroup(x, w - (1real - k), g);
    lemma_spread_minus(w, 1real - k, x);
    lemma_size_of_product(v, k, l * 2real, 1real);
    lemma_times_close(b, t, l * 2real);
    lemma_size_of_product((v - y) * g, k, l, 1real);
    lemma_regroup(v - y, g, k);
    lemma_spread_minus(v, y, k);
    assert(within(a.times(s), x * (1real - k), l * 7real));
    assert(within(b.times(t), y * k, l * 3real));
    assert(size(x * (1real - k) + y * k) <= l) by {
        lemma_scale_ordered(1real - k, x, l);
        lemma_scale_ordered(1real - k, -l, x);
        lemma_scale_ordered(k, y, l);
        lemma_scale_ordered(k, -l, y);
        lemma_spread_minus(1real, k, l);
        lemma_opposite(1real - k, l);
        lemma_opposite(k, l);
        lemma_swap(1real - k, x);
        lemma_swap(k, y);
        lemma_swap(1real - k, l);
        lemma_swap(k, l);
        lemma_swap(1real - k, -l);
        lemma_swap(k, -l);
    }
    lemma_plus_within(
        a.times(s),
        x * (1real - k),
        l * 7real,
        b.times(t),
        y * k,
        l * 3real,
        l * 2real,
    );
}

/// What is left of `u` across `n`, exactly.
pub open spec fn across(u: Spot, n: Spot) -> Spot {
    u.minus(n.scale(u.dot(n)))
}

/// How far something is from the line along a disc's face goes by what is left of it
/// across that line.
proof fn lemma_radial(at: Vec3, a: Spot, disc: Pose, l: real)
    requires
        is_unit(disc.rotation),
        at.is_finite(),
        close(Spot::of(at), a, l * 25real),
        reaches(a, l),
        l >= 1real,
        l <= 1048576real,
    ensures
        ({
            let n = face(disc.rotation);
            let v = at.minus(n.scale(at.dot(n)));
            &&& v.is_finite()
            &&& close(
                Spot::of(v),
                across(a, Turn::of(disc.rotation).turned(outwards())),
                l * 4300real,
            )
        }),
{
    let g = grains();
    let n = face(disc.rotation);
    law_face_is_the_second_axis(disc.rotation);
    let (b, w, x) = (Spot::of(at), Spot::of(n), Turn::of(disc.rotation).turned(outwards()));
    lemma_axis_parts(w, 40real);
    let m = l * (1001real / 1000real);
    lemma_reach_near(b, a, l * 25real, l, m);
    lemma_reach_parts(b, m);
    // What lies along the face.
    lemma_along_term(at.x, b.x, n.x, m);
    lemma_along_term(at.y, b.y, n.y, m);
    lemma_along_term(at.z, b.z, n.z, m);
    let (p, q, r) = (at.x.times(n.x), at.y.times(n.y), at.z.times(n.z));
    lemma_plus_within(p, b.x * w.x, m * 4real, q, b.y * w.y, m * 4real, m * 3real);
    lemma_plus_within(
        p.plus(q),
        b.x * w.x + b.y * w.y,
        m * 11real,
        r,
        b.z * w.z,
        m * 4real,
        m * 4real,
    );
    let k = at.dot(n);
    let e = b.dot(w);
    assert(within(k, e, m * 19real));
    lemma_unit_length(w);
    lemma_both_ways(b, w, m, 101real / 100real);
    assert(size(e) <= m * (101real / 100real));
    lemma_left_part(at.x, n.x, k, e, m);
    lemma_left_part(at.y, n.y, k, e, m);
    lemma_left_part(at.z, n.z, k, e, m);
    let v = at.minus(n.scale(k));
    let near = b.minus(w.scale(e));
    lemma_parts_close(Spot::of(v), near, m * 30real, m * 53real);
    // The exact line.
    lemma_across_near(b, a, w, x, l);
    lemma_way_round(Spot::of(v), near, across(a, x), m * 53real, l * 4200real);
    lemma_close_wider(
        Spot::of(v),
        across(a, x),
        m * 53real + l * 4200real,
        l * 4300real,
    );
}

proof fn lemma_unit_length(w: Spot)
    requires
        is_little(w.dot(w) - 1real, 40real),
    ensures
        reaches(w, 101real / 100real),
{
    let c = 101real / 100real;
    assert(c * c == 10201real / 10000real);
}

proof fn lemma_left_part(a: Scalar, n: Scalar, k: Scalar, e: real, m: real)
    requires
        a.is_finite(),
        n.is_finite(),
        size(exact(a)) <= m,
        size(exact(n)) * 64real <= 65real,
        within(k, e, m * 19real),
        size(e) <= m * (101real / 100real),
        m >= 1real,
        m <= 2097152real,
    ensures
        within(a.minus(n.times(k)), exact(a) - exact(n) * e, m * 30real),
{
    let g = grains();
    let (x, y, z) = (exact(a), exact(n), exact(k));
    lemma_unit_product(z, y, m * (102real / 100real), 65real);
    lemma_swap(y, z);
    lemma_times_close(n, k, m * 2real);
    lemma_unit_product((z - e) * g, y, m * 19real, 65real);
    lemma_regroup(z - e, g, y);
    lemma_spread_minus(z, e, y);
    lemma_swap(y, e);
    lemma_unit_product(e, y, m * (101real / 100real), 65real);
    assert(within(n.times(k), y * e, m * 22real));
    lemma_minus_within(a, x, 0real, n.times(k), y * e, m * 22real, m * 3real);
}

/// What is left across two lines that are close.
proof fn lemma_across_near(b: Spot, a: Spot, w: Spot, x: Spot, l: real)
    requires
        close(b, a, l * 25real),
        reaches(a, l),
        reaches(b, l * (1001real / 1000real)),
        close(w, x, 2000real),
        reaches(w, 101real / 100real),
        l >= 1real,
    ensures
        close(b.minus(w.scale(b.dot(w))), across(a, x), l * 4200real),
{
    let g = grains();
    let c = 101real / 100real;
    let (e, f) = (b.dot(w), a.dot(x));
    let m = l * (1001real / 1000real);
    // How much lies along them.
    let (p, q) = (b.minus(a).scale(g), w.minus(x).scale(g));
    lemma_both_ways(p, w, l * 25real, c);
    lemma_dot_scale(b.minus(a), g, w);
    lemma_dot_minus(b, a, w);
    lemma_both_ways(q, a, 2000real, l);
    lemma_dot_scale(w.minus(x), g, a);
    lemma_dot_minus(w, x, a);
    lemma_dot_swap(w, a);
    lemma_dot_swap(x, a);
    assert(size(e - f) * g <= l * 2026real);
    lemma_both_ways(b, w, m, c);
    assert(size(e) <= l * (102real / 100real));
    // The two parts.
    let y = w.scale(e).minus(x.scale(e));
    assert(close(w.scale(e), x.scale(e), l * 2040real)) by {
        lemma_scaled_close(w, x, 2000real, e, l * (102real / 100real), l * 2040real);
    }
    lemma_close_swap(w, x, 2000real);
    lemma_reach_near(x, w, 2000real, c, 102real / 100real);
    assert(close(x.scale(e), x.scale(f), l * 2100real)) by {
        lemma_scaled_apart(x, e, f, 102real / 100real, l * 2026real, l * 2100real);
    }
    lemma_way_round(w.scale(e), x.scale(e), x.scale(f), l * 2040real, l * 2100real);
    let (u, v) = (b.minus(w.scale(e)), a.minus(x.scale(f)));
    lemma_minus_both(b, a, w.scale(e), x.scale(f), l * 25real, l * 4140real);
    lemma_close_wider(u, v, l * 25real + l * 4140real, l * 4200real);
}

/// A scaled vector reaches as much farther.
proof fn lemma_scaled_reach(u: Spot, k: real, m: real, top: real)
    requires
        reaches(u, m),
        size(k) <= top,
    ensures
        reaches(u.scale(k), top * m),
{
    let v = u.scale(k);
    lemma_dot_scale(u, k, v);
    lemma_dot_swap(u, v);
    lemma_dot_scale(u, k, u);
    let n = u.dot(u);
    lemma_regroup(k, k, n);
    lemma_square(u.x);
    lemma_square(u.y);
    lemma_square(u.z);
    lemma_squares_ordered(k, top);
    lemma_square(k);
    lemma_scale_ordered(n, k * k, top * top);
    lemma_square(top);
    lemma_scale_ordered(top * top, n, m * m);
    lemma_swap(n, k * k);
    lemma_swap(n, top * top);
    assert((top * m) * (top * m) == (top * top) * (m * m)) by {
        let p = top * m;
        lemma_regroup(top, m, p);
        lemma_regroup(m, top, m);
        lemma_swap(m, p);
        lemma_regroup(top, m, m);
        lemma_regroup(top, top, m * m);
    }
    lemma_scale_ordered(top, 0real, m);
}

proof fn lemma_scaled_close(w: Spot, x: Spot, e: real, k: real, most: real, top: real)
    requires
        close(w, x, e),
        size(k) <= most,
        most * e <= top,
    ensures
        close(w.scale(k), x.scale(k), top),
{
    let g = grains();
    let d = w.minus(x).scale(g);
    assert(reaches(d, e));
    lemma_scaled_reach(d, k, e, most);
    let f = w.scale(k).minus(x.scale(k)).scale(g);
    assert(f == d.scale(k)) by {
        lemma_spread_minus(w.x, x.x, k);
        lemma_spread_minus(w.y, x.y, k);
        lemma_spread_minus(w.z, x.z, k);
        lemma_regroup(w.x - x.x, g, k);
        lemma_regroup(w.y - x.y, g, k);
        lemma_regroup(w.z - x.z, g, k);
    }
    lemma_squares_ordered(most * e, top);
}

proof fn lemma_scaled_apart(x: Spot, e: real, f: real, m: real, off: real, top: real)
    requires
        reaches(x, m),
        size(e - f) * grains() <= off,
        off * m <= top,
    ensures
        close(x.scale(e), x.scale(f), top),
{
    let g = grains();
    let k = (e - f) * g;
    lemma_scaled_reach(x, k, m, off);
    let d = x.scale(e).minus(x.scale(f)).scale(g);
    assert(d == x.scale(k)) by {
        lemma_spread_minus(e, f, x.x);
        lemma_spread_minus(e, f, x.y);
        lemma_spread_minus(e, f, x.z);
        lemma_regroup(x.x, e - f, g);
        lemma_regroup(x.y, e - f, g);
        lemma_regroup(x.z, e - f, g);
    }
    lemma_squares_ordered(off * m, top);
}

proof fn lemma_close_swap(a: Spot, b: Spot, e: real)
    requires
        close(a, b, e),
    ensures
        close(b, a, e),
{
    let g = grains();
    let (d, f) = (a.minus(b).scale(g), b.minus(a).scale(g));
    assert(f == d.scale(-1real));
    lemma_dot_scale(d, -1real, f);
    lemma_dot_swap(d, f);
    lemma_dot_scale(d, -1real, d);
}

pub proof fn lemma_minus_both(b: Spot, a: Spot, p: Spot, q: Spot, e: real, f: real)
    requires
        close(b, a, e),
        close(p, q, f),
    ensures
        close(b.minus(p), a.minus(q), e + f),
{
    lemma_close_swap(p, q, f);
    assert(b.minus(p).minus(a.minus(p)) == b.minus(a));
    assert(a.minus(p).minus(a.minus(q)) == q.minus(p));
    lemma_way_round(b.minus(p), a.minus(p), a.minus(q), e, f);
}

/// The point at `t` on the way from `u` to `v`.
pub open spec fn between(u: Spot, v: Spot, t: real) -> Spot {
    u.scale(1real - t).plus(v.scale(t))
}

/// What is on the way reaches no farther than both ends.
proof fn lemma_between_reach(u: Spot, v: Spot, t: real, m: real)
    requires
        reaches(u, m),
        reaches(v, m),
        0real <= t <= 1real,
    ensures
        reaches(between(u, v, t), m),
{
    let (x, y) = (u.scale(1real - t), v.scale(t));
    lemma_scaled_reach(u, 1real - t, m, 1real - t);
    lemma_scaled_reach(v, t, m, t);
    let (a, b) = ((1real - t) * m, t * m);
    lemma_spread_minus(1real, t, m);
    assert(a + b == m);
    lemma_in_common(x, y, a, b);
    let s = x.plus(y);
    lemma_dot_plus(x, y, s);
    lemma_dot_swap(x, s);
    lemma_dot_swap(y, s);
    lemma_dot_plus(x, y, x);
    lemma_dot_plus(x, y, y);
    lemma_dot_swap(x, y);
    lemma_spread(a, b, m);
    lemma_spread(a, b, a);
    lemma_spread(a, b, b);
    lemma_swap(a, b);
    lemma_swap(m, a);
    lemma_swap(m, b);
    assert(m * m == a * a + (a * b) * 2real + b * b);
}

/// The part along a direction of what is on the way.
proof fn lemma_between_part(u: Spot, v: Spot, t: real, w: Spot)
    ensures
        between(u, v, t).dot(w) == u.dot(w) * (1real - t) + v.dot(w) * t,
{
    lemma_dot_plus(u.scale(1real - t), v.scale(t), w);
    lemma_dot_scale(u, 1real - t, w);
    lemma_dot_scale(v, t, w);
    lemma_swap(u.dot(w), 1real - t);
    lemma_swap(v.dot(w), t);
}

/// Where something is when it passes a disc, as far as the disc is concerned.
pub open spec fn place_of(pos: Vec3, disc: Pose) -> Spot {
    Spot::of(pos).minus(Spot::of(disc.translation))
}

/// What is left across the face of what passes: some point on the way is at issue.
proof fn lemma_passing_point(prev_pos: Vec3, pos: Vec3, prev_entry: Pose, entry: Pose, l: real)
    requires
        is_off_by(prev_pos, prev_entry, l),
        is_off_by(pos, entry, l),
        l >= 1real,
        l <= 1048576real,
    ensures
        ({
            let t = exact(crossing_time(along(prev_pos, prev_entry), along(pos, entry)));
            let at = prev_pos.minus(prev_entry.translation).lerp(
                pos.minus(entry.translation),
                crossing_time(along(prev_pos, prev_entry), along(pos, entry)),
            );
            let a = between(place_of(prev_pos, prev_entry), place_of(pos, entry), t);
            &&& 0real <= t <= 1real
            &&& at.is_finite()
            &&& close(Spot::of(at), a, l * 25real)
        }),
{
    let g = grains();
    let (p, q) = (place_of(prev_pos, prev_entry), place_of(pos, entry));
    let (u, v) = (prev_pos.minus(prev_entry.translation), pos.minus(entry.translation));
    lemma_reach_parts(p, l);
    lemma_reach_parts(q, l);
    lemma_minus_close(prev_pos.x, prev_entry.translation.x, l);
    lemma_minus_close(prev_pos.y, prev_entry.translation.y, l);
    lemma_minus_close(prev_pos.z, prev_entry.translation.z, l);
    lemma_minus_close(pos.x, entry.translation.x, l);
    lemma_minus_close(pos.y, entry.translation.y, l);
    lemma_minus_close(pos.z, entry.translation.z, l);
    law_along_is_how_far_in_front(prev_pos, prev_entry, l);
    law_along_is_how_far_in_front(pos, entry, l);
    let (a, b) = (along(prev_pos, prev_entry), along(pos, entry));
    lemma_part_reach(p, prev_entry, l);
    lemma_part_reach(q, entry, l);
    lemma_minus_close(b, a, l * 5real);
    lemma_crossing_time(a, b);
    let time = crossing_time(a, b);
    let t = exact(time);
    lemma_on_the_way(u.x, p.x, v.x, q.x, time, l);
    lemma_on_the_way(u.y, p.y, v.y, q.y, time, l);
    lemma_on_the_way(u.z, p.z, v.z, q.z, time, l);
    let at = u.lerp(v, time);
    let m = between(p, q, t);
    lemma_parts_close(Spot::of(at), m, l * 14real, l * 25real);
}

/// How far in front of a disc something can be.
pub proof fn lemma_part_reach(u: Spot, disc: Pose, l: real)
    requires
        is_unit(disc.rotation),
        reaches(u, l),
    ensures
        size(part(u, disc.rotation, outwards())) <= l * 2real,
{
    let t = Turn::of(disc.rotation);
    let n = t.turned(outwards());
    lemma_axes(outwards());
    lemma_turn_keeps(t, outwards(), outwards());
    lemma_norm_twice(t.norm(), 64real);
    lemma_both_ways(u, n, l, 2real);
}

/// What stays outside of the rim on one side of a disc does not go through it: wherever
/// it crosses, it is farther from the middle than the rim in some direction `w` along the
/// disc.
pub proof fn law_what_misses_the_disc_stays(
    prev_pos: Vec3,
    pos: Vec3,
    prev_entry: Pose,
    entry: Pose,
    w: Spot,
    l: real,
)
    requires
        is_off_by(prev_pos, prev_entry, l),
        is_off_by(pos, entry, l),
        l >= 1real,
        l <= 1048576real,
        w.dot(w) == 1real,
        w.dot(Turn::of(entry.rotation).turned(outwards())) == 0real,
        (place_of(prev_pos, prev_entry).dot(w) - exact(portal_radius())) * grains() > l * 4700real,
        (place_of(pos, entry).dot(w) - exact(portal_radius())) * grains() > l * 4700real,
    ensures
        !passes(prev_pos, pos, prev_entry, entry),
{
    lemma_passing_point(prev_pos, pos, prev_entry, entry, l);
    let time = crossing_time(along(prev_pos, prev_entry), along(pos, entry));
    lemma_off_the_rim(
        prev_pos.minus(prev_entry.translation).lerp(pos.minus(entry.translation), time),
        place_of(prev_pos, prev_entry),
        place_of(pos, entry),
        exact(time),
        entry,
        w,
        l,
    );
}

/// What is on the way between two places beyond the rim is beyond it too.
pub proof fn lemma_off_the_rim(at: Vec3, p: Spot, q: Spot, t: real, entry: Pose, w: Spot, l: real)
    requires
        is_unit(entry.rotation),
        at.is_finite(),
        0real <= t <= 1real,
        close(Spot::of(at), between(p, q, t), l * 25real),
        reaches(p, l),
        reaches(q, l),
        l >= 1real,
        l <= 1048576real,
        w.dot(w) == 1real,
        w.dot(Turn::of(entry.rotation).turned(outwards())) == 0real,
        (p.dot(w) - exact(portal_radius())) * grains() > l * 4700real,
        (q.dot(w) - exact(portal_radius())) * grains() > l * 4700real,
    ensures
        radial(at, face(entry.rotation)).gt(portal_radius()),
{
    let g = grains();
    let a = between(p, q, t);
    lemma_between_reach(p, q, t, l);
    lemma_radial(at, a, entry, l);
    let f = face(entry.rotation);
    let v = at.minus(f.scale(at.dot(f)));
    let n = Turn::of(entry.rotation).turned(outwards());
    let rim = exact(portal_radius());
    lemma_radius();
    lemma_between_part(p, q, t, w);
    let c = rim + l * 4700real / g;
    lemma_quotient_back(l * 4700real, g);
    assert(a.dot(w) >= c) by {
        lemma_scale_ordered(1real - t, c, p.dot(w));
        lemma_scale_ordered(t, c, q.dot(w));
        lemma_swap(1real - t, p.dot(w));
        lemma_swap(t, q.dot(w));
        lemma_spread_minus(1real, t, c);
        lemma_swap(1real - t, c);
        lemma_swap(t, c);
    }
    let o = across(a, n);
    assert(o.dot(w) == a.dot(w)) by {
        lemma_dot_minus(a, n.scale(a.dot(n)), w);
        lemma_dot_scale(n, a.dot(n), w);
        lemma_dot_swap(n, w);
        lemma_nothing(0real, a.dot(n));
    }
    let d = Spot::of(v).minus(o).scale(g);
    lemma_both_ways(d, w, l * 4300real, 1real);
    lemma_dot_scale(Spot::of(v).minus(o), g, w);
    lemma_dot_minus(Spot::of(v), o, w);
    let b = rim + l * 400real / g;
    lemma_quotient_back(l * 400real, g);
    assert(Spot::of(v).dot(w) >= b);
    lemma_across_reach(a, entry, l);
    lemma_reach_near(Spot::of(v), o, l * 4300real, l * 3real, l * 4real);
    let z = Spot::of(v).dot(Spot::of(v));
    assert(z * 16real <= limit()) by {
        lemma_squares_ordered(l * 4real, 4194304real);
    }
    lemma_length_lower(v, w, b);
    lemma_exact_ordered(portal_radius(), v.length());
    assert(b <= l * 3real);
}

proof fn lemma_across_reach(a: Spot, entry: Pose, l: real)
    requires
        is_unit(entry.rotation),
        reaches(a, l),
    ensures
        reaches(across(a, Turn::of(entry.rotation).turned(outwards())), l * 3real),
{
    let t = Turn::of(entry.rotation);
    let n = t.turned(outwards());
    lemma_axes(outwards());
    lemma_turn_keeps(t, outwards(), outwards());
    lemma_norm_twice(t.norm(), 64real);
    let c = 101real / 100real;
    assert(c * c == 10201real / 10000real);
    assert(reaches(n, c));
    lemma_both_ways(a, n, l, c);
    lemma_scaled_reach(n, a.dot(n), c, l * c);
    let g = grains();
    let s = n.scale(a.dot(n));
    lemma_reach_close(a, l);
    lemma_reach_close(s, (l * c) * c);
    lemma_minus_both(a, origin(), s, origin(), l * g, ((l * c) * c) * g);
    assert(origin().minus(origin()) == origin());
    lemma_close_wider(a.minus(s), origin(), l * g + ((l * c) * c) * g, (l * 3real) * g);
    lemma_reach_close(a.minus(s), l * 3real);
}

/// The rim is between one and two off.
pub proof fn lemma_radius()
    ensures
        portal_radius().is_finite(),
        1real <= exact(portal_radius()) <= 2real,
{
    let a = portal_radius();
    lemma_exact(a);
    lemma_whole();
    lemma_units_of_power(127);
    lemma_units_of_power(128);
    lemma_units_increase(127int * 0x80_0000int, a.magnitude() as int);
    lemma_units_increase(a.magnitude() as int, 128int * 0x80_0000int);
    lemma_pow2_adds(149, 1);
    lemma2_to64();
}

/// What is left across a disc's face is as far from the middle as its parts along the
/// disc are.
proof fn lemma_cylinder(a: Spot, entry: Pose, rho: real, l: real)
    requires
        is_unit(entry.rotation),
        reaches(a, l),
        ({
            let q = entry.rotation;
            reaches(
                Spot { x: part(a, q, sideways()), y: 0real, z: part(a, q, crosswise()) },
                rho,
            )
        }),
        rho <= l,
        l >= 1real,
    ensures
        reaches(
            across(a, Turn::of(entry.rotation).turned(outwards())),
            rho + l * 300real / grains(),
        ),
{
    let g = grains();
    let q = entry.rotation;
    let t = Turn::of(q);
    let n = t.turned(outwards());
    let local = t.back().turned(a);
    lemma_part_in(a, q, sideways());
    lemma_part_in(a, q, outwards());
    lemma_part_in(a, q, crosswise());
    lemma_axes(local);
    let flat = Spot { x: local.x, y: 0real, z: local.z };
    lemma_turn_back(t.back(), a);
    assert(t.back().back() == t);
    lemma_turn_moves_over(t, a, a);
    let k = t.norm() * t.norm();
    lemma_norm_twice(t.norm(), 64real);
    assert(t.turned(local) == a.scale(k));
    let y = outwards().scale(local.y);
    lemma_nothing(0real, local.y);
    assert(local.minus(y) == flat);
    lemma_turn_minus(t, local, y);
    lemma_turn_scale(t, outwards(), local.y);
    let f = t.turned(flat);
    assert(f == a.scale(k).minus(n.scale(local.y)));
    let o = across(a, n);
    assert(a.dot(n) == local.y);
    // The two differ by what the rotation is longer.
    lemma_scaled_apart(a, 1real, k, l, 130real, l * 130real);
    assert(a.scale(1real) == a);
    assert(o.minus(f) == a.scale(1real).minus(a.scale(k)));
    assert(close(o, f, l * 130real));
    // How far that is.
    lemma_turn_keeps(t, flat, flat);
    let m = flat.dot(flat);
    let e = rho * 130real / g;
    lemma_quotient_back(rho * 130real, g);
    let z = rho + e;
    assert(f.dot(f) <= z * z) by {
        lemma_square(flat.x);
        lemma_square(flat.z);
        lemma_size_of_product((k - 1real) * g, m, 130real, rho * rho);
        lemma_regroup(k - 1real, g, m);
        lemma_spread_minus(k, 1real, m);
        lemma_spread(rho, e, z);
        lemma_spread(rho, e, rho);
        lemma_spread(rho, e, e);
        lemma_swap(rho, e);
        lemma_square(e);
        let c = rho * e;
        assert(c * g == (rho * rho) * 130real) by {
            lemma_regroup(rho, e, g);
            lemma_regroup(rho, rho, 130real);
        }
    }
    let top = rho + l * 300real / g;
    lemma_quotient_back(l * 300real, g);
    lemma_reach_near(o, f, l * 130real, z, top);
}

/// Whether something is at most `rho` off the line through the middle of a disc.
pub open spec fn is_round(u: Spot, rotation: Quat, rho: real) -> bool {
    reaches(
        Spot { x: part(u, rotation, sideways()), y: 0real, z: part(u, rotation, crosswise()) },
        rho,
    )
}

/// What changes sides of a disc within its rim goes through it: what was in front by
/// more than rounding and is behind by more, or the other way round, and was and is
/// nearer to the line through the middle than the rim is.
pub proof fn law_what_crosses_the_disc_goes_through(
    prev_pos: Vec3,
    pos: Vec3,
    prev_entry: Pose,
    entry: Pose,
    rho: real,
    l: real,
)
    requires
        is_off_by(prev_pos, prev_entry, l),
        is_off_by(pos, entry, l),
        l >= 1real,
        l <= 1048576real,
        0real <= rho <= l,
        (exact(portal_radius()) - rho) * grains() > l * 4700real,
        is_round(place_of(prev_pos, prev_entry), entry.rotation, rho),
        is_round(place_of(pos, entry), entry.rotation, rho),
        ({
            let was = part(place_of(prev_pos, prev_entry), prev_entry.rotation, outwards());
            let now = part(place_of(pos, entry), entry.rotation, outwards());
            let off = l * 2100real;
            ||| was * grains() > off && now * grains() < -off
            ||| was * grains() < -off && now * grains() > off
        }),
    ensures
        passes(prev_pos, pos, prev_entry, entry),
{
    lemma_passing_point(prev_pos, pos, prev_entry, entry, l);
    law_along_is_how_far_in_front(prev_pos, prev_entry, l);
    law_along_is_how_far_in_front(pos, entry, l);
    lemma_exact_constants();
    lemma_exact_ordered(zero(), along(prev_pos, prev_entry));
    lemma_exact_ordered(zero(), along(pos, entry));
    let time = crossing_time(along(prev_pos, prev_entry), along(pos, entry));
    lemma_inside_the_rim(
        prev_pos.minus(prev_entry.translation).lerp(pos.minus(entry.translation), time),
        place_of(prev_pos, prev_entry),
        place_of(pos, entry),
        exact(time),
        entry,
        rho,
        l,
    );
}

/// What is on the way between two places inside the rim is inside it too.
pub proof fn lemma_inside_the_rim(
    at: Vec3,
    p: Spot,
    q: Spot,
    t: real,
    entry: Pose,
    rho: real,
    l: real,
)
    requires
        is_unit(entry.rotation),
        at.is_finite(),
        0real <= t <= 1real,
        close(Spot::of(at), between(p, q, t), l * 25real),
        reaches(p, l),
        reaches(q, l),
        l >= 1real,
        l <= 1048576real,
        0real <= rho <= l,
        (exact(portal_radius()) - rho) * grains() > l * 4700real,
        is_round(p, entry.rotation, rho),
        is_round(q, entry.rotation, rho),
    ensures
        radial(at, face(entry.rotation)).lt(portal_radius()),
{
    let g = grains();
    let a = between(p, q, t);
    let r = entry.rotation;
    let (x, z) = (Turn::of(r).turned(sideways()), Turn::of(r).turned(crosswise()));
    lemma_between_part(p, q, t, x);
    lemma_between_part(p, q, t, z);
    let (b, c) = (
        Spot { x: part(p, r, sideways()), y: 0real, z: part(p, r, crosswise()) },
        Spot { x: part(q, r, sideways()), y: 0real, z: part(q, r, crosswise()) },
    );
    lemma_between_reach(b, c, t, rho);
    lemma_nothing(0real, 1real - t);
    lemma_nothing(0real, t);
    assert(between(b, c, t) == Spot {
        x: part(a, r, sideways()),
        y: 0real,
        z: part(a, r, crosswise()),
    });
    lemma_between_reach(p, q, t, l);
    lemma_cylinder(a, entry, rho, l);
    lemma_radial(at, a, entry, l);
    let f = face(r);
    let v = at.minus(f.scale(at.dot(f)));
    let o = across(a, Turn::of(r).turned(outwards()));
    let m = rho + l * 300real / g;
    lemma_quotient_back(l * 300real, g);
    let top = rho + l * 4600real / g;
    lemma_quotient_back(l * 4600real, g);
    lemma_reach_near(Spot::of(v), o, l * 4300real, m, top);
    lemma_length_upper(v, top);
    lemma_radius();
    lemma_exact_ordered(portal_radius(), v.length());
}

/// Where something is when it passes a disc that does not move.
proof fn lemma_passing_point_fixed(prev_pos: Vec3, pos: Vec3, entry: Pose, l: real)
    requires
        is_off_by(prev_pos, entry, l),
        is_off_by(pos, entry, l),
        is_small(prev_pos, l / 2real),
        is_small(pos, l / 2real),
        l >= 2real,
        l <= 1048576real,
    ensures
        ({
            let time = crossing_time(along(prev_pos, entry), along(pos, entry));
            let t = exact(time);
            let at = prev_pos.lerp(pos, time).minus(entry.translation);
            &&& 0real <= t <= 1real
            &&& at.is_finite()
            &&& close(
                Spot::of(at),
                between(place_of(prev_pos, entry), place_of(pos, entry), t),
                l * 25real,
            )
        }),
{
    let (a, b) = (along(prev_pos, entry), along(pos, entry));
    law_along_is_how_far_in_front(prev_pos, entry, l);
    law_along_is_how_far_in_front(pos, entry, l);
    lemma_part_reach(place_of(prev_pos, entry), entry, l);
    lemma_part_reach(place_of(pos, entry), entry, l);
    lemma_minus_close(b, a, l * 5real);
    lemma_crossing_time(a, b);
    lemma_point_on_the_way(prev_pos, pos, entry, crossing_time(a, b), l);
}

/// A point on the way past a disc that does not move.
pub proof fn lemma_point_on_the_way(prev_pos: Vec3, pos: Vec3, entry: Pose, time: Scalar, l: real)
    requires
        is_off_by(prev_pos, entry, l),
        is_off_by(pos, entry, l),
        is_small(prev_pos, l / 2real),
        is_small(pos, l / 2real),
        l >= 2real,
        l <= 1048576real,
        time.is_finite(),
        0real <= exact(time) <= 1real,
    ensures
        ({
            let at = prev_pos.lerp(pos, time).minus(entry.translation);
            &&& at.is_finite()
            &&& close(
                Spot::of(at),
                between(place_of(prev_pos, entry), place_of(pos, entry), exact(time)),
                l * 25real,
            )
        }),
{
    let t = exact(time);
    let (p, q) = (place_of(prev_pos, entry), place_of(pos, entry));
    let m = between(p, q, t);
    lemma_between_reach(p, q, t, l);
    lemma_reach_parts(m, l);
    lemma_past(prev_pos.x, pos.x, entry.translation.x, time, l);
    lemma_past(prev_pos.y, pos.y, entry.translation.y, time, l);
    lemma_past(prev_pos.z, pos.z, entry.translation.z, time, l);
    let at = prev_pos.lerp(pos, time).minus(entry.translation);
    lemma_parts_close(Spot::of(at), m, l * 14real, l * 25real);
}

proof fn lemma_past(a: Scalar, b: Scalar, c: Scalar, time: Scalar, l: real)
    requires
        a.is_finite(),
        b.is_finite(),
        c.is_finite(),
        size(exact(a)) <= l / 2real,
        size(exact(b)) <= l / 2real,
        l >= 2real,
        l <= 1048576real,
        time.is_finite(),
        0real <= exact(time) <= 1real,
        ({
            let t = exact(time);
            size((exact(a) - exact(c)) * (1real - t) + (exact(b) - exact(c)) * t) <= l
        }),
    ensures
        ({
            let t = exact(time);
            within(
                a.times(one().minus(time)).plus(b.times(time)).minus(c),
                (exact(a) - exact(c)) * (1real - t) + (exact(b) - exact(c)) * t,
                l * 14real,
            )
        }),
{
    let t = exact(time);
    let (x, y, z) = (exact(a), exact(b), exact(c));
    lemma_on_the_way(a, x, b, y, time, l / 2real);
    let w = x * (1real - t) + y * t;
    lemma_spread_minus(x, z, 1real - t);
    lemma_spread_minus(y, z, t);
    lemma_spread_minus(1real, t, z);
    lemma_minus_within(
        a.times(one().minus(time)).plus(b.times(time)),
        w,
        l * 7real,
        c,
        z,
        0real,
        l * 2real,
    );
}

/// What stays outside of the rim on one side of a disc that does not move does not go
/// through it.
pub proof fn law_what_misses_a_fixed_disc_stays(
    prev_pos: Vec3,
    pos: Vec3,
    entry: Pose,
    w: Spot,
    l: real,
)
    requires
        is_off_by(prev_pos, entry, l),
        is_off_by(pos, entry, l),
        is_small(prev_pos, l / 2real),
        is_small(pos, l / 2real),
        l >= 2real,
        l <= 1048576real,
        w.dot(w) == 1real,
        w.dot(Turn::of(entry.rotation).turned(outwards())) == 0real,
        (place_of(prev_pos, entry).dot(w) - exact(portal_radius())) * grains() > l * 4700real,
        (place_of(pos, entry).dot(w) - exact(portal_radius())) * grains() > l * 4700real,
    ensures
        !passes_fixed(prev_pos, pos, entry),
{
    lemma_passing_point_fixed(prev_pos, pos, entry, l);
    let time = crossing_time(along(prev_pos, entry), along(pos, entry));
    lemma_off_the_rim(
        prev_pos.lerp(pos, time).minus(entry.translation),
        place_of(prev_pos, entry),
        place_of(pos, entry),
        exact(time),
        entry,
        w,
        l,
    );
}

/// What changes sides of a disc that does not move, within its rim, goes through it.
/// What stays on its side does not.
pub proof fn law_what_crosses_a_fixed_disc_goes_through(
    prev_pos: Vec3,
    pos: Vec3,
    entry: Pose,
    rho: real,
    l: real,
)
    requires
        is_off_by(prev_pos, entry, l),
        is_off_by(pos, entry, l),
        is_small(prev_pos, l / 2real),
        is_small(pos, l / 2real),
        l >= 2real,
        l <= 1048576real,
        0real <= rho <= l,
        (exact(portal_radius()) - rho) * grains() > l * 4700real,
        is_round(place_of(prev_pos, entry), entry.rotation, rho),
        is_round(place_of(pos, entry), entry.rotation, rho),
    ensures
        ({
            let was = part(place_of(prev_pos, entry), entry.rotation, outwards());
            let now = part(place_of(pos, entry), entry.rotation, outwards());
            let off = l * 2100real;
            &&& was * grains() > off && now * grains() < -off ==> passes_fixed(prev_pos, pos, entry)
            &&& was * grains() < -off && now * grains() > off ==> passes_fixed(prev_pos, pos, entry)
            &&& was * grains() > off && now * grains() > off ==> !passes_fixed(prev_pos, pos, entry)
            &&& was * grains() < -off && now * grains() < -off ==> !passes_fixed(
                prev_pos,
                pos,
                entry,
            )
        }),
{
    lemma_passing_point_fixed(prev_pos, pos, entry, l);
    law_along_is_how_far_in_front(prev_pos, entry, l);
    law_along_is_how_far_in_front(pos, entry, l);
    lemma_exact_constants();
    lemma_exact_ordered(zero(), along(prev_pos, entry));
    lemma_exact_ordered(zero(), along(pos, entry));
    let time = crossing_time(along(prev_pos, entry), along(pos, entry));
    lemma_inside_the_rim(
        prev_pos.lerp(pos, time).minus(entry.translation),
        place_of(prev_pos, entry),
        place_of(pos, entry),
        exact(time),
        entry,
        rho,
        l,
    );
}

} // verus!

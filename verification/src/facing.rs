//! Where a rotation looks that is made to look along a direction.

use crate::closeness::{
    exact, grains, lemma_exact, lemma_exact_constants, lemma_exact_ordered, lemma_minus_within,
    lemma_neg_close, lemma_over_close, lemma_plus_within, lemma_quotient_back,
    lemma_size_of_product, lemma_sqrt_close, lemma_times_close, lemma_whole, limit, size, within,
};
use crate::frames::{
    are_two_axes, is_little, lemma_axis_parts, lemma_minor_wxz, lemma_minor_wyz, lemma_minor_xww,
    lemma_minor_xyw, lemma_minor_xyy, lemma_minor_xyz, lemma_minor_xzz, lemma_minor_yww,
    lemma_minor_yxw, lemma_minor_yxz, lemma_minor_yzz, lemma_minor_zww, lemma_minor_zxw,
    lemma_minor_zyw, lemma_third_length, lemma_three_axes,
};
use crate::scalar::{lemma_units_of_power, one, zero, Scalar};
use crate::turning::{
    close, is_nearly_unit, lemma_across_dot, lemma_ahead_close, lemma_cancel, lemma_close_parts,
    lemma_close_wider, lemma_dot_minus, lemma_dot_scale, lemma_dot_swap, lemma_nothing,
    lemma_opposite, lemma_parts_close, lemma_reach_close, lemma_regroup, lemma_rotate_close,
    lemma_scale_ordered, lemma_spread, lemma_spread_minus, lemma_square, lemma_squares_ordered,
    lemma_swap, lemma_unit_part, lemma_unit_product, origin, Spot, Turn,
};
use crate::vector::{a_half, direction_or_across, from_axes, looking, Quat, Vec3};
use vstd::arithmetic::power2::lemma_pow2_unfold;
use vstd::prelude::*;

verus! {

/// Whether `x`, `y` and `z` are axes: the first and the last at right angles and as long
/// as one, the other one across them, but for rounding.
pub open spec fn are_given_axes(x: Vec3, y: Vec3, z: Vec3) -> bool {
    let w = Spot::of(z).cross(Spot::of(x));
    &&& x.is_finite()
    &&& z.is_finite()
    &&& are_two_axes(Spot::of(x), Spot::of(z), 40real)
    &&& within(y.x, w.x, 12real)
    &&& within(y.y, w.y, 12real)
    &&& within(y.z, w.z, 12real)
}

/// Whether the products of a rotation's components are those of the rotation that has
/// these axes, as far as they say where it looks.
pub open spec fn has_axes(q: Quat, x: Vec3, z: Vec3) -> bool {
    let (a, b, c) = (exact(x.x), exact(x.y), exact(x.z));
    let w = Spot::of(z).cross(Spot::of(x));
    let (d, e, f) = (w.x, w.y, w.z);
    let (g, h, i) = (exact(z.x), exact(z.y), exact(z.z));
    &&& q.x.is_finite()
    &&& q.y.is_finite()
    &&& q.z.is_finite()
    &&& q.w.is_finite()
    &&& is_little((exact(q.x) * exact(q.x)) * 4real - (1real + a - e - i), 3300real)
    &&& is_little((exact(q.y) * exact(q.y)) * 4real - (1real - a + e - i), 3300real)
    &&& is_little((exact(q.z) * exact(q.z)) * 4real - (1real - a - e + i), 3300real)
    &&& is_little((exact(q.w) * exact(q.w)) * 4real - (1real + a + e + i), 3300real)
    &&& is_little((exact(q.x) * exact(q.z)) * 4real - (c + g), 3300real)
    &&& is_little((exact(q.y) * exact(q.w)) * 4real - (g - c), 3300real)
    &&& is_little((exact(q.y) * exact(q.z)) * 4real - (f + h), 3300real)
    &&& is_little((exact(q.x) * exact(q.w)) * 4real - (f - h), 3300real)
}

/// Half, exactly.
proof fn lemma_half()
    ensures
        a_half().is_finite(),
        exact(a_half()) * 2real == 1real,
{
    lemma_exact(a_half());
    lemma_whole();
    lemma_units_of_power(126);
    lemma_pow2_unfold(149);
}

/// No coordinate of an axis is big.
proof fn lemma_entries(x: Vec3, y: Vec3, z: Vec3)
    requires
        are_given_axes(x, y, z),
    ensures
        ({
            let w = Spot::of(z).cross(Spot::of(x));
            let (u, v) = (Spot::of(x), Spot::of(z));
            &&& size(u.x) * 64real <= 65real
            &&& size(u.y) * 64real <= 65real
            &&& size(u.z) * 64real <= 65real
            &&& size(v.x) * 64real <= 65real
            &&& size(v.y) * 64real <= 65real
            &&& size(v.z) * 64real <= 65real
            &&& size(w.x) * 64real <= 65real
            &&& size(w.y) * 64real <= 65real
            &&& size(w.z) * 64real <= 65real
        }),
{
    let (u, v) = (Spot::of(x), Spot::of(z));
    lemma_axis_parts(u, 40real);
    lemma_axis_parts(v, 40real);
    lemma_third_length(u, v, 40real);
    lemma_axis_parts(v.cross(u), 120real);
}

/// The factor that makes a rotation as long as one.
proof fn lemma_factor(part: Scalar, n: real)
    requires
        within(part, n, 25real),
        n * 64real >= 63real,
        n <= 5real,
    ensures
        ({
            let k = a_half().over(part.sqrt());
            let t = exact(k);
            &&& k.is_finite()
            &&& 0real <= t
            &&& t * 100real <= 57real
            &&& is_little(((t * t) * 4real) * n - 1real, 80real)
            &&& (t * t) * 4real * 4real <= 5real
        }),
{
    let g = grains();
    let p = exact(part);
    lemma_half();
    lemma_sqrt_close(part);
    let s = part.sqrt();
    let r = exact(s);
    let rr = r * r;
    assert(rr * 100real >= 97real && rr <= 6real);
    lemma_squares_ordered(r, 3real);
    assert((r * 10real) * (r * 10real) == rr * 100real) by {
        lemma_regroup(r, 10real, r * 10real);
        lemma_regroup(r, r, 10real);
    }
    lemma_squares_ordered(9real, r * 10real);
    lemma_exact_ordered(s, zero());
    lemma_exact_constants();
    let h = exact(a_half()) / r;
    lemma_quotient_back(exact(a_half()), r);
    assert((h * r) * 2real == 1real);
    assert(h * 6real >= 1real && h * 9real <= 5real) by {
        if h <= 0real {
            lemma_scale_ordered(r, h, 0real);
        }
        lemma_scale_ordered(h, r, 3real);
        if h * 9real > 5real {
            lemma_scale_ordered(h, 9real, r * 10real);
            lemma_regroup(h, r, 10real);
        }
    }
    lemma_over_close(a_half(), s, 1real);
    let k = a_half().over(s);
    let t = exact(k);
    // Twice the factor times the root is one, but for a little.
    let o = ((t - h) * r) * 2real;
    lemma_size_of_product((t - h) * g, r, 1real, 3real);
    lemma_regroup(t - h, g, r);
    lemma_spread_minus(t, h, r);
    assert(size(o) * g <= 6real);
    let y = (t * r) * 2real;
    assert(y == 1real + o);
    lemma_spread(1real, o, y);
    lemma_spread(1real, o, o);
    let oo = o * o;
    lemma_size_of_product(o * g, o, 6real, 1real);
    lemma_regroup(o, g, o);
    assert(y * y == 1real + o + o + oo);
    lemma_size_of_product(o * g, o * g, 6real, 6real);
    lemma_regroup(o, g, o * g);
    lemma_regroup(o, o, g);
    assert((o * g) * (o * g) == (oo * g) * g);
    assert(size(y * y - 1real) * g <= 13real);
    let c = (t * t) * 4real;
    assert(y * y == c * rr) by {
        let m = t * r;
        lemma_regroup(t, r, m);
        lemma_regroup(r, t, r);
        lemma_swap(r, t);
        lemma_regroup(t, r, r);
        lemma_regroup(t, t, rr);
        lemma_swap(r, m);
        assert(m * m == (t * t) * rr);
        lemma_spread(m, m, y);
        lemma_spread(m, m, m);
        lemma_swap(m, y);
        assert(y == m + m);
        assert(y * y == (m * m) * 4real);
        let k = t * t;
        lemma_spread(k, k, rr);
        lemma_spread(k + k, k + k, rr);
        assert(c == (k + k) + (k + k));
        assert(c * rr == (k * rr) * 4real);
    }
    lemma_square(t);
    assert(c * 4real <= 5real) by {
        if c * 4real > 5real {
            lemma_scale_ordered(c, 97real, rr * 100real);
            lemma_regroup(c, rr, 100real);
        }
    }
    // So is the square of the factor times what it is the factor of.
    lemma_size_of_product(c * 4real, (p - rr) * g, 5real, 18real);
    lemma_regroup(c * 4real, p - rr, g);
    lemma_spread_minus(p, rr, c * 4real);
    lemma_size_of_product(c * 4real, (n - p) * g, 5real, 25real);
    lemma_regroup(c * 4real, n - p, g);
    lemma_spread_minus(n, p, c * 4real);
    lemma_regroup(c, 4real, p);
    lemma_regroup(c, 4real, rr);
    lemma_regroup(c, 4real, n);
    assert(size(c * p - c * rr) * g * 4real <= 90real);
    assert(size(c * n - c * p) * g * 4real <= 125real);
    assert(size(c * n - 1real) * g <= 80real);
    assert(t * 100real <= 57real);
    assert(0real <= t);
    assert(is_little(c * n - 1real, 80real));
}

/// A component of a rotation.
proof fn lemma_component(v: Scalar, e: real, k: Scalar)
    requires
        within(v, e, 25real),
        size(e) <= 5real,
        k.is_finite(),
        0real <= exact(k),
        exact(k) * 100real <= 57real,
    ensures
        within(v.times(k), e * exact(k), 20real),
        size(e * exact(k)) <= 3real,
        size(exact(v.times(k))) <= 3real,
{
    let t = exact(k);
    let g = grains();
    lemma_size_of_product(exact(v), t * 100real, 6real, 57real);
    lemma_regroup(exact(v), t, 100real);
    lemma_size_of_product(e, t * 100real, 5real, 57real);
    lemma_regroup(e, t, 100real);
    assert(size(exact(v)) * 1000real <= 5001real);
    lemma_size_of_product(exact(v) * 1000real, t * 100real, 5001real, 57real);
    lemma_regroup(exact(v), 1000real, t * 100real);
    lemma_regroup(exact(v), t, 100real);
    lemma_times_close(v, k, 3real);
    lemma_size_of_product((exact(v) - e) * g, t * 100real, 25real, 57real);
    lemma_regroup(exact(v) - e, g, t * 100real);
    lemma_regroup(exact(v) - e, t, 100real);
    lemma_spread_minus(exact(v), e, t);
}

/// A product of two components. `t` is the factor that they have in common, and `n` what
/// it is the factor of.
proof fn lemma_pair(u: real, v: real, t: real, j: real, k: real, jk: real, n: real)
    requires
        is_little(u - j * t, 20real),
        is_little(v - k * t, 20real),
        size(v) <= 3real,
        size(j * t) <= 3real,
        is_little(((t * t) * 4real) * n - 1real, 80real),
        (t * t) * 4real * 4real <= 5real,
        size(jk) <= 5real,
        size(j * k - n * jk) * grains() <= 1920real,
    ensures
        is_little((u * v) * 4real - jk, 3300real),
{
    let g = grains();
    let c = (t * t) * 4real;
    lemma_square(t);
    let (x, y) = (j * t, k * t);
    lemma_size_of_product((u - x) * g, v, 20real, 3real);
    lemma_regroup(u - x, g, v);
    lemma_spread_minus(u, x, v);
    lemma_size_of_product(x, (v - y) * g, 3real, 20real);
    lemma_regroup(x, v - y, g);
    lemma_spread_minus(v, y, x);
    assert(size(u * v - x * y) * g <= 120real);
    assert((x * y) * 4real == c * (j * k)) by {
        lemma_regroup(j, t, k * t);
        lemma_regroup(k, t, t);
        lemma_swap(t, k * t);
        lemma_regroup(j, k, t * t);
        lemma_swap(j * k, t * t);
        assert(x * y == (t * t) * (j * k));
        lemma_regroup(t * t, j * k, 4real);
        lemma_regroup(t * t, 4real, j * k);
    }
    let m = j * k - n * jk;
    lemma_size_of_product(c * 4real, m * g, 5real, 1920real);
    lemma_regroup(c * 4real, m, g);
    lemma_regroup(c, 4real, m);
    lemma_spread_minus(j * k, n * jk, c);
    assert(size(c * m) * g * 4real <= 9600real);
    lemma_regroup(c, n, jk);
    lemma_size_of_product((c * n - 1real) * g, jk, 80real, 5real);
    lemma_regroup(c * n - 1real, g, jk);
    lemma_spread_minus(c * n, 1real, jk);
}

/// The rotation that has given axes, where X is its biggest component.
proof fn lemma_from_axes_x(x: Vec3, y: Vec3, z: Vec3)
    requires
        are_given_axes(x, y, z),
        z.z.le(zero()) && y.y.minus(x.x).le(zero()),
    ensures
        has_axes(from_axes(x, y, z), x, z),
{
    let (a, b, c) = (exact(x.x), exact(x.y), exact(x.z));
    let w = Spot::of(z).cross(Spot::of(x));
    let (d, e, f) = (w.x, w.y, w.z);
    let (g, h, i) = (exact(z.x), exact(z.y), exact(z.z));
    let q = from_axes(x, y, z);
    lemma_three_axes(Spot::of(x), Spot::of(z), 40real);
    lemma_entries(x, y, z);
    lemma_exact_constants();
    let (rest, other) = (one().minus(z.z), y.y.minus(x.x));
    lemma_minus_within(one(), 1real, 0real, z.z, i, 0real, 3real);
    lemma_minus_within(y.y, e, 12real, x.x, a, 0real, 3real);
    lemma_minus_within(rest, 1real - i, 3real, other, e - a, 15real, 6real);
    let part = rest.minus(other);
    lemma_exact_ordered(z.z, zero());
    lemma_exact_ordered(other, zero());
    let n = 1real + a - e - i;
    assert(within(part, n, 25real));
    assert(n * 64real >= 63real && n <= 5real);
    lemma_factor(part, n);
    let k = a_half().over(part.sqrt());
    let t = exact(k);
    lemma_component(part, n, k);
    lemma_plus_within(x.y, b, 0real, y.x, d, 12real, 3real);
    lemma_component(x.y.plus(y.x), b + d, k);
    lemma_plus_within(x.z, c, 0real, z.x, g, 0real, 3real);
    lemma_component(x.z.plus(z.x), c + g, k);
    lemma_minus_within(y.z, f, 12real, z.y, h, 0real, 3real);
    lemma_component(y.z.minus(z.y), f - h, k);
    lemma_pair(exact(q.x), exact(q.x), t, n, n, n, n);
    lemma_minor_xyy(a, b, c, d, e, f, g, h, i, 320real);
    lemma_pair(exact(q.y), exact(q.y), t, b + d, b + d, 1real - a + e - i, n);
    lemma_minor_xzz(a, b, c, d, e, f, g, h, i, 320real);
    lemma_pair(exact(q.z), exact(q.z), t, c + g, c + g, 1real - a - e + i, n);
    lemma_minor_xww(a, b, c, d, e, f, g, h, i, 320real);
    lemma_pair(exact(q.w), exact(q.w), t, f - h, f - h, 1real + a + e + i, n);
    lemma_pair(exact(q.x), exact(q.z), t, n, c + g, c + g, n);
    lemma_minor_xyw(a, b, c, d, e, f, g, h, i, 320real);
    lemma_pair(exact(q.y), exact(q.w), t, b + d, f - h, g - c, n);
    lemma_minor_xyz(a, b, c, d, e, f, g, h, i, 320real);
    lemma_pair(exact(q.y), exact(q.z), t, b + d, c + g, f + h, n);
    lemma_pair(exact(q.x), exact(q.w), t, n, f - h, f - h, n);
}

/// The rotation that has given axes, where Y is its biggest component.
proof fn lemma_from_axes_y(x: Vec3, y: Vec3, z: Vec3)
    requires
        are_given_axes(x, y, z),
        z.z.le(zero()) && !y.y.minus(x.x).le(zero()),
    ensures
        has_axes(from_axes(x, y, z), x, z),
{
    let (a, b, c) = (exact(x.x), exact(x.y), exact(x.z));
    let w = Spot::of(z).cross(Spot::of(x));
    let (d, e, f) = (w.x, w.y, w.z);
    let (g, h, i) = (exact(z.x), exact(z.y), exact(z.z));
    let q = from_axes(x, y, z);
    lemma_three_axes(Spot::of(x), Spot::of(z), 40real);
    lemma_entries(x, y, z);
    lemma_exact_constants();
    let (rest, other) = (one().minus(z.z), y.y.minus(x.x));
    lemma_minus_within(one(), 1real, 0real, z.z, i, 0real, 3real);
    lemma_minus_within(y.y, e, 12real, x.x, a, 0real, 3real);
    lemma_plus_within(rest, 1real - i, 3real, other, e - a, 15real, 6real);
    let part = rest.plus(other);
    lemma_exact_ordered(z.z, zero());
    lemma_exact_ordered(other, zero());
    let n = 1real - a + e - i;
    assert(within(part, n, 25real));
    assert(n * 64real >= 63real && n <= 5real);
    lemma_factor(part, n);
    let k = a_half().over(part.sqrt());
    let t = exact(k);
    lemma_plus_within(x.y, b, 0real, y.x, d, 12real, 3real);
    lemma_component(x.y.plus(y.x), b + d, k);
    lemma_component(part, n, k);
    lemma_plus_within(y.z, f, 12real, z.y, h, 0real, 3real);
    lemma_component(y.z.plus(z.y), f + h, k);
    lemma_minus_within(z.x, g, 0real, x.z, c, 0real, 3real);
    lemma_component(z.x.minus(x.z), g - c, k);
    lemma_swap(1real + a - e - i, n);
    lemma_minor_xyy(a, b, c, d, e, f, g, h, i, 320real);
    lemma_pair(exact(q.x), exact(q.x), t, b + d, b + d, 1real + a - e - i, n);
    lemma_pair(exact(q.y), exact(q.y), t, n, n, n, n);
    lemma_minor_yzz(a, b, c, d, e, f, g, h, i, 320real);
    lemma_pair(exact(q.z), exact(q.z), t, f + h, f + h, 1real - a - e + i, n);
    lemma_minor_yww(a, b, c, d, e, f, g, h, i, 320real);
    lemma_pair(exact(q.w), exact(q.w), t, g - c, g - c, 1real + a + e + i, n);
    lemma_minor_yxz(a, b, c, d, e, f, g, h, i, 320real);
    lemma_pair(exact(q.x), exact(q.z), t, b + d, f + h, c + g, n);
    lemma_pair(exact(q.y), exact(q.w), t, n, g - c, g - c, n);
    lemma_pair(exact(q.y), exact(q.z), t, n, f + h, f + h, n);
    lemma_minor_yxw(a, b, c, d, e, f, g, h, i, 320real);
    lemma_pair(exact(q.x), exact(q.w), t, b + d, g - c, f - h, n);
}

/// The rotation that has given axes, where Z is its biggest component.
proof fn lemma_from_axes_z(x: Vec3, y: Vec3, z: Vec3)
    requires
        are_given_axes(x, y, z),
        !z.z.le(zero()) && y.y.plus(x.x).le(zero()),
    ensures
        has_axes(from_axes(x, y, z), x, z),
{
    let (a, b, c) = (exact(x.x), exact(x.y), exact(x.z));
    let w = Spot::of(z).cross(Spot::of(x));
    let (d, e, f) = (w.x, w.y, w.z);
    let (g, h, i) = (exact(z.x), exact(z.y), exact(z.z));
    let q = from_axes(x, y, z);
    lemma_three_axes(Spot::of(x), Spot::of(z), 40real);
    lemma_entries(x, y, z);
    lemma_exact_constants();
    let (rest, other) = (one().plus(z.z), y.y.plus(x.x));
    lemma_plus_within(one(), 1real, 0real, z.z, i, 0real, 3real);
    lemma_plus_within(y.y, e, 12real, x.x, a, 0real, 3real);
    lemma_minus_within(rest, 1real + i, 3real, other, e + a, 15real, 6real);
    let part = rest.minus(other);
    lemma_exact_ordered(z.z, zero());
    lemma_exact_ordered(other, zero());
    let n = 1real - a - e + i;
    assert(within(part, n, 25real));
    assert(n * 64real >= 63real && n <= 5real);
    lemma_factor(part, n);
    let k = a_half().over(part.sqrt());
    let t = exact(k);
    lemma_plus_within(x.z, c, 0real, z.x, g, 0real, 3real);
    lemma_component(x.z.plus(z.x), c + g, k);
    lemma_plus_within(y.z, f, 12real, z.y, h, 0real, 3real);
    lemma_component(y.z.plus(z.y), f + h, k);
    lemma_component(part, n, k);
    lemma_minus_within(x.y, b, 0real, y.x, d, 12real, 3real);
    lemma_component(x.y.minus(y.x), b - d, k);
    lemma_swap(1real + a - e - i, n);
    lemma_minor_xzz(a, b, c, d, e, f, g, h, i, 320real);
    lemma_pair(exact(q.x), exact(q.x), t, c + g, c + g, 1real + a - e - i, n);
    lemma_swap(1real - a + e - i, n);
    lemma_minor_yzz(a, b, c, d, e, f, g, h, i, 320real);
    lemma_pair(exact(q.y), exact(q.y), t, f + h, f + h, 1real - a + e - i, n);
    lemma_pair(exact(q.z), exact(q.z), t, n, n, n, n);
    lemma_minor_zww(a, b, c, d, e, f, g, h, i, 320real);
    lemma_pair(exact(q.w), exact(q.w), t, b - d, b - d, 1real + a + e + i, n);
    lemma_swap((c + g), n);
    lemma_pair(exact(q.x), exact(q.z), t, c + g, n, c + g, n);
    lemma_minor_zyw(a, b, c, d, e, f, g, h, i, 320real);
    lemma_pair(exact(q.y), exact(q.w), t, f + h, b - d, g - c, n);
    lemma_swap((f + h), n);
    lemma_pair(exact(q.y), exact(q.z), t, f + h, n, f + h, n);
    lemma_minor_zxw(a, b, c, d, e, f, g, h, i, 320real);
    lemma_pair(exact(q.x), exact(q.w), t, c + g, b - d, f - h, n);
}

/// The rotation that has given axes, where W is its biggest component.
proof fn lemma_from_axes_w(x: Vec3, y: Vec3, z: Vec3)
    requires
        are_given_axes(x, y, z),
        !z.z.le(zero()) && !y.y.plus(x.x).le(zero()),
    ensures
        has_axes(from_axes(x, y, z), x, z),
{
    let (a, b, c) = (exact(x.x), exact(x.y), exact(x.z));
    let w = Spot::of(z).cross(Spot::of(x));
    let (d, e, f) = (w.x, w.y, w.z);
    let (g, h, i) = (exact(z.x), exact(z.y), exact(z.z));
    let q = from_axes(x, y, z);
    lemma_three_axes(Spot::of(x), Spot::of(z), 40real);
    lemma_entries(x, y, z);
    lemma_exact_constants();
    let (rest, other) = (one().plus(z.z), y.y.plus(x.x));
    lemma_plus_within(one(), 1real, 0real, z.z, i, 0real, 3real);
    lemma_plus_within(y.y, e, 12real, x.x, a, 0real, 3real);
    lemma_plus_within(rest, 1real + i, 3real, other, e + a, 15real, 6real);
    let part = rest.plus(other);
    lemma_exact_ordered(z.z, zero());
    lemma_exact_ordered(other, zero());
    let n = 1real + a + e + i;
    assert(within(part, n, 25real));
    assert(n * 64real >= 63real && n <= 5real);
    lemma_factor(part, n);
    let k = a_half().over(part.sqrt());
    let t = exact(k);
    lemma_minus_within(y.z, f, 12real, z.y, h, 0real, 3real);
    lemma_component(y.z.minus(z.y), f - h, k);
    lemma_minus_within(z.x, g, 0real, x.z, c, 0real, 3real);
    lemma_component(z.x.minus(x.z), g - c, k);
    lemma_minus_within(x.y, b, 0real, y.x, d, 12real, 3real);
    lemma_component(x.y.minus(y.x), b - d, k);
    lemma_component(part, n, k);
    lemma_swap(1real + a - e - i, n);
    lemma_minor_xww(a, b, c, d, e, f, g, h, i, 320real);
    lemma_pair(exact(q.x), exact(q.x), t, f - h, f - h, 1real + a - e - i, n);
    lemma_swap(1real - a + e - i, n);
    lemma_minor_yww(a, b, c, d, e, f, g, h, i, 320real);
    lemma_pair(exact(q.y), exact(q.y), t, g - c, g - c, 1real - a + e - i, n);
    lemma_swap(1real - a - e + i, n);
    lemma_minor_zww(a, b, c, d, e, f, g, h, i, 320real);
    lemma_pair(exact(q.z), exact(q.z), t, b - d, b - d, 1real - a - e + i, n);
    lemma_pair(exact(q.w), exact(q.w), t, n, n, n, n);
    lemma_minor_wxz(a, b, c, d, e, f, g, h, i, 320real);
    lemma_pair(exact(q.x), exact(q.z), t, f - h, b - d, c + g, n);
    lemma_swap((g - c), n);
    lemma_pair(exact(q.y), exact(q.w), t, g - c, n, g - c, n);
    lemma_minor_wyz(a, b, c, d, e, f, g, h, i, 320real);
    lemma_pair(exact(q.y), exact(q.z), t, g - c, b - d, f + h, n);
    lemma_swap((f - h), n);
    lemma_pair(exact(q.x), exact(q.w), t, f - h, n, f - h, n);
}

/// The rotation that has given axes has them.
proof fn lemma_from_axes(x: Vec3, y: Vec3, z: Vec3)
    requires
        are_given_axes(x, y, z),
    ensures
        has_axes(from_axes(x, y, z), x, z),
{
    if z.z.le(zero()) {
        if y.y.minus(x.x).le(zero()) {
            lemma_from_axes_x(x, y, z);
        } else {
            lemma_from_axes_y(x, y, z);
        }
    } else {
        if y.y.plus(x.x).le(zero()) {
            lemma_from_axes_z(x, y, z);
        } else {
            lemma_from_axes_w(x, y, z);
        }
    }
}

/// Where a rotation looks that has given axes: against the last of them.
proof fn lemma_look(q: Quat, x: Vec3, z: Vec3)
    requires
        has_axes(q, x, z),
    ensures
        is_nearly_unit(q),
        ({
            let l = Turn::of(q).turned(Spot { x: 0real, y: 0real, z: -1real });
            &&& is_little(l.x + exact(z.x), 3300real)
            &&& is_little(l.y + exact(z.y), 3300real)
            &&& is_little(l.z + exact(z.z), 3300real)
        }),
{
    let t = Turn::of(q);
    let (u, v, m, w) = (exact(q.x), exact(q.y), exact(q.z), exact(q.w));
    let ahead = Spot { x: 0real, y: 0real, z: -1real };
    let l = t.turned(ahead);
    assert(t.axis.x == u && t.axis.y == v && t.axis.z == m && t.w == w);
    let k = w * w - t.axis.dot(t.axis);
    assert(ahead.dot(t.axis) == -m);
    let d = ahead.dot(t.axis) * 2real;
    assert(d == (-m) * 2real);
    let c = t.axis.cross(ahead);
    assert(c.x == -v);
    assert(c.y == u);
    assert(c.z == 0real);
    assert(u * d == -(u * m) * 2real) by {
        lemma_regroup(u, -m, 2real);
        lemma_opposite(u, m);
    }
    assert(v * d == -(v * m) * 2real) by {
        lemma_regroup(v, -m, 2real);
        lemma_opposite(v, m);
    }
    assert(m * d == -(m * m) * 2real) by {
        lemma_regroup(m, -m, 2real);
        lemma_opposite(m, m);
    }
    assert(c.x * (w * 2real) == -(v * w) * 2real) by {
        lemma_regroup(-v, w, 2real);
        lemma_swap(-v, w);
        lemma_opposite(w, v);
        lemma_swap(w, v);
    }
    assert(c.y * (w * 2real) == (u * w) * 2real) by {
        lemma_regroup(u, w, 2real);
    }
    lemma_nothing(c.z, w * 2real);
    assert(l.x == -(u * m) * 2real - (v * w) * 2real);
    assert(l.y == -(v * m) * 2real + (u * w) * 2real);
    assert(l.z == -k - (m * m) * 2real);
}

/// A length is close to the exact one: its square is off by eleven grains at most, as
/// parts of what it is.
proof fn lemma_length(v: Vec3)
    requires
        v.is_finite(),
        Spot::of(v).dot(Spot::of(v)) * 1099511627776real >= 1real,
        Spot::of(v).dot(Spot::of(v)) <= 4real,
    ensures
        ({
            let n = Spot::of(v).dot(Spot::of(v));
            let r = exact(v.length());
            &&& v.length().is_finite()
            &&& 0real < r <= 3real
            &&& r * 1099511627776real >= 1real
            &&& size(r * r - n) * grains() <= n * 11real
        }),
{
    let n = Spot::of(v).dot(Spot::of(v));
    let (x, y, z) = (exact(v.x), exact(v.y), exact(v.z));
    lemma_square(x);
    lemma_square(y);
    lemma_square(z);
    lemma_times_close(v.x, v.x, n);
    lemma_times_close(v.y, v.y, n);
    lemma_times_close(v.z, v.z, n);
    let (a, b, c) = (v.x.times(v.x), v.y.times(v.y), v.z.times(v.z));
    lemma_plus_within(a, x * x, n, b, y * y, n, n * 2real);
    lemma_plus_within(a.plus(b), x * x + y * y, n * 4real, c, z * z, n, n * 2real);
    let s = v.dot(v);
    assert(s == a.plus(b).plus(c));
    assert(within(s, n, n * 7real));
    lemma_sqrt_close(s);
    let r = exact(s.sqrt());
    assert((r * r) * 2real <= n * 3real && (r * r) * 2real >= n);
    lemma_squares_ordered(r, 3real);
    if r * 1099511627776real < 1real {
        lemma_scale_ordered(r, r * 1099511627776real, 1real);
        lemma_regroup(r, r, 1099511627776real);
        assert((r * r) * 1099511627776real <= r);
        assert(r * r >= n / 2real);
    }
}

/// One over a length.
proof fn lemma_reciprocal(s: Scalar)
    requires
        s.is_finite(),
        0real < exact(s) <= 3real,
        exact(s) * 1099511627776real >= 1real,
    ensures
        one().over(s).is_finite(),
        exact(one().over(s)) > 0real,
        is_little(exact(one().over(s)) * exact(s) - 1real, 1real),
{
    let r = exact(s);
    lemma_exact_constants();
    lemma_exact_ordered(s, zero());
    let h = exact(one()) / r;
    lemma_quotient_back(exact(one()), r);
    assert(h * r == 1real);
    assert(h * 3real >= 1real) by {
        if h < 0real {
            lemma_scale_ordered(r, h, 0real);
        }
        lemma_scale_ordered(h, r, 3real);
    }
    assert(h <= 1099511627776real) by {
        lemma_scale_ordered(h, 1real, r * 1099511627776real);
        lemma_regroup(h, r, 1099511627776real);
    }
    lemma_over_close(one(), s, h);
    let t = exact(one().over(s));
    let g = grains();
    lemma_size_of_product((t - h) * g, r, h, r);
    lemma_regroup(t - h, g, r);
    lemma_spread_minus(t, h, r);
    if t <= 0real {
        lemma_scale_ordered(r, t, 0real);
    }
}

/// What is `k` times as long, where that is one over its length, is as long as one. `n`
/// is the square of its length, and `r` the length as it came out.
proof fn lemma_shrunk(n: real, r: real, k: real)
    requires
        n >= 0real,
        size(r * r - n) * grains() <= n * 11real,
        is_little(k * r - 1real, 1real),
    ensures
        is_little((k * k) * n - 1real, 15real),
{
    let g = grains();
    let y = k * r;
    let o = y - 1real;
    assert(size(y * y - 1real) * g <= 3real) by {
        lemma_spread(1real, o, y);
        lemma_spread(1real, o, o);
        lemma_size_of_product(o * g, o, 1real, 1real);
        lemma_regroup(o, g, o);
    }
    let kk = k * k;
    let rr = r * r;
    assert(y * y == kk * rr) by {
        lemma_regroup(k, r, y);
        lemma_regroup(r, k, r);
        lemma_regroup(k, r, r);
        lemma_swap(r, y);
        lemma_regroup(k, k, rr);
    }
    let p = kk * n;
    lemma_square(k);
    lemma_size_of_product(kk, (n - rr) * g, kk, n * 11real);
    lemma_regroup(kk, n - rr, g);
    lemma_spread_minus(n, rr, kk);
    lemma_regroup(kk, n, 11real);
    assert(size(p - y * y) * g <= p * 11real);
}

/// Whether `u` is `v` made `k` times as long, and as long as one.
pub open spec fn is_direction(u: Vec3, v: Vec3, k: real) -> bool {
    &&& v.is_finite()
    &&& is_little((k * k) * Spot::of(v).dot(Spot::of(v)) - 1real, 15real)
    &&& within(u.x, exact(v.x) * k, 2real)
    &&& within(u.y, exact(v.y) * k, 2real)
    &&& within(u.z, exact(v.z) * k, 2real)
}

/// The coordinates of what was made as long as one.
proof fn lemma_lengthened(v: Spot, k: real)
    requires
        is_little((k * k) * v.dot(v) - 1real, 15real),
    ensures
        v.scale(k).dot(v.scale(k)) == (k * k) * v.dot(v),
        size(v.x * k) * 64real <= 65real,
        size(v.y * k) * 64real <= 65real,
        size(v.z * k) * 64real <= 65real,
{
    let u = v.scale(k);
    lemma_dot_scale(v, k, u);
    lemma_dot_swap(v, u);
    lemma_dot_scale(v, k, v);
    let n = v.dot(v);
    assert(u.dot(u) == k * (k * n));
    lemma_regroup(k, k, n);
    lemma_axis_parts(u, 15real);
}

/// A direction is as long as one.
pub proof fn lemma_direction_length(u: Vec3, v: Vec3, k: real)
    requires
        is_direction(u, v, k),
    ensures
        is_little(Spot::of(u).dot(Spot::of(u)) - 1real, 40real),
{
    let (a, b) = (Spot::of(u), Spot::of(v).scale(k));
    lemma_lengthened(Spot::of(v), k);
    let d = a.minus(b);
    lemma_dot_minus(a, b, a);
    lemma_dot_minus(a, b, b);
    lemma_dot_swap(a, b);
    lemma_close_product(d, a, 2real);
    lemma_close_product(d, b, 2real);
}

/// What is a little in each coordinate has little in common with an axis.
proof fn lemma_close_product(d: Spot, a: Spot, e: real)
    requires
        is_little(d.x, e),
        is_little(d.y, e),
        is_little(d.z, e),
        size(a.x) * 60real <= 63real,
        size(a.y) * 60real <= 63real,
        size(a.z) * 60real <= 63real,
    ensures
        size(d.dot(a)) * grains() * 60real <= e * 189real,
{
    let g = grains();
    lemma_size_of_product(d.x * g, a.x * 60real, e, 63real);
    lemma_size_of_product(d.y * g, a.y * 60real, e, 63real);
    lemma_size_of_product(d.z * g, a.z * 60real, e, 63real);
    assert((d.x * g) * (a.x * 60real) == ((d.x * a.x) * g) * 60real) by {
        lemma_regroup(d.x * g, a.x, 60real);
        lemma_regroup(d.x, g, a.x);
    }
    assert((d.y * g) * (a.y * 60real) == ((d.y * a.y) * g) * 60real) by {
        lemma_regroup(d.y * g, a.y, 60real);
        lemma_regroup(d.y, g, a.y);
    }
    assert((d.z * g) * (a.z * 60real) == ((d.z * a.z) * g) * 60real) by {
        lemma_regroup(d.z * g, a.z, 60real);
        lemma_regroup(d.z, g, a.z);
    }
}

/// A direction that was divided by its length.
proof fn lemma_directed(f: Vec3)
    requires
        f.is_finite(),
        Spot::of(f).dot(Spot::of(f)) * 1099511627776real >= 1real,
        Spot::of(f).dot(Spot::of(f)) <= 4real,
    ensures
        f.direction() is Some,
        is_direction(f.direction()->0, f, 1real / exact(f.length())),
        exact(f.length()) > 0real,
        (1real / exact(f.length())) * exact(f.length()) == 1real,
{
    let s = f.length();
    let r = exact(s);
    let h = 1real / r;
    lemma_length(f);
    lemma_quotient_back(1real, r);
    lemma_shrunk(Spot::of(f).dot(Spot::of(f)), r, h);
    lemma_exact_constants();
    lemma_exact_ordered(zero(), s);
    lemma_lengthened(Spot::of(f), h);
    lemma_directed_part(f.x, s, h);
    lemma_directed_part(f.y, s, h);
    lemma_directed_part(f.z, s, h);
}

proof fn lemma_directed_part(a: Scalar, s: Scalar, h: real)
    requires
        a.is_finite(),
        s.is_finite(),
        exact(s) > 0real,
        h * exact(s) == 1real,
        size(exact(a) * h) * 64real <= 65real,
    ensures
        within(a.over(s), exact(a) * h, 2real),
{
    let (x, r) = (exact(a), exact(s));
    lemma_exact_constants();
    lemma_exact_ordered(s, zero());
    lemma_quotient_back(x, r);
    assert(x / r == x * h) by {
        lemma_regroup(x, h, r);
        lemma_swap(x / r, r);
        lemma_swap(x * h, r);
        lemma_cancel(r, x / r, x * h);
        lemma_cancel(r, x * h, x / r);
    }
    lemma_over_close(a, s, 2real);
}

/// The direction of what is as long as one.
proof fn lemma_forward(f: Vec3)
    requires
        f.is_finite(),
        is_little(Spot::of(f).dot(Spot::of(f)) - 1real, 3000real),
    ensures
        f.direction() is Some,
        is_direction(f.direction()->0, f, 1real / exact(f.length())),
        within(f.direction()->0.x, exact(f.x), 1810real),
        within(f.direction()->0.y, exact(f.y), 1810real),
        within(f.direction()->0.z, exact(f.z), 1810real),
{
    let g = grains();
    let n = Spot::of(f).dot(Spot::of(f));
    let s = f.length();
    let r = exact(s);
    let h = 1real / r;
    lemma_length(f);
    lemma_directed(f);
    let rr = r * r;
    assert((r * 10real) * (r * 10real) == rr * 100real) by {
        lemma_regroup(r, 10real, r * 10real);
        lemma_regroup(r, r, 10real);
    }
    lemma_squares_ordered(9real, r * 10real);
    assert(0real <= h && h * 9real <= 10real) by {
        if h < 0real {
            lemma_scale_ordered(r, h, 0real);
        }
        lemma_scale_ordered(h, 9real, r * 10real);
        lemma_regroup(h, r, 10real);
    }
    assert(size(r - 1real) * g <= 1600real) by {
        lemma_spread(r, 1real, r - 1real);
        lemma_spread_minus(r, 1real, r);
        lemma_swap(r + 1real, r - 1real);
        assert((r - 1real) * (r + 1real) == rr - 1real);
        assert(size(rr - 1real) * g <= 3012real);
        if r >= 1real {
            lemma_scale_ordered(r - 1real, 19real, (r + 1real) * 10real);
            lemma_regroup(r - 1real, r + 1real, 10real);
        } else {
            lemma_scale_ordered(1real - r, 19real, (r + 1real) * 10real);
            lemma_regroup(1real - r, r + 1real, 10real);
            lemma_spread_minus(1real, r, r + 1real);
            lemma_spread_minus(r, 1real, r + 1real);
            assert((1real - r) * (r + 1real) == 1real - rr);
        }
    }
    assert(size(h - 1real) * g * 9real <= 16000real) by {
        lemma_spread_minus(1real, r, h);
        lemma_size_of_product((1real - r) * g, h * 9real, 1600real, 10real);
        lemma_regroup((1real - r) * g, h, 9real);
        lemma_regroup(1real - r, g, h);
        lemma_swap(1real - r, h);
    }
    lemma_square(exact(f.x));
    lemma_square(exact(f.y));
    lemma_square(exact(f.z));
    let d = f.direction()->0;
    lemma_forward_part(d.x, exact(f.x), h);
    lemma_forward_part(d.y, exact(f.y), h);
    lemma_forward_part(d.z, exact(f.z), h);
}

proof fn lemma_forward_part(a: Scalar, x: real, h: real)
    requires
        within(a, x * h, 2real),
        size(h - 1real) * grains() * 9real <= 16000real,
        (x * x) * 64real <= 65real,
    ensures
        within(a, x, 1810real),
{
    let g = grains();
    lemma_unit_part(x);
    lemma_unit_product((h - 1real) * g * 9real, x, 16000real, 65real);
    assert(((h - 1real) * g * 9real) * x == ((x * h - x) * g) * 9real) by {
        lemma_regroup((h - 1real) * g, 9real, x);
        lemma_regroup(h - 1real, g, x);
        lemma_spread_minus(h, 1real, x);
    }
}

/// Straight up.
spec fn upwards() -> Vec3 {
    Vec3 { x: zero(), y: one(), z: zero() }
}

/// Whether `o` is what is left of nothing.
spec fn is_least(o: real) -> bool {
    o * limit() == 1real
}

/// Straight up, as a direction.
proof fn lemma_top(o: real)
    requires
        is_least(o),
    ensures
        upwards().direction() is Some,
        ({
            let t = upwards().direction()->0;
            &&& within(t.x, 0real, o)
            &&& within(t.y, 1real, 1810real)
            &&& within(t.z, 0real, o)
        }),
{
    let v = upwards();
    lemma_exact_constants();
    let a = Spot::of(v);
    assert(a == Spot { x: 0real, y: 1real, z: 0real });
    lemma_nothing(a.x, a.x);
    lemma_nothing(a.z, a.z);
    assert(a.y * a.y == 1real);
    assert(a.dot(a) == 1real);
    lemma_forward(v);
    lemma_length(v);
    let s = v.length();
    let r = exact(s);
    lemma_exact_ordered(s, zero());
    lemma_quotient_back(exact(zero()), r);
    assert(exact(zero()) / r == 0real) by {
        let q = exact(zero()) / r;
        lemma_swap(q, r);
        lemma_cancel(r, q, 0real);
        lemma_cancel(r, 0real, q);
    }
    lemma_over_close(zero(), s, o);
}

/// A product with hardly anything.
proof fn lemma_hardly(a: Scalar, b: Scalar, o: real)
    requires
        is_least(o),
        a.is_finite(),
        size(exact(a)) <= 2real,
        within(b, 0real, o),
    ensures
        within(a.times(b), exact(a) * exact(b), o * 2real),
        within(b.times(a), exact(b) * exact(a), o * 2real),
        size(exact(a) * exact(b)) * grains() <= o * 2real,
        size(exact(b) * exact(a)) * grains() <= o * 2real,
{
    let (x, y) = (exact(a), exact(b));
    lemma_size_of_product(x, y * grains(), 2real, o);
    lemma_regroup(x, y, grains());
    lemma_swap(x, y);
    lemma_times_close(a, b, o * 2real);
    lemma_times_close(b, a, o * 2real);
}

/// Whether `p` is how far a direction reaches along the ground.
spec fn is_level_reach(b: Vec3, p: real) -> bool {
    &&& b.is_finite()
    &&& is_little(Spot::of(b).dot(Spot::of(b)) - 1real, 40real)
    &&& size(exact(b.x)) <= p
    &&& size(exact(b.z)) <= p
    &&& size(exact(b.x)) == p || size(exact(b.z)) == p
    &&& p * 4096real >= 1real
}

/// What lies across a direction on the ground.
proof fn lemma_side(t: Vec3, b: Vec3, p: real, o: real)
    requires
        is_least(o),
        within(t.x, 0real, o),
        within(t.y, 1real, 1810real),
        within(t.z, 0real, o),
        is_level_reach(b, p),
    ensures
        ({
            let c = t.cross(b);
            &&& within(c.x, exact(t.y) * exact(b.z), p * 6real)
            &&& within(c.y, 0real, p)
            &&& within(c.z, -(exact(t.y) * exact(b.x)), p * 6real)
        }),
{
    let (tx, ty, tz) = (exact(t.x), exact(t.y), exact(t.z));
    let (bx, by, bz) = (exact(b.x), exact(b.y), exact(b.z));
    lemma_axis_parts(Spot::of(b), 40real);
    lemma_hardly(b.y, t.z, o);
    lemma_hardly(b.x, t.z, o);
    lemma_hardly(b.z, t.x, o);
    lemma_hardly(b.y, t.x, o);
    lemma_size_of_product(ty, bz, 2real, p);
    lemma_size_of_product(ty, bx, 2real, p);
    lemma_swap(ty, bx);
    lemma_times_close(t.y, b.z, p * 2real);
    lemma_times_close(b.x, t.y, p * 2real);
    lemma_minus_within(
        t.y.times(b.z),
        ty * bz,
        p * 2real,
        b.y.times(t.z),
        by * tz,
        o * 2real,
        p * 3real,
    );
    lemma_minus_within(
        t.z.times(b.x),
        tz * bx,
        o * 2real,
        b.z.times(t.x),
        bz * tx,
        o * 2real,
        o * 8real,
    );
    lemma_minus_within(
        t.x.times(b.y),
        tx * by,
        o * 2real,
        b.x.times(t.y),
        bx * ty,
        p * 2real,
        p * 3real,
    );
}

/// What lies across is as long as the direction reaches along the ground.
proof fn lemma_side_length(t: Vec3, b: Vec3, p: real, o: real)
    requires
        is_least(o),
        within(t.x, 0real, o),
        within(t.y, 1real, 1810real),
        within(t.z, 0real, o),
        is_level_reach(b, p),
    ensures
        ({
            let c = Spot::of(t.cross(b));
            &&& c.dot(c) * 100real >= (p * p) * 96real
            &&& c.dot(c) * 1099511627776real >= 1real
            &&& c.dot(c) <= 4real
        }),
{
    let (ty, bx, bz) = (exact(t.y), exact(b.x), exact(b.z));
    lemma_side(t, b, p, o);
    lemma_axis_parts(Spot::of(b), 40real);
    let c = Spot::of(t.cross(b));
    lemma_size_of_product((ty - 1real) * 100real, bz, 1real, p);
    lemma_size_of_product((ty - 1real) * 100real, bx, 1real, p);
    lemma_regroup(ty - 1real, 100real, bz);
    lemma_regroup(ty - 1real, 100real, bx);
    lemma_spread_minus(ty, 1real, bz);
    lemma_spread_minus(ty, 1real, bx);
    assert(size(c.x - bz) * 100real <= p * 2real);
    assert(size(c.z + bx) * 100real <= p * 2real);
    lemma_square(c.x);
    lemma_square(c.y);
    lemma_square(c.z);
    lemma_squares_ordered(c.x * 8real, 9real);
    lemma_squares_ordered(c.y, 1real);
    lemma_squares_ordered(c.z * 8real, 9real);
    lemma_regroup(c.x, 8real, c.x * 8real);
    lemma_regroup(c.x, c.x, 8real);
    lemma_regroup(c.z, 8real, c.z * 8real);
    lemma_regroup(c.z, c.z, 8real);
    let m = if size(bx) == p {
        c.z
    } else {
        c.x
    };
    assert(size(m) * 100real >= p * 98real);
    let d = size(m) * 100real;
    lemma_squares_ordered(p * 98real, d);
    assert(d * d == (m * m) * 10000real) by {
        lemma_regroup(m, 100real, m * 100real);
        lemma_regroup(m, m, 100real);
        lemma_opposite(m * 100real, m * 100real);
        lemma_opposite(-(m * 100real), m * 100real);
        lemma_swap(-(m * 100real), m * 100real);
    }
    assert((p * 98real) * (p * 98real) == (p * p) * 9604real) by {
        lemma_regroup(p, 98real, p * 98real);
        lemma_regroup(p, p, 98real);
    }
    assert((p * p) * 16777216real >= 1real) by {
        lemma_squares_ordered(1real, p * 4096real);
        lemma_regroup(p, 4096real, p * 4096real);
        lemma_regroup(p, p, 4096real);
    }
}

/// What lies across has little in common with what it lies across.
proof fn lemma_side_across(t: Vec3, b: Vec3, p: real, o: real)
    requires
        is_least(o),
        within(t.x, 0real, o),
        within(t.y, 1real, 1810real),
        within(t.z, 0real, o),
        is_level_reach(b, p),
    ensures
        size(Spot::of(t.cross(b)).dot(Spot::of(b))) * grains() <= p * 14real,
{
    let g = grains();
    let (ty, bx, by, bz) = (exact(t.y), exact(b.x), exact(b.y), exact(b.z));
    lemma_side(t, b, p, o);
    lemma_axis_parts(Spot::of(b), 40real);
    let c = Spot::of(t.cross(b));
    let (u, v) = (c.x - ty * bz, c.z + ty * bx);
    lemma_unit_product(u * g, bx, p * 6real, 65real);
    lemma_regroup(u, g, bx);
    lemma_spread_minus(c.x, ty * bz, bx);
    lemma_unit_product(c.y * g, by, p, 65real);
    lemma_regroup(c.y, g, by);
    lemma_unit_product(v * g, bz, p * 6real, 65real);
    lemma_regroup(v, g, bz);
    lemma_spread(c.z, ty * bx, bz);
    lemma_regroup(ty, bz, bx);
    lemma_regroup(ty, bx, bz);
    lemma_swap(bx, bz);
}

/// A direction that was scaled by one over its length.
pub proof fn lemma_scaled(c: Vec3)
    requires
        c.is_finite(),
        Spot::of(c).dot(Spot::of(c)) * 1099511627776real >= 1real,
        Spot::of(c).dot(Spot::of(c)) <= 4real,
    ensures
        ({
            let k = one().over(c.length());
            &&& k.is_finite()
            &&& k.gt(zero())
            &&& exact(k) > 0real
            &&& is_direction(c.scale(k), c, exact(k))
        }),
{
    let e = Spot::of(c);
    lemma_length(c);
    lemma_reciprocal(c.length());
    let k = one().over(c.length());
    let h = exact(k);
    lemma_shrunk(e.dot(e), exact(c.length()), h);
    lemma_exact_constants();
    lemma_exact_ordered(zero(), k);
    lemma_lengthened(e, h);
    lemma_times_close(c.x, k, 2real);
    lemma_times_close(c.y, k, 2real);
    lemma_times_close(c.z, k, 2real);
}

/// What has little in common with an axis has little in common when scaled.
proof fn lemma_scaled_across(right: Vec3, c: Vec3, h: real, b: Vec3)
    requires
        is_direction(right, c, h),
        h >= 0real,
        is_little(Spot::of(b).dot(Spot::of(b)) - 1real, 40real),
        h * (size(Spot::of(c).dot(Spot::of(b))) * grains()) <= 30real,
    ensures
        are_two_axes(Spot::of(right), Spot::of(b), 40real),
{
    let g = grains();
    lemma_direction_length(right, c, h);
    let (x, a, z) = (Spot::of(right), Spot::of(c).scale(h), Spot::of(b));
    lemma_axis_parts(z, 40real);
    lemma_dot_minus(x, a, z);
    lemma_close_product(x.minus(a), z, 2real);
    lemma_dot_scale(Spot::of(c), h, z);
    let q = Spot::of(c).dot(z);
    lemma_size_of_product(h, q * g, h, size(q) * g);
    lemma_regroup(h, q, g);
}

/// The axis to the right.
proof fn lemma_right(t: Vec3, b: Vec3, p: real, o: real)
    requires
        is_least(o),
        within(t.x, 0real, o),
        within(t.y, 1real, 1810real),
        within(t.z, 0real, o),
        is_level_reach(b, p),
    ensures
        ({
            let right = direction_or_across(t.cross(b), t);
            &&& right.is_finite()
            &&& are_two_axes(Spot::of(right), Spot::of(b), 40real)
        }),
{
    let c = t.cross(b);
    let e = Spot::of(c);
    let n = e.dot(e);
    lemma_side(t, b, p, o);
    lemma_side_length(t, b, p, o);
    lemma_scaled(c);
    let h = exact(one().over(c.length()));
    lemma_side_across(t, b, p, o);
    let m = h * p;
    assert(m * 10real <= 11real) by {
        let hh = h * h;
        assert(m * m == hh * (p * p)) by {
            lemma_regroup(h, p, m);
            lemma_regroup(p, h, p);
            lemma_regroup(h, p, p);
            lemma_swap(p, m);
            lemma_regroup(h, h, p * p);
        }
        lemma_square(h);
        lemma_scale_ordered(hh, (p * p) * 96real, n * 100real);
        lemma_regroup(hh, p * p, 96real);
        lemma_regroup(hh, n, 100real);
        lemma_squares_ordered(m * 10real, 11real);
        lemma_regroup(m, 10real, m * 10real);
        lemma_regroup(m, m, 10real);
    }
    let q = size(e.dot(Spot::of(b))) * grains();
    lemma_scale_ordered(h, q, p * 14real);
    lemma_regroup(h, p, 14real);
    lemma_scaled_across(c.scale(one().over(c.length())), c, h, b);
}

/// The axis to the right of a direction that is almost straight up or down.
proof fn lemma_right_of_steep(t: Vec3, b: Vec3)
    requires
        t.is_finite(),
        b.is_finite(),
        is_little(Spot::of(t).dot(Spot::of(t)) - 1real, 40real),
        is_little(Spot::of(b).dot(Spot::of(b)) - 1real, 40real),
        size(Spot::of(t).dot(Spot::of(b))) * 8real <= 1real,
    ensures
        ({
            let right = direction_or_across(t.cross(b), t);
            &&& right.is_finite()
            &&& are_two_axes(Spot::of(right), Spot::of(b), 40real)
        }),
{
    let g = grains();
    let c = t.cross(b);
    let (u, v, e) = (Spot::of(t), Spot::of(b), Spot::of(t).cross(Spot::of(b)));
    let m = u.dot(v);
    assert(e.dot(e) * 64real <= 65real && e.dot(e) * 100real >= 98real) by {
        let (n, k) = (u.dot(u), v.dot(v));
        lemma_across_dot(u, v, v);
        lemma_dot_swap(u, v);
        lemma_square(m);
        lemma_squares_ordered(m * 8real, 1real);
        lemma_regroup(m, 8real, m * 8real);
        lemma_regroup(m, m, 8real);
        lemma_size_of_product((n - 1real) * g, k, 40real, 2real);
        lemma_regroup(n - 1real, g, k);
        lemma_spread_minus(n, 1real, k);
    }
    lemma_axis_parts(u, 40real);
    lemma_axis_parts(v, 40real);
    lemma_square(e.x);
    lemma_square(e.y);
    lemma_square(e.z);
    lemma_unit_part(e.x);
    lemma_unit_part(e.y);
    lemma_unit_part(e.z);
    lemma_across_axes_part(t.y, b.z, b.y, t.z);
    lemma_across_axes_part(t.z, b.x, b.z, t.x);
    lemma_across_axes_part(t.x, b.y, b.x, t.y);
    let x = Spot::of(c);
    let d = x.minus(e);
    lemma_dot_minus(x, e, x);
    lemma_dot_minus(x, e, e);
    lemma_dot_swap(x, e);
    lemma_close_product(d, x, 6real);
    lemma_close_product(d, e, 6real);
    let n = x.dot(x);
    assert(n * 100real >= 97real && n <= 4real);
    lemma_scaled(c);
    let h = exact(one().over(c.length()));
    assert(h * 10real <= 11real) by {
        let hh = h * h;
        lemma_square(h);
        lemma_scale_ordered(hh, 97real, n * 100real);
        lemma_regroup(hh, n, 100real);
        lemma_squares_ordered(h * 10real, 11real);
        lemma_regroup(h, 10real, h * 10real);
        lemma_regroup(h, h, 10real);
    }
    lemma_dot_minus(x, e, v);
    lemma_close_product(d, v, 6real);
    assert(e.dot(v) == 0real) by {
        lemma_regroup(u.y, v.z, v.x);
        lemma_regroup(u.z, v.y, v.x);
        lemma_spread_minus(u.y * v.z, u.z * v.y, v.x);
        lemma_regroup(u.z, v.x, v.y);
        lemma_regroup(u.x, v.z, v.y);
        lemma_spread_minus(u.z * v.x, u.x * v.z, v.y);
        lemma_regroup(u.x, v.y, v.z);
        lemma_regroup(u.y, v.x, v.z);
        lemma_spread_minus(u.x * v.y, u.y * v.x, v.z);
        lemma_swap(v.x, v.y);
        lemma_swap(v.x, v.z);
        lemma_swap(v.y, v.z);
    }
    let q = size(x.dot(v)) * g;
    assert(q <= 19real);
    lemma_scale_ordered(h, q, 19real);
    lemma_scaled_across(c.scale(one().over(c.length())), c, h, b);
}

/// The axis upwards lies across the other two.
proof fn lemma_across_axes(z: Vec3, x: Vec3)
    requires
        x.is_finite(),
        z.is_finite(),
        are_two_axes(Spot::of(x), Spot::of(z), 40real),
    ensures
        are_given_axes(x, z.cross(x), z),
{
    lemma_axis_parts(Spot::of(x), 40real);
    lemma_axis_parts(Spot::of(z), 40real);
    lemma_third_length(Spot::of(x), Spot::of(z), 40real);
    lemma_axis_parts(Spot::of(z).cross(Spot::of(x)), 120real);
    lemma_across_axes_part(z.y, x.z, x.y, z.z);
    lemma_across_axes_part(z.z, x.x, x.z, z.x);
    lemma_across_axes_part(z.x, x.y, x.x, z.y);
}

proof fn lemma_across_axes_part(a: Scalar, b: Scalar, c: Scalar, d: Scalar)
    requires
        a.is_finite(),
        b.is_finite(),
        c.is_finite(),
        d.is_finite(),
        size(exact(a)) * 64real <= 65real,
        size(exact(b)) * 64real <= 65real,
        size(exact(c)) * 64real <= 65real,
        size(exact(d)) * 64real <= 65real,
        size(exact(a) * exact(b) - exact(d) * exact(c)) * 64real <= 65real,
    ensures
        within(a.times(b).minus(c.times(d)), exact(a) * exact(b) - exact(d) * exact(c), 6real),
{
    let (x, y) = (exact(a) * exact(b), exact(c) * exact(d));
    lemma_swap(exact(c), exact(d));
    lemma_unit_product(exact(a), exact(b), 65real / 64real, 65real);
    lemma_quotient_back(65real, 64real);
    lemma_unit_product(exact(c), exact(d), 65real / 64real, 65real);
    lemma_times_close(a, b, 2real);
    lemma_times_close(c, d, 2real);
    lemma_minus_within(a.times(b), x, 2real, c.times(d), y, 2real, 2real);
}

/// Whether a direction is neither straight up nor straight down.
pub open spec fn is_level_enough(f: Vec3) -> bool {
    size(exact(f.x)) * 2048real >= 1real || size(exact(f.z)) * 2048real >= 1real
}

/// What lies behind a direction that is as long as one.
proof fn lemma_behind(f: Vec3)
    requires
        f.is_finite(),
        is_little(Spot::of(f).dot(Spot::of(f)) - 1real, 3000real),
    ensures
        f.direction() is Some,
        ({
            let b = f.direction()->0.neg();
            &&& within(b.x, -exact(f.x), 1810real)
            &&& within(b.y, -exact(f.y), 1810real)
            &&& within(b.z, -exact(f.z), 1810real)
            &&& is_little(Spot::of(b).dot(Spot::of(b)) - 1real, 40real)
        }),
{
    lemma_forward(f);
    let d = f.direction()->0;
    lemma_direction_length(d, f, 1real / exact(f.length()));
    let b = d.neg();
    lemma_neg_close(d.x);
    lemma_neg_close(d.y);
    lemma_neg_close(d.z);
    let (z, e) = (Spot::of(b), Spot::of(d));
    assert(z.dot(z) == e.dot(e)) by {
        lemma_opposite(-e.x, e.x);
        lemma_swap(-e.x, e.x);
        lemma_opposite(e.x, e.x);
        lemma_opposite(-e.y, e.y);
        lemma_swap(-e.y, e.y);
        lemma_opposite(e.y, e.y);
        lemma_opposite(-e.z, e.z);
        lemma_swap(-e.z, e.z);
        lemma_opposite(e.z, e.z);
    }
}

/// A rotation with the axes that go with a direction looks along it.
proof fn lemma_turned_along(f: Vec3, right: Vec3)
    requires
        f.is_finite(),
        is_little(Spot::of(f).dot(Spot::of(f)) - 1real, 3000real),
        f.direction() is Some,
        right.is_finite(),
        are_two_axes(Spot::of(right), Spot::of(f.direction()->0.neg()), 40real),
    ensures
        ({
            let b = f.direction()->0.neg();
            let q = from_axes(right, b.cross(right), b);
            let looks = q.rotate(Vec3 { x: zero(), y: zero(), z: one().neg() });
            &&& looks.is_finite()
            &&& close(Spot::of(looks), Spot::of(f), 9100real)
        }),
{
    let b = f.direction()->0.neg();
    let q = from_axes(right, b.cross(right), b);
    lemma_behind(f);
    lemma_across_axes(b, right);
    lemma_from_axes(right, b.cross(right), b);
    lemma_look(q, right, b);
    // What looks ahead is turned along the direction.
    let v = Vec3 { x: zero(), y: zero(), z: one().neg() };
    lemma_exact_constants();
    lemma_neg_close(one());
    let ahead = Spot { x: 0real, y: 0real, z: -1real };
    assert(Spot::of(v) == ahead);
    lemma_ahead_close(-1real, grains());
    let s = 1real / 64real;
    lemma_quotient_back(1real, 64real);
    lemma_close_wider(ahead, origin(), grains(), (s * 65real) * grains());
    lemma_reach_close(ahead, s * 65real);
    lemma_rotate_close(q, v, s);
    let looks = Spot::of(q.rotate(v));
    lemma_close_parts(looks, Turn::of(q).turned(ahead), s * 4146real);
    lemma_parts_close(looks, Spot::of(f), 5200real, 9100real);
}

/// A rotation that was made to look along a direction looks along it, with straight up
/// for up.
pub proof fn lemma_looking(f: Vec3)
    requires
        f.is_finite(),
        is_little(Spot::of(f).dot(Spot::of(f)) - 1real, 3000real),
        is_level_enough(f),
    ensures
        ({
            let q = looking(f, Vec3 { x: zero(), y: one(), z: zero() });
            let looks = q.rotate(Vec3 { x: zero(), y: zero(), z: one().neg() });
            &&& looks.is_finite()
            &&& close(Spot::of(looks), Spot::of(f), 9100real)
        }),
{
    let o = 1real / limit();
    lemma_quotient_back(1real, limit());
    lemma_top(o);
    let t = upwards().direction()->0;
    lemma_behind(f);
    let b = f.direction()->0.neg();
    let z = Spot::of(b);
    let p = if size(z.x) <= size(z.z) {
        size(z.z)
    } else {
        size(z.x)
    };
    assert(is_level_reach(b, p));
    lemma_right(t, b, p, o);
    lemma_turned_along(f, direction_or_across(t.cross(b), t));
}

/// Whether a direction is almost straight up or down.
pub open spec fn is_steep(f: Vec3) -> bool {
    size(exact(f.x)) * 500real <= 1real && size(exact(f.z)) * 500real <= 1real
}

/// A rotation that was made to look along a direction looks along it, with something
/// level for up.
pub proof fn lemma_looking_steeply(f: Vec3, up: Vec3)
    requires
        f.is_finite(),
        is_little(Spot::of(f).dot(Spot::of(f)) - 1real, 3000real),
        is_steep(f),
        up.is_finite(),
        is_little(Spot::of(up).dot(Spot::of(up)) - 1real, 40real),
        is_little(exact(up.y), 40real),
    ensures
        ({
            let q = looking(f, up);
            let looks = q.rotate(Vec3 { x: zero(), y: zero(), z: one().neg() });
            &&& looks.is_finite()
            &&& close(Spot::of(looks), Spot::of(f), 9100real)
        }),
{
    lemma_behind(f);
    let b = f.direction()->0.neg();
    lemma_forward(up);
    let t = up.direction()->0;
    lemma_direction_length(t, up, 1real / exact(up.length()));
    let (u, v) = (Spot::of(t), Spot::of(b));
    lemma_axis_parts(u, 40real);
    lemma_axis_parts(v, 40real);
    lemma_unit_product(v.x * 400real, u.x, 1real, 65real);
    lemma_regroup(v.x, 400real, u.x);
    lemma_unit_product(u.y * 400real, v.y, 1real, 65real);
    lemma_regroup(u.y, 400real, v.y);
    lemma_unit_product(v.z * 400real, u.z, 1real, 65real);
    lemma_regroup(v.z, 400real, u.z);
    lemma_right_of_steep(t, b);
    lemma_turned_along(f, direction_or_across(t.cross(b), t));
}

} // verus!

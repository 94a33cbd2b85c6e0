//! Lengths and distances, next to exact ones.

use crate::closeness::{
    exact, grains, lemma_exact, lemma_exact_constants, lemma_exact_ordered, lemma_minus_close,
    lemma_over_close, lemma_plus_within, lemma_quotient_back, lemma_size_of_product,
    lemma_sqrt_close, lemma_times_close, limit, size, within,
};
use crate::scalar::{lemma_plus_no_less, lemma_product, one, zero, Scalar};
use crate::spells::carrying::lemma_length_near;
use crate::turning::{
    close, lemma_cancel, lemma_opposite, lemma_parts_close, lemma_reach_parts, lemma_regroup,
    lemma_scale_ordered, lemma_spread, lemma_spread_minus, lemma_square, lemma_squares_ordered,
    lemma_swap, reaches, Spot,
};
use crate::vector::Vec3;
use vstd::prelude::*;

verus! {

/// The square of a length that is not all too short, as it comes out.
pub proof fn lemma_length_squared(v: Vec3, n: real)
    requires
        v.is_finite(),
        n == Spot::of(v).dot(Spot::of(v)),
        n * limit() >= 1real,
        n * 16real <= limit(),
    ensures
        ({
            let r = exact(v.length());
            &&& v.length().is_finite()
            &&& 0real < r
            &&& size(r * r - n) * grains() <= n * 11real
            &&& within(v.length_squared(), n, n * 7real)
        }),
{
    let (x, y, z) = (exact(v.x), exact(v.y), exact(v.z));
    lemma_square(x);
    lemma_square(y);
    lemma_square(z);
    lemma_times_close(v.x, v.x, n);
    lemma_times_close(v.y, v.y, n);
    lemma_times_close(v.z, v.z, n);
    let (a, b, c) = (v.x.times(v.x), v.y.times(v.y), v.z.times(v.z));
    lemma_plus_within(a, x * x, n, b, y * y, n, n * 2real);
    lemma_plus_within(a.plus(b), x * x + y * y, n * 4real, c, z * z, n, n * 2real);
    let s = v.dot(v);
    assert(s == a.plus(b).plus(c));
    assert(within(s, n, n * 7real));
    lemma_sqrt_close(s);
}

/// What is all too short comes out so.
pub proof fn lemma_length_tiny(v: Vec3)
    requires
        v.is_finite(),
        size(exact(v.x)) * 134217728real <= 1real,
        size(exact(v.y)) * 134217728real <= 1real,
        size(exact(v.z)) * 134217728real <= 1real,
    ensures
        v.length().is_finite(),
        0real <= exact(v.length()),
        exact(v.length()) * grains() <= 1real,
{
    let o = 1real / 18014398509481984real;
    lemma_quotient_back(1real, 18014398509481984real);
    lemma_tiny_square(v.x, o);
    lemma_tiny_square(v.y, o);
    lemma_tiny_square(v.z, o);
    let (x, y, z) = (exact(v.x), exact(v.y), exact(v.z));
    let (a, b, c) = (v.x.times(v.x), v.y.times(v.y), v.z.times(v.z));
    lemma_plus_within(a, x * x, o, b, y * y, o, o * 3real);
    lemma_plus_within(a.plus(b), x * x + y * y, o * 5real, c, z * z, o, o * 4real);
    let s = v.dot(v);
    assert(s == a.plus(b).plus(c));
    assert(exact(s) <= o * 4real);
    lemma_not_negative(a, b, c);
    lemma_exact_constants();
    lemma_exact_ordered(s, zero());
    lemma_exact_ordered(zero(), s);
    if exact(s) > 0real {
        lemma_sqrt_close(s);
        let r = exact(s.sqrt());
        lemma_squares_ordered(r * 16777216real, 1real);
        lemma_regroup(r, 16777216real, r * 16777216real);
        lemma_regroup(r, r, 16777216real);
    } else {
        reveal(Scalar::spec_sqrt);
        assert(s.magnitude() == 0);
    }
}

proof fn lemma_tiny_square(a: Scalar, o: real)
    requires
        a.is_finite(),
        size(exact(a)) * 134217728real <= 1real,
        o * 18014398509481984real == 1real,
    ensures
        0real <= exact(a) * exact(a) <= o,
        within(a.times(a), exact(a) * exact(a), o),
        a.times(a).ge(zero()),
{
    let x = exact(a);
    lemma_squares_ordered(x * 134217728real, 1real);
    lemma_regroup(x, 134217728real, x * 134217728real);
    lemma_regroup(x, x, 134217728real);
    lemma_square(x);
    lemma_times_close(a, a, o);
    lemma_own_product(a);
}

/// A square is not below nothing.
proof fn lemma_own_product(a: Scalar)
    requires
        a.is_finite(),
        a.times(a).is_finite(),
    ensures
        a.times(a).ge(zero()),
        !a.times(a).signed(),
{
    reveal(Scalar::spec_times);
    lemma_product(a.magnitude(), a.magnitude());
    lemma_exact_constants();
    lemma_exact(a.times(a));
    lemma_exact_ordered(zero(), a.times(a));
}

/// What is put together from what is not below nothing is not so either.
proof fn lemma_not_negative(a: Scalar, b: Scalar, c: Scalar)
    requires
        a.ge(zero()),
        b.ge(zero()),
        c.ge(zero()),
        a.is_finite(),
        b.is_finite(),
        c.is_finite(),
        a.plus(b).is_finite(),
        a.plus(b).plus(c).is_finite(),
    ensures
        a.plus(b).plus(c).ge(zero()),
{
    lemma_exact_constants();
    lemma_plus_no_less(a, b);
    lemma_plus_no_less(a.plus(b), c);
    lemma_exact_ordered(zero(), a);
    lemma_exact_ordered(a, a.plus(b));
    lemma_exact_ordered(a.plus(b), a.plus(b).plus(c));
    lemma_exact_ordered(zero(), a.plus(b).plus(c));
}

/// What has about the square of something is about as much.
pub proof fn lemma_root_near(r: real, d: real, e: real)
    requires
        r >= 0real,
        d > 0real,
        size(r * r - d * d) * grains() <= (d * d) * e,
        e >= 0real,
    ensures
        size(r - d) * grains() <= d * e,
{
    let g = grains();
    lemma_spread(r, d, r - d);
    lemma_spread_minus(r, d, r);
    lemma_spread_minus(r, d, d);
    lemma_swap(r, d);
    lemma_swap(r - d, r + d);
    assert((r - d) * (r + d) == r * r - d * d);
    let w = size(r - d);
    lemma_spread_minus(d, r, r + d);
    lemma_spread_minus(r, d, r + d);
    lemma_scale_ordered(w, 0real, r + d);
    if r >= d {
        assert(w * (r + d) == r * r - d * d);
    } else {
        assert(w * (r + d) == d * d - r * r);
    }
    assert(w * (r + d) == size(r * r - d * d));
    lemma_scale_ordered(w, d, r + d);
    lemma_regroup(w, d, g);
    lemma_regroup(d, d, e);
    assert((w * d) * g <= (d * d) * e);
    assert(d * (w * g) <= d * (d * e)) by {
        lemma_swap(w * g, d);
    }
    lemma_cancel(d, w * g, d * e);
}

/// A length is close to the exact one.
pub proof fn lemma_length_close(v: Vec3, d: real)
    requires
        v.is_finite(),
        d >= 0real,
        d * d == Spot::of(v).dot(Spot::of(v)),
        d <= 268435456real,
    ensures
        within(v.length(), d, d * 11real + 2real),
        exact(v.length()) >= 0real,
{
    let u = Spot::of(v);
    if d * 268435456real >= 1real {
        lemma_squares_ordered(1real, d * 268435456real);
        lemma_regroup(d, 268435456real, d * 268435456real);
        lemma_regroup(d, d, 268435456real);
        lemma_squares_ordered(d, 268435456real);
        lemma_length_squared(v, d * d);
        lemma_root_near(exact(v.length()), d, 11real);
    } else {
        assert(reaches(u, d));
        lemma_reach_parts(u, d);
        lemma_length_tiny(v);
    }
}

/// A distance is close to the exact one.
pub proof fn lemma_distance_close(a: Vec3, b: Vec3, d: real)
    requires
        a.is_finite(),
        b.is_finite(),
        d >= 0real,
        ({
            let u = Spot::of(a).minus(Spot::of(b));
            d * d == u.dot(u)
        }),
        d <= 134217728real,
    ensures
        a.minus(b).is_finite(),
        within(a.minus(b).length(), d, d * 25real + 4real),
        exact(a.minus(b).length()) >= 0real,
        d * 268435456real >= 1real ==> size(exact(a.minus(b).length()) - d) * grains() <= d
            * 21real,
{
    let g = grains();
    let u = Spot::of(a).minus(Spot::of(b));
    let v = a.minus(b);
    let o = 1real / limit();
    lemma_quotient_back(1real, limit());
    assert(reaches(u, d));
    lemma_reach_parts(u, d);
    lemma_minus_close(a.x, b.x, d + o);
    lemma_minus_close(a.y, b.y, d + o);
    lemma_minus_close(a.z, b.z, d + o);
    let w = Spot::of(v);
    if d * 268435456real >= 1real {
        let off = (d + o) * 2real;
        lemma_parts_close(w, u, d + o, off);
        assert(off <= d * 3real);
        lemma_length_near(w, u, off, d);
        let (n, m) = (d * d, w.dot(w));
        assert((off * d) * 3real <= n * 9real) by {
            lemma_scale_ordered(d, off, d * 3real);
            lemma_swap(d, off);
            lemma_regroup(d, d, 3real);
        }
        assert(size(m - n) * g <= n * 9real);
        lemma_squares_ordered(1real, d * 268435456real);
        lemma_regroup(d, 268435456real, d * 268435456real);
        lemma_regroup(d, d, 268435456real);
        lemma_squares_ordered(d, 134217728real);
        assert(m * 2real >= n && m <= n * 2real);
        lemma_length_squared(v, m);
        let r = exact(v.length());
        assert(m * 11real <= n * 12real);
        lemma_root_near(r, d, 21real);
    } else {
        lemma_length_tiny(v);
    }
}

/// A difference of two points and the square of its length are close to the exact ones.
pub proof fn lemma_difference_close(a: Vec3, b: Vec3, d: real)
    requires
        a.is_finite(),
        b.is_finite(),
        ({
            let u = Spot::of(a).minus(Spot::of(b));
            d * d == u.dot(u)
        }),
        d * 268435456real >= 1real,
        d <= 134217728real,
    ensures
        ({
            let (u, v) = (Spot::of(a).minus(Spot::of(b)), a.minus(b));
            &&& v.is_finite()
            &&& within(v.x, u.x, d * 2real)
            &&& within(v.y, u.y, d * 2real)
            &&& within(v.z, u.z, d * 2real)
            &&& size(u.x) <= d
            &&& size(u.y) <= d
            &&& size(u.z) <= d
            &&& v.length_squared().is_finite()
            &&& size(exact(v.length_squared()) - d * d) * grains() <= (d * d) * 18real
        }),
{
    let g = grains();
    let u = Spot::of(a).minus(Spot::of(b));
    let v = a.minus(b);
    let o = 1real / limit();
    lemma_quotient_back(1real, limit());
    assert(reaches(u, d));
    lemma_reach_parts(u, d);
    lemma_minus_close(a.x, b.x, d + o);
    lemma_minus_close(a.y, b.y, d + o);
    lemma_minus_close(a.z, b.z, d + o);
    let w = Spot::of(v);
    let off = (d + o) * 2real;
    lemma_parts_close(w, u, d + o, off);
    lemma_length_near(w, u, off, d);
    let (n, m) = (d * d, w.dot(w));
    assert((off * d) * 3real <= n * 9real) by {
        lemma_scale_ordered(d, off, d * 3real);
        lemma_swap(d, off);
        lemma_regroup(d, d, 3real);
    }
    lemma_squares_ordered(1real, d * 268435456real);
    lemma_regroup(d, 268435456real, d * 268435456real);
    lemma_regroup(d, d, 268435456real);
    lemma_squares_ordered(d, 134217728real);
    assert(m * 2real >= n && m <= n * 2real);
    let (x, y, z) = (w.x, w.y, w.z);
    lemma_square(x);
    lemma_square(y);
    lemma_square(z);
    lemma_times_close(v.x, v.x, m);
    lemma_times_close(v.y, v.y, m);
    lemma_times_close(v.z, v.z, m);
    let (p, q, r) = (v.x.times(v.x), v.y.times(v.y), v.z.times(v.z));
    lemma_plus_within(p, x * x, m, q, y * y, m, m * 2real);
    lemma_plus_within(p.plus(q), x * x + y * y, m * 4real, r, z * z, m, m * 2real);
    assert(v.length_squared() == p.plus(q).plus(r));
    assert(m * 7real <= n * 8real);
}

/// A quotient by something exact.
pub proof fn lemma_over_near(p: Scalar, x: real, e: real, b: Scalar, bound: real)
    requires
        within(p, x, e),
        b.is_finite(),
        exact(b) > 0real,
        size(x) * grains() + e <= (bound * exact(b)) * grains(),
        1real <= bound * limit(),
        bound <= limit(),
        e >= 0real,
    ensures
        within(p.over(b), x / exact(b), e / exact(b) + bound),
{
    let g = grains();
    let (u, y) = (exact(p), exact(b));
    lemma_exact_constants();
    lemma_exact_ordered(b, zero());
    let (q, t, f) = (u / y, x / y, e / y);
    lemma_quotient_back(u, y);
    lemma_quotient_back(x, y);
    lemma_quotient_back(e, y);
    lemma_swap(q, y);
    lemma_swap(t, y);
    lemma_swap(f, y);
    lemma_swap(bound, y);
    lemma_cancel(y, q, bound);
    lemma_opposite(y, q);
    lemma_cancel(y, -q, bound);
    lemma_over_close(p, b, bound);
    // How far the quotients are apart.
    let w = size(q - t) * g;
    lemma_spread_minus(q, t, y);
    lemma_spread_minus(t, q, y);
    let k = size(q - t);
    assert(y * k == size(u - x)) by {
        lemma_scale_ordered(y, 0real, k);
    }
    lemma_regroup(y, k, g);
    assert(y * w <= y * f);
    lemma_cancel(y, w, f);
}

/// A product with something exact.
pub proof fn lemma_times_near(p: Scalar, x: real, e: real, b: Scalar, bound: real)
    requires
        within(p, x, e),
        b.is_finite(),
        exact(b) >= 0real,
        e >= 0real,
        (size(x) * grains() + e) * exact(b) <= bound * grains(),
        1real <= bound * limit(),
        bound <= limit(),
    ensures
        within(p.times(b), x * exact(b), e * exact(b) + bound),
{
    let g = grains();
    let (u, y) = (exact(p), exact(b));
    lemma_size_of_product(u * g, y, size(x) * g + e, y);
    lemma_regroup(u, g, y);
    lemma_times_close(p, b, bound);
    lemma_size_of_product((u - x) * g, y, e, y);
    lemma_regroup(u - x, g, y);
    lemma_spread_minus(u, x, y);
}

/// What was made as long as one, where it is about as long as `d`.
pub proof fn lemma_normalized(v: Vec3, d: real, e: real)
    requires
        v.is_finite(),
        d * 1048576real >= 1real,
        d <= 1048576real,
        0real <= e <= 10000real,
        size(Spot::of(v).dot(Spot::of(v)) - d * d) * grains() <= (d * d) * e,
    ensures
        ({
            let k = one().over(v.length());
            let u = v.scale(k);
            &&& k.is_finite()
            &&& k.gt(zero())
            &&& within(u.x, exact(v.x) / d, e * 2real + 20real)
            &&& within(u.y, exact(v.y) / d, e * 2real + 20real)
            &&& within(u.z, exact(v.z) / d, e * 2real + 20real)
        }),
{
    let g = grains();
    let w = Spot::of(v);
    let (n, m) = (d * d, w.dot(w));
    lemma_squares_ordered(1real, d * 1048576real);
    lemma_regroup(d, 1048576real, d * 1048576real);
    lemma_regroup(d, d, 1048576real);
    lemma_squares_ordered(d, 1048576real);
    assert(n * e <= n * 10000real) by {
        lemma_square(d);
        lemma_scale_ordered(n, e, 10000real);
    }
    assert(m * 1000real <= n * 1001real && m * 1000real >= n * 999real);
    lemma_length_squared(v, m);
    let s = v.length();
    let r = exact(s);
    assert(size(r * r - n) * g <= n * (e + 12real)) by {
        lemma_spread(e, 12real, n);
    }
    lemma_root_near(r, d, e + 12real);
    assert(d * (e + 12real) <= d * 10012real) by {
        lemma_scale_ordered(d, e + 12real, 10012real);
    }
    assert(r * 1000real >= d * 999real && r * 1000real <= d * 1001real);
    // One over it.
    lemma_exact_constants();
    lemma_exact_ordered(s, zero());
    let h = exact(one()) / r;
    lemma_quotient_back(exact(one()), r);
    assert(h * r == 1real);
    if h < 0real {
        lemma_scale_ordered(r, h, 0real);
    }
    assert(h * 2097152real >= 1real && h <= 2097152real) by {
        lemma_scale_ordered(h, r, 2097152real);
        lemma_scale_ordered(h, 1real, r * 2097152real);
        lemma_regroup(h, r, 2097152real);
    }
    lemma_over_close(one(), s, h);
    let k = one().over(s);
    let t = exact(k);
    lemma_exact_ordered(zero(), k);
    // It times the length is one.
    let c = t * d;
    assert(size(c - 1real) * g * 2real <= e * 3real + 30real) by {
        lemma_size_of_product((t - h) * g, d, h, d);
        lemma_regroup(t - h, g, d);
        lemma_spread_minus(t, h, d);
        let y = h * d;
        assert(y * 999real <= 1000real) by {
            lemma_scale_ordered(h, d * 999real, r * 1000real);
            lemma_regroup(h, d, 999real);
            lemma_regroup(h, r, 1000real);
        }
        lemma_size_of_product(h, (d - r) * g, h, d * (e + 12real));
        lemma_regroup(h, d - r, g);
        lemma_spread_minus(d, r, h);
        lemma_regroup(h, d, e + 12real);
        assert(size(y - 1real) * g <= y * (e + 12real));
        lemma_spread_minus(y, 1real, e + 12real);
        lemma_scale_ordered(e + 12real, y * 999real, 1000real);
        lemma_regroup(y, 999real, e + 12real);
        lemma_swap(y, e + 12real);
        assert(y * (e + 12real) * 999real <= (e + 12real) * 1000real);
        assert(size(c - y) * g <= y);
        assert(size(y - 1real) * g * 999real <= (e + 12real) * 1000real);
    }
    lemma_normal_part(v.x, k, w, d, e);
    lemma_normal_part(v.y, k, w, d, e);
    lemma_normal_part(v.z, k, w, d, e);
}

pub proof fn lemma_normal_part(a: Scalar, k: Scalar, w: Spot, d: real, e: real)
    requires
        a.is_finite(),
        k.is_finite(),
        exact(a) == w.x || exact(a) == w.y || exact(a) == w.z,
        d > 0real,
        w.dot(w) * 1000real <= (d * d) * 1001real,
        0real <= e <= 10000real,
        size(exact(k) * d - 1real) * grains() * 2real <= e * 3real + 30real,
    ensures
        within(a.times(k), exact(a) / d, e * 2real + 20real),
{
    let g = grains();
    let (x, t) = (exact(a), exact(k));
    let c = t * d;
    let q = x / d;
    lemma_quotient_back(x, d);
    lemma_square(w.x);
    lemma_square(w.y);
    lemma_square(w.z);
    // No coordinate is much longer than all.
    let z = d * (1001real / 1000real);
    assert(z * 1000real == d * 1001real);
    let n = d * d;
    assert((z * z) * 1000000real == n * 1002001real) by {
        let (a, b) = (z * 1000real, d * 1001real);
        lemma_regroup(z, 1000real, a);
        lemma_regroup(z, z, 1000real);
        lemma_regroup(d, 1001real, b);
        lemma_regroup(d, d, 1001real);
        assert(a * a == ((z * z) * 1000real) * 1000real);
        assert(b * b == (n * 1001real) * 1001real);
    }
    lemma_square(d);
    assert(x * x <= w.dot(w));
    assert(n >= 0real);
    assert(w.dot(w) * 1000000real <= n * 1001000real);
    assert(x * x <= z * z);
    lemma_squares_ordered(x, z);
    assert(size(x) <= z);
    lemma_swap(q, d);
    lemma_cancel(d, q, 1001real / 1000real);
    lemma_opposite(d, q);
    lemma_cancel(d, -q, 1001real / 1000real);
    assert(x * t == q * c) by {
        lemma_regroup(q, d, t);
        lemma_swap(d, t);
        lemma_regroup(q, t, d);
    }
    lemma_size_of_product(q, (c - 1real) * g, 1001real / 1000real, (e * 3real + 30real) / 2real);
    lemma_regroup(q, c - 1real, g);
    lemma_spread_minus(c, 1real, q);
    lemma_times_close(a, k, 2real);
}

/// A coordinate divided by a length.
pub proof fn lemma_over_length(v: Scalar, x: real, r: Scalar, d: real)
    requires
        within(v, x, d * 2real),
        size(x) <= d,
        d > 0real,
        r.is_finite(),
        size(exact(r) - d) * grains() <= d * 21real,
    ensures
        within(v.over(r), x / d, 28real),
        size(x / d) <= 1real,
{
    let g = grains();
    let y = exact(r);
    assert(y * 1000real >= d * 999real && y * 1000real <= d * 1001real);
    assert(size(x) * g + d * 2real <= (2real * y) * g);
    lemma_over_near(v, x, d * 2real, r, 2real);
    let (q, t, f) = (x / y, x / d, (d * 2real) / y);
    lemma_quotient_back(x, y);
    lemma_quotient_back(x, d);
    lemma_quotient_back(d * 2real, y);
    lemma_swap(f, y);
    lemma_cancel(y, f, 3real);
    lemma_cancel(y, 0real, f);
    lemma_swap(t, d);
    lemma_cancel(d, t, 1real);
    lemma_opposite(d, t);
    lemma_cancel(d, -t, 1real);
    assert(size(q - t) * g <= 22real) by {
        lemma_spread_minus(q, t, y);
        lemma_spread_minus(y, d, t);
        lemma_swap(q, y);
        lemma_swap(t, y);
        assert(y * (q - t) == t * (d - y)) by {
            lemma_spread_minus(d, y, t);
            lemma_swap(t, d);
        }
        lemma_size_of_product(t, (d - y) * g, 1real, d * 21real);
        lemma_regroup(t, d - y, g);
        let k = size(q - t);
        assert(y * k <= size(t * (d - y))) by {
            lemma_opposite(y, q - t);
            lemma_spread_minus(t, q, y);
        }
        lemma_regroup(y, k, g);
        assert(y * (k * g) <= y * 22real);
        lemma_cancel(y, k * g, 22real);
    }
}

/// Whether `d` is how far `a` is from `b`, and neither nothing nor beyond measure.
pub open spec fn is_apart(a: Vec3, b: Vec3, d: real) -> bool {
    let u = Spot::of(a).minus(Spot::of(b));
    &&& a.is_finite()
    &&& b.is_finite()
    &&& d * d == u.dot(u)
    &&& d * 524288real >= 1real
    &&& d <= 524288real
}

/// The direction from one point to another.
pub proof fn lemma_direction_close(a: Vec3, b: Vec3, d: real)
    requires
        is_apart(a, b, d),
    ensures
        ({
            let u = Spot::of(a).minus(Spot::of(b));
            let v = a.minus(b);
            let (p, q) = (v.direction(), v.normalize_or_zero());
            &&& p is Some
            &&& within(p->0.x, u.x / d, 28real)
            &&& within(p->0.y, u.y / d, 28real)
            &&& within(p->0.z, u.z / d, 28real)
            &&& within(q.x, u.x / d, 50real)
            &&& within(q.y, u.y / d, 50real)
            &&& within(q.z, u.z / d, 50real)
        }),
{
    let g = grains();
    let u = Spot::of(a).minus(Spot::of(b));
    let v = a.minus(b);
    lemma_difference_close(a, b, d);
    lemma_distance_close(a, b, d);
    let r = v.length();
    lemma_exact_constants();
    lemma_exact_ordered(zero(), r);
    lemma_over_length(v.x, u.x, r, d);
    lemma_over_length(v.y, u.y, r, d);
    lemma_over_length(v.z, u.z, r, d);
    let w = Spot::of(v);
    let n = d * d;
    assert(size(w.dot(w) - n) * g <= n * 12real) by {
        lemma_parts_close(w, u, d * 2real, d * 4real);
        assert(reaches(u, d));
        lemma_length_near(w, u, d * 4real, d);
        lemma_regroup(d, 4real, d);
    }
    lemma_normalized(v, d, 12real);
    lemma_over_both(w.x, u.x, d);
    lemma_over_both(w.y, u.y, d);
    lemma_over_both(w.z, u.z, d);
}

proof fn lemma_over_both(w: real, u: real, d: real)
    requires
        d > 0real,
        size(w - u) * grains() <= d * 2real,
    ensures
        size(w / d - u / d) * grains() <= 2real,
{
    let g = grains();
    let (a, b) = (w / d, u / d);
    lemma_quotient_back(w, d);
    lemma_quotient_back(u, d);
    lemma_swap(a, d);
    lemma_swap(b, d);
    lemma_spread_minus(a, b, d);
    lemma_spread_minus(b, a, d);
    let k = size(a - b);
    assert(d * k == size(w - u)) by {
        lemma_scale_ordered(d, 0real, k);
    }
    lemma_regroup(d, k, g);
    lemma_cancel(d, k * g, 2real);
}

} // verus!

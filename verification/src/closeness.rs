//! How close the results of arithmetic are to the exact ones.

use crate::rounding::{
    at_least_normal, lemma_root_error, lemma_root_finite, lemma_rounded, lemma_rounded_exact,
    lemma_rounded_ordered, lemma_rounding_error, lemma_units_increase, rounded, rounded_root,
    units,
};
use crate::scalar::{lemma_order_is_value, lemma_times_two, lemma_units_of_power, one, zero, Scalar};
use vstd::arithmetic::power2::{
    lemma2_to64, lemma2_to64_rest, lemma_pow2_adds, lemma_pow2_pos, pow2,
};
use vstd::prelude::*;

verus! {

/// How many times the smallest positive number goes into one.
pub open spec fn whole() -> real {
    pow2(149) as real
}

/// The number itself, where it is finite.
pub open spec fn exact(a: Scalar) -> real {
    (a.value() as real) / whole()
}

/// How big a number is, whatever its sign.
pub open spec fn size(x: real) -> real {
    if x < 0real {
        -x
    } else {
        x
    }
}

/// How big the numbers may be that this is about: two to the sixtieth power.
pub open spec fn limit() -> real {
    1152921504606846976real
}

/// How many grains there are in one. A result of at most one is off by no more than
/// a grain.
pub open spec fn grains() -> real {
    16777216real
}

/// Whether a result is finite and at most `e` grains off from `x`.
pub open spec fn within(a: Scalar, x: real, e: real) -> bool {
    a.is_finite() && size(exact(a) - x) * grains() <= e
}

pub proof fn lemma_whole()
    ensures
        whole() == 713623846352979940529142984724747568191373312real,
{
    lemma2_to64();
    lemma_pow2_adds(64, 64);
    lemma_pow2_adds(128, 21);
    assert(pow2(149) == 713623846352979940529142984724747568191373312int);
}

/// A quotient times what was divided by.
pub proof fn lemma_quotient_back(n: real, d: real)
    requires
        d != 0real,
    ensures
        (n / d) * d == n,
{
    assert((n / d) * d == n) by (nonlinear_arith)
        requires
            d != 0real,
    ;
}

/// What a fraction of units rounds to is close to it.
proof fn lemma_rounds_close(num: int, den: int, b: real)
    requires
        den > 0,
        num >= 0,
        1real <= b * limit(),
        b <= limit(),
        (num as real) / (den as real) <= b * whole(),
    ensures
        0 <= rounded(num, den) < 0x7f80_0000,
        size(
            (units(rounded(num, den)) as real) / whole() - (num as real) / (den as real) / whole(),
        ) * grains() <= b,
{
    lemma_whole();
    let m = rounded(num, den);
    let top = 187int * 0x80_0000;
    let (o_top, n, d) = (units(top) as real, num as real, den as real);
    lemma_units_of_power(187);
    lemma_pow2_adds(60, 149);
    lemma2_to64_rest();
    assert(units(top) == 1152921504606846976int * pow2(149));
    assert(o_top == limit() * whole());
    let y = n / d;
    lemma_quotient_back(n, d);
    assert(y <= o_top) by {
        assert(b * whole() <= limit() * whole());
    }
    assert(n <= o_top * d) by (nonlinear_arith)
        requires
            n == y * d,
            y <= o_top,
            d > 0real,
    ;
    let u_top = units(top);
    assert((u_top * den) as real == (u_top as real) * (den as real)) by (nonlinear_arith);
    lemma_rounded_exact(top, den);
    lemma_rounded_ordered(num, u_top * den, den);
    lemma_rounded(num, den);
    lemma_rounding_error(num, den);
    let own = units(m);
    lemma_units_increase(0, m);
    let o = own as real;
    assert((own * den) as real == o * d) by (nonlinear_arith)
        requires
            o == own as real,
            d == den as real,
    ;
    let t = if num >= 0x80_0000 * den {
        y
    } else {
        8388608real
    };
    assert(at_least_normal(num, den) as real == t * d) by {
        assert((0x80_0000int * den) as real == 8388608real * d);
    }
    assert(16777216real * (o * d - n) <= t * d);
    assert(16777216real * (n - o * d) <= t * d);
    assert(16777216real * (o - y) <= t) by (nonlinear_arith)
        requires
            16777216real * (o * d - n) <= t * d,
            n == y * d,
            d > 0real,
    ;
    assert(16777216real * (y - o) <= t) by (nonlinear_arith)
        requires
            16777216real * (n - o * d) <= t * d,
            n == y * d,
            d > 0real,
    ;
    let bt = b * 713623846352979940529142984724747568191373312real;
    assert(b * whole() == bt);
    assert(size(o - y) * 16777216real <= bt);
    let (p, q) = (o / whole(), y / whole());
    lemma_quotient_back(o, whole());
    lemma_quotient_back(y, whole());
    assert(p * 713623846352979940529142984724747568191373312real == o);
    assert(q * 713623846352979940529142984724747568191373312real == y);
    assert(size(p - q) * 16777216real <= b);
}

/// A number in units.
pub proof fn lemma_exact(a: Scalar)
    ensures
        exact(a) * 713623846352979940529142984724747568191373312real == a.value() as real,
{
    lemma_whole();
    lemma_quotient_back(a.value() as real, whole());
}

/// What a scalar of this magnitude is.
proof fn lemma_of(negative: bool, m: int)
    requires
        0 <= m < 0x7f80_0000,
    ensures
        Scalar::of(negative, m).is_finite(),
        Scalar::of(negative, m).signed() == negative,
        Scalar::of(negative, m).magnitude() == m,
        exact(Scalar::of(negative, m)) == (if negative {
            -((units(m) as real) / whole())
        } else {
            (units(m) as real) / whole()
        }),
{
    lemma_whole();
    let a = Scalar::of(negative, m);
    lemma_exact(a);
    lemma_quotient_back(units(m) as real, whole());
    let p = (units(m) as real) / whole();
    assert(p * 713623846352979940529142984724747568191373312real == units(m) as real);
}

/// Negation is exact.
pub proof fn lemma_neg_close(a: Scalar)
    requires
        a.is_finite(),
    ensures
        a.neg().is_finite(),
        exact(a.neg()) == -exact(a),
{
    lemma_exact(a);
    lemma_exact(a.neg());
}

/// A sum is close to the exact one.
pub proof fn lemma_plus_close(a: Scalar, b: Scalar, bound: real)
    requires
        a.is_finite(),
        b.is_finite(),
        1real <= bound * limit(),
        bound <= limit(),
        size(exact(a) + exact(b)) <= bound,
    ensures
        within(a.plus(b), exact(a) + exact(b), bound),
{
    reveal(Scalar::spec_plus);
    lemma_whole();
    lemma_exact(a);
    lemma_exact(b);
    let n = a.value() + b.value();
    let num = if n < 0 {
        -n
    } else {
        n
    };
    lemma_exact(a.plus(b));
    let y = (num as real) / (1int as real);
    lemma_quotient_back(num as real, 1int as real);
    assert(y == num as real);
    lemma_quotient_back(y, whole());
    let q = y / whole();
    assert(q * 713623846352979940529142984724747568191373312real == y);
    if n == 0 {
        lemma_of(a.signed() && b.signed(), 0);
    } else {
        let bt = bound * 713623846352979940529142984724747568191373312real;
        assert(bound * whole() == bt);
        lemma_rounds_close(num, 1, bound);
        lemma_of(n < 0, rounded(num, 1));
    }
}

/// A difference is close to the exact one.
pub proof fn lemma_minus_close(a: Scalar, b: Scalar, bound: real)
    requires
        a.is_finite(),
        b.is_finite(),
        1real <= bound * limit(),
        bound <= limit(),
        size(exact(a) - exact(b)) <= bound,
    ensures
        within(a.minus(b), exact(a) - exact(b), bound),
{
    lemma_neg_close(b);
    lemma_plus_close(a, b.neg(), bound);
}

/// A product is close to the exact one.
pub proof fn lemma_times_close(a: Scalar, b: Scalar, bound: real)
    requires
        a.is_finite(),
        b.is_finite(),
        1real <= bound * limit(),
        bound <= limit(),
        size(exact(a) * exact(b)) <= bound,
    ensures
        within(a.times(b), exact(a) * exact(b), bound),
{
    reveal(Scalar::spec_times);
    lemma_whole();
    let (ma, mb) = (a.magnitude(), b.magnitude());
    let t = pow2(149) as int;
    let (ua, ub) = (units(ma), units(mb));
    lemma_units_increase(0, ma);
    lemma_units_increase(0, mb);
    assert(ua * ub >= 0) by (nonlinear_arith)
        requires
            ua >= 0,
            ub >= 0,
    ;
    lemma_of(a.signed(), ma);
    lemma_of(b.signed(), mb);
    let (x, y) = ((ua as real) / whole(), (ub as real) / whole());
    lemma_quotient_back(ua as real, whole());
    lemma_quotient_back(ub as real, whole());
    assert((ua * ub) as real == (ua as real) * (ub as real)) by (nonlinear_arith);
    let w = whole();
    let (ra, rb) = (ua as real, ub as real);
    let n = (ua * ub) as real;
    lemma_quotient_back(n, w);
    let z = n / w;
    lemma_quotient_back(z, w);
    let zz = z / w;
    assert(zz == x * y) by (nonlinear_arith)
        requires
            w != 0real,
            x * w == ra,
            y * w == rb,
            n == ra * rb,
            z * w == n,
            zz * w == z,
    ;
    assert(exact(a) * exact(b) == (if a.signed() != b.signed() {
        -(x * y)
    } else {
        x * y
    })) by (nonlinear_arith)
        requires
            exact(a) == (if a.signed() { -x } else { x }),
            exact(b) == (if b.signed() { -y } else { y }),
    ;
    let bt = bound * 713623846352979940529142984724747568191373312real;
    assert(bound * whole() == bt);
    assert(x * y >= 0real) by (nonlinear_arith)
        requires
            x * w == ra,
            y * w == rb,
            ra >= 0real,
            rb >= 0real,
            w > 0real,
    ;
    assert(zz * 713623846352979940529142984724747568191373312real == z);
    assert(z <= bt);
    lemma_rounds_close(ua * ub, t, bound);
    lemma_of(a.signed() != b.signed(), rounded(ua * ub, t));
}

/// A quotient is close to the exact one.
pub proof fn lemma_over_close(a: Scalar, b: Scalar, bound: real)
    requires
        a.is_finite(),
        b.is_finite(),
        b.magnitude() != 0,
        1real <= bound * limit(),
        bound <= limit(),
        size(exact(a) / exact(b)) <= bound,
    ensures
        exact(b) != 0real,
        within(a.over(b), exact(a) / exact(b), bound),
{
    reveal(Scalar::spec_over);
    lemma_whole();
    lemma_pow2_pos(149);
    let (ma, mb) = (a.magnitude(), b.magnitude());
    let t = pow2(149) as int;
    let (ua, ub) = (units(ma), units(mb));
    lemma_units_increase(0, ma);
    lemma_units_increase(0, mb);
    assert(ua * t >= 0) by (nonlinear_arith)
        requires
            ua >= 0,
            t > 0,
    ;
    lemma_of(a.signed(), ma);
    lemma_of(b.signed(), mb);
    let w = whole();
    let (ra, rb) = (ua as real, ub as real);
    let (x, y) = (ra / w, rb / w);
    lemma_quotient_back(ra, w);
    lemma_quotient_back(rb, w);
    assert(y != 0real) by (nonlinear_arith)
        requires
            y * w == rb,
            rb > 0real,
    ;
    assert((ua * t) as real == (ua as real) * (t as real)) by (nonlinear_arith);
    let n = (ua * t) as real;
    lemma_quotient_back(n, rb);
    let z = n / rb;
    lemma_quotient_back(z, w);
    let zz = z / w;
    lemma_quotient_back(x, y);
    let v = x / y;
    assert(zz == v) by (nonlinear_arith)
        requires
            w > 0real,
            rb > 0real,
            x * w == ra,
            y * w == rb,
            n == ra * w,
            z * rb == n,
            zz * w == z,
            v * y == x,
            y != 0real,
    ;
    let e = exact(a) / exact(b);
    lemma_quotient_back(exact(a), exact(b));
    assert(e == (if a.signed() != b.signed() {
        -v
    } else {
        v
    })) by (nonlinear_arith)
        requires
            exact(a) == (if a.signed() { -x } else { x }),
            exact(b) == (if b.signed() { -y } else { y }),
            e * exact(b) == exact(a),
            v * y == x,
            y != 0real,
    ;
    assert(v >= 0real) by (nonlinear_arith)
        requires
            x * w == ra,
            y * w == rb,
            ra >= 0real,
            rb > 0real,
            w > 0real,
            v * y == x,
    ;
    let bt = bound * 713623846352979940529142984724747568191373312real;
    assert(bound * whole() == bt);
    assert(zz * 713623846352979940529142984724747568191373312real == z);
    assert(z <= bt);
    lemma_rounds_close(ua * t, ub, bound);
    lemma_of(a.signed() != b.signed(), rounded(ua * t, ub));
}

/// The square of a root is close to what it is the root of.
pub proof fn lemma_sqrt_close(a: Scalar)
    requires
        a.is_finite(),
        exact(a) > 0real,
        exact(a) <= limit(),
    ensures
        a.sqrt().is_finite(),
        exact(a.sqrt()) > 0real,
        size(exact(a.sqrt()) * exact(a.sqrt()) - exact(a)) * grains() <= (exact(a.sqrt()) * exact(
            a.sqrt(),
        )) * 3real,
{
    reveal(Scalar::spec_sqrt);
    lemma_whole();
    lemma_pow2_pos(149);
    lemma_exact(a);
    let t = pow2(149) as int;
    let ua = units(a.magnitude());
    lemma_units_increase(0, a.magnitude());
    assert(ua >= 1);
    let n = ua * t;
    assert(t == 713623846352979940529142984724747568191373312int);
    assert(n >= 0x1_0000_0000_0000) by (nonlinear_arith)
        requires
            n == ua * t,
            ua >= 1,
            t == 713623846352979940529142984724747568191373312int,
    ;
    let m = rounded_root(n);
    assert(ua <= 1152921504606846976int * t);
    lemma_root_finite(ua, n);
    lemma_root_error(n);
    let own = units(m);
    lemma_of(false, m);
    let r = exact(a.sqrt());
    let (o, w) = (own as real, whole());
    lemma_quotient_back(o, w);
    assert(r * w == o);
    let (oo, nn) = ((own * own) as real, n as real);
    assert(oo == o * o) by (nonlinear_arith)
        requires
            oo == (own * own) as real,
            o == own as real,
    ;
    assert(nn == (ua as real) * (t as real)) by (nonlinear_arith)
        requires
            nn == (ua * t) as real,
            n == ua * t,
    ;
    let x = exact(a);
    let (rr, ww) = (r * r, w * w);
    assert(oo == rr * ww) by (nonlinear_arith)
        requires
            r * w == o,
            oo == o * o,
            rr == r * r,
            ww == w * w,
    ;
    assert(nn == x * ww) by (nonlinear_arith)
        requires
            nn == (ua as real) * w,
            x * w == ua as real,
            ww == w * w,
    ;
    assert(ww > 0real) by (nonlinear_arith)
        requires
            ww == w * w,
            w > 0real,
    ;
    assert(16777216real * (oo - nn) <= 3real * oo);
    assert(16777216real * (nn - oo) <= 3real * oo);
    assert(16777216real * (rr - x) <= 3real * rr) by (nonlinear_arith)
        requires
            16777216real * (oo - nn) <= 3real * oo,
            oo == rr * ww,
            nn == x * ww,
            ww > 0real,
    ;
    assert(16777216real * (x - rr) <= 3real * rr) by (nonlinear_arith)
        requires
            16777216real * (nn - oo) <= 3real * oo,
            oo == rr * ww,
            nn == x * ww,
            ww > 0real,
    ;
}

/// The order of numbers is that of their values.
pub proof fn lemma_exact_ordered(a: Scalar, b: Scalar)
    requires
        a.is_finite(),
        b.is_finite(),
    ensures
        a.le(b) == (exact(a) <= exact(b)),
        a.lt(b) == (exact(a) < exact(b)),
        a.magnitude() == 0 <==> exact(a) == 0real,
{
    lemma_order_is_value(a, b);
    lemma_exact(a);
    lemma_exact(b);
}

pub proof fn lemma_exact_constants()
    ensures
        exact(zero()) == 0real,
        exact(one()) == 1real,
{
    lemma_exact(zero());
    lemma_exact(one());
    lemma_units_of_power(127);
    lemma_whole();
}

/// What was cut off at nought and one.
pub proof fn lemma_clamp_close(t: Scalar)
    requires
        !t.is_nan(),
    ensures
        ({
            let at = t.clamp(zero(), one());
            &&& at.is_finite()
            &&& 0real <= exact(at) <= 1real
            &&& t.le(zero()) ==> at.magnitude() == 0
            &&& t.ge(one()) ==> exact(at) == 1real
        }),
{
    let at = t.clamp(zero(), one());
    lemma_exact_constants();
    lemma_exact_ordered(zero(), at);
    lemma_exact_ordered(at, one());
    lemma_exact_ordered(one(), at);
    lemma_exact_ordered(at, zero());
}

/// The size of a product.
pub proof fn lemma_size_of_product(x: real, y: real, a: real, b: real)
    requires
        size(x) <= a,
        size(y) <= b,
    ensures
        size(x * y) <= a * b,
{
    assert(size(x * y) <= a * b) by (nonlinear_arith)
        requires
            -a <= x <= a,
            -b <= y <= b,
            a >= 0real,
            b >= 0real,
            size(x * y) == (if x * y < 0real { -(x * y) } else { x * y }),
    ;
}

/// A sum of what is close is close.
pub proof fn lemma_plus_within(
    a: Scalar,
    x: real,
    ea: real,
    b: Scalar,
    y: real,
    eb: real,
    bound: real,
)
    requires
        within(a, x, ea),
        within(b, y, eb),
        1real <= bound * limit(),
        bound <= limit(),
        size(x + y) * grains() + ea + eb <= bound * grains(),
    ensures
        within(a.plus(b), x + y, ea + eb + bound),
{
    lemma_plus_close(a, b, bound);
}

/// A difference of what is close is close.
pub proof fn lemma_minus_within(
    a: Scalar,
    x: real,
    ea: real,
    b: Scalar,
    y: real,
    eb: real,
    bound: real,
)
    requires
        within(a, x, ea),
        within(b, y, eb),
        1real <= bound * limit(),
        bound <= limit(),
        size(x - y) * grains() + ea + eb <= bound * grains(),
    ensures
        within(a.minus(b), x - y, ea + eb + bound),
{
    lemma_minus_close(a, b, bound);
}

/// A product of what is close is close, where the second factor is at most `r` parts in
/// sixty-four, and the first one is at most `p` and comes out at most as `q`.
pub proof fn lemma_times_within(
    a: Scalar,
    x: real,
    ea: real,
    b: Scalar,
    y: real,
    eb: real,
    p: real,
    q: real,
    r: real,
    bound: real,
    e: real,
)
    requires
        within(a, x, ea),
        within(b, y, eb),
        size(x) <= p,
        size(exact(a)) <= q,
        size(exact(b)) * 64real <= r,
        1real <= bound * limit(),
        bound <= limit(),
        q * r <= bound * 64real,
        ea * r + (p * eb + bound) * 64real <= e * 64real,
    ensures
        within(a.times(b), x * y, e),
{
    let (u, v) = (exact(a), exact(b));
    lemma_size_of_product(u, v * 64real, q, r);
    assert(u * (v * 64real) == (u * v) * 64real) by (nonlinear_arith);
    lemma_times_close(a, b, bound);
    let (da, db) = ((u - x) * grains(), (v - y) * grains());
    lemma_size_of_product(da, v * 64real, ea, r);
    assert(da * (v * 64real) == (da * v) * 64real) by (nonlinear_arith);
    lemma_size_of_product(x, db, p, eb);
    assert((u * v - x * y) * grains() == da * v + x * db) by {
        lemma_two_parts(u, v, x, y, grains());
    }
}

/// The order of two factors does not matter.
pub proof fn lemma_times_swap(a: Scalar, b: Scalar)
    ensures
        a.times(b) == b.times(a),
{
    reveal(Scalar::spec_times);
    let (x, y) = (units(a.magnitude()), units(b.magnitude()));
    assert(x * y == y * x) by (nonlinear_arith);
}

/// Doubling is exact.
pub proof fn lemma_twice(a: Scalar, b: Scalar)
    requires
        a.is_finite(),
        size(exact(a)) <= limit(),
        b.magnitude() == 0x4000_0000,
        !b.signed(),
    ensures
        a.times(b).is_finite(),
        exact(a.times(b)) == exact(a) * 2real,
{
    lemma_whole();
    lemma_exact(a);
    let top = 187int * 0x80_0000;
    lemma_units_of_power(187);
    lemma_pow2_adds(60, 149);
    lemma2_to64_rest();
    assert(units(top) == 1152921504606846976int * pow2(149));
    lemma_units_increase(0, a.magnitude());
    if a.magnitude() > top {
        lemma_units_increase(top, a.magnitude());
    }
    lemma_times_two(a, b);
    lemma_exact(a.times(b));
}

proof fn lemma_two_parts(u: real, v: real, x: real, y: real, g: real)
    ensures
        (u * v - x * y) * g == ((u - x) * g) * v + x * ((v - y) * g),
{
    assert(((u - x) * g) * v == (u * v) * g - (x * v) * g) by (nonlinear_arith);
    assert(x * ((v - y) * g) == (x * v) * g - (x * y) * g) by (nonlinear_arith);
    assert((u * v - x * y) * g == (u * v) * g - (x * y) * g) by (nonlinear_arith);
}

} // verus!

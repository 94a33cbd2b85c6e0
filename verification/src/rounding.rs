//! Rounding to nearest, ties to even, over the magnitudes of binary32 numbers.
//!
//! Every finite number is a whole multiple of the smallest positive one. The
//! contracts count in that unit: [`units`] gives the count of a magnitude, and
//! [`nearest`] says which magnitude a fraction of such counts rounds to.

use vstd::arithmetic::mul::{
    lemma_mul_inequality, lemma_mul_strict_inequality,
};
use vstd::arithmetic::power2::{
    lemma2_to64, lemma2_to64_rest, lemma_pow2_adds, lemma_pow2_pos, lemma_pow2_strictly_increases,
    lemma_pow2_unfold, pow2,
};
use vstd::bits::lemma_u64_shl_is_mul;
use vstd::prelude::*;

verus! {

/// The magnitude of the infinities.
pub const INFINITE: u32 = 0x7f80_0000;

/// The exponent that the intermediate results are scaled by, so that each of
/// them is a whole number.
pub const SCALE: i32 = 300;

/// How many times the smallest positive number goes into the magnitude `m`.
///
/// The magnitude of the infinities counts as the power of two that would follow
/// the greatest finite number.
pub open spec fn units(m: int) -> int {
    let field = m / 0x80_0000;
    if field <= 0 {
        m
    } else {
        (m % 0x80_0000 + 0x80_0000) * (pow2((field - 1) as nat) as int)
    }
}

/// Whether the magnitude `m` is the one closest to `num / den`, the even one of
/// two that are equally close.
pub open spec fn nearest(m: int, num: int, den: int) -> bool {
    &&& 0 <= m <= INFINITE
    &&& m > 0 ==> {
        let low = (units(m - 1) + units(m)) * den;
        low < 2 * num || (low == 2 * num && m % 2 == 0)
    }
    &&& m < INFINITE ==> {
        let high = (units(m) + units(m + 1)) * den;
        2 * num < high || (2 * num == high && m % 2 == 0)
    }
}

/// The magnitude that `num / den` rounds to.
pub open spec fn rounded(num: int, den: int) -> int {
    choose|m: int| nearest(m, num, den)
}

/// Whether the magnitude `m` is the one closest to the square root of `n`, the
/// even one of two that are equally close.
pub open spec fn nearest_root(m: int, n: int) -> bool {
    &&& 0 <= m <= INFINITE
    &&& m > 0 ==> {
        let low = units(m - 1) + units(m);
        low * low < 4 * n || (low * low == 4 * n && m % 2 == 0)
    }
    &&& m < INFINITE ==> {
        let high = units(m) + units(m + 1);
        4 * n < high * high || (4 * n == high * high && m % 2 == 0)
    }
}

/// The magnitude that the square root of `n` rounds to.
pub open spec fn rounded_root(n: int) -> int {
    choose|m: int| nearest_root(m, n)
}

/// `units` over one binade: a significand `q` at exponent `s`, and its successor.
proof fn lemma_units_at(q: int, s: int)
    requires
        0 <= s,
        0 <= q < 0x100_0000,
        s > 0 ==> 0x80_0000 <= q,
    ensures
        units(q + s * 0x80_0000) == q * pow2(s as nat),
        units(q + 1 + s * 0x80_0000) == (q + 1) * pow2(s as nat),
{
    lemma2_to64();
    let m = q + s * 0x80_0000;
    let w = pow2(s as nat) as int;
    if q < 0x80_0000 {
        assert(s == 0);
        assert(q * w == q && (q + 1) * w == q + 1) by (nonlinear_arith)
            requires
                w == 1,
        ;
        if q + 1 == 0x80_0000 {
            assert(pow2(0) == 1);
        }
    } else {
        assert(m / 0x80_0000 == s + 1);
        assert(m % 0x80_0000 + 0x80_0000 == q);
        if q + 1 < 0x100_0000 {
            assert((m + 1) / 0x80_0000 == s + 1);
            assert((m + 1) % 0x80_0000 + 0x80_0000 == q + 1);
        } else {
            assert((m + 1) / 0x80_0000 == s + 2);
            assert((m + 1) % 0x80_0000 == 0);
            lemma_pow2_unfold((s + 1) as nat);
            let w2 = pow2((s + 1) as nat) as int;
            assert(0x80_0000 * w2 == (q + 1) * w) by (nonlinear_arith)
                requires
                    w2 == 2 * w,
                    q + 1 == 0x100_0000,
            ;
        }
    }
}

/// `units` rises strictly.
proof fn lemma_units_step(m: int)
    requires
        0 <= m,
    ensures
        units(m) < units(m + 1),
        units(m) >= 0,
{
    let s: int = if m / 0x80_0000 == 0 { 0 } else { m / 0x80_0000 - 1 };
    let q = m - s * 0x80_0000;
    lemma_units_at(q, s);
    lemma_pow2_pos(s as nat);
    let w = pow2(s as nat) as int;
    assert(q * w < (q + 1) * w) by (nonlinear_arith)
        requires
            w > 0,
    ;
    assert(q * w >= 0) by (nonlinear_arith)
        requires
            w > 0,
            q >= 0,
    ;
}

pub proof fn lemma_units_increase(a: int, b: int)
    requires
        0 <= a <= b,
    ensures
        units(a) <= units(b),
        a < b ==> units(a) < units(b),
        0 <= units(a),
    decreases b - a,
{
    lemma_units_step(a);
    if a < b {
        lemma_units_increase(a + 1, b);
    }
}

/// Rounding keeps the order of the fractions that are rounded.
pub proof fn lemma_nearest_ordered(m1: int, num1: int, m2: int, num2: int, den: int)
    requires
        den > 0,
        num1 <= num2,
        nearest(m1, num1, den),
        nearest(m2, num2, den),
    ensures
        m1 <= m2,
{
    if m1 > m2 {
        lemma_units_increase(m2, m1 - 1);
        lemma_units_increase(m2 + 1, m1);
        let low = units(m1 - 1) + units(m1);
        let high = units(m2) + units(m2 + 1);
        lemma_mul_inequality(high, low, den);
        assert(2 * num2 <= high * den <= low * den <= 2 * num1);
        if m2 < m1 - 1 {
            lemma_mul_strict_inequality(high, low, den);
        }
        assert(false);
    }
}

/// Each fraction has a nearest magnitude at or above `m`, once it reaches the
/// midpoint below `m`.
proof fn lemma_nearest_from(m: int, num: int, den: int)
    requires
        den > 0,
        num >= 0,
        0 <= m <= INFINITE,
        m > 0 ==> (units(m - 1) + units(m)) * den <= 2 * num,
    ensures
        exists|k: int| nearest(k, num, den),
    decreases INFINITE - m,
{
    if m < INFINITE && (units(m) + units(m + 1)) * den <= 2 * num {
        lemma_nearest_from(m + 1, num, den);
    } else if m == 0 {
        assert(nearest(m, num, den));
    } else if (units(m - 1) + units(m)) * den == 2 * num && m % 2 != 0 {
        if m > 1 {
            lemma_units_increase(m - 2, m);
            lemma_units_increase(m - 1, m);
            lemma_mul_strict_inequality(units(m - 2) + units(m - 1), units(m - 1) + units(m), den);
        }
        assert(nearest(m - 1, num, den));
    } else {
        assert(nearest(m, num, den));
    }
}

/// `rounded` is a nearest magnitude, and the only one.
pub proof fn lemma_rounded(num: int, den: int)
    requires
        den > 0,
        num >= 0,
    ensures
        nearest(rounded(num, den), num, den),
        forall|m: int| nearest(m, num, den) ==> m == rounded(num, den),
{
    lemma_nearest_from(0, num, den);
    let r = rounded(num, den);
    assert forall|m: int| nearest(m, num, den) implies m == r by {
        lemma_nearest_ordered(m, num, r, num, den);
        lemma_nearest_ordered(r, num, m, num, den);
    }
}

/// From one magnitude to the next it is a small part of what there is already.
proof fn lemma_units_gap(m: int)
    requires
        0 <= m,
    ensures
        (units(m + 1) - units(m)) * 0x80_0000 <= units(m) || units(m + 1) - units(m) <= 1,
{
    let s: int = if m / 0x80_0000 == 0 { 0 } else { m / 0x80_0000 - 1 };
    let q = m - s * 0x80_0000;
    lemma_units_at(q, s);
    lemma_pow2_pos(s as nat);
    lemma2_to64();
    let w = pow2(s as nat) as int;
    assert((q + 1) * w - q * w == w) by (nonlinear_arith);
    if s > 0 {
        assert(0x80_0000 * w <= q * w) by (nonlinear_arith)
            requires
                w > 0,
                0x80_0000 <= q,
        ;
    }
}

/// The greater of a fraction and the least one that is not rounded to whole units, times
/// `den`.
pub open spec fn at_least_normal(num: int, den: int) -> int {
    if num >= 0x80_0000 * den {
        num
    } else {
        0x80_0000 * den
    }
}

/// How far a fraction is from the magnitude that it rounds to.
pub proof fn lemma_rounding_error(num: int, den: int)
    requires
        den > 0,
        num >= 0,
        rounded(num, den) < INFINITE,
    ensures
        ({
            let own = units(rounded(num, den));
            &&& 0x100_0000 * (own * den - num) <= at_least_normal(num, den)
            &&& 0x100_0000 * (num - own * den) <= at_least_normal(num, den)
        }),
{
    lemma_rounded(num, den);
    let m = rounded(num, den);
    let own = units(m);
    lemma_units_gap(m);
    lemma_units_increase(0, m);
    let next = units(m + 1);
    assert(2 * (num - own * den) <= (next - own) * den) by (nonlinear_arith)
        requires
            2 * num <= (own + next) * den,
    ;
    lemma_half_gap(num - own * den, own, next, num, den);
    if m > 0 {
        lemma_units_gap(m - 1);
        lemma_units_increase(m - 1, m);
        let last = units(m - 1);
        assert(last * den <= num) by (nonlinear_arith)
            requires
                (last + own) * den <= 2 * num,
                last <= own,
                den > 0,
        ;
        assert(2 * (own * den - num) <= (own - last) * den) by (nonlinear_arith)
            requires
                (last + own) * den <= 2 * num,
        ;
        lemma_half_gap(own * den - num, last, own, num, den);
    } else {
        assert(own * den == 0) by (nonlinear_arith)
            requires
                own == 0,
        ;
    }
}

/// Half a gap above a number is a small part of what is no less.
proof fn lemma_half_gap(off: int, low: int, high: int, num: int, den: int)
    requires
        den > 0,
        low >= 0,
        2 * off <= (high - low) * den,
        (high - low) * 0x80_0000 <= low || high - low <= 1,
        off > 0 ==> low * den <= num,
    ensures
        0x100_0000 * off <= at_least_normal(num, den),
{
    if off > 0 {
        if (high - low) * 0x80_0000 <= low {
            assert(0x100_0000 * off <= low * den) by (nonlinear_arith)
                requires
                    den > 0,
                    2 * off <= (high - low) * den,
                    (high - low) * 0x80_0000 <= low,
            ;
        } else {
            assert(0x100_0000 * off <= 0x80_0000 * den) by (nonlinear_arith)
                requires
                    den > 0,
                    2 * off <= (high - low) * den,
                    high - low <= 1,
            ;
        }
    }
}

/// Each count has a nearest root at or above `m`, once it reaches the midpoint below `m`.
proof fn lemma_nearest_root_from(m: int, n: int)
    requires
        n >= 0,
        0 <= m <= INFINITE,
        m > 0 ==> (units(m - 1) + units(m)) * (units(m - 1) + units(m)) <= 4 * n,
    ensures
        exists|k: int| nearest_root(k, n),
    decreases INFINITE - m,
{
    if m < INFINITE && (units(m) + units(m + 1)) * (units(m) + units(m + 1)) <= 4 * n {
        lemma_nearest_root_from(m + 1, n);
    } else if m == 0 {
        assert(nearest_root(m, n));
    } else if (units(m - 1) + units(m)) * (units(m - 1) + units(m)) == 4 * n && m % 2 != 0 {
        if m > 1 {
            lemma_units_increase(0, m - 2);
            lemma_units_increase(m - 2, m);
            lemma_units_increase(m - 2, m - 1);
            lemma_units_increase(m - 1, m);
            let (low, high) = (units(m - 2) + units(m - 1), units(m - 1) + units(m));
            assert(low * low < high * high) by (nonlinear_arith)
                requires
                    0 <= low < high,
            ;
        }
        assert(nearest_root(m - 1, n));
    } else {
        assert(nearest_root(m, n));
    }
}

/// How far the square of a root is from what it is the root of.
pub proof fn lemma_root_error(n: int)
    requires
        0x1_0000_0000_0000 <= n,
        rounded_root(n) < INFINITE,
    ensures
        ({
            let own = units(rounded_root(n));
            &&& 0 <= rounded_root(n)
            &&& 0 < own
            &&& 0x100_0000 * (own * own - n) <= 3 * (own * own)
            &&& 0x100_0000 * (n - own * own) <= 3 * (own * own)
        }),
{
    lemma_nearest_root_from(0, n);
    let m = rounded_root(n);
    assert(nearest_root(m, n));
    let (own, next) = (units(m), units(m + 1));
    lemma_units_increase(0, m);
    lemma_units_gap(m);
    lemma_units_increase(m, m + 1);
    assert(own >= 0x80_0000) by {
        if own < 0x80_0000 {
            let high = own + next;
            assert(high * high <= 0x100_0000 * 0x100_0000) by (nonlinear_arith)
                requires
                    0 <= high <= 0x100_0000,
            ;
        }
    }
    let d = next - own;
    assert(d * 0x80_0000 <= own);
    let (oo, od, dd) = (own * own, own * d, d * d);
    assert(od * 0x80_0000 <= oo && dd <= od) by (nonlinear_arith)
        requires
            d * 0x80_0000 <= own,
            0 <= d,
            own >= 0,
            oo == own * own,
            od == own * d,
            dd == d * d,
    ;
    assert((own + next) * (own + next) == 4 * oo + 4 * od + dd) by (nonlinear_arith)
        requires
            next == own + d,
            oo == own * own,
            od == own * d,
            dd == d * d,
    ;
    assert(m > 0) by {
        if m == 0 {
            assert(units(0) == 0);
        }
    }
    let last = units(m - 1);
    lemma_units_increase(0, m - 1);
    lemma_units_increase(m - 1, m);
    lemma_units_gap(m - 1);
    let c = own - last;
    assert(c * 0x80_0000 <= own);
    let (oc, cc) = (own * c, c * c);
    assert(oc * 0x80_0000 <= oo && cc >= 0) by (nonlinear_arith)
        requires
            c * 0x80_0000 <= own,
            own >= 0,
            oo == own * own,
            oc == own * c,
            cc == c * c,
    ;
    assert((last + own) * (last + own) == 4 * oo - 4 * oc + cc) by (nonlinear_arith)
        requires
            last == own - c,
            oo == own * own,
            oc == own * c,
            cc == c * c,
    ;
}

/// A root of what is not beyond measure is not beyond measure.
pub proof fn lemma_root_finite(ua: int, n: int)
    requires
        1 <= ua <= 0x1000_0000_0000_0000 * pow2(149),
        n == ua * pow2(149),
    ensures
        0 <= rounded_root(n) < INFINITE,
{
    let t = pow2(149) as int;
    lemma_pow2_pos(149);
    assert(n >= 0) by (nonlinear_arith)
        requires
            n == ua * t,
            ua >= 1,
            t > 0,
    ;
    lemma_nearest_root_from(0, n);
    let m = rounded_root(n);
    assert(nearest_root(m, n));
    if m == INFINITE {
        let top = 187int * 0x80_0000;
        lemma_units_at(0x80_0000, 186);
        lemma_pow2_adds(23, 186);
        lemma_pow2_adds(60, 149);
        lemma2_to64();
        lemma2_to64_rest();
        lemma_units_increase(top, m - 1);
        lemma_units_increase(0, m);
        let low = units(m - 1) + units(m);
        let l = 0x1000_0000_0000_0000 * t;
        assert(units(top) == l);
        lemma_units_increase(top, m);
        assert(low * low >= (2 * l) * (2 * l)) by (nonlinear_arith)
            requires
                low >= 2 * l,
                l >= 0,
        ;
        assert(n <= l * t) by (nonlinear_arith)
            requires
                n == ua * t,
                ua <= l,
                t > 0,
        ;
        assert((2 * l) * (2 * l) > 4 * (l * t)) by (nonlinear_arith)
            requires
                l == 0x1000_0000_0000_0000 * t,
                t > 0,
        ;
    }
}

/// A magnitude's own count rounds to that magnitude.
pub proof fn lemma_rounded_exact(m: int, den: int)
    requires
        0 <= m <= INFINITE,
        den > 0,
    ensures
        units(m) * den >= 0,
        rounded(units(m) * den, den) == m,
{
    lemma_units_increase(0, m);
    let own = units(m);
    assert(own * den >= 0) by (nonlinear_arith)
        requires
            own >= 0,
            den > 0,
    ;
    assert(2 * (own * den) == (own + own) * den) by (nonlinear_arith);
    if m > 0 {
        lemma_units_step(m - 1);
        lemma_mul_strict_inequality(units(m - 1) + own, own + own, den);
    }
    lemma_units_step(m);
    lemma_mul_strict_inequality(own + own, own + units(m + 1), den);
    assert(nearest(m, own * den, den));
    lemma_rounded(own * den, den);
}

/// Rounding keeps the order of the fractions that are rounded.
pub proof fn lemma_rounded_ordered(num1: int, num2: int, den: int)
    requires
        den > 0,
        0 <= num1 <= num2,
    ensures
        rounded(num1, den) <= rounded(num2, den),
{
    lemma_rounded(num1, den);
    lemma_rounded(num2, den);
    lemma_nearest_ordered(rounded(num1, den), num1, rounded(num2, den), num2, den);
}

/// Where `p` significand units at exponent `e` end up, once scaled.
spec fn scaled(p: int, e: int) -> int {
    p * pow2((e + SCALE) as nat)
}

/// Whether `m` is the nearest magnitude of each number from `p` significand
/// units at exponent `e`, that one alone unless `sticky`, up to but without
/// `p + 1`.
spec fn nearest_scaled(m: int, p: int, e: int, sticky: bool) -> bool {
    let one = pow2(SCALE as nat) as int;
    &&& 0 <= m <= INFINITE
    &&& m > 0 ==> {
        let low = (units(m - 1) + units(m)) * one;
        low < 2 * scaled(p, e) || (low == 2 * scaled(p, e) && (sticky || m % 2 == 0))
    }
    &&& m < INFINITE ==> {
        let high = (units(m) + units(m + 1)) * one;
        if sticky {
            2 * scaled(p + 1, e) <= high
        } else {
            2 * scaled(p, e) < high || (2 * scaled(p, e) == high && m % 2 == 0)
        }
    }
}

/// A significand `p`, cut into `q` and a rest below `step`, and rounded.
proof fn lemma_round_cut(p: int, e: int, sticky: bool, q: int, s: int, step: int, up: bool)
    requires
        0 <= q < 0x100_0000,
        0 <= s <= 253,
        s > 0 ==> 0x80_0000 <= q,
        -SCALE <= e,
        s >= e,
        step == pow2((s - e) as nat),
        step >= 2,
        step % 2 == 0,
        q * step <= p < (q + 1) * step,
        up <==> (2 * (p - q * step) > step || (2 * (p - q * step) == step && (sticky || q % 2 != 0))),
    ensures
        nearest_scaled(q + (if up { 1int } else { 0int }) + s * 0x80_0000, p, e, sticky),
{
    let u = pow2((e + SCALE) as nat) as int;
    let one = pow2(SCALE as nat) as int;
    let w = pow2(s as nat) as int;
    lemma_pow2_pos((e + SCALE) as nat);
    lemma_pow2_pos(SCALE as nat);
    lemma_pow2_adds(s as nat, SCALE as nat);
    lemma_pow2_adds((s - e) as nat, (e + SCALE) as nat);
    assert(w * one == step * u);
    lemma_units_at(q, s);
    let m0 = q + s * 0x80_0000;
    let m1 = q + 1 + s * 0x80_0000;
    // Counts of the two candidates, scaled.
    assert(units(m0) * one == (q * step) * u) by (nonlinear_arith)
        requires
            units(m0) == q * w,
            w * one == step * u,
    ;
    assert(units(m1) * one == ((q + 1) * step) * u) by (nonlinear_arith)
        requires
            units(m1) == (q + 1) * w,
            w * one == step * u,
    ;
    let mid = (q * step) + ((q + 1) * step);
    assert((units(m0) + units(m1)) * one == mid * u) by (nonlinear_arith)
        requires
            units(m0) * one == (q * step) * u,
            units(m1) * one == ((q + 1) * step) * u,
            mid == (q * step) + ((q + 1) * step),
    ;
    assert((q + 1) * step == q * step + step) by (nonlinear_arith);
    assert(2 * scaled(p, e) == (2 * p) * u) by (nonlinear_arith)
        requires
            scaled(p, e) == p * u,
    ;
    assert(2 * scaled(p + 1, e) == (2 * (p + 1)) * u) by (nonlinear_arith)
        requires
            scaled(p + 1, e) == (p + 1) * u,
    ;
    if up {
        lemma_mul_inequality(mid, 2 * p, u);
        if mid < 2 * p {
            lemma_mul_strict_inequality(mid, 2 * p, u);
        }
        assert(m0 == m1 - 1);
        assert(m1 % 2 == 0 <==> q % 2 != 0);
        if m1 < INFINITE {
            lemma_units_step(m1);
            lemma_mul_inequality(2 * (p + 1), 2 * ((q + 1) * step), u);
            assert((units(m1) + units(m1 + 1)) * one > (2 * ((q + 1) * step)) * u)
                by (nonlinear_arith)
                requires
                    units(m1) * one == ((q + 1) * step) * u,
                    units(m1 + 1) > units(m1),
                    one > 0,
            ;
            lemma_mul_strict_inequality(2 * p, 2 * (p + 1), u);
        }
        assert(m1 <= INFINITE);
    } else {
        assert(m0 % 2 == 0 <==> q % 2 == 0);
        if m0 > 0 {
            lemma_units_step(m0 - 1);
            assert((units(m0 - 1) + units(m0)) * one < (2 * (q * step)) * u) by (nonlinear_arith)
                requires
                    units(m0) * one == (q * step) * u,
                    units(m0 - 1) < units(m0),
                    one > 0,
            ;
            lemma_mul_inequality(2 * (q * step), 2 * p, u);
        }
        if sticky {
            // The rest and half a step are both whole, so one more still fits.
            assert(2 * (p + 1) <= mid);
            lemma_mul_inequality(2 * (p + 1), mid, u);
        } else if 2 * p < mid {
            lemma_mul_strict_inequality(2 * p, mid, u);
        }
    }
}

/// The nearest magnitude of `p` significand units at exponent `e`, with more
/// below them if `sticky`.
fn round_normal(p: u64, e: i32, sticky: bool) -> (m: u32)
    requires
        p >= 0x8000_0000_0000_0000,
        -SCALE <= e <= 1000,
    ensures
        nearest_scaled(m as int, p as int, e as int, sticky),
{
    if e >= 214 {
        proof {
            lemma_round_overflow(p as int, e as int, sticky);
        }
        return INFINITE;
    }
    if e < -64 {
        proof {
            lemma_round_underflow(p as int, e as int, sticky);
        }
        return 0;
    }
    if e == -64 {
        let up = p > 0x8000_0000_0000_0000 || sticky;
        proof {
            lemma2_to64();
            lemma_pow2_unfold(64);
            lemma_round_cut(p as int, e as int, sticky, 0, 0, 0x1_0000_0000_0000_0000, up);
        }
        return if up { 1 } else { 0 };
    }
    let r: u32 = if e >= -40 { 40 } else { (-e) as u32 };
    let s: u32 = if e >= -40 { (e + 40) as u32 } else { 0 };
    proof {
        lemma2_to64();
        lemma2_to64_rest();
        lemma_pow2_pos(r as nat);
        lemma_pow2_strictly_increases(r as nat, 64);
        lemma_pow2_unfold(64);
        lemma_pow2_unfold(r as nat);
        lemma_u64_shl_is_mul(1u64, r as u64);
    }
    let step: u64 = 1u64 << (r as u64);
    assert(step == pow2(r as nat));
    let q: u64 = p / step;
    let rest: u64 = p % step;
    let half: u64 = step / 2;
    let up = rest > half || (rest == half && (sticky || q % 2 != 0));
    proof {
        let (pi, si, qi, ri) = (p as int, step as int, q as int, rest as int);
        assert(pi == qi * si + ri) by (nonlinear_arith)
            requires
                si > 0,
                qi == pi / si,
                ri == pi % si,
        ;
        assert((qi + 1) * si == qi * si + si) by (nonlinear_arith);
        if r > 40 {
            lemma_pow2_strictly_increases(40, r as nat);
        }
        assert(si >= 0x100_0000_0000);
        assert(qi < 0x100_0000) by (nonlinear_arith)
            requires
                pi < 0x1_0000_0000_0000_0000,
                si >= 0x100_0000_0000,
                qi * si <= pi,
        ;
        if s > 0 {
            assert(qi >= 0x80_0000) by (nonlinear_arith)
                requires
                    pi >= 0x8000_0000_0000_0000,
                    si == 0x100_0000_0000,
                    pi < (qi + 1) * si,
            ;
        }
        lemma_round_cut(pi, e as int, sticky, qi, s as int, si, up);
    }
    q as u32 + (if up { 1 } else { 0 }) + s * 0x80_0000
}

proof fn lemma_round_overflow(p: int, e: int, sticky: bool)
    requires
        p >= 0x8000_0000_0000_0000,
        e >= 214,
    ensures
        nearest_scaled(INFINITE as int, p, e, sticky),
{
    let one = pow2(SCALE as nat) as int;
    let u = pow2((e + SCALE) as nat) as int;
    let v = pow2(254) as int;
    let w = pow2(214) as int;
    lemma2_to64();
    lemma2_to64_rest();
    lemma_pow2_pos(SCALE as nat);
    lemma_pow2_pos(254);
    lemma_pow2_adds(40, 214);
    lemma_pow2_adds(214, SCALE as nat);
    if e > 214 {
        lemma_pow2_strictly_increases((214 + SCALE) as nat, (e + SCALE) as nat);
    }
    lemma_units_step(INFINITE - 1);
    assert(units(INFINITE as int) == 0x80_0000 * v);
    assert(p * u >= 0x8000_0000_0000_0000 * (w * one)) by (nonlinear_arith)
        requires
            p >= 0x8000_0000_0000_0000,
            u >= w * one,
            w * one >= 0,
    {
        assert(w * one >= 0);
    };
    assert(0x8000_0000_0000_0000 * (w * one) == units(INFINITE as int) * one) by (nonlinear_arith)
        requires
            units(INFINITE as int) == 0x80_0000 * v,
            v == 0x100_0000_0000 * w,
    ;
    assert((units(INFINITE - 1) + units(INFINITE as int)) * one < 2 * (units(INFINITE as int) * one))
        by (nonlinear_arith)
        requires
            units(INFINITE - 1) < units(INFINITE as int),
            one > 0,
    ;
}

proof fn lemma_round_underflow(p: int, e: int, sticky: bool)
    requires
        0 < p < 0x1_0000_0000_0000_0000,
        -SCALE <= e < -64,
    ensures
        nearest_scaled(0, p, e, sticky),
{
    let one = pow2(SCALE as nat) as int;
    let u = pow2((e + SCALE) as nat) as int;
    let r = pow2((-e) as nat) as int;
    lemma2_to64();
    lemma_pow2_unfold(64);
    lemma_pow2_unfold(65);
    lemma_pow2_pos((e + SCALE) as nat);
    lemma_pow2_adds((-e) as nat, (e + SCALE) as nat);
    if e < -65 {
        lemma_pow2_strictly_increases(65, (-e) as nat);
    }
    assert(units(0) == 0 && units(1) == 1);
    assert((units(0) + units(1)) * one == one);
    assert(2 * ((p + 1) * u) <= one && 2 * (p * u) < one) by (nonlinear_arith)
        requires
            one == r * u,
            r >= 0x2_0000_0000_0000_0000,
            0 < p < 0x1_0000_0000_0000_0000,
            u > 0,
    ;
}

/// A fraction in other terms has the same nearest magnitude.
proof fn lemma_nearest_terms(m: int, num: int, den: int, k: int)
    requires
        k > 0,
    ensures
        nearest(m, num * k, den * k) <==> nearest(m, num, den),
{
    assert(2 * (num * k) == (2 * num) * k) by (nonlinear_arith);
    let low = units(m - 1) + units(m);
    let high = units(m) + units(m + 1);
    assert(low * (den * k) == (low * den) * k) by (nonlinear_arith);
    assert(high * (den * k) == (high * den) * k) by (nonlinear_arith);
    let (a, b, c) = (low * den, 2 * num, high * den);
    assert((a * k < b * k <==> a < b) && (a * k == b * k <==> a == b)) by (nonlinear_arith)
        requires
            k > 0,
    ;
    assert((b * k < c * k <==> b < c) && (b * k == c * k <==> b == c)) by (nonlinear_arith)
        requires
            k > 0,
    ;
}

/// The nearest magnitude of exactly `p` significand units at exponent `e`.
fn round_exact(p: u64, e: i32) -> (m: u32)
    requires
        p > 0,
        -SCALE + 63 <= e <= 1000,
    ensures
        nearest(m as int, scaled(p as int, e as int), pow2(SCALE as nat) as int),
{
    let mut high: u64 = p;
    let mut exp: i32 = e;
    proof {
        lemma2_to64();
    }
    while high < 0x8000_0000_0000_0000
        invariant
            high > 0,
            -SCALE <= exp <= e <= 1000,
            -SCALE + 63 <= e,
            high as int >= pow2((e - exp) as nat),
            scaled(high as int, exp as int) == scaled(p as int, e as int),
        decreases exp + SCALE,
    {
        proof {
            lemma2_to64_rest();
            if e - exp > 63 {
                lemma_pow2_strictly_increases(63, (e - exp) as nat);
            }
            lemma_pow2_unfold((exp + SCALE) as nat);
            lemma_pow2_unfold((e - exp + 1) as nat);
            let u = pow2((exp - 1 + SCALE) as nat) as int;
            assert((high * 2) * u == high * (2 * u)) by (nonlinear_arith);
        }
        high = high * 2;
        exp = exp - 1;
    }
    round_normal(high, exp, false)
}

/// The magnitude nearest to a whole number.
pub fn round_whole(n: u32) -> (m: u32)
    ensures
        m == rounded(n * pow2(149), 1),
{
    let ghost t = pow2(149) as int;
    proof {
        lemma_pow2_pos(149);
        assert(n * t >= 0) by (nonlinear_arith)
            requires
                n >= 0,
                t > 0,
        ;
        lemma_rounded(n * t, 1);
    }
    if n == 0 {
        proof {
            assert(n * t == 0) by (nonlinear_arith)
                requires
                    n == 0,
            ;
            lemma_rounded_exact(0, 1);
        }
        return 0;
    }
    let m = round_exact(n as u64, 149);
    proof {
        let one = pow2(SCALE as nat) as int;
        lemma_pow2_pos(SCALE as nat);
        lemma_pow2_adds(149, SCALE as nat);
        assert(scaled(n as int, 149) == (n * t) * one) by (nonlinear_arith)
            requires
                scaled(n as int, 149) == n * (t * one),
        ;
        lemma_nearest_terms(m as int, n * t, 1, one);
    }
    m
}

/// The significand and the exponent of a finite magnitude.
fn parts(m: u32) -> (r: (u32, u32))
    requires
        m < INFINITE,
    ensures
        r.0 < 0x100_0000,
        r.1 <= 253,
        r.1 > 0 ==> r.0 >= 0x80_0000,
        m == r.0 + r.1 * 0x80_0000,
        units(m as int) == r.0 * pow2(r.1 as nat),
{
    let field: u32 = m / 0x80_0000;
    let r: (u32, u32) = if field == 0 {
        (m, 0)
    } else {
        (m % 0x80_0000 + 0x80_0000, field - 1)
    };
    proof {
        lemma_units_at(r.0 as int, r.1 as int);
    }
    r
}

/// A significand of at most twenty-four bits, at an exponent, is a magnitude.
pub proof fn lemma_representable(p: int, s: int) -> (m: int)
    requires
        0 <= p < 0x100_0000,
        0 <= s <= 253,
    ensures
        0 <= m < INFINITE,
        units(m) == p * pow2(s as nat),
    decreases s,
{
    if s == 0 || p >= 0x80_0000 {
        lemma_units_at(p, s);
        p + s * 0x80_0000
    } else {
        lemma_pow2_unfold(s as nat);
        let w = pow2((s - 1) as nat) as int;
        assert((2 * p) * w == p * (2 * w)) by (nonlinear_arith);
        lemma_representable(2 * p, s - 1)
    }
}

/// What is left of a multiple of a power of two by another.
proof fn lemma_remainder_scaled(qa: int, sa: int, qb: int, sb: int)
    requires
        0 <= qa,
        0 < qb,
        0 <= sb <= sa,
    ensures
        (qa * pow2(sa as nat)) % (qb * pow2(sb as nat)) == ((qa * pow2((sa - sb) as nat)) % qb)
            * pow2(sb as nat),
{
    let d = (sa - sb) as nat;
    lemma_pow2_adds(d, sb as nat);
    lemma_pow2_pos(sb as nat);
    lemma_pow2_pos(d);
    let (w, x) = (pow2(sb as nat) as int, qa * pow2(d));
    assert(x >= 0) by (nonlinear_arith)
        requires
            x == qa * pow2(d),
            qa >= 0,
    ;
    vstd::arithmetic::div_mod::lemma_truncate_middle(x, w, qb);
    let pd = pow2(d) as int;
    assert(qa * (pd * w) == w * (qa * pd)) by (nonlinear_arith);
    assert(qb * w == w * qb) by (nonlinear_arith);
    let rest = x % qb;
    assert(w * rest == rest * w) by (nonlinear_arith);
}

/// What is left of a magnitude by another is a magnitude.
pub proof fn lemma_remainder(a: int, b: int)
    requires
        0 <= a < INFINITE,
        0 < b < INFINITE,
    ensures
        0 <= units(a) % units(b) < units(b),
        0 <= rounded(units(a) % units(b), 1) < INFINITE,
        units(rounded(units(a) % units(b), 1)) == units(a) % units(b),
{
    lemma_units_increase(0, a);
    lemma_units_increase(0, b);
    let m = if a < b {
        lemma_units_increase(a, b);
        vstd::arithmetic::div_mod::lemma_small_mod(units(a) as nat, units(b) as nat);
        a
    } else {
        let sa: int = if a / 0x80_0000 == 0 { 0 } else { a / 0x80_0000 - 1 };
        let sb: int = if b / 0x80_0000 == 0 { 0 } else { b / 0x80_0000 - 1 };
        let (qa, qb) = (a - sa * 0x80_0000, b - sb * 0x80_0000);
        lemma_units_at(qa, sa);
        lemma_units_at(qb, sb);
        lemma_remainder_scaled(qa, sa, qb, sb);
        lemma_representable((qa * pow2((sa - sb) as nat)) % qb, sb)
    };
    lemma_rounded_exact(m, 1);
}

/// What is left of a magnitude by another.
pub fn remainder(a: u32, b: u32) -> (m: u32)
    requires
        a < INFINITE,
        0 < b < INFINITE,
    ensures
        m == rounded(units(a as int) % units(b as int), 1),
{
    proof {
        lemma_remainder(a as int, b as int);
        lemma_units_increase(0, a as int);
        lemma_units_increase(0, b as int);
    }
    if a < b {
        proof {
            lemma_units_increase(a as int, b as int);
            vstd::arithmetic::div_mod::lemma_small_mod(
                units(a as int) as nat,
                units(b as int) as nat,
            );
            lemma_rounded_exact(a as int, 1);
        }
        return a;
    }
    let (qa, sa) = parts(a);
    let (qb, sb) = parts(b);
    let mut rest: u32 = qa % qb;
    let mut i: u32 = sb;
    proof {
        lemma2_to64();
        assert((i - sb) as nat == 0);
        assert(qa * pow2(0) == qa);
    }
    while i < sa
        invariant
            sb <= i <= sa <= 253,
            0 < qb < 0x100_0000,
            rest < qb,
            rest == (qa * pow2((i - sb) as nat)) % (qb as int),
        decreases sa - i,
    {
        proof {
            lemma_pow2_unfold((i + 1 - sb) as nat);
            let x = qa * pow2((i - sb) as nat);
            vstd::arithmetic::div_mod::lemma_mul_mod_noop_left(x, 2, qb as int);
            let w = pow2((i - sb) as nat) as int;
            assert((qa * w) * 2 == qa * (2 * w)) by (nonlinear_arith);
        }
        rest = (rest * 2) % qb;
        i += 1;
    }
    proof {
        lemma_remainder_scaled(qa as int, sa as int, qb as int, sb as int);
    }
    let ghost left = rest * pow2(sb as nat);
    let mut s: u32 = sb;
    while rest < 0x80_0000 && s > 0
        invariant
            rest < 0x100_0000,
            s <= sb <= 253,
            rest * pow2(s as nat) == left,
        decreases s,
    {
        proof {
            lemma_pow2_unfold(s as nat);
            let w = pow2((s - 1) as nat) as int;
            assert((2 * rest) * w == rest * (2 * w)) by (nonlinear_arith);
        }
        rest = rest * 2;
        s -= 1;
    }
    let m = rest + s * 0x80_0000;
    proof {
        lemma_units_at(rest as int, s as int);
        lemma_rounded_exact(m as int, 1);
    }
    m
}

/// The magnitude nearest to the sum, or to the difference, of two others.
pub fn combine(a: u32, b: u32, subtract: bool) -> (m: u32)
    requires
        0 < b <= a < INFINITE,
        subtract ==> b < a,
    ensures
        m == rounded(
            if subtract {
                units(a as int) - units(b as int)
            } else {
                units(a as int) + units(b as int)
            },
            1,
        ),
{
    let (qa, sa) = parts(a);
    let (qb, sb) = parts(b);
    let ghost n = if subtract {
        units(a as int) - units(b as int)
    } else {
        units(a as int) + units(b as int)
    };
    proof {
        lemma_units_increase(b as int, a as int);
        lemma_units_step(b - 1);
        lemma_units_step(0);
        lemma_units_increase(0, b - 1);
        lemma_rounded(n, 1);
    }
    assert(sa >= sb) by {
        if sa < sb {
            assert(sa * 0x80_0000 + 0x80_0000 <= sb * 0x80_0000);
        }
    }
    let gap: u32 = sa - sb;
    if gap > 39 {
        proof {
            lemma_absorbed(a as int, b as int, sa as int, sb as int, n);
        }
        return a;
    }
    let ghost wb = pow2(sb as nat) as int;
    proof {
        lemma2_to64();
        lemma2_to64_rest();
        lemma_u64_shl_is_mul(1u64, gap as u64);
        lemma_pow2_adds(gap as nat, sb as nat);
        lemma_pow2_pos(sb as nat);
        lemma_pow2_pos(gap as nat);
        if gap < 39 {
            lemma_pow2_strictly_increases(gap as nat, 39);
        }
    }
    let step: u64 = 1u64 << (gap as u64);
    assert(step == pow2(gap as nat));
    assert(qa * step <= 0xff_ffff * 0x80_0000_0000) by (nonlinear_arith)
        requires
            qa <= 0xff_ffff,
            step <= 0x80_0000_0000,
    ;
    let wide: u64 = qa as u64 * step;
    proof {
        let (x, y, z) = (qa as int, step as int, qb as int);
        assert((x * y) * wb == units(a as int)) by (nonlinear_arith)
            requires
                units(a as int) == x * (y * wb),
        ;
        assert((x * y - z) * wb == units(a as int) - units(b as int)) by (nonlinear_arith)
            requires
                (x * y) * wb == units(a as int),
                z * wb == units(b as int),
        ;
        assert((x * y + z) * wb == units(a as int) + units(b as int)) by (nonlinear_arith)
            requires
                (x * y) * wb == units(a as int),
                z * wb == units(b as int),
        ;
        let t = x * y - z;
        if subtract {
            assert(t > 0) by (nonlinear_arith)
                requires
                    t * wb > 0,
                    wb > 0,
            ;
        }
    }
    let total: u64 = if subtract {
        wide - qb as u64
    } else {
        wide + qb as u64
    };
    assert(total > 0) by {
        if !subtract {
            assert(total * wb > 0);
            if total == 0 {
                assert(total * wb == 0) by (nonlinear_arith)
                    requires
                        total == 0,
                ;
            }
        }
    }
    let m = round_exact(total, sb as i32);
    proof {
        let one = pow2(SCALE as nat) as int;
        lemma_pow2_pos(SCALE as nat);
        lemma_pow2_adds(sb as nat, SCALE as nat);
        assert(scaled(total as int, sb as int) == n * one) by (nonlinear_arith)
            requires
                scaled(total as int, sb as int) == total * (wb * one),
                total * wb == n,
        ;
        lemma_nearest_terms(m as int, n, 1, one);
    }
    m
}

/// A magnitude far below another does not move it.
proof fn lemma_absorbed(a: int, b: int, sa: int, sb: int, n: int)
    requires
        0 < b <= a < INFINITE,
        0 <= sb,
        sb + 40 <= sa <= 253,
        0x80_0000 <= a - sa * 0x80_0000 < 0x100_0000,
        0 <= b - sb * 0x80_0000 < 0x100_0000,
        sb > 0 ==> 0x80_0000 <= b - sb * 0x80_0000,
        n == units(a) + units(b) || n == units(a) - units(b),
        n >= 0,
    ensures
        rounded(n, 1) == a,
{
    let qa = a - sa * 0x80_0000;
    let qb = b - sb * 0x80_0000;
    lemma_units_at(qa, sa);
    lemma_units_at(qb, sb);
    lemma2_to64();
    lemma2_to64_rest();
    lemma_pow2_pos(sb as nat);
    lemma_pow2_adds(39, sb as nat);
    lemma_pow2_unfold(sa as nat);
    if sb + 39 < sa - 1 {
        lemma_pow2_strictly_increases((sb + 39) as nat, (sa - 1) as nat);
    }
    let wb = pow2(sb as nat) as int;
    let half = pow2((sa - 1) as nat) as int;
    let wa = pow2(sa as nat) as int;
    assert(4 * (qb * wb) < half) by (nonlinear_arith)
        requires
            qb < 0x100_0000,
            half >= 0x80_0000_0000 * wb,
            wb > 0,
    ;
    assert((qa + 1) * wa == qa * wa + wa) by (nonlinear_arith);
    assert(units(a + 1) == units(a) + wa);
    if qa > 0x80_0000 {
        lemma_units_at(qa - 1, sa);
        assert((qa - 1) * wa == qa * wa - wa) by (nonlinear_arith);
    } else {
        lemma_units_at(0xff_ffff, sa - 1);
        assert(a - 1 == 0xff_ffff + (sa - 1) * 0x80_0000);
        assert(0xff_ffff * half == 0x80_0000 * wa - half);
        assert(qa * wa == 0x80_0000 * wa) by (nonlinear_arith)
            requires
                qa == 0x80_0000,
        ;
    }
    assert(units(a) - units(a - 1) >= half);
    assert(units(b) >= 0) by {
        lemma_units_increase(0, b);
    }
    assert(units(b) > 0) by {
        lemma_units_increase(0, b);
    }
    assert(nearest(a, n, 1));
    lemma_rounded(n, 1);
}

/// The magnitude nearest to the product of two others.
pub fn multiply(a: u32, b: u32) -> (m: u32)
    requires
        0 < a < INFINITE,
        0 < b < INFINITE,
    ensures
        m == rounded(units(a as int) * units(b as int), pow2(149) as int),
{
    let (qa, sa) = parts(a);
    let (qb, sb) = parts(b);
    let ghost (x, y, wa, wb) = (
        qa as int,
        qb as int,
        pow2(sa as nat) as int,
        pow2(sb as nat) as int,
    );
    proof {
        lemma_units_increase(0, a as int);
        lemma_units_increase(0, b as int);
        lemma_pow2_pos(sa as nat);
        lemma_pow2_pos(sb as nat);
    }
    assert(x > 0) by (nonlinear_arith)
        requires
            x * wa > 0,
            wa > 0,
    ;
    assert(y > 0) by (nonlinear_arith)
        requires
            y * wb > 0,
            wb > 0,
    ;
    assert(0 < x * y <= 0xff_ffff * 0xff_ffff) by (nonlinear_arith)
        requires
            0 < x <= 0xff_ffff,
            0 < y <= 0xff_ffff,
    ;
    let p: u64 = qa as u64 * qb as u64;
    let e: i32 = sa as i32 + sb as i32 - 149;
    let m = round_exact(p, e);
    proof {
        let one = pow2(SCALE as nat) as int;
        let unit = pow2(149) as int;
        let product = units(a as int) * units(b as int);
        let u = pow2((e + SCALE) as nat) as int;
        lemma_pow2_pos(SCALE as nat);
        lemma_pow2_pos(149);
        lemma_pow2_adds(sa as nat, sb as nat);
        lemma_pow2_adds((sa + sb) as nat, SCALE as nat);
        lemma_pow2_adds(149, (e + SCALE) as nat);
        assert(product * one == ((x * y) * u) * unit) by (nonlinear_arith)
            requires
                product == (x * wa) * (y * wb),
                (wa * wb) * one == unit * u,
        ;
        assert(unit * one == one * unit) by (nonlinear_arith);
        lemma_nearest_terms(m as int, scaled(p as int, e as int), one, unit);
        lemma_nearest_terms(m as int, product, unit, one);
        assert(product > 0) by (nonlinear_arith)
            requires
                product == units(a as int) * units(b as int),
                units(a as int) > 0,
                units(b as int) > 0,
        ;
        lemma_rounded(product, unit);
    }
    m
}

/// The whole number nearest to a magnitude, away from zero where two are.
pub open spec fn nearest_whole(m: int) -> int {
    (2 * units(m) + pow2(149)) / (pow2(150) as int)
}

/// The whole number nearest to a finite magnitude, up to `cap`.
pub fn round_to_whole(m: u32, cap: u32) -> (r: u32)
    requires
        m < INFINITE,
    ensures
        r == (if nearest_whole(m as int) < cap {
            nearest_whole(m as int)
        } else {
            cap as int
        }),
{
    let (q, s) = parts(m);
    let ghost (x, w, half, full) = (
        q as int,
        pow2(s as nat) as int,
        pow2(149) as int,
        pow2(150) as int,
    );
    proof {
        lemma_pow2_pos(149);
        lemma_pow2_pos(s as nat);
        lemma_pow2_unfold(150);
        lemma2_to64();
        lemma2_to64_rest();
    }
    if s >= 149 {
        let k: u32 = s - 149;
        let ghost v = pow2(k as nat) as int;
        proof {
            lemma_pow2_adds(k as nat, 149);
            lemma_pow2_pos(k as nat);
            assert(2 * (x * w) == (x * v) * full) by (nonlinear_arith)
                requires
                    w == v * half,
                    full == 2 * half,
            ;
            assert(((x * v) * full + half) / full == x * v) by (nonlinear_arith)
                requires
                    0 < half < full,
            ;
            assert(nearest_whole(m as int) == x * v);
        }
        if k > 31 {
            proof {
                lemma_pow2_strictly_increases(31, k as nat);
                assert(x * v >= 0x1_0000_0000) by (nonlinear_arith)
                    requires
                        x >= 0x80_0000,
                        v >= 0x8000_0000,
                ;
            }
            return cap;
        }
        proof {
            lemma_u64_shl_is_mul(1u64, k as u64);
            if k < 31 {
                lemma_pow2_strictly_increases(k as nat, 31);
            }
            assert(x * v <= 0xff_ffff * 0x8000_0000) by (nonlinear_arith)
                requires
                    0 <= x <= 0xff_ffff,
                    0 < v <= 0x8000_0000,
            ;
        }
        let whole: u64 = q as u64 * (1u64 << (k as u64));
        return if whole < cap as u64 {
            whole as u32
        } else {
            cap
        };
    }
    let k: u32 = 149 - s;
    let ghost v = pow2(k as nat) as int;
    proof {
        lemma_pow2_adds(k as nat, s as nat);
        lemma_pow2_pos(k as nat);
        lemma_pow2_unfold((k + 1) as nat);
        assert(2 * (x * w) + half == (2 * x + v) * w) by (nonlinear_arith)
            requires
                half == v * w,
        ;
        let (n, d) = (2 * x + v, 2 * v);
        assert((n * w) / (d * w) == n / d) by {
            vstd::arithmetic::div_mod::lemma_div_denominator(n * w, w, d);
            vstd::arithmetic::div_mod::lemma_div_by_multiple(n, w);
            assert(w * d == d * w) by (nonlinear_arith);
        }
        assert(full == d * w) by (nonlinear_arith)
            requires
                full == 2 * half,
                half == v * w,
                d == 2 * v,
        ;
        assert(nearest_whole(m as int) == (2 * x + v) / (2 * v));
    }
    if k > 25 {
        proof {
            lemma_pow2_strictly_increases(25, k as nat);
            assert((2 * x + v) / (2 * v) == 0) by (nonlinear_arith)
                requires
                    0 <= 2 * x < v,
            ;
        }
        return 0;
    }
    proof {
        lemma_u64_shl_is_mul(1u64, k as u64);
        if k < 25 {
            lemma_pow2_strictly_increases(k as nat, 25);
        }
    }
    let step: u64 = 1u64 << (k as u64);
    let whole: u64 = (2 * q as u64 + step) / (2 * step);
    proof {
        assert(whole <= 0x200_0000 && whole as int == (2 * x + v) / (2 * v)) by (nonlinear_arith)
            requires
                whole as int == (2 * x + v) / (2 * v),
                0 <= x < 0x100_0000,
                v >= 1,
        ;
    }
    if whole < cap as u64 {
        whole as u32
    } else {
        cap
    }
}

/// From this magnitude on every number is whole.
pub const ALL_WHOLE: u32 = 0x4b00_0000;

/// The whole part of a magnitude.
pub open spec fn whole_below(m: int) -> int {
    units(m) / (pow2(149) as int)
}

/// The whole part of a magnitude below which not every number is whole.
pub fn whole_part(m: u32) -> (r: u32)
    requires
        m < ALL_WHOLE,
    ensures
        r == whole_below(m as int),
        r < 0x80_0000,
{
    let (q, s) = parts(m);
    let k: u32 = 149 - s;
    let ghost (x, w, v) = (q as int, pow2(s as nat) as int, pow2(k as nat) as int);
    proof {
        lemma_pow2_adds(k as nat, s as nat);
        lemma_pow2_pos(k as nat);
        lemma_pow2_pos(s as nat);
        lemma2_to64();
        lemma2_to64_rest();
        assert(w * v == v * w) by (nonlinear_arith);
        vstd::arithmetic::div_mod::lemma_div_denominator(x * w, w, v);
        vstd::arithmetic::div_mod::lemma_div_by_multiple(x, w);
        assert(whole_below(m as int) == x / v);
    }
    if k > 24 {
        proof {
            lemma_pow2_strictly_increases(24, k as nat);
            assert(x / v == 0) by (nonlinear_arith)
                requires
                    0 <= x < v,
            ;
        }
        return 0;
    }
    proof {
        lemma_u64_shl_is_mul(1u64, k as u64);
        if k < 24 {
            lemma_pow2_strictly_increases(k as nat, 24);
        }
        if k > 1 {
            lemma_pow2_strictly_increases(1, k as nat);
        }
        assert(x / v < 0x80_0000 && 0 <= x / v) by (nonlinear_arith)
            requires
                0 <= x < 0x100_0000,
                v >= 2,
        ;
    }
    let whole: u64 = q as u64 / (1u64 << (k as u64));
    whole as u32
}

/// A nonzero magnitude as a full significand and an exponent.
fn normal_parts(m: u32) -> (r: (u32, i32))
    requires
        0 < m < INFINITE,
    ensures
        0x80_0000 <= r.0 < 0x100_0000,
        -23 <= r.1 <= 253,
        units(m as int) * 0x80_0000 == r.0 * pow2((r.1 + 23) as nat),
{
    let (q0, s0) = parts(m);
    let mut q: u32 = q0;
    let mut e: i32 = s0 as i32;
    proof {
        lemma2_to64();
        lemma_pow2_adds(s0 as nat, 23);
        let (x, w) = (q0 as int, pow2(s0 as nat) as int);
        assert((x * w) * 0x80_0000 == x * (w * 0x80_0000)) by (nonlinear_arith);
        lemma_units_increase(0, m as int);
        lemma_pow2_pos(s0 as nat);
        assert(x > 0) by (nonlinear_arith)
            requires
                x * w > 0,
                w > 0,
        ;
    }
    while q < 0x80_0000
        invariant
            0 < q < 0x100_0000,
            q < 0x80_0000 ==> e <= 0,
            -23 <= e <= 253,
            e <= 0 ==> q >= pow2((-e) as nat),
            units(m as int) * 0x80_0000 == q * pow2((e + 23) as nat),
        decreases e + 23,
    {
        proof {
            lemma2_to64();
            lemma_pow2_unfold((1 - e) as nat);
            lemma_pow2_unfold((e + 23) as nat);
            let u = pow2((e + 22) as nat) as int;
            assert((q * 2) * u == q * (2 * u)) by (nonlinear_arith);
        }
        q = q * 2;
        e = e - 1;
    }
    (q, e)
}

/// The magnitude nearest to the quotient of two others.
pub fn divide(a: u32, b: u32) -> (m: u32)
    requires
        0 < a < INFINITE,
        0 < b < INFINITE,
    ensures
        m == rounded(units(a as int) * pow2(149), units(b as int)),
{
    let (qa, ea) = normal_parts(a);
    let (qb, eb) = normal_parts(b);
    let k: i32 = if qa >= qb { 63 } else { 64 };
    let wide: u128 = if qa >= qb {
        qa as u128 * 0x8000_0000_0000_0000
    } else {
        qa as u128 * 0x1_0000_0000_0000_0000
    };
    let quotient: u128 = wide / qb as u128;
    let rest: u128 = wide % qb as u128;
    let ghost (n, q, r, y) = (wide as int, quotient as int, rest as int, qb as int);
    assert(n == q * y + r) by (nonlinear_arith)
        requires
            y > 0,
            q == n / y,
            r == n % y,
    ;
    assert(q >= 0x8000_0000_0000_0000) by (nonlinear_arith)
        requires
            n >= 0x8000_0000_0000_0000 * y,
            n == q * y + r,
            0 <= r < y,
    ;
    assert(q < 0x1_0000_0000_0000_0000) by (nonlinear_arith)
        requires
            n < 0x1_0000_0000_0000_0000 * y,
            n == q * y + r,
            0 <= r < y,
    ;
    let e: i32 = ea - eb + 149 - k;
    let sticky = rest != 0;
    let m = round_normal(quotient as u64, e, sticky);
    proof {
        lemma2_to64();
        lemma2_to64_rest();
        lemma_divide(a as int, b as int, qa as int, ea as int, y, eb as int, k as int, n, q, r, m as int);
    }
    m
}

proof fn lemma_divide(
    a: int,
    b: int,
    qa: int,
    ea: int,
    qb: int,
    eb: int,
    k: int,
    n: int,
    q: int,
    r: int,
    m: int,
)
    requires
        0 < a < INFINITE,
        0 < b < INFINITE,
        -23 <= ea <= 253,
        -23 <= eb <= 253,
        qb > 0,
        k == 63 || k == 64,
        units(a) * 0x80_0000 == qa * pow2((ea + 23) as nat),
        units(b) * 0x80_0000 == qb * pow2((eb + 23) as nat),
        n == qa * pow2(k as nat),
        n == q * qb + r,
        0 <= r < qb,
        nearest_scaled(m, q, ea - eb + 149 - k, r != 0),
    ensures
        m == rounded(units(a) * pow2(149), units(b)),
{
    let e = ea - eb + 149 - k;
    let one = pow2(SCALE as nat) as int;
    let u = pow2((e + SCALE) as nat) as int;
    let v = pow2((eb + 23) as nat) as int;
    let t = pow2(149) as int;
    let c = 0x80_0000int;
    lemma_pow2_pos(SCALE as nat);
    lemma_pow2_pos((e + SCALE) as nat);
    lemma_pow2_pos((eb + 23) as nat);
    lemma_pow2_pos(149);
    lemma_units_increase(0, a);
    lemma_units_increase(0, b);
    // Both sides of the fraction, scaled alike.
    lemma_pow2_adds((ea + 23) as nat, 149);
    lemma_pow2_adds((ea + 172) as nat, SCALE as nat);
    lemma_pow2_adds(k as nat, (e + SCALE) as nat);
    lemma_pow2_adds((k + e + SCALE) as nat, (eb + 23) as nat);
    let xa = pow2((ea + 23) as nat) as int;
    let wk = pow2(k as nat) as int;
    assert(xa * t * one == wk * u * v);
    let (ua, ub) = (units(a), units(b));
    assert(((ua * t) * c) * one == (ua * c) * (t * one)) by (nonlinear_arith);
    assert((qa * xa) * (t * one) == qa * (xa * t * one)) by (nonlinear_arith);
    assert(qa * (wk * u * v) == ((qa * wk) * u) * v) by (nonlinear_arith);
    assert(((ua * t) * c) * one == (n * u) * v);
    assert((ub * c) * one == (qb * one) * v) by (nonlinear_arith)
        requires
            ub * c == qb * v,
    ;
    lemma_nearest_terms(m, ua * t, ub, c);
    lemma_nearest_terms(m, (ua * t) * c, ub * c, one);
    lemma_nearest_terms(m, n * u, qb * one, v);
    let two_p = 2 * scaled(q, e);
    assert(two_p == (2 * q) * u) by (nonlinear_arith)
        requires
            two_p == 2 * (q * u),
    ;
    if m > 0 {
        let low = units(m - 1) + units(m);
        assert(low * (qb * one) == (low * one) * qb) by (nonlinear_arith);
        let l = low * one;
        assert(l <= (2 * q) * u);
        assert(l * qb <= 2 * (n * u)) by (nonlinear_arith)
            requires
                l <= (2 * q) * u,
                n == q * qb + r,
                r >= 0,
                u > 0,
                qb > 0,
        ;
        if l < (2 * q) * u {
            assert(l * qb < 2 * (n * u)) by (nonlinear_arith)
                requires
                    l < (2 * q) * u,
                    n == q * qb + r,
                    r >= 0,
                    u > 0,
                    qb > 0,
            ;
        } else if r != 0 {
            assert(l * qb < 2 * (n * u)) by (nonlinear_arith)
                requires
                    l == (2 * q) * u,
                    n == q * qb + r,
                    r > 0,
                    u > 0,
                    qb > 0,
            ;
        }
    }
    if m < INFINITE {
        let high = units(m) + units(m + 1);
        assert(high * (qb * one) == (high * one) * qb) by (nonlinear_arith);
        let h = high * one;
        if r != 0 {
            assert(2 * ((q + 1) * u) <= h);
            assert(2 * (n * u) < h * qb) by (nonlinear_arith)
                requires
                    2 * ((q + 1) * u) <= h,
                    n == q * qb + r,
                    r < qb,
                    u > 0,
                    qb > 0,
            ;
        } else if (2 * q) * u < h {
            assert(2 * (n * u) < h * qb) by (nonlinear_arith)
                requires
                    (2 * q) * u < h,
                    n == q * qb,
                    u > 0,
                    qb > 0,
            ;
        } else {
            assert(2 * (n * u) == h * qb) by (nonlinear_arith)
                requires
                    (2 * q) * u == h,
                    n == q * qb,
            ;
        }
    }
    assert(nearest(m, n * u, qb * one));
    assert(ua * t > 0) by (nonlinear_arith)
        requires
            ua > 0,
            t > 0,
    ;
    lemma_rounded(ua * t, ub);
}

/// The greatest whole number whose square is at most `n`.
fn floor_root(n: u128) -> (p: u64)
    ensures
        p * p <= n < (p + 1) * (p + 1),
{
    let mut root: u128 = 0;
    let mut bit: u128 = 0x8000_0000_0000_0000;
    let mut left: u32 = 64;
    proof {
        lemma2_to64();
        lemma2_to64_rest();
        assert((0 + 2 * 0x8000_0000_0000_0000) * (0 + 2 * 0x8000_0000_0000_0000int)
            == 0x1_0000_0000_0000_0000_0000_0000_0000_0000int) by (nonlinear_arith);
        assert(0 * 0 == 0int) by (nonlinear_arith);
    }
    while left > 0
        invariant
            left <= 64,
            left > 0 ==> bit == pow2((left - 1) as nat),
            root * root <= n,
            n < (root + pow2(left as nat)) * (root + pow2(left as nat)),
            root + pow2(left as nat) <= 0x1_0000_0000_0000_0000,
        decreases left,
    {
        proof {
            lemma_pow2_unfold(left as nat);
            lemma_pow2_pos((left - 1) as nat);
            lemma2_to64();
        }
        let next: u128 = root + bit;
        assert(next * next <= 0xffff_ffff_ffff_ffff * 0xffff_ffff_ffff_ffff) by (nonlinear_arith)
            requires
                next <= 0xffff_ffff_ffff_ffff,
        ;
        if next * next <= n {
            root = next;
        }
        bit = bit / 2;
        left = left - 1;
        proof {
            if left > 0 {
                lemma_pow2_unfold(left as nat);
            }
        }
    }
    proof {
        lemma2_to64();
        assert(root <= 0xffff_ffff_ffff_ffff);
    }
    root as u64
}

/// A count has no second nearest root.
proof fn lemma_nearest_root_unique(m1: int, m2: int, n: int)
    requires
        nearest_root(m1, n),
        nearest_root(m2, n),
    ensures
        m1 == m2,
    decreases (if m1 > m2 { 1int } else { 0 }),
{
    if m1 > m2 {
        lemma_nearest_root_unique(m2, m1, n);
    } else if m1 < m2 {
        lemma_units_increase(0, m1);
        lemma_units_increase(m1, m2 - 1);
        lemma_units_increase(m1 + 1, m2);
        lemma_units_increase(m1, m1 + 1);
        let high = units(m1) + units(m1 + 1);
        let low = units(m2 - 1) + units(m2);
        assert(high * high <= low * low && (high < low ==> high * high < low * low))
            by (nonlinear_arith)
            requires
                0 <= high <= low,
        ;
        assert(false);
    }
}

/// The magnitude nearest to the square root of another.
pub fn root(a: u32) -> (m: u32)
    requires
        0 < a < INFINITE,
    ensures
        m == rounded_root(units(a as int) * pow2(149)),
{
    let (q, e) = normal_parts(a);
    let even = e % 2 == 0;
    let wide: u128 = if even {
        q as u128 * 0x80_0000_0000_0000_0000_0000_0000
    } else {
        q as u128 * 0x100_0000_0000_0000_0000_0000_0000
    };
    let h: i32 = if even { (e + 46) / 2 } else { (e + 45) / 2 };
    let p = floor_root(wide);
    assert(p >= 0x8000_0000_0000_0000) by {
        if p < 0x8000_0000_0000_0000 {
            assert((p + 1) * (p + 1) <= 0x8000_0000_0000_0000 * 0x8000_0000_0000_0000)
                by (nonlinear_arith)
                requires
                    0 <= p < 0x8000_0000_0000_0000,
            ;
        }
    }
    assert(p as int * p as int <= 0xffff_ffff_ffff_ffff * 0xffff_ffff_ffff_ffff) by (nonlinear_arith)
        requires
            0 <= p <= 0xffff_ffff_ffff_ffff,
    ;
    let sticky = p as u128 * p as u128 != wide;
    let m = round_normal(p, h, sticky);
    proof {
        let j: int = if even { 103 } else { 104 };
        assert(pow2(103) == 0x80_0000_0000_0000_0000_0000_0000) by {
            lemma2_to64();
            lemma2_to64_rest();
            lemma_pow2_adds(60, 43);
        }
        assert(pow2(104) == 0x100_0000_0000_0000_0000_0000_0000) by {
            lemma_pow2_unfold(104);
        }
        assert(2 * h == e + 149 - j);
        lemma_root(a as int, q as int, e as int, j, h as int, wide as int, p as int, m as int);
    }
    m
}

proof fn lemma_root(a: int, q: int, e: int, j: int, h: int, n: int, p: int, m: int)
    requires
        0 < a < INFINITE,
        -23 <= e <= 253,
        units(a) * 0x80_0000 == q * pow2((e + 23) as nat),
        j == 103 || j == 104,
        2 * h == e + 149 - j,
        n == q * pow2(j as nat),
        p * p <= n < (p + 1) * (p + 1),
        p >= 0,
        nearest_scaled(m, p, h, p * p != n),
    ensures
        m == rounded_root(units(a) * pow2(149)),
{
    let one = pow2(SCALE as nat) as int;
    let u = pow2((h + SCALE) as nat) as int;
    let t = pow2(149) as int;
    let x = pow2((e + 23) as nat) as int;
    let wj = pow2(j as nat) as int;
    let c = pow2(23) as int;
    lemma2_to64();
    lemma_pow2_pos(SCALE as nat);
    lemma_pow2_pos((h + SCALE) as nat);
    lemma_pow2_pos(23);
    // The radicand and the square of the scaled root agree.
    lemma_pow2_adds((h + SCALE) as nat, (h + SCALE) as nat);
    lemma_pow2_adds(SCALE as nat, SCALE as nat);
    lemma_pow2_adds((e + 23) as nat, 149);
    lemma_pow2_adds((e + 172) as nat, (2 * SCALE) as nat);
    lemma_pow2_adds(j as nat, (2 * h + 2 * SCALE) as nat);
    lemma_pow2_adds((j + 2 * h + 2 * SCALE) as nat, 23);
    let (uu, oo) = (u * u, one * one);
    assert((x * t) * oo == (wj * uu) * c);
    let ua = units(a);
    let r = ua * t;
    assert((r * oo) * c == (ua * c) * (t * oo)) by (nonlinear_arith)
        requires
            r == ua * t,
    ;
    assert((q * x) * (t * oo) == q * ((x * t) * oo)) by (nonlinear_arith);
    assert(q * ((wj * uu) * c) == ((q * wj) * uu) * c) by (nonlinear_arith);
    assert((r * oo) * c == (n * uu) * c);
    assert(r * oo == n * uu) by (nonlinear_arith)
        requires
            (r * oo) * c == (n * uu) * c,
            c > 0,
    ;
    let s = p * u;
    assert(s >= 0) by (nonlinear_arith)
        requires
            p >= 0,
            u > 0,
            s == p * u,
    ;
    assert(s * s == (p * p) * uu) by (nonlinear_arith)
        requires
            s == p * u,
            uu == u * u,
    ;
    assert(uu > 0) by (nonlinear_arith)
        requires
            uu == u * u,
            u > 0,
    ;
    assert(oo > 0) by (nonlinear_arith)
        requires
            oo == one * one,
            one > 0,
    ;
    lemma_mul_inequality(p * p, n, uu);
    if p * p < n {
        lemma_mul_strict_inequality(p * p, n, uu);
    }
    assert(4 * (r * oo) == (4 * r) * oo) by (nonlinear_arith);
    if m > 0 {
        let low = units(m - 1) + units(m);
        lemma_units_increase(0, m - 1);
        lemma_units_increase(0, m);
        let l = low * one;
        assert(l * l == (low * low) * oo) by (nonlinear_arith)
            requires
                l == low * one,
                oo == one * one,
        ;
        assert(l >= 0) by (nonlinear_arith)
            requires
                low >= 0,
                one > 0,
                l == low * one,
        ;
        assert(l * l <= 4 * (s * s) && (l < 2 * s ==> l * l < 4 * (s * s))) by (nonlinear_arith)
            requires
                0 <= l <= 2 * s,
        ;
        let (f, g) = (low * low, 4 * r);
        assert((f * oo < g * oo ==> f < g) && (f * oo <= g * oo ==> f <= g)) by (nonlinear_arith)
            requires
                oo > 0,
        ;
        if l == 2 * s && p * p == n {
            assert(m % 2 == 0);
        }
    }
    if m < INFINITE {
        let high = units(m) + units(m + 1);
        lemma_units_increase(0, m);
        lemma_units_increase(0, m + 1);
        let l = high * one;
        assert(l * l == (high * high) * oo) by (nonlinear_arith)
            requires
                l == high * one,
                oo == one * one,
        ;
        let (f, g) = (4 * r, high * high);
        assert((f * oo < g * oo ==> f < g) && (f * oo <= g * oo ==> f <= g)) by (nonlinear_arith)
            requires
                oo > 0,
        ;
        if p * p != n {
            let z = (p + 1) * u;
            assert(z * z == ((p + 1) * (p + 1)) * uu) by (nonlinear_arith)
                requires
                    z == (p + 1) * u,
                    uu == u * u,
            ;
            assert(z >= 0) by (nonlinear_arith)
                requires
                    p >= 0,
                    u > 0,
                    z == (p + 1) * u,
            ;
            lemma_mul_strict_inequality(n, (p + 1) * (p + 1), uu);
            assert(4 * (z * z) <= l * l) by (nonlinear_arith)
                requires
                    0 <= 2 * z <= l,
            ;
        } else {
            assert(4 * (s * s) <= l * l && (2 * s < l ==> 4 * (s * s) < l * l)) by (nonlinear_arith)
                requires
                    0 <= 2 * s <= l,
                    s >= 0,
            ;
        }
    }
    assert(nearest_root(m, r));
    let w = rounded_root(r);
    assert(nearest_root(w, r));
    lemma_nearest_root_unique(m, w, r);
}

} // verus!

//! Single-precision numbers, computed in integer arithmetic.
//!
//! A [`Scalar`] is an IEEE 754 binary32 value held as its bit pattern. The
//! operations round to nearest, ties to even, so every peer that runs the rules
//! of the game on the same inputs gets the same bits. Which bits stand for "not
//! a number" is left open by the standard; here the operations give [`nan`].

use crate::rounding::{
    combine, divide, lemma_remainder, lemma_representable, lemma_rounded, lemma_rounded_exact,
    lemma_rounded_ordered, lemma_units_increase, multiply, nearest_whole, remainder, root, round_to_whole, round_whole, rounded,
    rounded_root, units, whole_below, whole_part, ALL_WHOLE, INFINITE,
};
use vstd::arithmetic::power2::{
    lemma2_to64, lemma_pow2_adds, lemma_pow2_pos, lemma_pow2_unfold, pow2,
};
use vstd::prelude::*;

verus! {

/// The bit pattern of a number whose sign bit alone is set.
pub const SIGN: u32 = 0x8000_0000;

/// A binary32 number, by its bits.
#[derive(Clone, Copy, Debug, PartialEq, Eq, Structural)]
pub struct Scalar {
    pub bits: u32,
}

/// `0.0`.
#[verifier::allow_in_spec]
pub fn zero() -> Scalar
    returns
        (Scalar { bits: 0 }),
{
    Scalar { bits: 0 }
}

/// `1.0`.
#[verifier::allow_in_spec]
pub fn one() -> Scalar
    returns
        (Scalar { bits: 0x3f80_0000 }),
{
    Scalar { bits: 0x3f80_0000 }
}

/// The number above all others.
#[verifier::allow_in_spec]
pub fn infinity() -> Scalar
    returns
        (Scalar { bits: INFINITE }),
{
    Scalar { bits: INFINITE }
}

/// What an operation without a meaningful result gives.
#[verifier::allow_in_spec]
pub fn nan() -> Scalar
    returns
        (Scalar { bits: 0x7fc0_0000 }),
{
    Scalar { bits: 0x7fc0_0000 }
}

impl Scalar {
    /// The bits without the sign.
    pub open spec fn magnitude(self) -> int {
        if self.bits < SIGN {
            self.bits as int
        } else {
            self.bits - SIGN
        }
    }

    /// Whether the sign bit is set.
    pub open spec fn signed(self) -> bool {
        self.bits >= SIGN
    }

    /// The number in units of the smallest positive one, where it is finite.
    pub open spec fn value(self) -> int {
        if self.signed() {
            -units(self.magnitude())
        } else {
            units(self.magnitude())
        }
    }

    /// Where the number stands among those that are not [`nan`].
    pub open spec fn order(self) -> int {
        if self.signed() {
            -self.magnitude()
        } else {
            self.magnitude()
        }
    }

    pub open spec fn spec_from_bits(bits: u32) -> Scalar {
        Scalar { bits }
    }

    #[verifier::when_used_as_spec(spec_from_bits)]
    pub fn from_bits(bits: u32) -> (r: Scalar)
        ensures
            r == Scalar::spec_from_bits(bits),
    {
        Scalar { bits }
    }

    pub fn to_bits(self) -> (bits: u32)
        ensures
            bits == self.bits,
    {
        self.bits
    }

    /// The number with this magnitude, of the sign that `negative` tells.
    pub open spec fn of(negative: bool, magnitude: int) -> Scalar {
        if negative {
            Scalar { bits: (magnitude + SIGN) as u32 }
        } else {
            Scalar { bits: magnitude as u32 }
        }
    }

    fn build(negative: bool, magnitude: u32) -> (r: Scalar)
        requires
            magnitude <= INFINITE,
        ensures
            r == Scalar::of(negative, magnitude as int),
            r.magnitude() == magnitude,
            r.signed() == negative,
    {
        if negative {
            Scalar { bits: magnitude + SIGN }
        } else {
            Scalar { bits: magnitude }
        }
    }

    fn split(self) -> (r: (bool, u32))
        ensures
            r.0 == self.signed(),
            r.1 == self.magnitude(),
            r.1 < SIGN,
    {
        if self.bits < SIGN {
            (false, self.bits)
        } else {
            (true, self.bits - SIGN)
        }
    }

    pub open spec fn spec_is_nan(self) -> bool {
        self.magnitude() > INFINITE
    }

    #[verifier::when_used_as_spec(spec_is_nan)]
    pub fn is_nan(self) -> (r: bool)
        ensures
            r == self.spec_is_nan(),
    {
        self.split().1 > INFINITE
    }

    pub open spec fn spec_is_finite(self) -> bool {
        self.magnitude() < INFINITE
    }

    #[verifier::when_used_as_spec(spec_is_finite)]
    pub fn is_finite(self) -> (r: bool)
        ensures
            r == self.spec_is_finite(),
    {
        self.split().1 < INFINITE
    }

    pub open spec fn spec_lt(self, other: Scalar) -> bool {
        !self.is_nan() && !other.is_nan() && self.order() < other.order()
    }

    /// `self < other`; never with [`nan`].
    #[verifier::when_used_as_spec(spec_lt)]
    pub fn lt(self, other: Scalar) -> (r: bool)
        ensures
            r == self.spec_lt(other),
    {
        if self.is_nan() || other.is_nan() {
            return false;
        }
        let (sa, ma) = self.split();
        let (sb, mb) = other.split();
        if sa {
            if sb {
                mb < ma
            } else {
                ma > 0 || mb > 0
            }
        } else {
            !sb && ma < mb
        }
    }

    pub open spec fn spec_le(self, other: Scalar) -> bool {
        !self.is_nan() && !other.is_nan() && self.order() <= other.order()
    }

    /// `self <= other`; never with [`nan`].
    #[verifier::when_used_as_spec(spec_le)]
    pub fn le(self, other: Scalar) -> (r: bool)
        ensures
            r == self.spec_le(other),
    {
        !self.is_nan() && !other.is_nan() && !other.lt(self)
    }

    pub open spec fn spec_gt(self, other: Scalar) -> bool {
        other.spec_lt(self)
    }

    /// `self > other`; never with [`nan`].
    #[verifier::when_used_as_spec(spec_gt)]
    pub fn gt(self, other: Scalar) -> (r: bool)
        ensures
            r == self.spec_gt(other),
    {
        other.lt(self)
    }

    pub open spec fn spec_ge(self, other: Scalar) -> bool {
        other.spec_le(self)
    }

    /// `self >= other`; never with [`nan`].
    #[verifier::when_used_as_spec(spec_ge)]
    pub fn ge(self, other: Scalar) -> (r: bool)
        ensures
            r == self.spec_ge(other),
    {
        other.le(self)
    }

    pub open spec fn spec_equals(self, other: Scalar) -> bool {
        !self.is_nan() && !other.is_nan() && self.order() == other.order()
    }

    /// Whether the numbers are the same: both zeros are, [`nan`] is not.
    #[verifier::when_used_as_spec(spec_equals)]
    pub fn equals(self, other: Scalar) -> (r: bool)
        ensures
            r == self.spec_equals(other),
    {
        self.le(other) && other.le(self)
    }

    pub open spec fn spec_min(self, other: Scalar) -> Scalar {
        if self.is_nan() || other.lt(self) {
            other
        } else {
            self
        }
    }

    /// The lesser of the two; the other one where one is [`nan`].
    #[verifier::when_used_as_spec(spec_min)]
    pub fn min(self, other: Scalar) -> (r: Scalar)
        ensures
            r == self.spec_min(other),
    {
        if self.is_nan() || other.lt(self) {
            other
        } else {
            self
        }
    }

    pub open spec fn spec_max(self, other: Scalar) -> Scalar {
        if self.is_nan() || self.lt(other) {
            other
        } else {
            self
        }
    }

    /// The greater of the two; the other one where one is [`nan`].
    #[verifier::when_used_as_spec(spec_max)]
    pub fn max(self, other: Scalar) -> (r: Scalar)
        ensures
            r == self.spec_max(other),
    {
        if self.is_nan() || self.lt(other) {
            other
        } else {
            self
        }
    }

    pub open spec fn spec_clamp(self, low: Scalar, high: Scalar) -> Scalar {
        if self.lt(low) {
            low
        } else if self.gt(high) {
            high
        } else {
            self
        }
    }

    /// `self` moved into `low..=high`; [`nan`] stays.
    #[verifier::when_used_as_spec(spec_clamp)]
    pub fn clamp(self, low: Scalar, high: Scalar) -> (r: Scalar)
        requires
            low.le(high),
        ensures
            r == self.spec_clamp(low, high),
    {
        if self.lt(low) {
            low
        } else if self.gt(high) {
            high
        } else {
            self
        }
    }

    pub open spec fn spec_neg(self) -> Scalar {
        if self.signed() {
            Scalar { bits: (self.bits - SIGN) as u32 }
        } else {
            Scalar { bits: (self.bits + SIGN) as u32 }
        }
    }

    /// `-self`.
    #[verifier::when_used_as_spec(spec_neg)]
    pub fn neg(self) -> (r: Scalar)
        ensures
            r == self.spec_neg(),
    {
        if self.bits >= SIGN {
            Scalar { bits: self.bits - SIGN }
        } else {
            Scalar { bits: self.bits + SIGN }
        }
    }

    pub open spec fn spec_abs(self) -> Scalar {
        Scalar { bits: self.magnitude() as u32 }
    }

    /// `self` without its sign.
    #[verifier::when_used_as_spec(spec_abs)]
    pub fn abs(self) -> (r: Scalar)
        ensures
            r == self.spec_abs(),
    {
        Scalar { bits: self.split().1 }
    }

    /// The number nearest to a whole count of units.
    pub open spec fn of_units(n: int) -> Scalar {
        if n < 0 {
            Scalar::of(true, rounded(-n, 1))
        } else {
            Scalar::of(false, rounded(n, 1))
        }
    }

    #[verifier::opaque]
    pub open spec fn spec_plus(self, other: Scalar) -> Scalar {
        if self.is_nan() || other.is_nan() {
            nan()
        } else if !self.is_finite() {
            if !other.is_finite() && self.signed() != other.signed() {
                nan()
            } else {
                self
            }
        } else if !other.is_finite() {
            other
        } else if self.value() + other.value() == 0 {
            Scalar::of(self.signed() && other.signed(), 0)
        } else {
            Scalar::of_units(self.value() + other.value())
        }
    }

    /// `self + other`: the number nearest to the exact sum.
    #[verifier::when_used_as_spec(spec_plus)]
    pub fn plus(self, other: Scalar) -> (r: Scalar)
        ensures
            r == self.spec_plus(other),
    {
        proof {
            reveal(Scalar::spec_plus);
        }
        if self.is_nan() || other.is_nan() {
            return nan();
        }
        let (sa, ma) = self.split();
        let (sb, mb) = other.split();
        if ma == INFINITE {
            return if mb == INFINITE && sa != sb {
                nan()
            } else {
                self
            };
        }
        if mb == INFINITE {
            return other;
        }
        proof {
            lemma_units_increase(0, ma as int);
            lemma_units_increase(0, mb as int);
            lemma_rounded_exact(ma as int, 1);
            lemma_rounded_exact(mb as int, 1);
        }
        if mb == 0 {
            return if ma == 0 {
                Scalar::build(sa && sb, 0)
            } else {
                self
            };
        }
        if ma == 0 {
            return other;
        }
        if ma == mb {
            proof {
                lemma_rounded(units(ma as int) + units(mb as int), 1);
            }
            return if sa == sb {
                Scalar::build(sa, combine(ma, mb, false))
            } else {
                zero()
            };
        }
        if ma > mb {
            proof {
                lemma_units_increase(mb as int, ma as int);
                lemma_rounded(units(ma as int) + units(mb as int), 1);
                lemma_rounded(units(ma as int) - units(mb as int), 1);
            }
            Scalar::build(sa, combine(ma, mb, sa != sb))
        } else {
            proof {
                lemma_units_increase(ma as int, mb as int);
                lemma_rounded(units(ma as int) + units(mb as int), 1);
                lemma_rounded(units(mb as int) - units(ma as int), 1);
            }
            Scalar::build(sb, combine(mb, ma, sa != sb))
        }
    }

    pub open spec fn spec_minus(self, other: Scalar) -> Scalar {
        self.plus(other.neg())
    }

    /// `self - other`: the number nearest to the exact difference.
    #[verifier::when_used_as_spec(spec_minus)]
    pub fn minus(self, other: Scalar) -> (r: Scalar)
        ensures
            r == self.spec_minus(other),
    {
        self.plus(other.neg())
    }

    #[verifier::opaque]
    pub open spec fn spec_times(self, other: Scalar) -> Scalar {
        let negative = self.signed() != other.signed();
        if self.is_nan() || other.is_nan() {
            nan()
        } else if !self.is_finite() || !other.is_finite() {
            if self.magnitude() == 0 || other.magnitude() == 0 {
                nan()
            } else {
                Scalar::of(negative, INFINITE as int)
            }
        } else {
            Scalar::of(
                negative,
                rounded(units(self.magnitude()) * units(other.magnitude()), pow2(149) as int),
            )
        }
    }

    /// `self * other`: the number nearest to the exact product.
    #[verifier::when_used_as_spec(spec_times)]
    pub fn times(self, other: Scalar) -> (r: Scalar)
        ensures
            r == self.spec_times(other),
    {
        proof {
            reveal(Scalar::spec_times);
        }
        if self.is_nan() || other.is_nan() {
            return nan();
        }
        let (sa, ma) = self.split();
        let (sb, mb) = other.split();
        if ma == INFINITE || mb == INFINITE {
            return if ma == 0 || mb == 0 {
                nan()
            } else {
                Scalar::build(sa != sb, INFINITE)
            };
        }
        proof {
            lemma_product(ma as int, mb as int);
        }
        if ma == 0 || mb == 0 {
            return Scalar::build(sa != sb, 0);
        }
        Scalar::build(sa != sb, multiply(ma, mb))
    }

    #[verifier::opaque]
    pub open spec fn spec_over(self, other: Scalar) -> Scalar {
        let negative = self.signed() != other.signed();
        if self.is_nan() || other.is_nan() {
            nan()
        } else if !self.is_finite() {
            if !other.is_finite() {
                nan()
            } else {
                Scalar::of(negative, INFINITE as int)
            }
        } else if !other.is_finite() {
            Scalar::of(negative, 0)
        } else if other.magnitude() == 0 {
            if self.magnitude() == 0 {
                nan()
            } else {
                Scalar::of(negative, INFINITE as int)
            }
        } else {
            Scalar::of(
                negative,
                rounded(units(self.magnitude()) * pow2(149), units(other.magnitude())),
            )
        }
    }

    /// `self / other`: the number nearest to the exact quotient.
    #[verifier::when_used_as_spec(spec_over)]
    pub fn over(self, other: Scalar) -> (r: Scalar)
        ensures
            r == self.spec_over(other),
    {
        proof {
            reveal(Scalar::spec_over);
        }
        if self.is_nan() || other.is_nan() {
            return nan();
        }
        let (sa, ma) = self.split();
        let (sb, mb) = other.split();
        if ma == INFINITE {
            return if mb == INFINITE {
                nan()
            } else {
                Scalar::build(sa != sb, INFINITE)
            };
        }
        if mb == INFINITE {
            return Scalar::build(sa != sb, 0);
        }
        if mb == 0 {
            return if ma == 0 {
                nan()
            } else {
                Scalar::build(sa != sb, INFINITE)
            };
        }
        proof {
            lemma_quotient(ma as int, mb as int);
        }
        if ma == 0 {
            return Scalar::build(sa != sb, 0);
        }
        Scalar::build(sa != sb, divide(ma, mb))
    }

    #[verifier::opaque]
    pub open spec fn spec_rem(self, other: Scalar) -> Scalar {
        if self.is_nan() || other.is_nan() || !self.is_finite() || other.magnitude() == 0 {
            nan()
        } else if !other.is_finite() {
            self
        } else {
            Scalar::of(
                self.signed(),
                rounded(units(self.magnitude()) % units(other.magnitude()), 1),
            )
        }
    }

    /// `self % other`: what is left of `self`, with its sign, when `other` is taken
    /// away from it as often as that goes.
    #[verifier::when_used_as_spec(spec_rem)]
    pub fn rem(self, other: Scalar) -> (r: Scalar)
        ensures
            r == self.spec_rem(other),
    {
        proof {
            reveal(Scalar::spec_rem);
        }
        let (sa, ma) = self.split();
        let (sb, mb) = other.split();
        if ma >= INFINITE || mb > INFINITE || mb == 0 {
            return nan();
        }
        if mb == INFINITE {
            return self;
        }
        proof {
            lemma_remainder(ma as int, mb as int);
        }
        Scalar::build(sa, remainder(ma, mb))
    }

    #[verifier::opaque]
    pub open spec fn spec_sqrt(self) -> Scalar {
        if self.is_nan() || (self.signed() && self.magnitude() > 0) {
            nan()
        } else if self.magnitude() == 0 || !self.is_finite() {
            self
        } else {
            Scalar::of(false, rounded_root(units(self.magnitude()) * pow2(149)))
        }
    }

    /// The number nearest to the exact square root.
    #[verifier::when_used_as_spec(spec_sqrt)]
    pub fn sqrt(self) -> (r: Scalar)
        ensures
            r == self.spec_sqrt(),
    {
        proof {
            reveal(Scalar::spec_sqrt);
        }
        let (negative, m) = self.split();
        if m > INFINITE || (negative && m > 0) {
            return nan();
        }
        if m == 0 || m == INFINITE {
            return self;
        }
        let r = root(m);
        Scalar { bits: r }
    }

    #[verifier::opaque]
    pub open spec fn spec_round_to_u32(self) -> u32 {
        if self.is_nan() || self.signed() {
            0
        } else if !self.is_finite() || nearest_whole(self.magnitude()) >= u32::MAX {
            u32::MAX
        } else {
            nearest_whole(self.magnitude()) as u32
        }
    }

    /// The nearest whole number, as far as there is room for it; `0` for [`nan`].
    #[verifier::when_used_as_spec(spec_round_to_u32)]
    pub fn round_to_u32(self) -> (r: u32)
        ensures
            r == self.spec_round_to_u32(),
    {
        proof {
            reveal(Scalar::spec_round_to_u32);
        }
        let (negative, m) = self.split();
        if m > INFINITE || negative {
            0
        } else if m == INFINITE {
            u32::MAX
        } else {
            round_to_whole(m, u32::MAX)
        }
    }

    #[verifier::opaque]
    pub open spec fn spec_round_to_i32(self) -> i32 {
        if self.is_nan() {
            0
        } else if self.signed() {
            if !self.is_finite() || nearest_whole(self.magnitude()) >= 0x8000_0000 {
                i32::MIN
            } else {
                -nearest_whole(self.magnitude()) as i32
            }
        } else if !self.is_finite() || nearest_whole(self.magnitude()) >= 0x7fff_ffff {
            i32::MAX
        } else {
            nearest_whole(self.magnitude()) as i32
        }
    }

    /// The nearest whole number, as far as there is room for it; `0` for [`nan`].
    #[verifier::when_used_as_spec(spec_round_to_i32)]
    pub fn round_to_i32(self) -> (r: i32)
        ensures
            r == self.spec_round_to_i32(),
    {
        proof {
            reveal(Scalar::spec_round_to_i32);
        }
        let (negative, m) = self.split();
        if m > INFINITE {
            0
        } else if negative {
            let whole: u32 = if m == INFINITE {
                0x8000_0000
            } else {
                round_to_whole(m, 0x8000_0000)
            };
            if whole == 0x8000_0000 {
                i32::MIN
            } else {
                -(whole as i32)
            }
        } else if m == INFINITE {
            i32::MAX
        } else {
            round_to_whole(m, 0x7fff_ffff) as i32
        }
    }

    #[verifier::opaque]
    pub open spec fn spec_trunc(self) -> Scalar {
        if self.magnitude() >= ALL_WHOLE {
            self
        } else if self.signed() {
            Scalar::from_u32(whole_below(self.magnitude()) as u32).neg()
        } else {
            Scalar::from_u32(whole_below(self.magnitude()) as u32)
        }
    }

    /// The whole part, of the sign that the number has.
    #[verifier::when_used_as_spec(spec_trunc)]
    pub fn trunc(self) -> (r: Scalar)
        ensures
            r == self.spec_trunc(),
    {
        proof {
            reveal(Scalar::spec_trunc);
        }
        let (negative, m) = self.split();
        if m >= ALL_WHOLE {
            self
        } else if negative {
            Scalar::from_u32(whole_part(m)).neg()
        } else {
            Scalar::from_u32(whole_part(m))
        }
    }

    pub open spec fn spec_fract(self) -> Scalar {
        self.minus(self.trunc())
    }

    /// What is left without the whole part.
    #[verifier::when_used_as_spec(spec_fract)]
    pub fn fract(self) -> (r: Scalar)
        ensures
            r == self.spec_fract(),
    {
        self.minus(self.trunc())
    }

    #[verifier::opaque]
    pub open spec fn spec_from_u32(n: u32) -> Scalar {
        Scalar::of(false, rounded(n * pow2(149), 1))
    }

    /// The number nearest to `n`.
    #[verifier::when_used_as_spec(spec_from_u32)]
    pub fn from_u32(n: u32) -> (r: Scalar)
        ensures
            r == Scalar::spec_from_u32(n),
    {
        proof {
            reveal(Scalar::spec_from_u32);
        }
        let m = round_whole(n);
        Scalar { bits: m }
    }
}

pub proof fn lemma_product(a: int, b: int)
    requires
        0 <= a < INFINITE,
        0 <= b < INFINITE,
    ensures
        0 <= rounded(units(a) * units(b), pow2(149) as int) <= INFINITE,
        a == 0 || b == 0 ==> rounded(units(a) * units(b), pow2(149) as int) == 0,
{
    let t = pow2(149) as int;
    lemma_pow2_pos(149);
    lemma_units_increase(0, a);
    lemma_units_increase(0, b);
    let (x, y) = (units(a), units(b));
    assert(x * y >= 0 && (x == 0 || y == 0 ==> x * y == 0)) by (nonlinear_arith)
        requires
            x >= 0,
            y >= 0,
    ;
    lemma_rounded(x * y, t);
    if a == 0 || b == 0 {
        lemma_rounded_exact(0, t);
        assert(0 * t == 0) by (nonlinear_arith);
    }
}

pub proof fn lemma_quotient(a: int, b: int)
    requires
        0 <= a < INFINITE,
        0 < b < INFINITE,
    ensures
        0 <= rounded(units(a) * pow2(149), units(b)) <= INFINITE,
        a == 0 ==> rounded(units(a) * pow2(149), units(b)) == 0,
{
    let t = pow2(149) as int;
    lemma_pow2_pos(149);
    lemma_units_increase(0, a);
    lemma_units_increase(0, b);
    let x = units(a);
    assert(x * t >= 0 && (x == 0 ==> x * t == 0)) by (nonlinear_arith)
        requires
            x >= 0,
            t > 0,
    ;
    lemma_rounded(x * t, units(b));
    if a == 0 {
        lemma_rounded_exact(0, units(b));
        assert(0 * units(b) == 0) by (nonlinear_arith);
    }
}

/// The order of finite numbers is that of their values.
pub proof fn lemma_order_is_value(a: Scalar, b: Scalar)
    requires
        a.is_finite(),
        b.is_finite(),
    ensures
        a.order() < b.order() <==> a.value() < b.value(),
        a.order() <= b.order() <==> a.value() <= b.value(),
        a.order() == b.order() <==> a.value() == b.value(),
        a.value() == 0 <==> a.magnitude() == 0,
{
    let (ma, mb) = (a.magnitude(), b.magnitude());
    lemma_units_increase(0, ma);
    lemma_units_increase(0, mb);
    if ma <= mb {
        lemma_units_increase(ma, mb);
    } else {
        lemma_units_increase(mb, ma);
    }
}

/// A count that rounds stays on its side of any number.
pub proof fn lemma_of_units_ordered(n: int, x: Scalar)
    requires
        x.is_finite(),
    ensures
        !Scalar::of_units(n).is_nan(),
        n <= x.value() ==> Scalar::of_units(n).order() <= x.order(),
        n >= x.value() ==> Scalar::of_units(n).order() >= x.order(),
{
    let mx = x.magnitude();
    lemma_units_increase(0, mx);
    lemma_rounded_exact(mx, 1);
    if n < 0 {
        lemma_rounded(-n, 1);
        if x.signed() {
            if -n >= units(mx) {
                lemma_rounded_ordered(units(mx), -n, 1);
            }
            if -n <= units(mx) {
                lemma_rounded_ordered(-n, units(mx), 1);
            }
        }
    } else {
        lemma_rounded(n, 1);
        if !x.signed() {
            if n >= units(mx) {
                lemma_rounded_ordered(units(mx), n, 1);
            }
            if n <= units(mx) {
                lemma_rounded_ordered(n, units(mx), 1);
            }
        } else if mx == 0 {
            lemma_rounded_exact(0, 1);
            lemma_rounded_ordered(0, n, 1);
        } else if n <= x.value() {
            assert(units(mx) > 0) by {
                lemma_units_increase(0, mx);
            }
        }
    }
}

/// A sum stays on its side of any number.
pub proof fn lemma_sum_ordered(a: Scalar, b: Scalar, x: Scalar)
    requires
        a.is_finite(),
        b.is_finite(),
        x.is_finite(),
    ensures
        a.value() + b.value() <= x.value() ==> a.plus(b).le(x),
        a.value() + b.value() >= x.value() ==> a.plus(b).ge(x),
{
    reveal(Scalar::spec_plus);
    let n = a.value() + b.value();
    if n == 0 {
        lemma_order_is_value(x, zero());
    } else {
        lemma_of_units_ordered(n, x);
    }
}

/// Counts keep their order when they round.
proof fn lemma_of_units_increase(n: int, m: int)
    requires
        n <= m,
    ensures
        Scalar::of_units(n).le(Scalar::of_units(m)),
{
    lemma_of_units_ordered(n, zero());
    lemma_of_units_ordered(m, zero());
    if m < 0 {
        lemma_rounded(-n, 1);
        lemma_rounded(-m, 1);
        lemma_rounded_ordered(-m, -n, 1);
    } else if n >= 0 {
        lemma_rounded(n, 1);
        lemma_rounded(m, 1);
        lemma_rounded_ordered(n, m, 1);
    }
}

/// Adding more leaves no less.
pub proof fn lemma_plus_ordered(a: Scalar, b: Scalar, c: Scalar)
    requires
        a.is_finite(),
        b.le(c),
    ensures
        a.plus(b).le(a.plus(c)),
{
    reveal(Scalar::spec_plus);
    if b.is_finite() && c.is_finite() {
        let (n, m) = (a.value() + b.value(), a.value() + c.value());
        lemma_order_is_value(b, c);
        lemma_of_units_increase(n, m);
        lemma_of_units_ordered(n, zero());
        lemma_of_units_ordered(m, zero());
    } else if b.is_finite() {
        lemma_of_units_ordered(a.value() + b.value(), zero());
    } else if c.is_finite() {
        lemma_of_units_ordered(a.value() + c.value(), zero());
    }
}

/// Dividing more leaves no less.
pub proof fn lemma_over_ordered(a: Scalar, b: Scalar, c: Scalar)
    requires
        a.ge(zero()),
        a.le(b),
        b.is_finite(),
        c.gt(zero()),
        c.is_finite(),
    ensures
        a.over(c).le(b.over(c)),
{
    reveal(Scalar::spec_over);
    let (ma, mb, mc) = (a.magnitude(), b.magnitude(), c.magnitude());
    let t = pow2(149) as int;
    lemma_pow2_pos(149);
    lemma_units_increase(0, ma);
    lemma_units_increase(0, mc);
    lemma_units_increase(ma, mb);
    let (x, y) = (units(ma), units(mb));
    assert(0 <= x * t <= y * t) by (nonlinear_arith)
        requires
            0 <= x <= y,
            t > 0,
    ;
    lemma_rounded_ordered(x * t, y * t, units(mc));
    lemma_quotient(ma, mc);
    lemma_quotient(mb, mc);
}

/// A sum that is a number is that number.
pub proof fn lemma_plus_value(a: Scalar, b: Scalar, c: Scalar)
    requires
        a.is_finite(),
        b.is_finite(),
        c.is_finite(),
        a.value() + b.value() == c.value(),
    ensures
        a.plus(b).is_finite(),
        a.plus(b).value() == c.value(),
{
    lemma_sum_ordered(a, b, c);
    let sum = a.plus(b);
    assert(sum.order() == c.order());
    lemma_order_is_value(sum, c);
}

/// Once a number is that number, or its opposite.
pub proof fn lemma_times_one(a: Scalar, b: Scalar)
    requires
        a.is_finite(),
        b.magnitude() == one().magnitude(),
    ensures
        a.times(b).is_finite(),
        b.times(a).is_finite(),
        a.times(b).value() == (if b.signed() {
            -a.value()
        } else {
            a.value()
        }),
        b.times(a).value() == a.times(b).value(),
{
    reveal(Scalar::spec_times);
    lemma_units_of_power(127);
    lemma_pow2_pos(149);
    let (m, t) = (a.magnitude(), pow2(149) as int);
    lemma_rounded_exact(m, t);
    assert(units(m) * t == t * units(m)) by (nonlinear_arith);
    lemma_units_increase(0, m);
}

/// Nothing of a number is nothing.
pub proof fn lemma_times_nothing(a: Scalar, b: Scalar)
    requires
        a.is_finite(),
        b.magnitude() == 0,
    ensures
        a.times(b).is_finite(),
        b.times(a).is_finite(),
        a.times(b).magnitude() == 0,
        b.times(a).magnitude() == 0,
{
    reveal(Scalar::spec_times);
    lemma_product(a.magnitude(), 0);
    lemma_product(0, a.magnitude());
}

/// Whether a number can be doubled.
pub open spec fn doubles(a: Scalar) -> bool {
    a.magnitude() < 0x7f00_0000
}

/// Doubling is exact.
pub proof fn lemma_times_two(a: Scalar, b: Scalar)
    requires
        doubles(a),
        b.magnitude() == 0x4000_0000,
        !b.signed(),
    ensures
        a.times(b).is_finite(),
        a.times(b).value() == 2 * a.value(),
{
    reveal(Scalar::spec_times);
    lemma_units_of_power(128);
    lemma_pow2_unfold(150);
    lemma_pow2_pos(149);
    let (m, t) = (a.magnitude(), pow2(149) as int);
    let field = m / 0x80_0000;
    let own = units(m);
    lemma_units_increase(0, m);
    let (p, e) = if field <= 0 {
        (m, 0int)
    } else {
        (m % 0x80_0000 + 0x80_0000, field - 1)
    };
    assert(own == p * pow2(e as nat)) by {
        lemma2_to64();
        if field <= 0 {
            assert(p * pow2(0) == p);
        } else {
            assert(own == p * (pow2((field - 1) as nat) as int));
        }
    }
    lemma_pow2_unfold((e + 1) as nat);
    let w = pow2(e as nat) as int;
    let twice = lemma_representable(p, e + 1);
    assert(p * (2 * w) == 2 * (p * w)) by (nonlinear_arith);
    lemma_rounded_exact(twice, t);
    assert(own * (2 * t) == (2 * own) * t) by (nonlinear_arith);
    lemma_units_increase(0, twice);
}

/// Taking away what is not below zero leaves no more.
pub proof fn lemma_minus_no_greater(a: Scalar, b: Scalar)
    requires
        a.is_finite(),
        b.ge(zero()),
    ensures
        a.minus(b).le(a),
{
    let nb = b.neg();
    if b.is_finite() {
        lemma_order_is_value(b, zero());
        lemma_units_increase(0, b.magnitude());
        assert(nb.value() == -b.value());
        lemma_sum_ordered(a, nb, a);
    } else {
        reveal(Scalar::spec_plus);
    }
}

/// Adding what is not below zero leaves no less.
pub proof fn lemma_plus_no_less(a: Scalar, b: Scalar)
    requires
        a.is_finite(),
        b.ge(zero()),
    ensures
        a.plus(b).ge(a),
{
    if b.is_finite() {
        lemma_order_is_value(b, zero());
        lemma_units_increase(0, b.magnitude());
        lemma_sum_ordered(a, b, a);
    } else {
        reveal(Scalar::spec_plus);
    }
}

/// A product of what is not below zero is not below zero, where it is a number.
pub proof fn lemma_times_not_negative(a: Scalar, b: Scalar)
    requires
        a.ge(zero()),
        b.ge(zero()),
    ensures
        a.times(b).is_nan() || a.times(b).ge(zero()),
{
    reveal(Scalar::spec_times);
    if a.is_finite() && b.is_finite() {
        lemma_product(a.magnitude(), b.magnitude());
    }
}

/// What is divided by no less than itself leaves at most one.
pub proof fn lemma_over_at_most_one(a: Scalar, b: Scalar)
    requires
        a.is_finite(),
        b.is_finite(),
        b.gt(zero()),
        a.ge(zero()),
        a.le(b),
    ensures
        a.over(b).le(one()),
{
    reveal(Scalar::spec_over);
    let (ma, mb) = (a.magnitude(), b.magnitude());
    let t = pow2(149) as int;
    lemma_pow2_pos(149);
    lemma_units_increase(0, ma);
    lemma_units_increase(0, mb);
    lemma_units_increase(ma, mb);
    lemma_units_of_power(127);
    let (x, y) = (units(ma), units(mb));
    assert(0 <= x * t <= t * y) by (nonlinear_arith)
        requires
            0 <= x <= y,
            t > 0,
    ;
    lemma_rounded_exact(one().magnitude(), y);
    lemma_rounded_ordered(x * t, t * y, y);
    lemma_quotient(ma, mb);
}

/// What is divided by no more than itself leaves at least one.
pub proof fn lemma_over_at_least_one(a: Scalar, b: Scalar)
    requires
        a.is_finite(),
        b.is_finite(),
        b.gt(zero()),
        a.ge(b),
    ensures
        a.over(b).ge(one()),
{
    reveal(Scalar::spec_over);
    let (ma, mb) = (a.magnitude(), b.magnitude());
    let t = pow2(149) as int;
    lemma_pow2_pos(149);
    lemma_units_increase(0, mb);
    lemma_units_increase(mb, ma);
    let m = one().magnitude();
    let (ua, ub) = (units(ma), units(mb));
    assert(units(m) == t) by {
        lemma2_to64();
        lemma_pow2_adds(23, 126);
    }
    lemma_rounded_exact(m, ub);
    assert(t * ub <= ua * t) by (nonlinear_arith)
        requires
            ub <= ua,
            t > 0,
    ;
    lemma_rounded_ordered(t * ub, ua * t, ub);
    lemma_rounded(ua * t, ub);
}

/// A quotient of what is not below zero by what is above it is not below zero.
pub proof fn lemma_over_not_negative(a: Scalar, b: Scalar)
    requires
        a.ge(zero()),
        b.gt(zero()),
        b.is_finite(),
    ensures
        a.over(b).ge(zero()),
{
    reveal(Scalar::spec_over);
    if a.is_finite() {
        lemma_quotient(a.magnitude(), b.magnitude());
    }
}

/// A sum that needs no more than twenty-four bits is exact.
pub proof fn lemma_sum_exact(a: Scalar, b: Scalar, p: int, s: int)
    requires
        a.is_finite(),
        b.is_finite(),
        0 <= p < 0x100_0000,
        0 <= s <= 253,
        a.value() + b.value() == p * pow2(s as nat) || a.value() + b.value() == -(p * pow2(
            s as nat,
        )),
    ensures
        a.plus(b).is_finite(),
        a.plus(b).value() == a.value() + b.value(),
{
    reveal(Scalar::spec_plus);
    let m = lemma_representable(p, s);
    lemma_rounded_exact(m, 1);
    lemma_rounded_exact(0, 1);
    lemma_units_increase(0, m);
}

/// What is left is exact: the sign stays, and whole multiples have gone.
pub proof fn lemma_rem(a: Scalar, b: Scalar)
    requires
        a.is_finite(),
        b.is_finite(),
        b.gt(zero()),
    ensures
        a.rem(b).is_finite(),
        -b.value() < a.rem(b).value() < b.value(),
        exists|n: int| #[trigger] (n * b.value()) == a.value() - a.rem(b).value(),
{
    reveal(Scalar::spec_rem);
    let (ma, mb) = (a.magnitude(), b.magnitude());
    lemma_units_increase(0, ma);
    lemma_units_increase(0, mb);
    lemma_remainder(ma, mb);
    let (ua, ub) = (units(ma), units(mb));
    vstd::arithmetic::div_mod::lemma_fundamental_div_mod(ua, ub);
    let q = ua / ub;
    assert(ub * q == q * ub) by (nonlinear_arith);
    assert((-q) * ub == -(q * ub)) by (nonlinear_arith);
    let n = if a.signed() {
        -q
    } else {
        q
    };
    assert(n * b.value() == a.value() - a.rem(b).value());
}

/// A product is at least any number that the exact product is at least.
pub proof fn lemma_times_at_least(a: Scalar, b: Scalar, c: Scalar)
    requires
        a.is_finite(),
        b.is_finite(),
        c.is_finite(),
        a.ge(zero()),
        b.ge(zero()),
        c.ge(zero()),
        units(a.magnitude()) * units(b.magnitude()) >= units(c.magnitude()) * pow2(149),
    ensures
        a.times(b).ge(c),
{
    reveal(Scalar::spec_times);
    let t = pow2(149) as int;
    lemma_pow2_pos(149);
    let (ma, mb, mc) = (a.magnitude(), b.magnitude(), c.magnitude());
    lemma_product(ma, mb);
    lemma_rounded_exact(mc, t);
    lemma_rounded_ordered(units(mc) * t, units(ma) * units(mb), t);
    if mc == 0 {
    } else if a.signed() != b.signed() {
        lemma_units_increase(0, mc);
        let u = units(mc);
        assert(u * t > 0) by (nonlinear_arith)
            requires
                u > 0,
                t > 0,
        ;
        let (x, y) = (units(ma), units(mb));
        assert(x > 0 && y > 0) by (nonlinear_arith)
            requires
                x * y > 0,
                x >= 0,
                y >= 0,
        {
            assert(x != 0);
        };
    }
}

/// A product is at most any number that the exact product is at most.
pub proof fn lemma_times_at_most(a: Scalar, b: Scalar, c: Scalar)
    requires
        a.is_finite(),
        b.is_finite(),
        c.is_finite(),
        a.ge(zero()),
        b.ge(zero()),
        c.ge(zero()),
        units(a.magnitude()) * units(b.magnitude()) <= units(c.magnitude()) * pow2(149),
    ensures
        a.times(b).le(c),
{
    reveal(Scalar::spec_times);
    let t = pow2(149) as int;
    lemma_pow2_pos(149);
    let (ma, mb, mc) = (a.magnitude(), b.magnitude(), c.magnitude());
    lemma_product(ma, mb);
    lemma_rounded_exact(mc, t);
    lemma_units_increase(0, ma);
    lemma_units_increase(0, mb);
    let (x, y) = (units(ma), units(mb));
    assert(x * y >= 0) by (nonlinear_arith)
        requires
            x >= 0,
            y >= 0,
    ;
    lemma_rounded_ordered(x * y, units(mc) * t, t);
}

/// How many units a power of two has.
pub proof fn lemma_units_of_power(field: int)
    requires
        1 <= field <= 254,
    ensures
        units(field * 0x80_0000) == pow2((field + 22) as nat),
{
    lemma2_to64();
    lemma_pow2_adds(23, (field - 1) as nat);
}

} // verus!

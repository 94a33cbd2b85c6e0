//! How close turned vectors are to the exactly turned ones.

use crate::closeness::{
    exact, grains, lemma_minus_within, lemma_neg_close, lemma_plus_within, lemma_quotient_back,
    lemma_size_of_product, lemma_times_close, lemma_times_swap, lemma_times_within, lemma_twice,
    size, within,
};
use crate::scalar::Scalar;
use crate::vector::{two, Quat, Vec3};
use vstd::prelude::*;

verus! {

/// A point or a direction with exact coordinates.
pub struct Spot {
    pub x: real,
    pub y: real,
    pub z: real,
}

impl Spot {
    /// The same point, exactly.
    pub open spec fn of(v: Vec3) -> Spot {
        Spot { x: exact(v.x), y: exact(v.y), z: exact(v.z) }
    }

    pub open spec fn plus(self, other: Spot) -> Spot {
        Spot { x: self.x + other.x, y: self.y + other.y, z: self.z + other.z }
    }

    pub open spec fn minus(self, other: Spot) -> Spot {
        Spot { x: self.x - other.x, y: self.y - other.y, z: self.z - other.z }
    }

    pub open spec fn scale(self, k: real) -> Spot {
        Spot { x: self.x * k, y: self.y * k, z: self.z * k }
    }

    pub open spec fn dot(self, other: Spot) -> real {
        self.x * other.x + self.y * other.y + self.z * other.z
    }

    pub open spec fn cross(self, other: Spot) -> Spot {
        Spot {
            x: self.y * other.z - self.z * other.y,
            y: self.z * other.x - self.x * other.z,
            z: self.x * other.y - self.y * other.x,
        }
    }
}

/// A rotation with exact components: about an axis, by `w`.
pub struct Turn {
    pub axis: Spot,
    pub w: real,
}

impl Turn {
    /// The same rotation, exactly.
    pub open spec fn of(q: Quat) -> Turn {
        Turn { axis: Spot::of(q.axis()), w: exact(q.w) }
    }

    /// The rotation back.
    pub open spec fn back(self) -> Turn {
        Turn { axis: self.axis.scale(-1real), w: self.w }
    }

    /// The square of its length, which is one for a rotation.
    pub open spec fn norm(self) -> real {
        self.w * self.w + self.axis.dot(self.axis)
    }

    /// `u` turned by this rotation.
    pub open spec fn turned(self, u: Spot) -> Spot {
        u.scale(self.w * self.w - self.axis.dot(self.axis)).plus(
            self.axis.scale(u.dot(self.axis) * 2real),
        ).plus(self.axis.cross(u).scale(self.w * 2real))
    }
}

/// Two terms, each times the same.
pub proof fn lemma_spread(a: real, b: real, c: real)
    by (nonlinear_arith)
    ensures
        (a + b) * c == a * c + b * c,
        c * (a + b) == c * a + c * b,
{
}

/// The order of two factors.
pub proof fn lemma_swap(a: real, b: real)
    by (nonlinear_arith)
    ensures
        a * b == b * a,
{
}

/// The order of three factors.
pub proof fn lemma_regroup(a: real, b: real, c: real)
    by (nonlinear_arith)
    ensures
        (a * b) * c == a * (b * c),
        (a * b) * c == (a * c) * b,
        (a * b) * c == (b * c) * a,
        (a * b) * c == (b * a) * c,
        (a * b) * c == (c * a) * b,
        (a * b) * c == (c * b) * a,
{
}

/// A difference, times something.
pub proof fn lemma_spread_minus(a: real, b: real, c: real)
    by (nonlinear_arith)
    ensures
        (a - b) * c == a * c - b * c,
        c * (a - b) == c * a - c * b,
{
}

/// The opposite of a factor.
pub proof fn lemma_opposite(a: real, b: real)
    by (nonlinear_arith)
    ensures
        a * (-b) == -(a * b),
        (-a) * b == -(a * b),
{
}

pub proof fn lemma_dot_plus(u: Spot, v: Spot, t: Spot)
    ensures
        u.plus(v).dot(t) == u.dot(t) + v.dot(t),
{
    lemma_spread(u.x, v.x, t.x);
    lemma_spread(u.y, v.y, t.y);
    lemma_spread(u.z, v.z, t.z);
}

pub proof fn lemma_dot_minus(u: Spot, v: Spot, t: Spot)
    ensures
        u.minus(v).dot(t) == u.dot(t) - v.dot(t),
{
    lemma_spread_minus(u.x, v.x, t.x);
    lemma_spread_minus(u.y, v.y, t.y);
    lemma_spread_minus(u.z, v.z, t.z);
}

pub proof fn lemma_dot_scale(u: Spot, k: real, t: Spot)
    ensures
        u.scale(k).dot(t) == k * u.dot(t),
{
    lemma_regroup(u.x, k, t.x);
    lemma_regroup(u.y, k, t.y);
    lemma_regroup(u.z, k, t.z);
    lemma_spread(u.x * t.x, u.y * t.y, k);
    lemma_spread(u.x * t.x + u.y * t.y, u.z * t.z, k);
    lemma_swap(u.x * t.x, k);
    lemma_swap(u.y * t.y, k);
    lemma_swap(u.z * t.z, k);
    lemma_swap(u.dot(t), k);
}

pub proof fn lemma_dot_swap(u: Spot, v: Spot)
    ensures
        u.dot(v) == v.dot(u),
{
    lemma_swap(u.x, v.x);
    lemma_swap(u.y, v.y);
    lemma_swap(u.z, v.z);
}

/// Three vectors span as much whichever comes first.
proof fn lemma_cross_cycle(b: Spot, u: Spot, v: Spot)
    ensures
        b.cross(u).dot(v) == -(b.cross(v).dot(u)),
{
    lemma_spread_minus(b.y * u.z, b.z * u.y, v.x);
    lemma_spread_minus(b.z * u.x, b.x * u.z, v.y);
    lemma_spread_minus(b.x * u.y, b.y * u.x, v.z);
    lemma_spread_minus(b.y * v.z, b.z * v.y, u.x);
    lemma_spread_minus(b.z * v.x, b.x * v.z, u.y);
    lemma_spread_minus(b.x * v.y, b.y * v.x, u.z);
    lemma_regroup(b.y, u.z, v.x);
    lemma_regroup(b.z, u.y, v.x);
    lemma_regroup(b.z, u.x, v.y);
    lemma_regroup(b.x, u.z, v.y);
    lemma_regroup(b.x, u.y, v.z);
    lemma_regroup(b.y, u.x, v.z);
}

/// What lies across an axis lies not along it.
pub proof fn lemma_cross_across(b: Spot, u: Spot)
    ensures
        b.cross(u).dot(b) == 0real,
{
    lemma_spread_minus(b.y * u.z, b.z * u.y, b.x);
    lemma_spread_minus(b.z * u.x, b.x * u.z, b.y);
    lemma_spread_minus(b.x * u.y, b.y * u.x, b.z);
    lemma_regroup(b.y, u.z, b.x);
    lemma_regroup(b.z, u.y, b.x);
    lemma_regroup(b.z, u.x, b.y);
}

/// One coordinate of what lies across twice.
proof fn lemma_across_twice_part(a: real, c: real, e: real, f: real, g: real, h: real)
    ensures
        c * (a * g - c * f) - e * (e * f - a * h) == a * (f * a + g * c + h * e) - f * (a * a + c * c
            + e * e),
{
    lemma_spread_minus(a * g, c * f, c);
    lemma_spread_minus(e * f, a * h, e);
    lemma_spread(f * a + g * c, h * e, a);
    lemma_spread(f * a, g * c, a);
    lemma_spread(a * a + c * c, e * e, f);
    lemma_spread(a * a, c * c, f);
    lemma_regroup(a, g, c);
    lemma_regroup(c, f, c);
    lemma_regroup(e, f, e);
    lemma_regroup(a, h, e);
    lemma_regroup(f, a, a);
    lemma_swap(c, a * g);
    lemma_swap(c, c * f);
    lemma_swap(e, e * f);
    lemma_swap(e, a * h);
    lemma_swap(a, f * a);
    lemma_swap(f, c * c);
    lemma_swap(f, e * e);
}

/// What lies across an axis twice.
proof fn lemma_across_twice(b: Spot, u: Spot)
    ensures
        b.cross(b.cross(u)) == b.scale(u.dot(b)).minus(u.scale(b.dot(b))),
{
    lemma_across_twice_part(b.x, b.y, b.z, u.x, u.y, u.z);
    lemma_across_twice_part(b.y, b.z, b.x, u.y, u.z, u.x);
    lemma_across_twice_part(b.z, b.x, b.y, u.z, u.x, u.y);
    assert(u.y * b.y + u.z * b.z + u.x * b.x == u.dot(b));
    assert(u.z * b.z + u.x * b.x + u.y * b.y == u.dot(b));
    assert(b.y * b.y + b.z * b.z + b.x * b.x == b.dot(b));
    assert(b.z * b.z + b.x * b.x + b.y * b.y == b.dot(b));
}

/// How two vectors across an axis lie to each other.
pub proof fn lemma_across_dot(b: Spot, u: Spot, v: Spot)
    ensures
        b.cross(v).dot(b.cross(u)) == b.dot(b) * u.dot(v) - u.dot(b) * b.dot(v),
{
    lemma_cross_cycle(b, v, b.cross(u));
    lemma_across_twice(b, u);
    lemma_dot_minus(b.scale(u.dot(b)), u.scale(b.dot(b)), v);
    lemma_dot_scale(b, u.dot(b), v);
    lemma_dot_scale(u, b.dot(b), v);
}

/// How a turned vector lies to another one.
proof fn lemma_turn_dot(q: Turn, u: Spot, v: Spot)
    ensures
        q.turned(u).dot(v) == (q.w * q.w - q.axis.dot(q.axis)) * u.dot(v) + (u.dot(q.axis) * 2real)
            * q.axis.dot(v) + (q.w * 2real) * q.axis.cross(u).dot(v),
{
    let k = q.w * q.w - q.axis.dot(q.axis);
    let (a, b, c) = (
        u.scale(k),
        q.axis.scale(u.dot(q.axis) * 2real),
        q.axis.cross(u).scale(q.w * 2real),
    );
    lemma_dot_plus(a.plus(b), c, v);
    lemma_dot_plus(a, b, v);
    lemma_dot_scale(u, k, v);
    lemma_dot_scale(q.axis, u.dot(q.axis) * 2real, v);
    lemma_dot_scale(q.axis.cross(u), q.w * 2real, v);
}

/// What adds up when two vectors are turned. `l` is how they lie to each other, `s` and `t`
/// are what they have along the axis, `c` is what they have across it.
proof fn lemma_turn_sum(w: real, n: real, l: real, s: real, t: real, c: real)
    ensures
        (w * w - n) * ((w * w - n) * l + (t * 2real) * s + (w * 2real) * (-c)) + (s * 2real) * ((w
            * w - n) * t + (t * 2real) * n) + (w * 2real) * ((w * w - n) * c + (w * 2real) * (n * l
            - s * t)) == ((w * w + n) * (w * w + n)) * l,
{
    let (v, k, m) = (w * w, w * w - n, w * 2real);
    let q = s * t;
    let (kl, ml) = (k * l, n * l);
    // The three sums, term by term.
    lemma_spread(kl + (t * 2real) * s, m * (-c), k);
    lemma_spread(kl, (t * 2real) * s, k);
    lemma_opposite(m, c);
    lemma_opposite(k, m * c);
    lemma_spread(k * t, (t * 2real) * n, s * 2real);
    lemma_spread(k * c, m * (ml - q), m);
    lemma_spread_minus(ml, q, m);
    lemma_spread_minus(m * ml, m * q, m);
    // What lies across cancels.
    lemma_regroup(k, m, c);
    lemma_regroup(m, k, c);
    // So does what lies along.
    lemma_regroup(t, 2real, s);
    lemma_swap(t, s);
    assert((t * 2real) * s == q * 2real);
    lemma_regroup(k, q, 2real);
    lemma_regroup(s, 2real, k * t);
    lemma_regroup(k, t, s);
    lemma_regroup(s, k, t);
    lemma_swap(s, k * t);
    assert(s * (k * t) == k * q);
    assert((s * 2real) * (k * t) == (k * q) * 2real);
    lemma_regroup(t, 2real, n);
    assert((t * 2real) * n == (t * n) * 2real);
    lemma_regroup(s, 2real, (t * n) * 2real);
    lemma_regroup(s, t, n);
    lemma_regroup(s, t * n, 2real);
    assert(s * (t * n) == q * n);
    lemma_swap(q, n);
    assert((s * 2real) * ((t * n) * 2real) == (n * q) * 4real);
    lemma_regroup(w, 2real, m * q);
    lemma_regroup(w, 2real, q);
    lemma_regroup(w, w, q);
    lemma_regroup(w, w * q, 2real);
    assert(m * q == (w * q) * 2real);
    assert(w * (w * q) == v * q);
    lemma_regroup(w, w * q, 2real);
    assert(w * ((w * q) * 2real) == (v * q) * 2real);
    assert(m * (m * q) == (v * q) * 4real);
    lemma_spread_minus(v, n, q);
    assert(k * q == v * q - n * q);
    // What is left.
    lemma_regroup(w, 2real, m * ml);
    lemma_regroup(w, 2real, ml);
    lemma_regroup(w, w, ml);
    lemma_regroup(w, w * ml, 2real);
    assert(m * ml == (w * ml) * 2real);
    assert(w * (w * ml) == v * ml);
    assert(w * ((w * ml) * 2real) == (v * ml) * 2real);
    assert(m * (m * ml) == (v * ml) * 4real);
    lemma_spread_minus(v, n, l);
    assert(kl == v * l - n * l);
    lemma_spread_minus(v, n, kl);
    lemma_spread_minus(v * l, ml, v);
    lemma_spread_minus(v * l, ml, n);
    let a = v + n;
    lemma_regroup(a, a, l);
    lemma_spread(v, n, l);
    lemma_spread(v, n, a * l);
    lemma_spread(v * l, ml, v);
    lemma_spread(v * l, ml, n);
    lemma_regroup(n, v, l);
    lemma_regroup(v, n, l);
    assert(n * (v * l) == v * ml);
}

/// Turning keeps how two vectors lie to each other.
pub proof fn lemma_turn_keeps(q: Turn, u: Spot, v: Spot)
    ensures
        q.turned(u).dot(q.turned(v)) == (q.norm() * q.norm()) * u.dot(v),
{
    let b = q.axis;
    let e = q.turned(v);
    lemma_turn_dot(q, u, e);
    lemma_dot_swap(u, e);
    lemma_dot_swap(b, e);
    lemma_dot_swap(b.cross(u), e);
    lemma_turn_dot(q, v, u);
    lemma_turn_dot(q, v, b);
    lemma_turn_dot(q, v, b.cross(u));
    lemma_cross_cycle(b, v, u);
    lemma_cross_across(b, v);
    lemma_cross_across(b, u);
    lemma_dot_swap(b, b.cross(u));
    lemma_across_dot(b, u, v);
    lemma_dot_swap(u, v);
    lemma_dot_swap(v, b);
    lemma_dot_swap(u, b);
    lemma_dot_swap(v, b.cross(u));
    lemma_turn_sum(q.w, b.dot(b), u.dot(v), u.dot(b), v.dot(b), b.cross(u).dot(v));
}

/// Turning one of two vectors is turning the other one back.
pub proof fn lemma_turn_moves_over(q: Turn, u: Spot, v: Spot)
    ensures
        q.turned(u).dot(v) == u.dot(q.back().turned(v)),
        q.back().norm() == q.norm(),
{
    let b = q.axis;
    let r = q.back();
    let a = r.axis;
    lemma_turn_dot(q, u, v);
    lemma_turn_dot(r, v, u);
    lemma_dot_swap(u, r.turned(v));
    assert(a == Spot { x: -b.x, y: -b.y, z: -b.z });
    lemma_dot_scale(b, -1real, a);
    lemma_dot_scale(b, -1real, b);
    lemma_dot_scale(b, -1real, u);
    lemma_dot_scale(b, -1real, v);
    lemma_dot_swap(a, b);
    lemma_dot_swap(v, a);
    lemma_dot_swap(u, v);
    lemma_dot_swap(u, b);
    lemma_dot_swap(v, b);
    let (s, t) = (u.dot(b), b.dot(v));
    lemma_opposite(t * 2real, s);
    lemma_regroup(s, 2real, t);
    lemma_regroup(t, 2real, s);
    lemma_swap(s, t);
    assert((v.dot(a) * 2real) * a.dot(u) == (s * 2real) * t) by {
        assert(v.dot(a) == -t);
        assert(a.dot(u) == -s);
        lemma_opposite(-t * 2real, s);
        lemma_opposite(t * 2real, s);
        assert(-t * 2real == -(t * 2real));
    }
    lemma_opposite(b.y, v.z);
    lemma_opposite(b.z, v.y);
    lemma_opposite(b.z, v.x);
    lemma_opposite(b.x, v.z);
    lemma_opposite(b.x, v.y);
    lemma_opposite(b.y, v.x);
    assert(a.cross(v) == b.cross(v).scale(-1real));
    lemma_dot_scale(b.cross(v), -1real, u);
    lemma_cross_cycle(b, u, v);
}

/// Turning back undoes a turn.
pub proof fn lemma_turn_back(q: Turn, u: Spot)
    ensures
        q.back().turned(q.turned(u)) == u.scale(q.norm() * q.norm()),
{
    let r = q.back().turned(q.turned(u));
    let n = q.norm() * q.norm();
    lemma_turn_back_part(q, u, Spot { x: 1real, y: 0real, z: 0real });
    lemma_turn_back_part(q, u, Spot { x: 0real, y: 1real, z: 0real });
    lemma_turn_back_part(q, u, Spot { x: 0real, y: 0real, z: 1real });
    lemma_swap(n, u.x);
    lemma_swap(n, u.y);
    lemma_swap(n, u.z);
    assert(r.x == u.x * n);
    assert(r.y == u.y * n);
    assert(r.z == u.z * n);
}

proof fn lemma_turn_back_part(q: Turn, u: Spot, e: Spot)
    ensures
        q.back().turned(q.turned(u)).dot(e) == (q.norm() * q.norm()) * u.dot(e),
{
    let r = q.back().turned(q.turned(u));
    lemma_turn_moves_over(q, e, q.turned(u));
    lemma_dot_swap(e, r);
    lemma_dot_swap(q.turned(e), q.turned(u));
    lemma_turn_keeps(q, u, e);
}

/// A square is not below nothing.
pub proof fn lemma_square(a: real)
    by (nonlinear_arith)
    ensures
        a * a >= 0real,
{
}

/// What is smaller has a smaller square, and the other way round.
pub proof fn lemma_squares_ordered(a: real, b: real)
    by (nonlinear_arith)
    requires
        b >= 0real,
    ensures
        a * a <= b * b ==> a <= b && -a <= b,
        a <= b && -a <= b ==> a * a <= b * b,
{
}

/// What is more of something positive is more.
pub proof fn lemma_cancel(z: real, x: real, y: real)
    by (nonlinear_arith)
    requires
        z > 0real,
        z * x <= z * y,
    ensures
        x <= y,
{
}

/// More of what is not below nothing is no less.
pub proof fn lemma_scale_ordered(z: real, x: real, y: real)
    by (nonlinear_arith)
    requires
        z >= 0real,
        x <= y,
    ensures
        z * x <= z * y,
        x * z <= y * z,
{
}

/// Nothing of something is nothing.
pub proof fn lemma_nothing(a: real, b: real)
    by (nonlinear_arith)
    ensures
        a == 0real ==> a * b == 0real && b * a == 0real,
{
}

/// A vector that is no longer than `e` and one no longer than `f` have at most `e * f`
/// in common.
pub proof fn lemma_in_common(p: Spot, q: Spot, e: real, f: real)
    requires
        e >= 0real,
        f >= 0real,
        p.dot(p) <= e * e,
        q.dot(q) <= f * f,
    ensures
        p.dot(q) <= e * f,
{
    lemma_square(p.x);
    lemma_square(p.y);
    lemma_square(p.z);
    lemma_square(q.x);
    lemma_square(q.y);
    lemma_square(q.z);
    if e == 0real {
        lemma_squares_ordered(p.x, e);
        lemma_squares_ordered(p.y, e);
        lemma_squares_ordered(p.z, e);
        lemma_nothing(p.x, q.x);
        lemma_nothing(p.y, q.y);
        lemma_nothing(p.z, q.z);
        lemma_nothing(e, f);
    } else if f == 0real {
        lemma_squares_ordered(q.x, f);
        lemma_squares_ordered(q.y, f);
        lemma_squares_ordered(q.z, f);
        lemma_nothing(q.x, p.x);
        lemma_nothing(q.y, p.y);
        lemma_nothing(q.z, p.z);
        lemma_nothing(f, e);
    } else {
        let (a, b) = (p.scale(f), q.scale(e));
        let r = a.minus(b);
        lemma_square(r.x);
        lemma_square(r.y);
        lemma_square(r.z);
        lemma_dot_minus(a, b, r);
        lemma_dot_swap(a, r);
        lemma_dot_swap(b, r);
        lemma_dot_minus(a, b, a);
        lemma_dot_minus(a, b, b);
        lemma_dot_scale(p, f, a);
        lemma_dot_swap(p, a);
        lemma_dot_scale(p, f, p);
        lemma_dot_scale(q, e, b);
        lemma_dot_swap(q, b);
        lemma_dot_scale(q, e, q);
        lemma_dot_scale(p, f, b);
        lemma_dot_swap(p, b);
        lemma_dot_scale(q, e, p);
        lemma_dot_swap(p, q);
        lemma_dot_swap(a, b);
        let (pp, pq, qq, z) = (p.dot(p), p.dot(q), q.dot(q), e * f);
        assert(f * (f * pp) - f * (e * pq) - f * (e * pq) + e * (e * qq) >= 0real);
        lemma_scale_ordered(f, pp, e * e);
        lemma_scale_ordered(f, f * pp, f * (e * e));
        lemma_scale_ordered(e, qq, f * f);
        lemma_scale_ordered(e, e * qq, e * (f * f));
        lemma_regroup(e, f, pq);
        lemma_regroup(f, e, pq);
        lemma_regroup(e, f, z);
        lemma_regroup(f, e, e);
        lemma_regroup(e, f, f);
        lemma_regroup(f, e, z);
        lemma_swap(e, f);
        lemma_regroup(e, e, f);
        assert(f * (e * e) == e * z);
        assert(e * (f * f) == f * z) by {
            lemma_regroup(e, f, f);
            lemma_swap(f, z);
        }
        assert(f * (e * z) == z * z);
        assert(e * (f * z) == z * z);
        assert(z * pq <= z * z);
        assert(z > 0real) by {
            lemma_positive(e, f);
        }
        lemma_cancel(z, pq, z);
    }
}

pub proof fn lemma_positive(a: real, b: real)
    by (nonlinear_arith)
    requires
        a > 0real,
        b > 0real,
    ensures
        a * b > 0real,
{
}

/// Whether two points are at most `e` grains apart.
pub open spec fn close(a: Spot, b: Spot, e: real) -> bool {
    let d = a.minus(b).scale(grains());
    e >= 0real && d.dot(d) <= e * e
}

/// A way round is no shorter.
pub proof fn lemma_way_round(a: Spot, b: Spot, c: Spot, e: real, f: real)
    requires
        close(a, b, e),
        close(b, c, f),
    ensures
        close(a, c, e + f),
{
    let (p, q, r) = (
        a.minus(b).scale(grains()),
        b.minus(c).scale(grains()),
        a.minus(c).scale(grains()),
    );
    assert(r == p.plus(q));
    lemma_in_common(p, q, e, f);
    lemma_dot_plus(p, q, r);
    lemma_dot_swap(p, r);
    lemma_dot_swap(q, r);
    lemma_dot_plus(p, q, p);
    lemma_dot_plus(p, q, q);
    lemma_dot_swap(p, q);
    lemma_spread(e, f, e + f);
    lemma_spread(e, f, e);
    lemma_spread(e, f, f);
    lemma_swap(e, f);
}

/// Points that are close have close coordinates.
pub proof fn lemma_close_parts(a: Spot, b: Spot, e: real)
    requires
        close(a, b, e),
    ensures
        size(a.x - b.x) * grains() <= e,
        size(a.y - b.y) * grains() <= e,
        size(a.z - b.z) * grains() <= e,
{
    let d = a.minus(b).scale(grains());
    lemma_square(d.x);
    lemma_square(d.y);
    lemma_square(d.z);
    lemma_squares_ordered(d.x, e);
    lemma_squares_ordered(d.y, e);
    lemma_squares_ordered(d.z, e);
}

/// Points with close coordinates are close.
pub proof fn lemma_parts_close(a: Spot, b: Spot, e: real, f: real)
    requires
        size(a.x - b.x) * grains() <= e,
        size(a.y - b.y) * grains() <= e,
        size(a.z - b.z) * grains() <= e,
        e * 7real <= f * 4real,
    ensures
        close(a, b, f),
{
    let d = a.minus(b).scale(grains());
    lemma_squares_ordered(d.x, e);
    lemma_squares_ordered(d.y, e);
    lemma_squares_ordered(d.z, e);
    lemma_squares_ordered(e * 7real, f * 4real);
    assert((e * 7real) * (e * 7real) == (e * e) * 49real) by {
        lemma_regroup(e, 7real, e * 7real);
        lemma_regroup(e, e, 7real);
    }
    assert((f * 4real) * (f * 4real) == (f * f) * 16real) by {
        lemma_regroup(f, 4real, f * 4real);
        lemma_regroup(f, f, 4real);
    }
    lemma_square(e);
}

/// Turning goes part by part.
pub proof fn lemma_turn_minus(q: Turn, u: Spot, v: Spot)
    ensures
        q.turned(u.minus(v)) == q.turned(u).minus(q.turned(v)),
{
    lemma_turn_minus_part(q, u, v, Spot { x: 1real, y: 0real, z: 0real });
    lemma_turn_minus_part(q, u, v, Spot { x: 0real, y: 1real, z: 0real });
    lemma_turn_minus_part(q, u, v, Spot { x: 0real, y: 0real, z: 1real });
}

proof fn lemma_turn_minus_part(q: Turn, u: Spot, v: Spot, e: Spot)
    ensures
        q.turned(u.minus(v)).dot(e) == q.turned(u).dot(e) - q.turned(v).dot(e),
{
    let t = q.back().turned(e);
    lemma_turn_moves_over(q, u.minus(v), e);
    lemma_turn_moves_over(q, u, e);
    lemma_turn_moves_over(q, v, e);
    lemma_dot_minus(u, v, t);
}

/// Turning scales with what is turned.
pub proof fn lemma_turn_scale(q: Turn, u: Spot, k: real)
    ensures
        q.turned(u.scale(k)) == q.turned(u).scale(k),
{
    lemma_turn_scale_part(q, u, k, Spot { x: 1real, y: 0real, z: 0real });
    lemma_turn_scale_part(q, u, k, Spot { x: 0real, y: 1real, z: 0real });
    lemma_turn_scale_part(q, u, k, Spot { x: 0real, y: 0real, z: 1real });
    lemma_swap(k, q.turned(u).x);
    lemma_swap(k, q.turned(u).y);
    lemma_swap(k, q.turned(u).z);
}

proof fn lemma_turn_scale_part(q: Turn, u: Spot, k: real, e: Spot)
    ensures
        q.turned(u.scale(k)).dot(e) == k * q.turned(u).dot(e),
{
    let t = q.back().turned(e);
    lemma_turn_moves_over(q, u.scale(k), e);
    lemma_turn_moves_over(q, u, e);
    lemma_dot_scale(u, k, t);
}

/// What is close stays close when it is turned.
pub proof fn lemma_turned_close(q: Turn, a: Spot, b: Spot, e: real)
    requires
        close(a, b, e),
        0real <= q.norm(),
    ensures
        close(q.turned(a), q.turned(b), q.norm() * e),
{
    let d = a.minus(b).scale(grains());
    lemma_turn_minus(q, a, b);
    lemma_turn_scale(q, a.minus(b), grains());
    lemma_turn_keeps(q, d, d);
    let n = q.norm();
    lemma_square(n);
    lemma_scale_ordered(n * n, d.dot(d), e * e);
    lemma_regroup(n, n, e * e);
    lemma_regroup(n, e, n * e);
    lemma_regroup(e, e, n);
    lemma_regroup(n, e, e);
    lemma_swap(n, e);
    lemma_regroup(e, n, e);
    assert((n * e) * (n * e) == (n * n) * (e * e));
    lemma_scale_ordered(n, 0real, e);
}

/// Whether a rotation is as long as one, but for rounding.
pub open spec fn is_unit(q: Quat) -> bool {
    &&& q.x.is_finite()
    &&& q.y.is_finite()
    &&& q.z.is_finite()
    &&& q.w.is_finite()
    &&& size(Turn::of(q).norm() - 1real) * grains() <= 64real
}

/// Whether a rotation is as long as one, but for a hundredth.
pub open spec fn is_nearly_unit(q: Quat) -> bool {
    &&& q.x.is_finite()
    &&& q.y.is_finite()
    &&& q.z.is_finite()
    &&& q.w.is_finite()
    &&& size(Turn::of(q).norm() - 1real) * 100real <= 1real
}

/// Whether no coordinate is bigger than `l`.
pub open spec fn is_small(v: Vec3, l: real) -> bool {
    &&& v.is_finite()
    &&& size(exact(v.x)) <= l
    &&& size(exact(v.y)) <= l
    &&& size(exact(v.z)) <= l
}

/// Whether a vector is at most `l` long.
pub open spec fn reaches(u: Spot, l: real) -> bool {
    l >= 0real && u.dot(u) <= l * l
}

/// How long the vectors may be that this is about.
pub open spec fn farthest() -> real {
    1099511627776real
}

/// Whether `s` is a sixty-fourth of how long the vectors may be that this is about.
pub open spec fn is_scale(s: real) -> bool {
    1real <= s * 1099511627776real && s * 64real <= farthest()
}

/// What is close is close in a wider sense too.
pub proof fn lemma_close_wider(a: Spot, b: Spot, e: real, f: real)
    requires
        close(a, b, e),
        e <= f,
    ensures
        close(a, b, f),
{
    lemma_squares_ordered(e, f);
}

/// A vector's coordinates are no bigger than it is long.
pub proof fn lemma_reach_parts(u: Spot, l: real)
    requires
        reaches(u, l),
    ensures
        size(u.x) <= l,
        size(u.y) <= l,
        size(u.z) <= l,
{
    lemma_square(u.x);
    lemma_square(u.y);
    lemma_square(u.z);
    lemma_squares_ordered(u.x, l);
    lemma_squares_ordered(u.y, l);
    lemma_squares_ordered(u.z, l);
}

/// No vector.
pub open spec fn origin() -> Spot {
    Spot { x: 0real, y: 0real, z: 0real }
}

/// How long a vector is, in grains.
pub proof fn lemma_reach_close(u: Spot, l: real)
    ensures
        reaches(u, l) <==> close(u, origin(), l * grains()),
{
    let g = grains();
    let d = u.minus(origin()).scale(g);
    assert(d == u.scale(g));
    lemma_dot_scale(u, g, d);
    lemma_dot_swap(u, d);
    lemma_dot_scale(u, g, u);
    assert((l * g) * (l * g) == ((l * l) * g) * g) by {
        lemma_regroup(l, g, l * g);
        lemma_regroup(l, l, g);
    }
}

/// What is close to a vector is not much longer.
pub proof fn lemma_reach_near(u: Spot, v: Spot, e: real, l: real, top: real)
    requires
        close(u, v, e),
        reaches(v, l),
        e + l * grains() <= top * grains(),
    ensures
        reaches(u, top),
{
    lemma_reach_close(v, l);
    lemma_way_round(u, v, origin(), e, l * grains());
    lemma_close_wider(u, origin(), e + l * grains(), top * grains());
    lemma_reach_close(u, top);
}

/// A turned vector is as long as it was, but for the length of the rotation.
proof fn lemma_turned_reach(q: Quat, u: Spot, l: real, top: real)
    requires
        is_unit(q),
        reaches(u, l),
        l * (grains() + 64real) <= top * grains(),
    ensures
        reaches(Turn::of(q).turned(u), top),
{
    lemma_unit_parts(q);
    let t = Turn::of(q);
    lemma_reach_close(u, l);
    lemma_turned_close(t, u, origin(), l * grains());
    lemma_turned_origin(t);
    lemma_norm_of(q, l * grains());
    let y = t.norm() * (l * grains());
    assert(y * 16777216real <= (l * 16777216real) * 16777280real);
    assert(l * 16777280real <= top * 16777216real);
    lemma_close_wider(t.turned(u), origin(), y, top * grains());
    lemma_reach_close(t.turned(u), top);
}

/// A turned vector is not much longer.
proof fn lemma_turned_reach_nearly(q: Quat, u: Spot, l: real, top: real)
    requires
        is_nearly_unit(q),
        reaches(u, l),
        l * 101real <= top * 100real,
    ensures
        reaches(Turn::of(q).turned(u), top),
{
    let t = Turn::of(q);
    let n = t.norm();
    lemma_turn_keeps(t, u, u);
    lemma_square(n);
    lemma_scale_ordered(n * n, u.dot(u), l * l);
    assert((n * n) * (l * l) == (n * l) * (n * l)) by {
        lemma_regroup(n, n, l * l);
        lemma_regroup(n, l, l);
        lemma_regroup(n, l, n * l);
        lemma_swap(n, l);
        lemma_regroup(l, n, l);
    }
    lemma_scale_ordered(l, n * 100real, 101real);
    lemma_regroup(n, l, 100real);
    lemma_swap(l, n * 100real);
    lemma_scale_ordered(l, 0real, n);
    lemma_swap(l, n);
    lemma_squares_ordered(n * l, top);
}

/// A rotation has no big components.
pub proof fn lemma_unit_parts(q: Quat)
    requires
        is_nearly_unit(q),
    ensures
        ({
            let t = Turn::of(q);
            &&& size(t.axis.x) * 64real <= 65real
            &&& size(t.axis.y) * 64real <= 65real
            &&& size(t.axis.z) * 64real <= 65real
            &&& size(t.w) * 64real <= 65real
            &&& 0real <= t.axis.x * t.axis.x
            &&& 0real <= t.axis.y * t.axis.y
            &&& 0real <= t.axis.z * t.axis.z
            &&& 0real <= t.w * t.w
            &&& t.norm() * 100real <= 101real
            &&& t.norm() * 100real >= 99real
        }),
{
    let t = Turn::of(q);
    lemma_square(t.axis.x);
    lemma_square(t.axis.y);
    lemma_square(t.axis.z);
    lemma_square(t.w);
    lemma_unit_part(t.axis.x);
    lemma_unit_part(t.axis.y);
    lemma_unit_part(t.axis.z);
    lemma_unit_part(t.w);
}

pub proof fn lemma_unit_part(x: real)
    requires
        (x * x) * 64real <= 65real,
    ensures
        size(x) * 64real <= 65real,
{
    lemma_squares_ordered(x * 64real, 65real);
    assert((x * 64real) * (x * 64real) == (x * x) * 4096real) by {
        lemma_regroup(x, 64real, x * 64real);
        lemma_regroup(x, x, 64real);
    }
}

/// A product with a component of a rotation is not much bigger.
pub proof fn lemma_unit_product(x: real, y: real, p: real, r: real)
    requires
        size(x) <= p,
        size(y) * 64real <= r,
    ensures
        size(x * y) * 64real <= p * r,
{
    lemma_size_of_product(x, y * 64real, p, r);
    assert(x * (y * 64real) == (x * y) * 64real) by {
        lemma_regroup(x, y, 64real);
    }
}

/// How much of itself a turned vector keeps.
pub proof fn lemma_own_close(q: Quat)
    requires
        is_nearly_unit(q),
    ensures
        ({
            let t = Turn::of(q);
            let k = q.w.times(q.w).minus(q.axis().dot(q.axis()));
            let e = t.w * t.w - t.axis.dot(t.axis);
            &&& within(k, e, 8real)
            &&& size(e) * 64real <= 65real
            &&& size(exact(k)) * 64real <= 65real
        }),
{
    lemma_unit_parts(q);
    let h = 65real / 64real;
    lemma_quotient_back(65real, 64real);
    let (x, y, z, w) = (exact(q.x), exact(q.y), exact(q.z), exact(q.w));
    lemma_times_close(q.w, q.w, h);
    lemma_times_close(q.x, q.x, h);
    lemma_times_close(q.y, q.y, h);
    lemma_times_close(q.z, q.z, h);
    let (ww, xx, yy, zz) = (q.w.times(q.w), q.x.times(q.x), q.y.times(q.y), q.z.times(q.z));
    lemma_plus_within(xx, x * x, h, yy, y * y, h, h);
    lemma_plus_within(xx.plus(yy), x * x + y * y, h * 3real, zz, z * z, h, h);
    lemma_minus_within(
        ww,
        w * w,
        h,
        xx.plus(yy).plus(zz),
        x * x + y * y + z * z,
        h * 5real,
        h,
    );
}

/// What a vector has along the axis of a rotation.
proof fn lemma_along_reach(q: Quat, u: Spot, s: real)
    requires
        is_nearly_unit(q),
        reaches(u, s * 65real),
    ensures
        size(u.dot(Turn::of(q).axis)) <= s * 67real,
{
    lemma_unit_parts(q);
    let b = Turn::of(q).axis;
    let h = 65real / 64real;
    lemma_quotient_back(65real, 64real);
    assert(b.dot(b) <= h * h) by {
        lemma_regroup(h, 64real, h * 64real);
        assert((h * 64real) * (h * 64real) == (h * h) * 4096real) by {
            lemma_regroup(h, h, 64real);
        }
    }
    lemma_in_common(u, b, s * 65real, h);
    let v = u.scale(-1real);
    lemma_dot_scale(u, -1real, u);
    lemma_dot_scale(u, -1real, v);
    lemma_dot_swap(u, v);
    lemma_in_common(v, b, s * 65real, h);
    lemma_dot_scale(u, -1real, b);
    lemma_regroup(s * 65real, h, 64real);
    assert(((s * 65real) * h) * 64real == s * 4225real);
}

/// How much of the axis comes to a turned vector.
proof fn lemma_along_close(q: Quat, v: Vec3, s: real)
    requires
        is_nearly_unit(q),
        v.is_finite(),
        reaches(Spot::of(v), s * 65real),
        is_scale(s),
    ensures
        ({
            let d = v.dot(q.axis()).times(two());
            let e = Spot::of(v).dot(Spot::of(q.axis())) * 2real;
            &&& within(d, e, s * 808real)
            &&& size(e) <= s * 134real
            &&& size(exact(d)) <= s * 136real
        }),
{
    lemma_unit_parts(q);
    let p = s * 65real;
    lemma_reach_parts(Spot::of(v), p);
    lemma_along_reach(q, Spot::of(v), s);
    let (x, y, z) = (exact(q.x), exact(q.y), exact(q.z));
    let (a, b, c) = (exact(v.x), exact(v.y), exact(v.z));
    let r = s * 67real;
    lemma_times_within(v.x, a, 0real, q.x, x, 0real, p, p, 65real, r, r);
    lemma_times_within(v.y, b, 0real, q.y, y, 0real, p, p, 65real, r, r);
    lemma_times_within(v.z, c, 0real, q.z, z, 0real, p, p, 65real, r, r);
    lemma_unit_product(a, x, p, 65real);
    lemma_unit_product(b, y, p, 65real);
    let (f, g, h) = (v.x.times(q.x), v.y.times(q.y), v.z.times(q.z));
    lemma_plus_within(f, a * x, r, g, b * y, r, s * 135real);
    lemma_plus_within(f.plus(g), a * x + b * y, s * 269real, h, c * z, r, s * 68real);
    lemma_twice(f.plus(g).plus(h), two());
}

/// What lies across an axis is not long.
proof fn lemma_across_reach(q: Quat, u: Spot, s: real)
    requires
        is_nearly_unit(q),
        reaches(u, s * 65real),
    ensures
        size(Turn::of(q).axis.cross(u).x) <= s * 67real,
        size(Turn::of(q).axis.cross(u).y) <= s * 67real,
        size(Turn::of(q).axis.cross(u).z) <= s * 67real,
{
    lemma_unit_parts(q);
    let b = Turn::of(q).axis;
    let c = b.cross(u);
    lemma_across_dot(b, u, u);
    lemma_dot_swap(u, b);
    lemma_square(u.dot(b));
    let (n, m) = (b.dot(b), u.dot(u));
    lemma_square(u.x);
    lemma_square(u.y);
    lemma_square(u.z);
    let l = s * 65real;
    lemma_scale_ordered(m, n * 64real, 65real);
    lemma_regroup(n, m, 64real);
    lemma_swap(m, n * 64real);
    lemma_swap(n, m);
    assert((n * m) * 64real <= m * 65real);
    let t = s * 67real;
    assert(l * l == (s * s) * 4225real) by {
        lemma_regroup(s, 65real, s * 65real);
        lemma_regroup(s, s, 65real);
    }
    assert(t * t == (s * s) * 4489real) by {
        lemma_regroup(s, 67real, s * 67real);
        lemma_regroup(s, s, 67real);
    }
    lemma_square(s);
    assert(reaches(c, t));
    lemma_reach_parts(c, t);
}

/// What lies across comes close.
proof fn lemma_across_close(b: Scalar, z: Scalar, c: Scalar, y: Scalar, s: real)
    requires
        b.is_finite(),
        c.is_finite(),
        y.is_finite(),
        z.is_finite(),
        size(exact(b)) * 64real <= 65real,
        size(exact(c)) * 64real <= 65real,
        size(exact(y)) <= s * 65real,
        size(exact(z)) <= s * 65real,
        is_scale(s),
        size(exact(b) * exact(z) - exact(c) * exact(y)) <= s * 67real,
    ensures
        ({
            let d = b.times(z).minus(y.times(c));
            let e = exact(b) * exact(z) - exact(c) * exact(y);
            &&& within(d, e, s * 202real)
            &&& size(exact(d)) <= s * 68real
        }),
{
    let (p, r) = (s * 65real, s * 67real);
    lemma_times_within(z, exact(z), 0real, b, exact(b), 0real, p, p, 65real, r, r);
    lemma_times_within(y, exact(y), 0real, c, exact(c), 0real, p, p, 65real, r, r);
    lemma_times_swap(z, b);
    lemma_swap(exact(y), exact(c));
    lemma_swap(exact(z), exact(b));
    lemma_minus_within(
        b.times(z),
        exact(b) * exact(z),
        r,
        y.times(c),
        exact(y) * exact(c),
        r,
        s * 68real,
    );
}

/// One coordinate of a turned vector comes close.
proof fn lemma_part_close(
    v: Scalar,
    k: Scalar,
    ek: real,
    b: Scalar,
    d: Scalar,
    ed: real,
    c: Scalar,
    ec: real,
    m: Scalar,
    em: real,
    s: real,
)
    requires
        is_scale(s),
        v.is_finite(),
        size(exact(v)) <= s * 65real,
        within(k, ek, 8real),
        size(ek) * 64real <= 65real,
        size(exact(k)) * 64real <= 65real,
        b.is_finite(),
        size(exact(b)) * 64real <= 65real,
        within(d, ed, s * 808real),
        size(ed) <= s * 134real,
        size(exact(d)) <= s * 136real,
        within(c, ec, s * 202real),
        size(ec) <= s * 67real,
        size(exact(c)) <= s * 68real,
        within(m, em, 0real),
        size(exact(m)) * 64real <= 130real,
        size(exact(v) * ek + exact(b) * ed + ec * em) <= s * 66real,
    ensures
        within(
            v.times(k).plus(b.times(d)).plus(c.times(m)),
            exact(v) * ek + exact(b) * ed + ec * em,
            s * 2369real,
        ),
{
    let (x, y) = (exact(v), exact(b));
    let p = s * 65real;
    lemma_times_within(v, x, 0real, k, ek, 8real, p, p, 65real, s * 67real, s * 587real);
    lemma_times_within(
        d,
        ed,
        s * 808real,
        b,
        y,
        0real,
        s * 134real,
        s * 136real,
        65real,
        s * 139real,
        s * 960real,
    );
    lemma_times_swap(d, b);
    lemma_swap(ed, y);
    lemma_times_within(
        c,
        ec,
        s * 202real,
        m,
        em,
        0real,
        s * 67real,
        s * 68real,
        130real,
        s * 139real,
        s * 550real,
    );
    lemma_unit_product(x, ek, p, 65real);
    lemma_unit_product(ed, y, s * 134real, 65real);
    lemma_plus_within(
        v.times(k),
        x * ek,
        s * 587real,
        b.times(d),
        y * ed,
        s * 960real,
        s * 205real,
    );
    lemma_plus_within(
        v.times(k).plus(b.times(d)),
        x * ek + y * ed,
        s * 1752real,
        c.times(m),
        ec * em,
        s * 550real,
        s * 67real,
    );
}

/// A turned vector is close to the exactly turned one.
pub proof fn lemma_rotate_close(q: Quat, v: Vec3, s: real)
    requires
        is_nearly_unit(q),
        v.is_finite(),
        reaches(Spot::of(v), s * 65real),
        is_scale(s),
    ensures
        q.rotate(v).is_finite(),
        close(Spot::of(q.rotate(v)), Turn::of(q).turned(Spot::of(v)), s * 4146real),
{
    let t = Turn::of(q);
    let u = Spot::of(v);
    lemma_unit_parts(q);
    lemma_reach_parts(u, s * 65real);
    lemma_own_close(q);
    lemma_along_close(q, v, s);
    lemma_along_reach(q, u, s);
    lemma_twice(q.w, two());
    let b = q.axis();
    lemma_across_reach(q, u, s);
    lemma_across_close(b.y, v.z, b.z, v.y, s);
    lemma_across_close(b.z, v.x, b.x, v.z, s);
    lemma_across_close(b.x, v.y, b.y, v.x, s);
    let k = q.w.times(q.w).minus(b.dot(b));
    let ek = t.w * t.w - t.axis.dot(t.axis);
    let d = v.dot(b).times(two());
    let ed = u.dot(t.axis) * 2real;
    let m = q.w.times(two());
    let em = t.w * 2real;
    let (c, ec) = (b.cross(v), t.axis.cross(u));
    lemma_turned_reach_nearly(q, u, s * 65real, s * 66real);
    lemma_reach_parts(t.turned(u), s * 66real);
    lemma_part_close(v.x, k, ek, b.x, d, ed, c.x, ec.x, m, em, s);
    lemma_part_close(v.y, k, ek, b.y, d, ed, c.y, ec.y, m, em, s);
    lemma_part_close(v.z, k, ek, b.z, d, ed, c.z, ec.z, m, em, s);
    lemma_parts_close(Spot::of(q.rotate(v)), t.turned(u), s * 2369real, s * 4146real);
}

/// What a turned vector has besides what comes from the axis.
proof fn lemma_turned_rest(u: real, k: real, c: real, m: real, s: real)
    requires
        size(u) <= s * 65real,
        (size(k + 1real) * grains()) * 64real <= 132real,
        size(c) <= s * 67real,
        size(m) * grains() <= 2real,
    ensures
        size(u * k + c * m + u) * grains() <= s * 269real,
{
    let g = grains();
    lemma_unit_product(u, (k + 1real) * g, s * 65real, 132real);
    lemma_regroup(u, k + 1real, g);
    lemma_spread(k, 1real, u);
    lemma_size_of_product(c, m * g, s * 67real, 2real);
    lemma_regroup(c, m, g);
}

impl Spot {
    /// The same point after exactly half a turn about the Y axis.
    pub open spec fn half_turned_y(self) -> Spot {
        Spot { x: -self.x, y: self.y, z: -self.z }
    }
}

/// Whether a rotation is half a turn about the Y axis, but for rounding.
pub open spec fn is_near_half_turn_y(q: Quat) -> bool {
    let t = Turn::of(q);
    &&& is_unit(q)
    &&& size(t.axis.y - 1real) * grains() <= 1real
    &&& size(t.axis.x) * grains() <= 1real
    &&& size(t.axis.z) * grains() <= 1real
    &&& size(t.w) * grains() <= 1real
}

/// What is near half a turn about the Y axis does nearly that.
proof fn lemma_half_turned_y(q: Quat, u: Spot, s: real)
    requires
        is_near_half_turn_y(q),
        reaches(u, s * 65real),
        s >= 0real,
    ensures
        close(Turn::of(q).turned(u), u.half_turned_y(), s * 1395real),
{
    let t = Turn::of(q);
    let (b, w, g) = (t.axis, t.w, grains());
    lemma_unit_parts(q);
    let l = s * 65real;
    lemma_reach_parts(u, l);
    lemma_along_reach(q, u, s);
    lemma_across_reach(q, u, s);
    let k = w * w - b.dot(b);
    let e = u.dot(b);
    let d = e * 2real;
    let m = w * 2real;
    let c = b.cross(u);
    lemma_unit_product(w * g, w, 1real, 1real);
    lemma_regroup(w, g, w);
    lemma_unit_product(b.x * g, b.x, 1real, 1real);
    lemma_regroup(b.x, g, b.x);
    lemma_unit_product(b.z * g, b.z, 1real, 1real);
    lemma_regroup(b.z, g, b.z);
    let n = b.y * b.y - 1real;
    lemma_unit_product((b.y - 1real) * g, b.y + 1real, 1real, 129real);
    lemma_regroup(b.y - 1real, g, b.y + 1real);
    lemma_spread_minus(b.y, 1real, b.y + 1real);
    lemma_spread(b.y, 1real, b.y);
    assert(n == (b.y - 1real) * (b.y + 1real));
    assert((size(n) * g) * 64real <= 129real);
    assert((size(k + 1real) * g) * 64real <= 132real);
    lemma_turned_rest(u.x, k, c.x, m, s);
    lemma_turned_rest(u.y, k, c.y, m, s);
    lemma_turned_rest(u.z, k, c.z, m, s);
    // What comes from the axis: twice what lies along it, and nothing else.
    lemma_size_of_product(b.x * g, d, 1real, s * 134real);
    lemma_regroup(b.x, g, d);
    lemma_size_of_product(b.z * g, d, 1real, s * 134real);
    lemma_regroup(b.z, g, d);
    let f = u.x * b.x + u.z * b.z;
    lemma_size_of_product(u.x, b.x * g, l, 1real);
    lemma_regroup(u.x, b.x, g);
    lemma_size_of_product(u.z, b.z * g, l, 1real);
    lemma_regroup(u.z, b.z, g);
    assert(size(f * g) <= s * 130real);
    lemma_unit_product(f * g, b.y, s * 130real, 65real);
    lemma_swap(f * g, b.y);
    lemma_regroup(b.y, f, g);
    lemma_unit_product(u.y, n * g, l, 129real);
    lemma_regroup(u.y, n, g);
    lemma_spread(f, u.y * b.y, b.y);
    lemma_regroup(u.y, b.y, b.y);
    lemma_swap(b.y, u.y * b.y);
    lemma_spread_minus(b.y * b.y, 1real, u.y);
    assert(e == f + u.y * b.y);
    lemma_regroup(b.y, e, 2real);
    assert(b.y * d == (b.y * f + u.y * n + u.y) * 2real);
    lemma_parts_close(t.turned(u), u.half_turned_y(), s * 797real, s * 1395real);
}

impl Spot {
    /// The same point after exactly half a turn about the Z axis.
    pub open spec fn half_turned_z(self) -> Spot {
        Spot { x: -self.x, y: -self.y, z: self.z }
    }
}

/// Whether a rotation is half a turn about the Z axis, but for rounding.
pub open spec fn is_near_half_turn_z(q: Quat) -> bool {
    let t = Turn::of(q);
    &&& is_unit(q)
    &&& size(t.axis.z - 1real) * grains() <= 1real
    &&& size(t.axis.x) * grains() <= 1real
    &&& size(t.axis.y) * grains() <= 1real
    &&& size(t.w) * grains() <= 1real
}

/// What is near half a turn about the Z axis does nearly that.
proof fn lemma_half_turned_z(q: Quat, u: Spot, s: real)
    requires
        is_near_half_turn_z(q),
        reaches(u, s * 65real),
        s >= 0real,
    ensures
        close(Turn::of(q).turned(u), u.half_turned_z(), s * 1395real),
{
    let t = Turn::of(q);
    let (b, w, g) = (t.axis, t.w, grains());
    lemma_unit_parts(q);
    let l = s * 65real;
    lemma_reach_parts(u, l);
    lemma_along_reach(q, u, s);
    lemma_across_reach(q, u, s);
    let k = w * w - b.dot(b);
    let e = u.dot(b);
    let d = e * 2real;
    let m = w * 2real;
    let c = b.cross(u);
    lemma_unit_product(w * g, w, 1real, 1real);
    lemma_regroup(w, g, w);
    lemma_unit_product(b.x * g, b.x, 1real, 1real);
    lemma_regroup(b.x, g, b.x);
    lemma_unit_product(b.y * g, b.y, 1real, 1real);
    lemma_regroup(b.y, g, b.y);
    let n = b.z * b.z - 1real;
    lemma_unit_product((b.z - 1real) * g, b.z + 1real, 1real, 129real);
    lemma_regroup(b.z - 1real, g, b.z + 1real);
    lemma_spread_minus(b.z, 1real, b.z + 1real);
    lemma_spread(b.z, 1real, b.z);
    assert(n == (b.z - 1real) * (b.z + 1real));
    assert((size(n) * g) * 64real <= 129real);
    assert((size(k + 1real) * g) * 64real <= 132real);
    lemma_turned_rest(u.x, k, c.x, m, s);
    lemma_turned_rest(u.y, k, c.y, m, s);
    lemma_turned_rest(u.z, k, c.z, m, s);
    // What comes from the axis: twice what lies along it, and nothing else.
    lemma_size_of_product(b.x * g, d, 1real, s * 134real);
    lemma_regroup(b.x, g, d);
    lemma_size_of_product(b.y * g, d, 1real, s * 134real);
    lemma_regroup(b.y, g, d);
    let f = u.x * b.x + u.y * b.y;
    lemma_size_of_product(u.x, b.x * g, l, 1real);
    lemma_regroup(u.x, b.x, g);
    lemma_size_of_product(u.y, b.y * g, l, 1real);
    lemma_regroup(u.y, b.y, g);
    assert(size(f * g) <= s * 130real);
    lemma_unit_product(f * g, b.z, s * 130real, 65real);
    lemma_swap(f * g, b.z);
    lemma_regroup(b.z, f, g);
    lemma_unit_product(u.z, n * g, l, 129real);
    lemma_regroup(u.z, n, g);
    lemma_spread(f, u.z * b.z, b.z);
    lemma_regroup(u.z, b.z, b.z);
    lemma_swap(b.z, u.z * b.z);
    lemma_spread_minus(b.z * b.z, 1real, u.z);
    assert(e == f + u.z * b.z);
    lemma_regroup(b.z, e, 2real);
    assert(b.z * d == (b.z * f + u.z * n + u.z) * 2real);
    lemma_parts_close(t.turned(u), u.half_turned_z(), s * 797real, s * 1395real);
}

/// A rotation makes nothing much longer.
pub proof fn lemma_norm_of(q: Quat, e: real)
    requires
        is_unit(q),
        e >= 0real,
    ensures
        0real <= Turn::of(q).norm(),
        (Turn::of(q).norm() * e) * grains() <= e * (grains() + 64real),
        (Turn::of(q).norm() * e) * grains() >= e * (grains() - 64real),
{
    let n = Turn::of(q).norm();
    lemma_unit_parts(q);
    lemma_scale_ordered(e, n * grains(), grains() + 64real);
    lemma_scale_ordered(e, grains() - 64real, n * grains());
    lemma_regroup(n, e, grains());
    lemma_swap(e, n * grains());
}

/// The way back is a rotation too, exactly the one back.
pub proof fn lemma_inverse(q: Quat)
    requires
        is_unit(q),
    ensures
        is_unit(q.inverse()),
        Turn::of(q.inverse()) == Turn::of(q).back(),
        Turn::of(q).back().norm() == Turn::of(q).norm(),
{
    lemma_neg_close(q.x);
    lemma_neg_close(q.y);
    lemma_neg_close(q.z);
    assert(Turn::of(q.inverse()).axis == Turn::of(q).back().axis);
    lemma_turn_moves_over(Turn::of(q), Spot::of(q.axis()), Spot::of(q.axis()));
}

/// Half a turn keeps distances.
pub proof fn lemma_half_turns_keep(a: Spot, b: Spot, e: real)
    requires
        close(a, b, e),
    ensures
        close(a.half_turned_y(), b.half_turned_y(), e),
        close(a.half_turned_z(), b.half_turned_z(), e),
{
    let d = a.minus(b).scale(grains());
    lemma_opposite(d.x, d.x);
    lemma_opposite(d.y, d.y);
    lemma_opposite(d.z, d.z);
    lemma_opposite(-d.x, d.x);
    lemma_opposite(-d.y, d.y);
    lemma_opposite(-d.z, d.z);
    lemma_opposite(d.x, -d.x);
    lemma_opposite(d.y, -d.y);
    lemma_opposite(d.z, -d.z);
    let (f, g) = (
        a.half_turned_y().minus(b.half_turned_y()).scale(grains()),
        a.half_turned_z().minus(b.half_turned_z()).scale(grains()),
    );
    assert(f == d.half_turned_y());
    assert(g == d.half_turned_z());
}

/// No vector turns to no vector.
pub proof fn lemma_turned_origin(q: Turn)
    ensures
        q.turned(origin()) == origin(),
{
    lemma_turn_scale(q, origin(), 0real);
    assert(origin().scale(0real) == origin());
    let r = q.turned(origin());
    assert(r.scale(0real) == origin());
}

/// A vector that is carried through a pair of rotations with half a turn between them.
pub open spec fn carried_y(entry: Quat, exit: Quat, u: Spot) -> Spot {
    Turn::of(exit).turned(Turn::of(entry).back().turned(u).half_turned_y())
}

pub open spec fn carried_z(entry: Quat, exit: Quat, u: Spot) -> Spot {
    Turn::of(exit).turned(Turn::of(entry).back().turned(u).half_turned_z())
}

/// Vectors that are close are carried to close ones.
pub proof fn lemma_carried_keeps(entry: Quat, exit: Quat, a: Spot, b: Spot, e: real, top: real)
    requires
        is_unit(entry),
        is_unit(exit),
        close(a, b, e),
        e * (grains() + 192real) <= top * grains(),
    ensures
        close(carried_y(entry, exit, a), carried_y(entry, exit, b), top),
        close(carried_z(entry, exit, a), carried_z(entry, exit, b), top),
{
    let (t, r) = (Turn::of(entry), Turn::of(exit));
    lemma_inverse(entry);
    lemma_norm_of(entry, e);
    let f = t.norm() * e;
    lemma_scale_ordered(t.norm(), 0real, e);
    lemma_turned_close(t.back(), a, b, e);
    lemma_half_turns_keep(t.back().turned(a), t.back().turned(b), f);
    lemma_norm_of(exit, f);
    lemma_turned_close(
        r,
        t.back().turned(a).half_turned_y(),
        t.back().turned(b).half_turned_y(),
        f,
    );
    lemma_turned_close(
        r,
        t.back().turned(a).half_turned_z(),
        t.back().turned(b).half_turned_z(),
        f,
    );
    assert(f * 16777216real <= e * 16777280real);
    assert(f <= e * 2real);
    assert((r.norm() * f) * 16777216real <= f * 16777280real);
    assert(e * 16777408real <= top * 16777216real);
    lemma_close_wider(carried_y(entry, exit, a), carried_y(entry, exit, b), r.norm() * f, top);
    lemma_close_wider(carried_z(entry, exit, a), carried_z(entry, exit, b), r.norm() * f, top);
}

/// A little of something is little.
proof fn lemma_longer(s: real, k: real)
    requires
        k * grains() == 64real,
        s >= 0real,
    ensures
        (s * 64real * k) * grains() == s * 4096real,
        s * 64real * k >= 0real,
{
    lemma_regroup(s * 64real, k, grains());
    lemma_scale_ordered(s * 64real, 0real, k);
}

/// A vector that rounded rotations carry through is close to the one that exact ones
/// carry through.
pub proof fn lemma_carried_y(entry: Quat, half: Quat, exit: Quat, v: Vec3, s: real)
    requires
        is_unit(entry),
        is_near_half_turn_y(half),
        is_unit(exit),
        v.is_finite(),
        reaches(Spot::of(v), s * 64real),
        is_scale(s),
    ensures
        ({
            let out = exit.rotate(half.rotate(entry.inverse().rotate(v)));
            &&& out.is_finite()
            &&& reaches(Spot::of(out), s * 65real)
            &&& close(Spot::of(out), carried_y(entry, exit, Spot::of(v)), s * 13840real)
        }),
{
    let u = Spot::of(v);
    let (t, r) = (Turn::of(entry).back(), Turn::of(exit));
    lemma_inverse(entry);
    let local = entry.inverse().rotate(v);
    let exactly = t.turned(u);
    lemma_squares_ordered(s * 64real, s * 65real);
    lemma_rotate_close(entry.inverse(), v, s);
    // How long the vectors are.
    let g = grains();
    let long = s * 64real + s * 64real * (64real / g);
    lemma_quotient_back(64real, g);
    lemma_longer(s, 64real / g);
    lemma_turned_reach(entry.inverse(), u, s * 64real, long);
    lemma_reach_near(Spot::of(local), exactly, s * 4146real, long, s * 65real);
    // Half a turn.
    let behind = half.rotate(local);
    let turned = exactly.half_turned_y();
    lemma_rotate_close(half, local, s);
    lemma_half_turned_y(half, Spot::of(local), s);
    lemma_half_turns_keep(Spot::of(local), exactly, s * 4146real);
    lemma_way_round(
        Spot::of(behind),
        Turn::of(half).turned(Spot::of(local)),
        Spot::of(local).half_turned_y(),
        s * 4146real,
        s * 1395real,
    );
    lemma_way_round(
        Spot::of(behind),
        Spot::of(local).half_turned_y(),
        turned,
        s * 4146real + s * 1395real,
        s * 4146real,
    );
    let off = s * 9687real;
    lemma_reach_close(exactly, long);
    lemma_half_turns_keep(exactly, origin(), long * g);
    assert(origin().half_turned_y() == origin());
    lemma_reach_close(turned, long);
    lemma_reach_near(Spot::of(behind), turned, off, long, s * 65real);
    // And out.
    lemma_rotate_close(exit, behind, s);
    lemma_turned_close(r, Spot::of(behind), turned, off);
    lemma_norm_of(exit, off);
    let out = exit.rotate(behind);
    lemma_close_wider(
        r.turned(Spot::of(behind)),
        r.turned(turned),
        r.norm() * off,
        s * 9688real,
    );
    lemma_way_round(
        Spot::of(out),
        r.turned(Spot::of(behind)),
        r.turned(turned),
        s * 4146real,
        s * 9688real,
    );
    lemma_close_wider(
        Spot::of(out),
        r.turned(turned),
        s * 4146real + s * 9688real,
        s * 13840real,
    );
    let longer = s * 64real + (s * 64real * (64real / g)) * 3real;
    lemma_turned_reach(exit, turned, long, longer);
    lemma_reach_near(Spot::of(out), r.turned(turned), s * 13840real, longer, s * 65real);
}

/// A vector that rounded rotations carry through is close to the one that exact ones
/// carry through.
pub proof fn lemma_carried_z(entry: Quat, half: Quat, exit: Quat, v: Vec3, s: real)
    requires
        is_unit(entry),
        is_near_half_turn_z(half),
        is_unit(exit),
        v.is_finite(),
        reaches(Spot::of(v), s * 64real),
        is_scale(s),
    ensures
        ({
            let out = exit.rotate(half.rotate(entry.inverse().rotate(v)));
            &&& out.is_finite()
            &&& reaches(Spot::of(out), s * 65real)
            &&& close(Spot::of(out), carried_z(entry, exit, Spot::of(v)), s * 13840real)
        }),
{
    let u = Spot::of(v);
    let (t, r) = (Turn::of(entry).back(), Turn::of(exit));
    lemma_inverse(entry);
    let local = entry.inverse().rotate(v);
    let exactly = t.turned(u);
    lemma_squares_ordered(s * 64real, s * 65real);
    lemma_rotate_close(entry.inverse(), v, s);
    // How long the vectors are.
    let g = grains();
    let long = s * 64real + s * 64real * (64real / g);
    lemma_quotient_back(64real, g);
    lemma_longer(s, 64real / g);
    lemma_turned_reach(entry.inverse(), u, s * 64real, long);
    lemma_reach_near(Spot::of(local), exactly, s * 4146real, long, s * 65real);
    // Half a turn.
    let behind = half.rotate(local);
    let turned = exactly.half_turned_z();
    lemma_rotate_close(half, local, s);
    lemma_half_turned_z(half, Spot::of(local), s);
    lemma_half_turns_keep(Spot::of(local), exactly, s * 4146real);
    lemma_way_round(
        Spot::of(behind),
        Turn::of(half).turned(Spot::of(local)),
        Spot::of(local).half_turned_z(),
        s * 4146real,
        s * 1395real,
    );
    lemma_way_round(
        Spot::of(behind),
        Spot::of(local).half_turned_z(),
        turned,
        s * 4146real + s * 1395real,
        s * 4146real,
    );
    let off = s * 9687real;
    lemma_reach_close(exactly, long);
    lemma_half_turns_keep(exactly, origin(), long * g);
    assert(origin().half_turned_z() == origin());
    lemma_reach_close(turned, long);
    lemma_reach_near(Spot::of(behind), turned, off, long, s * 65real);
    // And out.
    lemma_rotate_close(exit, behind, s);
    lemma_turned_close(r, Spot::of(behind), turned, off);
    lemma_norm_of(exit, off);
    let out = exit.rotate(behind);
    lemma_close_wider(
        r.turned(Spot::of(behind)),
        r.turned(turned),
        r.norm() * off,
        s * 9688real,
    );
    lemma_way_round(
        Spot::of(out),
        r.turned(Spot::of(behind)),
        r.turned(turned),
        s * 4146real,
        s * 9688real,
    );
    lemma_close_wider(
        Spot::of(out),
        r.turned(turned),
        s * 4146real + s * 9688real,
        s * 13840real,
    );
    let longer = s * 64real + (s * 64real * (64real / g)) * 3real;
    lemma_turned_reach(exit, turned, long, longer);
    lemma_reach_near(Spot::of(out), r.turned(turned), s * 13840real, longer, s * 65real);
}

/// How much two rotations there and back make longer.
pub proof fn lemma_norms(entry: Quat, exit: Quat)
    requires
        is_unit(entry),
        is_unit(exit),
    ensures
        ({
            let (m, n) = (Turn::of(entry).norm(), Turn::of(exit).norm());
            &&& size(n * n - 1real) * grains() <= 130real
            &&& size((n * n) * (m * m) - 1real) * grains() <= 260real
            &&& 0real <= m * m <= 2real
        }),
{
    let (m, n) = (Turn::of(entry).norm(), Turn::of(exit).norm());
    lemma_unit_parts(entry);
    lemma_unit_parts(exit);
    lemma_square_near_one(m);
    lemma_square_near_one(n);
    let (a, b) = (n * n, m * m);
    let g = grains();
    lemma_size_of_product((a - 1real) * g, b - 1real, 129real, 1real);
    lemma_regroup(a - 1real, g, b - 1real);
    lemma_spread_minus(a, 1real, b - 1real);
    lemma_spread_minus(b, 1real, a);
    assert((a - 1real) * (b - 1real) == a * b - a - b + 1real);
    lemma_size_of_product((a - 1real) * g, (b - 1real) * g, 129real, 129real);
    lemma_regroup(a - 1real, g, (b - 1real) * g);
    lemma_regroup(a - 1real, b - 1real, g);
    let x = (a - 1real) * (b - 1real);
    assert(((a - 1real) * g) * ((b - 1real) * g) == (x * g) * g);
}

/// The square of what is near one is near one.
proof fn lemma_square_near_one(n: real)
    requires
        size(n - 1real) * grains() <= 64real,
    ensures
        size(n * n - 1real) * grains() <= 129real,
{
    let g = grains();
    let d = (n - 1real) * g;
    lemma_size_of_product(d, d, 64real, 64real);
    lemma_regroup(n - 1real, g, d);
    lemma_regroup(n - 1real, n - 1real, g);
    lemma_spread_minus(n, 1real, n - 1real);
    lemma_spread_minus(n, 1real, n);
    let x = (n - 1real) * (n - 1real);
    assert(x == n * n - n - n + 1real);
    assert(d * d == (x * g) * g);
}

/// Exact rotations there and back leave a vector where it was, but for their length.
pub proof fn lemma_there_and_back(entry: Quat, exit: Quat, u: Spot, l: real)
    requires
        is_unit(entry),
        is_unit(exit),
        reaches(u, l),
    ensures
        close(carried_y(exit, entry, carried_y(entry, exit, u)), u, l * 260real),
        close(carried_z(exit, entry, carried_z(entry, exit, u)), u, l * 260real),
{
    let (t, r) = (Turn::of(entry), Turn::of(exit));
    let (m, n) = (t.norm(), r.norm());
    let k = n * n;
    let v = t.back().turned(u);
    lemma_turn_back(r, v.half_turned_y());
    lemma_turn_back(r, v.half_turned_z());
    lemma_opposite(v.x, k);
    lemma_opposite(v.y, k);
    lemma_opposite(v.z, k);
    assert(v.half_turned_y().scale(k).half_turned_y() == v.scale(k));
    assert(v.half_turned_z().scale(k).half_turned_z() == v.scale(k));
    lemma_turn_scale(t, v, k);
    lemma_inverse(entry);
    lemma_turn_back(t.back(), u);
    assert(t.back().back() == t);
    let f = m * m;
    lemma_regroup(u.x, f, k);
    lemma_regroup(u.y, f, k);
    lemma_regroup(u.z, f, k);
    lemma_swap(f, k);
    let w = u.scale(k * f);
    assert(t.turned(v).scale(k) == w);
    lemma_norms(entry, exit);
    // What is longer by a factor is off by its length times the rest of that factor.
    let g = grains();
    let c = (k * f - 1real) * g;
    let d = w.minus(u).scale(g);
    lemma_longer_part(u.x, k * f);
    lemma_longer_part(u.y, k * f);
    lemma_longer_part(u.z, k * f);
    assert(d == u.scale(c));
    lemma_dot_scale(u, c, d);
    lemma_dot_swap(u, d);
    lemma_dot_scale(u, c, u);
    let z = u.dot(u);
    lemma_regroup(c, c, z);
    lemma_squares_ordered(c, 260real);
    lemma_square(u.x);
    lemma_square(u.y);
    lemma_square(u.z);
    lemma_scale_ordered(z, c * c, 260real * 260real);
    lemma_swap(z, c * c);
    assert((l * 260real) * (l * 260real) == (l * l) * 67600real) by {
        lemma_regroup(l, 260real, l * 260real);
        lemma_regroup(l, l, 260real);
    }
}

proof fn lemma_longer_part(u: real, k: real)
    ensures
        (u * k - u) * grains() == u * ((k - 1real) * grains()),
{
    lemma_regroup(u, k - 1real, grains());
    lemma_spread_minus(k, 1real, u);
}

/// What is carried through lies to the exit's upward axis as it lay to the entry's. `out`
/// is `off` grains from what exact rotations carry through, and `u` is at most `l` long.
pub proof fn lemma_height_kept(
    entry: Quat,
    exit: Quat,
    u: Spot,
    out: Spot,
    off: real,
    l: real,
    top: real,
)
    requires
        is_unit(entry),
        is_unit(exit),
        reaches(u, l),
        off * (grains() + 64real) + (l * 131real) * grains() <= top * grains(),
        close(out, carried_y(entry, exit, u), off),
    ensures
        ({
            let y = Spot { x: 0real, y: 1real, z: 0real };
            size(out.dot(Turn::of(exit).turned(y)) - u.dot(Turn::of(entry).turned(y))) * grains()
                <= top
        }),
{
    let y = Spot { x: 0real, y: 1real, z: 0real };
    let (t, r) = (Turn::of(entry), Turn::of(exit));
    let g = grains();
    let (m, n) = (t.norm(), r.norm());
    lemma_unit_parts(entry);
    lemma_unit_parts(exit);
    let (a, b) = (t.turned(y), r.turned(y));
    let e = carried_y(entry, exit, u);
    // How long the axes are.
    lemma_turn_keeps(t, y, y);
    lemma_turn_keeps(r, y, y);
    assert(y.dot(y) == 1real);
    assert(a.dot(a) == m * m);
    assert(b.dot(b) == n * n);
    // What is off.
    let d = out.minus(e).scale(g);
    lemma_in_common(d, b, off, n);
    let o = d.scale(-1real);
    lemma_dot_scale(d, -1real, d);
    lemma_dot_scale(d, -1real, o);
    lemma_dot_swap(d, o);
    assert(o.dot(o) == d.dot(d));
    lemma_in_common(o, b, off, n);
    lemma_dot_scale(d, -1real, b);
    lemma_dot_scale(out.minus(e), g, b);
    lemma_dot_minus(out, e, b);
    assert(size(out.dot(b) - e.dot(b)) * g <= off * n);
    // What was carried.
    let v = t.back().turned(u);
    lemma_turn_keeps(r, v.half_turned_y(), y);
    lemma_turn_moves_over(t, y, u);
    lemma_dot_swap(y, v);
    lemma_dot_swap(a, u);
    let h = u.dot(a);
    assert(v.half_turned_y().dot(y) == v.y);
    assert(v.dot(y) == v.y);
    assert(e.dot(b) == (n * n) * h);
    // How far it was.
    lemma_in_common(u, a, l, m);
    let x = u.scale(-1real);
    lemma_dot_scale(u, -1real, u);
    lemma_dot_scale(u, -1real, x);
    lemma_dot_swap(u, x);
    lemma_in_common(x, a, l, m);
    lemma_dot_scale(u, -1real, a);
    assert(size(h) <= l * m);
    lemma_norm_of(entry, l);
    lemma_norm_of(exit, off);
    lemma_swap(l, m);
    lemma_swap(off, n);
    lemma_norms(entry, exit);
    lemma_size_of_product(h, (n * n - 1real) * g, l * m, 130real);
    lemma_regroup(h, n * n - 1real, g);
    lemma_spread_minus(n * n, 1real, h);
    assert(size((n * n) * h - h) * g <= (l * m) * 130real);
    assert((l * m) * 16777216real <= l * 16777280real);
    assert((l * m) * 130real <= l * 131real);
    assert((off * n) * 16777216real <= off * 16777280real);
    assert(off * 16777280real + (l * 131real) * 16777216real <= top * 16777216real);
    assert(off * n + l * 131real <= top);
}

/// What lies along an axis is as long as its coordinate.
pub proof fn lemma_ahead_close(k: real, e: real)
    requires
        size(k) * grains() <= e,
    ensures
        close(Spot { x: 0real, y: 0real, z: k }, origin(), e),
{
    let d = Spot { x: 0real, y: 0real, z: k }.minus(origin()).scale(grains());
    lemma_squares_ordered(d.z, e);
    lemma_nothing(d.x, d.x);
    lemma_nothing(d.y, d.y);
}

} // verus!

//! One rotation after another, next to what exact rotations come to.

use crate::closeness::{
    exact, grains, lemma_minus_within, lemma_neg_close, lemma_plus_within, lemma_quotient_back,
    lemma_size_of_product, lemma_times_close, size, within,
};
use crate::scalar::Scalar;
use crate::turning::{
    close, is_nearly_unit, is_scale, is_unit, lemma_cancel, lemma_close_wider, lemma_cross_across,
    lemma_inverse, lemma_nothing, lemma_opposite, lemma_positive, lemma_reach_close, lemma_regroup,
    lemma_rotate_close, lemma_scale_ordered, lemma_spread, lemma_spread_minus, lemma_square,
    lemma_squares_ordered, lemma_swap, lemma_unit_parts, lemma_way_round, reaches, Spot, Turn,
};
use crate::vector::{Quat, Vec3};
use vstd::prelude::*;

verus! {

/// The rotation that comes of `b`, and of `a` after it.
pub open spec fn after(a: Turn, b: Turn) -> Turn {
    Turn {
        axis: Spot {
            x: a.w * b.axis.x + a.axis.x * b.w + a.axis.y * b.axis.z - a.axis.z * b.axis.y,
            y: a.w * b.axis.y - a.axis.x * b.axis.z + a.axis.y * b.w + a.axis.z * b.axis.x,
            z: a.w * b.axis.z + a.axis.x * b.axis.y - a.axis.y * b.axis.x + a.axis.z * b.w,
        },
        w: a.w * b.w - a.axis.x * b.axis.x - a.axis.y * b.axis.y - a.axis.z * b.axis.z,
    }
}

/// A point as what turns nothing.
pub open spec fn point(u: Spot) -> Turn {
    Turn { axis: u, w: 0real }
}

/// How two rotations differ, component by component.
pub open spec fn difference(a: Turn, b: Turn) -> Turn {
    Turn { axis: a.axis.minus(b.axis), w: a.w - b.w }
}

/// What two rotations come to, component by component.
pub open spec fn sum(a: Turn, b: Turn) -> Turn {
    Turn { axis: a.axis.plus(b.axis), w: a.w + b.w }
}

/// One component of three rotations one after the other.
proof fn lemma_three_w(
    aw: real,
    ax: real,
    ay: real,
    az: real,
    bw: real,
    bx: real,
    by: real,
    bz: real,
    cw: real,
    cx: real,
    cy: real,
    cz: real,
)
    ensures
        (aw * bw - ax * bx - ay * by - az * bz) * cw
            - (aw * bx + ax * bw + ay * bz - az * by) * cx
            - (aw * by - ax * bz + ay * bw + az * bx) * cy
            - (aw * bz + ax * by - ay * bx + az * bw) * cz
            == aw * (bw * cw - bx * cx - by * cy - bz * cz)
                - ax * (bw * cx + bx * cw + by * cz - bz * cy)
                - ay * (bw * cy - bx * cz + by * cw + bz * cx)
                - az * (bw * cz + bx * cy - by * cx + bz * cw),
{
    lemma_spread_minus(aw * bw - ax * bx - ay * by, az * bz, cw);
    lemma_spread_minus(aw * bw - ax * bx, ay * by, cw);
    lemma_spread_minus(aw * bw, ax * bx, cw);
    lemma_spread_minus(bw * cw - bx * cx - by * cy, bz * cz, aw);
    lemma_spread_minus(bw * cw - bx * cx, by * cy, aw);
    lemma_spread_minus(bw * cw, bx * cx, aw);
    lemma_spread_minus(aw * bx + ax * bw + ay * bz, az * by, cx);
    lemma_spread(aw * bx + ax * bw, ay * bz, cx);
    lemma_spread(aw * bx, ax * bw, cx);
    lemma_spread_minus(bw * cx + bx * cw + by * cz, bz * cy, ax);
    lemma_spread(bw * cx + bx * cw, by * cz, ax);
    lemma_spread(bw * cx, bx * cw, ax);
    lemma_spread(aw * by - ax * bz + ay * bw, az * bx, cy);
    lemma_spread(aw * by - ax * bz, ay * bw, cy);
    lemma_spread_minus(aw * by, ax * bz, cy);
    lemma_spread(bw * cy - bx * cz + by * cw, bz * cx, ay);
    lemma_spread(bw * cy - bx * cz, by * cw, ay);
    lemma_spread_minus(bw * cy, bx * cz, ay);
    lemma_spread(aw * bz + ax * by - ay * bx, az * bw, cz);
    lemma_spread_minus(aw * bz + ax * by, ay * bx, cz);
    lemma_spread(aw * bz, ax * by, cz);
    lemma_spread(bw * cz + bx * cy - by * cx, bz * cw, az);
    lemma_spread_minus(bw * cz + bx * cy, by * cx, az);
    lemma_spread(bw * cz, bx * cy, az);
    lemma_regroup(aw, bw, cw);
    lemma_regroup(aw, bx, cx);
    lemma_regroup(aw, by, cy);
    lemma_regroup(aw, bz, cz);
    lemma_regroup(ax, bw, cx);
    lemma_regroup(ax, bx, cw);
    lemma_regroup(ax, by, cz);
    lemma_regroup(ax, bz, cy);
    lemma_regroup(ay, bw, cy);
    lemma_regroup(ay, bx, cz);
    lemma_regroup(ay, by, cw);
    lemma_regroup(ay, bz, cx);
    lemma_regroup(az, bw, cz);
    lemma_regroup(az, bx, cy);
    lemma_regroup(az, by, cx);
    lemma_regroup(az, bz, cw);
}

/// One component of three rotations one after the other.
proof fn lemma_three_x(
    aw: real,
    ax: real,
    ay: real,
    az: real,
    bw: real,
    bx: real,
    by: real,
    bz: real,
    cw: real,
    cx: real,
    cy: real,
    cz: real,
)
    ensures
        (aw * bw - ax * bx - ay * by - az * bz) * cx
            + (aw * bx + ax * bw + ay * bz - az * by) * cw
            + (aw * by - ax * bz + ay * bw + az * bx) * cz
            - (aw * bz + ax * by - ay * bx + az * bw) * cy
            == aw * (bw * cx + bx * cw + by * cz - bz * cy)
                + ax * (bw * cw - bx * cx - by * cy - bz * cz)
                + ay * (bw * cz + bx * cy - by * cx + bz * cw)
                - az * (bw * cy - bx * cz + by * cw + bz * cx),
{
    lemma_spread_minus(aw * bw - ax * bx - ay * by, az * bz, cx);
    lemma_spread_minus(aw * bw - ax * bx, ay * by, cx);
    lemma_spread_minus(aw * bw, ax * bx, cx);
    lemma_spread_minus(bw * cx + bx * cw + by * cz, bz * cy, aw);
    lemma_spread(bw * cx + bx * cw, by * cz, aw);
    lemma_spread(bw * cx, bx * cw, aw);
    lemma_spread_minus(aw * bx + ax * bw + ay * bz, az * by, cw);
    lemma_spread(aw * bx + ax * bw, ay * bz, cw);
    lemma_spread(aw * bx, ax * bw, cw);
    lemma_spread_minus(bw * cw - bx * cx - by * cy, bz * cz, ax);
    lemma_spread_minus(bw * cw - bx * cx, by * cy, ax);
    lemma_spread_minus(bw * cw, bx * cx, ax);
    lemma_spread(aw * by - ax * bz + ay * bw, az * bx, cz);
    lemma_spread(aw * by - ax * bz, ay * bw, cz);
    lemma_spread_minus(aw * by, ax * bz, cz);
    lemma_spread(bw * cz + bx * cy - by * cx, bz * cw, ay);
    lemma_spread_minus(bw * cz + bx * cy, by * cx, ay);
    lemma_spread(bw * cz, bx * cy, ay);
    lemma_spread(aw * bz + ax * by - ay * bx, az * bw, cy);
    lemma_spread_minus(aw * bz + ax * by, ay * bx, cy);
    lemma_spread(aw * bz, ax * by, cy);
    lemma_spread(bw * cy - bx * cz + by * cw, bz * cx, az);
    lemma_spread(bw * cy - bx * cz, by * cw, az);
    lemma_spread_minus(bw * cy, bx * cz, az);
    lemma_regroup(aw, bw, cx);
    lemma_regroup(aw, bx, cw);
    lemma_regroup(aw, by, cz);
    lemma_regroup(aw, bz, cy);
    lemma_regroup(ax, bw, cw);
    lemma_regroup(ax, bx, cx);
    lemma_regroup(ax, by, cy);
    lemma_regroup(ax, bz, cz);
    lemma_regroup(ay, bw, cz);
    lemma_regroup(ay, bx, cy);
    lemma_regroup(ay, by, cx);
    lemma_regroup(ay, bz, cw);
    lemma_regroup(az, bw, cy);
    lemma_regroup(az, bx, cz);
    lemma_regroup(az, by, cw);
    lemma_regroup(az, bz, cx);
}

/// One component of three rotations one after the other.
proof fn lemma_three_y(
    aw: real,
    ax: real,
    ay: real,
    az: real,
    bw: real,
    bx: real,
    by: real,
    bz: real,
    cw: real,
    cx: real,
    cy: real,
    cz: real,
)
    ensures
        (aw * bw - ax * bx - ay * by - az * bz) * cy
            - (aw * bx + ax * bw + ay * bz - az * by) * cz
            + (aw * by - ax * bz + ay * bw + az * bx) * cw
            + (aw * bz + ax * by - ay * bx + az * bw) * cx
            == aw * (bw * cy - bx * cz + by * cw + bz * cx)
                - ax * (bw * cz + bx * cy - by * cx + bz * cw)
                + ay * (bw * cw - bx * cx - by * cy - bz * cz)
                + az * (bw * cx + bx * cw + by * cz - bz * cy),
{
    lemma_spread_minus(aw * bw - ax * bx - ay * by, az * bz, cy);
    lemma_spread_minus(aw * bw - ax * bx, ay * by, cy);
    lemma_spread_minus(aw * bw, ax * bx, cy);
    lemma_spread(bw * cy - bx * cz + by * cw, bz * cx, aw);
    lemma_spread(bw * cy - bx * cz, by * cw, aw);
    lemma_spread_minus(bw * cy, bx * cz, aw);
    lemma_spread_minus(aw * bx + ax * bw + ay * bz, az * by, cz);
    lemma_spread(aw * bx + ax * bw, ay * bz, cz);
    lemma_spread(aw * bx, ax * bw, cz);
    lemma_spread(bw * cz + bx * cy - by * cx, bz * cw, ax);
    lemma_spread_minus(bw * cz + bx * cy, by * cx, ax);
    lemma_spread(bw * cz, bx * cy, ax);
    lemma_spread(aw * by - ax * bz + ay * bw, az * bx, cw);
    lemma_spread(aw * by - ax * bz, ay * bw, cw);
    lemma_spread_minus(aw * by, ax * bz, cw);
    lemma_spread_minus(bw * cw - bx * cx - by * cy, bz * cz, ay);
    lemma_spread_minus(bw * cw - bx * cx, by * cy, ay);
    lemma_spread_minus(bw * cw, bx * cx, ay);
    lemma_spread(aw * bz + ax * by - ay * bx, az * bw, cx);
    lemma_spread_minus(aw * bz + ax * by, ay * bx, cx);
    lemma_spread(aw * bz, ax * by, cx);
    lemma_spread_minus(bw * cx + bx * cw + by * cz, bz * cy, az);
    lemma_spread(bw * cx + bx * cw, by * cz, az);
    lemma_spread(bw * cx, bx * cw, az);
    lemma_regroup(aw, bw, cy);
    lemma_regroup(aw, bx, cz);
    lemma_regroup(aw, by, cw);
    lemma_regroup(aw, bz, cx);
    lemma_regroup(ax, bw, cz);
    lemma_regroup(ax, bx, cy);
    lemma_regroup(ax, by, cx);
    lemma_regroup(ax, bz, cw);
    lemma_regroup(ay, bw, cw);
    lemma_regroup(ay, bx, cx);
    lemma_regroup(ay, by, cy);
    lemma_regroup(ay, bz, cz);
    lemma_regroup(az, bw, cx);
    lemma_regroup(az, bx, cw);
    lemma_regroup(az, by, cz);
    lemma_regroup(az, bz, cy);
}

/// One component of three rotations one after the other.
proof fn lemma_three_z(
    aw: real,
    ax: real,
    ay: real,
    az: real,
    bw: real,
    bx: real,
    by: real,
    bz: real,
    cw: real,
    cx: real,
    cy: real,
    cz: real,
)
    ensures
        (aw * bw - ax * bx - ay * by - az * bz) * cz
            + (aw * bx + ax * bw + ay * bz - az * by) * cy
            - (aw * by - ax * bz + ay * bw + az * bx) * cx
            + (aw * bz + ax * by - ay * bx + az * bw) * cw
            == aw * (bw * cz + bx * cy - by * cx + bz * cw)
                + ax * (bw * cy - bx * cz + by * cw + bz * cx)
                - ay * (bw * cx + bx * cw + by * cz - bz * cy)
                + az * (bw * cw - bx * cx - by * cy - bz * cz),
{
    lemma_spread_minus(aw * bw - ax * bx - ay * by, az * bz, cz);
    lemma_spread_minus(aw * bw - ax * bx, ay * by, cz);
    lemma_spread_minus(aw * bw, ax * bx, cz);
    lemma_spread(bw * cz + bx * cy - by * cx, bz * cw, aw);
    lemma_spread_minus(bw * cz + bx * cy, by * cx, aw);
    lemma_spread(bw * cz, bx * cy, aw);
    lemma_spread_minus(aw * bx + ax * bw + ay * bz, az * by, cy);
    lemma_spread(aw * bx + ax * bw, ay * bz, cy);
    lemma_spread(aw * bx, ax * bw, cy);
    lemma_spread(bw * cy - bx * cz + by * cw, bz * cx, ax);
    lemma_spread(bw * cy - bx * cz, by * cw, ax);
    lemma_spread_minus(bw * cy, bx * cz, ax);
    lemma_spread(aw * by - ax * bz + ay * bw, az * bx, cx);
    lemma_spread(aw * by - ax * bz, ay * bw, cx);
    lemma_spread_minus(aw * by, ax * bz, cx);
    lemma_spread_minus(bw * cx + bx * cw + by * cz, bz * cy, ay);
    lemma_spread(bw * cx + bx * cw, by * cz, ay);
    lemma_spread(bw * cx, bx * cw, ay);
    lemma_spread(aw * bz + ax * by - ay * bx, az * bw, cw);
    lemma_spread_minus(aw * bz + ax * by, ay * bx, cw);
    lemma_spread(aw * bz, ax * by, cw);
    lemma_spread_minus(bw * cw - bx * cx - by * cy, bz * cz, az);
    lemma_spread_minus(bw * cw - bx * cx, by * cy, az);
    lemma_spread_minus(bw * cw, bx * cx, az);
    lemma_regroup(aw, bw, cz);
    lemma_regroup(aw, bx, cy);
    lemma_regroup(aw, by, cx);
    lemma_regroup(aw, bz, cw);
    lemma_regroup(ax, bw, cy);
    lemma_regroup(ax, bx, cz);
    lemma_regroup(ax, by, cw);
    lemma_regroup(ax, bz, cx);
    lemma_regroup(ay, bw, cx);
    lemma_regroup(ay, bx, cw);
    lemma_regroup(ay, by, cz);
    lemma_regroup(ay, bz, cy);
    lemma_regroup(az, bw, cw);
    lemma_regroup(az, bx, cx);
    lemma_regroup(az, by, cy);
    lemma_regroup(az, bz, cz);
}

/// It does not matter which two of three rotations are put together first.
pub proof fn lemma_three(a: Turn, b: Turn, c: Turn)
    ensures
        after(after(a, b), c) == after(a, after(b, c)),
{
    let (aw, ax, ay, az) = (a.w, a.axis.x, a.axis.y, a.axis.z);
    let (bw, bx, by, bz) = (b.w, b.axis.x, b.axis.y, b.axis.z);
    let (cw, cx, cy, cz) = (c.w, c.axis.x, c.axis.y, c.axis.z);
    lemma_three_w(aw, ax, ay, az, bw, bx, by, bz, cw, cx, cy, cz);
    lemma_three_x(aw, ax, ay, az, bw, bx, by, bz, cw, cx, cy, cz);
    lemma_three_y(aw, ax, ay, az, bw, bx, by, bz, cw, cx, cy, cz);
    lemma_three_z(aw, ax, ay, az, bw, bx, by, bz, cw, cx, cy, cz);
}

/// Two factors, both turned round.
proof fn lemma_both_opposite(a: real, b: real)
    ensures
        (-a) * b == -(a * b),
        a * (-b) == -(a * b),
        (-a) * (-b) == a * b,
{
    lemma_opposite(a, b);
    lemma_opposite(b, a);
    lemma_opposite(-a, b);
    lemma_swap(-a, b);
    lemma_swap(a, b);
}

/// The way back from two rotations is that from the one and then from the other.
pub proof fn lemma_back(a: Turn, b: Turn)
    ensures
        after(a, b).back() == after(b.back(), a.back()),
        a.back().back() == a,
{
    let (aw, ax, ay, az) = (a.w, a.axis.x, a.axis.y, a.axis.z);
    let (bw, bx, by, bz) = (b.w, b.axis.x, b.axis.y, b.axis.z);
    lemma_both_opposite(bx, ax);
    lemma_both_opposite(by, ay);
    lemma_both_opposite(bz, az);
    lemma_both_opposite(bx, aw);
    lemma_both_opposite(by, aw);
    lemma_both_opposite(bz, aw);
    lemma_both_opposite(bw, ax);
    lemma_both_opposite(bw, ay);
    lemma_both_opposite(bw, az);
    lemma_both_opposite(bx, ay);
    lemma_both_opposite(bx, az);
    lemma_both_opposite(by, ax);
    lemma_both_opposite(by, az);
    lemma_both_opposite(bz, ax);
    lemma_both_opposite(bz, ay);
    lemma_swap(aw, bw);
    lemma_swap(ax, bx);
    lemma_swap(ay, by);
    lemma_swap(az, bz);
    lemma_swap(aw, bx);
    lemma_swap(aw, by);
    lemma_swap(aw, bz);
    lemma_swap(ax, bw);
    lemma_swap(ay, bw);
    lemma_swap(az, bw);
    lemma_swap(ax, by);
    lemma_swap(ax, bz);
    lemma_swap(ay, bx);
    lemma_swap(ay, bz);
    lemma_swap(az, bx);
    lemma_swap(az, by);
    assert(a.back().back() == a);
}

/// A rotation and the way back from it, around a point, turn it.
pub proof fn lemma_around(q: Turn, u: Spot)
    ensures
        after(after(q, point(u)), q.back()) == point(q.turned(u)),
{
    let (w, x, y, z) = (q.w, q.axis.x, q.axis.y, q.axis.z);
    let h = after(q, point(u));
    lemma_nothing(0real, x);
    lemma_nothing(0real, y);
    lemma_nothing(0real, z);
    lemma_nothing(0real, w);
    let e = x * u.x + y * u.y + z * u.z;
    assert(h.w == -e);
    let c = q.axis.cross(u);
    assert(h.axis.x == w * u.x + c.x);
    assert(h.axis.y == w * u.y + c.y);
    assert(h.axis.z == w * u.z + c.z);
    let t = after(h, q.back());
    lemma_swap(x, u.x);
    lemma_swap(y, u.y);
    lemma_swap(z, u.z);
    assert(u.dot(q.axis) == e);
    lemma_around_part(w, x, y, z, u.x, u.y, u.z, e, h.axis.x, h.axis.y, h.axis.z, c.x, c.y, c.z);
    lemma_around_part(w, y, z, x, u.y, u.z, u.x, e, h.axis.y, h.axis.z, h.axis.x, c.y, c.z, c.x);
    lemma_around_part(w, z, x, y, u.z, u.x, u.y, e, h.axis.z, h.axis.x, h.axis.y, c.z, c.x, c.y);
    lemma_both_opposite(h.w, x);
    lemma_both_opposite(h.w, y);
    lemma_both_opposite(h.w, z);
    lemma_both_opposite(h.axis.x, x);
    lemma_both_opposite(h.axis.x, y);
    lemma_both_opposite(h.axis.x, z);
    lemma_both_opposite(h.axis.y, x);
    lemma_both_opposite(h.axis.y, y);
    lemma_both_opposite(h.axis.y, z);
    lemma_both_opposite(h.axis.z, x);
    lemma_both_opposite(h.axis.z, y);
    lemma_both_opposite(h.axis.z, z);
    lemma_both_opposite(e, x);
    lemma_both_opposite(e, y);
    lemma_both_opposite(e, z);
    lemma_both_opposite(e, w);
    assert(t.w == 0real) by {
        lemma_spread(w * u.x, c.x, x);
        lemma_spread(w * u.y, c.y, y);
        lemma_spread(w * u.z, c.z, z);
        lemma_regroup(w, u.x, x);
        lemma_regroup(w, u.y, y);
        lemma_regroup(w, u.z, z);
        lemma_cross_across(q.axis, u);
        lemma_spread(u.x * x, u.y * y, w);
        lemma_spread(u.x * x + u.y * y, u.z * z, w);
        lemma_swap(u.x * x, w);
        lemma_swap(u.y * y, w);
        lemma_swap(u.z * z, w);
        assert(e == u.x * x + u.y * y + u.z * z);
        assert(w * e == w * (u.x * x) + w * (u.y * y) + w * (u.z * z));
    }
    assert(t.axis.x == q.turned(u).x);
    assert(t.axis.y == q.turned(u).y);
    assert(t.axis.z == q.turned(u).z);
}

/// One coordinate of a turned point.
proof fn lemma_around_part(
    w: real,
    x: real,
    y: real,
    z: real,
    ux: real,
    uy: real,
    uz: real,
    e: real,
    hx: real,
    hy: real,
    hz: real,
    cx: real,
    cy: real,
    cz: real,
)
    requires
        e == x * ux + y * uy + z * uz || e == x * ux + z * uz + y * uy,
        cx == y * uz - z * uy,
        cy == z * ux - x * uz,
        cz == x * uy - y * ux,
        hx == w * ux + cx,
        hy == w * uy + cy,
        hz == w * uz + cz,
    ensures
        e * x + hx * w - hy * z + hz * y == ux * (w * w - (x * x + y * y + z * z)) + x * (e * 2real)
            + cx * (w * 2real),
{
    lemma_spread(w * ux, cx, w);
    lemma_regroup(w, ux, w);
    lemma_swap(w * w, ux);
    lemma_spread(w * uy, cy, z);
    lemma_regroup(w, uy, z);
    lemma_spread(w * uz, cz, y);
    lemma_regroup(w, uz, y);
    lemma_spread_minus(y * uz, z * uy, w);
    lemma_regroup(y, uz, w);
    lemma_regroup(z, uy, w);
    // Across twice.
    lemma_spread_minus(z * ux, x * uz, z);
    lemma_regroup(z, ux, z);
    lemma_regroup(x, uz, z);
    lemma_spread_minus(x * uy, y * ux, y);
    lemma_regroup(x, uy, y);
    lemma_regroup(y, ux, y);
    lemma_spread_minus(w * w, x * x + y * y + z * z, ux);
    lemma_spread(x * x + y * y, z * z, ux);
    lemma_spread(x * x, y * y, ux);
    lemma_regroup(x, x, ux);
    lemma_regroup(y, y, ux);
    lemma_regroup(z, z, ux);
    lemma_swap(e, x);
    lemma_spread(x * ux + y * uy, z * uz, x);
    lemma_spread(x * ux, y * uy, x);
    lemma_spread(x * ux + z * uz, y * uy, x);
    lemma_spread(x * ux, z * uz, x);
    lemma_regroup(x, ux, x);
    lemma_regroup(y, uy, x);
    lemma_regroup(z, uz, x);
    lemma_regroup(x, e, 2real);
    lemma_regroup(cx, w, 2real);
    assert(cy * z == (z * z) * ux - x * (z * uz));
    assert(cz * y == x * (y * uy) - (y * y) * ux);
    assert(e * x == (x * x) * ux + x * (y * uy) + x * (z * uz));
}

/// A rotation after another one turns as both do.
pub proof fn lemma_after(a: Turn, b: Turn, u: Spot)
    ensures
        after(a, b).turned(u) == a.turned(b.turned(u)),
{
    let (p, v) = (after(a, b), point(u));
    lemma_around(p, u);
    lemma_around(b, u);
    lemma_around(a, b.turned(u));
    lemma_back(a, b);
    let (s, t) = (a.back(), b.back());
    lemma_three(a, b, v);
    lemma_three(after(a, after(b, v)), t, s);
    lemma_three(a, after(b, v), t);
}

/// How long a rotation is that comes of two.
pub proof fn lemma_after_norm(a: Turn, b: Turn)
    ensures
        after(a, b).norm() == a.norm() * b.norm(),
        a.back().norm() == a.norm(),
{
    lemma_own(a);
    lemma_own(b);
    lemma_own(after(a, b));
    lemma_back(a, b);
    let (s, t) = (a.back(), b.back());
    lemma_three(after(a, b), t, s);
    lemma_three(a, b, t);
    let n = b.norm();
    let o = Turn { axis: Spot { x: 0real, y: 0real, z: 0real }, w: n };
    assert(after(b, t) == o);
    let h = after(a, o);
    lemma_nothing(0real, a.w);
    lemma_nothing(0real, a.axis.x);
    lemma_nothing(0real, a.axis.y);
    lemma_nothing(0real, a.axis.z);
    assert(h.w == a.w * n && h.axis == a.axis.scale(n));
    assert(after(h, s).w == a.norm() * n) by {
        lemma_both_opposite(h.axis.x, a.axis.x);
        lemma_both_opposite(h.axis.y, a.axis.y);
        lemma_both_opposite(h.axis.z, a.axis.z);
        lemma_regroup(a.w, n, a.w);
        lemma_regroup(a.axis.x, n, a.axis.x);
        lemma_regroup(a.axis.y, n, a.axis.y);
        lemma_regroup(a.axis.z, n, a.axis.z);
        let (p, q, r) = (
            a.axis.x * a.axis.x,
            a.axis.y * a.axis.y,
            a.axis.z * a.axis.z,
        );
        lemma_spread(a.w * a.w, p + q + r, n);
        lemma_spread(p + q, r, n);
        lemma_spread(p, q, n);
    }
    lemma_both_opposite(a.axis.x, a.axis.x);
    lemma_both_opposite(a.axis.y, a.axis.y);
    lemma_both_opposite(a.axis.z, a.axis.z);
}

/// A rotation after the way back from it.
proof fn lemma_own(a: Turn)
    ensures
        after(a, a.back()) == (Turn { axis: Spot { x: 0real, y: 0real, z: 0real }, w: a.norm() }),
{
    let (w, x, y, z) = (a.w, a.axis.x, a.axis.y, a.axis.z);
    lemma_both_opposite(x, x);
    lemma_both_opposite(y, y);
    lemma_both_opposite(z, z);
    lemma_both_opposite(w, x);
    lemma_both_opposite(w, y);
    lemma_both_opposite(w, z);
    lemma_both_opposite(x, y);
    lemma_both_opposite(x, z);
    lemma_both_opposite(y, x);
    lemma_both_opposite(y, z);
    lemma_both_opposite(z, x);
    lemma_both_opposite(z, y);
    lemma_swap(w, x);
    lemma_swap(w, y);
    lemma_swap(w, z);
    lemma_swap(x, y);
    lemma_swap(x, z);
    lemma_swap(y, z);
}

/// Whether two rotations differ by at most `e`.
pub open spec fn apart(a: Turn, b: Turn, e: real) -> bool {
    e > 0real && difference(a, b).norm() <= e * e
}

/// What two rotations have in common, component by component.
spec fn common(a: Turn, b: Turn) -> real {
    a.w * b.w + a.axis.dot(b.axis)
}

proof fn lemma_mean(e: real, f: real, x: real, y: real)
    ensures
        ((e * f) * (x * y)) * 2real <= (f * f) * (x * x) + (e * e) * (y * y),
{
    let (p, q) = (f * x, e * y);
    lemma_square(p - q);
    lemma_spread_minus(p, q, p - q);
    lemma_spread_minus(p, q, p);
    lemma_spread_minus(p, q, q);
    lemma_swap(p, q);
    assert(p * p == (f * f) * (x * x)) by {
        lemma_regroup(f, x, p);
        lemma_regroup(x, f, x);
        lemma_swap(x, p);
        lemma_regroup(f, f, x * x);
        lemma_regroup(f, x, x);
    }
    assert(q * q == (e * e) * (y * y)) by {
        lemma_regroup(e, y, q);
        lemma_regroup(y, e, y);
        lemma_swap(y, q);
        lemma_regroup(e, e, y * y);
        lemma_regroup(e, y, y);
    }
    assert(p * q == (e * f) * (x * y)) by {
        lemma_regroup(f, x, q);
        lemma_regroup(x, e, y);
        lemma_swap(x, q);
        lemma_regroup(e, x, y);
        lemma_regroup(f, e, x * y);
        lemma_swap(f, e);
    }
}

/// What is no longer than `e`, and what is no longer than `f`, are no longer together
/// than both.
proof fn lemma_together(x: Turn, y: Turn, e: real, f: real)
    requires
        e > 0real,
        f > 0real,
        x.norm() <= e * e,
        y.norm() <= f * f,
    ensures
        sum(x, y).norm() <= (e + f) * (e + f),
{
    let z = e * f;
    lemma_mean(e, f, x.w, y.w);
    lemma_mean(e, f, x.axis.x, y.axis.x);
    lemma_mean(e, f, x.axis.y, y.axis.y);
    lemma_mean(e, f, x.axis.z, y.axis.z);
    let c = common(x, y);
    lemma_four(x.w * y.w, x.axis.x * y.axis.x, x.axis.y * y.axis.y, x.axis.z * y.axis.z, z);
    lemma_four(x.w * x.w, x.axis.x * x.axis.x, x.axis.y * x.axis.y, x.axis.z * x.axis.z, f * f);
    lemma_four(y.w * y.w, y.axis.x * y.axis.x, y.axis.y * y.axis.y, y.axis.z * y.axis.z, e * e);
    assert((z * c) * 2real <= (f * f) * x.norm() + (e * e) * y.norm());
    lemma_square(e);
    lemma_square(f);
    lemma_scale_ordered(f * f, x.norm(), e * e);
    lemma_scale_ordered(e * e, y.norm(), f * f);
    assert((f * f) * (e * e) == z * z && (e * e) * (f * f) == z * z) by {
        lemma_regroup(e, f, z);
        lemma_regroup(f, e, f);
        lemma_swap(f, z);
        lemma_regroup(e, f, f);
        lemma_regroup(e, e, f * f);
        lemma_swap(e * e, f * f);
    }
    lemma_positive(e, f);
    lemma_cancel(z, c, z);
    let s = sum(x, y);
    lemma_two_squared(x.w, y.w);
    lemma_two_squared(x.axis.x, y.axis.x);
    lemma_two_squared(x.axis.y, y.axis.y);
    lemma_two_squared(x.axis.z, y.axis.z);
    lemma_two_squared(e, f);
}

proof fn lemma_two_squared(a: real, b: real)
    ensures
        (a + b) * (a + b) == a * a + b * b + (a * b) * 2real,
{
    lemma_spread(a, b, a + b);
    lemma_spread(a, b, a);
    lemma_spread(a, b, b);
    lemma_swap(a, b);
}

proof fn lemma_four(a: real, b: real, c: real, d: real, k: real)
    ensures
        k * (a + b + c + d) == k * a + k * b + k * c + k * d,
        k * (a + (b + c + d)) == k * a + k * b + k * c + k * d,
{
    lemma_spread(a + b + c, d, k);
    lemma_spread(a + b, c, k);
    lemma_spread(a, b, k);
    assert(a + (b + c + d) == a + b + c + d);
}

/// A way round is no shorter.
pub proof fn lemma_apart_round(a: Turn, b: Turn, c: Turn, e: real, f: real)
    requires
        apart(a, b, e),
        apart(b, c, f),
    ensures
        apart(a, c, e + f),
{
    let (x, y) = (difference(a, b), difference(b, c));
    lemma_together(x, y, e, f);
    assert(sum(x, y) == difference(a, c));
}

/// What differs little differs little in a wider sense too.
pub proof fn lemma_apart_wider(a: Turn, b: Turn, e: real, f: real)
    requires
        apart(a, b, e),
        e <= f,
    ensures
        apart(a, b, f),
{
    lemma_squares_ordered(e, f);
}

/// How rotations that differ go on to differ before and after another one.
proof fn lemma_differ(a: Turn, b: Turn, c: Turn)
    ensures
        after(difference(a, b), c) == difference(after(a, c), after(b, c)),
        after(c, difference(a, b)) == difference(after(c, a), after(c, b)),
{
    let (w, x, y, z) = (c.w, c.axis.x, c.axis.y, c.axis.z);
    lemma_differ_part(a.w, b.w, w, x, y, z);
    lemma_differ_part(a.axis.x, b.axis.x, w, x, y, z);
    lemma_differ_part(a.axis.y, b.axis.y, w, x, y, z);
    lemma_differ_part(a.axis.z, b.axis.z, w, x, y, z);
}

proof fn lemma_differ_part(a: real, b: real, w: real, x: real, y: real, z: real)
    ensures
        (a - b) * w == a * w - b * w,
        (a - b) * x == a * x - b * x,
        (a - b) * y == a * y - b * y,
        (a - b) * z == a * z - b * z,
        w * (a - b) == w * a - w * b,
        x * (a - b) == x * a - x * b,
        y * (a - b) == y * a - y * b,
        z * (a - b) == z * a - z * b,
{
    lemma_spread_minus(a, b, w);
    lemma_spread_minus(a, b, x);
    lemma_spread_minus(a, b, y);
    lemma_spread_minus(a, b, z);
}

/// The square of a product, where neither factor is more than a square.
proof fn lemma_product_of_squares(m: real, n: real, e: real, k: real)
    requires
        0real <= m <= e * e,
        0real <= n <= k * k,
    ensures
        m * n <= (e * k) * (e * k),
        n * m <= (e * k) * (e * k),
{
    lemma_scale_ordered(n, m, e * e);
    lemma_square(e);
    lemma_scale_ordered(e * e, n, k * k);
    assert((e * e) * (k * k) == (e * k) * (e * k)) by {
        let p = e * k;
        lemma_regroup(e, k, p);
        lemma_regroup(k, e, k);
        lemma_swap(k, p);
        lemma_regroup(e, k, k);
        lemma_regroup(e, e, k * k);
    }
    lemma_swap(m, n);
}

pub proof fn lemma_norm_positive(a: Turn)
    ensures
        a.norm() >= 0real,
{
    lemma_square(a.w);
    lemma_square(a.axis.x);
    lemma_square(a.axis.y);
    lemma_square(a.axis.z);
}

/// Rotations that differ little differ little before and after another one.
pub proof fn lemma_apart_after(a: Turn, b: Turn, c: Turn, e: real, k: real)
    requires
        apart(a, b, e),
        k > 0real,
        c.norm() <= k * k,
    ensures
        apart(after(a, c), after(b, c), e * k),
        apart(after(c, a), after(c, b), e * k),
{
    let d = difference(a, b);
    lemma_differ(a, b, c);
    lemma_after_norm(d, c);
    lemma_after_norm(c, d);
    lemma_norm_positive(d);
    lemma_norm_positive(c);
    lemma_product_of_squares(d.norm(), c.norm(), e, k);
    lemma_positive(e, k);
}

/// Rotations that differ little turn a point to about the same place.
pub proof fn lemma_turned_near(p: Turn, q: Turn, u: Spot, e: real, k: real, l: real)
    requires
        apart(p, q, e),
        k > 0real,
        p.norm() <= k * k,
        q.norm() <= k * k,
        l > 0real,
        reaches(u, l),
    ensures
        reaches(p.turned(u).minus(q.turned(u)), ((e * l) * k) * 2real),
{
    let v = point(u);
    let (s, t) = (p.back(), q.back());
    lemma_around(p, u);
    lemma_around(q, u);
    lemma_nothing(0real, 0real);
    assert(v.norm() == u.dot(u));
    lemma_apart_after(p, q, v, e, l);
    lemma_after_norm(p, q);
    lemma_after_norm(q, p);
    lemma_apart_after(after(p, v), after(q, v), s, e * l, k);
    // The way back.
    let d = difference(s, t);
    assert(d.w == difference(p, q).w);
    assert(d.axis == difference(p, q).axis.scale(-1real));
    lemma_after_norm(difference(p, q), p);
    assert(d == difference(p, q).back());
    lemma_positive(e, l);
    lemma_positive(l, k);
    lemma_after_norm(q, v);
    lemma_norm_positive(v);
    lemma_norm_positive(q);
    lemma_product_of_squares(v.norm(), q.norm(), l, k);
    lemma_apart_after(s, t, after(q, v), e, l * k);
    lemma_regroup(e, l, k);
    let (a, b, c) = (
        after(after(p, v), s),
        after(after(q, v), s),
        after(after(q, v), t),
    );
    let m = (e * l) * k;
    lemma_apart_round(a, b, c, m, m);
    let x = p.turned(u).minus(q.turned(u));
    assert(difference(a, c) == point(x));
    assert(point(x).norm() == x.dot(x));
}

/// A product of two components of rotations.
proof fn lemma_component_product(a: Scalar, b: Scalar)
    requires
        a.is_finite(),
        b.is_finite(),
        size(exact(a)) * 64real <= 65real,
        size(exact(b)) * 64real <= 65real,
    ensures
        size(exact(a) * exact(b)) * 100real <= 104real,
        within(a.times(b), exact(a) * exact(b), 52real / 50real),
{
    let (x, y) = (exact(a), exact(b));
    lemma_size_of_product(x * 64real, y * 64real, 65real, 65real);
    lemma_regroup(x, 64real, y * 64real);
    lemma_regroup(x, y, 64real);
    assert((x * 64real) * (y * 64real) == (x * y) * 4096real);
    lemma_times_close(a, b, 52real / 50real);
}

/// A rotation after another one is close to the exact one.
pub proof fn lemma_compose_close(a: Quat, b: Quat)
    requires
        is_nearly_unit(a),
        is_nearly_unit(b),
    ensures
        ({
            let q = a.compose(b);
            &&& q.x.is_finite()
            &&& q.y.is_finite()
            &&& q.z.is_finite()
            &&& q.w.is_finite()
            &&& apart(Turn::of(q), after(Turn::of(a), Turn::of(b)), 28real / grains())
        }),
{
    let g = grains();
    let q = a.compose(b);
    let (p, r) = (Turn::of(q), after(Turn::of(a), Turn::of(b)));
    lemma_unit_parts(a);
    lemma_unit_parts(b);
    lemma_component(a.w, b.x, a.x, b.w, a.y, b.z, a.z, b.y);
    lemma_component(a.w, b.y, a.x, b.z, a.y, b.w, a.z, b.x);
    lemma_component(a.w, b.z, a.x, b.y, a.z, b.w, a.y, b.x);
    lemma_component(a.w, b.w, a.x, b.x, a.y, b.y, a.z, b.z);
    let d = difference(p, r);
    let e = 28real / g;
    lemma_squares_ordered(d.w * 2real, e);
    lemma_squares_ordered(d.axis.x * 2real, e);
    lemma_squares_ordered(d.axis.y * 2real, e);
    lemma_squares_ordered(d.axis.z * 2real, e);
    lemma_twice_squared(d.w);
    lemma_twice_squared(d.axis.x);
    lemma_twice_squared(d.axis.y);
    lemma_twice_squared(d.axis.z);
}

proof fn lemma_twice_squared(x: real)
    ensures
        (x * 2real) * (x * 2real) == (x * x) * 4real,
{
    lemma_two_squared(x, x);
}

/// Four products of components, put together in the ways that a component of a
/// rotation is.
proof fn lemma_component(
    a: Scalar,
    b: Scalar,
    c: Scalar,
    d: Scalar,
    e: Scalar,
    f: Scalar,
    h: Scalar,
    i: Scalar,
)
    requires
        a.is_finite(),
        b.is_finite(),
        c.is_finite(),
        d.is_finite(),
        e.is_finite(),
        f.is_finite(),
        h.is_finite(),
        i.is_finite(),
        size(exact(a)) * 64real <= 65real,
        size(exact(b)) * 64real <= 65real,
        size(exact(c)) * 64real <= 65real,
        size(exact(d)) * 64real <= 65real,
        size(exact(e)) * 64real <= 65real,
        size(exact(f)) * 64real <= 65real,
        size(exact(h)) * 64real <= 65real,
        size(exact(i)) * 64real <= 65real,
    ensures
        ({
            let (p, q) = (a.times(b), c.times(d));
            let (r, s) = (e.times(f), h.times(i));
            let (x, y) = (exact(a) * exact(b), exact(c) * exact(d));
            let (z, w) = (exact(e) * exact(f), exact(h) * exact(i));
            &&& within(p.plus(q).plus(r.minus(s)), x + y + (z - w), 14real)
            &&& within(p.minus(q).plus(r.plus(s)), x - y + (z + w), 14real)
            &&& within(p.minus(q).plus(r.neg().minus(s)), x - y + (-z - w), 14real)
        }),
{
    lemma_component_product(a, b);
    lemma_component_product(c, d);
    lemma_component_product(e, f);
    lemma_component_product(h, i);
    let (p, q) = (a.times(b), c.times(d));
    let (r, s) = (e.times(f), h.times(i));
    let (x, y) = (exact(a) * exact(b), exact(c) * exact(d));
    let (z, w) = (exact(e) * exact(f), exact(h) * exact(i));
    let t = 52real / 50real;
    let o = 21real / 10real;
    let m = 42real / 10real;
    lemma_plus_within(p, x, t, q, y, t, o);
    lemma_minus_within(p, x, t, q, y, t, o);
    lemma_plus_within(r, z, t, s, w, t, o);
    lemma_minus_within(r, z, t, s, w, t, o);
    lemma_neg_close(r);
    lemma_minus_within(r.neg(), -z, t, s, w, t, o);
    let k = t + t + o;
    lemma_plus_within(p.plus(q), x + y, k, r.minus(s), z - w, k, m);
    lemma_plus_within(p.minus(q), x - y, k, r.plus(s), z + w, k, m);
    lemma_plus_within(p.minus(q), x - y, k, r.neg().minus(s), -z - w, k, m);
}

/// What differs little from a rotation that is as long as one is nearly so.
pub proof fn lemma_near_norm(q: Turn, p: Turn, e: real)
    requires
        apart(q, p, e),
        e * 1000real <= 1real,
        p.norm() * 1000real <= 1002real,
        p.norm() * 1000real >= 998real,
    ensures
        size(q.norm() - 1real) * 100real <= 1real,
{
    let d = difference(q, p);
    let k = 1001real / 1000real;
    assert(k * k == 1002001real / 1000000real);
    lemma_together(p, d, k, e);
    assert(sum(p, d) == q);
    lemma_squares_ordered(k + e, 1002real / 1000real);
    assert((1002real / 1000real) * (1002real / 1000real) == 1004004real / 1000000real);
    if q.norm() * 100real < 99real {
        let f = 995real / 1000real;
        assert(f * f == 990025real / 1000000real);
        let b = difference(p, q);
        lemma_opposite_norm(d, b);
        lemma_together(q, b, f, e);
        assert(sum(q, b) == p);
        lemma_squares_ordered(f + e, 996real / 1000real);
        assert((996real / 1000real) * (996real / 1000real) == 992016real / 1000000real);
    }
}

proof fn lemma_opposite_norm(d: Turn, b: Turn)
    requires
        b.w == -d.w,
        b.axis.x == -d.axis.x,
        b.axis.y == -d.axis.y,
        b.axis.z == -d.axis.z,
    ensures
        b.norm() == d.norm(),
{
    lemma_both_opposite(d.w, d.w);
    lemma_both_opposite(d.axis.x, d.axis.x);
    lemma_both_opposite(d.axis.y, d.axis.y);
    lemma_both_opposite(d.axis.z, d.axis.z);
}

/// The same of a product of two lengths.
proof fn lemma_product_near_one(m: real, n: real)
    requires
        size(m - 1real) * grains() <= 200real,
        size(n - 1real) * grains() <= 200real,
    ensures
        size(m * n - 1real) * grains() <= 401real,
{
    let g = grains();
    let (a, b) = (m - 1real, n - 1real);
    lemma_spread(1real, a, n);
    lemma_spread(1real, b, a);
    lemma_size_of_product(a * g, b * g, 200real, 200real);
    lemma_regroup(a, g, b * g);
    lemma_regroup(a, b, g);
    assert((a * g) * (b * g) == ((a * b) * g) * g);
    lemma_swap(a, n);
}

/// A rotation by `exit`, after one that is close to `half`, after the way back from
/// `entry`.
pub proof fn lemma_carry(entry: Quat, flip: Quat, exit: Quat, half: Turn)
    requires
        is_unit(entry),
        is_unit(flip),
        is_unit(exit),
        apart(Turn::of(flip), half, 2real / grains()),
        half.norm() == 1real,
    ensures
        ({
            let q = exit.compose(flip).compose(entry.inverse());
            &&& is_nearly_unit(q)
            &&& apart(
                Turn::of(q),
                after(after(Turn::of(exit), half), Turn::of(entry).back()),
                60real / grains(),
            )
            &&& size(
                after(after(Turn::of(exit), half), Turn::of(entry).back()).norm() - 1real,
            ) * grains() <= 401real
        }),
{
    let g = grains();
    let (a, b, c) = (Turn::of(exit), Turn::of(flip), Turn::of(entry).back());
    let k = 1001real / 1000real;
    assert(k * k == 1002001real / 1000000real);
    lemma_inverse(entry);
    lemma_compose_close(exit, flip);
    let first = exit.compose(flip);
    lemma_apart_after(b, half, a, 2real / g, k);
    lemma_apart_round(
        Turn::of(first),
        after(a, b),
        after(a, half),
        28real / g,
        (2real / g) * k,
    );
    let e = 28real / g + (2real / g) * k;
    lemma_apart_wider(Turn::of(first), after(a, half), e, 31real / g);
    lemma_after_norm(a, half);
    lemma_near_norm(Turn::of(first), after(a, half), 31real / g);
    lemma_compose_close(first, entry.inverse());
    let q = first.compose(entry.inverse());
    lemma_apart_after(Turn::of(first), after(a, half), c, 31real / g, k);
    let t = after(after(a, half), c);
    lemma_apart_round(
        Turn::of(q),
        after(Turn::of(first), c),
        t,
        28real / g,
        (31real / g) * k,
    );
    let f = 28real / g + (31real / g) * k;
    lemma_apart_wider(Turn::of(q), t, f, 60real / g);
    lemma_after_norm(after(a, half), c);
    lemma_product_near_one(a.norm(), c.norm());
    lemma_near_norm(Turn::of(q), t, 60real / g);
}

/// A rotation by `exit` after the way back from `entry`.
pub proof fn lemma_carry_straight(entry: Quat, exit: Quat)
    requires
        is_unit(entry),
        is_unit(exit),
    ensures
        ({
            let q = exit.compose(entry.inverse());
            &&& is_nearly_unit(q)
            &&& apart(
                Turn::of(q),
                after(Turn::of(exit), Turn::of(entry).back()),
                60real / grains(),
            )
            &&& size(after(Turn::of(exit), Turn::of(entry).back()).norm() - 1real) * grains()
                <= 401real
        }),
{
    let g = grains();
    let (a, c) = (Turn::of(exit), Turn::of(entry).back());
    lemma_inverse(entry);
    lemma_compose_close(exit, entry.inverse());
    let q = exit.compose(entry.inverse());
    lemma_apart_wider(Turn::of(q), after(a, c), 28real / g, 60real / g);
    lemma_after_norm(a, c);
    lemma_product_near_one(a.norm(), c.norm());
    lemma_near_norm(Turn::of(q), after(a, c), 60real / g);
}

/// What turns by a rotation that is close to an exact one gets close to where that
/// turns it.
pub proof fn lemma_rotate_near(q: Quat, t: Turn, v: Vec3, e: real, l: real)
    requires
        is_nearly_unit(q),
        apart(Turn::of(q), t, e),
        e * grains() <= 120real,
        t.norm() * 100real <= 101real,
        v.is_finite(),
        reaches(Spot::of(v), l),
        is_scale(l / 65real),
    ensures
        q.rotate(v).is_finite(),
        close(
            Spot::of(q.rotate(v)),
            t.turned(Spot::of(v)),
            (l * (e * grains())) * 3real + l * 64real,
        ),
{
    let g = grains();
    let s = l / 65real;
    let u = Spot::of(v);
    lemma_quotient_back(l, 65real);
    lemma_rotate_close(q, v, s);
    lemma_unit_parts(q);
    let k = 1005real / 1000real;
    assert(k * k == 1010025real / 1000000real);
    lemma_turned_near(Turn::of(q), t, u, e, k, l);
    let m = ((e * l) * k) * 2real;
    let d = Turn::of(q).turned(u).minus(t.turned(u));
    lemma_reach_close(d, m);
    assert(d.minus(crate::turning::origin()) == d);
    lemma_way_round(
        Spot::of(q.rotate(v)),
        Turn::of(q).turned(u),
        t.turned(u),
        s * 4146real,
        m * g,
    );
    lemma_positive(e, l);
    lemma_regroup(l, e, g);
    lemma_swap(e, l);
    let n = (e * l) * g;
    assert(m * g <= n * 3real) by {
        lemma_regroup(e * l, k, 2real);
        lemma_regroup(e * l, k * 2real, g);
        assert(m * g == n * (k * 2real));
        assert(k * 2real <= 3real);
        lemma_scale_ordered(n, k * 2real, 3real);
    }
    lemma_close_wider(
        Spot::of(q.rotate(v)),
        t.turned(u),
        s * 4146real + m * g,
        n * 3real + l * 64real,
    );
}

} // verus!

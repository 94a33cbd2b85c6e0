//! Three axes at right angles, and the rotation that has them.

use crate::closeness::{grains, lemma_size_of_product, size};
use crate::turning::{
    lemma_across_dot, lemma_cross_across, lemma_dot_minus, lemma_dot_scale, lemma_dot_swap,
    lemma_opposite, lemma_regroup, lemma_scale_ordered, lemma_spread, lemma_spread_minus,
    lemma_square, lemma_swap, lemma_unit_part, lemma_unit_product, Spot,
};
use vstd::prelude::*;

verus! {

/// Whether something is nothing but for `r` grains.
pub open spec fn is_little(x: real, r: real) -> bool {
    x * grains() <= r && -x * grains() <= r
}

/// Whether three axes, `a`, `b`, `c` and `d`, `e`, `f` and `g`, `h`, `i`, are at right
/// angles and as long as one, but for `r` grains.
pub open spec fn are_axes(
    a: real,
    b: real,
    c: real,
    d: real,
    e: real,
    f: real,
    g: real,
    h: real,
    i: real,
    r: real,
) -> bool {
    // Along the axes.
    &&& is_little(a * a + b * b + c * c - 1real, r)
    &&& is_little(d * d + e * e + f * f - 1real, r)
    &&& is_little(g * g + h * h + i * i - 1real, r)
    &&& is_little(a * d + b * e + c * f, r)
    &&& is_little(a * g + b * h + c * i, r)
    &&& is_little(d * g + e * h + f * i, r)
    // Across them.
    &&& is_little(a * a + d * d + g * g - 1real, r)
    &&& is_little(b * b + e * e + h * h - 1real, r)
    &&& is_little(c * c + f * f + i * i - 1real, r)
    &&& is_little(a * b + d * e + g * h, r)
    &&& is_little(a * c + d * f + g * i, r)
    &&& is_little(b * c + e * f + h * i, r)
    // Each is what lies across the other two.
    &&& is_little(e * i - f * h - a, r)
    &&& is_little(f * g - d * i - b, r)
    &&& is_little(d * h - e * g - c, r)
    &&& is_little(c * h - b * i - d, r)
    &&& is_little(a * i - c * g - e, r)
    &&& is_little(b * g - a * h - f, r)
    &&& is_little(b * f - c * e - g, r)
    &&& is_little(c * d - a * f - h, r)
    &&& is_little(a * e - b * d - i, r)
}

/// Of axes: how the X and the Y components of their rotation go together.
pub proof fn lemma_minor_xyy(
    a: real,
    b: real,
    c: real,
    d: real,
    e: real,
    f: real,
    g: real,
    h: real,
    i: real,
    r: real,
)
    requires
        are_axes(a, b, c, d, e, f, g, h, i, r),
    ensures
        size((b + d) * (b + d) - (1real + a - e - i) * (1real - a + e - i)) * grains() <= r * 6real,
{
    lemma_spread(b, d, b + d);
    lemma_spread(b, d, b);
    lemma_spread(b, d, d);
    lemma_swap(d, b);
    lemma_spread_minus(1real + a - e, i, 1real - a + e - i);
    lemma_spread_minus(1real + a, e, 1real - a + e - i);
    lemma_spread(1real, a, 1real - a + e - i);
    lemma_spread_minus(1real - a + e, i, a);
    lemma_spread(1real - a, e, a);
    lemma_spread_minus(1real, a, a);
    lemma_spread_minus(1real - a + e, i, e);
    lemma_spread(1real - a, e, e);
    lemma_spread_minus(1real, a, e);
    lemma_swap(e, a);
    lemma_spread_minus(1real - a + e, i, i);
    lemma_spread(1real - a, e, i);
    lemma_spread_minus(1real, a, i);
    lemma_swap(i, a);
    lemma_swap(i, e);
}

/// Of axes: how the X and the Z components of their rotation go together.
pub proof fn lemma_minor_xzz(
    a: real,
    b: real,
    c: real,
    d: real,
    e: real,
    f: real,
    g: real,
    h: real,
    i: real,
    r: real,
)
    requires
        are_axes(a, b, c, d, e, f, g, h, i, r),
    ensures
        size((c + g) * (c + g) - (1real + a - e - i) * (1real - a - e + i)) * grains() <= r * 6real,
{
    lemma_spread(c, g, c + g);
    lemma_spread(c, g, c);
    lemma_spread(c, g, g);
    lemma_swap(g, c);
    lemma_spread_minus(1real + a - e, i, 1real - a - e + i);
    lemma_spread_minus(1real + a, e, 1real - a - e + i);
    lemma_spread(1real, a, 1real - a - e + i);
    lemma_spread(1real - a - e, i, a);
    lemma_spread_minus(1real - a, e, a);
    lemma_spread_minus(1real, a, a);
    lemma_spread(1real - a - e, i, e);
    lemma_spread_minus(1real - a, e, e);
    lemma_spread_minus(1real, a, e);
    lemma_swap(e, a);
    lemma_spread(1real - a - e, i, i);
    lemma_spread_minus(1real - a, e, i);
    lemma_spread_minus(1real, a, i);
    lemma_swap(i, a);
    lemma_swap(i, e);
}

/// Of axes: how the X and the W components of their rotation go together.
pub proof fn lemma_minor_xww(
    a: real,
    b: real,
    c: real,
    d: real,
    e: real,
    f: real,
    g: real,
    h: real,
    i: real,
    r: real,
)
    requires
        are_axes(a, b, c, d, e, f, g, h, i, r),
    ensures
        size((f - h) * (f - h) - (1real + a - e - i) * (1real + a + e + i)) * grains() <= r * 6real,
{
    lemma_spread_minus(f, h, f - h);
    lemma_spread_minus(f, h, f);
    lemma_spread_minus(f, h, h);
    lemma_swap(h, f);
    lemma_spread_minus(1real + a - e, i, 1real + a + e + i);
    lemma_spread_minus(1real + a, e, 1real + a + e + i);
    lemma_spread(1real, a, 1real + a + e + i);
    lemma_spread(1real + a + e, i, a);
    lemma_spread(1real + a, e, a);
    lemma_spread(1real, a, a);
    lemma_spread(1real + a + e, i, e);
    lemma_spread(1real + a, e, e);
    lemma_spread(1real, a, e);
    lemma_swap(e, a);
    lemma_spread(1real + a + e, i, i);
    lemma_spread(1real + a, e, i);
    lemma_spread(1real, a, i);
    lemma_swap(i, a);
    lemma_swap(i, e);
}

/// Of axes: how the Y and the Z components of their rotation go together.
pub proof fn lemma_minor_yzz(
    a: real,
    b: real,
    c: real,
    d: real,
    e: real,
    f: real,
    g: real,
    h: real,
    i: real,
    r: real,
)
    requires
        are_axes(a, b, c, d, e, f, g, h, i, r),
    ensures
        size((f + h) * (f + h) - (1real - a + e - i) * (1real - a - e + i)) * grains() <= r * 6real,
{
    lemma_spread(f, h, f + h);
    lemma_spread(f, h, f);
    lemma_spread(f, h, h);
    lemma_swap(h, f);
    lemma_spread_minus(1real - a + e, i, 1real - a - e + i);
    lemma_spread(1real - a, e, 1real - a - e + i);
    lemma_spread_minus(1real, a, 1real - a - e + i);
    lemma_spread(1real - a - e, i, a);
    lemma_spread_minus(1real - a, e, a);
    lemma_spread_minus(1real, a, a);
    lemma_spread(1real - a - e, i, e);
    lemma_spread_minus(1real - a, e, e);
    lemma_spread_minus(1real, a, e);
    lemma_swap(e, a);
    lemma_spread(1real - a - e, i, i);
    lemma_spread_minus(1real - a, e, i);
    lemma_spread_minus(1real, a, i);
    lemma_swap(i, a);
    lemma_swap(i, e);
}

/// Of axes: how the Y and the W components of their rotation go together.
pub proof fn lemma_minor_yww(
    a: real,
    b: real,
    c: real,
    d: real,
    e: real,
    f: real,
    g: real,
    h: real,
    i: real,
    r: real,
)
    requires
        are_axes(a, b, c, d, e, f, g, h, i, r),
    ensures
        size((g - c) * (g - c) - (1real - a + e - i) * (1real + a + e + i)) * grains() <= r * 6real,
{
    lemma_spread_minus(g, c, g - c);
    lemma_spread_minus(g, c, g);
    lemma_swap(g, c);
    lemma_spread_minus(g, c, c);
    lemma_spread_minus(1real - a + e, i, 1real + a + e + i);
    lemma_spread(1real - a, e, 1real + a + e + i);
    lemma_spread_minus(1real, a, 1real + a + e + i);
    lemma_spread(1real + a + e, i, a);
    lemma_spread(1real + a, e, a);
    lemma_spread(1real, a, a);
    lemma_spread(1real + a + e, i, e);
    lemma_spread(1real + a, e, e);
    lemma_spread(1real, a, e);
    lemma_swap(e, a);
    lemma_spread(1real + a + e, i, i);
    lemma_spread(1real + a, e, i);
    lemma_spread(1real, a, i);
    lemma_swap(i, a);
    lemma_swap(i, e);
}

/// Of axes: how the Z and the W components of their rotation go together.
pub proof fn lemma_minor_zww(
    a: real,
    b: real,
    c: real,
    d: real,
    e: real,
    f: real,
    g: real,
    h: real,
    i: real,
    r: real,
)
    requires
        are_axes(a, b, c, d, e, f, g, h, i, r),
    ensures
        size((b - d) * (b - d) - (1real - a - e + i) * (1real + a + e + i)) * grains() <= r * 6real,
{
    lemma_spread_minus(b, d, b - d);
    lemma_spread_minus(b, d, b);
    lemma_spread_minus(b, d, d);
    lemma_swap(d, b);
    lemma_spread(1real - a - e, i, 1real + a + e + i);
    lemma_spread_minus(1real - a, e, 1real + a + e + i);
    lemma_spread_minus(1real, a, 1real + a + e + i);
    lemma_spread(1real + a + e, i, a);
    lemma_spread(1real + a, e, a);
    lemma_spread(1real, a, a);
    lemma_spread(1real + a + e, i, e);
    lemma_spread(1real + a, e, e);
    lemma_spread(1real, a, e);
    lemma_swap(e, a);
    lemma_spread(1real + a + e, i, i);
    lemma_spread(1real + a, e, i);
    lemma_spread(1real, a, i);
    lemma_swap(i, a);
    lemma_swap(i, e);
}

/// Of axes: the X and the Z components of their rotation, by way of W.
pub proof fn lemma_minor_wxz(
    a: real,
    b: real,
    c: real,
    d: real,
    e: real,
    f: real,
    g: real,
    h: real,
    i: real,
    r: real,
)
    requires
        are_axes(a, b, c, d, e, f, g, h, i, r),
    ensures
        size((f - h) * (b - d) - (1real + a + e + i) * (c + g)) * grains() <= r * 6real,
{
    lemma_spread_minus(f, h, b - d);
    lemma_spread_minus(b, d, f);
    lemma_swap(f, b);
    lemma_swap(f, d);
    lemma_spread_minus(b, d, h);
    lemma_swap(h, b);
    lemma_swap(h, d);
    lemma_spread(1real + a + e, i, c + g);
    lemma_spread(1real + a, e, c + g);
    lemma_spread(1real, a, c + g);
    lemma_spread(c, g, a);
    lemma_spread(c, g, e);
    lemma_swap(e, c);
    lemma_spread(c, g, i);
    lemma_swap(i, c);
    lemma_swap(i, g);
}

/// Of axes: the Y and the Z components of their rotation, by way of W.
pub proof fn lemma_minor_wyz(
    a: real,
    b: real,
    c: real,
    d: real,
    e: real,
    f: real,
    g: real,
    h: real,
    i: real,
    r: real,
)
    requires
        are_axes(a, b, c, d, e, f, g, h, i, r),
    ensures
        size((g - c) * (b - d) - (1real + a + e + i) * (f + h)) * grains() <= r * 6real,
{
    lemma_spread_minus(g, c, b - d);
    lemma_spread_minus(b, d, g);
    lemma_swap(g, b);
    lemma_swap(g, d);
    lemma_spread_minus(b, d, c);
    lemma_swap(c, b);
    lemma_spread(1real + a + e, i, f + h);
    lemma_spread(1real + a, e, f + h);
    lemma_spread(1real, a, f + h);
    lemma_spread(f, h, a);
    lemma_spread(f, h, e);
    lemma_spread(f, h, i);
    lemma_swap(i, f);
    lemma_swap(i, h);
}

/// Of axes: the Y and the W components of their rotation, by way of X.
pub proof fn lemma_minor_xyw(
    a: real,
    b: real,
    c: real,
    d: real,
    e: real,
    f: real,
    g: real,
    h: real,
    i: real,
    r: real,
)
    requires
        are_axes(a, b, c, d, e, f, g, h, i, r),
    ensures
        size((b + d) * (f - h) - (1real + a - e - i) * (g - c)) * grains() <= r * 6real,
{
    lemma_spread(b, d, f - h);
    lemma_spread_minus(f, h, b);
    lemma_spread_minus(f, h, d);
    lemma_spread_minus(1real + a - e, i, g - c);
    lemma_spread_minus(1real + a, e, g - c);
    lemma_spread(1real, a, g - c);
    lemma_spread_minus(g, c, a);
    lemma_spread_minus(g, c, e);
    lemma_swap(e, c);
    lemma_spread_minus(g, c, i);
    lemma_swap(i, g);
    lemma_swap(i, c);
}

/// Of axes: the Y and the Z components of their rotation, by way of X.
pub proof fn lemma_minor_xyz(
    a: real,
    b: real,
    c: real,
    d: real,
    e: real,
    f: real,
    g: real,
    h: real,
    i: real,
    r: real,
)
    requires
        are_axes(a, b, c, d, e, f, g, h, i, r),
    ensures
        size((b + d) * (c + g) - (1real + a - e - i) * (f + h)) * grains() <= r * 6real,
{
    lemma_spread(b, d, c + g);
    lemma_spread(c, g, b);
    lemma_spread(c, g, d);
    lemma_swap(d, c);
    lemma_spread_minus(1real + a - e, i, f + h);
    lemma_spread_minus(1real + a, e, f + h);
    lemma_spread(1real, a, f + h);
    lemma_spread(f, h, a);
    lemma_spread(f, h, e);
    lemma_spread(f, h, i);
    lemma_swap(i, f);
    lemma_swap(i, h);
}

/// Of axes: the X and the Z components of their rotation, by way of Y.
pub proof fn lemma_minor_yxz(
    a: real,
    b: real,
    c: real,
    d: real,
    e: real,
    f: real,
    g: real,
    h: real,
    i: real,
    r: real,
)
    requires
        are_axes(a, b, c, d, e, f, g, h, i, r),
    ensures
        size((b + d) * (f + h) - (1real - a + e - i) * (c + g)) * grains() <= r * 6real,
{
    lemma_spread(b, d, f + h);
    lemma_spread(f, h, b);
    lemma_spread(f, h, d);
    lemma_spread_minus(1real - a + e, i, c + g);
    lemma_spread(1real - a, e, c + g);
    lemma_spread_minus(1real, a, c + g);
    lemma_spread(c, g, a);
    lemma_spread(c, g, e);
    lemma_swap(e, c);
    lemma_spread(c, g, i);
    lemma_swap(i, c);
    lemma_swap(i, g);
}

/// Of axes: the X and the W components of their rotation, by way of Y.
pub proof fn lemma_minor_yxw(
    a: real,
    b: real,
    c: real,
    d: real,
    e: real,
    f: real,
    g: real,
    h: real,
    i: real,
    r: real,
)
    requires
        are_axes(a, b, c, d, e, f, g, h, i, r),
    ensures
        size((b + d) * (g - c) - (1real - a + e - i) * (f - h)) * grains() <= r * 6real,
{
    lemma_spread(b, d, g - c);
    lemma_spread_minus(g, c, b);
    lemma_spread_minus(g, c, d);
    lemma_swap(d, c);
    lemma_spread_minus(1real - a + e, i, f - h);
    lemma_spread(1real - a, e, f - h);
    lemma_spread_minus(1real, a, f - h);
    lemma_spread_minus(f, h, a);
    lemma_spread_minus(f, h, e);
    lemma_spread_minus(f, h, i);
    lemma_swap(i, f);
    lemma_swap(i, h);
}

/// Of axes: the Y and the W components of their rotation, by way of Z.
pub proof fn lemma_minor_zyw(
    a: real,
    b: real,
    c: real,
    d: real,
    e: real,
    f: real,
    g: real,
    h: real,
    i: real,
    r: real,
)
    requires
        are_axes(a, b, c, d, e, f, g, h, i, r),
    ensures
        size((f + h) * (b - d) - (1real - a - e + i) * (g - c)) * grains() <= r * 6real,
{
    lemma_spread(f, h, b - d);
    lemma_spread_minus(b, d, f);
    lemma_swap(f, b);
    lemma_swap(f, d);
    lemma_spread_minus(b, d, h);
    lemma_swap(h, b);
    lemma_swap(h, d);
    lemma_spread(1real - a - e, i, g - c);
    lemma_spread_minus(1real - a, e, g - c);
    lemma_spread_minus(1real, a, g - c);
    lemma_spread_minus(g, c, a);
    lemma_spread_minus(g, c, e);
    lemma_swap(e, c);
    lemma_spread_minus(g, c, i);
    lemma_swap(i, g);
    lemma_swap(i, c);
}

/// Of axes: the X and the W components of their rotation, by way of Z.
pub proof fn lemma_minor_zxw(
    a: real,
    b: real,
    c: real,
    d: real,
    e: real,
    f: real,
    g: real,
    h: real,
    i: real,
    r: real,
)
    requires
        are_axes(a, b, c, d, e, f, g, h, i, r),
    ensures
        size((c + g) * (b - d) - (1real - a - e + i) * (f - h)) * grains() <= r * 6real,
{
    lemma_spread(c, g, b - d);
    lemma_spread_minus(b, d, c);
    lemma_swap(c, b);
    lemma_spread_minus(b, d, g);
    lemma_swap(g, b);
    lemma_swap(g, d);
    lemma_spread(1real - a - e, i, f - h);
    lemma_spread_minus(1real - a, e, f - h);
    lemma_spread_minus(1real, a, f - h);
    lemma_spread_minus(f, h, a);
    lemma_spread_minus(f, h, e);
    lemma_spread_minus(f, h, i);
    lemma_swap(i, f);
    lemma_swap(i, h);
}

/// One coordinate of what lies across what lies across.
proof fn lemma_cross_twice_part(
    ax: real,
    ay: real,
    az: real,
    bx: real,
    by: real,
    bz: real,
    cx: real,
    cy: real,
    cz: real,
)
    ensures
        ay * (bx * cy - by * cx) - az * (bz * cx - bx * cz) == bx * (ax * cx + ay * cy + az * cz)
            - cx * (ax * bx + ay * by + az * bz),
{
    lemma_spread_minus(bx * cy, by * cx, ay);
    lemma_spread_minus(bz * cx, bx * cz, az);
    lemma_spread(ax * cx + ay * cy, az * cz, bx);
    lemma_spread(ax * cx, ay * cy, bx);
    lemma_spread(ax * bx + ay * by, az * bz, cx);
    lemma_spread(ax * bx, ay * by, cx);
    lemma_regroup(bx, cy, ay);
    lemma_swap(ay, bx * cy);
    lemma_swap(ay, cy);
    lemma_regroup(by, cx, ay);
    lemma_swap(ay, by * cx);
    lemma_regroup(ay, by, cx);
    lemma_swap(cx, ay * by);
    lemma_regroup(bz, cx, az);
    lemma_swap(az, bz * cx);
    lemma_regroup(az, bz, cx);
    lemma_swap(cx, az * bz);
    lemma_regroup(bx, cz, az);
    lemma_swap(az, bx * cz);
    lemma_swap(az, cz);
    lemma_regroup(ax, cx, bx);
    lemma_regroup(ax, bx, cx);
    lemma_swap(bx, ax * cx);
    lemma_swap(cx, ax * bx);
}

/// What lies across what lies across.
proof fn lemma_cross_twice(a: Spot, b: Spot, c: Spot)
    ensures
        a.cross(b.cross(c)) == b.scale(a.dot(c)).minus(c.scale(a.dot(b))),
{
    lemma_cross_twice_part(a.x, a.y, a.z, b.x, b.y, b.z, c.x, c.y, c.z);
    lemma_cross_twice_part(a.y, a.z, a.x, b.y, b.z, b.x, c.y, c.z, c.x);
    lemma_cross_twice_part(a.z, a.x, a.y, b.z, b.x, b.y, c.z, c.x, c.y);
    assert(a.y * c.y + a.z * c.z + a.x * c.x == a.dot(c));
    assert(a.z * c.z + a.x * c.x + a.y * c.y == a.dot(c));
    assert(a.y * b.y + a.z * b.z + a.x * b.x == a.dot(b));
    assert(a.z * b.z + a.x * b.x + a.y * b.y == a.dot(b));
}

/// What lies across two vectors lies the other way across them in the other order.
proof fn lemma_cross_swap(a: Spot, b: Spot)
    ensures
        a.cross(b) == (Spot { x: -b.cross(a).x, y: -b.cross(a).y, z: -b.cross(a).z }),
{
    lemma_swap(a.x, b.y);
    lemma_swap(a.x, b.z);
    lemma_swap(a.y, b.x);
    lemma_swap(a.y, b.z);
    lemma_swap(a.z, b.x);
    lemma_swap(a.z, b.y);
}

/// How two vectors lie to each other, by what they have along `x`, along `z` and across
/// both.
proof fn lemma_frame(x: Spot, z: Spot, u: Spot, v: Spot)
    ensures
        ({
            let w = z.cross(x);
            let (tv, sv, tu, su) = (v.dot(z), v.dot(x), u.dot(z), u.dot(x));
            w.dot(w) * u.dot(v) == u.dot(w) * w.dot(v) + (tu * tv) * x.dot(x) + (su * sv) * z.dot(
                z,
            ) - (tv * su + sv * tu) * x.dot(z)
        }),
{
    let w = z.cross(x);
    lemma_across_dot(w, u, v);
    lemma_cross_twice(u, z, x);
    lemma_cross_twice(v, z, x);
    lemma_cross_swap(w, u);
    lemma_cross_swap(w, v);
    let (a, b) = (w.cross(v), w.cross(u));
    let (tv, sv, tu, su) = (v.dot(z), v.dot(x), u.dot(z), u.dot(x));
    assert(a == x.scale(tv).minus(z.scale(sv)));
    assert(b == x.scale(tu).minus(z.scale(su)));
    let p = x.dot(z);
    lemma_dot_minus(x.scale(tv), z.scale(sv), b);
    lemma_dot_scale(x, tv, b);
    lemma_dot_scale(z, sv, b);
    lemma_dot_swap(x, b);
    lemma_dot_swap(z, b);
    lemma_dot_minus(x.scale(tu), z.scale(su), x);
    lemma_dot_minus(x.scale(tu), z.scale(su), z);
    lemma_dot_scale(x, tu, x);
    lemma_dot_scale(z, su, x);
    lemma_dot_scale(x, tu, z);
    lemma_dot_scale(z, su, z);
    lemma_dot_swap(x, z);
    let (n, m) = (x.dot(x), z.dot(z));
    lemma_spread_minus(tu * n, su * p, tv);
    lemma_spread_minus(tu * p, su * m, sv);
    lemma_regroup(tv, tu, n);
    lemma_swap(tu, tv);
    lemma_regroup(tv, su, p);
    lemma_regroup(sv, tu, p);
    lemma_regroup(sv, su, m);
    lemma_swap(su, sv);
    lemma_spread(tv * su, sv * tu, p);
}

/// Two axes that are as long as one and at right angles.
pub open spec fn are_two_axes(x: Spot, z: Spot, q: real) -> bool {
    &&& is_little(x.dot(x) - 1real, q)
    &&& is_little(z.dot(z) - 1real, q)
    &&& is_little(x.dot(z), q)
    &&& 0real <= q <= 100real
}

/// What is a little of what is not big is little.
proof fn lemma_little_of(b: real, y: real, q: real)
    requires
        is_little(b, q),
        size(y) * 64real <= 67real,
    ensures
        size(b * y) * grains() * 64real <= q * 67real,
{
    lemma_unit_product(b * grains(), y, q, 67real);
    lemma_regroup(b, grains(), y);
}

/// The coordinates of an axis.
pub proof fn lemma_axis_parts(x: Spot, q: real)
    requires
        is_little(x.dot(x) - 1real, q),
        q <= 1000real,
    ensures
        size(x.x) * 64real <= 65real,
        size(x.y) * 64real <= 65real,
        size(x.z) * 64real <= 65real,
{
    lemma_square(x.x);
    lemma_square(x.y);
    lemma_square(x.z);
    lemma_unit_part(x.x);
    lemma_unit_part(x.y);
    lemma_unit_part(x.z);
}

/// A product of two coordinates of axes.
proof fn lemma_axis_product(a: real, b: real)
    requires
        size(a) * 64real <= 65real,
        size(b) * 64real <= 65real,
    ensures
        size(a * b) * 64real <= 67real,
{
    lemma_unit_product(a * 64real, b, 65real, 65real);
    lemma_regroup(a, 64real, b);
}

/// How long the third axis is.
pub proof fn lemma_third_length(x: Spot, z: Spot, q: real)
    requires
        are_two_axes(x, z, q),
    ensures
        is_little(z.cross(x).dot(z.cross(x)) - 1real, q * 3real),
{
    lemma_across_dot(z, x, x);
    let (n, m, p) = (x.dot(x), z.dot(z), x.dot(z));
    lemma_dot_swap(x, z);
    let (a, b) = (n - 1real, m - 1real);
    assert(m * n == 1real + a + b + b * a) by {
        lemma_spread(1real, b, n);
        lemma_spread(1real, a, b);
        lemma_swap(b, n);
        lemma_swap(a, b);
    }
    let g = grains();
    lemma_size_of_product(b * g, a * g, q, q);
    lemma_regroup(b, g, a * g);
    lemma_regroup(b, a, g);
    lemma_size_of_product(p * g, p * g, q, q);
    lemma_regroup(p, g, p * g);
    lemma_regroup(p, p, g);
    assert((b * g) * (a * g) == ((b * a) * g) * g);
    assert((p * g) * (p * g) == ((p * p) * g) * g);
    lemma_scale_ordered(q, q, 100real);
    assert(size((b * a) * g) * g <= q * 100real);
    assert(size((p * p) * g) * g <= q * 100real);
}

/// One entry of how the axes lie across.
proof fn lemma_frame_part(x: Spot, z: Spot, u: Spot, v: Spot, q: real)
    requires
        are_two_axes(x, z, q),
        size(u.dot(x)) * 64real <= 65real,
        size(v.dot(x)) * 64real <= 65real,
        size(u.dot(z)) * 64real <= 65real,
        size(v.dot(z)) * 64real <= 65real,
        0real <= u.dot(v) <= 1real,
    ensures
        ({
            let w = z.cross(x);
            is_little(
                u.dot(x) * v.dot(x) + u.dot(w) * v.dot(w) + u.dot(z) * v.dot(z) - u.dot(v),
                q * 8real,
            )
        }),
{
    let w = z.cross(x);
    let g = grains();
    lemma_frame(x, z, u, v);
    lemma_dot_swap(w, v);
    lemma_third_length(x, z, q);
    let (tv, sv, tu, su) = (v.dot(z), v.dot(x), u.dot(z), u.dot(x));
    let (a, b, p, c) = (x.dot(x) - 1real, z.dot(z) - 1real, x.dot(z), w.dot(w) - 1real);
    lemma_axis_product(tu, tv);
    lemma_axis_product(su, sv);
    lemma_axis_product(tv, su);
    lemma_axis_product(sv, tu);
    lemma_little_of(a, tu * tv, q);
    lemma_little_of(b, su * sv, q);
    lemma_little_of(p, tv * su, q);
    lemma_little_of(p, sv * tu, q);
    lemma_size_of_product(c * g, u.dot(v), q * 3real, 1real);
    lemma_regroup(c, g, u.dot(v));
    lemma_spread(1real, c, u.dot(v));
    lemma_spread(1real, a, tu * tv);
    lemma_spread(1real, b, su * sv);
    lemma_swap(tu * tv, x.dot(x));
    lemma_swap(su * sv, z.dot(z));
    lemma_spread(tv * su, sv * tu, p);
    lemma_swap(tv * su, p);
    lemma_swap(sv * tu, p);
}

/// Two axes and what lies across them are three axes.
pub proof fn lemma_three_axes(x: Spot, z: Spot, q: real)
    requires
        are_two_axes(x, z, q),
    ensures
        ({
            let w = z.cross(x);
            are_axes(x.x, x.y, x.z, w.x, w.y, w.z, z.x, z.y, z.z, q * 8real)
        }),
{
    let w = z.cross(x);
    lemma_axis_parts(x, q);
    lemma_axis_parts(z, q);
    lemma_third_length(x, z, q);
    let (ex, ey, ez) = (
        Spot { x: 1real, y: 0real, z: 0real },
        Spot { x: 0real, y: 1real, z: 0real },
        Spot { x: 0real, y: 0real, z: 1real },
    );
    assert(ex.dot(x) == x.x);
    assert(ex.dot(w) == w.x);
    assert(ex.dot(z) == z.x);
    assert(ey.dot(x) == x.y);
    assert(ey.dot(w) == w.y);
    assert(ey.dot(z) == z.y);
    assert(ez.dot(x) == x.z);
    assert(ez.dot(w) == w.z);
    assert(ez.dot(z) == z.z);
    assert(ex.dot(ex) == 1real);
    assert(ey.dot(ey) == 1real);
    assert(ez.dot(ez) == 1real);
    assert(ex.dot(ey) == 0real);
    assert(ex.dot(ez) == 0real);
    assert(ey.dot(ez) == 0real);
    lemma_frame_part(x, z, ex, ex, q);
    assert(is_little(x.x * x.x + w.x * w.x + z.x * z.x - 1real, q * 8real));
    lemma_frame_part(x, z, ey, ey, q);
    assert(is_little(x.y * x.y + w.y * w.y + z.y * z.y - 1real, q * 8real));
    lemma_frame_part(x, z, ez, ez, q);
    assert(is_little(x.z * x.z + w.z * w.z + z.z * z.z - 1real, q * 8real));
    lemma_frame_part(x, z, ex, ey, q);
    assert(is_little(x.x * x.y + w.x * w.y + z.x * z.y - 0real, q * 8real));
    lemma_frame_part(x, z, ex, ez, q);
    assert(is_little(x.x * x.z + w.x * w.z + z.x * z.z - 0real, q * 8real));
    lemma_frame_part(x, z, ey, ez, q);
    assert(is_little(x.y * x.z + w.y * w.z + z.y * z.z - 0real, q * 8real));
    // At right angles.
    lemma_cross_across(z, x);
    lemma_cross_swap(z, x);
    lemma_cross_across(x, z);
    lemma_opposite(x.cross(z).x, x.x);
    lemma_opposite(x.cross(z).y, x.y);
    lemma_opposite(x.cross(z).z, x.z);
    assert(w.dot(x) == 0real);
    lemma_dot_swap(w, x);
    // Across.
    let (a, b, p) = (x.dot(x) - 1real, z.dot(z) - 1real, x.dot(z));
    lemma_cross_twice(x, z, x);
    lemma_cross_twice(z, z, x);
    lemma_cross_swap(w, z);
    lemma_dot_swap(x, z);
    lemma_across_part(x.x, z.x, x.dot(x), z.dot(z), p, q);
    lemma_across_part(x.y, z.y, x.dot(x), z.dot(z), p, q);
    lemma_across_part(x.z, z.z, x.dot(x), z.dot(z), p, q);
    let (l, r) = (w.cross(z), x.cross(w));
    assert(l.x == w.y * z.z - w.z * z.y);
    assert(r.x == x.y * w.z - x.z * w.y);
    lemma_swap(z.y, x.z);
    lemma_swap(z.z, x.y);
    lemma_swap(z.z, x.x);
    lemma_swap(z.x, x.z);
    lemma_swap(z.x, x.y);
    lemma_swap(z.y, x.x);
}

proof fn lemma_across_part(x: real, z: real, n: real, m: real, p: real, q: real)
    requires
        is_little(n - 1real, q),
        is_little(m - 1real, q),
        is_little(p, q),
        0real <= q,
        size(x) * 64real <= 65real,
        size(z) * 64real <= 65real,
    ensures
        is_little(x * m - z * p - x, q * 3real),
        is_little(z * n - x * p - z, q * 3real),
{
    lemma_little_of(n - 1real, z, q);
    lemma_little_of(m - 1real, x, q);
    lemma_little_of(p, x, q);
    lemma_little_of(p, z, q);
    lemma_spread_minus(n, 1real, z);
    lemma_spread_minus(m, 1real, x);
    lemma_swap(n, z);
    lemma_swap(m, x);
    lemma_swap(p, z);
    lemma_swap(p, x);
}

} // verus!

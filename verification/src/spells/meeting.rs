//! Where rays meet discs, set against exact numbers.
//!
//! How far a result is off is counted in grains.

use crate::closeness::{
    exact, grains, lemma_exact, lemma_exact_constants, lemma_exact_ordered, lemma_minus_close,
    lemma_minus_within, lemma_over_close, lemma_quotient_back, lemma_size_of_product, lemma_whole,
    size, within,
};
use crate::rounding::lemma_units_increase;
use crate::scalar::{lemma_units_of_power, zero, Scalar};
use crate::spells::beams::lemma_point_part;
use crate::spells::carrying::{
    crosswise, lemma_axes, lemma_both_ways, lemma_facing, lemma_norm_twice, outwards, part,
    sideways,
};
use crate::spells::convex_lens::disc_distance;
use crate::spells::passing::{
    between, is_round, lemma_inside_the_rim, lemma_minus_both, lemma_off_the_rim, lemma_radius,
};
use crate::spells::portal::{face, portal_radius, tiny};
use crate::turning::{
    close, is_small, is_unit, lemma_cancel, lemma_close_wider, lemma_dot_minus, lemma_dot_plus,
    lemma_dot_scale, lemma_dot_swap, lemma_opposite, lemma_parts_close, lemma_reach_close,
    lemma_reach_near, lemma_reach_parts, lemma_regroup, lemma_scale_ordered, lemma_spread_minus,
    lemma_square, lemma_squares_ordered, lemma_swap, lemma_turn_keeps, reaches, Spot, Turn,
};
use crate::vector::{Pose, Vec3};
use vstd::arithmetic::power2::{lemma2_to64, lemma_pow2_adds};
use vstd::prelude::*;

verus! {

/// Whether a ray with a direction about as long as one starts near a disc.
pub open spec fn is_ray(origin: Vec3, direction: Vec3, disc: Pose, l: real) -> bool {
    &&& is_unit(disc.rotation)
    &&& is_small(origin, l)
    &&& disc.translation.is_finite()
    &&& reaches(Spot::of(disc.translation).minus(Spot::of(origin)), l)
    &&& direction.is_finite()
    &&& reaches(Spot::of(direction), 101real / 100real)
    &&& 1real <= l <= 65536real
}

/// Where a ray is after `t`, as seen from the middle of a disc.
pub open spec fn seen_from(origin: Vec3, direction: Vec3, disc: Pose, t: real) -> Spot {
    Spot::of(origin).plus(Spot::of(direction).scale(t)).minus(Spot::of(disc.translation))
}

/// How much nearer to the plane of a disc, from behind, a ray gets with each step.
pub open spec fn slope(direction: Vec3, disc: Pose) -> real {
    part(Spot::of(direction), disc.rotation, outwards())
}

/// How far behind the plane of a disc a ray starts.
pub open spec fn behind(origin: Vec3, disc: Pose) -> real {
    part(Spot::of(disc.translation).minus(Spot::of(origin)), disc.rotation, outwards())
}

/// How far from the plane a point of a ray is goes by where it starts and by its slope.
proof fn lemma_off_the_plane(origin: Vec3, direction: Vec3, disc: Pose, t: real)
    ensures
        part(seen_from(origin, direction, disc, t), disc.rotation, outwards()) == t * slope(
            direction,
            disc,
        ) - behind(origin, disc),
{
    let n = Turn::of(disc.rotation).turned(outwards());
    let (o, d, c) = (Spot::of(origin), Spot::of(direction), Spot::of(disc.translation));
    lemma_dot_minus(o.plus(d.scale(t)), c, n);
    lemma_dot_plus(o, d.scale(t), n);
    lemma_dot_scale(d, t, n);
    lemma_dot_minus(c, o, n);
}

/// What comes out of the two that a ray's meeting with a plane goes by.
proof fn lemma_slopes(origin: Vec3, direction: Vec3, disc: Pose, l: real)
    requires
        is_ray(origin, direction, disc, l),
    ensures
        ({
            let n = face(disc.rotation);
            &&& within(direction.dot(n), slope(direction, disc), 2200real)
            &&& within(disc.translation.minus(origin).dot(n), behind(origin, disc), l * 2100real)
            &&& size(slope(direction, disc)) * 50real <= 52real
            &&& size(behind(origin, disc)) <= l * 2real
        }),
{
    let e = Spot::of(disc.translation).minus(Spot::of(origin));
    let v = disc.translation.minus(origin);
    lemma_reach_parts(e, l);
    lemma_minus_close(disc.translation.x, origin.x, l);
    lemma_minus_close(disc.translation.y, origin.y, l);
    lemma_minus_close(disc.translation.z, origin.z, l);
    lemma_facing(v, e, disc.rotation, l);
    let c = 101real / 100real;
    lemma_facing(direction, Spot::of(direction), disc.rotation, c);
    let t = Turn::of(disc.rotation);
    lemma_axes(outwards());
    lemma_turn_keeps(t, outwards(), outwards());
    lemma_norm_twice(t.norm(), 64real);
    let k = 1001real / 1000real;
    assert(k * k == 1002001real / 1000000real);
    assert(c * k == 101101real / 100000real);
    lemma_both_ways(Spot::of(direction), t.turned(outwards()), c, k);
    lemma_both_ways(e, t.turned(outwards()), l, k);
    lemma_scale_ordered(l, k, 2real);
}

/// What counts as no slope is about a millionth.
pub proof fn lemma_tiny()
    ensures
        tiny().is_finite(),
        1real <= exact(tiny()) * 1048576real,
        exact(tiny()) * 524288real <= 1real,
{
    let a = tiny();
    lemma_exact(a);
    lemma_whole();
    lemma_units_of_power(107);
    lemma_units_of_power(108);
    lemma_units_increase(107int * 0x80_0000int, a.magnitude() as int);
    lemma_units_increase(a.magnitude() as int, 108int * 0x80_0000int);
    lemma_pow2_adds(129, 20);
    lemma_pow2_adds(130, 19);
    lemma2_to64();
}

/// The quotient that a ray's meeting with a plane comes to.
proof fn lemma_met(num: Scalar, den: Scalar, l: real)
    requires
        num.is_finite(),
        den.is_finite(),
        size(exact(num)) <= l * 3real,
        !den.abs().lt(tiny()),
        1real <= l <= 65536real,
    ensures
        ({
            let (t, q) = (num.over(den), exact(num) / exact(den));
            &&& exact(den) != 0real
            &&& t.is_finite()
            &&& q * exact(den) == exact(num)
            &&& size(exact(t) - q) * grains() <= size(q) + 1real
        }),
{
    lemma_tiny();
    lemma_abs(den);
    lemma_exact_ordered(den.abs(), tiny());
    let (n, d) = (exact(num), exact(den));
    lemma_exact_ordered(den, den);
    lemma_quotient_back(n, d);
    let q = n / d;
    assert(size(q) <= l * 3145728real) by {
        let (z, y) = (size(d), size(q));
        assert(z * y == size(n)) by {
            lemma_swap(q, d);
            lemma_opposite(d, q);
            lemma_opposite(d, -q);
            lemma_scale_ordered(z, 0real, y);
        }
        lemma_scale_ordered(l * 3145728real, 1real, z * 1048576real);
        lemma_regroup(l * 3145728real, z, 1048576real);
        lemma_swap(l * 3145728real, z);
        lemma_cancel(z, y, l * 3145728real);
    }
    lemma_over_close(num, den, size(q) + 1real);
}

/// How big a number is comes out as it is.
pub proof fn lemma_abs(a: Scalar)
    requires
        a.is_finite(),
    ensures
        a.abs().is_finite(),
        exact(a.abs()) == size(exact(a)),
{
    lemma_exact(a);
    lemma_exact(a.abs());
    lemma_units_increase(0, a.magnitude() as int);
}

/// The point of a ray after `t`, as it comes out.
proof fn lemma_point(origin: Vec3, direction: Vec3, disc: Pose, t: Scalar, l: real)
    requires
        is_ray(origin, direction, disc, l),
        t.is_finite(),
        size(exact(t)) <= l * 2real,
    ensures
        ({
            let at = origin.plus(direction.scale(t)).minus(disc.translation);
            let p = seen_from(origin, direction, disc, exact(t));
            &&& at.is_finite()
            &&& close(Spot::of(at), p, (l * 4real) * 25real)
            &&& reaches(p, l * 4real)
        }),
{
    let k = exact(t);
    let (o, d, c) = (Spot::of(origin), Spot::of(direction), Spot::of(disc.translation));
    let at = origin.plus(direction.scale(t)).minus(disc.translation);
    let p = seen_from(origin, direction, disc, k);
    lemma_reach_parts(d, 101real / 100real);
    lemma_reach_parts(c.minus(o), l);
    lemma_size_of_product(d.x, k, 101real / 100real, l * 2real);
    lemma_size_of_product(d.y, k, 101real / 100real, l * 2real);
    lemma_size_of_product(d.z, k, 101real / 100real, l * 2real);
    lemma_reached(origin.x, direction.x, t, disc.translation.x, l);
    lemma_reached(origin.y, direction.y, t, disc.translation.y, l);
    lemma_reached(origin.z, direction.z, t, disc.translation.z, l);
    lemma_parts_close(Spot::of(at), p, l * 18real, l * 32real);
    lemma_close_wider(Spot::of(at), p, l * 32real, (l * 4real) * 25real);
    // It is no farther than both ways together.
    let g = grains();
    let (u, v) = (d.scale(k), o.minus(c));
    assert(p == u.minus(c.minus(o)));
    assert(reaches(u, l * (202real / 100real))) by {
        lemma_dot_scale(d, k, u);
        lemma_dot_swap(d, u);
        lemma_dot_scale(d, k, d);
        lemma_squares_ordered(k, l * 2real);
        let (n, m) = (d.dot(d), k * k);
        lemma_regroup(k, k, n);
        lemma_square(d.x);
        lemma_square(d.y);
        lemma_square(d.z);
        lemma_square(k);
        let y = l * 2real;
        lemma_size_of_product(m, n, y * y, 10201real / 10000real);
        assert((101real / 100real) * (101real / 100real) == 10201real / 10000real);
        let z = l * (202real / 100real);
        assert(z == y * (101real / 100real));
        lemma_regroup(y, 101real / 100real, z);
        lemma_regroup(y, y, 101real / 100real);
        lemma_regroup(y * y, 101real / 100real, 101real / 100real);
    }
    lemma_reach_close(u, l * (202real / 100real));
    lemma_reach_close(c.minus(o), l);
    lemma_minus_both(
        u,
        crate::turning::origin(),
        c.minus(o),
        crate::turning::origin(),
        (l * (202real / 100real)) * g,
        l * g,
    );
    assert(crate::turning::origin().minus(crate::turning::origin()) == crate::turning::origin());
    lemma_close_wider(
        p,
        crate::turning::origin(),
        (l * (202real / 100real)) * g + l * g,
        (l * 4real) * g,
    );
    lemma_reach_close(p, l * 4real);
}

proof fn lemma_reached(o: Scalar, d: Scalar, t: Scalar, c: Scalar, l: real)
    requires
        o.is_finite(),
        d.is_finite(),
        t.is_finite(),
        c.is_finite(),
        size(exact(o)) <= l,
        size(exact(d) * exact(t)) <= l * 3real,
        size(exact(c) - exact(o)) <= l,
        1real <= l <= 65536real,
    ensures
        within(
            o.plus(d.times(t)).minus(c),
            exact(o) + exact(d) * exact(t) - exact(c),
            l * 18real,
        ),
{
    lemma_point_part(o, d, t, l * 3real);
    lemma_minus_within(
        o.plus(d.times(t)),
        exact(o) + exact(d) * exact(t),
        l * 12real,
        c,
        exact(c),
        0real,
        l * 5real,
    );
}

/// Where a ray is said to meet a disc it is on the plane of the disc, no farther from the
/// middle than the rim in any direction `w` along it, ahead and within reach.
pub proof fn law_rays_meet_discs_on_their_plane(
    origin: Vec3,
    direction: Vec3,
    disc: Pose,
    reach: Scalar,
    w: Spot,
    l: real,
)
    requires
        is_ray(origin, direction, disc, l),
        reach.is_finite(),
        exact(reach) <= l,
        w.dot(w) == 1real,
        w.dot(Turn::of(disc.rotation).turned(outwards())) == 0real,
        disc_distance(origin, direction, disc, reach) is Some,
    ensures
        ({
            let t = disc_distance(origin, direction, disc, reach)->0;
            let p = seen_from(origin, direction, disc, exact(t));
            &&& t.is_finite()
            &&& 0real <= exact(t) <= exact(reach)
            &&& size(part(p, disc.rotation, outwards())) * grains() <= l * 4600real
            &&& (p.dot(w) - exact(portal_radius())) * grains() <= l * 18800real
        }),
{
    let g = grains();
    let n = face(disc.rotation);
    let (num, den) = (disc.translation.minus(origin).dot(n), direction.dot(n));
    lemma_slopes(origin, direction, disc, l);
    lemma_met(num, den, l);
    let t = num.over(den);
    let (k, q) = (exact(t), exact(num) / exact(den));
    lemma_exact_constants();
    lemma_exact_ordered(t, zero());
    lemma_exact_ordered(reach, t);
    lemma_off_the_plane(origin, direction, disc, k);
    let (s, b, x, y) = (slope(direction, disc), behind(origin, disc), exact(num), exact(den));
    assert(size(q) <= l * 2real);
    // What the quotient is off by, and what its parts are.
    lemma_size_of_product((k - q) * g, y, l * 3real, 53real / 50real);
    lemma_regroup(k - q, g, y);
    lemma_spread_minus(k, q, y);
    lemma_size_of_product(k, (s - y) * g, l, 2200real);
    lemma_regroup(k, s - y, g);
    lemma_spread_minus(s, y, k);
    assert(size(k * s - b) * g <= l * 4600real);
    lemma_point(origin, direction, disc, t, l);
    let p = seen_from(origin, direction, disc, k);
    let at = origin.plus(direction.scale(t)).minus(disc.translation);
    lemma_radius();
    if (p.dot(w) - exact(portal_radius())) * g > l * 18800real {
        lemma_still(p);
        lemma_off_the_rim(at, p, p, 0real, disc, w, l * 4real);
    }
}

/// A ray that is not all too slanted and gets to the plane of a disc after `meets` meets
/// the disc there, from either side, if that is inside the rim, ahead and within reach.
/// It does not meet a disc that it leaves behind, or beyond its reach.
pub proof fn law_rays_meet_the_discs_they_cross(
    origin: Vec3,
    direction: Vec3,
    disc: Pose,
    reach: Scalar,
    meets: real,
    rho: real,
    l: real,
)
    requires
        is_ray(origin, direction, disc, l),
        reach.is_finite(),
        size(slope(direction, disc)) * 16real >= 1real,
        meets * slope(direction, disc) == behind(origin, disc),
        size(meets) <= l,
    ensures
        ({
            let r = disc_distance(origin, direction, disc, reach);
            let p = seen_from(origin, direction, disc, meets);
            let off = l * 80000real;
            &&& meets * grains() < -off ==> r is None
            &&& (meets - exact(reach)) * grains() > off ==> r is None
            &&& meets * grains() > off && (exact(reach) - meets) * grains() > off && rho >= 0real
                && (exact(portal_radius()) - rho) * grains() > l * 170000real && is_round(
                p,
                disc.rotation,
                rho,
            ) ==> r is Some && within(r->0, meets, off)
        }),
{
    let g = grains();
    let n = face(disc.rotation);
    let (num, den) = (disc.translation.minus(origin).dot(n), direction.dot(n));
    lemma_slopes(origin, direction, disc, l);
    let (s, b, x, y) = (slope(direction, disc), behind(origin, disc), exact(num), exact(den));
    lemma_tiny();
    lemma_abs(den);
    lemma_exact_ordered(den.abs(), tiny());
    lemma_met(num, den, l);
    let t = num.over(den);
    let (k, q) = (exact(t), x / y);
    assert((q - meets) * y == (x - b) + meets * (s - y)) by {
        lemma_spread_minus(q, meets, y);
        lemma_spread_minus(s, y, meets);
    }
    lemma_size_of_product(meets, (s - y) * g, l, 2200real);
    lemma_regroup(meets, s - y, g);
    let c = q - meets;
    assert(size(c * y) * g <= l * 4300real);
    assert(size(c) * g <= l * 73100real) by {
        let (z, w) = (size(y), size(c));
        assert(z * w == size(c * y)) by {
            lemma_swap(c, y);
            lemma_opposite(y, c);
            lemma_opposite(y, -c);
            lemma_scale_ordered(z, 0real, w);
        }
        lemma_regroup(z, w, g);
        lemma_scale_ordered(w * g, 1real, z * 17real);
        lemma_regroup(w * g, z, 17real);
        lemma_swap(w * g, z);
    }
    assert(size(k - meets) * g <= l * 80000real);
    lemma_exact_constants();
    lemma_exact_ordered(t, zero());
    lemma_exact_ordered(reach, t);
    let p = seen_from(origin, direction, disc, meets);
    let rim = exact(portal_radius());
    if (rim - rho) * g > l * 170000real && rho >= 0real && is_round(p, disc.rotation, rho) {
        let u = seen_from(origin, direction, disc, k);
        lemma_radius();
        lemma_point(origin, direction, disc, t, l);
        lemma_moved_along(origin, direction, disc, meets, k, sideways(), l);
        lemma_moved_along(origin, direction, disc, meets, k, crosswise(), l);
        let q = disc.rotation;
        let (a, e) = (
            Spot { x: part(u, q, sideways()), y: 0real, z: part(u, q, crosswise()) },
            Spot { x: part(p, q, sideways()), y: 0real, z: part(p, q, crosswise()) },
        );
        lemma_parts_close(a, e, l * 81600real, l * 143000real);
        let top = rho + l * 143000real / g;
        lemma_quotient_back(l * 143000real, g);
        lemma_reach_near(a, e, l * 143000real, rho, top);
        lemma_still(u);
        let at = origin.plus(direction.scale(t)).minus(disc.translation);
        lemma_inside_the_rim(at, u, u, 0real, disc, top, l * 4real);
    }
}

/// How far apart two points of a ray are along a disc.
proof fn lemma_moved_along(
    origin: Vec3,
    direction: Vec3,
    disc: Pose,
    a: real,
    b: real,
    axis: Spot,
    l: real,
)
    requires
        is_ray(origin, direction, disc, l),
        axis.dot(axis) == 1real,
        size(b - a) * grains() <= l * 80000real,
    ensures
        size(
            part(seen_from(origin, direction, disc, b), disc.rotation, axis) - part(
                seen_from(origin, direction, disc, a),
                disc.rotation,
                axis,
            ),
        ) * grains() <= l * 81600real,
{
    let g = grains();
    let t = Turn::of(disc.rotation);
    let n = t.turned(axis);
    let (o, d, c) = (Spot::of(origin), Spot::of(direction), Spot::of(disc.translation));
    lemma_dot_minus(o.plus(d.scale(a)), c, n);
    lemma_dot_minus(o.plus(d.scale(b)), c, n);
    lemma_dot_plus(o, d.scale(a), n);
    lemma_dot_plus(o, d.scale(b), n);
    lemma_dot_scale(d, a, n);
    lemma_dot_scale(d, b, n);
    lemma_turn_keeps(t, axis, axis);
    lemma_norm_twice(t.norm(), 64real);
    let k = 1001real / 1000real;
    let m = 101real / 100real;
    assert(k * k == 1002001real / 1000000real);
    assert(m * k == 101101real / 100000real);
    lemma_both_ways(d, n, m, k);
    lemma_spread_minus(b, a, d.dot(n));
    lemma_size_of_product((b - a) * g, d.dot(n), l * 80000real, 102real / 100real);
    lemma_regroup(b - a, g, d.dot(n));
}

/// On the way from somewhere to there is nothing else.
proof fn lemma_still(p: Spot)
    ensures
        between(p, p, 0real) == p,
{
}

} // verus!

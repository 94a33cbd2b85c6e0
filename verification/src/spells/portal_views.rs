//! What is seen through a pair of portals, next to what exact rotations show.
//!
//! Distances from the exact result are counted in grains, of which a result of at most
//! one is off by no more than one. There are more than sixteen thousand of them in a
//! thousandth.

use crate::closeness::{
    exact, grains, lemma_exact, lemma_exact_constants, lemma_exact_ordered, lemma_minus_close,
    lemma_minus_within, lemma_neg_close, lemma_plus_close, lemma_plus_within, lemma_quotient_back,
    lemma_size_of_product, lemma_times_close, lemma_whole, size, within,
};
use crate::facing::{
    is_level_enough, is_steep, lemma_direction_length, lemma_looking, lemma_looking_steeply,
    lemma_scaled,
};
use crate::frames::is_little;
use crate::rounding::lemma_units_increase;
use crate::scalar::{lemma_units_of_power, one, zero, Scalar};
use crate::spells::portal::{
    ahead, direction_or_x, portal_virtual_transform, tiny, up, view_pose, HalfTurns,
};
use crate::turning::{
    carried_y, carried_z, close, is_near_half_turn_y, is_near_half_turn_z, is_small, is_unit,
    lemma_ahead_close, lemma_carried_keeps, lemma_carried_y, lemma_carried_z, lemma_close_parts,
    lemma_close_wider, lemma_dot_minus, lemma_dot_scale, lemma_dot_swap, lemma_height_kept,
    lemma_in_common, lemma_inverse, lemma_norm_of, lemma_norms, lemma_nothing, lemma_opposite,
    lemma_parts_close, lemma_reach_close, lemma_reach_near, lemma_reach_parts, lemma_regroup,
    lemma_rotate_close, lemma_scale_ordered, lemma_spread_minus, lemma_square,
    lemma_squares_ordered, lemma_swap, lemma_there_and_back, lemma_turn_keeps, lemma_turned_close,
    lemma_turned_origin, lemma_unit_part, lemma_way_round, origin, reaches, Spot, Turn,
};
use crate::vector::{Pose, Quat, Vec3};
use vstd::arithmetic::power2::{lemma2_to64, lemma_pow2_adds};
use vstd::prelude::*;

verus! {

/// How far off the places may be that this is about.
pub open spec fn widest() -> real {
    1073741824real
}

/// Whether two portals are a pair that a view goes through: rotations are as long as
/// one and the half turns are half turns, but for rounding.
pub open spec fn is_pair(entry: Pose, exit: Pose, turns: HalfTurns) -> bool {
    &&& is_unit(entry.rotation)
    &&& is_unit(exit.rotation)
    &&& is_near_half_turn_y(turns.y)
    &&& is_near_half_turn_z(turns.z)
}

/// Whether a viewpoint is at most `l` from a portal.
pub open spec fn is_by(viewer: Pose, portal: Pose, l: real) -> bool {
    &&& viewer.translation.is_finite()
    &&& reaches(Spot::of(viewer.translation).minus(Spot::of(portal.translation)), l)
}

/// Whether a viewer is at most `l` from the entry of a pair, and no coordinate of the
/// pair is bigger than `t`.
pub open spec fn is_near(viewer: Pose, entry: Pose, exit: Pose, l: real, t: real) -> bool {
    &&& is_by(viewer, entry, l)
    &&& is_small(entry.translation, t)
    &&& is_small(exit.translation, t)
    &&& 1real <= l <= widest()
    &&& 1real <= t <= widest()
}

/// Where exact rotations put a viewpoint.
pub open spec fn seen_from(viewer: Spot, entry: Pose, exit: Pose) -> Spot {
    Spot::of(exit.translation).plus(
        carried_y(entry.rotation, exit.rotation, viewer.minus(Spot::of(entry.translation))),
    )
}

/// How far off the disc of a portal a place is, on the side that the disc faces.
pub open spec fn height(portal: Pose, at: Spot) -> real {
    at.minus(Spot::of(portal.translation)).dot(
        Turn::of(portal.rotation).turned(Spot { x: 0real, y: 1real, z: 0real }),
    )
}

/// Where a view is seen from is close to where exact rotations put it.
pub proof fn lemma_position(viewer: Pose, entry: Pose, exit: Pose, turns: HalfTurns, l: real, t: real)
    requires
        is_pair(entry, exit, turns),
        is_near(viewer, entry, exit, l, t),
    ensures
        ({
            let view = portal_virtual_transform(viewer, entry, exit, turns);
            &&& view.position.is_finite()
            &&& close(
                Spot::of(view.position),
                seen_from(Spot::of(viewer.translation), entry, exit),
                l * 230real + t * 2real,
            )
        }),
{
    let s = l / 63real;
    lemma_quotient_back(l, 63real);
    let d = viewer.translation.minus(entry.translation);
    let e = Spot::of(viewer.translation).minus(Spot::of(entry.translation));
    lemma_reach_parts(e, l);
    lemma_minus_close(viewer.translation.x, entry.translation.x, l);
    lemma_minus_close(viewer.translation.y, entry.translation.y, l);
    lemma_minus_close(viewer.translation.z, entry.translation.z, l);
    lemma_parts_close(Spot::of(d), e, l, l * 2real);
    lemma_reach_near(Spot::of(d), e, l * 2real, l, s * 64real);
    lemma_carried_y(entry.rotation, turns.y, exit.rotation, d, s);
    let (a, b) = (entry.rotation, exit.rotation);
    let out = b.rotate(turns.y.rotate(a.inverse().rotate(d)));
    lemma_carried_keeps(a, b, Spot::of(d), e, l * 2real, l * 3real);
    lemma_way_round(
        Spot::of(out),
        carried_y(a, b, Spot::of(d)),
        carried_y(a, b, e),
        s * 13840real,
        l * 3real,
    );
    lemma_reach_parts(Spot::of(out), s * 65real);
    let top = t + l * 2real;
    lemma_plus_close(exit.translation.x, out.x, top);
    lemma_plus_close(exit.translation.y, out.y, top);
    lemma_plus_close(exit.translation.z, out.z, top);
    let at = exit.translation.plus(out);
    let near = Spot::of(exit.translation).plus(Spot::of(out));
    lemma_parts_close(Spot::of(at), near, top, top * 2real);
    let there = seen_from(Spot::of(viewer.translation), entry, exit);
    assert(near.minus(there) == Spot::of(out).minus(carried_y(a, b, e)));
    lemma_way_round(Spot::of(at), near, there, top * 2real, s * 13840real + l * 3real);
    lemma_close_wider(
        Spot::of(at),
        there,
        top * 2real + (s * 13840real + l * 3real),
        l * 230real + t * 2real,
    );
}

/// What is seen through a pair is seen from as far off the exit's disc as the viewer is
/// off the entry's, on the same side, as far as rounding allows.
pub proof fn law_view_is_as_far_off(
    viewer: Pose,
    entry: Pose,
    exit: Pose,
    turns: HalfTurns,
    l: real,
    t: real,
)
    requires
        is_pair(entry, exit, turns),
        is_near(viewer, entry, exit, l, t),
    ensures
        ({
            let view = portal_virtual_transform(viewer, entry, exit, turns);
            let before = height(entry, Spot::of(viewer.translation));
            let behind = height(exit, Spot::of(view.position));
            let off = l * 400real + t * 3real;
            &&& view.position.is_finite()
            &&& size(behind - before) * grains() <= off
            &&& before * grains() > off ==> behind > 0real
            &&& before * grains() < -off ==> behind < 0real
        }),
{
    let view = portal_virtual_transform(viewer, entry, exit, turns);
    let p = Spot::of(viewer.translation);
    lemma_position(viewer, entry, exit, turns, l, t);
    let e = p.minus(Spot::of(entry.translation));
    let out = Spot::of(view.position).minus(Spot::of(exit.translation));
    let c = carried_y(entry.rotation, exit.rotation, e);
    assert(out.minus(c) == Spot::of(view.position).minus(seen_from(p, entry, exit)));
    lemma_height_kept(
        entry.rotation,
        exit.rotation,
        e,
        out,
        l * 230real + t * 2real,
        l,
        l * 400real + t * 3real,
    );
}

/// Seen through a pair and back through it, everything is where it was, as far as
/// rounding allows: a viewer at `viewer` sees from where `other` is and as `other` looks,
/// but for `e` grains, and what `other` sees through the pair the other way is seen from
/// `viewer`.
pub proof fn law_through_and_back(
    viewer: Pose,
    other: Pose,
    entry: Pose,
    exit: Pose,
    turns: HalfTurns,
    l: real,
    t: real,
    e: real,
)
    requires
        is_pair(entry, exit, turns),
        is_unit(viewer.rotation),
        is_near(viewer, entry, exit, l, t),
        l * 2real <= widest(),
        t <= l * 100000real,
        0real <= e <= 10000real,
        other.translation == portal_virtual_transform(viewer, entry, exit, turns).position,
        other.rotation.rotate(ahead()).is_finite(),
        close(
            Spot::of(other.rotation.rotate(ahead())),
            Spot::of(portal_virtual_transform(viewer, entry, exit, turns).forward),
            e,
        ),
    ensures
        ({
            let back = portal_virtual_transform(other, exit, entry, turns);
            let looks = viewer.rotation.rotate(ahead());
            let off = l * 750real + t * 5real;
            &&& within(back.position.x, exact(viewer.translation.x), off)
            &&& within(back.position.y, exact(viewer.translation.y), off)
            &&& within(back.position.z, exact(viewer.translation.z), off)
            &&& within(back.forward.x, exact(looks.x), 750real + e)
            &&& within(back.forward.y, exact(looks.y), 750real + e)
            &&& within(back.forward.z, exact(looks.z), 750real + e)
        }),
{
    lemma_place_back(viewer, other, entry, exit, turns, l, t);
    lemma_look_back(viewer, other, entry, exit, turns, e);
}

/// Whether a number is within a thousandth of `x`.
pub open spec fn within_a_thousandth(a: real, x: real) -> bool {
    size(a - x) * 1000real <= 1real
}

/// Up to sixteen units from a portal, all this holds within a thousandth: what is seen
/// through a pair is seen from as far off the exit's disc as the viewer is off the
/// entry's, and seen back through the pair it is seen from where the viewer is and as
/// the viewer looks.
pub proof fn law_nearby_views_are_within_a_thousandth(
    viewer: Pose,
    other: Pose,
    entry: Pose,
    exit: Pose,
    turns: HalfTurns,
    e: real,
)
    requires
        is_pair(entry, exit, turns),
        is_unit(viewer.rotation),
        is_near(viewer, entry, exit, 16real, 256real),
        0real <= e <= 10000real,
        other.translation == portal_virtual_transform(viewer, entry, exit, turns).position,
        other.rotation.rotate(ahead()).is_finite(),
        close(
            Spot::of(other.rotation.rotate(ahead())),
            Spot::of(portal_virtual_transform(viewer, entry, exit, turns).forward),
            e,
        ),
    ensures
        ({
            let back = portal_virtual_transform(other, exit, entry, turns);
            let looks = viewer.rotation.rotate(ahead());
            &&& within_a_thousandth(
                height(exit, Spot::of(other.translation)),
                height(entry, Spot::of(viewer.translation)),
            )
            &&& within_a_thousandth(exact(back.position.x), exact(viewer.translation.x))
            &&& within_a_thousandth(exact(back.position.y), exact(viewer.translation.y))
            &&& within_a_thousandth(exact(back.position.z), exact(viewer.translation.z))
            &&& within_a_thousandth(exact(back.forward.x), exact(looks.x))
            &&& within_a_thousandth(exact(back.forward.y), exact(looks.y))
            &&& within_a_thousandth(exact(back.forward.z), exact(looks.z))
        }),
{
    law_view_is_as_far_off(viewer, entry, exit, turns, 16real, 256real);
    law_through_and_back(viewer, other, entry, exit, turns, 16real, 256real, e);
}

proof fn lemma_place_back(
    viewer: Pose,
    other: Pose,
    entry: Pose,
    exit: Pose,
    turns: HalfTurns,
    l: real,
    t: real,
)
    requires
        is_pair(entry, exit, turns),
        is_near(viewer, entry, exit, l, t),
        l * 2real <= widest(),
        t <= l * 100000real,
        other.translation == portal_virtual_transform(viewer, entry, exit, turns).position,
    ensures
        ({
            let back = portal_virtual_transform(other, exit, entry, turns);
            let off = l * 750real + t * 5real;
            &&& within(back.position.x, exact(viewer.translation.x), off)
            &&& within(back.position.y, exact(viewer.translation.y), off)
            &&& within(back.position.z, exact(viewer.translation.z), off)
        }),
{
    let (a, b) = (entry.rotation, exit.rotation);
    let p = Spot::of(viewer.translation);
    let d = p.minus(Spot::of(entry.translation));
    lemma_position(viewer, entry, exit, turns, l, t);
    let off = l * 230real + t * 2real;
    let there = Spot::of(other.translation);
    let c = carried_y(a, b, d);
    let f = there.minus(Spot::of(exit.translation));
    assert(f.minus(c) == there.minus(seen_from(p, entry, exit)));
    lemma_reach_close(d, l);
    let long = l * (grains() + 200real);
    lemma_carried_keeps(a, b, d, origin(), l * grains(), long);
    lemma_turned_origin(Turn::of(a).back());
    lemma_turned_origin(Turn::of(b));
    assert(origin().half_turned_y() == origin());
    // The way back begins not much farther off.
    let s = l / 63real;
    lemma_quotient_back(l, 63real);
    let m = s * 64real;
    lemma_way_round(f, c, origin(), off, long);
    lemma_close_wider(f, origin(), off + long, m * grains());
    lemma_reach_close(f, m);
    assert(is_by(other, exit, m));
    lemma_position(other, exit, entry, turns, m, t);
    let back = portal_virtual_transform(other, exit, entry, turns);
    let x = seen_from(there, exit, entry);
    let later = l * 231real + t * 3real;
    lemma_carried_keeps(b, a, f, c, off, later);
    lemma_there_and_back(a, b, d, l);
    let g = carried_y(b, a, c);
    lemma_way_round(carried_y(b, a, f), g, d, later, l * 260real);
    assert(x.minus(p) == carried_y(b, a, f).minus(d));
    let last = m * 230real + t * 2real;
    lemma_way_round(Spot::of(back.position), x, p, last, later + l * 260real);
    let all = l * 750real + t * 5real;
    lemma_close_wider(Spot::of(back.position), p, last + (later + l * 260real), all);
    lemma_close_parts(Spot::of(back.position), p, all);
}

/// What looks ahead is as long as one.
pub proof fn lemma_ahead(viewer: Pose)
    requires
        is_unit(viewer.rotation),
    ensures
        ({
            let looks = viewer.rotation.rotate(ahead());
            &&& looks.is_finite()
            &&& close(Spot::of(looks), origin(), grains() + 130real)
            &&& close(
                Spot::of(looks),
                Turn::of(viewer.rotation).turned(Spot::of(ahead())),
                65real,
            )
        }),
{
    let q = viewer.rotation;
    lemma_exact_constants();
    lemma_neg_close(one());
    let v = Spot::of(ahead());
    assert(ahead().z == one().neg() && ahead().x == zero() && ahead().y == zero());
    assert(v == Spot { x: 0real, y: 0real, z: -1real });
    lemma_ahead_close(-1real, grains());
    let s = 1real / 64real;
    lemma_quotient_back(1real, 64real);
    lemma_close_wider(v, origin(), grains(), (s * 65real) * grains());
    lemma_reach_close(v, s * 65real);
    lemma_rotate_close(q, ahead(), s);
    lemma_turned_close(Turn::of(q), v, origin(), grains());
    lemma_turned_origin(Turn::of(q));
    lemma_norm_of(q, grains());
    let n = Turn::of(q).norm() * grains();
    let looks = q.rotate(ahead());
    lemma_way_round(Spot::of(looks), Turn::of(q).turned(v), origin(), s * 4146real, n);
    lemma_close_wider(Spot::of(looks), origin(), s * 4146real + n, grains() + 130real);
    lemma_close_wider(Spot::of(looks), Turn::of(q).turned(v), s * 4146real, 65real);
}

proof fn lemma_look_back(
    viewer: Pose,
    other: Pose,
    entry: Pose,
    exit: Pose,
    turns: HalfTurns,
    e: real,
)
    requires
        is_pair(entry, exit, turns),
        is_unit(viewer.rotation),
        0real <= e <= 10000real,
        other.rotation.rotate(ahead()).is_finite(),
        close(
            Spot::of(other.rotation.rotate(ahead())),
            Spot::of(portal_virtual_transform(viewer, entry, exit, turns).forward),
            e,
        ),
    ensures
        ({
            let back = portal_virtual_transform(other, exit, entry, turns);
            let looks = viewer.rotation.rotate(ahead());
            &&& within(back.forward.x, exact(looks.x), 750real + e)
            &&& within(back.forward.y, exact(looks.y), 750real + e)
            &&& within(back.forward.z, exact(looks.z), 750real + e)
        }),
{
    let (a, b) = (entry.rotation, exit.rotation);
    let looks = viewer.rotation.rotate(ahead());
    lemma_ahead(viewer);
    let u = Spot::of(looks);
    let s = 1real / 63real;
    lemma_quotient_back(1real, 63real);
    let m = s * 64real;
    lemma_close_wider(u, origin(), grains() + 130real, m * grains());
    lemma_reach_close(u, m);
    lemma_carried_z(a, turns.z, b, looks, s);
    let view = portal_virtual_transform(viewer, entry, exit, turns);
    let there = other.rotation.rotate(ahead());
    let f = Spot::of(there);
    let c = carried_z(a, b, u);
    let off = s * 13840real;
    lemma_way_round(f, Spot::of(view.forward), c, e, off);
    lemma_carried_keeps(a, b, u, origin(), grains() + 130real, grains() + 400real);
    lemma_turned_origin(Turn::of(a).back());
    lemma_turned_origin(Turn::of(b));
    assert(origin().half_turned_z() == origin());
    lemma_way_round(f, c, origin(), e + off, grains() + 400real);
    lemma_close_wider(f, origin(), e + off + (grains() + 400real), m * grains());
    lemma_reach_close(f, m);
    lemma_carried_z(b, turns.z, a, there, s);
    let back = portal_virtual_transform(other, exit, entry, turns);
    let later = e + 222real;
    lemma_carried_keeps(b, a, f, c, e + off, later);
    lemma_there_and_back(a, b, u, m);
    let g = carried_z(b, a, c);
    lemma_way_round(carried_z(b, a, f), g, u, later, m * 260real);
    lemma_way_round(Spot::of(back.forward), carried_z(b, a, f), u, off, later + m * 260real);
    let all = 750real + e;
    lemma_close_wider(Spot::of(back.forward), u, off + (later + m * 260real), all);
    lemma_close_parts(Spot::of(back.forward), u, all);
}

/// What counts as nothing is between two to the power of minus twenty and twice that.
proof fn lemma_tiny()
    ensures
        tiny().is_finite(),
        exact(tiny()) * 1048576real >= 1real,
        exact(tiny()) * 524288real <= 1real,
{
    lemma_exact(tiny());
    lemma_whole();
    lemma_units_of_power(107);
    lemma_units_of_power(108);
    lemma_units_increase(107int * 0x80_0000int, tiny().magnitude() as int);
    lemma_units_increase(tiny().magnitude() as int, 108int * 0x80_0000int);
    lemma_pow2_adds(129, 20);
    lemma_pow2_adds(130, 19);
    lemma2_to64();
}

/// A product with nothing, or of something small with one.
proof fn lemma_small_products(a: Scalar)
    requires
        a.is_finite(),
        size(exact(a)) <= 2real,
    ensures
        ({
            let b = 1real / 1024real;
            &&& within(a.times(zero()), 0real, b)
            &&& within(zero().times(a), 0real, b)
            &&& size(exact(a)) * 2048real <= 1real ==> within(one().times(a), exact(a), b)
            &&& size(exact(a)) * 2048real <= 1real ==> within(a.times(one()), exact(a), b)
        }),
{
    let b = 1real / 1024real;
    lemma_quotient_back(1real, 1024real);
    lemma_exact_constants();
    let (x, y, z) = (exact(a), exact(zero()), exact(one()));
    lemma_nothing(y, x);
    lemma_times_close(a, zero(), b);
    lemma_times_close(zero(), a, b);
    assert(x * z == x && z * x == x);
    if size(x) * 2048real <= 1real {
        lemma_times_close(one(), a, b);
        lemma_times_close(a, one(), b);
    }
}

/// A direction that has something across the way up is not straight up or down.
proof fn lemma_level(f: Vec3)
    requires
        f.is_finite(),
        size(exact(f.y)) <= 2real,
        f.cross(up()).length_squared().gt(tiny()),
    ensures
        is_level_enough(f),
{
    if !is_level_enough(f) {
        let b = 1real / 1024real;
        lemma_quotient_back(1real, 1024real);
        lemma_small_products(f.x);
        lemma_small_products(f.y);
        lemma_small_products(f.z);
        let w = f.cross(up());
        let (x, z) = (exact(f.x), exact(f.z));
        lemma_minus_within(f.y.times(zero()), 0real, b, one().times(f.z), z, b, b);
        lemma_minus_within(f.z.times(zero()), 0real, b, zero().times(f.x), 0real, b, b);
        lemma_minus_within(f.x.times(one()), x, b, zero().times(f.y), 0real, b, b);
        let m = 1real / 4000000real;
        lemma_quotient_back(1real, 4000000real);
        lemma_small_square(w.x, m);
        lemma_small_square(w.y, m);
        lemma_small_square(w.z, m);
        let (p, q, r) = (w.x.times(w.x), w.y.times(w.y), w.z.times(w.z));
        let (i, j, k) = (
            exact(w.x) * exact(w.x),
            exact(w.y) * exact(w.y),
            exact(w.z) * exact(w.z),
        );
        lemma_plus_within(p, i, m, q, j, m, m * 4real);
        lemma_plus_within(p.plus(q), i + j, m * 6real, r, k, m, m * 4real);
        lemma_tiny();
        lemma_exact_ordered(tiny(), w.length_squared());
    }
}

/// A direction that has nothing across the way up is almost straight up or down.
proof fn lemma_steep(f: Vec3)
    requires
        f.is_finite(),
        size(exact(f.x)) * 60real <= 63real,
        size(exact(f.y)) * 60real <= 63real,
        size(exact(f.z)) * 60real <= 63real,
        !f.cross(up()).length_squared().gt(tiny()),
    ensures
        is_steep(f),
{
    let b = 1real / 1024real;
    lemma_quotient_back(1real, 1024real);
    lemma_exact_constants();
    lemma_small_products(f.x);
    lemma_small_products(f.y);
    lemma_small_products(f.z);
    let w = f.cross(up());
    let (x, z) = (exact(f.x), exact(f.z));
    assert(x * exact(one()) == x && exact(one()) * z == z);
    lemma_times_close(f.x, one(), 2real);
    lemma_times_close(one(), f.z, 2real);
    lemma_minus_within(f.y.times(zero()), 0real, b, one().times(f.z), z, 2real, 2real);
    lemma_minus_within(f.z.times(zero()), 0real, b, zero().times(f.x), 0real, b, b);
    lemma_minus_within(f.x.times(one()), x, 2real, zero().times(f.y), 0real, b, 2real);
    lemma_fair_square(w.x);
    lemma_fair_square(w.y);
    lemma_fair_square(w.z);
    let (p, q, r) = (w.x.times(w.x), w.y.times(w.y), w.z.times(w.z));
    let (i, j, k) = (exact(w.x) * exact(w.x), exact(w.y) * exact(w.y), exact(w.z) * exact(w.z));
    lemma_plus_within(p, i, 2real, q, j, 2real, 5real);
    lemma_plus_within(p.plus(q), i + j, 9real, r, k, 2real, 7real);
    lemma_tiny();
    lemma_exact_ordered(tiny(), w.length_squared());
}

proof fn lemma_fair_square(a: Scalar)
    requires
        a.is_finite(),
        size(exact(a)) * 5real <= 7real,
    ensures
        0real <= exact(a) * exact(a) <= 2real,
        within(a.times(a), exact(a) * exact(a), 2real),
        size(exact(a)) * 505real >= 1real ==> (exact(a) * exact(a)) * 255025real >= 1real,
{
    let x = exact(a);
    lemma_squares_ordered(x * 5real, 7real);
    lemma_regroup(x, 5real, x * 5real);
    lemma_regroup(x, x, 5real);
    lemma_square(x);
    lemma_times_close(a, a, 2real);
    lemma_big_square(x, 505real);
}

/// What is not small has no small square.
proof fn lemma_big_square(x: real, k: real)
    requires
        k >= 0real,
    ensures
        size(x) * k >= 1real ==> (x * x) * (k * k) >= 1real,
{
    let y = size(x) * k;
    lemma_scale_ordered(k, 0real, size(x));
    lemma_squares_ordered(1real, y);
    let z = x * k;
    assert(z * z == (x * x) * (k * k)) by {
        lemma_regroup(x, k, z);
        lemma_regroup(k, x, k);
        lemma_regroup(x, k, k);
        lemma_swap(k, z);
        lemma_regroup(x, x, k * k);
    }
    lemma_opposite(k, x);
    lemma_swap(k, -x);
    lemma_swap(k, x);
    assert(y == z || y == -z);
    lemma_opposite(-z, z);
    lemma_swap(-z, z);
    lemma_opposite(z, z);
}

proof fn lemma_small_square(a: Scalar, m: real)
    requires
        a.is_finite(),
        size(exact(a)) * 2000real <= 1real,
        m * 4000000real == 1real,
    ensures
        0real <= exact(a) * exact(a) <= m,
        within(a.times(a), exact(a) * exact(a), m),
{
    let x = exact(a);
    lemma_squares_ordered(x * 2000real, 1real);
    lemma_regroup(x, 2000real, x * 2000real);
    lemma_regroup(x, x, 2000real);
    lemma_square(x);
    lemma_times_close(a, a, m);
}

/// What is close to something as long as one is as long as one.
proof fn lemma_as_long(f: Spot, c: Spot)
    requires
        close(f, c, 300real),
        is_little(c.dot(c) - 1real, 500real),
    ensures
        is_little(f.dot(f) - 1real, 3000real),
{
    let g = grains();
    let d = f.minus(c);
    let e = d.scale(g);
    lemma_in_common(e, c, 300real, 2real);
    let o = e.scale(-1real);
    lemma_dot_scale(e, -1real, o);
    lemma_dot_swap(e, o);
    lemma_dot_scale(e, -1real, e);
    lemma_dot_scale(e, -1real, c);
    lemma_in_common(o, c, 300real, 2real);
    lemma_dot_scale(d, g, c);
    lemma_dot_scale(d, g, e);
    lemma_dot_swap(d, e);
    lemma_dot_scale(d, g, d);
    lemma_dot_minus(f, c, f);
    lemma_dot_minus(f, c, c);
    lemma_dot_minus(f, c, d);
    lemma_dot_swap(f, c);
    lemma_dot_swap(f, d);
    lemma_dot_swap(c, d);
    let m = d.dot(d);
    assert(g * (g * m) <= 90000real);
    lemma_square(d.x);
    lemma_square(d.y);
    lemma_square(d.z);
}

/// The way a view looks is as long as one.
proof fn lemma_forward_length(viewer: Pose, entry: Pose, exit: Pose, turns: HalfTurns)
    requires
        is_pair(entry, exit, turns),
        is_unit(viewer.rotation),
    ensures
        ({
            let f = portal_virtual_transform(viewer, entry, exit, turns).forward;
            &&& f.is_finite()
            &&& is_little(Spot::of(f).dot(Spot::of(f)) - 1real, 3000real)
        }),
{
    let (a, b, q) = (entry.rotation, exit.rotation, viewer.rotation);
    let looks = q.rotate(ahead());
    let u = Spot::of(looks);
    lemma_ahead(viewer);
    let w = Turn::of(q).turned(Spot::of(ahead()));
    let s = 1real / 63real;
    lemma_quotient_back(1real, 63real);
    lemma_close_wider(u, origin(), grains() + 130real, (s * 64real) * grains());
    lemma_reach_close(u, s * 64real);
    lemma_carried_z(a, turns.z, b, looks, s);
    lemma_carried_keeps(a, b, u, w, 65real, 70real);
    let c = carried_z(a, b, w);
    let f = Spot::of(portal_virtual_transform(viewer, entry, exit, turns).forward);
    lemma_way_round(f, carried_z(a, b, u), c, s * 13840real, 70real);
    lemma_close_wider(f, c, s * 13840real + 70real, 300real);
    lemma_carried_length(a, b, q);
    lemma_as_long(f, c);
}

/// Exact rotations keep what looks ahead as long as one.
proof fn lemma_carried_length(a: Quat, b: Quat, q: Quat)
    requires
        is_unit(a),
        is_unit(b),
        is_unit(q),
    ensures
        ({
            let c = carried_z(a, b, Turn::of(q).turned(Spot::of(ahead())));
            is_little(c.dot(c) - 1real, 500real)
        }),
{
    let g = grains();
    let v = Spot::of(ahead());
    lemma_exact_constants();
    lemma_neg_close(one());
    assert(v == Spot { x: 0real, y: 0real, z: -1real });
    assert(v.dot(v) == 1real);
    let w = Turn::of(q).turned(v);
    let n = Turn::of(q).norm();
    lemma_turn_keeps(Turn::of(q), v, v);
    lemma_norms(a, q);
    let x = n * n;
    assert(w.dot(w) == x);
    lemma_inverse(a);
    let h = Turn::of(a).back().turned(w);
    lemma_turn_keeps(Turn::of(a).back(), w, w);
    let k = Turn::of(a).norm();
    let y = h.half_turned_z();
    assert(y.dot(y) == h.dot(h)) by {
        lemma_opposite(h.x, h.x);
        lemma_opposite(h.y, h.y);
        lemma_opposite(-h.x, h.x);
        lemma_opposite(-h.y, h.y);
        lemma_swap(-h.x, h.x);
        lemma_swap(-h.y, h.y);
    }
    lemma_turn_keeps(Turn::of(b), y, y);
    let m = Turn::of(b).norm();
    lemma_norms(a, b);
    let p = (m * m) * (k * k);
    let c = carried_z(a, b, w);
    assert(c.dot(c) == (m * m) * ((k * k) * x));
    lemma_regroup(m * m, k * k, x);
    assert(c.dot(c) == p * x);
    lemma_size_of_product((p - 1real) * g, x, 260real, 1real + 130real / g);
    lemma_quotient_back(130real, g);
    lemma_regroup(p - 1real, g, x);
    lemma_spread_minus(p, 1real, x);
}

/// The level part of the way a viewer looks, as a direction.
proof fn lemma_level_part(seen: Vec3)
    requires
        seen.is_finite(),
        size(exact(seen.x)) * 60real <= 63real,
        size(exact(seen.z)) * 60real <= 63real,
        is_level_enough(seen),
    ensures
        ({
            let top = direction_or_x(Vec3 { x: seen.x, y: zero(), z: seen.z });
            &&& top.is_finite()
            &&& is_little(Spot::of(top).dot(Spot::of(top)) - 1real, 40real)
            &&& is_little(exact(top.y), 40real)
        }),
{
    let v = Vec3 { x: seen.x, y: zero(), z: seen.z };
    let a = Spot::of(v);
    lemma_exact_constants();
    lemma_nothing(a.y, a.y);
    lemma_square(a.x);
    lemma_square(a.z);
    lemma_squares_ordered(a.x * 5real, 7real);
    lemma_squares_ordered(a.z * 5real, 7real);
    lemma_regroup(a.x, 5real, a.x * 5real);
    lemma_regroup(a.x, a.x, 5real);
    lemma_regroup(a.z, 5real, a.z * 5real);
    lemma_regroup(a.z, a.z, 5real);
    lemma_big_square(a.x, 2048real);
    lemma_big_square(a.z, 2048real);
    lemma_scaled(v);
    let k = one().over(v.length());
    lemma_nothing(a.y, exact(k));
    lemma_direction_length(v.scale(k), v, exact(k));
}

/// Whether a view through a pair, or else the viewer, looks another way than straight up
/// or down.
pub open spec fn is_not_upright(
    viewer: Pose,
    entry: Pose,
    exit: Pose,
    turns: HalfTurns,
) -> bool {
    let view = portal_virtual_transform(viewer, entry, exit, turns);
    ||| view.forward.cross(up()).length_squared().gt(tiny())
    ||| is_level_enough(viewer.rotation.rotate(ahead()))
}

/// Who stands where a view is seen from, turned to look along it, looks as the view
/// does, unless both the view and the viewer look straight up or down.
pub proof fn law_view_pose_looks_along(viewer: Pose, entry: Pose, exit: Pose, turns: HalfTurns)
    requires
        is_pair(entry, exit, turns),
        is_unit(viewer.rotation),
        is_not_upright(viewer, entry, exit, turns),
    ensures
        ({
            let view = portal_virtual_transform(viewer, entry, exit, turns);
            let looks = view_pose(view).rotation.rotate(ahead());
            &&& looks.is_finite()
            &&& close(Spot::of(looks), Spot::of(view.forward), 9100real)
        }),
{
    let view = portal_virtual_transform(viewer, entry, exit, turns);
    let f = view.forward;
    let seen = viewer.rotation.rotate(ahead());
    lemma_forward_length(viewer, entry, exit, turns);
    let u = Spot::of(f);
    lemma_square(u.x);
    lemma_square(u.y);
    lemma_square(u.z);
    lemma_unit_part(u.x);
    lemma_unit_part(u.y);
    lemma_unit_part(u.z);
    if f.cross(up()).length_squared().gt(tiny()) {
        lemma_level(f);
        lemma_looking(f);
    } else {
        lemma_steep(f);
        lemma_ahead(viewer);
        let s = 1real / 64real;
        lemma_quotient_back(1real, 64real);
        lemma_close_wider(Spot::of(seen), origin(), grains() + 130real, (s * 65real) * grains());
        lemma_reach_close(Spot::of(seen), s * 65real);
        lemma_reach_parts(Spot::of(seen), s * 65real);
        lemma_level_part(seen);
        lemma_looking_steeply(f, view.up);
    }
}

/// Who goes through a pair, turned to look as the view through it does, and looks back
/// through it sees from where the viewer was and as the viewer looked, within a
/// thousandth: up to sixteen units from a portal, and unless both the view and the viewer
/// look straight up or down.
pub proof fn law_carried_through_and_back(
    viewer: Pose,
    entry: Pose,
    exit: Pose,
    turns: HalfTurns,
)
    requires
        is_pair(entry, exit, turns),
        is_unit(viewer.rotation),
        is_near(viewer, entry, exit, 16real, 256real),
        is_not_upright(viewer, entry, exit, turns),
    ensures
        ({
            let other = view_pose(portal_virtual_transform(viewer, entry, exit, turns));
            let back = portal_virtual_transform(other, exit, entry, turns);
            let looks = viewer.rotation.rotate(ahead());
            &&& within_a_thousandth(exact(back.position.x), exact(viewer.translation.x))
            &&& within_a_thousandth(exact(back.position.y), exact(viewer.translation.y))
            &&& within_a_thousandth(exact(back.position.z), exact(viewer.translation.z))
            &&& within_a_thousandth(exact(back.forward.x), exact(looks.x))
            &&& within_a_thousandth(exact(back.forward.y), exact(looks.y))
            &&& within_a_thousandth(exact(back.forward.z), exact(looks.z))
        }),
{
    let other = view_pose(portal_virtual_transform(viewer, entry, exit, turns));
    law_view_pose_looks_along(viewer, entry, exit, turns);
    law_nearby_views_are_within_a_thousandth(viewer, other, entry, exit, turns, 9100real);
}

} // verus!

//! What a pair of portals does to what goes through it, next to what exact rotations
//! do: which way it moves, where it comes out and how it is turned.
//!
//! How something lies to a disc is told by its parts along the three axes of the disc,
//! of which the second one is where the disc's face looks. How far a result is off is
//! counted in grains.

use crate::closeness::{
    exact, grains, lemma_exact, lemma_exact_constants, lemma_exact_ordered, lemma_minus_close,
    lemma_neg_close, lemma_plus_close, lemma_plus_within, lemma_quotient_back,
    lemma_size_of_product, lemma_times_close, lemma_whole, limit, size, within,
};
use crate::composing::{
    after, apart, lemma_after, lemma_after_norm, lemma_apart_after, lemma_apart_round,
    lemma_apart_wider, lemma_carry, lemma_carry_straight, lemma_compose_close, lemma_near_norm,
    lemma_rotate_near, lemma_turned_near,
};
use crate::facing::{lemma_direction_length, lemma_scaled};
use crate::frames::{is_little, lemma_axis_parts};
use crate::rounding::lemma_units_increase;
use crate::scalar::{lemma_units_of_power, one, zero, Scalar};
use crate::spells::portal::{
    ahead, along, carried_position, carried_rotation, carried_velocity, entered_fixed, face,
    face_or_zero, horizontal_normal_dot_y, kept_lockout, minus_half, needs_x_flip, pair_of, passes,
    portal_virtual_transform, traveler_step, up, HalfTurns, Portal, TravelerView,
};
use crate::spells::portal_views::{is_near, is_pair, lemma_ahead, lemma_position, seen_from, widest};
use crate::turning::{
    close, is_near_half_turn_z, is_nearly_unit, is_scale, is_small, is_unit, lemma_carried_z,
    lemma_close_wider, lemma_dot_minus, lemma_dot_scale, lemma_dot_swap, lemma_half_turns_keep,
    lemma_in_common, lemma_inverse, lemma_norm_of, lemma_nothing, lemma_opposite, lemma_parts_close,
    lemma_reach_close, lemma_reach_near, lemma_reach_parts, lemma_regroup, lemma_rotate_close,
    lemma_scale_ordered, lemma_spread, lemma_spread_minus, lemma_square, lemma_squares_ordered,
    lemma_swap, lemma_turn_keeps, lemma_turn_moves_over, lemma_turned_close, lemma_unit_part,
    lemma_unit_product, lemma_way_round, origin, reaches, Spot, Turn,
};
use crate::vector::{Pose, Quat, Vec3};
use vstd::arithmetic::power2::lemma_pow2_unfold;
use vstd::prelude::*;

verus! {

/// Along the first axis.
pub open spec fn sideways() -> Spot {
    Spot { x: 1real, y: 0real, z: 0real }
}

/// Along the second axis, where a disc's face looks.
pub open spec fn outwards() -> Spot {
    Spot { x: 0real, y: 1real, z: 0real }
}

/// Along the third axis.
pub open spec fn crosswise() -> Spot {
    Spot { x: 0real, y: 0real, z: 1real }
}

/// The part of `u` along what the rotation `q` turns `axis` to.
pub open spec fn part(u: Spot, q: Quat, axis: Spot) -> real {
    u.dot(Turn::of(q).turned(axis))
}

/// Half a turn about the first axis, exactly.
pub open spec fn half_x() -> Turn {
    Turn { axis: sideways(), w: 0real }
}

/// Half a turn about the third axis, exactly.
pub open spec fn half_z() -> Turn {
    Turn { axis: crosswise(), w: 0real }
}

/// Whether a rotation is half a turn about the first axis, but for rounding.
pub open spec fn is_near_half_turn_x(q: Quat) -> bool {
    let t = Turn::of(q);
    &&& is_unit(q)
    &&& size(t.axis.x - 1real) * grains() <= 1real
    &&& size(t.axis.y) * grains() <= 1real
    &&& size(t.axis.z) * grains() <= 1real
    &&& size(t.w) * grains() <= 1real
}

/// Whether the two half turns that go with a pair of portals are half turns.
pub open spec fn are_half_turns(turns: HalfTurns) -> bool {
    is_near_half_turn_x(turns.x) && is_near_half_turn_z(turns.z)
}

/// What half a turn does.
pub proof fn lemma_halves(u: Spot)
    ensures
        half_x().norm() == 1real,
        half_z().norm() == 1real,
        half_x().turned(u) == (Spot { x: u.x, y: -u.y, z: -u.z }),
        half_z().turned(u) == (Spot { x: -u.x, y: -u.y, z: u.z }),
{
    lemma_nothing(0real, u.x);
    lemma_nothing(0real, u.y);
    lemma_nothing(0real, u.z);
    lemma_nothing(0real, u.x * 2real);
    lemma_nothing(0real, u.z * 2real);
    lemma_opposite(u.x, 1real);
    lemma_opposite(u.y, 1real);
    lemma_opposite(u.z, 1real);
    let (p, q) = (half_x(), half_z());
    assert(p.axis.dot(p.axis) == 1real);
    assert(q.axis.dot(q.axis) == 1real);
    assert(u.dot(p.axis) == u.x);
    assert(u.dot(q.axis) == u.z);
    assert(p.axis.cross(u).scale(0real * 2real) == Spot { x: 0real, y: 0real, z: 0real }) by {
        let c = p.axis.cross(u);
        lemma_nothing(0real, c.x);
        lemma_nothing(0real, c.y);
        lemma_nothing(0real, c.z);
    }
    assert(q.axis.cross(u).scale(0real * 2real) == Spot { x: 0real, y: 0real, z: 0real }) by {
        let c = q.axis.cross(u);
        lemma_nothing(0real, c.x);
        lemma_nothing(0real, c.y);
        lemma_nothing(0real, c.z);
    }
    assert(p.turned(u).x == u.x);
    assert(p.turned(u).y == -u.y);
    assert(p.turned(u).z == -u.z);
    assert(q.turned(u).x == -u.x);
    assert(q.turned(u).y == -u.y);
    assert(q.turned(u).z == u.z);
}

/// What is half a turn but for rounding differs little from one.
pub proof fn lemma_halves_near(turns: HalfTurns)
    requires
        are_half_turns(turns),
    ensures
        apart(Turn::of(turns.x), half_x(), 2real / grains()),
        apart(Turn::of(turns.z), half_z(), 2real / grains()),
{
    lemma_components_near(Turn::of(turns.x), half_x());
    lemma_components_near(Turn::of(turns.z), half_z());
}

proof fn lemma_components_near(a: Turn, b: Turn)
    requires
        size(a.w - b.w) * grains() <= 1real,
        size(a.axis.x - b.axis.x) * grains() <= 1real,
        size(a.axis.y - b.axis.y) * grains() <= 1real,
        size(a.axis.z - b.axis.z) * grains() <= 1real,
    ensures
        apart(a, b, 2real / grains()),
{
    let e = 1real / grains();
    lemma_squares_ordered(a.w - b.w, e);
    lemma_squares_ordered(a.axis.x - b.axis.x, e);
    lemma_squares_ordered(a.axis.y - b.axis.y, e);
    lemma_squares_ordered(a.axis.z - b.axis.z, e);
    let f = 2real / grains();
    assert(f * f == (e * e) * 4real) by {
        lemma_regroup(e, 2real, e * 2real);
        lemma_regroup(e, e, 2real);
        assert(f == e * 2real);
    }
}

/// The part of a vector along an axis of the disc that it is brought back from.
pub proof fn lemma_part_in(u: Spot, entry: Quat, axis: Spot)
    ensures
        part(u, entry, axis) == Turn::of(entry).back().turned(u).dot(axis),
{
    let q = Turn::of(entry);
    lemma_turn_moves_over(q, axis, u);
    lemma_dot_swap(q.turned(axis), u);
    lemma_dot_swap(q.back().turned(u), axis);
}

/// How long a rotation is, squared twice.
pub proof fn lemma_norm_twice(n: real, e: real)
    requires
        size(n - 1real) * grains() <= e,
        0real <= e <= 1000real,
    ensures
        size(n * n - 1real) * grains() <= e * 2real + 1real,
{
    let g = grains();
    let a = n - 1real;
    lemma_spread(1real, a, n);
    lemma_spread(1real, a, a);
    lemma_size_of_product(a * g, a * g, e, e);
    lemma_regroup(a, g, a * g);
    lemma_regroup(a, a, g);
    assert((a * g) * (a * g) == ((a * a) * g) * g);
    lemma_scale_ordered(e, e, 1000real);
}

/// The part along an axis of the disc that a vector comes out of: that of what it is
/// before that disc turns it.
pub proof fn lemma_part_out(out: Spot, mid: Spot, exit: Quat, axis: Spot, off: real, l: real)
    requires
        is_unit(exit),
        close(out, Turn::of(exit).turned(mid), off),
        reaches(mid, l),
        axis.dot(axis) == 1real,
    ensures
        size(part(out, exit, axis) - mid.dot(axis)) * grains() <= off * 2real + l * 131real,
{
    let g = grains();
    let r = Turn::of(exit);
    let n = r.norm();
    let (b, e) = (r.turned(axis), r.turned(mid));
    lemma_turn_keeps(r, axis, axis);
    lemma_turn_keeps(r, mid, axis);
    lemma_norm_twice(n, 64real);
    let k = n * n;
    assert(b.dot(b) == k);
    let d = out.minus(e).scale(g);
    lemma_in_common(d, b, off, 2real);
    let o = d.scale(-1real);
    lemma_dot_scale(d, -1real, o);
    lemma_dot_swap(d, o);
    lemma_dot_scale(d, -1real, d);
    lemma_in_common(o, b, off, 2real);
    lemma_dot_scale(d, -1real, b);
    lemma_dot_scale(out.minus(e), g, b);
    lemma_dot_minus(out, e, b);
    let h = mid.dot(axis);
    lemma_in_common(mid, axis, l, 1real);
    let m = mid.scale(-1real);
    lemma_dot_scale(mid, -1real, m);
    lemma_dot_swap(mid, m);
    lemma_dot_scale(mid, -1real, mid);
    lemma_in_common(m, axis, l, 1real);
    lemma_dot_scale(mid, -1real, axis);
    assert(size(h) <= l);
    lemma_size_of_product((k - 1real) * g, h, 131real, l);
    lemma_regroup(k - 1real, g, h);
    lemma_spread_minus(k, 1real, h);
}

/// What a rotation brings back is about as long as it was.
pub proof fn lemma_back_reach(entry: Quat, u: Spot, l: real)
    requires
        is_unit(entry),
        reaches(u, l),
    ensures
        reaches(Turn::of(entry).back().turned(u), l * (101real / 100real)),
{
    let t = Turn::of(entry).back();
    lemma_after_norm(Turn::of(entry), Turn::of(entry));
    lemma_turn_keeps(t, u, u);
    lemma_norm_twice(t.norm(), 64real);
    let k = t.norm() * t.norm();
    lemma_square(u.x);
    lemma_square(u.y);
    lemma_square(u.z);
    let m = u.dot(u);
    lemma_scale_ordered(m, k, 102real / 100real);
    lemma_swap(m, k);
    let c = 101real / 100real;
    assert((l * c) * (l * c) == (l * l) * (c * c)) by {
        lemma_regroup(l, c, l * c);
        lemma_regroup(c, l, c);
        lemma_swap(c, l * c);
        lemma_regroup(l, c, c);
        lemma_regroup(l, l, c * c);
    }
    assert(c * c == 10201real / 10000real);
    lemma_square(l);
}

/// The same of half a turn, which keeps the length.
proof fn lemma_half_reach(half: Turn, u: Spot, l: real)
    requires
        half.norm() == 1real,
        reaches(u, l),
    ensures
        reaches(half.turned(u), l),
{
    lemma_turn_keeps(half, u, u);
}

/// What is close to something is about as long.
pub proof fn lemma_length_near(out: Spot, x: Spot, off: real, l: real)
    requires
        close(out, x, off),
        reaches(x, l),
        off <= l * grains(),
    ensures
        size(out.dot(out) - x.dot(x)) * grains() <= (off * l) * 3real,
{
    let g = grains();
    let d = out.minus(x);
    let e = d.scale(g);
    lemma_in_common(e, x, off, l);
    let o = e.scale(-1real);
    lemma_dot_scale(e, -1real, o);
    lemma_dot_swap(e, o);
    lemma_dot_scale(e, -1real, e);
    lemma_in_common(o, x, off, l);
    lemma_dot_scale(e, -1real, x);
    lemma_dot_scale(d, g, x);
    lemma_dot_scale(d, g, e);
    lemma_dot_swap(d, e);
    lemma_dot_scale(d, g, d);
    lemma_dot_minus(out, x, out);
    lemma_dot_minus(out, x, x);
    lemma_dot_minus(out, x, d);
    lemma_dot_swap(out, x);
    lemma_dot_swap(out, d);
    lemma_dot_swap(x, d);
    let m = d.dot(d);
    assert(g * (g * m) <= off * off);
    lemma_scale_ordered(off, off, l * g);
    lemma_regroup(off, l, g);
    assert(g * (g * m) <= (off * l) * g);
    assert(g * m <= off * l);
    lemma_square(d.x);
    lemma_square(d.y);
    lemma_square(d.z);
}

/// What moves through a pair is turned by the pair: it comes out as fast as it went in,
/// what it had towards the face of the entry it has away from the face of the exit, and
/// of what it had along the discs one part is kept and the other one turned round. Which
/// one it is goes by whether the faces oppose each other.
pub proof fn law_what_moves_in_moves_out(
    velocity: Vec3,
    entry: Quat,
    exit: Quat,
    turns: HalfTurns,
    l: real,
)
    requires
        is_unit(entry),
        is_unit(exit),
        are_half_turns(turns),
        velocity.is_finite(),
        reaches(Spot::of(velocity), l),
        is_scale(l / 65real),
    ensures
        ({
            let v = Spot::of(velocity);
            let r = carried_velocity(velocity, entry, exit, turns);
            let out = Spot::of(r);
            let (x, z) = (part(v, entry, sideways()), part(v, entry, crosswise()));
            let opposed = needs_x_flip(entry, exit);
            &&& r.is_finite()
            &&& size(out.dot(out) - v.dot(v)) * grains() <= (l * l) * 2000real
            &&& size(part(out, exit, outwards()) + part(v, entry, outwards())) * grains() <= l
                * 700real
            &&& size(
                part(out, exit, sideways()) - (if opposed {
                    -x
                } else {
                    x
                }),
            ) * grains() <= l * 700real
            &&& size(
                part(out, exit, crosswise()) - (if opposed {
                    z
                } else {
                    -z
                }),
            ) * grains() <= l * 700real
        }),
{
    if needs_x_flip(entry, exit) {
        lemma_halves_near(turns);
        lemma_halves(Turn::of(entry).back().turned(Spot::of(velocity)));
        lemma_carried_parts(velocity, entry, turns.z, exit, half_z(), l);
    } else {
        lemma_halves_near(turns);
        lemma_halves(Turn::of(entry).back().turned(Spot::of(velocity)));
        lemma_carried_parts(velocity, entry, turns.x, exit, half_x(), l);
    }
}

/// The parts of what is carried by `exit`, half a turn and the way back from `entry`.
pub proof fn lemma_carried_parts(
    v: Vec3,
    entry: Quat,
    flip: Quat,
    exit: Quat,
    half: Turn,
    l: real,
)
    requires
        is_unit(entry),
        is_unit(flip),
        is_unit(exit),
        apart(Turn::of(flip), half, 2real / grains()),
        half.norm() == 1real,
        v.is_finite(),
        reaches(Spot::of(v), l),
        is_scale(l / 65real),
    ensures
        ({
            let u = Spot::of(v);
            let r = exit.compose(flip).compose(entry.inverse()).rotate(v);
            let out = Spot::of(r);
            let local = Turn::of(entry).back().turned(u);
            let mid = half.turned(local);
            &&& r.is_finite()
            &&& close(out, Turn::of(exit).turned(mid), l * 244real)
            &&& size(out.dot(out) - u.dot(u)) * grains() <= (l * l) * 2000real
            &&& local.x == part(u, entry, sideways())
            &&& local.y == part(u, entry, outwards())
            &&& local.z == part(u, entry, crosswise())
            &&& size(part(out, exit, sideways()) - mid.x) * grains() <= l * 700real
            &&& size(part(out, exit, outwards()) - mid.y) * grains() <= l * 700real
            &&& size(part(out, exit, crosswise()) - mid.z) * grains() <= l * 700real
        }),
{
    let g = grains();
    let u = Spot::of(v);
    let q = exit.compose(flip).compose(entry.inverse());
    let (a, c) = (Turn::of(exit), Turn::of(entry).back());
    let t = after(after(a, half), c);
    lemma_carry(entry, flip, exit, half);
    lemma_quotient_back(l, 65real);
    lemma_quotient_back(60real, g);
    lemma_rotate_near(q, t, v, 60real / g, l);
    let out = Spot::of(q.rotate(v));
    let local = c.turned(u);
    let mid = half.turned(local);
    lemma_after(after(a, half), c, u);
    lemma_after(a, half, local);
    assert((l * ((60real / g) * g)) * 3real + l * 64real == l * 244real);
    assert(close(out, a.turned(mid), l * 244real));
    lemma_axes(local);
    lemma_axes(mid);
    lemma_part_in(u, entry, sideways());
    lemma_part_in(u, entry, outwards());
    lemma_part_in(u, entry, crosswise());
    lemma_back_reach(entry, u, l);
    let m = l * (101real / 100real);
    lemma_half_reach(half, local, m);
    lemma_part_out(out, mid, exit, sideways(), l * 244real, m);
    lemma_part_out(out, mid, exit, outwards(), l * 244real, m);
    lemma_part_out(out, mid, exit, crosswise(), l * 244real, m);
    // How long it is.
    lemma_turn_keeps(t, u, u);
    lemma_norm_twice(t.norm(), 401real);
    let k = t.norm() * t.norm();
    let x = t.turned(u);
    lemma_square(u.x);
    lemma_square(u.y);
    lemma_square(u.z);
    let w = u.dot(u);
    lemma_size_of_product((k - 1real) * g, w, 803real, l * l);
    lemma_regroup(k - 1real, g, w);
    lemma_spread_minus(k, 1real, w);
    assert(size(x.dot(x) - w) * g <= (l * l) * 803real);
    lemma_square(l);
    assert(reaches(x, m)) by {
        assert((l * (101real / 100real)) * (l * (101real / 100real)) == (l * l) * (10201real
            / 10000real)) by {
            let c = 101real / 100real;
            assert(c * c == 10201real / 10000real);
            lemma_regroup(l, c, l * c);
            lemma_regroup(c, l, c);
            lemma_swap(c, l * c);
            lemma_regroup(l, c, c);
            lemma_regroup(l, l, c * c);
        }
    }
    lemma_length_near(out, x, l * 244real, m);
    assert(((l * 244real) * m) == (l * l) * (24644real / 100real)) by {
        lemma_regroup(l, 244real, m);
        lemma_regroup(l, l, 101real / 100real);
        lemma_swap(l, m);
    }
}

/// The coordinates of a vector are its parts along the axes.
pub proof fn lemma_axes(u: Spot)
    ensures
        u.dot(sideways()) == u.x,
        u.dot(outwards()) == u.y,
        u.dot(crosswise()) == u.z,
        sideways().dot(sideways()) == 1real,
        outwards().dot(outwards()) == 1real,
        crosswise().dot(crosswise()) == 1real,
{
    lemma_nothing(0real, u.x);
    lemma_nothing(0real, u.y);
    lemma_nothing(0real, u.z);
}

/// A place before a disc as a pair mirrors it: sideways if `across`, and to the side
/// that the face looks to if `up`.
pub open spec fn mirrored(u: Spot, across: bool, up: bool) -> Spot {
    Spot {
        x: if across {
            -u.x
        } else {
            u.x
        },
        y: if up {
            size(u.y)
        } else {
            u.y
        },
        z: u.z,
    }
}

/// What is close stays so when it is mirrored.
proof fn lemma_mirrored_close(a: Spot, b: Spot, e: real, across: bool, up: bool)
    requires
        close(a, b, e),
    ensures
        close(mirrored(a, across, up), mirrored(b, across, up), e),
{
    let g = grains();
    let (d, f) = (
        a.minus(b).scale(g),
        mirrored(a, across, up).minus(mirrored(b, across, up)).scale(g),
    );
    lemma_squares_ordered(f.x, size(d.x));
    lemma_squares_ordered(f.y, size(d.y));
    lemma_own_square(d.x);
    lemma_own_square(d.y);
}

/// The square of a size.
proof fn lemma_own_square(x: real)
    ensures
        size(x) * size(x) == x * x,
{
    lemma_opposite(-x, x);
    lemma_swap(-x, x);
    lemma_opposite(x, x);
}

/// A place as long as it was, when mirrored.
proof fn lemma_mirrored_reach(u: Spot, l: real, across: bool, up: bool)
    requires
        reaches(u, l),
    ensures
        reaches(mirrored(u, across, up), l),
{
    let g = grains();
    lemma_reach_close(u, l);
    lemma_mirrored_close(u, origin(), l * g, across, up);
    assert(mirrored(origin(), across, up) == origin());
    lemma_reach_close(mirrored(u, across, up), l);
}

/// A place before a disc, as the disc has it.
pub proof fn lemma_local(pos: Vec3, entry: Pose, l: real)
    requires
        is_unit(entry.rotation),
        pos.is_finite(),
        entry.translation.is_finite(),
        reaches(Spot::of(pos).minus(Spot::of(entry.translation)), l),
        is_scale(l / 63real),
        is_scale(l / 64real),
    ensures
        ({
            let local = entry.rotation.inverse().rotate(pos.minus(entry.translation));
            let there = Spot::of(pos).minus(Spot::of(entry.translation));
            &&& local.is_finite()
            &&& close(
                Spot::of(local),
                Turn::of(entry.rotation).back().turned(there),
                l * 68real,
            )
        }),
{
    let g = grains();
    let d = pos.minus(entry.translation);
    let e = Spot::of(pos).minus(Spot::of(entry.translation));
    lemma_quotient_back(l, 63real);
    lemma_quotient_back(l, 64real);
    lemma_reach_parts(e, l);
    lemma_minus_close(pos.x, entry.translation.x, l);
    lemma_minus_close(pos.y, entry.translation.y, l);
    lemma_minus_close(pos.z, entry.translation.z, l);
    lemma_parts_close(Spot::of(d), e, l, l * 2real);
    let s = l / 64real;
    lemma_reach_near(Spot::of(d), e, l * 2real, l, s * 65real);
    lemma_inverse(entry.rotation);
    lemma_rotate_close(entry.rotation.inverse(), d, s);
    let t = Turn::of(entry.rotation).back();
    lemma_turned_close(t, Spot::of(d), e, l * 2real);
    lemma_norm_of(entry.rotation, l * 2real);
    let local = Spot::of(entry.rotation.inverse().rotate(d));
    lemma_way_round(
        local,
        t.turned(Spot::of(d)),
        t.turned(e),
        s * 4146real,
        t.norm() * (l * 2real),
    );
    lemma_close_wider(
        local,
        t.turned(e),
        s * 4146real + t.norm() * (l * 2real),
        l * 68real,
    );
}

/// A place beyond a disc, as it is in the world.
pub proof fn lemma_placed(mid: Vec3, near: Spot, exit: Pose, l: real, t: real)
    requires
        is_unit(exit.rotation),
        mid.is_finite(),
        close(Spot::of(mid), near, l * 68real),
        reaches(near, l * (101real / 100real)),
        is_scale(l / 63real),
        is_small(exit.translation, t),
        1real <= t * limit(),
        t <= widest(),
        l <= widest(),
    ensures
        ({
            let out = exit.translation.plus(exit.rotation.rotate(mid));
            &&& out.is_finite()
            &&& close(
                Spot::of(out).minus(Spot::of(exit.translation)),
                Turn::of(exit.rotation).turned(near),
                l * 141real + t * 2real,
            )
        }),
{
    let g = grains();
    let s = l / 63real;
    lemma_quotient_back(l, 63real);
    let r = Turn::of(exit.rotation);
    lemma_reach_near(Spot::of(mid), near, l * 68real, l * (101real / 100real), s * 65real);
    lemma_rotate_close(exit.rotation, mid, s);
    lemma_turned_close(r, Spot::of(mid), near, l * 68real);
    lemma_norm_of(exit.rotation, l * 68real);
    let turned = exit.rotation.rotate(mid);
    let w = Spot::of(turned);
    lemma_way_round(
        w,
        r.turned(Spot::of(mid)),
        r.turned(near),
        s * 4146real,
        r.norm() * (l * 68real),
    );
    let off = l * 135real;
    lemma_close_wider(
        w,
        r.turned(near),
        s * 4146real + r.norm() * (l * 68real),
        off,
    );
    lemma_inverse(exit.rotation);
    lemma_back_reach(exit.rotation.inverse(), near, l * (101real / 100real));
    assert(Turn::of(exit.rotation.inverse()).back() == r);
    let m = (l * (101real / 100real)) * (101real / 100real);
    lemma_reach_near(w, r.turned(near), off, m, l * 2real);
    lemma_reach_parts(w, l * 2real);
    let top = t + l * 2real;
    lemma_plus_close(exit.translation.x, turned.x, top);
    lemma_plus_close(exit.translation.y, turned.y, top);
    lemma_plus_close(exit.translation.z, turned.z, top);
    let out = exit.translation.plus(turned);
    let o = Spot::of(out).minus(Spot::of(exit.translation));
    lemma_parts_close(o, w, top, top * 2real);
    lemma_way_round(o, w, r.turned(near), top * 2real, off);
    lemma_close_wider(o, r.turned(near), top * 2real + off, l * 141real + t * 2real);
}

/// A body comes out of the exit where it was before the entry: as far along the discs
/// and as far in front, but for two things. Opposing faces mirror sideways. Out of an
/// exit that looks up it always comes in front.
pub proof fn law_comes_out_where_it_went_in(pos: Vec3, entry: Pose, exit: Pose, l: real, t: real)
    requires
        is_unit(entry.rotation),
        is_unit(exit.rotation),
        pos.is_finite(),
        entry.translation.is_finite(),
        is_small(exit.translation, t),
        reaches(Spot::of(pos).minus(Spot::of(entry.translation)), l),
        is_scale(l / 63real),
        is_scale(l / 64real),
        l <= widest(),
        1real <= t * limit(),
        t <= widest(),
    ensures
        ({
            let r = carried_position(pos, entry, exit);
            let was = Spot::of(pos).minus(Spot::of(entry.translation));
            let now = Spot::of(r).minus(Spot::of(exit.translation));
            let (a, b) = (entry.rotation, exit.rotation);
            let (x, y) = (part(was, a, sideways()), part(was, a, outwards()));
            let off = l * 700real + t * 4real;
            &&& r.is_finite()
            &&& size(
                part(now, b, sideways()) - (if needs_x_flip(a, b) {
                    -x
                } else {
                    x
                }),
            ) * grains() <= off
            &&& size(
                part(now, b, outwards()) - (if face_or_zero(b).y.ge(horizontal_normal_dot_y()) {
                    size(y)
                } else {
                    y
                }),
            ) * grains() <= off
            &&& size(part(now, b, crosswise()) - part(was, a, crosswise())) * grains() <= off
        }),
{
    let (a, b) = (entry.rotation, exit.rotation);
    let was = Spot::of(pos).minus(Spot::of(entry.translation));
    let across = needs_x_flip(a, b);
    let up = face_or_zero(b).y.ge(horizontal_normal_dot_y());
    let local = a.inverse().rotate(pos.minus(entry.translation));
    lemma_local(pos, entry, l);
    let exactly = Turn::of(a).back().turned(was);
    let x = if across {
        local.x.neg()
    } else {
        local.x
    };
    let y = if up {
        local.y.abs()
    } else {
        local.y
    };
    lemma_neg_close(local.x);
    lemma_abs_exact(local.y);
    let mid = Vec3 { x, y, z: local.z };
    assert(Spot::of(mid) == mirrored(Spot::of(local), across, up));
    let near = mirrored(exactly, across, up);
    lemma_mirrored_close(Spot::of(local), exactly, l * 68real, across, up);
    lemma_back_reach(a, was, l);
    lemma_mirrored_reach(exactly, l * (101real / 100real), across, up);
    lemma_placed(mid, near, exit, l, t);
    let now = Spot::of(carried_position(pos, entry, exit)).minus(Spot::of(exit.translation));
    lemma_axes(exactly);
    lemma_axes(near);
    lemma_part_in(was, a, sideways());
    lemma_part_in(was, a, outwards());
    lemma_part_in(was, a, crosswise());
    let (off, m) = (l * 141real + t * 2real, l * (101real / 100real));
    lemma_part_out(now, near, b, sideways(), off, m);
    lemma_part_out(now, near, b, outwards(), off, m);
    lemma_part_out(now, near, b, crosswise(), off, m);
}

/// Taking the sign away is exact.
proof fn lemma_abs_exact(a: Scalar)
    requires
        a.is_finite(),
    ensures
        a.abs().is_finite(),
        exact(a.abs()) == size(exact(a)),
{
    lemma_exact(a);
    lemma_exact(a.abs());
    lemma_exact_ordered(a, a);
    lemma_units_increase(0, a.magnitude() as int);
}

/// How a body is turned that comes out: whatever pointed along the axes of the entry now
/// points along those of the exit. Opposing faces turn it half round the third axis
/// besides.
pub proof fn law_comes_out_turned(
    rotation: Quat,
    entry: Quat,
    exit: Quat,
    turns: HalfTurns,
    u: Spot,
    l: real,
)
    requires
        is_unit(rotation),
        is_unit(entry),
        is_unit(exit),
        are_half_turns(turns),
        reaches(u, l),
        l > 0real,
    ensures
        ({
            let r = carried_rotation(rotation, entry, exit, turns);
            let was = Turn::of(rotation).turned(u);
            let now = Turn::of(r).turned(u);
            let (x, y) = (part(was, entry, sideways()), part(was, entry, outwards()));
            let opposed = needs_x_flip(entry, exit);
            &&& is_nearly_unit(r)
            &&& size(
                part(now, exit, sideways()) - (if opposed {
                    -x
                } else {
                    x
                }),
            ) * grains() <= l * 700real
            &&& size(
                part(now, exit, outwards()) - (if opposed {
                    -y
                } else {
                    y
                }),
            ) * grains() <= l * 700real
            &&& size(part(now, exit, crosswise()) - part(was, entry, crosswise())) * grains() <= l
                * 700real
        }),
{
    let was = Turn::of(rotation).turned(u);
    let (a, c) = (Turn::of(exit), Turn::of(entry).back());
    let local = c.turned(was);
    lemma_halves(local);
    if needs_x_flip(entry, exit) {
        lemma_halves_near(turns);
        lemma_carry(entry, turns.z, exit, half_z());
        let q = exit.compose(turns.z).compose(entry.inverse());
        let t = after(after(a, half_z()), c);
        lemma_after(after(a, half_z()), c, was);
        lemma_after(a, half_z(), local);
        lemma_half_reach_of(half_z(), entry, was);
        lemma_turned_on(rotation, entry, exit, q, t, half_z().turned(local), u, l);
    } else {
        lemma_carry_straight(entry, exit);
        let q = exit.compose(entry.inverse());
        let t = after(a, c);
        lemma_after(a, c, was);
        lemma_turned_on(rotation, entry, exit, q, t, local, u, l);
    }
}

/// Half a turn keeps what is brought back as long as it was.
proof fn lemma_half_reach_of(half: Turn, entry: Quat, u: Spot)
    requires
        half.norm() == 1real,
    ensures
        ({
            let local = Turn::of(entry).back().turned(u);
            half.turned(local).dot(half.turned(local)) == local.dot(local)
        }),
{
    let local = Turn::of(entry).back().turned(u);
    lemma_turn_keeps(half, local, local);
}

proof fn lemma_turned_on(
    rotation: Quat,
    entry: Quat,
    exit: Quat,
    q: Quat,
    t: Turn,
    mid: Spot,
    u: Spot,
    l: real,
)
    requires
        is_unit(rotation),
        is_unit(entry),
        is_unit(exit),
        is_nearly_unit(q),
        apart(Turn::of(q), t, 60real / grains()),
        size(t.norm() - 1real) * grains() <= 401real,
        reaches(u, l),
        l > 0real,
        t.turned(Turn::of(rotation).turned(u)) == Turn::of(exit).turned(mid),
        ({
            let local = Turn::of(entry).back().turned(Turn::of(rotation).turned(u));
            mid.dot(mid) == local.dot(local)
        }),
    ensures
        ({
            let r = q.compose(rotation);
            let was = Turn::of(rotation).turned(u);
            let now = Turn::of(r).turned(u);
            let local = Turn::of(entry).back().turned(was);
            &&& is_nearly_unit(r)
            &&& local.x == part(was, entry, sideways())
            &&& local.y == part(was, entry, outwards())
            &&& local.z == part(was, entry, crosswise())
            &&& size(part(now, exit, sideways()) - mid.x) * grains() <= l * 700real
            &&& size(part(now, exit, outwards()) - mid.y) * grains() <= l * 700real
            &&& size(part(now, exit, crosswise()) - mid.z) * grains() <= l * 700real
        }),
{
    let g = grains();
    let b = Turn::of(rotation);
    let r = q.compose(rotation);
    lemma_compose_close(q, rotation);
    let k = 1001real / 1000real;
    assert(k * k == 1002001real / 1000000real);
    lemma_apart_after(Turn::of(q), t, b, 60real / g, k);
    let e = 28real / g + (60real / g) * k;
    let p = after(t, b);
    lemma_apart_round(Turn::of(r), after(Turn::of(q), b), p, 28real / g, (60real / g) * k);
    lemma_apart_wider(Turn::of(r), p, e, 89real / g);
    lemma_after_norm(t, b);
    lemma_product_within(t.norm(), b.norm());
    lemma_near_norm(Turn::of(r), p, 89real / g);
    lemma_after(t, b, u);
    let was = b.turned(u);
    let now = Turn::of(r).turned(u);
    let h = 1005real / 1000real;
    assert(h * h == 1010025real / 1000000real);
    lemma_turned_near(Turn::of(r), p, u, 89real / g, h, l);
    let m = (((89real / g) * l) * h) * 2real;
    let d = now.minus(t.turned(was));
    lemma_reach_close(d, m);
    assert(d.minus(origin()) == d);
    let n = (89real / g) * l;
    assert(n * g == l * 89real) by {
        lemma_quotient_back(89real, g);
        lemma_regroup(89real / g, l, g);
    }
    assert(m == n * (201real / 100real));
    lemma_close_wider(now, t.turned(was), m * g, l * 180real);
    // The parts.
    let local = Turn::of(entry).back().turned(was);
    lemma_axes(local);
    lemma_axes(mid);
    lemma_part_in(was, entry, sideways());
    lemma_part_in(was, entry, outwards());
    lemma_part_in(was, entry, crosswise());
    lemma_inverse(rotation);
    lemma_back_reach(rotation.inverse(), u, l);
    assert(Turn::of(rotation.inverse()).back() == b);
    let i = l * (101real / 100real);
    lemma_back_reach(entry, was, i);
    let o = i * (101real / 100real);
    assert(reaches(mid, o));
    lemma_part_out(now, mid, exit, sideways(), l * 180real, o);
    lemma_part_out(now, mid, exit, outwards(), l * 180real, o);
    lemma_part_out(now, mid, exit, crosswise(), l * 180real, o);
}

/// A product of two lengths.
proof fn lemma_product_within(m: real, n: real)
    requires
        size(m - 1real) * grains() <= 401real,
        size(n - 1real) * grains() <= 64real,
    ensures
        (m * n) * 1000real <= 1002real,
        (m * n) * 1000real >= 998real,
{
    let (a, b) = (m - 1real, n - 1real);
    lemma_spread(1real, a, n);
    lemma_spread(1real, b, a);
    lemma_size_of_product(a * 10000real, b * 10000real, 1real, 1real);
    lemma_regroup(a, 10000real, b * 10000real);
    lemma_regroup(a, b, 10000real);
    lemma_swap(a, n);
}

/// What is as long as one, times its square.
proof fn lemma_near_one(k: real, n: real)
    requires
        k > 0real,
        is_little((k * k) * n - 1real, 15real),
        size(n - 1real) * grains() <= 700real,
    ensures
        size(k - 1real) * grains() <= 730real,
{
    let g = grains();
    let kk = k * k;
    assert(kk <= 2real) by {
        lemma_square(k);
        lemma_scale_ordered(kk, 9real / 10real, n);
    }
    lemma_square(k);
    lemma_size_of_product(kk, (n - 1real) * g, 2real, 700real);
    lemma_regroup(kk, n - 1real, g);
    lemma_spread_minus(n, 1real, kk);
    assert(size(kk - 1real) * g <= 1415real);
    assert(kk <= 1001real / 1000real && kk >= 999real / 1000real);
    lemma_size_of_product(kk * 1000real, (n - 1real) * g, 1001real, 700real);
    lemma_regroup(kk, 1000real, (n - 1real) * g);
    lemma_regroup(kk, (n - 1real) * g, 1000real);
    assert((kk * 1000real) * ((n - 1real) * g) == ((kk * (n - 1real)) * g) * 1000real);
    assert(size(kk - 1real) * g <= 717real);
    lemma_spread(k, 1real, k - 1real);
    lemma_spread_minus(k, 1real, k);
    lemma_swap(k - 1real, k + 1real);
    assert((k - 1real) * (k + 1real) == kk - 1real);
    if k >= 1real {
        lemma_scale_ordered(k - 1real, 1real, k + 1real);
    } else {
        lemma_scale_ordered(1real - k, 1real, k + 1real);
        lemma_spread_minus(1real, k, k + 1real);
        lemma_spread_minus(k, 1real, k + 1real);
    }
}

/// Where a disc's face looks is where the disc's rotation turns the second axis, and is
/// as long as one.
pub proof fn law_face_is_the_second_axis(rotation: Quat)
    requires
        is_unit(rotation),
    ensures
        face(rotation) == face_or_zero(rotation),
        face(rotation).is_finite(),
        is_little(Spot::of(face(rotation)).dot(Spot::of(face(rotation))) - 1real, 40real),
        close(Spot::of(face(rotation)), Turn::of(rotation).turned(outwards()), 2000real),
{
    let g = grains();
    let c = rotation.rotate(up());
    let t = Turn::of(rotation);
    lemma_exact_constants();
    let s = 1real / 65real;
    lemma_quotient_back(1real, 65real);
    assert(Spot::of(up()) == outwards());
    lemma_axes(outwards());
    lemma_rotate_close(rotation, up(), s);
    let x = t.turned(outwards());
    lemma_turn_keeps(t, outwards(), outwards());
    lemma_norm_twice(t.norm(), 64real);
    lemma_close_wider(Spot::of(c), x, s * 4146real, 64real);
    let m = 101real / 100real;
    assert(m * m == 10201real / 10000real);
    lemma_length_near(Spot::of(c), x, 64real, m);
    let n = Spot::of(c).dot(Spot::of(c));
    assert(size(n - 1real) * g <= 700real);
    lemma_scaled(c);
    let k = one().over(c.length());
    let f = c.scale(k);
    lemma_direction_length(f, c, exact(k));
    lemma_near_one(exact(k), n);
    let e = Spot::of(c);
    lemma_square(e.x);
    lemma_square(e.y);
    lemma_square(e.z);
    lemma_unit_part(e.x);
    lemma_unit_part(e.y);
    lemma_unit_part(e.z);
    lemma_face_part(e.x, exact(k));
    lemma_face_part(e.y, exact(k));
    lemma_face_part(e.z, exact(k));
    lemma_parts_close(Spot::of(f), e, 760real, 1400real);
    lemma_way_round(Spot::of(f), e, x, 1400real, 64real);
    lemma_close_wider(Spot::of(f), x, 1464real, 2000real);
}

proof fn lemma_face_part(x: real, k: real)
    requires
        size(x) * 64real <= 65real,
        size(k - 1real) * grains() <= 730real,
    ensures
        size(x * k - x) * grains() <= 750real,
{
    lemma_unit_product((k - 1real) * grains(), x, 730real, 65real);
    lemma_regroup(k - 1real, grains(), x);
    lemma_spread_minus(k, 1real, x);
    lemma_swap(k, x);
}

/// How much two faces have in common, as it comes out.
proof fn lemma_dot_near(a: Vec3, b: Vec3, u: Spot, v: Spot)
    requires
        a.is_finite(),
        b.is_finite(),
        is_little(Spot::of(a).dot(Spot::of(a)) - 1real, 40real),
        is_little(Spot::of(b).dot(Spot::of(b)) - 1real, 40real),
        close(Spot::of(a), u, 2000real),
        close(Spot::of(b), v, 2000real),
    ensures
        within(a.dot(b), u.dot(v), 8100real),
{
    let g = grains();
    let (x, y) = (Spot::of(a), Spot::of(b));
    lemma_axis_parts(x, 40real);
    lemma_axis_parts(y, 40real);
    lemma_unit_term(a.x, b.x);
    lemma_unit_term(a.y, b.y);
    lemma_unit_term(a.z, b.z);
    let (p, q, r) = (a.x.times(b.x), a.y.times(b.y), a.z.times(b.z));
    let t = 2real;
    lemma_plus_within(p, x.x * y.x, t, q, x.y * y.y, t, 5real);
    lemma_plus_within(p.plus(q), x.x * y.x + x.y * y.y, 9real, r, x.z * y.z, t, 7real);
    assert(within(a.dot(b), x.dot(y), 18real));
    let (d, e) = (x.minus(u).scale(g), y.minus(v).scale(g));
    lemma_both_ways(d, y, 2000real, 2real);
    lemma_both_ways(e, x, 2000real, 2real);
    lemma_both_ways(d, e, 2000real, 2000real);
    lemma_dot_scale(x.minus(u), g, y);
    lemma_dot_minus(x, u, y);
    lemma_dot_scale(y.minus(v), g, x);
    lemma_dot_minus(y, v, x);
    lemma_dot_scale(x.minus(u), g, e);
    lemma_dot_swap(x.minus(u), e);
    lemma_dot_scale(y.minus(v), g, x.minus(u));
    lemma_dot_minus(y, v, x.minus(u));
    lemma_dot_swap(y, x.minus(u));
    lemma_dot_swap(v, x.minus(u));
    lemma_dot_minus(x, u, v);
    lemma_dot_swap(x, y);
    lemma_dot_swap(x, v);
    lemma_dot_swap(u, v);
}

/// A product of two coordinates of what is as long as one.
pub proof fn lemma_unit_term(a: Scalar, b: Scalar)
    requires
        a.is_finite(),
        b.is_finite(),
        size(exact(a)) * 64real <= 65real,
        size(exact(b)) * 64real <= 65real,
    ensures
        size(exact(a) * exact(b)) <= 2real,
        within(a.times(b), exact(a) * exact(b), 2real),
{
    lemma_unit_product(exact(a), exact(b), 65real / 64real, 65real);
    lemma_quotient_back(65real, 64real);
    lemma_times_close(a, b, 2real);
}

/// What two vectors have in common, whichever way they point.
pub proof fn lemma_both_ways(p: Spot, q: Spot, e: real, f: real)
    requires
        e >= 0real,
        f >= 0real,
        p.dot(p) <= e * e,
        q.dot(q) <= f * f,
    ensures
        size(p.dot(q)) <= e * f,
        size(q.dot(p)) <= e * f,
{
    lemma_in_common(p, q, e, f);
    let o = p.scale(-1real);
    lemma_dot_scale(p, -1real, o);
    lemma_dot_swap(p, o);
    lemma_dot_scale(p, -1real, p);
    lemma_in_common(o, q, e, f);
    lemma_dot_scale(p, -1real, q);
    lemma_dot_swap(p, q);
}

/// Whether the faces of two discs oppose each other goes by the angle between them: they
/// do if it is more than a third of a turn.
pub proof fn law_opposing_faces(entry: Quat, exit: Quat)
    requires
        is_unit(entry),
        is_unit(exit),
    ensures
        ({
            let m = Turn::of(entry).turned(outwards()).dot(Turn::of(exit).turned(outwards()));
            &&& (m * 2real + 1real) * grains() < -20000real ==> needs_x_flip(entry, exit)
            &&& (m * 2real + 1real) * grains() > 20000real ==> !needs_x_flip(entry, exit)
        }),
{
    law_face_is_the_second_axis(entry);
    law_face_is_the_second_axis(exit);
    let (a, b) = (face_or_zero(entry), face_or_zero(exit));
    lemma_dot_near(
        a,
        b,
        Turn::of(entry).turned(outwards()),
        Turn::of(exit).turned(outwards()),
    );
    let h = minus_half();
    lemma_exact(h);
    lemma_whole();
    lemma_units_of_power(126);
    lemma_pow2_unfold(149);
    lemma_exact_ordered(a.dot(b), h);
}

/// How a view through a pair lies to the exit: as the viewer lies to the entry, after half
/// a turn about the way that the discs face; and it looks as the viewer does, after half
/// a turn about the third axis.
pub proof fn law_view_lies_as_the_viewer(
    viewer: Pose,
    entry: Pose,
    exit: Pose,
    turns: HalfTurns,
    l: real,
    t: real,
)
    requires
        is_pair(entry, exit, turns),
        is_unit(viewer.rotation),
        is_near(viewer, entry, exit, l, t),
    ensures
        ({
            let view = portal_virtual_transform(viewer, entry, exit, turns);
            let (a, b) = (entry.rotation, exit.rotation);
            let was = Spot::of(viewer.translation).minus(Spot::of(entry.translation));
            let now = Spot::of(view.position).minus(Spot::of(exit.translation));
            let seen = Spot::of(viewer.rotation.rotate(ahead()));
            let sees = Spot::of(view.forward);
            let off = l * 700real + t * 4real;
            &&& view.position.is_finite()
            &&& size(part(now, b, sideways()) + part(was, a, sideways())) * grains() <= off
            &&& size(part(now, b, outwards()) - part(was, a, outwards())) * grains() <= off
            &&& size(part(now, b, crosswise()) + part(was, a, crosswise())) * grains() <= off
            &&& view.forward.is_finite()
            &&& size(part(sees, b, sideways()) + part(seen, a, sideways())) * grains() <= 700real
            &&& size(part(sees, b, outwards()) + part(seen, a, outwards())) * grains() <= 700real
            &&& size(part(sees, b, crosswise()) - part(seen, a, crosswise())) * grains() <= 700real
        }),
{
    let view = portal_virtual_transform(viewer, entry, exit, turns);
    let (a, b) = (entry.rotation, exit.rotation);
    let was = Spot::of(viewer.translation).minus(Spot::of(entry.translation));
    let now = Spot::of(view.position).minus(Spot::of(exit.translation));
    lemma_position(viewer, entry, exit, turns, l, t);
    let local = Turn::of(a).back().turned(was);
    let mid = local.half_turned_y();
    let off = l * 230real + t * 2real;
    assert(now.minus(Turn::of(b).turned(mid)) == Spot::of(view.position).minus(
        seen_from(Spot::of(viewer.translation), entry, exit),
    ));
    let c = 101real / 100real;
    lemma_back_reach(a, was, l);
    lemma_turned_reach_half(local, l * c);
    lemma_view_parts(was, now, a, b, local, mid, off, l * c);
    // The way that it looks.
    let looks = viewer.rotation.rotate(ahead());
    lemma_ahead(viewer);
    let u = Spot::of(looks);
    let s = 1real / 63real;
    lemma_quotient_back(1real, 63real);
    lemma_close_wider(u, origin(), grains() + 130real, (s * 64real) * grains());
    lemma_reach_close(u, s * 64real);
    lemma_carried_z(a, turns.z, b, looks, s);
    let fore = Turn::of(a).back().turned(u);
    let after = fore.half_turned_z();
    lemma_back_reach(a, u, s * 64real);
    lemma_turned_reach_half(fore, (s * 64real) * c);
    lemma_view_parts(
        u,
        Spot::of(view.forward),
        a,
        b,
        fore,
        after,
        s * 13840real,
        (s * 64real) * c,
    );
}

proof fn lemma_turned_reach_half(u: Spot, l: real)
    requires
        reaches(u, l),
    ensures
        reaches(u.half_turned_y(), l),
        reaches(u.half_turned_z(), l),
{
    let g = grains();
    lemma_reach_close(u, l);
    lemma_half_turns_keep(u, origin(), l * g);
    assert(origin().half_turned_y() == origin());
    assert(origin().half_turned_z() == origin());
    lemma_reach_close(u.half_turned_y(), l);
    lemma_reach_close(u.half_turned_z(), l);
}

proof fn lemma_view_parts(
    was: Spot,
    now: Spot,
    a: Quat,
    b: Quat,
    local: Spot,
    mid: Spot,
    off: real,
    m: real,
)
    requires
        is_unit(a),
        is_unit(b),
        local == Turn::of(a).back().turned(was),
        close(now, Turn::of(b).turned(mid), off),
        reaches(mid, m),
    ensures
        local.x == part(was, a, sideways()),
        local.y == part(was, a, outwards()),
        local.z == part(was, a, crosswise()),
        size(part(now, b, sideways()) - mid.x) * grains() <= off * 2real + m * 131real,
        size(part(now, b, outwards()) - mid.y) * grains() <= off * 2real + m * 131real,
        size(part(now, b, crosswise()) - mid.z) * grains() <= off * 2real + m * 131real,
{
    lemma_axes(local);
    lemma_axes(mid);
    lemma_part_in(was, a, sideways());
    lemma_part_in(was, a, outwards());
    lemma_part_in(was, a, crosswise());
    lemma_part_out(now, mid, b, sideways(), off, m);
    lemma_part_out(now, mid, b, outwards(), off, m);
    lemma_part_out(now, mid, b, crosswise(), off, m);
}

/// Whether a place is at most `l` off a disc, and both are in measure.
pub open spec fn is_off_by(point: Vec3, disc: Pose, l: real) -> bool {
    &&& point.is_finite()
    &&& disc.translation.is_finite()
    &&& is_unit(disc.rotation)
    &&& reaches(Spot::of(point).minus(Spot::of(disc.translation)), l)
    &&& 1real <= l * 1099511627776real
    &&& l <= widest()
}

/// How far in front of a disc a place is: its part along where the face looks.
pub proof fn law_along_is_how_far_in_front(point: Vec3, disc: Pose, l: real)
    requires
        is_off_by(point, disc, l),
    ensures
        within(
            along(point, disc),
            part(Spot::of(point).minus(Spot::of(disc.translation)), disc.rotation, outwards()),
            l * 2100real,
        ),
{
    let g = grains();
    let d = point.minus(disc.translation);
    let e = Spot::of(point).minus(Spot::of(disc.translation));
    lemma_reach_parts(e, l);
    lemma_minus_close(point.x, disc.translation.x, l);
    lemma_minus_close(point.y, disc.translation.y, l);
    lemma_minus_close(point.z, disc.translation.z, l);
    lemma_facing(d, e, disc.rotation, l);
}

/// What a vector has along where a face looks.
pub proof fn lemma_facing(d: Vec3, e: Spot, rotation: Quat, l: real)
    requires
        is_unit(rotation),
        within(d.x, e.x, l),
        within(d.y, e.y, l),
        within(d.z, e.z, l),
        reaches(e, l),
        1real <= l * 1099511627776real,
        l <= widest(),
    ensures
        within(d.dot(face(rotation)), part(e, rotation, outwards()), l * 2100real),
{
    let g = grains();
    lemma_reach_parts(e, l);
    law_face_is_the_second_axis(rotation);
    let n = face(rotation);
    let (w, v) = (Spot::of(n), Turn::of(rotation).turned(outwards()));
    lemma_axis_parts(w, 40real);
    lemma_along_term(d.x, e.x, n.x, l);
    lemma_along_term(d.y, e.y, n.y, l);
    lemma_along_term(d.z, e.z, n.z, l);
    let (p, q, r) = (d.x.times(n.x), d.y.times(n.y), d.z.times(n.z));
    lemma_plus_within(p, e.x * w.x, l * 4real, q, e.y * w.y, l * 4real, l * 3real);
    lemma_plus_within(
        p.plus(q),
        e.x * w.x + e.y * w.y,
        l * 11real,
        r,
        e.z * w.z,
        l * 4real,
        l * 4real,
    );
    let b = w.minus(v).scale(g);
    lemma_both_ways(b, e, 2000real, l);
    lemma_dot_scale(w.minus(v), g, e);
    lemma_dot_minus(w, v, e);
    lemma_dot_swap(w, e);
    lemma_dot_swap(v, e);
}

pub proof fn lemma_along_term(a: Scalar, x: real, n: Scalar, l: real)
    requires
        within(a, x, l),
        size(x) <= l,
        n.is_finite(),
        size(exact(n)) * 64real <= 65real,
        1real <= l * 1099511627776real,
        l <= widest(),
    ensures
        within(a.times(n), x * exact(n), l * 4real),
        size(x * exact(n)) * 64real <= l * 65real,
{
    let g = grains();
    let (u, y) = (exact(a), exact(n));
    lemma_unit_product((u - x) * g, y, l, 65real);
    lemma_regroup(u - x, g, y);
    lemma_spread_minus(u, x, y);
    lemma_unit_product(x, y, l, 65real);
    lemma_times_close(a, n, l * 2real);
}

/// What goes through a disc changes sides: it was in front and is not any more, or is in
/// front now and was not. What stays on one side does not go through.
pub proof fn law_passing_changes_sides(
    prev_pos: Vec3,
    pos: Vec3,
    prev_entry: Pose,
    entry: Pose,
    l: real,
)
    requires
        is_off_by(prev_pos, prev_entry, l),
        is_off_by(pos, entry, l),
        passes(prev_pos, pos, prev_entry, entry),
    ensures
        ({
            let was = part(
                Spot::of(prev_pos).minus(Spot::of(prev_entry.translation)),
                prev_entry.rotation,
                outwards(),
            );
            let now = part(
                Spot::of(pos).minus(Spot::of(entry.translation)),
                entry.rotation,
                outwards(),
            );
            let off = l * 2100real;
            ||| was * grains() >= -off && now * grains() <= off
            ||| was * grains() <= off && now * grains() >= -off
        }),
{
    law_along_is_how_far_in_front(prev_pos, prev_entry, l);
    law_along_is_how_far_in_front(pos, entry, l);
    lemma_exact_constants();
    lemma_exact_ordered(zero(), along(prev_pos, prev_entry));
    lemma_exact_ordered(zero(), along(pos, entry));
}

/// A body that steps into a portal that does not move comes out of the other one where
/// it was before the first, with all that pointed along the axes of the first along those
/// of the other one, and moving away from it as it moved towards the first.
pub proof fn law_traveler_comes_out(
    portals: Seq<Portal>,
    body: TravelerView,
    turns: HalfTurns,
    entry: Portal,
    exit: Portal,
    l: real,
    t: real,
    m: real,
    u: Spot,
    k: real,
)
    requires
        pair_of(portals) matches Some(pair) && entered_fixed(
            pair,
            kept_lockout(portals, body.pose.translation, body.lockout),
            before(body),
            body.pose.translation,
        ) == Some((entry, exit)),
        is_unit(entry.pose.rotation),
        is_unit(exit.pose.rotation),
        is_unit(body.pose.rotation),
        are_half_turns(turns),
        start(body, entry).is_finite(),
        entry.pose.translation.is_finite(),
        reaches(Spot::of(start(body, entry)).minus(Spot::of(entry.pose.translation)), l),
        is_scale(l / 65real),
        1real <= l * 1048576real,
        l <= widest(),
        is_small(exit.pose.translation, t),
        1real <= t * limit(),
        t <= widest(),
        body.velocity.is_finite(),
        reaches(Spot::of(body.velocity), m),
        is_scale(m / 65real),
        reaches(u, k),
        k > 0real,
    ensures
        ({
            let after = traveler_step(portals, body, turns);
            let (a, b) = (entry.pose.rotation, exit.pose.rotation);
            let was = Spot::of(start(body, entry)).minus(Spot::of(entry.pose.translation));
            let now = Spot::of(after.pose.translation).minus(Spot::of(exit.pose.translation));
            let (v, out) = (Spot::of(body.velocity), Spot::of(after.velocity));
            let shown = Turn::of(body.pose.rotation).turned(u);
            let shows = Turn::of(after.pose.rotation).turned(u);
            let off = l * 800real + t * 4real;
            &&& after.prev == Some(after.pose.translation)
            &&& size(part(now, b, sideways()) - part(was, a, sideways())) * grains() <= off
            &&& size(part(now, b, outwards()) - part(was, a, outwards())) * grains() <= off
            &&& size(part(now, b, crosswise()) - part(was, a, crosswise())) * grains() <= off
            &&& size(out.dot(out) - v.dot(v)) * grains() <= (m * m) * 2000real
            &&& size(part(out, b, sideways()) - part(v, a, sideways())) * grains() <= m * 700real
            &&& size(part(out, b, outwards()) + part(v, a, outwards())) * grains() <= m * 700real
            &&& size(part(out, b, crosswise()) + part(v, a, crosswise())) * grains() <= m * 700real
            &&& size(part(shows, b, sideways()) - part(shown, a, sideways())) * grains() <= k
                * 700real
            &&& size(part(shows, b, outwards()) - part(shown, a, outwards())) * grains() <= k
                * 700real
            &&& size(part(shows, b, crosswise()) - part(shown, a, crosswise())) * grains() <= k
                * 700real
        }),
{
    let g = grains();
    let (a, b) = (entry.pose.rotation, exit.pose.rotation);
    lemma_halves_near(turns);
    lemma_halves(Turn::of(a).back().turned(Spot::of(body.velocity)));
    lemma_carried_parts(body.velocity, a, turns.x, b, half_x(), m);
    lemma_carry_straight(a, b);
    let q = b.compose(a.inverse());
    let (x, c) = (Turn::of(b), Turn::of(a).back());
    let p = after(x, c);
    let shown = Turn::of(body.pose.rotation).turned(u);
    lemma_after(x, c, shown);
    lemma_turned_on(body.pose.rotation, a, b, q, p, c.turned(shown), u, k);
    // Where it is.
    let from = start(body, entry);
    let d = from.minus(entry.pose.translation);
    let was = Spot::of(from).minus(Spot::of(entry.pose.translation));
    lemma_reach_parts(was, l);
    lemma_minus_close(from.x, entry.pose.translation.x, l);
    lemma_minus_close(from.y, entry.pose.translation.y, l);
    lemma_minus_close(from.z, entry.pose.translation.z, l);
    lemma_parts_close(Spot::of(d), was, l, l * 2real);
    let h = l * (1001real / 1000real);
    lemma_reach_near(Spot::of(d), was, l * 2real, l, h);
    lemma_quotient_back(l, 65real);
    lemma_quotient_back(h, 65real);
    lemma_quotient_back(60real, g);
    lemma_rotate_near(q, p, d, 60real / g, h);
    let w = Spot::of(q.rotate(d));
    assert((h * ((60real / g) * g)) * 3real + h * 64real == h * 244real);
    lemma_turned_close(p, Spot::of(d), was, l * 2real);
    assert(p.norm() * (l * 2real) <= l * 3real) by {
        lemma_scale_ordered(l * 2real, p.norm(), 3real / 2real);
        lemma_swap(l * 2real, p.norm());
    }
    lemma_close_wider(p.turned(Spot::of(d)), p.turned(was), p.norm() * (l * 2real), l * 3real);
    lemma_way_round(w, p.turned(Spot::of(d)), p.turned(was), h * 244real, l * 3real);
    lemma_after(x, c, was);
    let local = c.turned(was);
    let i = l * (101real / 100real);
    lemma_back_reach(a, was, l);
    lemma_inverse(b);
    lemma_back_reach(b.inverse(), local, i);
    assert(Turn::of(b.inverse()).back() == x);
    lemma_reach_near(
        w,
        x.turned(local),
        h * 244real + l * 3real,
        i * (101real / 100real),
        l * 2real,
    );
    lemma_reach_parts(w, l * 2real);
    let turned = q.rotate(d);
    let top = t + l * 2real;
    lemma_plus_close(exit.pose.translation.x, turned.x, top);
    lemma_plus_close(exit.pose.translation.y, turned.y, top);
    lemma_plus_close(exit.pose.translation.z, turned.z, top);
    let out = exit.pose.translation.plus(turned);
    let now = Spot::of(out).minus(Spot::of(exit.pose.translation));
    lemma_parts_close(now, w, top, top * 2real);
    let far = h * 244real + l * 3real;
    lemma_way_round(now, w, x.turned(local), top * 2real, far);
    let off = l * 260real + t * 2real;
    lemma_close_wider(now, x.turned(local), top * 2real + far, off);
    lemma_view_parts(was, now, a, b, local, local, off, i);
}

/// Where a body was a step ago; where it is, if it was nowhere.
pub open spec fn before(body: TravelerView) -> Vec3 {
    match body.prev {
        Some(p) => p,
        None => body.pose.translation,
    }
}

/// The place that a body is carried from: that of a step ago if it was in front of the
/// disc then, else that of now.
pub open spec fn start(body: TravelerView, entry: Portal) -> Vec3 {
    if along(before(body), entry.pose).gt(zero()) {
        before(body)
    } else {
        body.pose.translation
    }
}

} // verus!

//! How players step through portals and stand over them, set against exact numbers.
//!
//! How far a result is off is counted in grains.

use crate::closeness::{
    exact, grains, lemma_clamp_close, lemma_exact, lemma_exact_constants, lemma_exact_ordered,
    lemma_minus_close, lemma_neg_close, lemma_over_close, lemma_plus_within, lemma_quotient_back,
    lemma_size_of_product, lemma_sqrt_close, lemma_times_close, lemma_whole, size, within,
};
use crate::measuring::{lemma_normal_part, lemma_root_near};
use crate::rounding::lemma_units_increase;
use crate::scalar::{lemma_units_of_power, one, zero};
use crate::spells::carrying::{is_off_by, law_along_is_how_far_in_front, outwards, part};
use crate::spells::meeting::{lemma_abs, lemma_tiny};
use crate::spells::passing::{
    between, is_round, lemma_inside_the_rim, lemma_not_nan, lemma_off_the_rim, lemma_part_reach,
    lemma_point_on_the_way, place_of,
};
use crate::spells::portal::{
    along, anchor_at_crossing, anchor_target, camera_offset, capsule_radius, face, heading,
    horizontal_disc_depth, is_level, over_disc, player_passes, portal_radius, signum, tiny,
    velocity_at_exit, PlayerCrossing,
};
use crate::turning::{
    close, is_small, lemma_cancel, lemma_opposite, lemma_parts_close, lemma_reach_parts,
    lemma_regroup, lemma_scale_ordered, lemma_spread_minus, lemma_square, lemma_squares_ordered,
    lemma_swap, Spot, Turn,
};
use crate::vector::{Pose, Vec3};
use vstd::arithmetic::power2::{lemma2_to64, lemma_pow2_adds};
use vstd::prelude::*;

verus! {

/// The point of a player at `pos` that a disc goes by: the middle over a level one, the
/// eyes before an upright one.
pub open spec fn anchor(pos: Vec3, entry: Pose) -> Vec3 {
    if is_level(face(entry.rotation)) {
        pos.plus(Vec3::origin())
    } else {
        pos.plus(camera_offset())
    }
}

/// Whether a player who goes from `prev_pos` to `pos` is near a disc.
pub open spec fn strides_by(prev_pos: Vec3, pos: Vec3, entry: Pose, l: real) -> bool {
    &&& is_off_by(anchor(prev_pos, entry), entry, l)
    &&& is_off_by(anchor(pos, entry), entry, l)
    &&& is_small(anchor(prev_pos, entry), l / 2real)
    &&& is_small(anchor(pos, entry), l / 2real)
    &&& l >= 2real
    &&& l <= 1048576real
}

/// How far in front of a disc a player at `pos` is, exactly.
pub open spec fn stands_off(pos: Vec3, entry: Pose) -> real {
    part(place_of(anchor(pos, entry), entry), entry.rotation, outwards())
}

/// How wide a player is, and how deep a level disc, roughly.
proof fn lemma_shoulders()
    ensures
        capsule_radius().is_finite(),
        0real <= exact(capsule_radius()) <= 1real,
        horizontal_disc_depth().is_finite(),
        exact(horizontal_disc_depth()) == 2real,
{
    let (a, b) = (capsule_radius(), horizontal_disc_depth());
    lemma_exact(a);
    lemma_exact(b);
    lemma_whole();
    lemma2_to64();
    lemma_units_of_power(127);
    lemma_units_of_power(128);
    lemma_pow2_adds(149, 1);
    lemma_units_increase(0, a.magnitude() as int);
    lemma_units_increase(a.magnitude() as int, 127int * 0x80_0000int);
}

/// Where a player is taken is on the way.
proof fn lemma_taken(prev_pos: Vec3, pos: Vec3, entry: Pose, l: real) -> (t: real)
    requires
        strides_by(prev_pos, pos, entry, l),
    ensures
        ({
            let at = anchor_at_crossing(prev_pos, pos, entry).minus(entry.translation);
            &&& 0real <= t <= 1real
            &&& at.is_finite()
            &&& close(
                Spot::of(at),
                between(
                    place_of(anchor(prev_pos, entry), entry),
                    place_of(anchor(pos, entry), entry),
                    t,
                ),
                l * 25real,
            )
        }),
{
    let (p, q) = (anchor(prev_pos, entry), anchor(pos, entry));
    law_along_is_how_far_in_front(p, entry, l);
    law_along_is_how_far_in_front(q, entry, l);
    lemma_part_reach(place_of(p, entry), entry, l);
    lemma_part_reach(place_of(q, entry), entry, l);
    let (a, b) = (along(p, entry), along(q, entry));
    lemma_minus_close(b, a, l * 5real);
    let target = anchor_target(entry, a);
    lemma_shoulders();
    lemma_exact_constants();
    lemma_exact(zero());
    lemma_neg_close(one());
    if !is_level(face(entry.rotation)) {
        lemma_times_close(capsule_radius(), signum(a), 1real);
    }
    lemma_minus_close(target, a, l * 4real);
    let d = b.minus(a);
    let time = if d.abs().gt(tiny()) {
        target.minus(a).over(d).clamp(zero(), one())
    } else {
        zero()
    };
    if d.abs().gt(tiny()) {
        lemma_not_nan(target.minus(a), d);
        lemma_clamp_close(target.minus(a).over(d));
    }
    lemma_point_on_the_way(p, q, entry, time, l);
    exact(time)
}

/// A player goes through a level disc by changing sides within the rim, and through an
/// upright one by coming as near to it as a shoulder. Who stays on one side, or no nearer
/// than before, does not.
pub proof fn law_players_step_through(
    prev_pos: Vec3,
    pos: Vec3,
    entry: Pose,
    rho: real,
    l: real,
)
    requires
        strides_by(prev_pos, pos, entry, l),
        0real <= rho <= l,
        (exact(portal_radius()) - rho) * grains() > l * 4700real,
        is_round(place_of(anchor(prev_pos, entry), entry), entry.rotation, rho),
        is_round(place_of(anchor(pos, entry), entry), entry.rotation, rho),
    ensures
        ({
            let (was, now) = (stands_off(prev_pos, entry), stands_off(pos, entry));
            let off = l * 2100real;
            let near = exact(capsule_radius()) * grains();
            let steps = player_passes(prev_pos, pos, entry);
            if is_level(face(entry.rotation)) {
                &&& was * grains() > off && now * grains() < -off ==> steps
                &&& was * grains() < -off && now * grains() > off ==> steps
                &&& was * grains() > off && now * grains() > off ==> !steps
                &&& was * grains() < -off && now * grains() < -off ==> !steps
            } else {
                &&& size(was) * grains() > near + off && size(now) * grains() < near - off ==> steps
                &&& size(was) * grains() < near - off ==> !steps
                &&& size(now) * grains() > near + off ==> !steps
            }
        }),
{
    let (p, q) = (anchor(prev_pos, entry), anchor(pos, entry));
    let t = lemma_taken(prev_pos, pos, entry, l);
    law_along_is_how_far_in_front(p, entry, l);
    law_along_is_how_far_in_front(q, entry, l);
    let (a, b) = (along(p, entry), along(q, entry));
    lemma_shoulders();
    lemma_exact_constants();
    lemma_exact_ordered(zero(), a);
    lemma_exact_ordered(zero(), b);
    lemma_abs(a);
    lemma_abs(b);
    lemma_exact_ordered(capsule_radius(), a.abs());
    lemma_exact_ordered(b.abs(), capsule_radius());
    lemma_inside_the_rim(
        anchor_at_crossing(prev_pos, pos, entry).minus(entry.translation),
        place_of(p, entry),
        place_of(q, entry),
        t,
        entry,
        rho,
        l,
    );
}

/// A player who goes past a disc, beyond its rim, does not go through it.
pub proof fn law_players_step_past(prev_pos: Vec3, pos: Vec3, entry: Pose, w: Spot, l: real)
    requires
        strides_by(prev_pos, pos, entry, l),
        w.dot(w) == 1real,
        w.dot(Turn::of(entry.rotation).turned(outwards())) == 0real,
        ({
            let rim = exact(portal_radius());
            &&& (place_of(anchor(prev_pos, entry), entry).dot(w) - rim) * grains() > l * 4700real
            &&& (place_of(anchor(pos, entry), entry).dot(w) - rim) * grains() > l * 4700real
        }),
    ensures
        !player_passes(prev_pos, pos, entry),
{
    let t = lemma_taken(prev_pos, pos, entry, l);
    lemma_off_the_rim(
        anchor_at_crossing(prev_pos, pos, entry).minus(entry.translation),
        place_of(anchor(prev_pos, entry), entry),
        place_of(anchor(pos, entry), entry),
        t,
        entry,
        w,
        l,
    );
}

/// The floor gives way under what is over or under a disc inside the rim, within two of
/// it, and not under what is farther off.
pub proof fn law_floor_gives_way_over_a_disc(pos: Vec3, disc: Pose, rho: real, l: real)
    requires
        is_off_by(pos, disc, l),
        l >= 1real,
        l <= 1048576real,
        0real <= rho <= l,
        (exact(portal_radius()) - rho) * grains() > l * 4700real,
        is_round(place_of(pos, disc), disc.rotation, rho),
    ensures
        ({
            let over = over_disc(pos, disc.translation, face(disc.rotation));
            let high = size(part(place_of(pos, disc), disc.rotation, outwards()));
            &&& high * grains() < 2real * grains() - l * 2100real ==> over
            &&& high * grains() > 2real * grains() + l * 2100real ==> !over
        }),
{
    let at = pos.minus(disc.translation);
    lemma_seen(pos, disc, l);
    law_along_is_how_far_in_front(pos, disc, l);
    lemma_shoulders();
    lemma_abs(along(pos, disc));
    lemma_exact_ordered(along(pos, disc).abs(), horizontal_disc_depth());
    let p = place_of(pos, disc);
    lemma_inside_the_rim(at, p, p, 0real, disc, rho, l);
}

/// The floor does not give way beyond the rim.
pub proof fn law_floor_holds_beside_a_disc(pos: Vec3, disc: Pose, w: Spot, l: real)
    requires
        is_off_by(pos, disc, l),
        l >= 1real,
        l <= 1048576real,
        w.dot(w) == 1real,
        w.dot(Turn::of(disc.rotation).turned(outwards())) == 0real,
        (place_of(pos, disc).dot(w) - exact(portal_radius())) * grains() > l * 4700real,
    ensures
        !over_disc(pos, disc.translation, face(disc.rotation)),
{
    let at = pos.minus(disc.translation);
    lemma_seen(pos, disc, l);
    let p = place_of(pos, disc);
    lemma_off_the_rim(at, p, p, 0real, disc, w, l);
}

proof fn lemma_seen(pos: Vec3, disc: Pose, l: real)
    requires
        is_off_by(pos, disc, l),
    ensures
        ({
            let (at, p) = (pos.minus(disc.translation), place_of(pos, disc));
            &&& at.is_finite()
            &&& close(Spot::of(at), between(p, p, 0real), l * 25real)
        }),
{
    let (at, p) = (pos.minus(disc.translation), place_of(pos, disc));
    lemma_reach_parts(p, l);
    lemma_minus_close(pos.x, disc.translation.x, l);
    lemma_minus_close(pos.y, disc.translation.y, l);
    lemma_minus_close(pos.z, disc.translation.z, l);
    assert(between(p, p, 0real) == p);
    lemma_parts_close(Spot::of(at), p, l, l * 25real);
}

/// Whether what a player looks along is `d` long over the ground, and in measure.
pub open spec fn looks_over(forward: Vec3, d: real) -> bool {
    let (x, z) = (exact(forward.x), exact(forward.z));
    &&& forward.is_finite()
    &&& d * d == x * x + z * z
    &&& 1real <= d * 256real
    &&& d <= 1048576real
}

/// The yaw that a player is given faces along what the player looks along, over the
/// ground: to the side by its first coordinate, ahead by its third, both reversed.
pub proof fn law_heading_faces_along(forward: Vec3, d: real)
    requires
        looks_over(forward, d),
    ensures
        heading(forward) matches Some((sine, cosine)) && within(
            sine,
            -exact(forward.x) / d,
            20real,
        ) && within(cosine, -exact(forward.z) / d, 20real),
{
    let g = grains();
    let (x, z) = (exact(forward.x), exact(forward.z));
    let n = d * d;
    lemma_square(x);
    lemma_square(z);
    lemma_squares_ordered(1real, d * 256real);
    lemma_regroup(d, 256real, d * 256real);
    lemma_regroup(d, d, 256real);
    lemma_squares_ordered(d, 1048576real);
    lemma_times_close(forward.x, forward.x, n);
    lemma_times_close(forward.z, forward.z, n);
    let (p, q) = (forward.x.times(forward.x), forward.z.times(forward.z));
    lemma_plus_within(p, x * x, n, q, z * z, n, n * 2real);
    let flat = p.plus(q);
    assert(within(flat, n, n * 4real));
    lemma_tiny();
    lemma_exact_ordered(tiny(), flat);
    lemma_sqrt_close(flat);
    let s = flat.sqrt();
    let r = exact(s);
    let w = r * r;
    assert(size(w - n) * g <= n * 8real);
    lemma_root_near(r, d, 8real);
    // One over it.
    lemma_exact_constants();
    let h = exact(one()) / r;
    lemma_quotient_back(exact(one()), r);
    lemma_exact_ordered(s, zero());
    assert(0real < h && h <= 512real) by {
        lemma_swap(h, r);
        lemma_cancel(r, h, 512real);
        lemma_cancel(r, 0real, h);
    }
    lemma_scale_ordered(h, r, 2097152real);
    lemma_over_close(one(), s, h);
    let k = one().over(s);
    let e = exact(k);
    assert(size(e * d - 1real) * g <= 15real) by {
        // Off by what the quotient is, and by what the root is.
        lemma_size_of_product((e - h) * g, d, h, d);
        lemma_regroup(e - h, g, d);
        lemma_spread_minus(e, h, d);
        lemma_size_of_product(h, (d - r) * g, h, d * 8real);
        lemma_regroup(h, d - r, g);
        lemma_spread_minus(d, r, h);
        lemma_regroup(h, d, 8real);
        lemma_swap(d, h);
        let c = h * d;
        assert(c * 1000real <= 1001real) by {
            lemma_scale_ordered(h, d * 1000real, r * 1001real);
            lemma_regroup(h, d, 1000real);
            lemma_regroup(h, r, 1001real);
        }
    }
    lemma_neg_close(forward.x);
    lemma_neg_close(forward.z);
    let u = Spot { x: -x, y: 0real, z: -z };
    assert((-x) * (-x) == x * x && (-z) * (-z) == z * z) by {
        lemma_opposite(x, x);
        lemma_opposite(-x, x);
        lemma_opposite(z, z);
        lemma_opposite(-z, z);
    }
    assert(0real * 0real == 0real);
    lemma_normal_part(forward.x.neg(), k, u, d, 0real);
    lemma_normal_part(forward.z.neg(), k, u, d, 0real);
}

/// Through a level disc a player goes on, turned with the view; out of an upright one a
/// player comes to stand.
pub proof fn law_players_fall_on_and_walk_to_a_halt(crossing: PlayerCrossing, turned: Vec3)
    ensures
        ({
            let r = velocity_at_exit(crossing, turned);
            &&& crossing.level ==> r == turned
            &&& !crossing.level ==> exact(r.x) == 0real && exact(r.y) == 0real && exact(r.z)
                == 0real
        }),
{
    lemma_exact_constants();
}

} // verus!

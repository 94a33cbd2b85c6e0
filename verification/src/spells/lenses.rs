//! What a lens makes of the light of lanterns, set against exact numbers.
//!
//! How far a result is off is counted in grains.

use crate::closeness::{
    exact, grains, lemma_exact, lemma_exact_constants, lemma_exact_ordered, lemma_minus_close,
    lemma_neg_close, lemma_over_close, lemma_plus_close, lemma_quotient_back, lemma_size_of_product,
    lemma_times_close, lemma_times_swap, lemma_whole, limit, size, within,
};
use crate::measuring::{is_apart, lemma_direction_close, lemma_distance_close, lemma_times_near};
use crate::rounding::lemma_units_increase;
use crate::scalar::{
    lemma_order_is_value, lemma_over_at_least_one, lemma_over_not_negative, lemma_sum_ordered,
    lemma_units_of_power, one, zero, Scalar,
};
use crate::spells::carrying::{crosswise, lemma_axes, lemma_part_in, outwards, part, sideways};
use crate::spells::convex_lens::{
    beam_damage, beam_damage_rate, beam_impulse, beam_impulse_rate, beam_power_falloff, beam_shape,
    focal_length, focal_slack, image_distance, lens_radius, lens_view, power_of, tether_max_range,
    total_power, LensSource,
};
use crate::spells::meeting::lemma_abs;
use crate::turning::{
    is_unit, lemma_cancel, lemma_close_parts, lemma_close_wider, lemma_dot_scale, lemma_dot_swap,
    lemma_inverse, lemma_norm_of, lemma_opposite, lemma_parts_close, lemma_reach_near,
    lemma_regroup, lemma_rotate_close, lemma_scale_ordered, lemma_spread_minus, lemma_swap,
    lemma_turn_scale, lemma_turned_close, lemma_way_round, reaches, Spot, Turn,
};
use crate::vector::{Pose, Vec3};
use vstd::arithmetic::power2::{lemma2_to64, lemma_pow2_adds};
use vstd::prelude::*;

verus! {

/// How far a lantern's power reaches, where the focus is and how fast a beam works,
/// roughly.
proof fn lemma_lens_constants()
    ensures
        beam_power_falloff().is_finite(),
        8real <= exact(beam_power_falloff()) <= 16real,
        tether_max_range().is_finite(),
        16real <= exact(tether_max_range()) <= 32real,
        focal_length().is_finite(),
        2real <= exact(focal_length()) <= 4real,
        beam_impulse_rate().is_finite(),
        64real <= exact(beam_impulse_rate()) <= 128real,
        beam_damage_rate().is_finite(),
        16real <= exact(beam_damage_rate()) <= 32real,
        focal_slack().is_finite(),
        exact(focal_slack()) * 512real <= 1real,
        exact(focal_slack()) * 1024real >= 1real,
{
    lemma2_to64();
    lemma_whole();
    lemma_units_of_power(117);
    lemma_units_of_power(118);
    lemma_units_of_power(128);
    lemma_units_of_power(129);
    lemma_units_of_power(130);
    lemma_units_of_power(131);
    lemma_units_of_power(132);
    lemma_units_of_power(133);
    lemma_units_of_power(134);
    lemma_pow2_adds(149, 1);
    lemma_pow2_adds(149, 2);
    lemma_pow2_adds(149, 3);
    lemma_pow2_adds(149, 4);
    lemma_pow2_adds(149, 5);
    lemma_pow2_adds(149, 6);
    lemma_pow2_adds(149, 7);
    lemma_pow2_adds(139, 10);
    lemma_pow2_adds(140, 9);
    let a = beam_power_falloff();
    lemma_exact(a);
    lemma_units_increase(130int * 0x80_0000int, a.magnitude() as int);
    lemma_units_increase(a.magnitude() as int, 131int * 0x80_0000int);
    let b = tether_max_range();
    lemma_exact(b);
    lemma_units_increase(131int * 0x80_0000int, b.magnitude() as int);
    lemma_units_increase(b.magnitude() as int, 132int * 0x80_0000int);
    let c = focal_length();
    lemma_exact(c);
    lemma_units_increase(128int * 0x80_0000int, c.magnitude() as int);
    lemma_units_increase(c.magnitude() as int, 129int * 0x80_0000int);
    let d = beam_impulse_rate();
    lemma_exact(d);
    lemma_units_increase(133int * 0x80_0000int, d.magnitude() as int);
    lemma_units_increase(d.magnitude() as int, 134int * 0x80_0000int);
    let e = beam_damage_rate();
    lemma_exact(e);
    lemma_units_increase(131int * 0x80_0000int, e.magnitude() as int);
    lemma_units_increase(e.magnitude() as int, 132int * 0x80_0000int);
    let f = focal_slack();
    lemma_exact(f);
    lemma_units_increase(117int * 0x80_0000int, f.magnitude() as int);
    lemma_units_increase(f.magnitude() as int, 118int * 0x80_0000int);
}

/// What an aligned lantern gives goes down evenly with its distance: from all at no
/// distance to nothing at the far end and beyond.
pub proof fn law_power_goes_by_distance(source: LensSource)
    requires
        source.lens_distance.is_finite(),
        0real <= exact(source.lens_distance) <= limit(),
    ensures
        ({
            let r = power_of(source);
            let part = exact(source.lens_distance) / exact(beam_power_falloff());
            &&& r.is_finite()
            &&& 0real <= exact(r) <= 1real
            &&& part <= 1real ==> within(r, 1real - part, 3real)
            &&& part >= 1real ==> exact(r) * grains() <= 3real
        }),
{
    let (d, f) = (exact(source.lens_distance), exact(beam_power_falloff()));
    lemma_lens_constants();
    lemma_exact_constants();
    lemma_exact_ordered(source.lens_distance, zero());
    lemma_exact_ordered(beam_power_falloff(), zero());
    lemma_exact_ordered(beam_power_falloff(), source.lens_distance);
    let q = d / f;
    lemma_quotient_back(d, f);
    lemma_swap(q, f);
    lemma_cancel(f, 0real, q);
    let ratio = source.lens_distance.over(beam_power_falloff());
    lemma_over_not_negative(source.lens_distance, beam_power_falloff());
    if q <= 1real {
        lemma_over_close(source.lens_distance, beam_power_falloff(), 1real);
        lemma_minus_close(one(), ratio, 2real);
        let rest = one().minus(ratio);
        lemma_exact_ordered(rest, zero());
        lemma_exact_ordered(one(), rest);
        lemma_exact_ordered(zero(), rest);
    } else {
        lemma_cancel(f, q, limit());
        lemma_scale_ordered(f, 1real, q);
        lemma_over_close(source.lens_distance, beam_power_falloff(), q);
        lemma_over_at_least_one(source.lens_distance, beam_power_falloff());
        lemma_exact_ordered(one(), ratio);
        lemma_exact_ordered(ratio, one());
        lemma_neg_close(ratio);
        lemma_exact(one());
        lemma_exact(ratio);
        lemma_exact(ratio.neg());
        lemma_order_is_value(ratio, one());
        lemma_sum_ordered(one(), ratio.neg(), zero());
        let rest = one().minus(ratio);
        lemma_clamped(rest);
    }
}

/// What is not above nothing is cut off at nothing.
proof fn lemma_clamped(a: Scalar)
    requires
        a.le(zero()),
    ensures
        a.clamp(zero(), one()).is_finite(),
        exact(a.clamp(zero(), one())) == 0real,
{
    lemma_exact_constants();
    if !a.lt(zero()) {
        lemma_exact(a);
        lemma_exact_ordered(a, zero());
        lemma_exact_ordered(one(), a);
    }
}

/// What the lanterns give that are aligned, together and exactly.
pub open spec fn exact_power(sources: Seq<LensSource>) -> real
    decreases sources.len(),
{
    if sources.len() == 0 {
        0real
    } else if sources.last().aligned {
        exact_power(sources.drop_last()) + exact(power_of(sources.last()))
    } else {
        exact_power(sources.drop_last())
    }
}

/// The power of a lens is what its aligned lanterns give together; the others give
/// nothing.
pub proof fn law_aligned_lanterns_add_up(sources: Seq<LensSource>)
    requires
        sources.len() <= 1000,
        forall|i: int|
            0 <= i < sources.len() ==> (#[trigger] sources[i]).lens_distance.is_finite()
                && 0real <= exact(sources[i].lens_distance) <= limit(),
    ensures
        within(
            total_power(sources),
            exact_power(sources),
            (sources.len() as real) * 1001real,
        ),
        0real <= exact_power(sources) <= sources.len() as real,
    decreases sources.len(),
{
    lemma_exact_constants();
    if sources.len() > 0 {
        let rest = sources.drop_last();
        assert forall|i: int| 0 <= i < rest.len() implies (
        #[trigger] rest[i]).lens_distance.is_finite() && 0real <= exact(rest[i].lens_distance)
            <= limit() by {
            assert(rest[i] == sources[i]);
        }
        law_aligned_lanterns_add_up(rest);
        let last = sources.last();
        assert(sources[sources.len() - 1] == last);
        law_power_goes_by_distance(last);
        let n = rest.len() as real;
        assert(sources.len() as real == n + 1real);
        assert(n <= 999real);
        if last.aligned {
            lemma_plus_close(total_power(rest), power_of(last), 1001real);
        }
    }
}

/// A lens sees a lantern that is within its range and no other one; how far away it is,
/// and in which direction it shines, as the lens is turned.
pub proof fn law_lens_sees_what_is_near(lens: Pose, lantern: Vec3, d: real)
    requires
        is_unit(lens.rotation),
        is_apart(lens.translation, lantern, d),
    ensures
        ({
            let r = lens_view(lens, lantern);
            let range = exact(tether_max_range());
            let u = Spot::of(lens.translation).minus(Spot::of(lantern));
            let a = lens.rotation;
            &&& (d - range) * grains() > d * 25real + 4real ==> r is None
            &&& (range - d) * grains() > d * 25real + 4real ==> r is Some
            &&& r is Some ==> {
                let local = r->0.local;
                &&& within(r->0.distance, d, d * 25real + 4real)
                &&& local is Some
                &&& within(local->0.x, part(u, a, sideways()) / d, 130real)
                &&& within(local->0.y, part(u, a, outwards()) / d, 130real)
                &&& within(local->0.z, part(u, a, crosswise()) / d, 130real)
            }
        }),
{
    let g = grains();
    lemma_lens_constants();
    lemma_distance_close(lens.translation, lantern, d);
    let dist = lens.translation.distance(lantern);
    lemma_exact_ordered(tether_max_range(), dist);
    lemma_direction_close(lens.translation, lantern, d);
    let radial = lens.translation.minus(lantern).direction()->0;
    let u = Spot::of(lens.translation).minus(Spot::of(lantern));
    let k = 1real / d;
    lemma_quotient_back(1real, d);
    let n = u.scale(k);
    lemma_by_scale(u.x, d, k);
    lemma_by_scale(u.y, d, k);
    lemma_by_scale(u.z, d, k);
    lemma_parts_close(Spot::of(radial), n, 28real, 49real);
    let a = lens.rotation;
    assert(n.dot(n) == 1real) by {
        lemma_dot_scale(u, k, n);
        lemma_dot_swap(u, n);
        lemma_dot_scale(u, k, u);
        assert(n.dot(n) == k * (k * (d * d)));
        lemma_regroup(k, d, d);
        lemma_regroup(k, k * d, d);
        assert(k * (d * d) == d);
        lemma_swap(k, d);
    }
    let s = 1real / 64real;
    lemma_quotient_back(1real, 64real);
    assert(reaches(n, 1real));
    lemma_reach_near(Spot::of(radial), n, 49real, 1real, s * 65real);
    lemma_inverse(a);
    lemma_rotate_close(a.inverse(), radial, s);
    let t = Turn::of(a).back();
    lemma_turned_close(t, Spot::of(radial), n, 49real);
    lemma_norm_of(a, 49real);
    let local = Spot::of(a.inverse().rotate(radial));
    lemma_way_round(
        local,
        t.turned(Spot::of(radial)),
        t.turned(n),
        s * 4146real,
        t.norm() * 49real,
    );
    lemma_close_wider(local, t.turned(n), s * 4146real + t.norm() * 49real, 130real);
    lemma_close_parts(local, t.turned(n), 130real);
    lemma_turn_scale(t, u, k);
    let w = t.turned(u);
    lemma_axes(w);
    lemma_part_in(u, a, sideways());
    lemma_part_in(u, a, outwards());
    lemma_part_in(u, a, crosswise());
    lemma_by_scale(w.x, d, k);
    lemma_by_scale(w.y, d, k);
    lemma_by_scale(w.z, d, k);
}

/// To divide is to multiply by one over.
proof fn lemma_by_scale(x: real, d: real, k: real)
    requires
        d > 0real,
        k * d == 1real,
    ensures
        x * k == x / d,
{
    let q = x / d;
    lemma_quotient_back(x, d);
    lemma_regroup(x, k, d);
    lemma_swap(q, d);
    lemma_swap(x * k, d);
    lemma_cancel(d, q, x * k);
    lemma_cancel(d, x * k, q);
}

/// Where light comes together again: the lens equation. What the image is away from the
/// lens, times how far the lantern is beyond the focus, is the focal length times how
/// far the lantern is away. Close to the focus it never does.
pub proof fn law_lens_equation(lens_distance: Scalar)
    requires
        lens_distance.is_finite(),
        0real <= exact(lens_distance) <= 1024real,
        exact(lens_distance) * 1048576real >= 1real,
    ensures
        ({
            let r = image_distance(lens_distance);
            let (d, f) = (exact(lens_distance), exact(focal_length()));
            let beyond = d - f;
            &&& size(beyond) * 256real >= 1real ==> r.is_finite() && size(
                exact(r) * beyond - f * d,
            ) * grains() <= (f * d) * 8real
            &&& size(beyond) * 2048real <= 1real ==> !r.is_finite() && !r.is_nan()
        }),
{
    let g = grains();
    let (d, f) = (exact(lens_distance), exact(focal_length()));
    lemma_lens_constants();
    let b = d - f;
    let far = lens_distance.minus(focal_length());
    lemma_exact_constants();
    if size(b) * 256real >= 1real {
        lemma_minus_close(lens_distance, focal_length(), size(b));
        let c = exact(far);
        lemma_abs(far);
        lemma_exact_ordered(far.abs(), focal_slack());
        lemma_exact_ordered(far, zero());
        let n = f * d;
        lemma_scale_ordered(f, 0real, d);
        lemma_scale_ordered(d, f, 4real);
        lemma_scale_ordered(d, 2real, f);
        lemma_swap(f, d);
        lemma_times_close(focal_length(), lens_distance, n);
        let p = focal_length().times(lens_distance);
        let u = exact(p);
        let q = u / c;
        lemma_quotient_back(u, c);
        let k = size(q);
        assert(k * size(c) == u) by {
            lemma_opposite(q, c);
            lemma_opposite(c, q);
            lemma_opposite(-q, c);
            lemma_swap(q, c);
            lemma_swap(-q, c);
            if c > 0real {
                if q < 0real {
                    lemma_scale_ordered(c, q, 0real);
                }
            } else {
                if q > 0real {
                    lemma_scale_ordered(-c, 0real, q);
                    lemma_swap(-c, q);
                }
            }
        }
        let z = size(c);
        assert(k <= 4194304real) by {
            lemma_scale_ordered(k, 1real, z * 512real);
            lemma_regroup(k, z, 512real);
        }
        assert(k * 2097152real * 1024real >= 1real) by {
            lemma_scale_ordered(k, z, 1024real);
        }
        lemma_over_close(p, far, k);
        let r = exact(p.over(far));
        // What is left of the product.
        lemma_size_of_product((r - q) * g, c, k, z);
        lemma_regroup(r - q, g, c);
        lemma_spread_minus(r, q, c);
        assert(size(r * c - u) * g <= u);
        lemma_size_of_product(r, (c - b) * g, k * 2real, size(b));
        lemma_regroup(r, c - b, g);
        lemma_spread_minus(c, b, r);
        assert((k * 2real) * size(b) <= u * 3real) by {
            lemma_scale_ordered(k, size(b) * 2real, z * 3real);
            lemma_regroup(k, 2real, size(b));
            lemma_swap(k, size(b));
            lemma_regroup(size(b), 2real, k);
            lemma_regroup(k, size(b), 2real);
            lemma_regroup(k, z, 3real);
        }
    }
    if size(b) * 2048real <= 1real {
        lemma_minus_close(lens_distance, focal_length(), 1real);
        lemma_abs(far);
        lemma_exact_ordered(far.abs(), focal_slack());
    }
}

/// A beam pushes and hurts by its power and for as long as it lasts.
pub proof fn law_beam_works_by_power_and_time(power: Scalar, dt: Scalar)
    requires
        power.is_finite(),
        0real <= exact(power) <= 1024real,
        dt.is_finite(),
        0real <= exact(dt) <= 1real,
    ensures
        within(
            beam_impulse(power, dt),
            exact(beam_impulse_rate()) * exact(power) * exact(dt),
            exact(power) * 512real + 1real,
        ),
        within(
            beam_damage(power, dt),
            exact(beam_damage_rate()) * exact(power) * exact(dt),
            exact(power) * 512real + 1real,
        ),
{
    lemma_lens_constants();
    lemma_rate(beam_impulse_rate(), power, dt);
    lemma_rate(beam_damage_rate(), power, dt);
}

proof fn lemma_rate(rate: Scalar, power: Scalar, dt: Scalar)
    requires
        rate.is_finite(),
        0real <= exact(rate) <= 128real,
        power.is_finite(),
        0real <= exact(power) <= 1024real,
        dt.is_finite(),
        0real <= exact(dt) <= 1real,
    ensures
        within(
            rate.times(power).times(dt),
            exact(rate) * exact(power) * exact(dt),
            exact(power) * 512real + 1real,
        ),
{
    let g = grains();
    let (r, p, t) = (exact(rate), exact(power), exact(dt));
    let o = 1real / 8real;
    lemma_quotient_back(1real, 8real);
    lemma_scale_ordered(p, r, 128real);
    lemma_scale_ordered(p, 0real, r);
    lemma_swap(p, r);
    let top = p * 128real + o;
    lemma_times_close(rate, power, top);
    let m = rate.times(power);
    let x = r * p;
    assert((size(x) * g + top) * t <= (top * 2real) * g) by {
        lemma_scale_ordered(size(x) * g + top, t, 1real);
    }
    lemma_times_near(m, x, top, dt, top * 2real);
    lemma_scale_ordered(top, t, 1real);
}

/// A beam narrows to a point where the lens gathers it, and ends there. Where the lens
/// spreads it, it gets wider the farther it goes. What is met before ends it, as wide as
/// it is there.
pub proof fn law_beam_narrows_to_its_image(lens_distance: Scalar, hit_distance: Scalar)
    requires
        image_distance(lens_distance).is_finite(),
        size(exact(image_distance(lens_distance))) * 1024real >= 1real,
        hit_distance.is_finite(),
        0real <= exact(hit_distance) <= 1024real,
    ensures
        ({
            let r = beam_shape(lens_distance, hit_distance);
            let (i, h, wide) = (
                exact(image_distance(lens_distance)),
                exact(hit_distance),
                exact(lens_radius()),
            );
            &&& i > 0real && h < i ==> r.length == hit_distance && within(
                r.end_radius,
                wide * (1real - h / i),
                4real,
            )
            &&& i > 0real && h >= i ==> exact(r.length) == i && exact(r.end_radius) == 0real
            &&& i < 0real ==> r.length == hit_distance && within(
                r.end_radius,
                wide * (1real + h / (-i)),
                (1real + h / (-i)) * 4real,
            )
        }),
{
    let g = grains();
    let image = image_distance(lens_distance);
    let (i, h, wide) = (exact(image), exact(hit_distance), exact(lens_radius()));
    lemma_exact_constants();
    lemma_exact_ordered(zero(), image);
    lemma_exact_ordered(image, zero());
    lemma_exact_ordered(hit_distance, image);
    lemma_width();
    if i > 0real && h < i {
        let q = h / i;
        lemma_quotient_back(h, i);
        lemma_swap(q, i);
        lemma_cancel(i, q, 1real);
        lemma_cancel(i, 0real, q);
        lemma_over_close(hit_distance, image, 1real);
        let p = hit_distance.over(image);
        lemma_minus_close(one(), p, 1001real / 1000real);
        let m = one().minus(p);
        lemma_exact_ordered(m, zero());
        let n = m.max(zero());
        assert(within(n, 1real - q, 3real));
        lemma_widened(n, 1real - q, 3real, 1real);
    }
    if i < 0real {
        lemma_abs(image);
        let a = image.abs();
        let q = h / (-i);
        lemma_quotient_back(h, -i);
        lemma_swap(q, -i);
        lemma_cancel(-i, q, 1048576real);
        lemma_cancel(-i, 0real, q);
        lemma_exact_ordered(a, zero());
        let top = 1real + q;
        lemma_over_close(hit_distance, a, top);
        let p = hit_distance.over(a);
        lemma_plus_close(one(), p, top * 2real);
        let m = one().plus(p);
        assert(within(m, 1real + q, top * 3real));
        lemma_widened(m, 1real + q, top * 3real, top);
    }
}

/// How wide the lens is, roughly.
proof fn lemma_width()
    ensures
        lens_radius().is_finite(),
        0real <= exact(lens_radius()) * 4real <= 1real,
{
    let a = lens_radius();
    lemma_exact(a);
    lemma_whole();
    lemma_units_of_power(125);
    lemma_units_increase(0, a.magnitude() as int);
    lemma_units_increase(a.magnitude() as int, 125int * 0x80_0000int);
    lemma_pow2_adds(147, 2);
    lemma2_to64();
}

proof fn lemma_widened(n: Scalar, x: real, e: real, top: real)
    requires
        within(n, x, e),
        0real <= e <= top * 3real,
        0real <= x <= top,
        1real <= top <= 2097152real,
    ensures
        within(lens_radius().times(n), exact(lens_radius()) * x, top * 4real),
{
    let wide = exact(lens_radius());
    lemma_width();
    lemma_size_of_product(size(x) * grains() + e, wide, (top * 2real) * grains(), 1real / 4real);
    lemma_times_near(n, x, e, lens_radius(), top);
    lemma_times_swap(lens_radius(), n);
    lemma_swap(wide, x);
    lemma_size_of_product(e, wide, e, 1real / 4real);
}

} // verus!

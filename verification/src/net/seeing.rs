//! What is seen of the others, set against exact numbers.
//!
//! How far a result is off is counted in grains.

use crate::closeness::{
    exact, grains, lemma_clamp_close, lemma_exact, lemma_exact_constants, lemma_exact_ordered,
    lemma_minus_close, lemma_minus_within, lemma_neg_close, lemma_plus_close, lemma_plus_within,
    lemma_quotient_back, lemma_size_of_product, lemma_times_close, lemma_whole, size, within,
};
use crate::measuring::{lemma_over_near, lemma_times_near};
use crate::net::protocol::{full_turn, lemma_pi_close, pi, NetworkedPosition};
use crate::net::replication::{
    moved, remote_alpha, sample_time, sampled, shortest_span, smooth_networked_transforms,
    stale_after, yaw_step, NetworkedPositionSmoothing, RemoteAnimState,
};
use crate::player::controller::{shortest_frame, smoothed_velocity, velocity_alpha};
use crate::rounding::lemma_units_increase;
use crate::scalar::{
    lemma_order_is_value, lemma_over_at_least_one, lemma_quotient, lemma_units_of_power, one, zero,
    Scalar,
};
use crate::spells::aiming::is_at;
use crate::spells::passing::{between, lemma_on_the_way};
use crate::turning::{
    is_small, lemma_cancel, lemma_opposite, lemma_regroup, lemma_scale_ordered, lemma_spread_minus,
    lemma_swap, Spot,
};
use crate::vector::Vec3;
use vstd::arithmetic::power2::{lemma2_to64, lemma_pow2_adds};
use vstd::prelude::*;

verus! {

/// Two snapshots, one after the other, are what something is seen between, whatever was
/// known before. After a first one alone it is seen where that puts it.
pub proof fn law_last_two_snapshots_count(
    samples: NetworkedPositionSmoothing,
    first: NetworkedPosition,
    then_at: Scalar,
    second: NetworkedPosition,
    now: Scalar,
)
    ensures
        ({
            let r = sampled(sampled(samples, first, then_at), second, now);
            &&& r.initialized
            &&& r.prev_pos == (Vec3 { x: first.x, y: first.y, z: first.z })
            &&& r.prev_yaw == first.yaw
            &&& r.prev_time == then_at
            &&& r.cur_pos == (Vec3 { x: second.x, y: second.y, z: second.z })
            &&& r.cur_yaw == second.yaw
            &&& r.cur_time == now
        }),
        !samples.initialized ==> ({
            let r = sampled(samples, first, then_at);
            r.initialized && r.prev_pos == r.cur_pos && r.prev_yaw == r.cur_yaw && r.prev_time
                == r.cur_time && r.cur_time == then_at
        }),
{
}

/// Whether the times of two snapshots and of now are in measure, and the snapshots not
/// too close together.
pub open spec fn are_times(samples: NetworkedPositionSmoothing, now: Scalar, top: real) -> bool {
    let span = exact(samples.cur_time) - exact(samples.prev_time);
    &&& samples.prev_time.is_finite()
    &&& samples.cur_time.is_finite()
    &&& now.is_finite()
    &&& 0real <= exact(samples.prev_time) <= top
    &&& 0real <= exact(samples.cur_time) <= top
    &&& 0real <= exact(now) <= top
    &&& 1real <= top <= 65536real
    &&& (span - exact(shortest_span())) * grains() > top * 4real
}

/// How long after the first of two snapshots things are seen as they were: one span late.
pub open spec fn seen_late(samples: NetworkedPositionSmoothing, now: Scalar) -> real {
    let span = exact(samples.cur_time) - exact(samples.prev_time);
    exact(now) - span - exact(samples.prev_time)
}

/// Things are seen late by as long as there is between two snapshots: at the first until
/// then, at the second once that is over, and by the part that has passed in between.
pub proof fn law_seen_one_span_late(samples: NetworkedPositionSmoothing, now: Scalar, top: real)
    requires
        are_times(samples, now, top),
    ensures
        ({
            let r = sample_time(samples, now);
            let span = exact(samples.cur_time) - exact(samples.prev_time);
            let late = seen_late(samples, now);
            &&& r.is_finite()
            &&& 0real <= exact(r) <= 1real
            &&& late * grains() < -(top * 8real) ==> exact(r) == 0real
            &&& (late - span) * grains() > top * 16real ==> exact(r) == 1real
            &&& late >= 0real && late <= span ==> size(exact(r) * span - late) * grains() <= top
                * 40real
        }),
{
    let g = grains();
    let (a, b, n) = (exact(samples.prev_time), exact(samples.cur_time), exact(now));
    let span = b - a;
    let late = seen_late(samples, now);
    lemma_shortest_span();
    lemma_minus_close(samples.cur_time, samples.prev_time, top);
    let s = samples.cur_time.minus(samples.prev_time);
    lemma_exact_ordered(s, shortest_span());
    assert(s.max(shortest_span()) == s);
    let y = exact(s);
    lemma_minus_within(now, n, 0real, s, span, top, top * 2real);
    let m = now.minus(s);
    lemma_minus_within(m, n - span, top * 3real, samples.prev_time, a, 0real, top * 3real);
    let x = m.minus(samples.prev_time);
    assert(within(x, late, top * 6real));
    let p = exact(x);
    // What part of the span that is.
    let bound = 268435456real;
    assert(size(p) <= bound * y);
    lemma_none(y);
    lemma_over_near(x, p, 0real, s, bound);
    let q = x.over(s);
    let k = p / y;
    lemma_quotient_back(p, y);
    lemma_exact_constants();
    lemma_clamp_close(q);
    let r = q.clamp(zero(), one());
    lemma_exact_ordered(q, zero());
    lemma_exact_ordered(q, one());
    lemma_exact_ordered(one(), q);
    lemma_swap(k, y);
    if p < 0real {
        lemma_sign(x, s);
    }
    if p >= 0real && p <= y * 2real {
        assert(0real <= k <= 2real) by {
            lemma_cancel(y, k, 2real);
            lemma_cancel(y, 0real, k);
        }
        lemma_over_near(x, p, 0real, s, 2real);
        assert(size(exact(q) - k) * g <= 2real);
        let c = exact(r);
        if p <= y {
            lemma_cancel(y, k, 1real);
            assert(size(c - k) * g <= 2real);
            let z = size(c - k);
            lemma_size_of_product((c - k) * g, y, 2real, y);
            lemma_regroup(c - k, g, y);
            lemma_spread_minus(c, k, y);
            lemma_size_of_product(c, (span - y) * g, 1real, top);
            lemma_regroup(c, span - y, g);
            lemma_spread_minus(span, y, c);
        }
    }
    if p >= y {
        lemma_exact_ordered(s, x);
        lemma_exact_ordered(zero(), s);
        lemma_over_at_least_one(x, s);
    }
}

proof fn lemma_none(y: real)
    requires
        y > 0real,
    ensures
        0real / y == 0real,
{
    lemma_quotient_back(0real, y);
    lemma_swap(0real / y, y);
    lemma_cancel(y, 0real / y, 0real);
    lemma_cancel(y, 0real, 0real / y);
}

/// What is below nothing stays so, whatever part is taken.
proof fn lemma_sign(x: Scalar, s: Scalar)
    requires
        x.is_finite(),
        s.is_finite(),
        exact(x) < 0real,
        exact(s) > 0real,
        x.over(s).is_finite(),
    ensures
        exact(x.over(s)) <= 0real,
{
    reveal(Scalar::spec_over);
    lemma_exact(x);
    lemma_exact(s);
    lemma_units_increase(0, x.magnitude() as int);
    lemma_units_increase(0, s.magnitude() as int);
    let r = x.over(s);
    lemma_exact(r);
    lemma_units_increase(0, r.magnitude() as int);
    lemma_quotient(x.magnitude() as int, s.magnitude() as int);
}

/// The shortest span is less than two to the power of minus nine.
proof fn lemma_shortest_span()
    ensures
        shortest_span().is_finite(),
        shortest_frame() == shortest_span(),
        1real <= exact(shortest_span()) * 1024real,
        exact(shortest_span()) * 512real <= 1real,
{
    let a = shortest_span();
    lemma_exact(a);
    lemma_whole();
    lemma_units_of_power(117);
    lemma_units_of_power(118);
    lemma_units_increase(117int * 0x80_0000int, a.magnitude() as int);
    lemma_units_increase(a.magnitude() as int, 118int * 0x80_0000int);
    lemma_pow2_adds(139, 10);
    lemma_pow2_adds(140, 9);
    lemma2_to64();
}

/// Things are seen on the straight way from one snapshot to the next.
pub proof fn law_seen_on_the_way(
    samples: NetworkedPositionSmoothing,
    now: Scalar,
    top: real,
    l: real,
)
    requires
        samples.initialized,
        are_times(samples, now, top),
        is_small(samples.prev_pos, l),
        is_small(samples.cur_pos, l),
        l >= 1real,
        l <= 1048576real,
    ensures
        ({
            let r = smooth_networked_transforms(samples, now);
            let t = exact(sample_time(samples, now));
            &&& r is Some
            &&& is_at(
                r->0.at,
                between(Spot::of(samples.prev_pos), Spot::of(samples.cur_pos), t),
                l * 14real,
            )
        }),
{
    let (p, q, t) = (samples.prev_pos, samples.cur_pos, sample_time(samples, now));
    law_seen_one_span_late(samples, now, top);
    lemma_on_the_way(p.x, exact(p.x), q.x, exact(q.x), t, l);
    lemma_on_the_way(p.y, exact(p.y), q.y, exact(q.y), t, l);
    lemma_on_the_way(p.z, exact(p.z), q.z, exact(q.z), t, l);
}

/// Between two snapshots things turn the short way: by what leads from one to the other,
/// but for a whole turn where that is more than half of one.
pub proof fn law_seen_turning_the_short_way(start: Scalar, end: Scalar)
    requires
        start.is_finite(),
        end.is_finite(),
        size(exact(start)) <= exact(pi()),
        size(exact(end)) <= exact(pi()),
    ensures
        ({
            let r = yaw_step(start, end);
            let way = exact(end) - exact(start);
            let half = exact(pi());
            &&& r.is_finite()
            &&& size(exact(r)) * grains() <= half * grains() + 20real
            &&& way * grains() > half * grains() + 8real ==> within(r, way - 2real * half, 20real)
            &&& way * grains() < -(half * grains() + 8real) ==> within(
                r,
                way + 2real * half,
                20real,
            )
            &&& size(way) * grains() < half * grains() - 8real ==> within(r, way, 8real)
        }),
{
    lemma_pi_close();
    lemma_minus_close(end, start, 8real);
    let way = end.minus(start);
    lemma_exact_ordered(pi(), way);
    lemma_neg_close(pi());
    lemma_exact_ordered(way, pi().neg());
    if exact(way) > exact(pi()) {
        lemma_minus_close(way, full_turn(), 8real);
    }
    if exact(way) < -exact(pi()) {
        lemma_plus_close(way, full_turn(), 8real);
    }
}

/// One coordinate of a velocity that follows another.
proof fn lemma_follows(v: Scalar, p: Scalar, a: Scalar, s: Scalar, alpha: Scalar, m: real)
    requires
        v.is_finite(),
        p.is_finite(),
        a.is_finite(),
        s.is_finite(),
        alpha.is_finite(),
        0real <= exact(alpha) <= 1real,
        1real <= exact(s) * 1024real,
        exact(s) <= 1048576real,
        size(exact(v)) <= m,
        size(exact(a) - exact(p)) <= m * exact(s),
        1real <= m * 1048576real,
        m <= 1048576real,
    ensures
        ({
            let w = (exact(a) - exact(p)) / exact(s);
            within(
                v.times(one().minus(alpha)).plus(a.minus(p).over(s).times(alpha)),
                exact(v) + exact(alpha) * (w - exact(v)),
                m * 16real,
            )
        }),
{
    let g = grains();
    let (x, t, k) = (exact(v), exact(s), exact(alpha));
    let d = exact(a) - exact(p);
    let w = d / t;
    lemma_exact_constants();
    lemma_minus_close(one(), alpha, 1real);
    let h = exact(one().minus(alpha));
    lemma_size_of_product(x, h, m, 1001real / 1000real);
    lemma_times_close(v, one().minus(alpha), m * 2real);
    lemma_size_of_product(x, (h - (1real - k)) * g, m, 1real);
    lemma_regroup(x, h - (1real - k), g);
    lemma_spread_minus(h, 1real - k, x);
    assert(within(v.times(one().minus(alpha)), x * (1real - k), m * 3real));
    let y = m * t;
    assert(1real <= y * 1152921504606846976real) by {
        lemma_size_of_product(1real, 1real, m * 1048576real, t * 1024real);
        lemma_regroup(m, 1048576real, t * 1024real);
        lemma_regroup(m, t, 1024real);
        lemma_scale_ordered(t, 1real, m * 1048576real);
        lemma_regroup(t, m, 1048576real);
    }
    assert(y <= 1152921504606846976real) by {
        lemma_scale_ordered(t, m, 1048576real);
        lemma_swap(t, m);
    }
    lemma_minus_close(a, p, y);
    assert(size(d) * g + y <= ((m * 2real) * t) * g) by {
        lemma_regroup(m, 2real, t);
    }
    lemma_over_near(a.minus(p), d, y, s, m * 2real);
    let q = a.minus(p).over(s);
    lemma_quotient_back(d, t);
    lemma_quotient_back(y, t);
    assert(y / t <= m && y / t >= 0real) by {
        lemma_swap(y / t, t);
        lemma_swap(m, t);
        lemma_cancel(t, y / t, m);
        lemma_cancel(t, 0real, y / t);
    }
    assert(size(w) <= m) by {
        lemma_swap(w, t);
        lemma_swap(m, t);
        lemma_cancel(t, w, m);
        lemma_opposite(t, w);
        lemma_cancel(t, -w, m);
    }
    assert(within(q, w, m * 3real));
    lemma_size_of_product(size(w) * g + m * 3real, k, (m * 2real) * g, 1real);
    lemma_times_near(q, w, m * 3real, alpha, m * 2real);
    lemma_scale_ordered(m * 3real, k, 1real);
    assert(within(q.times(alpha), w * k, m * 5real));
    lemma_size_of_product(x, 1real - k, m, 1real);
    lemma_size_of_product(w, k, m, 1real);
    lemma_plus_within(
        v.times(one().minus(alpha)),
        x * (1real - k),
        m * 3real,
        q.times(alpha),
        w * k,
        m * 5real,
        m * 3real,
    );
    lemma_spread_minus(1real, k, x);
    lemma_spread_minus(w, x, k);
    lemma_swap(k, w - x);
    lemma_swap(k, x);
    lemma_swap(k, w);
}

/// Whether a step from one place to another in `s` seconds is in measure.
pub open spec fn is_step(v: Vec3, prev: Vec3, at: Vec3, s: real, m: real) -> bool {
    &&& is_small(v, m)
    &&& prev.is_finite()
    &&& at.is_finite()
    &&& size(exact(at.x) - exact(prev.x)) <= m * s
    &&& size(exact(at.y) - exact(prev.y)) <= m * s
    &&& size(exact(at.z) - exact(prev.z)) <= m * s
    &&& 1real <= m * 1048576real
    &&& m <= 1048576real
}

/// What `v` comes to if it is brought by the part `k` nearer to the velocity of a step
/// from `prev` to `at` in `s` seconds.
pub open spec fn nearer(v: Vec3, prev: Vec3, at: Vec3, s: real, k: real) -> Spot {
    let way = Spot::of(at).minus(Spot::of(prev));
    Spot {
        x: exact(v.x) + k * (way.x / s - exact(v.x)),
        y: exact(v.y) + k * (way.y / s - exact(v.y)),
        z: exact(v.z) + k * (way.z / s - exact(v.z)),
    }
}

proof fn lemma_alphas()
    ensures
        velocity_alpha().is_finite(),
        0real < exact(velocity_alpha()) <= 1real,
        remote_alpha().is_finite(),
        0real < exact(remote_alpha()) <= 1real,
        stale_after().is_finite(),
        exact(stale_after()) * 512real >= 1real,
{
    let (a, b, c) = (velocity_alpha(), remote_alpha(), stale_after());
    lemma_exact(a);
    lemma_exact(b);
    lemma_exact(c);
    lemma_whole();
    lemma2_to64();
    lemma_units_of_power(118);
    lemma_units_of_power(127);
    lemma_pow2_adds(140, 9);
    lemma_units_increase(0, 118int * 0x80_0000int);
    lemma_units_increase(118int * 0x80_0000int, a.magnitude() as int);
    lemma_units_increase(a.magnitude() as int, 127int * 0x80_0000int);
    lemma_units_increase(118int * 0x80_0000int, b.magnitude() as int);
    lemma_units_increase(b.magnitude() as int, 127int * 0x80_0000int);
    lemma_units_increase(118int * 0x80_0000int, c.magnitude() as int);
}

/// The velocity that is shown of the player at this machine comes nearer to that of the
/// last frame, by the same part every time.
pub proof fn law_shown_velocity_follows(velocity: Vec3, prev: Vec3, at: Vec3, dt: Scalar, m: real)
    requires
        dt.is_finite(),
        exact(dt) * 512real >= 1real,
        exact(dt) <= 1048576real,
        is_step(velocity, prev, at, exact(dt), m),
    ensures
        is_at(
            smoothed_velocity(velocity, prev, at, dt),
            nearer(velocity, prev, at, exact(dt), exact(velocity_alpha())),
            m * 16real,
        ),
{
    lemma_alphas();
    lemma_shortest_span();
    lemma_exact_ordered(dt, shortest_frame());
    let k = velocity_alpha();
    lemma_follows(velocity.x, prev.x, at.x, dt, k, m);
    lemma_follows(velocity.y, prev.y, at.y, dt, k, m);
    lemma_follows(velocity.z, prev.z, at.z, dt, k, m);
}

/// The velocity that is shown of another player comes nearer to that since the place has
/// last changed, by the same part every time. Without news it stays at first.
pub proof fn law_remote_velocity_follows(
    state: RemoteAnimState,
    position: NetworkedPosition,
    now: Scalar,
    m: real,
)
    requires
        state.initialized,
        now.minus(state.last_pos_time).is_finite(),
        exact(now.minus(state.last_pos_time)) * 512real >= 1real,
        exact(now.minus(state.last_pos_time)) <= 1048576real,
        is_step(
            state.smoothed_velocity,
            state.last_pos,
            position.to_vec3(),
            exact(now.minus(state.last_pos_time)),
            m,
        ),
    ensures
        ({
            let r = moved(state, position, now);
            let s = exact(now.minus(state.last_pos_time));
            let at = Vec3 { x: position.x, y: position.y, z: position.z };
            let changed = Spot::of(at) != Spot::of(state.last_pos);
            &&& changed ==> r.last_pos == at && r.last_pos_time == now && is_at(
                r.smoothed_velocity,
                nearer(state.smoothed_velocity, state.last_pos, at, s, exact(remote_alpha())),
                m * 16real,
            )
            &&& !changed ==> r.last_pos == state.last_pos && r.last_pos_time == state.last_pos_time
            &&& !changed && s <= exact(stale_after()) ==> r.smoothed_velocity
                == state.smoothed_velocity
        }),
{
    let s = now.minus(state.last_pos_time);
    lemma_alphas();
    lemma_shortest_span();
    lemma_exact_ordered(s, shortest_span());
    lemma_exact_ordered(stale_after(), s);
    let (v, p, a, k) = (
        state.smoothed_velocity,
        state.last_pos,
        position.to_vec3(),
        remote_alpha(),
    );
    lemma_follows(v.x, p.x, a.x, s, k, m);
    lemma_follows(v.y, p.y, a.y, s, k, m);
    lemma_follows(v.z, p.z, a.z, s, k, m);
    lemma_same(a.x, p.x);
    lemma_same(a.y, p.y);
    lemma_same(a.z, p.z);
}

/// Numbers are equal where they come to the same.
proof fn lemma_same(a: Scalar, b: Scalar)
    requires
        a.is_finite(),
        b.is_finite(),
    ensures
        a.equals(b) <==> exact(a) == exact(b),
{
    lemma_exact(a);
    lemma_exact(b);
    lemma_exact_ordered(a, b);
    lemma_exact_ordered(b, a);
    lemma_order_is_value(a, b);
}

} // verus!

//! Frost and spikes, set against exact numbers.
//!
//! How far a result is off is counted in grains.

use crate::closeness::{
    exact, grains, lemma_exact, lemma_minus_within, lemma_plus_within, lemma_quotient_back,
    lemma_size_of_product, lemma_times_close, lemma_whole, size, within,
};
use crate::entity::Entity;
use crate::measuring::{lemma_normalized, lemma_over_near, lemma_times_near};
use crate::rounding::lemma_units_increase;
use crate::scalar::{lemma_units_of_power, Scalar};
use crate::spells::ice::{
    called_place, called_spike, frost_spike_base_damage, frost_spike_base_height,
    frost_spike_damage_per_charge, frost_spike_ground_inset, frost_spike_rise_duration,
    frost_spire_match_slack, half_of, risen, spike_tolerance, within_tolerance, FrostSpireMessage,
    FrozenTile, StandingSpike,
};
use crate::turning::{
    is_small, lemma_cancel, lemma_opposite, lemma_reach_parts, lemma_regroup, lemma_scale_ordered,
    lemma_spread_minus, lemma_swap, Spot,
};
use crate::vector::Vec3;
use vstd::arithmetic::power2::{lemma2_to64, lemma_pow2_adds};
use vstd::prelude::*;

verus! {

/// How far a tile is from a call, squared.
pub open spec fn off_squared(tile: FrozenTile, origin: Vec3) -> Scalar {
    tile.position.minus(origin).length_squared()
}

/// Whether a call is on a tile, or nearly.
pub open spec fn is_on(tile: FrozenTile, origin: Vec3) -> bool {
    within_tolerance(off_squared(tile, origin), tile.radius.plus(frost_spire_match_slack()))
}

/// Of the tiles that a call is on, it is about the nearest, and of those about the first
/// one. It is about none only where it is on none.
pub proof fn law_calls_take_the_nearest_tile(tiles: Seq<FrozenTile>, origin: Vec3)
    requires
        forall|i: int|
            0 <= i < tiles.len() ==> off_squared(#[trigger] tiles[i], origin).is_finite(),
    ensures
        match called_place(tiles, origin) {
            Some(p) => {
                &&& 0 <= p < tiles.len()
                &&& is_on(tiles[p], origin)
                &&& forall|i: int|
                    0 <= i < tiles.len() && is_on(#[trigger] tiles[i], origin) ==> off_squared(
                        tiles[p],
                        origin,
                    ).le(off_squared(tiles[i], origin))
                &&& forall|i: int|
                    0 <= i < p && is_on(#[trigger] tiles[i], origin) ==> off_squared(
                        tiles[p],
                        origin,
                    ).lt(off_squared(tiles[i], origin))
            },
            None => forall|i: int| 0 <= i < tiles.len() ==> !is_on(#[trigger] tiles[i], origin),
        },
    decreases tiles.len(),
{
    if tiles.len() > 0 {
        let sooner = tiles.drop_last();
        assert forall|i: int| 0 <= i < sooner.len() implies off_squared(
            #[trigger] sooner[i],
            origin,
        ).is_finite() by {
            assert(sooner[i] == tiles[i]);
        }
        law_calls_take_the_nearest_tile(sooner, origin);
        let n = tiles.len() - 1;
        assert(off_squared(tiles[n], origin).is_finite());
        let before = called_place(sooner, origin);
        assert forall|i: int| 0 <= i < sooner.len() implies sooner[i] == #[trigger] tiles[i] by {}
        if is_on(tiles[n], origin) && before is Some {
            let b = before->0;
            assert(sooner[b] == tiles[b]);
            assert(off_squared(tiles[b], origin).is_finite());
        }
        match called_place(tiles, origin) {
            Some(p) => {
                assert forall|i: int|
                    0 <= i < tiles.len() && is_on(#[trigger] tiles[i], origin) implies off_squared(
                    tiles[p],
                    origin,
                ).le(off_squared(tiles[i], origin)) by {
                    assert(off_squared(tiles[i], origin).is_finite());
                    if i < n {
                        assert(is_on(sooner[i], origin));
                    }
                }
                assert forall|i: int|
                    0 <= i < p && is_on(#[trigger] tiles[i], origin) implies off_squared(
                    tiles[p],
                    origin,
                ).lt(off_squared(tiles[i], origin)) by {
                    assert(off_squared(tiles[i], origin).is_finite());
                    assert(is_on(sooner[i], origin));
                }
            },
            None => {
                assert forall|i: int| 0 <= i < tiles.len() implies !is_on(
                    #[trigger] tiles[i],
                    origin,
                ) by {
                    if i < n {
                        assert(!is_on(sooner[i], origin));
                    }
                }
            },
        }
    }
}

/// Whether a call is on a spike, or nearly.
pub open spec fn is_at_spike(spike: StandingSpike, origin: Vec3) -> bool {
    within_tolerance(
        spike.position.minus(origin).length_squared(),
        spike_tolerance(spike.shape),
    )
}

/// Of the spikes that a call is on, it is about one that is nearest. It is about none only
/// where it is on none.
pub proof fn law_calls_take_the_nearest_spike(spikes: Seq<StandingSpike>, origin: Vec3)
    requires
        forall|i: int|
            0 <= i < spikes.len() ==> (#[trigger] spikes[i]).position.minus(
                origin,
            ).length_squared().is_finite(),
    ensures
        match called_spike(spikes, origin) {
            Some(spike) => {
                &&& spikes.contains(spike)
                &&& is_at_spike(spike, origin)
                &&& forall|i: int|
                    0 <= i < spikes.len() && is_at_spike(#[trigger] spikes[i], origin)
                        ==> spike.position.minus(origin).length_squared().le(
                        spikes[i].position.minus(origin).length_squared(),
                    )
            },
            None => forall|i: int|
                0 <= i < spikes.len() ==> !is_at_spike(#[trigger] spikes[i], origin),
        },
    decreases spikes.len(),
{
    if spikes.len() > 0 {
        let sooner = spikes.drop_last();
        assert forall|i: int| 0 <= i < sooner.len() implies (
        #[trigger] sooner[i]).position.minus(origin).length_squared().is_finite() by {
            assert(sooner[i] == spikes[i]);
        }
        law_calls_take_the_nearest_spike(sooner, origin);
        let n = spikes.len() - 1;
        let before = called_spike(sooner, origin);
        assert(spikes[n].position.minus(origin).length_squared().is_finite());
        if before is Some {
            let k = choose|k: int| 0 <= k < sooner.len() && sooner[k] == before->0;
            assert(spikes[k] == before->0);
            assert(spikes[k].position.minus(origin).length_squared().is_finite());
        }
        match called_spike(spikes, origin) {
            Some(spike) => {
                assert(spikes[n] == spike || spikes.contains(spike));
                assert forall|i: int|
                    0 <= i < spikes.len() && is_at_spike(
                        #[trigger] spikes[i],
                        origin,
                    ) implies spike.position.minus(origin).length_squared().le(
                    spikes[i].position.minus(origin).length_squared(),
                ) by {
                    assert(spikes[i].position.minus(origin).length_squared().is_finite());
                    if i < n {
                        assert(is_at_spike(sooner[i], origin));
                    }
                }
            },
            None => {
                assert forall|i: int| 0 <= i < spikes.len() implies !is_at_spike(
                    #[trigger] spikes[i],
                    origin,
                ) by {
                    if i < n {
                        assert(!is_at_spike(sooner[i], origin));
                    }
                }
            },
        }
    }
}

/// How high a spike is at first, how far down it stands, and how long it rises, roughly.
proof fn lemma_spike_constants()
    ensures
        frost_spike_base_height().is_finite(),
        1real <= exact(frost_spike_base_height()) <= 2real,
        frost_spike_ground_inset().is_finite(),
        0real <= exact(frost_spike_ground_inset()) <= 1real,
        frost_spike_rise_duration().is_finite(),
        1real <= exact(frost_spike_rise_duration()) * 8real,
        exact(frost_spike_rise_duration()) * 4real <= 1real,
        half_of().is_finite(),
        exact(half_of()) * 2real == 1real,
        frost_spike_base_damage().is_finite(),
        16real <= exact(frost_spike_base_damage()) <= 32real,
        frost_spike_damage_per_charge().is_finite(),
        16real <= exact(frost_spike_damage_per_charge()) <= 32real,
{
    let (a, b, c, d, e, f) = (
        frost_spike_base_height(),
        frost_spike_ground_inset(),
        frost_spike_rise_duration(),
        half_of(),
        frost_spike_base_damage(),
        frost_spike_damage_per_charge(),
    );
    lemma_exact(a);
    lemma_exact(b);
    lemma_exact(c);
    lemma_exact(d);
    lemma_exact(e);
    lemma_exact(f);
    lemma_whole();
    lemma2_to64();
    lemma_units_of_power(124);
    lemma_units_of_power(125);
    lemma_units_of_power(126);
    lemma_units_of_power(127);
    lemma_units_of_power(128);
    lemma_units_of_power(131);
    lemma_units_of_power(132);
    lemma_pow2_adds(146, 3);
    lemma_pow2_adds(147, 2);
    lemma_pow2_adds(148, 1);
    lemma_pow2_adds(149, 1);
    lemma_pow2_adds(149, 4);
    lemma_pow2_adds(149, 5);
    lemma_units_increase(127int * 0x80_0000int, a.magnitude() as int);
    lemma_units_increase(a.magnitude() as int, 128int * 0x80_0000int);
    lemma_units_increase(0, b.magnitude() as int);
    lemma_units_increase(b.magnitude() as int, 127int * 0x80_0000int);
    lemma_units_increase(124int * 0x80_0000int, c.magnitude() as int);
    lemma_units_increase(c.magnitude() as int, 125int * 0x80_0000int);
    lemma_units_increase(131int * 0x80_0000int, e.magnitude() as int);
    lemma_units_increase(e.magnitude() as int, 132int * 0x80_0000int);
    lemma_units_increase(131int * 0x80_0000int, f.magnitude() as int);
    lemma_units_increase(f.magnitude() as int, 132int * 0x80_0000int);
}

/// Whether a spike may be called so: out of a surface that faces somewhere, and neither
/// too far off nor too large.
pub open spec fn is_call(msg: FrostSpireMessage, scale: Scalar, d: real, l: real) -> bool {
    &&& msg.normal.is_finite()
    &&& d * d == Spot::of(msg.normal).dot(Spot::of(msg.normal))
    &&& 1real <= d * 1048576real
    &&& d <= 1048576real
    &&& scale.is_finite()
    &&& 0real <= exact(scale) <= 64real
    &&& is_small(msg.origin, l)
    &&& 1real <= l <= 16777216real
}

/// A spike comes out along what its surface faces. What it starts from and how fast it
/// is take it, while it rises, to where it stands on the surface by half its height,
/// but for what stays below.
pub proof fn law_spikes_rise_to_where_they_stand(
    msg: FrostSpireMessage,
    scale: Scalar,
    caster: Option<Entity>,
    d: real,
    l: real,
)
    requires
        is_call(msg, scale, d, l),
    ensures
        ({
            let r = risen(msg, scale, caster);
            let along = Spot::of(r.normal);
            let height = exact(frost_spike_base_height()) * exact(scale);
            let stands = Spot::of(msg.origin).plus(
                along.scale(height / 2real - exact(frost_spike_ground_inset())),
            );
            let goes = Spot::of(r.velocity).scale(exact(frost_spike_rise_duration()));
            let gets = Spot::of(r.start).plus(goes);
            &&& within(r.normal.x, exact(msg.normal.x) / d, 20real)
            &&& within(r.normal.y, exact(msg.normal.y) / d, 20real)
            &&& within(r.normal.z, exact(msg.normal.z) / d, 20real)
            &&& r.start.is_finite()
            &&& r.velocity.is_finite()
            &&& size(gets.x - stands.x) * grains() <= l * 5000real
            &&& size(gets.y - stands.y) * grains() <= l * 5000real
            &&& size(gets.z - stands.z) * grains() <= l * 5000real
        }),
{
    let r = risen(msg, scale, caster);
    let (b, s) = (exact(frost_spike_base_height()), exact(scale));
    lemma_normalized(msg.normal, d, 0real);
    lemma_unit_sized(msg.normal, d);
    lemma_spike_constants();
    lemma_scale_ordered(s, b, 2real);
    lemma_scale_ordered(s, 0real, b);
    lemma_swap(s, b);
    let h = b * s;
    lemma_times_close(frost_spike_base_height(), scale, 128real);
    let height = frost_spike_base_height().times(scale);
    lemma_stands(msg.origin.x, r.normal.x, height, h, l);
    lemma_stands(msg.origin.y, r.normal.y, height, h, l);
    lemma_stands(msg.origin.z, r.normal.z, height, h, l);
    let (t, k) = (
        exact(frost_spike_rise_duration()),
        h / 2real - exact(frost_spike_ground_inset()),
    );
    lemma_swap(t, exact(r.velocity.x));
    lemma_swap(t, exact(r.velocity.y));
    lemma_swap(t, exact(r.velocity.z));
    lemma_swap(k, exact(r.normal.x));
    lemma_swap(k, exact(r.normal.y));
    lemma_swap(k, exact(r.normal.z));
}

/// What is part of something is no longer.
proof fn lemma_unit_sized(v: Vec3, d: real)
    requires
        d > 0real,
        d * d == Spot::of(v).dot(Spot::of(v)),
    ensures
        size(exact(v.x) / d) <= 1real,
        size(exact(v.y) / d) <= 1real,
        size(exact(v.z) / d) <= 1real,
{
    lemma_reach_parts(Spot::of(v), d);
    lemma_part_sized(exact(v.x), d);
    lemma_part_sized(exact(v.y), d);
    lemma_part_sized(exact(v.z), d);
}

proof fn lemma_part_sized(x: real, d: real)
    requires
        d > 0real,
        size(x) <= d,
    ensures
        size(x / d) <= 1real,
{
    let q = x / d;
    lemma_quotient_back(x, d);
    lemma_swap(q, d);
    lemma_cancel(d, q, 1real);
    lemma_opposite(d, q);
    lemma_cancel(d, -q, 1real);
}

/// One coordinate of a spike that rises.
proof fn lemma_stands(o: Scalar, n: Scalar, height: Scalar, h: real, l: real)
    requires
        o.is_finite(),
        size(exact(o)) <= l,
        n.is_finite(),
        size(exact(n)) <= 2real,
        within(height, h, 128real),
        0real <= h <= 128real,
        1real <= l <= 16777216real,
    ensures
        ({
            let rest = o.plus(n.times(height.times(half_of()).minus(frost_spike_ground_inset())));
            let start = rest.minus(n.times(height));
            let velocity = n.times(height.over(frost_spike_rise_duration()));
            &&& start.is_finite()
            &&& velocity.is_finite()
            &&& size(
                exact(start) + exact(frost_spike_rise_duration()) * exact(velocity) - (exact(o)
                    + (h / 2real - exact(frost_spike_ground_inset())) * exact(n)),
            ) * grains() <= l * 5000real
        }),
{
    let g = grains();
    let (half, inset, time) = (
        half_of(),
        frost_spike_ground_inset(),
        frost_spike_rise_duration(),
    );
    let (x, i, t) = (exact(n), exact(inset), exact(time));
    lemma_spike_constants();
    let k = h / 2real;
    assert(k == h * exact(half)) by {
        lemma_regroup(h, exact(half), 2real);
    }
    lemma_regroup(size(h) * g + 128real, exact(half), 2real);
    lemma_times_near(height, h, 128real, half, 65real);
    lemma_minus_within(height.times(half), k, 129real, inset, i, 0real, 66real);
    let up = height.times(half).minus(inset);
    assert(within(up, k - i, 195real));
    lemma_multiple(n, up, k - i, 195real, 66real);
    lemma_multiple(n, height, h, 128real, 128real);
    let (a, b) = (x * (k - i), x * h);
    lemma_size_of_product(x, k - i, 2real, 66real);
    lemma_size_of_product(x, h, 2real, 128real);
    lemma_plus_within(o, exact(o), 0real, n.times(up), a, 660real, l + 133real);
    let rest = o.plus(n.times(up));
    lemma_minus_within(
        rest,
        exact(o) + a,
        l + 793real,
        n.times(height),
        b,
        520real,
        l + 400real,
    );
    // How fast.
    lemma_over_near(height, h, 128real, time, 1032real);
    let (v, e) = (h / t, 128real / t);
    lemma_quotient_back(h, t);
    lemma_quotient_back(128real, t);
    assert(0real <= e <= 1024real && 0real <= v <= 1024real) by {
        lemma_swap(e, t);
        lemma_swap(v, t);
        lemma_cancel(t, e, 1024real);
        lemma_cancel(t, 0real, e);
        lemma_cancel(t, v, 1024real);
        lemma_cancel(t, 0real, v);
    }
    lemma_multiple(n, height.over(time), v, 2056real, 1032real);
    let velocity = n.times(height.over(time));
    let w = exact(velocity);
    assert(t * (x * v) == b) by {
        lemma_regroup(x, v, t);
        lemma_swap(t, x * v);
    }
    lemma_spread_minus(w, x * v, t);
    lemma_size_of_product(t, (w - x * v) * g, 1real, 6200real);
    lemma_regroup(t, w - x * v, g);
    lemma_size_of_product(t * 4real, (w - x * v) * g, 1real, 6200real);
    lemma_regroup(t, 4real, (w - x * v) * g);
    lemma_spread_minus(k, i, x);
    lemma_swap(x, k - i);
}

/// A multiple of what is close to something.
proof fn lemma_multiple(n: Scalar, p: Scalar, y: real, e: real, top: real)
    requires
        n.is_finite(),
        size(exact(n)) <= 2real,
        within(p, y, e),
        size(y) <= top,
        0real <= e <= 65536real,
        1real <= top <= 65536real,
    ensures
        within(n.times(p), exact(n) * y, e * 2real + top * 2real + 2real),
{
    let g = grains();
    let x = exact(n);
    lemma_size_of_product(x, exact(p), 2real, top + 1real);
    lemma_times_close(n, p, top * 2real + 2real);
    lemma_spread_minus(exact(p), y, x);
    lemma_size_of_product(x, (exact(p) - y) * g, 2real, e);
    lemma_regroup(x, exact(p) - y, g);
}

/// A spike hurts by how large it is, and by how much charge went into it.
pub proof fn law_charged_spikes_hurt_more(
    msg: FrostSpireMessage,
    scale: Scalar,
    caster: Option<Entity>,
    top: real,
)
    requires
        scale.is_finite(),
        msg.captured_charge.is_finite(),
        0real <= exact(scale) <= top,
        0real <= exact(msg.captured_charge) <= top,
        1real <= top <= 1048576real,
    ensures
        ({
            let r = risen(msg, scale, caster).spike;
            &&& within(
                r.damage,
                exact(frost_spike_base_damage()) * exact(scale) + exact(
                    frost_spike_damage_per_charge(),
                ) * exact(msg.captured_charge),
                top * 200real,
            )
            &&& r.caster == caster
            &&& r.rise_remaining == frost_spike_rise_duration()
        }),
{
    let (a, b) = (exact(frost_spike_base_damage()), exact(frost_spike_damage_per_charge()));
    let (s, c) = (exact(scale), exact(msg.captured_charge));
    lemma_spike_constants();
    lemma_size_of_product(a, s, 32real, top);
    lemma_size_of_product(b, c, 32real, top);
    lemma_times_close(frost_spike_base_damage(), scale, top * 32real);
    lemma_times_close(frost_spike_damage_per_charge(), msg.captured_charge, top * 32real);
    lemma_plus_within(
        frost_spike_base_damage().times(scale),
        a * s,
        top * 32real,
        frost_spike_damage_per_charge().times(msg.captured_charge),
        b * c,
        top * 32real,
        top * 65real,
    );
}

} // verus!

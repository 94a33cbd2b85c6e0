//! What hits and blasts take, set against exact numbers.
//!
//! How far a result is off is counted in grains.

use crate::closeness::{
    exact, grains, lemma_exact, lemma_exact_constants, lemma_exact_ordered, lemma_minus_close,
    lemma_neg_close, lemma_over_close, lemma_quotient_back, lemma_size_of_product,
    lemma_times_close, limit, size, within,
};
use crate::entity::Entity;
use crate::measuring::lemma_distance_close;
use crate::net::protocol::BeamImpulseMessage;
use crate::net::server_bodies::{after_beam, BeamHit};
use crate::scalar::{
    lemma_order_is_value, lemma_sum_ordered, lemma_times_not_negative, lemma_times_one, one, zero,
    Scalar,
};
use crate::spells::damage::{
    blast_damage, contact, deaths_after, hitbox_of, is_lethal, respawned, takes, victim_place,
    wounded, Blast, DeathEvent, FalloffKind, Fray, Hitbox, HitboxCarrier, Mortal, Team, Victim,
    SPAWN_POINT_COUNT,
};
use crate::turning::{
    lemma_cancel, lemma_regroup, lemma_scale_ordered, lemma_spread_minus, lemma_swap, Spot,
};
use vstd::prelude::*;

verus! {

/// Whether there is something to lose, and no more than `top`.
pub open spec fn has_at_most(victim: Victim, top: real) -> bool {
    &&& victim.hurtbox.hp.is_finite()
    &&& 0real < exact(victim.hurtbox.hp) <= top
    &&& 1real <= top * limit()
    &&& top <= limit() / 4real
}

/// A hit takes its amount, and no more than there is. What loses its last dies of it, by
/// the hand of who is to be credited; nothing else does. All but the strength stays.
pub proof fn law_hit_takes_its_amount(
    victim: Victim,
    amount: Scalar,
    source: Option<Entity>,
    deaths: Seq<DeathEvent>,
    top: real,
)
    requires
        has_at_most(victim, top),
        amount.is_finite(),
        0real < exact(amount) <= limit() / 4real,
    ensures
        ({
            let after = wounded(victim, amount);
            let left = exact(victim.hurtbox.hp) - exact(amount);
            let death = DeathEvent { entity: victim.entity, killer: source };
            &&& after.entity == victim.entity
            &&& after.position == victim.position
            &&& after.hurtbox.team == victim.hurtbox.team
            &&& after.hurtbox.max_hp == victim.hurtbox.max_hp
            &&& after.hurtbox.hp.is_finite()
            &&& left <= 0real ==> exact(after.hurtbox.hp) == 0real && is_lethal(
                victim.hurtbox,
                amount,
            ) && deaths_after(deaths, victim, amount, source) == deaths.push(death)
            &&& left > 0real ==> within(after.hurtbox.hp, left, top) && exact(after.hurtbox.hp)
                >= 0real
            &&& left * grains() > top ==> !is_lethal(victim.hurtbox, amount) && deaths_after(
                deaths,
                victim,
                amount,
                source,
            ) == deaths
        }),
{
    let hp = victim.hurtbox.hp;
    let left = exact(hp) - exact(amount);
    let next = hp.minus(amount);
    lemma_exact_constants();
    lemma_exact_ordered(amount, zero());
    lemma_exact_ordered(hp, zero());
    lemma_neg_close(amount);
    if left <= 0real {
        lemma_exact_ordered(hp, amount);
        lemma_order_is_value(hp, amount);
        lemma_exact(amount);
        lemma_exact(amount.neg());
        assert(amount.neg().value() == -amount.value());
        lemma_sum_ordered(hp, amount.neg(), zero());
        lemma_no_more(next);
    } else {
        lemma_minus_close(hp, amount, top);
        lemma_exact_ordered(next, zero());
    }
}

/// What is not above nothing is nothing, where less counts as nothing.
proof fn lemma_no_more(a: Scalar)
    requires
        a.le(zero()),
    ensures
        a.max(zero()).is_finite(),
        exact(a.max(zero())) == 0real,
        a.max(zero()).le(zero()),
{
    lemma_exact_constants();
    if !a.lt(zero()) {
        lemma_exact(a);
        lemma_exact_ordered(a, zero());
    }
}

/// A hit of nothing takes nothing.
pub proof fn law_no_amount_takes_nothing(victim: Victim, amount: Scalar)
    requires
        amount.le(zero()),
    ensures
        wounded(victim, amount) == victim,
        !is_lethal(victim.hurtbox, amount),
{
}

/// Whether `d` is how far a victim is from where a blast began, over all three axes.
pub open spec fn is_away(blast: Blast, victim: Victim, d: real) -> bool {
    let u = Spot::of(victim.position).minus(Spot::of(blast.origin));
    &&& victim.position.is_finite()
    &&& blast.origin.is_finite()
    &&& 0real <= d <= 134217728real
    &&& d * d == u.dot(u)
}

/// A blast does nothing to what is farther away than its radius.
pub proof fn law_blast_ends_at_its_radius(blast: Blast, victim: Victim, d: real)
    requires
        is_away(blast, victim, d),
        blast.radius.is_finite(),
        (d - exact(blast.radius)) * grains() > d * 25real + 4real,
    ensures
        blast_damage(blast, victim).equals(zero()),
        wounded(victim, blast_damage(blast, victim)) == victim,
{
    lemma_distance_close(victim.position, blast.origin, d);
    lemma_exact_ordered(victim.position.minus(blast.origin).length(), blast.radius);
}

/// Whether a blast is one that hurts a victim at the distance `d` within its radius.
pub open spec fn strikes(blast: Blast, victim: Victim, d: real) -> bool {
    &&& is_away(blast, victim, d)
    &&& blast.radius.is_finite()
    &&& exact(blast.radius) * 16real >= 1real
    &&& exact(blast.radius) <= 268435456real
    &&& (exact(blast.radius) - d) * grains() > d * 25real + 4real
    &&& blast.base_damage.is_finite()
    &&& exact(blast.base_damage) * limit() >= 1real
    &&& exact(blast.base_damage) <= limit() / 4real
    &&& blast.source != Some(victim.entity)
    &&& Team::can_damage(blast.source_team, victim.hurtbox.team)
    &&& victim.hurtbox.hp.is_finite()
    &&& exact(victim.hurtbox.hp) > 0real
}

/// Within its radius a blast that falls off evenly does the part of its damage that is
/// left at the distance: all of it in the middle, half of it half way, nothing at the
/// edge. One that does not fall off does all of it.
pub proof fn law_blast_falls_off(blast: Blast, victim: Victim, d: real)
    requires
        strikes(blast, victim, d),
    ensures
        ({
            let amount = blast_damage(blast, victim);
            let (base, radius) = (exact(blast.base_damage), exact(blast.radius));
            &&& blast.falloff == FalloffKind::Linear ==> within(
                amount,
                base * (1real - d / radius),
                base * 95real,
            ) && exact(amount) >= 0real
            &&& blast.falloff == FalloffKind::Flat ==> amount.is_finite() && exact(amount) == base
        }),
{
    let g = grains();
    let dist = victim.position.minus(blast.origin).length();
    let (base, radius) = (exact(blast.base_damage), exact(blast.radius));
    lemma_exact_constants();
    lemma_exact_ordered(blast.radius, zero());
    lemma_exact_ordered(blast.base_damage, zero());
    lemma_exact_ordered(victim.hurtbox.hp, zero());
    lemma_distance_close(victim.position, blast.origin, d);
    lemma_exact_ordered(dist, blast.radius);
    let r = exact(dist);
    assert(r <= radius);
    if blast.falloff == FalloffKind::Flat {
        lemma_times_one(blast.base_damage, one());
        lemma_exact(blast.base_damage);
        lemma_exact(blast.base_damage.times(one()));
    } else {
        let (q, x) = (r / radius, d / radius);
        lemma_quotient_back(r, radius);
        lemma_quotient_back(d, radius);
        lemma_swap(q, radius);
        lemma_swap(x, radius);
        lemma_cancel(radius, q, 1real);
        lemma_cancel(radius, 0real, q);
        lemma_cancel(radius, x, 1real);
        lemma_cancel(radius, 0real, x);
        lemma_over_close(dist, blast.radius, 1real);
        let ratio = dist.over(blast.radius);
        // How far the quotients are apart.
        let w = size(q - x) * g;
        assert(w <= 89real) by {
            lemma_spread_minus(q, x, radius);
            assert(radius * (q - x) == r - d);
            let y = size(q - x);
            assert(radius * y == size(r - d)) by {
                lemma_spread_minus(x, q, radius);
                lemma_scale_ordered(radius, 0real, y);
            }
            lemma_regroup(radius, y, g);
            assert(radius * w <= radius * 89real);
            lemma_cancel(radius, w, 89real);
        }
        lemma_minus_close(one(), ratio, 2real);
        let rest = one().minus(ratio);
        assert(within(rest, 1real - x, 92real));
        lemma_exact_ordered(rest, zero());
        lemma_exact_ordered(one(), rest);
        let part = rest.clamp(zero(), one());
        assert(within(part, 1real - x, 92real));
        let p = exact(part);
        assert(0real <= p <= 1real);
        lemma_scale_ordered(base, p, 1real);
        lemma_scale_ordered(base, 0real, p);
        lemma_times_close(blast.base_damage, part, base);
        lemma_size_of_product(base, (p - (1real - x)) * g, base, 92real);
        lemma_regroup(base, p - (1real - x), g);
        lemma_spread_minus(p, 1real - x, base);
        lemma_times_not_negative(blast.base_damage, part);
        lemma_exact_ordered(zero(), part);
        lemma_exact_ordered(zero(), blast.base_damage.times(part));
    }
}

/// What a blast leaves of a victim within its radius, where it falls off evenly: what
/// there was, less the part of the damage that is left at the distance.
pub proof fn law_blast_hurts(blast: Blast, victim: Victim, d: real, top: real)
    requires
        strikes(blast, victim, d),
        has_at_most(victim, top),
        blast.falloff == FalloffKind::Linear,
    ensures
        ({
            let base = exact(blast.base_damage);
            let after = wounded(victim, blast_damage(blast, victim));
            let amount = base * (1real - d / exact(blast.radius));
            let left = exact(victim.hurtbox.hp) - amount;
            let off = base * 95real + top;
            &&& after.hurtbox.hp.is_finite()
            &&& left * grains() > off ==> within(after.hurtbox.hp, left, off)
            &&& left * grains() < -off ==> exact(after.hurtbox.hp) == 0real
        }),
{
    let amount = blast_damage(blast, victim);
    law_blast_falls_off(blast, victim, d);
    lemma_exact_constants();
    lemma_exact_ordered(amount, zero());
    let (base, x) = (exact(blast.base_damage), d / exact(blast.radius));
    assert(base * (1real - x) <= base) by {
        let radius = exact(blast.radius);
        lemma_quotient_back(d, radius);
        lemma_swap(x, radius);
        lemma_cancel(radius, 0real, x);
        lemma_scale_ordered(base, 1real - x, 1real);
    }
    if exact(amount) > 0real {
        if exact(amount) <= limit() / 4real {
            law_hit_takes_its_amount(victim, amount, None, Seq::empty(), top);
        } else {
            lemma_big_hit(victim, amount, top);
        }
    }
}

/// A hit beyond measure takes all.
proof fn lemma_big_hit(victim: Victim, amount: Scalar, top: real)
    requires
        has_at_most(victim, top),
        amount.is_finite(),
        exact(amount) > limit() / 4real,
    ensures
        wounded(victim, amount).hurtbox.hp.is_finite(),
        exact(wounded(victim, amount).hurtbox.hp) == 0real,
{
    let hp = victim.hurtbox.hp;
    let next = hp.minus(amount);
    lemma_exact_constants();
    lemma_exact_ordered(amount, zero());
    lemma_exact_ordered(hp, zero());
    lemma_neg_close(amount);
    lemma_exact_ordered(hp, amount);
    lemma_order_is_value(hp, amount);
    lemma_exact(amount);
    lemma_exact(amount.neg());
    assert(amount.neg().value() == -amount.value());
    lemma_sum_ordered(hp, amount.neg(), zero());
    lemma_no_more(next);
}

/// Sides: players do not hurt players, nor their foes each other. Each hurts the other,
/// and who is on no side hurts and is hurt by all.
pub proof fn law_sides()
    ensures
        !Team::can_damage(Team::Players, Team::Players),
        !Team::can_damage(Team::Hostile, Team::Hostile),
        Team::can_damage(Team::Players, Team::Hostile),
        Team::can_damage(Team::Hostile, Team::Players),
        forall|t: Team| Team::can_damage(Team::Neutral, t) && Team::can_damage(t, Team::Neutral),
{
}

/// Whether the first of those that can be hurt and go by a name stands at `p`.
pub open spec fn is_first(victims: Seq<Victim>, entity: Entity, p: int) -> bool {
    &&& 0 <= p < victims.len()
    &&& victims[p].entity == entity
    &&& forall|i: int| 0 <= i < p ==> (#[trigger] victims[i]).entity != entity
}

/// Who is hit is who is found by the name.
proof fn lemma_first(victims: Seq<Victim>, entity: Entity, p: int)
    requires
        is_first(victims, entity, p),
    ensures
        victim_place(victims, entity) == p,
    decreases p,
{
    if p > 0 {
        let rest = victims.skip(1);
        assert(victims[0].entity != entity);
        assert forall|i: int| 0 <= i < p - 1 implies (#[trigger] rest[i]).entity != entity by {
            assert(rest[i] == victims[i + 1]);
        }
        assert(rest[p - 1] == victims[p]);
        lemma_first(rest, entity, p - 1);
    }
}

/// Something that hurts touches something that can be hurt, of another side and not the
/// one to be credited: it takes its damage, once if that is all it does. Nothing else
/// changes.
pub proof fn law_contact_hurts(
    state: Fray,
    carriers: Seq<HitboxCarrier>,
    first: Entity,
    second: Entity,
    hitbox: Hitbox,
    p: int,
    top: real,
)
    requires
        !state.used.contains(first),
        !state.used.contains(second),
        hitbox_of(carriers, first) == Some(hitbox),
        is_first(state.victims, second, p),
        Team::can_damage(hitbox.team, state.victims[p].hurtbox.team),
        hitbox.source != Some(state.victims[p].entity),
        has_at_most(state.victims[p], top),
        hitbox.damage.is_finite(),
        0real < exact(hitbox.damage) <= limit() / 4real,
    ensures
        ({
            let after = contact(state, carriers, first, second);
            let left = exact(state.victims[p].hurtbox.hp) - exact(hitbox.damage);
            &&& after.victims.len() == state.victims.len()
            &&& forall|i: int|
                0 <= i < state.victims.len() && i != p ==> #[trigger] after.victims[i]
                    == state.victims[i]
            &&& left <= 0real ==> exact(after.victims[p].hurtbox.hp) == 0real && after.deaths
                == state.deaths.push(
                DeathEvent { entity: state.victims[p].entity, killer: hitbox.source },
            )
            &&& left > 0real ==> within(after.victims[p].hurtbox.hp, left, top)
            &&& left * grains() > top ==> after.deaths == state.deaths
            &&& after.used.contains(first) == hitbox.single_hit
        }),
{
    lemma_exact_constants();
    lemma_exact_ordered(hitbox.damage, zero());
    lemma_exact_ordered(state.victims[p].hurtbox.hp, zero());
    law_hit_takes_its_amount(state.victims[p], hitbox.damage, hitbox.source, state.deaths, top);
    lemma_first(state.victims, second, p);
    let after = contact(state, carriers, first, second);
    if hitbox.single_hit {
        assert(after.used.last() == first);
        assert(after.used.contains(first));
    }
}

/// Something that touches its own side, or the one to be credited, does nothing to it.
pub proof fn law_contact_spares_its_own(
    state: Fray,
    carriers: Seq<HitboxCarrier>,
    first: Entity,
    second: Entity,
    hitbox: Hitbox,
    p: int,
)
    requires
        hitbox_of(carriers, first) == Some(hitbox),
        is_first(state.victims, second, p),
        hitbox.team == state.victims[p].hurtbox.team && hitbox.team != Team::Neutral
            || hitbox.source == Some(state.victims[p].entity),
    ensures
        contact(state, carriers, first, second) == state,
{
    lemma_first(state.victims, second, p);
}

/// Players who come back are at rest, at full strength, and apart from each other unless
/// they share a point; all points are as high and as far back.
pub proof fn law_players_come_back_apart(one_player: Mortal, other: Mortal)
    ensures
        ({
            let (a, b) = (respawned(one_player), respawned(other));
            &&& Spot::of(a.velocity) == (Spot { x: 0real, y: 0real, z: 0real })
            &&& a.hurtbox.hp == one_player.hurtbox.max_hp
            &&& a.entity == one_player.entity
            &&& a.position.is_finite()
            &&& a.position.y == b.position.y
            &&& a.position.z == b.position.z
            &&& one_player.owner % SPAWN_POINT_COUNT != other.owner % SPAWN_POINT_COUNT
                <==> a.position.x != b.position.x
        }),
{
    lemma_exact_constants();
}

/// A beam takes its damage off what it met, by the hand of who shot it, and changes
/// nothing else. One that met nothing, or does no damage, hurts nothing.
pub proof fn law_beam_hurts_what_it_meets(
    victims: Seq<Victim>,
    deaths: Seq<DeathEvent>,
    msg: BeamImpulseMessage,
    hit: BeamHit,
    shooter: Option<Entity>,
    p: int,
    top: real,
)
    requires
        is_first(victims, hit.entity, p),
        has_at_most(victims[p], top),
        msg.damage.is_finite(),
        exact(msg.damage) <= limit() / 4real,
    ensures
        ({
            let (after, dead) = after_beam(victims, deaths, msg, Some(hit), shooter);
            let left = exact(victims[p].hurtbox.hp) - exact(msg.damage);
            let hurt = exact(msg.damage) > 0real;
            &&& after.len() == victims.len()
            &&& forall|i: int|
                0 <= i < victims.len() && i != p ==> #[trigger] after[i] == victims[i]
            &&& !hurt ==> after == victims && dead == deaths
            &&& hurt && left <= 0real ==> exact(after[p].hurtbox.hp) == 0real && dead
                == deaths.push(DeathEvent { entity: hit.entity, killer: shooter })
            &&& hurt && left > 0real ==> within(after[p].hurtbox.hp, left, top)
            &&& hurt && left * grains() > top ==> dead == deaths
        }),
        after_beam(victims, deaths, msg, None, shooter) == (victims, deaths),
{
    lemma_exact_constants();
    lemma_exact_ordered(zero(), msg.damage);
    lemma_first(victims, hit.entity, p);
    if exact(msg.damage) > 0real {
        law_hit_takes_its_amount(victims[p], msg.damage, shooter, deaths, top);
    }
}

} // verus!

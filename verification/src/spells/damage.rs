//! Who can hurt whom, how much, and what death leads to.

use crate::entity::{holds, Entity};
use crate::net::protocol::NetworkedHealth;
use crate::scalar::{
    lemma_minus_no_greater, lemma_order_is_value, lemma_over_at_least_one, lemma_over_ordered,
    lemma_plus_ordered, lemma_sum_ordered, one, zero, Scalar,
};
use crate::vector::Vec3;
use vstd::prelude::*;

verus! {

/// What a player has to lose (`100.0`).
#[verifier::allow_in_spec]
pub fn player_max_hp() -> Scalar
    returns
        (Scalar { bits: 0x42c8_0000 }),
{
    Scalar { bits: 0x42c8_0000 }
}

/// How far out the outer spawn points are (`-6.0`).
#[verifier::allow_in_spec]
pub fn spawn_far() -> Scalar
    returns
        (Scalar { bits: 0xc0c0_0000 }),
{
    Scalar { bits: 0xc0c0_0000 }
}

/// How far out the inner spawn points are (`-2.0`).
#[verifier::allow_in_spec]
pub fn spawn_near() -> Scalar
    returns
        (Scalar { bits: 0xc000_0000 }),
{
    Scalar { bits: 0xc000_0000 }
}

/// How high up the spawn points are (`1.5`).
#[verifier::allow_in_spec]
pub fn spawn_height() -> Scalar
    returns
        (Scalar { bits: 0x3fc0_0000 }),
{
    Scalar { bits: 0x3fc0_0000 }
}

/// How far back the spawn points are (`8.0`).
#[verifier::allow_in_spec]
pub fn spawn_depth() -> Scalar
    returns
        (Scalar { bits: 0x4100_0000 }),
{
    Scalar { bits: 0x4100_0000 }
}

/// How many points there are to come back at.
pub const SPAWN_POINT_COUNT: u64 = 4;

pub open spec fn spec_spawn_point(i: u64) -> Vec3 {
    let x = if i == 0 {
        spawn_far()
    } else if i == 1 {
        spawn_near()
    } else if i == 2 {
        spawn_near().neg()
    } else {
        spawn_far().neg()
    };
    Vec3 { x, y: spawn_height(), z: spawn_depth() }
}

/// The points that players come back at, in a row.
#[verifier::when_used_as_spec(spec_spawn_point)]
pub fn spawn_point(i: u64) -> (r: Vec3)
    ensures
        r == spec_spawn_point(i),
{
    let x = if i == 0 {
        spawn_far()
    } else if i == 1 {
        spawn_near()
    } else if i == 2 {
        spawn_near().neg()
    } else {
        spawn_far().neg()
    };
    Vec3 { x, y: spawn_height(), z: spawn_depth() }
}

/// On whose side something is.
#[derive(Clone, Copy, Debug, PartialEq, Eq, Structural)]
pub enum Team {
    Players,
    Hostile,
    Neutral,
}

impl Team {
    pub open spec fn spec_can_damage(attacker: Team, victim: Team) -> bool {
        attacker == Team::Neutral || victim == Team::Neutral || attacker != victim
    }

    /// Whether one side can hurt the other: not its own. Who is on no side can
    /// hurt, and be hurt by, everyone.
    #[verifier::when_used_as_spec(spec_can_damage)]
    pub fn can_damage(attacker: Team, victim: Team) -> (r: bool)
        ensures
            r == Self::spec_can_damage(attacker, victim),
    {
        attacker == Team::Neutral || victim == Team::Neutral || attacker != victim
    }
}

/// What can be hurt.
#[derive(Clone, Copy, Debug, PartialEq, Eq, Structural)]
pub struct Hurtbox {
    pub hp: Scalar,
    pub max_hp: Scalar,
    pub team: Team,
}

impl Hurtbox {
    pub open spec fn spec_new(max_hp: Scalar, team: Team) -> Hurtbox {
        Hurtbox { hp: max_hp, max_hp, team }
    }

    /// Unhurt.
    #[verifier::when_used_as_spec(spec_new)]
    pub fn new(max_hp: Scalar, team: Team) -> (r: Hurtbox)
        ensures
            r == Self::spec_new(max_hp, team),
    {
        Hurtbox { hp: max_hp, max_hp, team }
    }
}

/// What hurts on contact.
#[derive(Clone, Copy, Debug, PartialEq, Eq, Structural)]
pub struct Hitbox {
    pub damage: Scalar,
    pub team: Team,
    /// Who is to be credited, and is never hurt.
    pub source: Option<Entity>,
    /// Whether it is used up once it has hurt something.
    pub single_hit: bool,
}

/// How damage changes with the distance.
#[derive(Clone, Copy, Debug, PartialEq, Eq, Structural)]
pub enum FalloffKind {
    /// Evenly, from all of it in the middle to nothing at the edge.
    Linear,
    /// Not at all.
    Flat,
}

impl FalloffKind {
    pub open spec fn spec_scale(self, distance: Scalar, radius: Scalar) -> Scalar {
        match self {
            FalloffKind::Flat => one(),
            FalloffKind::Linear => if radius.le(zero()) {
                one()
            } else {
                one().minus(distance.over(radius)).clamp(zero(), one())
            },
        }
    }

    /// The part of the damage that is left at `distance`.
    #[verifier::when_used_as_spec(spec_scale)]
    pub fn scale(self, distance: Scalar, radius: Scalar) -> (r: Scalar)
        ensures
            r == self.spec_scale(distance, radius),
    {
        match self {
            FalloffKind::Flat => one(),
            FalloffKind::Linear => if radius.le(zero()) {
                one()
            } else {
                one().minus(distance.over(radius)).clamp(zero(), one())
            },
        }
    }
}

/// Something has lost all it had.
#[derive(Clone, Copy, Debug, PartialEq, Eq, Structural)]
pub struct DeathEvent {
    pub entity: Entity,
    pub killer: Option<Entity>,
}

/// Something that can be hurt, where it is, and what everyone sees of it.
#[derive(Clone, Copy, Debug, PartialEq, Eq, Structural)]
pub struct Victim {
    pub entity: Entity,
    pub position: Vec3,
    pub hurtbox: Hurtbox,
    pub health: Option<NetworkedHealth>,
}

pub open spec fn spec_takes(hurtbox: Hurtbox, amount: Scalar) -> bool {
    !amount.le(zero()) && amount.is_finite() && !hurtbox.hp.le(zero())
}

/// Whether a hit does anything: it is a real amount, and there is something left
/// to lose.
#[verifier::when_used_as_spec(spec_takes)]
pub fn takes(hurtbox: Hurtbox, amount: Scalar) -> (r: bool)
    ensures
        r == spec_takes(hurtbox, amount),
{
    !amount.le(zero()) && amount.is_finite() && !hurtbox.hp.le(zero())
}

pub open spec fn spec_hp_after(hurtbox: Hurtbox, amount: Scalar) -> Scalar {
    if takes(hurtbox, amount) {
        hurtbox.hp.minus(amount).max(zero())
    } else {
        hurtbox.hp
    }
}

/// What is left after a hit.
#[verifier::when_used_as_spec(spec_hp_after)]
pub fn hp_after(hurtbox: Hurtbox, amount: Scalar) -> (r: Scalar)
    ensures
        r == spec_hp_after(hurtbox, amount),
{
    if takes(hurtbox, amount) {
        hurtbox.hp.minus(amount).max(zero())
    } else {
        hurtbox.hp
    }
}

pub open spec fn spec_is_lethal(hurtbox: Hurtbox, amount: Scalar) -> bool {
    takes(hurtbox, amount) && hp_after(hurtbox, amount).le(zero())
}

/// Whether a hit takes the last that was left.
#[verifier::when_used_as_spec(spec_is_lethal)]
pub fn is_lethal(hurtbox: Hurtbox, amount: Scalar) -> (r: bool)
    ensures
        r == spec_is_lethal(hurtbox, amount),
{
    takes(hurtbox, amount) && hp_after(hurtbox, amount).le(zero())
}

pub open spec fn spec_wounded(victim: Victim, amount: Scalar) -> Victim {
    if takes(victim.hurtbox, amount) {
        let hp = hp_after(victim.hurtbox, amount);
        Victim {
            entity: victim.entity,
            position: victim.position,
            hurtbox: Hurtbox { hp, max_hp: victim.hurtbox.max_hp, team: victim.hurtbox.team },
            health: match victim.health {
                Some(_) => Some(NetworkedHealth { hp, max_hp: victim.hurtbox.max_hp }),
                None => None,
            },
        }
    } else {
        victim
    }
}

/// Something after a hit. What everyone sees follows what there is.
#[verifier::when_used_as_spec(spec_wounded)]
pub fn wounded(victim: Victim, amount: Scalar) -> (r: Victim)
    ensures
        r == spec_wounded(victim, amount),
{
    if takes(victim.hurtbox, amount) {
        let hp = hp_after(victim.hurtbox, amount);
        Victim {
            entity: victim.entity,
            position: victim.position,
            hurtbox: Hurtbox { hp, max_hp: victim.hurtbox.max_hp, team: victim.hurtbox.team },
            health: match victim.health {
                Some(_) => Some(NetworkedHealth { hp, max_hp: victim.hurtbox.max_hp }),
                None => None,
            },
        }
    } else {
        victim
    }
}

/// The deaths after a hit.
pub open spec fn deaths_after(
    deaths: Seq<DeathEvent>,
    victim: Victim,
    amount: Scalar,
    source: Option<Entity>,
) -> Seq<DeathEvent> {
    if is_lethal(victim.hurtbox, amount) {
        deaths.push(DeathEvent { entity: victim.entity, killer: source })
    } else {
        deaths
    }
}

/// Hits something. The result tells whether that was lethal.
pub fn apply_damage_to_hurtbox(
    victim: &mut Victim,
    amount: Scalar,
    source: Option<Entity>,
    deaths: &mut Vec<DeathEvent>,
) -> (r: bool)
    ensures
        *final(victim) == wounded(*old(victim), amount),
        final(deaths)@ == deaths_after(old(deaths)@, *old(victim), amount, source),
        r == is_lethal(old(victim).hurtbox, amount),
{
    let lethal = is_lethal(victim.hurtbox, amount);
    if lethal {
        deaths.push(DeathEvent { entity: victim.entity, killer: source });
    }
    *victim = wounded(*victim, amount);
    lethal
}

/// Where the first victim named `entity` stands; the length, if there is none.
pub open spec fn victim_place(victims: Seq<Victim>, entity: Entity) -> int
    decreases victims.len(),
{
    if victims.len() == 0 || victims[0].entity == entity {
        0
    } else {
        1 + victim_place(victims.skip(1), entity)
    }
}

fn find_victim(victims: &Vec<Victim>, entity: Entity) -> (r: usize)
    ensures
        r == victim_place(victims@, entity),
        r <= victims@.len(),
        r < victims@.len() ==> victims@[r as int].entity == entity,
{
    let mut i: usize = 0;
    assert(victims@.skip(0) =~= victims@);
    while i < victims.len()
        invariant
            i <= victims.len(),
            victim_place(victims@, entity) == i + victim_place(victims@.skip(i as int), entity),
        decreases victims.len() - i,
    {
        if victims[i].entity == entity {
            return i;
        }
        assert(victims@.skip(i as int).skip(1) =~= victims@.skip(i + 1));
        i += 1;
    }
    i
}

/// Hits what is named `target`; nothing, if that cannot be hurt.
pub fn apply_damage(
    victims: &mut Vec<Victim>,
    target: Entity,
    amount: Scalar,
    source: Option<Entity>,
    deaths: &mut Vec<DeathEvent>,
)
    ensures
        ({
            let p = victim_place(old(victims)@, target);
            if p < old(victims)@.len() {
                &&& final(victims)@ == old(victims)@.update(p, wounded(old(victims)@[p], amount))
                &&& final(deaths)@ == deaths_after(
                    old(deaths)@,
                    old(victims)@[p],
                    amount,
                    source,
                )
            } else {
                &&& final(victims)@ == old(victims)@
                &&& final(deaths)@ == old(deaths)@
            }
        }),
{
    let p = find_victim(victims, target);
    if p < victims.len() {
        let mut victim = victims[p];
        let _ = apply_damage_to_hurtbox(&mut victim, amount, source, deaths);
        victims.set(p, victim);
    }
}

/// Whose side something is on: nobody's, if it cannot be hurt.
pub fn lookup_team(victims: &Vec<Victim>, entity: Entity) -> (r: Team)
    ensures
        r == (if victim_place(victims@, entity) < victims@.len() {
            victims@[victim_place(victims@, entity)].hurtbox.team
        } else {
            Team::Neutral
        }),
{
    let p = find_victim(victims, entity);
    if p < victims.len() {
        victims[p].hurtbox.team
    } else {
        Team::Neutral
    }
}

/// What hurts on contact, by what carries it.
#[derive(Clone, Copy, Debug, PartialEq, Eq, Structural)]
pub struct HitboxCarrier {
    pub entity: Entity,
    pub hitbox: Hitbox,
}

/// The hitbox that `entity` carries.
pub open spec fn hitbox_of(carriers: Seq<HitboxCarrier>, entity: Entity) -> Option<Hitbox>
    decreases carriers.len(),
{
    if carriers.len() == 0 {
        None
    } else if carriers[0].entity == entity {
        Some(carriers[0].hitbox)
    } else {
        hitbox_of(carriers.skip(1), entity)
    }
}

fn find_hitbox(carriers: &Vec<HitboxCarrier>, entity: Entity) -> (r: Option<Hitbox>)
    ensures
        r == hitbox_of(carriers@, entity),
{
    let mut i: usize = 0;
    assert(carriers@.skip(0) =~= carriers@);
    while i < carriers.len()
        invariant
            i <= carriers.len(),
            hitbox_of(carriers@, entity) == hitbox_of(carriers@.skip(i as int), entity),
        decreases carriers.len() - i,
    {
        if carriers[i].entity == entity {
            return Some(carriers[i].hitbox);
        }
        assert(carriers@.skip(i as int).skip(1) =~= carriers@.skip(i + 1));
        i += 1;
    }
    None
}

/// Which of two things that touch hurts the other: the first the second if it
/// can, else the second the first.
pub open spec fn contact_of(
    carriers: Seq<HitboxCarrier>,
    victims: Seq<Victim>,
    first: Entity,
    second: Entity,
) -> Option<(Entity, Hitbox, int)> {
    if hitbox_of(carriers, first) is Some && victim_place(victims, second) < victims.len() {
        Some((first, hitbox_of(carriers, first)->Some_0, victim_place(victims, second)))
    } else if hitbox_of(carriers, second) is Some && victim_place(victims, first)
        < victims.len() {
        Some((second, hitbox_of(carriers, second)->Some_0, victim_place(victims, first)))
    } else {
        None
    }
}

pub open spec fn spec_contact_counts(hitbox: Hitbox, victim: Victim) -> bool {
    Team::can_damage(hitbox.team, victim.hurtbox.team) && hitbox.source != Some(victim.entity)
}

/// Whether a contact counts: not within a side, and never for who is to be
/// credited.
#[verifier::when_used_as_spec(spec_contact_counts)]
pub fn contact_counts(hitbox: Hitbox, victim: Victim) -> (r: bool)
    ensures
        r == spec_contact_counts(hitbox, victim),
{
    Team::can_damage(hitbox.team, victim.hurtbox.team) && hitbox.source != Some(victim.entity)
}

/// What can be hurt, who died, and what is used up.
pub struct Fray {
    pub victims: Seq<Victim>,
    pub deaths: Seq<DeathEvent>,
    pub used: Seq<Entity>,
}

/// What comes of a contact that counts: a carrier that hurts only once is used up
/// by the first time that it does.
pub open spec fn hurt_on_contact(state: Fray, carrier: Entity, hitbox: Hitbox, p: int) -> Fray {
    Fray {
        victims: state.victims.update(p, wounded(state.victims[p], hitbox.damage)),
        deaths: deaths_after(state.deaths, state.victims[p], hitbox.damage, hitbox.source),
        used: if hitbox.single_hit && takes(state.victims[p].hurtbox, hitbox.damage) {
            state.used.push(carrier)
        } else {
            state.used
        },
    }
}

/// What comes of two things that touch; nothing, once one of them is used up.
pub open spec fn contact(
    state: Fray,
    carriers: Seq<HitboxCarrier>,
    first: Entity,
    second: Entity,
) -> Fray {
    if state.used.contains(first) || state.used.contains(second) {
        state
    } else {
        match contact_of(carriers, state.victims, first, second) {
            None => state,
            Some((carrier, hitbox, p)) => if contact_counts(hitbox, state.victims[p]) {
                hurt_on_contact(state, carrier, hitbox, p)
            } else {
                state
            },
        }
    }
}

/// What comes of the first `n` collisions.
pub open spec fn contacts(
    state: Fray,
    carriers: Seq<HitboxCarrier>,
    collisions: Seq<(Entity, Entity)>,
    n: int,
) -> Fray
    decreases n,
{
    if n <= 0 {
        state
    } else {
        contact(
            contacts(state, carriers, collisions, n - 1),
            carriers,
            collisions[n - 1].0,
            collisions[n - 1].1,
        )
    }
}

fn apply_contact(
    carriers: &Vec<HitboxCarrier>,
    first: Entity,
    second: Entity,
    victims: &mut Vec<Victim>,
    deaths: &mut Vec<DeathEvent>,
    used: &mut Vec<Entity>,
)
    ensures
        (Fray { victims: final(victims)@, deaths: final(deaths)@, used: final(used)@ }) == contact(
            Fray { victims: old(victims)@, deaths: old(deaths)@, used: old(used)@ },
            carriers@,
            first,
            second,
        ),
{
    if holds(used, first) || holds(used, second) {
        return;
    }
    let of_first = find_victim(victims, first);
    let of_second = find_victim(victims, second);
    let by_first = find_hitbox(carriers, first);
    let by_second = find_hitbox(carriers, second);
    let (carrier, hitbox, p) = if by_first.is_some() && of_second < victims.len() {
        (first, by_first.unwrap(), of_second)
    } else if by_second.is_some() && of_first < victims.len() {
        (second, by_second.unwrap(), of_first)
    } else {
        return;
    };
    let mut victim = victims[p];
    if !contact_counts(hitbox, victim) {
        return;
    }
    let hurts = takes(victim.hurtbox, hitbox.damage);
    let _ = apply_damage_to_hurtbox(&mut victim, hitbox.damage, hitbox.source, deaths);
    victims.set(p, victim);
    if hitbox.single_hit && hurts {
        used.push(carrier);
    }
}

/// Goes through the collisions. The result names the carriers that are used up:
/// those that hurt only once, and have.
pub fn apply_contact_damage(
    collisions: &Vec<(Entity, Entity)>,
    carriers: &Vec<HitboxCarrier>,
    victims: &mut Vec<Victim>,
    deaths: &mut Vec<DeathEvent>,
) -> (used: Vec<Entity>)
    ensures
        (Fray { victims: final(victims)@, deaths: final(deaths)@, used: used@ }) == contacts(
            Fray { victims: old(victims)@, deaths: old(deaths)@, used: Seq::empty() },
            carriers@,
            collisions@,
            collisions@.len() as int,
        ),
{
    let ghost start = Fray { victims: victims@, deaths: deaths@, used: Seq::empty() };
    let mut used: Vec<Entity> = Vec::new();
    let mut i: usize = 0;
    assert(used@ =~= start.used);
    while i < collisions.len()
        invariant
            i <= collisions.len(),
            (Fray { victims: victims@, deaths: deaths@, used: used@ }) == contacts(
                start,
                carriers@,
                collisions@,
                i as int,
            ),
        decreases collisions.len() - i,
    {
        apply_contact(carriers, collisions[i].0, collisions[i].1, victims, deaths, &mut used);
        i += 1;
    }
    used
}

/// Damage around a point.
#[derive(Clone, Copy, Debug, PartialEq, Eq, Structural)]
pub struct Blast {
    pub origin: Vec3,
    pub radius: Scalar,
    pub base_damage: Scalar,
    pub falloff: FalloffKind,
    /// Who is to be credited, and is never hurt.
    pub source: Option<Entity>,
    pub source_team: Team,
}

pub open spec fn spec_is_live(blast: Blast) -> bool {
    !blast.radius.le(zero()) && !blast.base_damage.le(zero()) && blast.base_damage.is_finite()
}

/// Whether a blast does anything at all.
#[verifier::when_used_as_spec(spec_is_live)]
pub fn is_live(blast: Blast) -> (r: bool)
    ensures
        r == spec_is_live(blast),
{
    !blast.radius.le(zero()) && !blast.base_damage.le(zero()) && blast.base_damage.is_finite()
}

pub open spec fn spec_blast_damage(blast: Blast, victim: Victim) -> Scalar {
    let distance = victim.position.minus(blast.origin).length();
    if !is_live(blast) || victim.hurtbox.hp.le(zero()) || blast.source == Some(victim.entity)
        || !Team::can_damage(blast.source_team, victim.hurtbox.team) || !distance.le(blast.radius) {
        zero()
    } else {
        blast.base_damage.times(blast.falloff.scale(distance, blast.radius))
    }
}

/// What a blast does to something; nothing to who is to be credited, to what is
/// on the same side, to what has nothing left, and to what is out of reach.
#[verifier::when_used_as_spec(spec_blast_damage)]
pub fn blast_damage(blast: Blast, victim: Victim) -> (r: Scalar)
    ensures
        r == spec_blast_damage(blast, victim),
{
    let distance = victim.position.minus(blast.origin).length();
    if !is_live(blast) || victim.hurtbox.hp.le(zero()) || blast.source == Some(victim.entity)
        || !Team::can_damage(blast.source_team, victim.hurtbox.team) || !distance.le(blast.radius) {
        zero()
    } else {
        blast.base_damage.times(blast.falloff.scale(distance, blast.radius))
    }
}

/// The deaths that a blast leads to, of the first `n` things.
pub open spec fn blast_deaths(
    deaths: Seq<DeathEvent>,
    blast: Blast,
    victims: Seq<Victim>,
    n: int,
) -> Seq<DeathEvent>
    decreases n,
{
    if n <= 0 {
        deaths
    } else {
        deaths_after(
            blast_deaths(deaths, blast, victims, n - 1),
            victims[n - 1],
            blast_damage(blast, victims[n - 1]),
            blast.source,
        )
    }
}

/// Hurts everything that a blast reaches.
pub fn apply_aoe_damage(
    victims: &mut Vec<Victim>,
    blast: Blast,
    deaths: &mut Vec<DeathEvent>,
)
    ensures
        final(victims)@.len() == old(victims)@.len(),
        forall|i: int|
            0 <= i < old(victims)@.len() ==> #[trigger] final(victims)@[i] == wounded(
                old(victims)@[i],
                blast_damage(blast, old(victims)@[i]),
            ),
        final(deaths)@ == blast_deaths(
            old(deaths)@,
            blast,
            old(victims)@,
            old(victims)@.len() as int,
        ),
{
    let ghost before = victims@;
    let ghost start = deaths@;
    let mut i: usize = 0;
    while i < victims.len()
        invariant
            i <= victims.len(),
            victims@.len() == before.len(),
            forall|j: int|
                0 <= j < i ==> #[trigger] victims@[j] == wounded(
                    before[j],
                    blast_damage(blast, before[j]),
                ),
            forall|j: int| i <= j < before.len() ==> #[trigger] victims@[j] == before[j],
            deaths@ == blast_deaths(start, blast, before, i as int),
        decreases victims.len() - i,
    {
        let mut victim = victims[i];
        let amount = blast_damage(blast, victim);
        let _ = apply_damage_to_hurtbox(&mut victim, amount, blast.source, deaths);
        victims.set(i, victim);
        i += 1;
    }
}

/// A player, as far as death is concerned.
#[derive(Clone, Copy, Debug, PartialEq, Eq, Structural)]
pub struct Mortal {
    pub entity: Entity,
    pub owner: u64,
    pub hurtbox: Hurtbox,
    pub health: NetworkedHealth,
    pub position: Vec3,
    pub velocity: Vec3,
}

pub open spec fn spec_respawned(player: Mortal) -> Mortal {
    Mortal {
        entity: player.entity,
        owner: player.owner,
        hurtbox: Hurtbox {
            hp: player.hurtbox.max_hp,
            max_hp: player.hurtbox.max_hp,
            team: player.hurtbox.team,
        },
        health: NetworkedHealth { hp: player.hurtbox.max_hp, max_hp: player.hurtbox.max_hp },
        position: spawn_point(player.owner % SPAWN_POINT_COUNT),
        velocity: Vec3::origin(),
    }
}

/// A player who has died, back at full strength and at rest where the owner's
/// players come back.
#[verifier::when_used_as_spec(spec_respawned)]
pub fn respawned(player: Mortal) -> (r: Mortal)
    ensures
        r == spec_respawned(player),
{
    Mortal {
        entity: player.entity,
        owner: player.owner,
        hurtbox: Hurtbox {
            hp: player.hurtbox.max_hp,
            max_hp: player.hurtbox.max_hp,
            team: player.hurtbox.team,
        },
        health: NetworkedHealth { hp: player.hurtbox.max_hp, max_hp: player.hurtbox.max_hp },
        position: spawn_point(player.owner % SPAWN_POINT_COUNT),
        velocity: Vec3::origin(),
    }
}

/// Where the first player named `entity` stands; the length, if there is none.
pub open spec fn mortal_place(players: Seq<Mortal>, entity: Entity) -> int
    decreases players.len(),
{
    if players.len() == 0 || players[0].entity == entity {
        0
    } else {
        1 + mortal_place(players.skip(1), entity)
    }
}

fn find_mortal(players: &Vec<Mortal>, entity: Entity) -> (r: usize)
    ensures
        r == mortal_place(players@, entity),
        r <= players@.len(),
{
    let mut i: usize = 0;
    assert(players@.skip(0) =~= players@);
    while i < players.len()
        invariant
            i <= players.len(),
            mortal_place(players@, entity) == i + mortal_place(players@.skip(i as int), entity),
        decreases players.len() - i,
    {
        if players[i].entity == entity {
            return i;
        }
        assert(players@.skip(i as int).skip(1) =~= players@.skip(i + 1));
        i += 1;
    }
    i
}

/// The players and what else is gone, after the first `n` deaths.
pub open spec fn after_deaths(
    players: Seq<Mortal>,
    deaths: Seq<DeathEvent>,
    n: int,
) -> (Seq<Mortal>, Seq<Entity>)
    decreases n,
{
    if n <= 0 {
        (players, Seq::empty())
    } else {
        let (left, gone) = after_deaths(players, deaths, n - 1);
        let p = mortal_place(left, deaths[n - 1].entity);
        if p < left.len() {
            (left.update(p, respawned(left[p])), gone)
        } else {
            (left, gone.push(deaths[n - 1].entity))
        }
    }
}

/// Lets players who died come back. The result names everything else that died:
/// it vanishes.
pub fn handle_deaths(deaths: &Vec<DeathEvent>, players: &mut Vec<Mortal>) -> (gone: Vec<Entity>)
    ensures
        (final(players)@, gone@) == after_deaths(
            old(players)@,
            deaths@,
            deaths@.len() as int,
        ),
{
    let ghost start = players@;
    let mut gone: Vec<Entity> = Vec::new();
    let mut i: usize = 0;
    assert(gone@ =~= Seq::<Entity>::empty());
    while i < deaths.len()
        invariant
            i <= deaths.len(),
            (players@, gone@) == after_deaths(start, deaths@, i as int),
        decreases deaths.len() - i,
    {
        let p = find_mortal(players, deaths[i].entity);
        if p < players.len() {
            let back = respawned(players[p]);
            players.set(p, back);
        } else {
            gone.push(deaths[i].entity);
        }
        i += 1;
    }
    gone
}

/// Whether one side can hurt the other does not depend on who attacks.
pub proof fn law_can_damage_is_mutual(a: Team, b: Team)
    ensures
        Team::can_damage(a, b) == Team::can_damage(b, a),
{
}

/// A hit never leaves more than there was, nor less than nothing.
pub proof fn law_damage_only_takes(hurtbox: Hurtbox, amount: Scalar)
    requires
        hurtbox.hp.is_finite(),
        hurtbox.hp.ge(zero()),
    ensures
        hp_after(hurtbox, amount).le(hurtbox.hp),
        hp_after(hurtbox, amount).ge(zero()),
{
    if takes(hurtbox, amount) {
        lemma_minus_no_greater(hurtbox.hp, amount);
    }
}

/// After a lethal hit there is no second death, however hard the next hit is.
pub proof fn law_no_second_death(victim: Victim, first: Scalar, second: Scalar)
    requires
        is_lethal(victim.hurtbox, first),
    ensures
        !is_lethal(wounded(victim, first).hurtbox, second),
        wounded(wounded(victim, first), second) == wounded(victim, first),
{
}

/// What everyone sees after a hit that does anything is what there is.
pub proof fn law_health_is_mirrored(victim: Victim, amount: Scalar)
    requires
        takes(victim.hurtbox, amount),
        victim.health is Some,
    ensures
        wounded(victim, amount).health == Some(
            NetworkedHealth {
                hp: wounded(victim, amount).hurtbox.hp,
                max_hp: victim.hurtbox.max_hp,
            },
        ),
{
}

/// A blast hurts nobody on its own side, nor who is to be credited.
pub proof fn law_blast_spares_its_own(blast: Blast, victim: Victim)
    requires
        !Team::can_damage(blast.source_team, victim.hurtbox.team) || blast.source == Some(
            victim.entity,
        ),
    ensures
        wounded(victim, blast_damage(blast, victim)) == victim,
{
}

/// A player who comes back is at full strength.
pub proof fn law_respawn_refills(player: Mortal)
    ensures
        respawned(player).hurtbox.hp == player.hurtbox.max_hp,
        respawned(player).health.hp == player.hurtbox.max_hp,
        respawned(player).owner == player.owner,
{
}

/// What is left of a blast at a distance is a part of it.
pub proof fn law_linear_falloff_is_a_part(distance: Scalar, radius: Scalar)
    requires
        !one().minus(distance.over(radius)).is_nan(),
    ensures
        FalloffKind::Linear.scale(distance, radius).ge(zero()),
        FalloffKind::Linear.scale(distance, radius).le(one()),
{
}

/// At the edge of a blast and beyond, nothing is left of it.
pub proof fn law_linear_falloff_ends_at_the_edge(distance: Scalar, radius: Scalar)
    requires
        radius.gt(zero()),
        radius.is_finite(),
        distance.is_finite(),
        distance.ge(radius),
    ensures
        FalloffKind::Linear.scale(distance, radius).equals(zero()),
{
    let ratio = distance.over(radius);
    lemma_over_at_least_one(distance, radius);
    if ratio.is_finite() {
        lemma_order_is_value(ratio, one());
        assert(ratio.neg().value() == -ratio.value());
        lemma_sum_ordered(one(), ratio.neg(), zero());
    } else {
        reveal(Scalar::spec_plus);
    }
}

/// Farther out no more of a blast is left.
pub proof fn law_linear_falloff_never_grows(near: Scalar, far: Scalar, radius: Scalar)
    requires
        near.ge(zero()),
        near.le(far),
        far.is_finite(),
        !radius.is_nan(),
    ensures
        FalloffKind::Linear.scale(far, radius).le(FalloffKind::Linear.scale(near, radius)),
{
    if radius.gt(zero()) {
        if radius.is_finite() {
            lemma_over_ordered(near, far, radius);
        } else {
            reveal(Scalar::spec_over);
        }
        lemma_plus_ordered(one(), far.over(radius).neg(), near.over(radius).neg());
    }
}

/// What hurts only once does so once: when it is used up, touching it does nothing.
pub proof fn law_single_hit_hurts_once(
    state: Fray,
    carriers: Seq<HitboxCarrier>,
    carrier: Entity,
    hitbox: Hitbox,
    p: int,
    other: Entity,
)
    requires
        hitbox.single_hit,
        0 <= p < state.victims.len(),
        takes(state.victims[p].hurtbox, hitbox.damage),
    ensures
        ({
            let after = hurt_on_contact(state, carrier, hitbox, p);
            &&& contact(after, carriers, carrier, other) == after
            &&& contact(after, carriers, other, carrier) == after
        }),
{
    let after = hurt_on_contact(state, carrier, hitbox, p);
    assert(after.used.last() == carrier);
    assert(after.used.contains(carrier));
}

} // verus!

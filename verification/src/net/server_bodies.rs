//! The bodies that the server puts into the world: the arena's, lanterns, and
//! what casts send out. And the beams that push and hurt them.

use crate::entity::{holds, together, Entity};
use crate::net::protocol::{
    BeamCastBroadcast, BeamImpulseMessage, NetworkedPosition, NetworkedProp, ParentCastInfo,
    PickupLanternMessage, PropShape, SpawnBodyMessage, ThrowLanternMessage,
};
use crate::net::server::NetworkedIdAlloc;
use crate::physics::Ray;
use crate::scalar::{zero, Scalar};
use crate::spells::bodies::BodyDef;
use crate::spells::catalog::{BodyCatalog, SpellCatalog};
use crate::spells::damage::{apply_damage, deaths_after, victim_place, wounded, DeathEvent, Victim};
use crate::spells::data::{
    BodyEventTrigger, CastDef, CastId, MarkerKind, PayloadDef, SpellDef, SpellId, TriggerSpec,
};
use crate::spells::markers::{mark_of, marks_of, Mark};
use crate::spells::triggers::{cause_of, copy_events, event_views, BodyTriggers};
use crate::table::same_text;
use crate::vector::Vec3;
use vstd::prelude::*;

verus! {

/// How many lanterns a client can have out.
pub const MAX_LANTERNS_PER_CLIENT: usize = 3;

/// How near a player has to be to pick up a lantern (`1.8`).
#[verifier::allow_in_spec]
pub fn lantern_pickup_radius() -> Scalar
    returns
        (Scalar { bits: 0x3fe6_6666 }),
{
    Scalar { bits: 0x3fe6_6666 }
}

/// How long a beam is silent before it counts as off (`0.15`).
#[verifier::allow_in_spec]
pub fn beam_silence() -> Scalar
    returns
        (Scalar { bits: 0x3e19_999a }),
{
    Scalar { bits: 0x3e19_999a }
}

/// A lantern to be put into the world.
#[derive(Clone, Copy, Debug, PartialEq, Eq, Structural)]
pub struct NewLantern {
    pub client: u64,
    pub net_id: u64,
    pub position: NetworkedPosition,
    pub velocity: Vec3,
}

pub open spec fn spec_is_throwable(msg: ThrowLanternMessage) -> bool {
    msg.origin.is_finite() && msg.velocity.is_finite()
}

/// Whether a lantern can be thrown like this.
#[verifier::when_used_as_spec(spec_is_throwable)]
pub fn is_throwable(msg: ThrowLanternMessage) -> (r: bool)
    ensures
        r == spec_is_throwable(msg),
{
    msg.origin.is_finite() && msg.velocity.is_finite()
}

/// How many of the lanterns belong to a client.
pub open spec fn lanterns_of(owners: Seq<u64>, client: u64) -> int
    decreases owners.len(),
{
    if owners.len() == 0 {
        0
    } else if owners.last() == client {
        lanterns_of(owners.drop_last(), client) + 1
    } else {
        lanterns_of(owners.drop_last(), client)
    }
}

fn count_lanterns(owners: &Vec<u64>, client: u64) -> (r: usize)
    ensures
        r == lanterns_of(owners@, client),
{
    let mut count: usize = 0;
    let mut i: usize = 0;
    while i < owners.len()
        invariant
            i <= owners.len(),
            count <= i,
            count == lanterns_of(owners@.take(i as int), client),
        decreases owners.len() - i,
    {
        assert(owners@.take(i + 1).drop_last() =~= owners@.take(i as int));
        if owners[i] == client {
            count += 1;
        }
        i += 1;
    }
    assert(owners@.take(i as int) =~= owners@);
    count
}

/// Whether a client's lantern appears.
pub open spec fn appears(owners: Seq<u64>, client: u64, msg: ThrowLanternMessage) -> bool {
    lanterns_of(owners, client) < MAX_LANTERNS_PER_CLIENT && is_throwable(msg)
}

/// Throws a client's lantern, unless the client has enough of them out. `owners`
/// are the clients whose lanterns are out, one for each lantern.
pub fn handle_throw_lantern(
    client: u64,
    msg: ThrowLanternMessage,
    owners: &mut Vec<u64>,
    ids: &mut NetworkedIdAlloc,
) -> (r: Option<NewLantern>)
    requires
        old(ids).next < u64::MAX,
    ensures
        appears(old(owners)@, client, msg) ==> {
            &&& final(owners)@ == old(owners)@.push(client)
            &&& final(ids).next == old(ids).next + 1
            &&& r == Some(
                NewLantern {
                    client,
                    net_id: final(ids).next,
                    position: NetworkedPosition::from_vec3(msg.origin),
                    velocity: msg.velocity,
                },
            )
        },
        !appears(old(owners)@, client, msg) ==> {
            &&& r is None
            &&& final(owners)@ == old(owners)@
            &&& *final(ids) == *old(ids)
        },
{
    if count_lanterns(owners, client) >= MAX_LANTERNS_PER_CLIENT || !is_throwable(msg) {
        return None;
    }
    owners.push(client);
    let net_id = ids.next();
    Some(
        NewLantern {
            client,
            net_id,
            position: NetworkedPosition::from_vec3(msg.origin),
            velocity: msg.velocity,
        },
    )
}

/// The owners of the lanterns after a throw.
pub open spec fn after_throw(owners: Seq<u64>, client: u64, msg: ThrowLanternMessage) -> Seq<u64> {
    if appears(owners, client, msg) {
        owners.push(client)
    } else {
        owners
    }
}

/// A throw never leaves a client with more lanterns out than allowed, unless it had more
/// already, whoever throws. It then has no more than it had.
pub proof fn law_lanterns_are_capped(
    owners: Seq<u64>,
    thrower: u64,
    msg: ThrowLanternMessage,
    client: u64,
)
    ensures
        lanterns_of(after_throw(owners, thrower, msg), client) <= if lanterns_of(owners, client)
            > MAX_LANTERNS_PER_CLIENT {
            lanterns_of(owners, client) as int
        } else {
            MAX_LANTERNS_PER_CLIENT as int
        },
{
    assert(owners.push(thrower).drop_last() =~= owners);
}

/// A lantern that is out.
#[derive(Clone, Copy, Debug, PartialEq, Eq, Structural)]
pub struct Lantern {
    pub entity: Entity,
    pub at: Vec3,
}

/// Whether a player picks a lantern up.
pub open spec fn within_reach(msg: PickupLanternMessage, lantern: Lantern) -> bool {
    msg.player_position.is_finite() && msg.player_position.distance(lantern.at).le(
        lantern_pickup_radius(),
    )
}

/// The lanterns that a player picks up.
pub fn handle_pickup_lantern(msg: PickupLanternMessage, lanterns: &Vec<Lantern>) -> (r: Vec<Lantern>)
    ensures
        r@ == lanterns@.filter(|l: Lantern| within_reach(msg, l)),
{
    let ghost near = |l: Lantern| within_reach(msg, l);
    let mut picked: Vec<Lantern> = Vec::new();
    let sound = msg.player_position.is_finite();
    let mut i: usize = 0;
    proof {
        reveal(Seq::filter);
    }
    while i < lanterns.len()
        invariant
            i <= lanterns.len(),
            near == (|l: Lantern| within_reach(msg, l)),
            sound == msg.player_position.is_finite(),
            picked@ == lanterns@.take(i as int).filter(near),
        decreases lanterns.len() - i,
    {
        proof {
            reveal(Seq::filter);
            assert(lanterns@.take(i + 1).drop_last() =~= lanterns@.take(i as int));
        }
        if sound && msg.player_position.distance(lanterns[i].at).le(lantern_pickup_radius()) {
            picked.push(lanterns[i]);
        }
        i += 1;
    }
    assert(lanterns@.take(i as int) =~= lanterns@);
    picked
}

/// When a client's beam was last heard of, and whether it counts as on.
#[derive(Clone, Copy, Debug, PartialEq, Eq, Structural)]
pub struct BeamCastTimer {
    pub client: u64,
    pub last_update: Scalar,
    pub active: bool,
}

/// What a beam met.
#[derive(Clone, Copy, Debug, PartialEq, Eq, Structural)]
pub struct BeamHit {
    pub entity: Entity,
    pub distance: Scalar,
}

/// What a beam is told of, and what it pushes.
#[derive(Clone, Copy, Debug, PartialEq, Eq, Structural)]
pub struct BeamOutcome {
    pub broadcast: BeamCastBroadcast,
    pub push: Option<Push>,
}

/// A push.
#[derive(Clone, Copy, Debug, PartialEq, Eq, Structural)]
pub struct Push {
    pub entity: Entity,
    pub impulse: Vec3,
}

/// What a beam goes through: the lanterns, and its shooter.
pub fn beam_ignores(lanterns: &Vec<Entity>, shooter: Option<Entity>) -> (r: Vec<Entity>)
    ensures
        r@ == (match shooter {
            Some(shooter) => lanterns@.push(shooter),
            None => lanterns@,
        }),
{
    let mut ignored = together(lanterns, &Vec::new());
    assert(ignored@ =~= lanterns@);
    match shooter {
        Some(shooter) => ignored.push(shooter),
        None => {},
    }
    ignored
}

/// The ray of a client's beam, if it has a direction.
pub fn beam_ray(
    msg: BeamImpulseMessage,
    lanterns: &Vec<Entity>,
    shooter: Option<Entity>,
) -> (r: Option<Ray>)
    ensures
        match (msg.direction.direction(), r) {
            (Some(direction), Some(ray)) => ray.goes(
                msg.origin,
                direction,
                msg.range,
                match shooter {
                    Some(shooter) => lanterns@.push(shooter),
                    None => lanterns@,
                },
            ),
            (None, None) => true,
            _ => false,
        },
{
    match msg.direction.direction() {
        Some(direction) => Some(
            Ray {
                origin: msg.origin,
                direction,
                range: msg.range,
                ignored: beam_ignores(lanterns, shooter),
            },
        ),
        None => None,
    }
}

pub open spec fn spec_beam_length(msg: BeamImpulseMessage, hit: Option<BeamHit>) -> Scalar {
    match hit {
        Some(hit) => hit.distance,
        None => msg.range,
    }
}

/// How long a beam is: as far as what it met, or all its range.
#[verifier::when_used_as_spec(spec_beam_length)]
pub fn beam_length(msg: BeamImpulseMessage, hit: Option<BeamHit>) -> (r: Scalar)
    ensures
        r == spec_beam_length(msg, hit),
{
    match hit {
        Some(hit) => hit.distance,
        None => msg.range,
    }
}

/// Where the timer of a client stands; the length, if there is none.
pub open spec fn timer_place(timers: Seq<BeamCastTimer>, client: u64) -> int
    decreases timers.len(),
{
    if timers.len() == 0 || timers[0].client == client {
        0
    } else {
        1 + timer_place(timers.skip(1), client)
    }
}

/// The timers after a client's beam was heard of.
pub open spec fn beam_heard(timers: Seq<BeamCastTimer>, client: u64, now: Scalar) -> Seq<
    BeamCastTimer,
> {
    let p = timer_place(timers, client);
    if p < timers.len() {
        timers.update(p, BeamCastTimer { client, last_update: now, active: true })
    } else {
        timers
    }
}

fn hear_beam(timers: &mut Vec<BeamCastTimer>, client: u64, now: Scalar)
    ensures
        final(timers)@ == beam_heard(old(timers)@, client, now),
{
    let mut i: usize = 0;
    assert(timers@.skip(0) =~= timers@);
    while i < timers.len()
        invariant
            i <= timers.len(),
            timers@ == old(timers)@,
            timer_place(timers@, client) == i + timer_place(timers@.skip(i as int), client),
        decreases timers.len() - i,
    {
        if timers[i].client == client {
            timers.set(i, BeamCastTimer { client, last_update: now, active: true });
            return;
        }
        assert(timers@.skip(i as int).skip(1) =~= timers@.skip(i + 1));
        i += 1;
    }
}

/// Whether a beam hurts what it met.
pub open spec fn hurts(msg: BeamImpulseMessage, hit: Option<BeamHit>) -> bool {
    hit is Some && msg.damage.gt(zero())
}

/// What can be hurt, and the deaths, after a beam.
pub open spec fn after_beam(
    victims: Seq<Victim>,
    deaths: Seq<DeathEvent>,
    msg: BeamImpulseMessage,
    hit: Option<BeamHit>,
    shooter: Option<Entity>,
) -> (Seq<Victim>, Seq<DeathEvent>) {
    if hurts(msg, hit) {
        let p = victim_place(victims, hit->Some_0.entity);
        if p < victims.len() {
            (
                victims.update(p, wounded(victims[p], msg.damage)),
                deaths_after(deaths, victims[p], msg.damage, shooter),
            )
        } else {
            (victims, deaths)
        }
    } else {
        (victims, deaths)
    }
}

/// Lets a client's beam push and hurt what it met. A beam without a direction
/// does nothing, and nobody hears of it. Only the bodies in `props` are pushed.
pub fn apply_beam_impulse(
    client: u64,
    shooter: Option<Entity>,
    msg: BeamImpulseMessage,
    hit: Option<BeamHit>,
    now: Scalar,
    props: &Vec<Entity>,
    timers: &mut Vec<BeamCastTimer>,
    victims: &mut Vec<Victim>,
    deaths: &mut Vec<DeathEvent>,
) -> (r: Option<BeamOutcome>)
    ensures
        msg.direction.direction() is None ==> {
            &&& r is None
            &&& final(timers)@ == old(timers)@
            &&& final(victims)@ == old(victims)@
            &&& final(deaths)@ == old(deaths)@
        },
        msg.direction.direction() matches Some(along) ==> {
            &&& r == Some(
                BeamOutcome {
                    broadcast: BeamCastBroadcast {
                        client_id: client,
                        active: true,
                        origin: msg.origin,
                        direction: msg.direction,
                        length: beam_length(msg, hit),
                    },
                    push: if hit is Some && props@.contains(hit->Some_0.entity) {
                        Some(
                            Push {
                                entity: hit->Some_0.entity,
                                impulse: along.scale(msg.magnitude),
                            },
                        )
                    } else {
                        None
                    },
                },
            )
            &&& final(timers)@ == beam_heard(old(timers)@, client, now)
            &&& (final(victims)@, final(deaths)@) == after_beam(
                old(victims)@,
                old(deaths)@,
                msg,
                hit,
                shooter,
            )
        },
{
    let along = match msg.direction.direction() {
        Some(along) => along,
        None => {
            return None;
        },
    };
    hear_beam(timers, client, now);
    let broadcast = BeamCastBroadcast {
        client_id: client,
        active: true,
        origin: msg.origin,
        direction: msg.direction,
        length: beam_length(msg, hit),
    };
    let mut push: Option<Push> = None;
    match hit {
        Some(hit) => {
            if holds(props, hit.entity) {
                push = Some(Push { entity: hit.entity, impulse: along.scale(msg.magnitude) });
            }
            if msg.damage.gt(zero()) {
                apply_damage(victims, hit.entity, msg.damage, shooter, deaths);
            }
        },
        None => {},
    }
    Some(BeamOutcome { broadcast, push })
}

pub open spec fn spec_has_faded(timer: BeamCastTimer, now: Scalar) -> bool {
    timer.active && now.minus(timer.last_update).gt(beam_silence())
}

/// Whether a beam has been silent for too long.
#[verifier::when_used_as_spec(spec_has_faded)]
pub fn has_faded(timer: BeamCastTimer, now: Scalar) -> (r: bool)
    ensures
        r == spec_has_faded(timer, now),
{
    timer.active && now.minus(timer.last_update).gt(beam_silence())
}

pub open spec fn spec_beam_off(client: u64) -> BeamCastBroadcast {
    BeamCastBroadcast {
        client_id: client,
        active: false,
        origin: Vec3::origin(),
        direction: Vec3::origin(),
        length: zero(),
    }
}

/// That a client's beam is off, for everyone to see.
#[verifier::when_used_as_spec(spec_beam_off)]
pub fn beam_off(client: u64) -> (r: BeamCastBroadcast)
    ensures
        r == spec_beam_off(client),
{
    BeamCastBroadcast {
        client_id: client,
        active: false,
        origin: Vec3::origin(),
        direction: Vec3::origin(),
        length: zero(),
    }
}

/// Turns a beam off that has been silent for too long, and tells everyone once.
pub fn decay_beam_casts(timer: &mut BeamCastTimer, now: Scalar) -> (r: Option<BeamCastBroadcast>)
    ensures
        has_faded(*old(timer), now) ==> {
            &&& r == Some(beam_off(old(timer).client))
            &&& *final(timer) == (BeamCastTimer { active: false, ..*old(timer) })
        },
        !has_faded(*old(timer), now) ==> r is None && *final(timer) == *old(timer),
{
    if has_faded(*timer, now) {
        timer.active = false;
        Some(beam_off(timer.client))
    } else {
        None
    }
}

/// That a beam is off is told once: not again until it has been heard of.
pub proof fn law_beam_ends_once(timer: BeamCastTimer, later: Scalar)
    ensures
        !has_faded(BeamCastTimer { active: false, ..timer }, later),
{
}

/// The first cast with this name.
pub open spec fn cast_named(casts: Seq<CastDef>, id: Seq<char>) -> Option<CastDef>
    decreases casts.len(),
{
    if casts.len() == 0 {
        None
    } else if casts[0].id.0@ == id {
        Some(casts[0])
    } else {
        cast_named(casts.skip(1), id)
    }
}

fn find_named<'a>(casts: &'a Vec<CastDef>, id: &str) -> (r: Option<&'a CastDef>)
    ensures
        match r {
            Some(cast) => cast_named(casts@, id@) == Some(*cast),
            None => cast_named(casts@, id@) is None,
        },
{
    let mut i: usize = 0;
    assert(casts@.skip(0) =~= casts@);
    while i < casts.len()
        invariant
            i <= casts.len(),
            cast_named(casts@, id@) == cast_named(casts@.skip(i as int), id@),
        decreases casts.len() - i,
    {
        if same_text(casts[i].id.0.as_str(), id) {
            return Some(&casts[i]);
        }
        assert(casts@.skip(i as int).skip(1) =~= casts@.skip(i + 1));
        i += 1;
    }
    None
}

/// The cast that sends out a body, if there is such a one.
pub open spec fn parent_of(
    parent: Option<ParentCastInfo>,
    spells: Option<Map<Seq<char>, SpellDef>>,
) -> Option<CastDef> {
    match (parent, spells) {
        (Some(parent), Some(spells)) => if spells.contains_key(parent.spell_id@) {
            cast_named(spells[parent.spell_id@].casts@, parent.cast_id@)
        } else {
            None
        },
        _ => None,
    }
}

/// The spells of a catalog that there may not be.
pub open spec fn spells_in(catalog: Option<&SpellCatalog>) -> Option<Map<Seq<char>, SpellDef>> {
    match catalog {
        Some(catalog) => Some(catalog@),
        None => None,
    }
}

/// The bodies of a catalog that there may not be.
pub open spec fn bodies_in(catalog: Option<&BodyCatalog>) -> Option<Map<Seq<char>, BodyDef>> {
    match catalog {
        Some(catalog) => Some(catalog@),
        None => None,
    }
}

fn find_parent<'a>(parent: &Option<ParentCastInfo>, catalog: Option<&'a SpellCatalog>) -> (r: Option<
    &'a CastDef,
>)
    requires
        catalog matches Some(c) ==> c.wf(),
    ensures
        match r {
            Some(cast) => parent_of(*parent, spells_in(catalog)) == Some(*cast),
            None => parent_of(*parent, spells_in(catalog)) is None,
        },
{
    match (parent, catalog) {
        (Some(parent), Some(catalog)) => {
            let id = SpellId(parent.spell_id.clone());
            match catalog.get(&id) {
                Some(spell) => find_named(&spell.casts, parent.cast_id.as_str()),
                None => None,
            }
        },
        _ => None,
    }
}

/// What the body of a cast sets off.
pub open spec fn events_of(cast: Option<CastDef>) -> Seq<BodyEventTrigger> {
    match cast {
        Some(cast) => match cast.payload {
            PayloadDef::SpawnBody { template: _, launch: _, on_event } => on_event@,
            _ => Seq::empty(),
        },
        None => Seq::empty(),
    }
}

/// What the body of a cast is marked as.
pub open spec fn markers_of(
    cast: Option<CastDef>,
    bodies: Option<Map<Seq<char>, BodyDef>>,
) -> Seq<MarkerKind> {
    match (cast, bodies) {
        (Some(cast), Some(bodies)) => match cast.payload {
            PayloadDef::SpawnBody { template, launch: _, on_event: _ } => if bodies.contains_key(
                template.0@,
            ) {
                bodies[template.0@].markers@
            } else {
                Seq::empty()
            },
            _ => Seq::empty(),
        },
        _ => Seq::empty(),
    }
}

/// Whether a body carries what its cast says that it sets off.
pub open spec fn carries(
    triggers: Option<BodyTriggers>,
    events: Seq<BodyEventTrigger>,
    parent: ParentCastInfo,
    caster: Option<Entity>,
) -> bool {
    if events.len() == 0 {
        triggers is None
    } else {
        &&& triggers is Some
        &&& event_views(triggers->Some_0.events@) == event_views(events)
        &&& triggers->Some_0.original_caster == caster
        &&& triggers->Some_0.captured_charge == parent.captured_charge
        &&& triggers->Some_0.chain_depth == parent.chain_depth
        &&& cause_of(triggers->Some_0.caused_by) == Some((parent.spell_id@, parent.cast_id@))
        &&& !triggers->Some_0.fired
        &&& triggers->Some_0.elapsed == zero()
    }
}

/// A body to be put into the world.
#[derive(Debug)]
pub struct NewBody {
    pub net_id: u64,
    pub prop: NetworkedProp,
    pub position: NetworkedPosition,
    pub velocity: Vec3,
    pub triggers: Option<BodyTriggers>,
    pub marks: Vec<Mark>,
}

pub open spec fn spec_is_spawnable(origin: Vec3, velocity: Vec3) -> bool {
    origin.is_finite() && velocity.is_finite()
}

/// Whether a body can be put out like this.
#[verifier::when_used_as_spec(spec_is_spawnable)]
pub fn is_spawnable(origin: Vec3, velocity: Vec3) -> (r: bool)
    ensures
        r == spec_is_spawnable(origin, velocity),
{
    origin.is_finite() && velocity.is_finite()
}

/// Puts out the body of a client's cast, with what the cast makes it set off and
/// what the body's template marks it as.
pub fn handle_spawn_body(
    msg: &SpawnBodyMessage,
    caster: Option<Entity>,
    catalog: Option<&SpellCatalog>,
    bodies: Option<&BodyCatalog>,
    ids: &mut NetworkedIdAlloc,
) -> (r: Option<NewBody>)
    requires
        catalog matches Some(c) ==> c.wf(),
        bodies matches Some(b) ==> b.wf(),
        old(ids).next < u64::MAX,
    ensures
        r is Some <==> is_spawnable(msg.origin, msg.velocity),
        r is None ==> *final(ids) == *old(ids),
        r matches Some(body) ==> {
            let cast = parent_of(msg.parent_cast, spells_in(catalog));
            &&& final(ids).next == old(ids).next + 1
            &&& body.net_id == final(ids).next
            &&& body.prop == (NetworkedProp {
                shape: msg.shape,
                tint_seed: msg.tint_seed,
                mass: msg.mass,
                tint: msg.tint,
            })
            &&& body.position == NetworkedPosition::from_vec3(msg.origin)
            &&& body.velocity == msg.velocity
            &&& msg.parent_cast is None ==> body.triggers is None
            &&& msg.parent_cast is Some ==> carries(
                body.triggers,
                events_of(cast),
                msg.parent_cast->Some_0,
                caster,
            )
            &&& body.marks@ == markers_of(cast, bodies_in(bodies)).map_values(
                |m: MarkerKind| mark_of(m, caster),
            )
        },
{
    if !is_spawnable(msg.origin, msg.velocity) {
        return None;
    }
    let net_id = ids.next();
    let cast = find_parent(&msg.parent_cast, catalog);
    let mut triggers: Option<BodyTriggers> = None;
    let mut marks: Vec<Mark> = Vec::new();
    assert(marks@ =~= Seq::<MarkerKind>::empty().map_values(|m: MarkerKind| mark_of(m, caster)));
    match (&msg.parent_cast, cast) {
        (Some(parent), Some(cast)) => {
            match &cast.payload {
                PayloadDef::SpawnBody { template, launch: _, on_event } => {
                    if on_event.len() > 0 {
                        triggers =
                        Some(
                            BodyTriggers {
                                events: copy_events(on_event),
                                original_caster: caster,
                                captured_charge: parent.captured_charge,
                                chain_depth: parent.chain_depth,
                                caused_by: Some(
                                    TriggerSpec {
                                        spell_id: SpellId(parent.spell_id.clone()),
                                        cast_id: CastId(parent.cast_id.clone()),
                                    },
                                ),
                                fired: false,
                                elapsed: zero(),
                            },
                        );
                    }
                    match bodies {
                        Some(bodies) => {
                            match bodies.get(template) {
                                Some(body) => {
                                    marks = marks_of(&body.markers, caster);
                                },
                                None => {},
                            }
                        },
                        None => {},
                    }
                },
                _ => {},
            }
        },
        _ => {},
    }
    Some(
        NewBody {
            net_id,
            prop: NetworkedProp {
                shape: msg.shape,
                tint_seed: msg.tint_seed,
                mass: msg.mass,
                tint: msg.tint,
            },
            position: NetworkedPosition::from_vec3(msg.origin),
            velocity: msg.velocity,
            triggers,
            marks,
        },
    )
}

/// How long the sides of the arena's cubes are (`0.8`).
#[verifier::allow_in_spec]
pub fn cube_side() -> Scalar
    returns
        (Scalar { bits: 0x3f4c_cccd }),
{
    Scalar { bits: 0x3f4c_cccd }
}

/// How big the arena's balls are (`0.5`).
#[verifier::allow_in_spec]
pub fn ball_radius() -> Scalar
    returns
        (Scalar { bits: 0x3f00_0000 }),
{
    Scalar { bits: 0x3f00_0000 }
}

/// A body of the arena.
#[derive(Clone, Copy, Debug, PartialEq, Eq, Structural)]
pub struct ArenaProp {
    pub at: Vec3,
    pub prop: NetworkedProp,
}

/// How many bodies the arena has.
pub const ARENA_PROPS: usize = 6;

pub open spec fn spec_arena_shape(i: usize) -> PropShape {
    if i % 2 == 0 {
        PropShape::Cube { size: cube_side() }
    } else {
        PropShape::Sphere { radius: ball_radius() }
    }
}

/// The shape of the arena's bodies, which take turns.
#[verifier::when_used_as_spec(spec_arena_shape)]
pub fn arena_shape(i: usize) -> (r: PropShape)
    ensures
        r == spec_arena_shape(i),
{
    if i % 2 == 0 {
        PropShape::Cube { size: cube_side() }
    } else {
        PropShape::Sphere { radius: ball_radius() }
    }
}

pub open spec fn spec_arena_place(i: usize) -> Vec3 {
    match i {
        0 => Vec3 {
            x: Scalar { bits: 0xc020_0000 },
            y: Scalar { bits: 0x3f00_0000 },
            z: zero(),
        },
        1 => Vec3 {
            x: zero(),
            y: Scalar { bits: 0x3f00_0000 },
            z: zero(),
        },
        2 => Vec3 {
            x: Scalar { bits: 0x4020_0000 },
            y: Scalar { bits: 0x3f00_0000 },
            z: Scalar { bits: 0xbf00_0000 },
        },
        3 => Vec3 {
            x: Scalar { bits: 0xbf99_999a },
            y: Scalar { bits: 0x3f00_0000 },
            z: Scalar { bits: 0xc020_0000 },
        },
        4 => Vec3 {
            x: Scalar { bits: 0x3fc0_0000 },
            y: Scalar { bits: 0x3f00_0000 },
            z: Scalar { bits: 0xc040_0000 },
        },
        _ => Vec3 {
            x: Scalar { bits: 0x3e99_999a },
            y: Scalar { bits: 0x3f00_0000 },
            z: Scalar { bits: 0xc0a0_0000 },
        },
    }
}

/// Where the arena's bodies are.
#[verifier::when_used_as_spec(spec_arena_place)]
pub fn arena_place(i: usize) -> (r: Vec3)
    ensures
        r == spec_arena_place(i),
{
    match i {
        0 => Vec3 {
            x: Scalar { bits: 0xc020_0000 },
            y: Scalar { bits: 0x3f00_0000 },
            z: zero(),
        },
        1 => Vec3 {
            x: zero(),
            y: Scalar { bits: 0x3f00_0000 },
            z: zero(),
        },
        2 => Vec3 {
            x: Scalar { bits: 0x4020_0000 },
            y: Scalar { bits: 0x3f00_0000 },
            z: Scalar { bits: 0xbf00_0000 },
        },
        3 => Vec3 {
            x: Scalar { bits: 0xbf99_999a },
            y: Scalar { bits: 0x3f00_0000 },
            z: Scalar { bits: 0xc020_0000 },
        },
        4 => Vec3 {
            x: Scalar { bits: 0x3fc0_0000 },
            y: Scalar { bits: 0x3f00_0000 },
            z: Scalar { bits: 0xc040_0000 },
        },
        _ => Vec3 {
            x: Scalar { bits: 0x3e99_999a },
            y: Scalar { bits: 0x3f00_0000 },
            z: Scalar { bits: 0xc0a0_0000 },
        },
    }
}

pub open spec fn spec_arena_mass(i: usize) -> Scalar {
    match i {
        0 => Scalar { bits: 0x4000_0000 },
        1 => Scalar { bits: 0x4060_0000 },
        2 => Scalar { bits: 0x3f80_0000 },
        3 => Scalar { bits: 0x3fc0_0000 },
        4 => Scalar { bits: 0x4080_0000 },
        _ => Scalar { bits: 0x4020_0000 },
    }
}

/// How heavy the arena's bodies are.
#[verifier::when_used_as_spec(spec_arena_mass)]
pub fn arena_mass(i: usize) -> (r: Scalar)
    ensures
        r == spec_arena_mass(i),
{
    match i {
        0 => Scalar { bits: 0x4000_0000 },
        1 => Scalar { bits: 0x4060_0000 },
        2 => Scalar { bits: 0x3f80_0000 },
        3 => Scalar { bits: 0x3fc0_0000 },
        4 => Scalar { bits: 0x4080_0000 },
        _ => Scalar { bits: 0x4020_0000 },
    }
}

pub open spec fn spec_arena_tint_seed(i: usize) -> Scalar {
    match i {
        0 => Scalar { bits: 0x3dcc_cccd },
        1 => Scalar { bits: 0x3ecc_cccd },
        2 => Scalar { bits: 0x3f33_3333 },
        3 => Scalar { bits: 0x3f80_0000 },
        4 => Scalar { bits: 0x3fc0_0000 },
        _ => Scalar { bits: 0x4006_6666 },
    }
}

/// What the arena's bodies get their color from.
#[verifier::when_used_as_spec(spec_arena_tint_seed)]
pub fn arena_tint_seed(i: usize) -> (r: Scalar)
    ensures
        r == spec_arena_tint_seed(i),
{
    match i {
        0 => Scalar { bits: 0x3dcc_cccd },
        1 => Scalar { bits: 0x3ecc_cccd },
        2 => Scalar { bits: 0x3f33_3333 },
        3 => Scalar { bits: 0x3f80_0000 },
        4 => Scalar { bits: 0x3fc0_0000 },
        _ => Scalar { bits: 0x4006_6666 },
    }
}

pub open spec fn spec_arena_prop(i: usize) -> ArenaProp {
    ArenaProp {
        at: arena_place(i),
        prop: NetworkedProp {
            shape: arena_shape(i),
            tint_seed: arena_tint_seed(i),
            mass: arena_mass(i),
            tint: Vec3::origin(),
        },
    }
}

/// The bodies of the arena.
#[verifier::when_used_as_spec(spec_arena_prop)]
pub fn arena_prop(i: usize) -> (r: ArenaProp)
    ensures
        r == spec_arena_prop(i),
{
    ArenaProp {
        at: arena_place(i),
        prop: NetworkedProp {
            shape: arena_shape(i),
            tint_seed: arena_tint_seed(i),
            mass: arena_mass(i),
            tint: Vec3::origin(),
        },
    }
}

/// A body of the arena, and the name that it gets.
#[derive(Clone, Copy, Debug, PartialEq, Eq, Structural)]
pub struct NewArenaProp {
    pub net_id: u64,
    pub body: ArenaProp,
}

/// The bodies of the arena, each with a name of its own.
pub fn spawn_arena(ids: &mut NetworkedIdAlloc) -> (r: Vec<NewArenaProp>)
    requires
        old(ids).next + ARENA_PROPS <= u64::MAX,
    ensures
        r@.len() == ARENA_PROPS,
        forall|i: int|
            0 <= i < ARENA_PROPS ==> #[trigger] r@[i] == (NewArenaProp {
                net_id: (old(ids).next + i + 1) as u64,
                body: arena_prop(i as usize),
            }),
        final(ids).next == old(ids).next + ARENA_PROPS,
{
    let mut all: Vec<NewArenaProp> = Vec::new();
    let mut i: usize = 0;
    while i < ARENA_PROPS
        invariant
            i <= ARENA_PROPS,
            old(ids).next + ARENA_PROPS <= u64::MAX,
            ids.next == old(ids).next + i,
            all@.len() == i,
            forall|j: int|
                0 <= j < i ==> #[trigger] all@[j] == (NewArenaProp {
                    net_id: (old(ids).next + j + 1) as u64,
                    body: arena_prop(j as usize),
                }),
        decreases ARENA_PROPS - i,
    {
        let net_id = ids.next();
        all.push(NewArenaProp { net_id, body: arena_prop(i) });
        i += 1;
    }
    all
}

} // verus!

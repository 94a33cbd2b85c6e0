//! The orb that shows how far a cast has charged, to its caster and to everyone.

use crate::entity::{holds, Entity};
use crate::net::protocol::{ChargeStateBroadcast, ChargeStateMessage};
use crate::scalar::{one, zero, Scalar};
use crate::spells::bodies::ColorDef;
use crate::spells::catalog::SpellCatalog;
use crate::spells::data::{CastDef, SpellDef, SpellId};
use crate::spells::engine::{CastInstance, CastPhase, CastState};
use crate::spells::hud::{charge_ratio, display_max};
use crate::table::same_text;
use crate::vector::Vec3;
use vstd::prelude::*;

verus! {

/// How green an orb is that has no color of its own (`0.95`).
#[verifier::allow_in_spec]
pub fn tint_green() -> Scalar
    returns
        (Scalar { bits: 0x3f73_3333 }),
{
    Scalar { bits: 0x3f73_3333 }
}

/// How blue an orb is that has no color of its own (`0.7`).
#[verifier::allow_in_spec]
pub fn tint_blue() -> Scalar
    returns
        (Scalar { bits: 0x3f33_3333 }),
{
    Scalar { bits: 0x3f33_3333 }
}

/// How bright an orb is without charge (`0.4`).
#[verifier::allow_in_spec]
pub fn emissive_min() -> Scalar
    returns
        (Scalar { bits: 0x3ecc_cccd }),
{
    Scalar { bits: 0x3ecc_cccd }
}

/// How bright an orb is at full charge (`8.0`).
#[verifier::allow_in_spec]
pub fn emissive_max() -> Scalar
    returns
        (Scalar { bits: 0x4100_0000 }),
{
    Scalar { bits: 0x4100_0000 }
}

/// How much light an orb gives without charge (`800.0`).
#[verifier::allow_in_spec]
pub fn light_min() -> Scalar
    returns
        (Scalar { bits: 0x4448_0000 }),
{
    Scalar { bits: 0x4448_0000 }
}

/// How much light an orb gives at full charge (`60000.0`).
#[verifier::allow_in_spec]
pub fn light_max() -> Scalar
    returns
        (Scalar { bits: 0x476a_6000 }),
{
    Scalar { bits: 0x476a_6000 }
}

/// How much of its color an orb has of itself (`0.4`).
#[verifier::allow_in_spec]
pub fn base_part() -> Scalar
    returns
        (Scalar { bits: 0x3ecc_cccd }),
{
    Scalar { bits: 0x3ecc_cccd }
}

pub open spec fn spec_intensity_curve(ratio: Scalar) -> Scalar {
    ratio.clamp(zero(), one()).times(ratio.clamp(zero(), one()))
}

/// How charge becomes brightness.
#[verifier::when_used_as_spec(spec_intensity_curve)]
pub fn intensity_curve(ratio: Scalar) -> (r: Scalar)
    ensures
        r == spec_intensity_curve(ratio),
{
    ratio.clamp(zero(), one()).times(ratio.clamp(zero(), one()))
}

pub open spec fn spec_lerp(min: Scalar, max: Scalar, t: Scalar) -> Scalar {
    min.plus(max.minus(min).times(t))
}

/// `min + (max - min) * t`.
#[verifier::when_used_as_spec(spec_lerp)]
pub fn lerp(min: Scalar, max: Scalar, t: Scalar) -> (r: Scalar)
    ensures
        r == spec_lerp(min, max, t),
{
    min.plus(max.minus(min).times(t))
}

/// How an orb looks.
#[derive(Clone, Copy, Debug, PartialEq, Eq, Structural)]
pub struct OrbLook {
    pub base: Vec3,
    pub emissive: Vec3,
    pub light: Scalar,
}

pub open spec fn spec_orb_look(tint: Vec3, ratio: Scalar) -> OrbLook {
    OrbLook {
        base: tint.scale(base_part()),
        emissive: tint.scale(lerp(emissive_min(), emissive_max(), intensity_curve(ratio))),
        light: lerp(light_min(), light_max(), intensity_curve(ratio)),
    }
}

/// How an orb of this color looks at this charge.
#[verifier::when_used_as_spec(spec_orb_look)]
pub fn orb_look(tint: Vec3, ratio: Scalar) -> (r: OrbLook)
    ensures
        r == spec_orb_look(tint, ratio),
{
    OrbLook {
        base: tint.scale(base_part()),
        emissive: tint.scale(lerp(emissive_min(), emissive_max(), intensity_curve(ratio))),
        light: lerp(light_min(), light_max(), intensity_curve(ratio)),
    }
}

pub open spec fn spec_orb_tint(tint: Option<ColorDef>) -> Vec3 {
    match tint {
        Some(c) => Vec3 { x: c.r, y: c.g, z: c.b },
        None => Vec3 { x: one(), y: tint_green(), z: tint_blue() },
    }
}

/// The color of a spell's orb.
#[verifier::when_used_as_spec(spec_orb_tint)]
pub fn orb_tint(tint: Option<ColorDef>) -> (r: Vec3)
    ensures
        r == spec_orb_tint(tint),
{
    match tint {
        Some(c) => Vec3 { x: c.r, y: c.g, z: c.b },
        None => Vec3 { x: one(), y: tint_green(), z: tint_blue() },
    }
}

/// The color of the orb of the spell with this name.
pub fn lookup_tint(catalog: &SpellCatalog, spell: &SpellId) -> (r: Vec3)
    requires
        catalog.wf(),
    ensures
        r == orb_tint(
            if catalog@.contains_key(spell.0@) {
                catalog@[spell.0@].tint
            } else {
                None
            },
        ),
{
    match catalog.get(spell) {
        Some(spell) => orb_tint(spell.tint),
        None => orb_tint(None),
    }
}

/// A cast of the active spell that charges.
#[derive(Clone, Copy, Debug, PartialEq, Eq, Structural)]
pub struct ChargeNow {
    /// Its place among the casts of the spell.
    pub cast: usize,
    pub ratio: Scalar,
    pub tint: Vec3,
}

/// Whether a cast charges.
pub open spec fn is_charging(cast: CastDef, m: Map<Seq<char>, CastInstance>) -> bool {
    &&& cast.charging !is Uncharged
    &&& m.contains_key(cast.id.0@)
    &&& m[cast.id.0@].phase == CastPhase::Charging
}

/// The first cast of a spell from place `i` on that charges.
pub open spec fn charging_from(spell: SpellDef, m: Map<Seq<char>, CastInstance>, i: int) -> Option<
    ChargeNow,
>
    decreases spell.casts@.len() - i,
{
    if i < 0 || i >= spell.casts@.len() {
        None
    } else if is_charging(spell.casts@[i], m) {
        Some(
            ChargeNow {
                cast: i as usize,
                ratio: charge_ratio(
                    m[spell.casts@[i].id.0@].charge,
                    display_max(spell.casts@[i].charging)->Some_0,
                ),
                tint: orb_tint(spell.tint),
            },
        )
    } else {
        charging_from(spell, m, i + 1)
    }
}

/// The cast of the active spell that charges, as a sequence of text.
pub open spec fn charging_now(
    catalog: Map<Seq<char>, SpellDef>,
    active: Seq<char>,
    m: Map<Seq<char>, CastInstance>,
) -> Option<ChargeNow> {
    if catalog.contains_key(active) {
        charging_from(catalog[active], m, 0)
    } else {
        None
    }
}

/// The first cast of the active spell that charges, and how far it has.
pub fn current_charge_state(
    catalog: &SpellCatalog,
    active: &SpellId,
    state: &CastState,
) -> (r: Option<ChargeNow>)
    requires
        catalog.wf(),
        state.wf(),
    ensures
        r == charging_now(catalog@, active.0@, state@),
{
    let spell = match catalog.get(active) {
        Some(spell) => spell,
        None => {
            return None;
        },
    };
    let mut i: usize = 0;
    while i < spell.casts.len()
        invariant
            i <= spell.casts.len(),
            catalog@.contains_key(active.0@),
            *spell == catalog@[active.0@],
            state.wf(),
            charging_from(*spell, state@, 0) == charging_from(*spell, state@, i as int),
        decreases spell.casts.len() - i,
    {
        let cast = &spell.casts[i];
        if let Some(full) = display_max(cast.charging) {
            if let Some(instance) = state.instance(cast.id.0.as_str()) {
                if instance.phase == CastPhase::Charging {
                    return Some(
                        ChargeNow {
                            cast: i,
                            ratio: charge_ratio(instance.charge, full),
                            tint: orb_tint(spell.tint),
                        },
                    );
                }
            }
        }
        i += 1;
    }
    None
}

/// What becomes of the caster's own orb.
#[derive(Clone, Copy, Debug, PartialEq, Eq, Structural)]
pub enum OrbAction {
    Nothing,
    Despawn,
    Update { look: OrbLook },
    Spawn { cast: usize, look: OrbLook },
}

/// What becomes of the caster's own orb. `orb` is the cast that it is there for,
/// if it is there; `anchored` tells whether there is somewhere to put it. An orb
/// of another cast goes first, and the new one comes a frame later.
pub fn update_local_charge_orb(
    spell: &SpellDef,
    now: Option<ChargeNow>,
    orb: Option<&str>,
    anchored: bool,
) -> (r: OrbAction)
    requires
        now matches Some(n) ==> n.cast < spell.casts@.len(),
    ensures
        r == match (now, orb) {
            (Some(n), Some(id)) => if spell.casts@[n.cast as int].id.0@ == id@ {
                OrbAction::Update { look: orb_look(n.tint, n.ratio) }
            } else {
                OrbAction::Despawn
            },
            (Some(n), None) => if anchored {
                OrbAction::Spawn { cast: n.cast, look: orb_look(n.tint, n.ratio) }
            } else {
                OrbAction::Nothing
            },
            (None, Some(_)) => OrbAction::Despawn,
            (None, None) => OrbAction::Nothing,
        },
{
    match (now, orb) {
        (Some(n), Some(id)) => if same_text(spell.casts[n.cast].id.0.as_str(), id) {
            OrbAction::Update { look: orb_look(n.tint, n.ratio) }
        } else {
            OrbAction::Despawn
        },
        (Some(n), None) => if anchored {
            OrbAction::Spawn { cast: n.cast, look: orb_look(n.tint, n.ratio) }
        } else {
            OrbAction::Nothing
        },
        (None, Some(_)) => OrbAction::Despawn,
        (None, None) => OrbAction::Nothing,
    }
}

/// Whether a charge was sent a frame ago.
#[derive(Clone, Copy, Debug, PartialEq, Eq, Structural)]
pub struct LocalChargeTx {
    pub was_active: bool,
}

pub open spec fn spec_charge_message(
    now: Option<ChargeNow>,
    was_active: bool,
) -> Option<ChargeStateMessage> {
    match now {
        Some(n) => Some(ChargeStateMessage { active: true, ratio: n.ratio, tint: n.tint }),
        None => if was_active {
            Some(ChargeStateMessage { active: false, ratio: zero(), tint: Vec3::origin() })
        } else {
            None
        },
    }
}

/// What is sent about a charge: how far it is while it lasts, and once that it
/// is over.
#[verifier::when_used_as_spec(spec_charge_message)]
pub fn charge_message(now: Option<ChargeNow>, was_active: bool) -> (r: Option<ChargeStateMessage>)
    ensures
        r == spec_charge_message(now, was_active),
{
    match now {
        Some(n) => Some(ChargeStateMessage { active: true, ratio: n.ratio, tint: n.tint }),
        None => if was_active {
            Some(ChargeStateMessage { active: false, ratio: zero(), tint: Vec3::origin() })
        } else {
            None
        },
    }
}

/// What is sent about a charge this frame.
pub fn send_local_charge_state(tx: &mut LocalChargeTx, now: Option<ChargeNow>) -> (r: Option<
    ChargeStateMessage,
>)
    ensures
        r == charge_message(now, old(tx).was_active),
        final(tx).was_active == now.is_some(),
{
    let message = charge_message(now, tx.was_active);
    tx.was_active = now.is_some();
    message
}

/// That a charge is over is sent once: a frame later there is nothing to send.
pub proof fn law_charge_end_is_sent_once()
    ensures
        charge_message(None, true) is Some,
        !charge_message(None, true)->Some_0.active,
        charge_message(None, false) is None,
{
}

/// How far another player's cast has charged.
#[derive(Clone, Copy, Debug, PartialEq, Eq, Structural)]
pub struct RemoteChargeState {
    pub active: bool,
    pub ratio: Scalar,
    pub tint: Vec3,
}

/// A player, and how far the player's cast has charged.
#[derive(Clone, Copy, Debug, PartialEq, Eq, Structural)]
pub struct RemoteCharger {
    pub player: Entity,
    pub owner: u64,
    pub state: RemoteChargeState,
}

/// The players after the news about one of them. One's own are not news.
pub open spec fn after_news(
    players: Seq<RemoteCharger>,
    my_id: Option<u64>,
    news: ChargeStateBroadcast,
) -> Seq<RemoteCharger> {
    let p = owner_place(players, news.client_id);
    if my_id == Some(news.client_id) || p >= players.len() {
        players
    } else {
        players.update(
            p,
            RemoteCharger {
                state: RemoteChargeState {
                    active: news.active,
                    ratio: news.ratio,
                    tint: news.tint,
                },
                ..players[p]
            },
        )
    }
}

/// Where the first player of a client stands; the length, if there is none.
pub open spec fn owner_place(players: Seq<RemoteCharger>, owner: u64) -> int
    decreases players.len(),
{
    if players.len() == 0 || players[0].owner == owner {
        0
    } else {
        1 + owner_place(players.skip(1), owner)
    }
}

/// The players after the first `n` pieces of news.
pub open spec fn after_all_news(
    players: Seq<RemoteCharger>,
    my_id: Option<u64>,
    news: Seq<ChargeStateBroadcast>,
    n: int,
) -> Seq<RemoteCharger>
    decreases n,
{
    if n <= 0 {
        players
    } else {
        after_news(after_all_news(players, my_id, news, n - 1), my_id, news[n - 1])
    }
}

/// Takes in the news about other players' charges.
pub fn drain_charge_broadcasts(
    players: &mut Vec<RemoteCharger>,
    my_id: Option<u64>,
    news: &Vec<ChargeStateBroadcast>,
)
    ensures
        final(players)@ == after_all_news(old(players)@, my_id, news@, news@.len() as int),
{
    let ghost start = players@;
    let mut i: usize = 0;
    while i < news.len()
        invariant
            i <= news.len(),
            players@ == after_all_news(start, my_id, news@, i as int),
        decreases news.len() - i,
    {
        let item = news[i];
        let mine = match my_id {
            Some(id) => id == item.client_id,
            None => false,
        };
        if !mine {
            let mut p: usize = 0;
            assert(players@.skip(0) =~= players@);
            while p < players.len() && players[p].owner != item.client_id
                invariant
                    p <= players.len(),
                    owner_place(players@, item.client_id) == p + owner_place(
                        players@.skip(p as int),
                        item.client_id,
                    ),
                decreases players.len() - p,
            {
                assert(players@.skip(p as int).skip(1) =~= players@.skip(p + 1));
                p += 1;
            }
            if p < players.len() {
                let mut player = players[p];
                player.state = RemoteChargeState {
                    active: item.active,
                    ratio: item.ratio,
                    tint: item.tint,
                };
                players.set(p, player);
            }
        }
        i += 1;
    }
}

/// A thing on the way up from a bone to the top of the world.
#[derive(Clone, Copy, Debug, PartialEq, Eq, Structural)]
pub struct Ancestor {
    pub entity: Entity,
    pub is_body: bool,
    pub is_player: bool,
}

/// The first player from place `i` on who is at, or above, a body.
pub open spec fn player_above(chain: Seq<Ancestor>, i: int, under_body: bool) -> Option<Entity>
    decreases chain.len() - i,
{
    if i < 0 || i >= chain.len() {
        None
    } else if (under_body || chain[i].is_body) && chain[i].is_player {
        Some(chain[i].entity)
    } else {
        player_above(chain, i + 1, under_body || chain[i].is_body)
    }
}

/// The player whom a bone belongs to. `chain` goes from the bone up.
pub fn find_remote_player(chain: &Vec<Ancestor>) -> (r: Option<Entity>)
    ensures
        r == player_above(chain@, 0, false),
{
    let mut under_body = false;
    let mut i: usize = 0;
    while i < chain.len()
        invariant
            i <= chain.len(),
            player_above(chain@, 0, false) == player_above(chain@, i as int, under_body),
        decreases chain.len() - i,
    {
        if chain[i].is_body {
            under_body = true;
        }
        if under_body && chain[i].is_player {
            return Some(chain[i].entity);
        }
        i += 1;
    }
    None
}

/// Whether a player gets an orb: one whose cast charges, and who has none yet.
pub fn orb_is_due(
    player: Option<Entity>,
    with_orb: &Vec<Entity>,
    state: Option<RemoteChargeState>,
) -> (r: bool)
    ensures
        r == (player is Some && !with_orb@.contains(player->Some_0) && state is Some
            && state->Some_0.active),
{
    match (player, state) {
        (Some(p), Some(s)) => !holds(with_orb, p) && s.active,
        _ => false,
    }
}

pub open spec fn spec_orb_stays(state: Option<RemoteChargeState>) -> bool {
    match state {
        Some(state) => state.active,
        None => false,
    }
}

/// Whether an orb stays: while its player is there, and the cast charges.
#[verifier::when_used_as_spec(spec_orb_stays)]
pub fn orb_stays(state: Option<RemoteChargeState>) -> (r: bool)
    ensures
        r == spec_orb_stays(state),
{
    match state {
        Some(state) => state.active,
        None => false,
    }
}

} // verus!

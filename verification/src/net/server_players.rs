//! The players as the server has them: who joins, who leaves, what they do and
//! how that moves them.

use crate::entity::Entity;
use crate::lists::lemma_filter_places;
use crate::net::protocol::{
    ChargeStateBroadcast, ChargeStateMessage, CustomizeMessage, NetworkedHealth, NetworkedPosition,
    PlayerCustomization, PlayerInputMessage, TeleportSnap,
};
use crate::net::server::{ClientPlayerMap, HeldPortal, HeldPortalRegistry, NetworkedIdAlloc, PeerId};
use crate::physics::Ray;
use crate::scalar::{one, zero, Scalar};
use crate::spells::damage::{player_max_hp, Hurtbox, Team};
use crate::spells::portal::heading;
use crate::vector::{two, Quat, Vec2, Vec3};
use vstd::prelude::*;

verus! {

/// How fast a player walks (`4.2`).
#[verifier::allow_in_spec]
pub fn max_speed() -> Scalar
    returns
        (Scalar { bits: 0x4086_6666 }),
{
    Scalar { bits: 0x4086_6666 }
}

/// How fast a player gets up to that on the ground (`60.0`).
#[verifier::allow_in_spec]
pub fn ground_acceleration() -> Scalar
    returns
        (Scalar { bits: 0x4270_0000 }),
{
    Scalar { bits: 0x4270_0000 }
}

/// How fast a player gets up to that in the air (`10.0`).
#[verifier::allow_in_spec]
pub fn air_acceleration() -> Scalar
    returns
        (Scalar { bits: 0x4120_0000 }),
{
    Scalar { bits: 0x4120_0000 }
}

/// How heavy a player is (`80.0`).
#[verifier::allow_in_spec]
pub fn player_mass() -> Scalar
    returns
        (Scalar { bits: 0x42a0_0000 }),
{
    Scalar { bits: 0x42a0_0000 }
}

/// How hard a player of that mass pushes off (`400.0`).
#[verifier::allow_in_spec]
pub fn jump_push() -> Scalar
    returns
        (Scalar { bits: 0x43c8_0000 }),
{
    Scalar { bits: 0x43c8_0000 }
}

/// The shortest step that counts as one (`1e-5`).
#[verifier::allow_in_spec]
pub fn shortest_step() -> Scalar
    returns
        (Scalar { bits: 0x3727_c5ac }),
{
    Scalar { bits: 0x3727_c5ac }
}

/// How high up a player appears (`1.5`).
#[verifier::allow_in_spec]
pub fn spawn_height() -> Scalar
    returns
        (Scalar { bits: 0x3fc0_0000 }),
{
    Scalar { bits: 0x3fc0_0000 }
}

/// How far back a player appears (`8.0`).
#[verifier::allow_in_spec]
pub fn spawn_depth() -> Scalar
    returns
        (Scalar { bits: 0x4100_0000 }),
{
    Scalar { bits: 0x4100_0000 }
}

/// How far to the left the first place to appear is (`-6.0`).
#[verifier::allow_in_spec]
pub fn spawn_left() -> Scalar
    returns
        (Scalar { bits: 0xc0c0_0000 }),
{
    Scalar { bits: 0xc0c0_0000 }
}

/// From a player's middle to the feet (`-1.0`).
#[verifier::allow_in_spec]
pub fn feet_below() -> Scalar
    returns
        (Scalar { bits: 0xbf80_0000 }),
{
    Scalar { bits: 0xbf80_0000 }
}

/// How near the ground has to be for a player to stand (`0.2`).
#[verifier::allow_in_spec]
pub fn ground_reach() -> Scalar
    returns
        (Scalar { bits: 0x3e4c_cccd }),
{
    Scalar { bits: 0x3e4c_cccd }
}

/// A connected client: the link to it, and who it is.
#[derive(Clone, Copy, Debug, PartialEq, Eq, Structural)]
pub struct ClientLink {
    pub link: Entity,
    pub peer: PeerId,
}

/// Whether the clients connected are as many as before; if not, who gets to see
/// what has to be told anew.
pub fn refresh_replicate_on_connect(connected: usize, before: &mut usize) -> (r: bool)
    ensures
        r == (connected != *old(before)),
        *final(before) == connected,
{
    if connected == *before {
        return false;
    }
    *before = connected;
    true
}

/// Whether the client with this number is connected.
pub open spec fn is_connected(peers: Seq<PeerId>, client: u64) -> bool {
    exists|i: int| 0 <= i < peers.len() && (#[trigger] peers[i]).client_id() == Some(client)
}

fn find_connected(peers: &Vec<PeerId>, client: u64) -> (r: bool)
    ensures
        r == is_connected(peers@, client),
{
    let mut i: usize = 0;
    while i < peers.len()
        invariant
            i <= peers.len(),
            forall|j: int| 0 <= j < i ==> (#[trigger] peers@[j]).client_id() != Some(client),
        decreases peers.len() - i,
    {
        match peers[i].client_id() {
            Some(id) => {
                if id == client {
                    assert(peers@[i as int].client_id() == Some(client));
                    return true;
                }
            },
            None => {},
        }
        i += 1;
    }
    false
}

/// Something that belongs to a client.
#[derive(Clone, Copy, Debug, PartialEq, Eq, Structural)]
pub struct Owned {
    pub entity: Entity,
    pub client: u64,
}

/// What belongs to clients that have left.
pub open spec fn ownerless(owned: Seq<Owned>, peers: Seq<PeerId>) -> Seq<Entity> {
    owned.filter(|o: Owned| !is_connected(peers, o.client)).map_values(|o: Owned| o.entity)
}

/// The portals that clients carried who have left.
pub open spec fn dropped(entries: Seq<HeldPortal>, peers: Seq<PeerId>) -> Seq<Entity> {
    entries.filter(|h: HeldPortal| !is_connected(peers, h.client)).map_values(
        |h: HeldPortal| h.entity,
    )
}

/// Whether something belongs to the client.
pub open spec fn owns(owned: Seq<Owned>, client: u64) -> bool {
    exists|i: int| 0 <= i < owned.len() && (#[trigger] owned[i]).client == client
}

/// The players without those of clients that own something and have left.
pub open spec fn remaining(players: Map<u64, Entity>, owned: Seq<Owned>, peers: Seq<PeerId>) -> Map<
    u64,
    Entity,
> {
    players.remove_keys(
        Set::new(|client: u64| !is_connected(peers, client) && owns(owned, client)),
    )
}

/// Takes out of the world what belongs to clients that have left, and the portals
/// that they carried.
pub fn despawn_disconnected_players(
    peers: &Vec<PeerId>,
    owned: &Vec<Owned>,
    players: &mut ClientPlayerMap,
    held: &mut HeldPortalRegistry,
) -> (r: Vec<Entity>)
    requires
        old(held).wf(),
    ensures
        r@ == ownerless(owned@, peers@) + dropped(old(held)@, peers@),
        final(players)@ == remaining(old(players)@, owned@, peers@),
        final(held).wf(),
        final(held)@ == old(held)@.filter(|h: HeldPortal| is_connected(peers@, h.client)),
{
    let mut gone: Vec<Entity> = Vec::new();
    let ghost left = |o: Owned| !is_connected(peers@, o.client);
    let ghost before = players@;
    let mut i: usize = 0;
    proof {
        reveal(Seq::filter);
        assert(remaining(before, owned@.take(0), peers@) =~= before);
    }
    while i < owned.len()
        invariant
            i <= owned.len(),
            left == (|o: Owned| !is_connected(peers@, o.client)),
            gone@ =~= owned@.take(i as int).filter(left).map_values(|o: Owned| o.entity),
            players@ == remaining(before, owned@.take(i as int), peers@),
        decreases owned.len() - i,
    {
        let ghost until = owned@.take(i as int);
        let ghost after = owned@.take(i + 1);
        let one = owned[i];
        proof {
            reveal(Seq::filter);
            assert(after.drop_last() =~= until);
            assert(after[i as int] == one);
            assert forall|client: u64| #[trigger]
                owns(after, client) == (one.client == client || owns(until, client)) by {
                if owns(after, client) {
                    let j = choose|j: int|
                        0 <= j < after.len() && (#[trigger] after[j]).client == client;
                    if j < i {
                        assert(until[j].client == client);
                    }
                }
                if owns(until, client) {
                    let j = choose|j: int|
                        0 <= j < until.len() && (#[trigger] until[j]).client == client;
                    assert(after[j].client == client);
                }
            }
        }
        if !find_connected(peers, one.client) {
            gone.push(one.entity);
            players.remove(one.client);
        }
        assert(players@ =~= remaining(before, after, peers@));
        i += 1;
    }
    assert(owned@.take(i as int) =~= owned@);
    let mut kept: Vec<HeldPortal> = Vec::new();
    let ghost lost = |h: HeldPortal| !is_connected(peers@, h.client);
    let ghost stays = |h: HeldPortal| is_connected(peers@, h.client);
    let ghost first = gone@;
    let mut k: usize = 0;
    proof {
        reveal(Seq::filter);
    }
    while k < held.entries.len()
        invariant
            k <= held.entries.len(),
            held@ == old(held)@,
            lost == (|h: HeldPortal| !is_connected(peers@, h.client)),
            stays == (|h: HeldPortal| is_connected(peers@, h.client)),
            kept@ == held@.take(k as int).filter(stays),
            gone@ =~= first + held@.take(k as int).filter(lost).map_values(|h: HeldPortal| h.entity),
        decreases held.entries.len() - k,
    {
        proof {
            reveal(Seq::filter);
            assert(held@.take(k + 1).drop_last() =~= held@.take(k as int));
        }
        let one = held.entries[k];
        if find_connected(peers, one.client) {
            kept.push(one);
        } else {
            gone.push(one.entity);
        }
        k += 1;
    }
    proof {
        assert(held@.take(k as int) =~= held@);
        assert forall|i: int, j: int| 0 <= i < j < kept@.len() implies !((
        #[trigger] kept@[i]).client == (#[trigger] kept@[j]).client && kept@[i].slot
            == kept@[j].slot) by {
            let (a, b) = lemma_filter_places(held@, stays, i, j);
            assert(held@[a] == kept@[i] && held@[b] == kept@[j]);
        }
    }
    held.entries = kept;
    gone
}

/// A player to be put into the world.
#[derive(Clone, Copy, Debug, PartialEq, Eq, Structural)]
pub struct NewPlayer {
    pub client: u64,
    pub net_id: u64,
    pub at: Vec3,
}

pub open spec fn spec_spawn_place(client: u64) -> Vec3 {
    Vec3 {
        x: Scalar::from_u32((client % 8) as u32).times(two()).plus(spawn_left()),
        y: spawn_height(),
        z: spawn_depth(),
    }
}

/// Where the player of a client appears: eight places side by side, by number.
#[verifier::when_used_as_spec(spec_spawn_place)]
pub fn spawn_place(client: u64) -> (r: Vec3)
    ensures
        r == spec_spawn_place(client),
{
    Vec3 {
        x: Scalar::from_u32((client % 8) as u32).times(two()).plus(spawn_left()),
        y: spawn_height(),
        z: spawn_depth(),
    }
}

/// Whether one of the players is that of the client.
pub open spec fn has_player(new: Seq<NewPlayer>, client: u64) -> bool {
    exists|i: int| 0 <= i < new.len() && (#[trigger] new[i]).client == client
}

/// The players to be put into the world for the first `n` peers: one for every
/// client that has none. Their names follow upon `last`.
pub open spec fn joining(peers: Seq<PeerId>, owners: Seq<u64>, last: u64, n: int) -> Seq<NewPlayer>
    decreases n,
{
    if n <= 0 {
        Seq::empty()
    } else {
        let before = joining(peers, owners, last, n - 1);
        match peers[n - 1].client_id() {
            Some(client) => if owners.contains(client) || has_player(before, client) {
                before
            } else {
                before.push(
                    NewPlayer {
                        client,
                        net_id: (last + before.len() + 1) as u64,
                        at: spawn_place(client),
                    },
                )
            },
            None => before,
        }
    }
}

fn find_player(new: &Vec<NewPlayer>, client: u64) -> (r: bool)
    ensures
        r == has_player(new@, client),
{
    let mut i: usize = 0;
    while i < new.len()
        invariant
            i <= new.len(),
            forall|j: int| 0 <= j < i ==> (#[trigger] new@[j]).client != client,
        decreases new.len() - i,
    {
        if new[i].client == client {
            assert(new@[i as int].client == client);
            return true;
        }
        i += 1;
    }
    false
}

fn find_owner(owners: &Vec<u64>, client: u64) -> (r: bool)
    ensures
        r == owners@.contains(client),
{
    let mut i: usize = 0;
    while i < owners.len()
        invariant
            i <= owners.len(),
            forall|j: int| 0 <= j < i ==> owners@[j] != client,
        decreases owners.len() - i,
    {
        if owners[i] == client {
            return true;
        }
        i += 1;
    }
    false
}

/// Makes a player for every client that has none yet.
pub fn sync_networked_players(
    peers: &Vec<PeerId>,
    owners: &Vec<u64>,
    ids: &mut NetworkedIdAlloc,
) -> (r: Vec<NewPlayer>)
    requires
        old(ids).next + peers@.len() <= u64::MAX,
    ensures
        r@ == joining(peers@, owners@, old(ids).next, peers@.len() as int),
        final(ids).next == old(ids).next + r@.len(),
{
    let mut new: Vec<NewPlayer> = Vec::new();
    let mut i: usize = 0;
    while i < peers.len()
        invariant
            i <= peers.len(),
            old(ids).next + peers@.len() <= u64::MAX,
            new@.len() <= i,
            new@ == joining(peers@, owners@, old(ids).next, i as int),
            ids.next == old(ids).next + new@.len(),
        decreases peers.len() - i,
    {
        match peers[i].client_id() {
            Some(client) => {
                if !find_owner(owners, client) && !find_player(&new, client) {
                    let net_id = ids.next();
                    new.push(NewPlayer { client, net_id, at: spawn_place(client) });
                }
            },
            None => {},
        }
        i += 1;
    }
    new
}

pub open spec fn spec_new_hurtbox() -> Hurtbox {
    Hurtbox::new(player_max_hp(), Team::Players)
}

/// How much a new player can take.
#[verifier::when_used_as_spec(spec_new_hurtbox)]
pub fn new_hurtbox() -> (r: Hurtbox)
    ensures
        r == spec_new_hurtbox(),
{
    Hurtbox::new(player_max_hp(), Team::Players)
}

pub open spec fn spec_new_health() -> NetworkedHealth {
    NetworkedHealth { hp: player_max_hp(), max_hp: player_max_hp() }
}

/// How much a new player can take, for everyone to see.
#[verifier::when_used_as_spec(spec_new_health)]
pub fn new_health() -> (r: NetworkedHealth)
    ensures
        r == spec_new_health(),
{
    NetworkedHealth { hp: player_max_hp(), max_hp: player_max_hp() }
}

/// Every connected client has exactly one player after the new ones have joined:
/// an old one or a new one, and no client gets two.
pub proof fn law_one_player_each(peers: Seq<PeerId>, owners: Seq<u64>, last: u64, n: int)
    requires
        0 <= n <= peers.len(),
    ensures
        forall|i: int|
            0 <= i < n && (#[trigger] peers[i]).client_id() is Some ==> (owners.contains(
                peers[i].client_id()->Some_0,
            ) != has_player(joining(peers, owners, last, n), peers[i].client_id()->Some_0)),
        forall|i: int, j: int|
            0 <= i < j < joining(peers, owners, last, n).len() ==> (#[trigger] joining(
                peers,
                owners,
                last,
                n,
            )[i]).client != (#[trigger] joining(peers, owners, last, n)[j]).client,
        forall|i: int|
            0 <= i < joining(peers, owners, last, n).len() ==> !owners.contains(
                (#[trigger] joining(peers, owners, last, n)[i]).client,
            ),
    decreases n,
{
    if n > 0 {
        law_one_player_each(peers, owners, last, n - 1);
        let before = joining(peers, owners, last, n - 1);
        let after = joining(peers, owners, last, n);
        assert forall|i: int| 0 <= i < n && (#[trigger] peers[i]).client_id() is Some implies (
        owners.contains(peers[i].client_id()->Some_0) != has_player(
            after,
            peers[i].client_id()->Some_0,
        )) by {
            let client = peers[i].client_id()->Some_0;
            if has_player(before, client) {
                let k = choose|k: int| 0 <= k < before.len() && (#[trigger] before[k]).client == client;
                assert(after[k].client == client);
            }
            if i == n - 1 && !owners.contains(client) && !has_player(before, client) {
                assert(after[before.len() as int].client == client);
            }
        }
    }
}

/// The input that counts for a player until the next one comes.
#[derive(Clone, Copy, Debug, PartialEq, Eq, Structural)]
pub struct PlayerInputState {
    pub movement: Vec2,
    pub yaw: Scalar,
    pub pitch: Scalar,
    pub jump: bool,
    pub casting: bool,
}

impl Default for PlayerInputState {
    fn default() -> (r: PlayerInputState)
        ensures
            r == (PlayerInputState {
                movement: Vec2 { x: zero(), y: zero() },
                yaw: zero(),
                pitch: zero(),
                jump: false,
                casting: false,
            }),
    {
        PlayerInputState {
            movement: Vec2 { x: zero(), y: zero() },
            yaw: zero(),
            pitch: zero(),
            jump: false,
            casting: false,
        }
    }
}

pub open spec fn spec_input_of(msg: PlayerInputMessage) -> PlayerInputState {
    PlayerInputState {
        movement: msg.movement,
        yaw: msg.yaw,
        pitch: msg.pitch,
        jump: msg.jump,
        casting: msg.casting,
    }
}

/// The input that a message tells of.
#[verifier::when_used_as_spec(spec_input_of)]
pub fn input_of(msg: PlayerInputMessage) -> (r: PlayerInputState)
    ensures
        r == spec_input_of(msg),
{
    PlayerInputState {
        movement: msg.movement,
        yaw: msg.yaw,
        pitch: msg.pitch,
        jump: msg.jump,
        casting: msg.casting,
    }
}

/// A player and the input that counts.
#[derive(Clone, Copy, Debug, PartialEq, Eq, Structural)]
pub struct InputSlot {
    pub client: u64,
    pub input: PlayerInputState,
}

/// Takes the latest of a client's messages for the client's player.
pub fn drain_player_inputs(
    client: u64,
    messages: &Vec<PlayerInputMessage>,
    players: &mut Vec<InputSlot>,
)
    ensures
        final(players)@.len() == old(players)@.len(),
        forall|i: int|
            0 <= i < old(players)@.len() ==> #[trigger] final(players)@[i] == (if old(
                players,
            )@[i].client == client && messages@.len() > 0 {
                InputSlot { client, input: input_of(messages@.last()) }
            } else {
                old(players)@[i]
            }),
{
    if messages.len() == 0 {
        return;
    }
    let input = input_of(messages[messages.len() - 1]);
    let mut i: usize = 0;
    while i < players.len()
        invariant
            i <= players.len(),
            messages@.len() > 0,
            input == input_of(messages@.last()),
            players@.len() == old(players)@.len(),
            forall|j: int|
                0 <= j < i ==> #[trigger] players@[j] == (if old(players)@[j].client == client {
                    InputSlot { client, input }
                } else {
                    old(players)@[j]
                }),
            forall|j: int| i <= j < players@.len() ==> #[trigger] players@[j] == old(players)@[j],
        decreases players.len() - i,
    {
        if players[i].client == client {
            players.set(i, InputSlot { client, input });
        }
        i += 1;
    }
}

/// A player, and what the player looks like.
#[derive(Clone, Copy, Debug, PartialEq, Eq, Structural)]
pub struct LookSlot {
    pub client: u64,
    pub look: PlayerCustomization,
}

/// Takes the latest of a client's messages for the client's player.
pub fn drain_customize_messages(
    client: u64,
    messages: &Vec<CustomizeMessage>,
    players: &mut Vec<LookSlot>,
)
    ensures
        final(players)@.len() == old(players)@.len(),
        forall|i: int|
            0 <= i < old(players)@.len() ==> #[trigger] final(players)@[i] == (if old(
                players,
            )@[i].client == client && messages@.len() > 0 {
                LookSlot { client, look: messages@.last().customization }
            } else {
                old(players)@[i]
            }),
{
    if messages.len() == 0 {
        return;
    }
    let look = messages[messages.len() - 1].customization;
    let mut i: usize = 0;
    while i < players.len()
        invariant
            i <= players.len(),
            messages@.len() > 0,
            look == messages@.last().customization,
            players@.len() == old(players)@.len(),
            forall|j: int|
                0 <= j < i ==> #[trigger] players@[j] == (if old(players)@[j].client == client {
                    LookSlot { client, look }
                } else {
                    old(players)@[j]
                }),
            forall|j: int| i <= j < players@.len() ==> #[trigger] players@[j] == old(players)@[j],
        decreases players.len() - i,
    {
        if players[i].client == client {
            players.set(i, LookSlot { client, look });
        }
        i += 1;
    }
}

pub open spec fn spec_no_longer(v: Vec3, longest: Scalar) -> Vec3 {
    let squared = v.length_squared();
    if squared.gt(longest.times(longest)) {
        v.shrink(squared.sqrt()).scale(longest)
    } else {
        v
    }
}

/// `v`, or what of it is `longest` long.
#[verifier::when_used_as_spec(spec_no_longer)]
pub fn no_longer(v: Vec3, longest: Scalar) -> (r: Vec3)
    ensures
        r == spec_no_longer(v, longest),
{
    let squared = v.length_squared();
    if squared.gt(longest.times(longest)) {
        v.shrink(squared.sqrt()).scale(longest)
    } else {
        v
    }
}

pub open spec fn spec_wanted_velocity(input: PlayerInputState, facing: Quat) -> Vec3 {
    facing.rotate(
        Vec3 { x: input.movement.x, y: zero(), z: input.movement.y.neg() },
    ).normalize_or_zero().scale(max_speed())
}

/// Where on the ground a player wants to go, who is turned by `facing`.
#[verifier::when_used_as_spec(spec_wanted_velocity)]
pub fn wanted_velocity(input: PlayerInputState, facing: Quat) -> (r: Vec3)
    ensures
        r == spec_wanted_velocity(input, facing),
{
    facing.rotate(
        Vec3 { x: input.movement.x, y: zero(), z: input.movement.y.neg() },
    ).normalize_or_zero().scale(max_speed())
}

pub open spec fn spec_walking_force(
    input: PlayerInputState,
    facing: Quat,
    velocity: Vec3,
    grounded: bool,
    dt: Scalar,
) -> Vec3 {
    let step = dt.max(shortest_step());
    let missing = wanted_velocity(input, facing).minus(
        Vec3 { x: velocity.x, y: zero(), z: velocity.z },
    );
    let most = if grounded {
        ground_acceleration()
    } else {
        air_acceleration()
    };
    no_longer(missing, most.times(step)).shrink(step).scale(player_mass())
}

/// The force that brings a player who moves at `velocity` up to the speed that
/// the player wants, in a step of `dt` seconds.
#[verifier::when_used_as_spec(spec_walking_force)]
pub fn walking_force(
    input: PlayerInputState,
    facing: Quat,
    velocity: Vec3,
    grounded: bool,
    dt: Scalar,
) -> (r: Vec3)
    ensures
        r == spec_walking_force(input, facing, velocity, grounded, dt),
{
    let step = dt.max(shortest_step());
    let missing = wanted_velocity(input, facing).minus(
        Vec3 { x: velocity.x, y: zero(), z: velocity.z },
    );
    let most = if grounded {
        ground_acceleration()
    } else {
        air_acceleration()
    };
    no_longer(missing, most.times(step)).shrink(step).scale(player_mass())
}

pub open spec fn spec_jump_impulse(jump: bool, before: bool, grounded: bool) -> Option<Vec3> {
    if jump && !before && grounded {
        Some(Vec3 { x: zero(), y: one(), z: zero() }.scale(jump_push()))
    } else {
        None
    }
}

/// The push of a player who has just begun to jump, on the ground.
#[verifier::when_used_as_spec(spec_jump_impulse)]
pub fn jump_impulse(jump: bool, before: bool, grounded: bool) -> (r: Option<Vec3>)
    ensures
        r == spec_jump_impulse(jump, before, grounded),
{
    if jump && !before && grounded {
        Some(Vec3 { x: zero(), y: one(), z: zero() }.scale(jump_push()))
    } else {
        None
    }
}

pub open spec fn spec_ground_probe(at: Vec3) -> Vec3 {
    at.plus(Vec3 { x: zero(), y: feet_below(), z: zero() })
}

/// The point that a ray goes down from to tell whether a player stands.
#[verifier::when_used_as_spec(spec_ground_probe)]
pub fn ground_probe(at: Vec3) -> (r: Vec3)
    ensures
        r == spec_ground_probe(at),
{
    at.plus(Vec3 { x: zero(), y: feet_below(), z: zero() })
}

/// The ray that tells whether a player stands: what it meets is the ground. It
/// goes through the player alone.
pub fn ground_ray(at: Vec3, player: Entity) -> (r: Ray)
    ensures
        r.goes(
            ground_probe(at),
            Vec3 { x: zero(), y: one().neg(), z: zero() },
            ground_reach(),
            seq![player],
        ),
{
    let mut ignored: Vec<Entity> = Vec::new();
    ignored.push(player);
    assert(ignored@ =~= seq![player]);
    Ray {
        origin: ground_probe(at),
        direction: Vec3 { x: zero(), y: one().neg(), z: zero() },
        range: ground_reach(),
        ignored,
    }
}

/// What moves a player in a step.
#[derive(Clone, Copy, Debug, PartialEq, Eq, Structural)]
pub struct PlayerMove {
    pub force: Vec3,
    pub impulse: Option<Vec3>,
}

/// Moves a player for a step, and remembers whether the player jumps.
pub fn run_player_controller(
    input: PlayerInputState,
    facing: Quat,
    velocity: Vec3,
    grounded: bool,
    dt: Scalar,
    jumped: &mut bool,
) -> (r: PlayerMove)
    ensures
        r.force == walking_force(input, facing, velocity, grounded, dt),
        r.impulse == jump_impulse(input.jump, *old(jumped), grounded),
        *final(jumped) == input.jump,
{
    let force = walking_force(input, facing, velocity, grounded, dt);
    let impulse = jump_impulse(input.jump, *jumped, grounded);
    *jumped = input.jump;
    PlayerMove { force, impulse }
}

pub open spec fn spec_sync_player_positions(
    at: Vec3,
    input: PlayerInputState,
    grounded: bool,
) -> NetworkedPosition {
    NetworkedPosition {
        x: at.x,
        y: at.y,
        z: at.z,
        yaw: input.yaw,
        pitch: input.pitch,
        airborne: !grounded,
        casting: input.casting,
    }
}

/// Where a player is, for everyone to see.
#[verifier::when_used_as_spec(spec_sync_player_positions)]
pub fn sync_player_positions(
    at: Vec3,
    input: PlayerInputState,
    grounded: bool,
) -> (r: NetworkedPosition)
    ensures
        r == spec_sync_player_positions(at, input, grounded),
{
    NetworkedPosition {
        x: at.x,
        y: at.y,
        z: at.z,
        yaw: input.yaw,
        pitch: input.pitch,
        airborne: !grounded,
        casting: input.casting,
    }
}

pub open spec fn spec_moved_to(position: NetworkedPosition, at: Vec3) -> NetworkedPosition {
    NetworkedPosition { x: at.x, y: at.y, z: at.z, ..position }
}

/// Where a body is, for everyone to see: the rest stays as it was.
#[verifier::when_used_as_spec(spec_moved_to)]
pub fn moved_to(position: NetworkedPosition, at: Vec3) -> (r: NetworkedPosition)
    ensures
        r == spec_moved_to(position, at),
{
    NetworkedPosition { x: at.x, y: at.y, z: at.z, ..position }
}

/// Turns a player who has come out of a portal and now looks along `forward`, and
/// tells the client so. `yaw` is the angle of [`heading`]; there is none straight
/// up or down, and then nothing changes.
pub fn snap_after_teleport(
    client: u64,
    forward: Vec3,
    yaw: Scalar,
    input: &mut PlayerInputState,
) -> (r: Option<TeleportSnap>)
    ensures
        heading(forward) is Some ==> {
            &&& r == Some(TeleportSnap { client_id: client, new_yaw: yaw })
            &&& *final(input) == (PlayerInputState { yaw, ..*old(input) })
        },
        heading(forward) is None ==> r is None && *final(input) == *old(input),
{
    match heading(forward) {
        Some(_) => {
            input.yaw = yaw;
            Some(TeleportSnap { client_id: client, new_yaw: yaw })
        },
        None => None,
    }
}

pub open spec fn spec_charge_broadcast(
    client: u64,
    msg: ChargeStateMessage,
) -> ChargeStateBroadcast {
    ChargeStateBroadcast {
        client_id: client,
        active: msg.active,
        ratio: msg.ratio,
        tint: msg.tint,
    }
}

/// How far a client's cast has charged, for the others to see.
#[verifier::when_used_as_spec(spec_charge_broadcast)]
pub fn charge_broadcast(client: u64, msg: ChargeStateMessage) -> (r: ChargeStateBroadcast)
    ensures
        r == spec_charge_broadcast(client, msg),
{
    ChargeStateBroadcast {
        client_id: client,
        active: msg.active,
        ratio: msg.ratio,
        tint: msg.tint,
    }
}

/// The links of all clients but one.
pub open spec fn everyone_else(links: Seq<ClientLink>, client: u64) -> Seq<ClientLink> {
    links.filter(|l: ClientLink| l.peer.client_id() != Some(client))
}

/// What is told of a client's charge, and to whom: to every other client.
pub fn relay_charge_states(
    client: u64,
    msg: ChargeStateMessage,
    links: &Vec<ClientLink>,
) -> (r: (ChargeStateBroadcast, Vec<ClientLink>))
    ensures
        r.0 == charge_broadcast(client, msg),
        r.1@ == everyone_else(links@, client),
{
    let ghost other = |l: ClientLink| l.peer.client_id() != Some(client);
    let mut told: Vec<ClientLink> = Vec::new();
    let mut i: usize = 0;
    proof {
        reveal(Seq::filter);
    }
    while i < links.len()
        invariant
            i <= links.len(),
            other == (|l: ClientLink| l.peer.client_id() != Some(client)),
            told@ == links@.take(i as int).filter(other),
        decreases links.len() - i,
    {
        proof {
            reveal(Seq::filter);
            assert(links@.take(i + 1).drop_last() =~= links@.take(i as int));
        }
        let same = match links[i].peer.client_id() {
            Some(id) => id == client,
            None => false,
        };
        if !same {
            told.push(links[i]);
        }
        i += 1;
    }
    assert(links@.take(i as int) =~= links@);
    (charge_broadcast(client, msg), told)
}

/// What there is to equip, and which of it is in hand.
#[derive(Debug)]
pub struct Loadout {
    pub client: u64,
    pub first: Option<String>,
    pub second: Option<String>,
    pub active: u8,
}

/// The text of a name that may be missing.
pub open spec fn text_of(name: Option<String>) -> Option<Seq<char>> {
    match name {
        Some(name) => Some(name@),
        None => None,
    }
}

fn copy_name(name: &Option<String>) -> (r: Option<String>)
    ensures
        text_of(r) == text_of(*name),
{
    match name {
        Some(name) => Some(name.clone()),
        None => None,
    }
}

/// What a client wants to have equipped.
#[derive(Debug)]
pub struct EquipWeaponsMessage {
    pub first: Option<String>,
    pub second: Option<String>,
    pub active: u8,
}

/// Where the player of a client stands in the list; the length, if there is none.
pub open spec fn loadout_place(players: Seq<Loadout>, client: u64) -> int
    decreases players.len(),
{
    if players.len() == 0 || players[0].client == client {
        0
    } else {
        1 + loadout_place(players.skip(1), client)
    }
}

/// Takes the latest of a client's messages for the client's player.
pub fn drain_equip_messages(
    client: u64,
    messages: &Vec<EquipWeaponsMessage>,
    players: &mut Vec<Loadout>,
)
    ensures
        final(players)@.len() == old(players)@.len(),
        ({
            let p = loadout_place(old(players)@, client);
            &&& forall|i: int|
                0 <= i < old(players)@.len() && (i != p || messages@.len() == 0)
                    ==> #[trigger] final(players)@[i] == old(players)@[i]
            &&& messages@.len() > 0 && p < old(players)@.len() ==> {
                let msg = messages@.last();
                &&& final(players)@[p].client == client
                &&& text_of(final(players)@[p].first) == text_of(msg.first)
                &&& text_of(final(players)@[p].second) == text_of(msg.second)
                &&& final(players)@[p].active == msg.active
            }
        }),
{
    if messages.len() == 0 {
        return;
    }
    let msg = &messages[messages.len() - 1];
    let mut i: usize = 0;
    assert(players@.skip(0) =~= players@);
    while i < players.len()
        invariant
            i <= players.len(),
            players@ == old(players)@,
            messages@.len() > 0,
            *msg == messages@.last(),
            loadout_place(players@, client) == i + loadout_place(players@.skip(i as int), client),
        decreases players.len() - i,
    {
        if players[i].client == client {
            players.set(
                i,
                Loadout {
                    client,
                    first: copy_name(&msg.first),
                    second: copy_name(&msg.second),
                    active: msg.active,
                },
            );
            return;
        }
        assert(players@.skip(i as int).skip(1) =~= players@.skip(i + 1));
        i += 1;
    }
}

} // verus!

//! What a client makes of what the server tells: where things are seen, and how
//! they move.

use crate::entity::{holds, Entity};
use crate::net::protocol::{full_turn, pi, BeamCastBroadcast, NetworkedPosition};
use crate::net::server::PeerId;
use crate::player::rig::{find_ancestor_owner, line_owner, RigNode};
use crate::player::visuals::{step_airborne_blend, step_casting_blend};
use crate::scalar::{one, zero, Scalar};
use crate::vector::Vec3;
use vstd::prelude::*;

verus! {

/// The shortest time between two samples (`1e-3`).
#[verifier::allow_in_spec]
pub fn shortest_span() -> Scalar
    returns
        (Scalar { bits: 0x3a83_126f }),
{
    Scalar { bits: 0x3a83_126f }
}

/// How much of a new velocity counts (`0.15`).
#[verifier::allow_in_spec]
pub fn remote_alpha() -> Scalar
    returns
        (Scalar { bits: 0x3e19_999a }),
{
    Scalar { bits: 0x3e19_999a }
}

/// After how long without news something slows down (`0.2`).
#[verifier::allow_in_spec]
pub fn stale_after() -> Scalar
    returns
        (Scalar { bits: 0x3e4c_cccd }),
{
    Scalar { bits: 0x3e4c_cccd }
}

/// How short a drawn beam is at least (`0.01`).
#[verifier::allow_in_spec]
pub fn shortest_beam() -> Scalar
    returns
        (Scalar { bits: 0x3c23_d70a }),
{
    Scalar { bits: 0x3c23_d70a }
}

/// `0.5`.
#[verifier::allow_in_spec]
pub fn a_half() -> Scalar
    returns
        (Scalar { bits: 0x3f00_0000 }),
{
    Scalar { bits: 0x3f00_0000 }
}

/// The last two samples of where something is.
#[derive(Clone, Copy, Debug, PartialEq, Eq, Structural)]
pub struct NetworkedPositionSmoothing {
    pub prev_pos: Vec3,
    pub prev_yaw: Scalar,
    pub prev_time: Scalar,
    pub cur_pos: Vec3,
    pub cur_yaw: Scalar,
    pub cur_time: Scalar,
    /// Whether there has been a sample.
    pub initialized: bool,
}

impl Default for NetworkedPositionSmoothing {
    fn default() -> (r: NetworkedPositionSmoothing)
        ensures
            r == (NetworkedPositionSmoothing {
                prev_pos: Vec3::origin(),
                prev_yaw: zero(),
                prev_time: zero(),
                cur_pos: Vec3::origin(),
                cur_yaw: zero(),
                cur_time: zero(),
                initialized: false,
            }),
    {
        NetworkedPositionSmoothing {
            prev_pos: Vec3::origin(),
            prev_yaw: zero(),
            prev_time: zero(),
            cur_pos: Vec3::origin(),
            cur_yaw: zero(),
            cur_time: zero(),
            initialized: false,
        }
    }
}

pub open spec fn spec_sampled(
    samples: NetworkedPositionSmoothing,
    position: NetworkedPosition,
    now: Scalar,
) -> NetworkedPositionSmoothing {
    if samples.initialized {
        NetworkedPositionSmoothing {
            prev_pos: samples.cur_pos,
            prev_yaw: samples.cur_yaw,
            prev_time: samples.cur_time,
            cur_pos: position.to_vec3(),
            cur_yaw: position.yaw,
            cur_time: now,
            initialized: true,
        }
    } else {
        NetworkedPositionSmoothing {
            prev_pos: position.to_vec3(),
            prev_yaw: position.yaw,
            prev_time: now,
            cur_pos: position.to_vec3(),
            cur_yaw: position.yaw,
            cur_time: now,
            initialized: true,
        }
    }
}

/// The samples with a new one: the first one counts twice, and later ones push the
/// oldest out.
#[verifier::when_used_as_spec(spec_sampled)]
pub fn sampled(
    samples: NetworkedPositionSmoothing,
    position: NetworkedPosition,
    now: Scalar,
) -> (r: NetworkedPositionSmoothing)
    ensures
        r == spec_sampled(samples, position, now),
{
    if samples.initialized {
        NetworkedPositionSmoothing {
            prev_pos: samples.cur_pos,
            prev_yaw: samples.cur_yaw,
            prev_time: samples.cur_time,
            cur_pos: position.to_vec3(),
            cur_yaw: position.yaw,
            cur_time: now,
            initialized: true,
        }
    } else {
        NetworkedPositionSmoothing {
            prev_pos: position.to_vec3(),
            prev_yaw: position.yaw,
            prev_time: now,
            cur_pos: position.to_vec3(),
            cur_yaw: position.yaw,
            cur_time: now,
            initialized: true,
        }
    }
}

/// Takes a new sample.
pub fn capture_networked_position_samples(
    samples: &mut NetworkedPositionSmoothing,
    position: NetworkedPosition,
    now: Scalar,
)
    ensures
        *final(samples) == sampled(*old(samples), position, now),
{
    *samples = sampled(*samples, position, now);
}

/// Where something is seen, and how it is turned.
#[derive(Clone, Copy, Debug, PartialEq, Eq, Structural)]
pub struct SmoothedPose {
    pub at: Vec3,
    pub yaw: Scalar,
}

pub open spec fn spec_sample_time(samples: NetworkedPositionSmoothing, now: Scalar) -> Scalar {
    let span = samples.cur_time.minus(samples.prev_time).max(shortest_span());
    now.minus(span).minus(samples.prev_time).over(span).clamp(zero(), one())
}

/// How far between its samples something is seen: one span late, so that it never
/// goes beyond what is known.
#[verifier::when_used_as_spec(spec_sample_time)]
pub fn sample_time(samples: NetworkedPositionSmoothing, now: Scalar) -> (r: Scalar)
    ensures
        r == spec_sample_time(samples, now),
{
    let span = samples.cur_time.minus(samples.prev_time).max(shortest_span());
    now.minus(span).minus(samples.prev_time).over(span).clamp(zero(), one())
}

pub open spec fn spec_yaw_step(start: Scalar, end: Scalar) -> Scalar {
    let way = end.minus(start);
    if way.gt(pi()) {
        way.minus(full_turn())
    } else if way.lt(pi().neg()) {
        way.plus(full_turn())
    } else {
        way
    }
}

/// How far something turns between two samples: the other way round where that is more
/// than half a turn.
#[verifier::when_used_as_spec(spec_yaw_step)]
pub fn yaw_step(start: Scalar, end: Scalar) -> (r: Scalar)
    ensures
        r == spec_yaw_step(start, end),
{
    let way = end.minus(start);
    if way.gt(pi()) {
        way.minus(full_turn())
    } else if way.lt(pi().neg()) {
        way.plus(full_turn())
    } else {
        way
    }
}

pub open spec fn spec_smooth_networked_transforms(
    samples: NetworkedPositionSmoothing,
    now: Scalar,
) -> Option<SmoothedPose> {
    if !samples.initialized {
        None
    } else {
        let t = sample_time(samples, now);
        Some(
            SmoothedPose {
                at: samples.prev_pos.lerp(samples.cur_pos, t),
                yaw: samples.prev_yaw.plus(yaw_step(samples.prev_yaw, samples.cur_yaw).times(t)),
            },
        )
    }
}

/// Where something is seen; nowhere before the first sample.
#[verifier::when_used_as_spec(spec_smooth_networked_transforms)]
pub fn smooth_networked_transforms(
    samples: NetworkedPositionSmoothing,
    now: Scalar,
) -> (r: Option<SmoothedPose>)
    ensures
        r == spec_smooth_networked_transforms(samples, now),
{
    if !samples.initialized {
        None
    } else {
        let t = sample_time(samples, now);
        Some(
            SmoothedPose {
                at: samples.prev_pos.lerp(samples.cur_pos, t),
                yaw: samples.prev_yaw.plus(yaw_step(samples.prev_yaw, samples.cur_yaw).times(t)),
            },
        )
    }
}

/// What is seen always lies between two samples, never beyond the last one.
pub proof fn law_no_extrapolation(samples: NetworkedPositionSmoothing, now: Scalar)
    requires
        !now.minus(samples.cur_time.minus(samples.prev_time).max(shortest_span())).minus(
            samples.prev_time,
        ).over(samples.cur_time.minus(samples.prev_time).max(shortest_span())).is_nan(),
    ensures
        zero().le(sample_time(samples, now)),
        sample_time(samples, now).le(one()),
{
}

/// Whether another player's body is shown, which hangs at the end of a line: not
/// if it is the one of the player at this machine. Nothing is known without an
/// owner, or before this machine has a number.
pub fn hide_self_wizard_body(line: &Vec<RigNode>, me: Option<PeerId>) -> (r: Option<bool>)
    ensures
        r == (match (me, line_owner(line@)) {
            (Some(peer), Some(owner)) => match peer.client_id() {
                Some(client) => Some(owner != client),
                None => None,
            },
            _ => None,
        }),
{
    let client = match me {
        Some(peer) => peer.client_id(),
        None => None,
    };
    match (client, find_ancestor_owner(line)) {
        (Some(client), Some(owner)) => Some(owner != client),
        _ => None,
    }
}

/// A player's beam, as this machine has last heard of it.
#[derive(Clone, Copy, Debug, PartialEq, Eq, Structural)]
pub struct LocalBeamState {
    pub active: bool,
    pub origin: Vec3,
    pub direction: Vec3,
    pub length: Scalar,
}

impl Default for LocalBeamState {
    fn default() -> (r: LocalBeamState)
        ensures
            r == (LocalBeamState {
                active: false,
                origin: Vec3::origin(),
                direction: Vec3::origin(),
                length: zero(),
            }),
    {
        LocalBeamState {
            active: false,
            origin: Vec3::origin(),
            direction: Vec3::origin(),
            length: zero(),
        }
    }
}

/// A player, and the player's beam.
#[derive(Clone, Copy, Debug, PartialEq, Eq, Structural)]
pub struct BeamSlot {
    pub client: u64,
    pub beam: LocalBeamState,
}

pub open spec fn spec_told_beam(msg: BeamCastBroadcast) -> LocalBeamState {
    LocalBeamState {
        active: msg.active,
        origin: msg.origin,
        direction: msg.direction,
        length: msg.length,
    }
}

/// The beam that a message tells of.
#[verifier::when_used_as_spec(spec_told_beam)]
pub fn told_beam(msg: BeamCastBroadcast) -> (r: LocalBeamState)
    ensures
        r == spec_told_beam(msg),
{
    LocalBeamState {
        active: msg.active,
        origin: msg.origin,
        direction: msg.direction,
        length: msg.length,
    }
}

/// Where the first player of a client stands; the length, if there is none.
pub open spec fn beam_place(players: Seq<BeamSlot>, client: u64) -> int
    decreases players.len(),
{
    if players.len() == 0 || players[0].client == client {
        0
    } else {
        1 + beam_place(players.skip(1), client)
    }
}

/// The beams after a message. That of the player at this machine is not told of:
/// it is drawn as it is cast.
pub open spec fn beams_after(players: Seq<BeamSlot>, me: Option<u64>, msg: BeamCastBroadcast) -> Seq<
    BeamSlot,
> {
    let p = beam_place(players, msg.client_id);
    if me == Some(msg.client_id) || p >= players.len() {
        players
    } else {
        players.update(p, BeamSlot { client: msg.client_id, beam: told_beam(msg) })
    }
}

/// The beams after the first `n` messages.
pub open spec fn beams_told(
    players: Seq<BeamSlot>,
    me: Option<u64>,
    messages: Seq<BeamCastBroadcast>,
    n: int,
) -> Seq<BeamSlot>
    decreases n,
{
    if n <= 0 {
        players
    } else {
        beams_after(beams_told(players, me, messages, n - 1), me, messages[n - 1])
    }
}

fn tell_beam(players: &mut Vec<BeamSlot>, me: Option<u64>, msg: BeamCastBroadcast)
    ensures
        final(players)@ == beams_after(old(players)@, me, msg),
{
    let mine = match me {
        Some(me) => me == msg.client_id,
        None => false,
    };
    if mine {
        return;
    }
    let mut i: usize = 0;
    assert(players@.skip(0) =~= players@);
    while i < players.len()
        invariant
            i <= players.len(),
            players@ == old(players)@,
            me != Some(msg.client_id),
            beam_place(players@, msg.client_id) == i + beam_place(
                players@.skip(i as int),
                msg.client_id,
            ),
        decreases players.len() - i,
    {
        if players[i].client == msg.client_id {
            players.set(i, BeamSlot { client: msg.client_id, beam: told_beam(msg) });
            return;
        }
        assert(players@.skip(i as int).skip(1) =~= players@.skip(i + 1));
        i += 1;
    }
}

/// Takes in what is told of the others' beams.
pub fn drain_beam_broadcasts(
    messages: &Vec<BeamCastBroadcast>,
    me: Option<PeerId>,
    players: &mut Vec<BeamSlot>,
)
    ensures
        final(players)@ == beams_told(
            old(players)@,
            match me {
                Some(peer) => peer.client_id(),
                None => None,
            },
            messages@,
            messages@.len() as int,
        ),
{
    let client = match me {
        Some(peer) => peer.client_id(),
        None => None,
    };
    let mut i: usize = 0;
    while i < messages.len()
        invariant
            i <= messages.len(),
            players@ == beams_told(old(players)@, client, messages@, i as int),
        decreases messages.len() - i,
    {
        tell_beam(players, client, messages[i]);
        i += 1;
    }
}

/// A beam as it is drawn: where its middle is, which way it goes, and how long it is.
#[derive(Clone, Copy, Debug, PartialEq, Eq, Structural)]
pub struct BeamVisual {
    pub middle: Vec3,
    pub direction: Vec3,
    pub length: Scalar,
}

pub open spec fn spec_drive_remote_beam_visuals(
    beam: Option<LocalBeamState>,
) -> Option<BeamVisual> {
    match beam {
        Some(beam) => if beam.active {
            match beam.direction.direction() {
                Some(along) => {
                    let length = beam.length.max(shortest_beam());
                    Some(
                        BeamVisual {
                            middle: beam.origin.plus(along.scale(length.times(a_half()))),
                            direction: along,
                            length,
                        },
                    )
                },
                None => None,
            }
        } else {
            None
        },
        None => None,
    }
}

/// How another player's beam is drawn; not at all while it is off, has no direction,
/// or the player is gone.
#[verifier::when_used_as_spec(spec_drive_remote_beam_visuals)]
pub fn drive_remote_beam_visuals(beam: Option<LocalBeamState>) -> (r: Option<BeamVisual>)
    ensures
        r == spec_drive_remote_beam_visuals(beam),
{
    match beam {
        Some(beam) => if beam.active {
            match beam.direction.direction() {
                Some(along) => {
                    let length = beam.length.max(shortest_beam());
                    Some(
                        BeamVisual {
                            middle: beam.origin.plus(along.scale(length.times(a_half()))),
                            direction: along,
                            length,
                        },
                    )
                },
                None => None,
            }
        } else {
            None
        },
        None => None,
    }
}

/// A drawn beam, and the player whose it is.
#[derive(Clone, Copy, Debug, PartialEq, Eq, Structural)]
pub struct RemoteBeamMesh {
    pub mesh: Entity,
    pub player: Entity,
}

/// The drawn beams whose player is gone.
pub fn cleanup_orphan_beam_meshes(beams: &Vec<RemoteBeamMesh>, players: &Vec<Entity>) -> (r: Vec<
    RemoteBeamMesh,
>)
    ensures
        r@ == beams@.filter(|b: RemoteBeamMesh| !players@.contains(b.player)),
{
    let ghost gone = |b: RemoteBeamMesh| !players@.contains(b.player);
    let mut orphans: Vec<RemoteBeamMesh> = Vec::new();
    let mut i: usize = 0;
    proof {
        reveal(Seq::filter);
    }
    while i < beams.len()
        invariant
            i <= beams.len(),
            gone == (|b: RemoteBeamMesh| !players@.contains(b.player)),
            orphans@ == beams@.take(i as int).filter(gone),
        decreases beams.len() - i,
    {
        proof {
            reveal(Seq::filter);
            assert(beams@.take(i + 1).drop_last() =~= beams@.take(i as int));
        }
        if !holds(players, beams[i].player) {
            orphans.push(beams[i]);
        }
        i += 1;
    }
    assert(beams@.take(i as int) =~= beams@);
    orphans
}

/// What is known of how another player moves.
#[derive(Clone, Copy, Debug, PartialEq, Eq, Structural)]
pub struct RemoteAnimState {
    pub last_pos: Vec3,
    pub last_pos_time: Scalar,
    pub smoothed_velocity: Vec3,
    pub airborne_blend: Scalar,
    pub casting_blend: Scalar,
    pub initialized: bool,
}

impl Default for RemoteAnimState {
    fn default() -> (r: RemoteAnimState)
        ensures
            r == (RemoteAnimState {
                last_pos: Vec3::origin(),
                last_pos_time: zero(),
                smoothed_velocity: Vec3::origin(),
                airborne_blend: zero(),
                casting_blend: zero(),
                initialized: false,
            }),
    {
        RemoteAnimState {
            last_pos: Vec3::origin(),
            last_pos_time: zero(),
            smoothed_velocity: Vec3::origin(),
            airborne_blend: zero(),
            casting_blend: zero(),
            initialized: false,
        }
    }
}

pub open spec fn spec_as_scalar(so: bool) -> Scalar {
    if so {
        one()
    } else {
        zero()
    }
}

/// One for what is so, nought for what is not.
#[verifier::when_used_as_spec(spec_as_scalar)]
pub fn as_scalar(so: bool) -> (r: Scalar)
    ensures
        r == spec_as_scalar(so),
{
    if so {
        one()
    } else {
        zero()
    }
}

pub open spec fn spec_moved(
    state: RemoteAnimState,
    position: NetworkedPosition,
    now: Scalar,
) -> RemoteAnimState {
    let at = position.to_vec3();
    let silence = now.minus(state.last_pos_time);
    let kept = state.smoothed_velocity.scale(one().minus(remote_alpha()));
    if !state.initialized {
        RemoteAnimState {
            last_pos: at,
            last_pos_time: now,
            smoothed_velocity: Vec3::origin(),
            airborne_blend: as_scalar(position.airborne),
            casting_blend: as_scalar(position.casting),
            initialized: true,
        }
    } else if !at.equals(state.last_pos) {
        RemoteAnimState {
            last_pos: at,
            last_pos_time: now,
            smoothed_velocity: kept.plus(
                at.minus(state.last_pos).shrink(silence.max(shortest_span())).scale(remote_alpha()),
            ),
            ..state
        }
    } else if silence.gt(stale_after()) {
        RemoteAnimState { smoothed_velocity: kept, ..state }
    } else {
        state
    }
}

/// What is known of how a player moves, as far as the position tells: at first no
/// velocity; then that since the last change; and less and less without news.
#[verifier::when_used_as_spec(spec_moved)]
pub fn moved(
    state: RemoteAnimState,
    position: NetworkedPosition,
    now: Scalar,
) -> (r: RemoteAnimState)
    ensures
        r == spec_moved(state, position, now),
{
    let at = position.to_vec3();
    let silence = now.minus(state.last_pos_time);
    let kept = state.smoothed_velocity.scale(one().minus(remote_alpha()));
    if !state.initialized {
        RemoteAnimState {
            last_pos: at,
            last_pos_time: now,
            smoothed_velocity: Vec3::origin(),
            airborne_blend: as_scalar(position.airborne),
            casting_blend: as_scalar(position.casting),
            initialized: true,
        }
    } else if !at.equals(state.last_pos) {
        RemoteAnimState {
            last_pos: at,
            last_pos_time: now,
            smoothed_velocity: kept.plus(
                at.minus(state.last_pos).shrink(silence.max(shortest_span())).scale(remote_alpha()),
            ),
            ..state
        }
    } else if silence.gt(stale_after()) {
        RemoteAnimState { smoothed_velocity: kept, ..state }
    } else {
        state
    }
}

/// Lets a frame pass for another player.
pub fn drive_remote_animations(
    state: &mut RemoteAnimState,
    position: NetworkedPosition,
    now: Scalar,
)
    ensures
        ({
            let so_far = moved(*old(state), position, now);
            *final(state) == (RemoteAnimState {
                airborne_blend: step_airborne_blend(so_far.airborne_blend, !position.airborne),
                casting_blend: step_casting_blend(so_far.casting_blend, position.casting),
                ..so_far
            })
        }),
{
    let so_far = moved(*state, position, now);
    *state =
    RemoteAnimState {
        airborne_blend: step_airborne_blend(so_far.airborne_blend, !position.airborne),
        casting_blend: step_casting_blend(so_far.casting_blend, position.casting),
        ..so_far
    };
}

/// A player who has just appeared does not seem to move.
pub proof fn law_no_phantom_velocity(
    state: RemoteAnimState,
    position: NetworkedPosition,
    now: Scalar,
)
    requires
        !state.initialized,
    ensures
        moved(state, position, now).smoothed_velocity == Vec3::origin(),
        moved(state, position, now).last_pos == position.to_vec3(),
{
}

/// How bright a part of a body's color is at least (`0.4`).
#[verifier::allow_in_spec]
pub fn color_base() -> Scalar
    returns
        (Scalar { bits: 0x3ecc_cccd }),
{
    Scalar { bits: 0x3ecc_cccd }
}

/// How much brighter it may be (`0.5`).
#[verifier::allow_in_spec]
pub fn color_span() -> Scalar
    returns
        (Scalar { bits: 0x3f00_0000 }),
{
    Scalar { bits: 0x3f00_0000 }
}

/// How fast red goes around (`1.3`).
#[verifier::allow_in_spec]
pub fn red_spread() -> Scalar
    returns
        (Scalar { bits: 0x3fa6_6666 }),
{
    Scalar { bits: 0x3fa6_6666 }
}

/// How fast green goes around (`2.7`).
#[verifier::allow_in_spec]
pub fn green_spread() -> Scalar
    returns
        (Scalar { bits: 0x402c_cccd }),
{
    Scalar { bits: 0x402c_cccd }
}

/// How fast blue goes around (`5.1`).
#[verifier::allow_in_spec]
pub fn blue_spread() -> Scalar
    returns
        (Scalar { bits: 0x40a3_3333 }),
{
    Scalar { bits: 0x40a3_3333 }
}

pub open spec fn spec_color_part(seed: Scalar, spread: Scalar) -> Scalar {
    color_base().plus(color_span().times(seed.times(spread).fract()))
}

/// A part of a body's color.
#[verifier::when_used_as_spec(spec_color_part)]
pub fn color_part(seed: Scalar, spread: Scalar) -> (r: Scalar)
    ensures
        r == spec_color_part(seed, spread),
{
    color_base().plus(color_span().times(seed.times(spread).fract()))
}

pub open spec fn spec_prop_color(seed: Scalar) -> Vec3 {
    Vec3 {
        x: color_part(seed, red_spread()),
        y: color_part(seed, green_spread()),
        z: color_part(seed, blue_spread()),
    }
}

/// A body's color, from its seed.
#[verifier::when_used_as_spec(spec_prop_color)]
pub fn prop_color(seed: Scalar) -> (r: Vec3)
    ensures
        r == spec_prop_color(seed),
{
    Vec3 {
        x: color_part(seed, red_spread()),
        y: color_part(seed, green_spread()),
        z: color_part(seed, blue_spread()),
    }
}

/// What has just arrived from the server.
#[derive(Clone, Copy, Debug, PartialEq, Eq, Structural)]
pub enum TraceArrivalKind {
    Player,
    Prop,
    Lantern,
    Portal,
}

impl TraceArrivalKind {
    pub open spec fn spec_event(self) -> &'static str {
        match self {
            TraceArrivalKind::Player => "replicated_player",
            TraceArrivalKind::Prop => "replicated_prop",
            TraceArrivalKind::Lantern => "replicated_lantern",
            TraceArrivalKind::Portal => "replicated_portal",
        }
    }

    /// What a line calls the arrival.
    #[verifier::when_used_as_spec(spec_event)]
    pub fn event(self) -> (r: &'static str)
        ensures
            r == self.spec_event(),
    {
        match self {
            TraceArrivalKind::Player => "replicated_player",
            TraceArrivalKind::Prop => "replicated_prop",
            TraceArrivalKind::Lantern => "replicated_lantern",
            TraceArrivalKind::Portal => "replicated_portal",
        }
    }
}

pub open spec fn spec_beam_event(active: bool) -> &'static str {
    if active {
        "beam_start"
    } else {
        "beam_end"
    }
}

/// What a line calls the change of a beam.
#[verifier::when_used_as_spec(spec_beam_event)]
pub fn beam_event(active: bool) -> (r: &'static str)
    ensures
        r == spec_beam_event(active),
{
    if active {
        "beam_start"
    } else {
        "beam_end"
    }
}

} // verus!

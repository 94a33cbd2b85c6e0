//! How the player at this machine looks around and moves.

use crate::input::InputMode;
use crate::net::protocol::NetworkedPosition;
use crate::net::server::PeerId;
use crate::net::server_players::{
    air_acceleration, ground_acceleration, max_speed, no_longer, shortest_step,
};
use crate::player::rig::{ancestor_has_body_marker, RigNode};
use crate::scalar::{one, zero, Scalar};
use crate::spells::portal::{eye_height, limited_pitch, pitch_limit};
use crate::table::same_text;
use crate::vector::{Quat, Vec2, Vec3};
use vstd::prelude::*;

verus! {

/// How fast a player leaves the ground (`5.0`).
#[verifier::allow_in_spec]
pub fn jump_speed() -> Scalar
    returns
        (Scalar { bits: 0x40a0_0000 }),
{
    Scalar { bits: 0x40a0_0000 }
}

/// How fast a player comes to a stop (`50.0`).
#[verifier::allow_in_spec]
pub fn brake_acceleration() -> Scalar
    returns
        (Scalar { bits: 0x4248_0000 }),
{
    Scalar { bits: 0x4248_0000 }
}

/// Below this, squared, a player has stopped (`1e-4`).
#[verifier::allow_in_spec]
pub fn slow_enough() -> Scalar
    returns
        (Scalar { bits: 0x38d1_b717 }),
{
    Scalar { bits: 0x38d1_b717 }
}

/// How much of a new velocity counts in each frame (`0.35`).
#[verifier::allow_in_spec]
pub fn velocity_alpha() -> Scalar
    returns
        (Scalar { bits: 0x3eb3_3333 }),
{
    Scalar { bits: 0x3eb3_3333 }
}

/// The shortest frame that counts as one (`1e-3`).
#[verifier::allow_in_spec]
pub fn shortest_frame() -> Scalar
    returns
        (Scalar { bits: 0x3a83_126f }),
{
    Scalar { bits: 0x3a83_126f }
}

/// How high up the camera goes around a character (`1.3`).
#[verifier::allow_in_spec]
pub fn orbit_height() -> Scalar
    returns
        (Scalar { bits: 0x3fa6_6666 }),
{
    Scalar { bits: 0x3fa6_6666 }
}

/// How far away the camera goes around a character (`3.5`).
#[verifier::allow_in_spec]
pub fn orbit_distance() -> Scalar
    returns
        (Scalar { bits: 0x4060_0000 }),
{
    Scalar { bits: 0x4060_0000 }
}

/// How high up the camera then looks (`0.5`).
#[verifier::allow_in_spec]
pub fn orbit_target() -> Scalar
    returns
        (Scalar { bits: 0x3f00_0000 }),
{
    Scalar { bits: 0x3f00_0000 }
}

/// Where a player looks, and whether the player stands.
#[derive(Clone, Copy, Debug, PartialEq, Eq, Structural)]
pub struct Facing {
    pub yaw: Scalar,
    pub pitch: Scalar,
    pub grounded: bool,
}

impl Default for Facing {
    fn default() -> (r: Facing)
        ensures
            r == (Facing { yaw: zero(), pitch: zero(), grounded: false }),
    {
        Facing { yaw: zero(), pitch: zero(), grounded: false }
    }
}

/// Looks around, but not further up or down than a neck goes.
pub fn apply_look(facing: &mut Facing, look: Vec2)
    ensures
        final(facing).yaw == old(facing).yaw.plus(look.x),
        final(facing).pitch == limited_pitch(old(facing).pitch.plus(look.y)),
        final(facing).grounded == old(facing).grounded,
{
    facing.yaw = facing.yaw.plus(look.x);
    facing.pitch = limited_pitch(facing.pitch.plus(look.y));
}

/// A player as the server tells of one.
#[derive(Clone, Copy, Debug, PartialEq, Eq, Structural)]
pub struct ToldPlayer {
    pub client: u64,
    pub position: NetworkedPosition,
}

/// Where the server says that the first player of a client is.
pub open spec fn told_of(players: Seq<ToldPlayer>, client: u64) -> Option<Vec3>
    decreases players.len(),
{
    if players.len() == 0 {
        None
    } else if players[0].client == client {
        Some(players[0].position.to_vec3())
    } else {
        told_of(players.skip(1), client)
    }
}

/// Where the server says that the player at this machine is.
pub fn sync_local_player_from_server(me: Option<PeerId>, players: &Vec<ToldPlayer>) -> (r: Option<
    Vec3,
>)
    ensures
        r == (match me {
            Some(peer) => match peer.client_id() {
                Some(client) => told_of(players@, client),
                None => None,
            },
            None => None,
        }),
{
    let client = match me {
        Some(peer) => match peer.client_id() {
            Some(client) => client,
            None => {
                return None;
            },
        },
        None => {
            return None;
        },
    };
    let mut i: usize = 0;
    assert(players@.skip(0) =~= players@);
    while i < players.len()
        invariant
            i <= players.len(),
            me is Some,
            me->Some_0.client_id() == Some(client),
            told_of(players@, client) == told_of(players@.skip(i as int), client),
        decreases players.len() - i,
    {
        assert(players@.skip(i as int).skip(1) =~= players@.skip(i + 1));
        if players[i].client == client {
            return Some(players[i].position.to_vec3());
        }
        i += 1;
    }
    None
}

/// Where a player's camera is, and how.
#[derive(Clone, Copy, Debug, PartialEq, Eq, Structural)]
pub enum CameraView {
    /// In the head, turned by the pitch alone.
    FirstPerson { at: Vec3 },
    /// Around the character, looking at it. The player's own body is seen.
    Orbit { at: Vec3, target: Vec3 },
}

pub open spec fn spec_camera_view(mode: InputMode, orbit: Quat) -> CameraView {
    if mode == InputMode::Customizing {
        CameraView::Orbit {
            at: orbit.rotate(Vec3 { x: zero(), y: orbit_height(), z: orbit_distance() }),
            target: Vec3 { x: zero(), y: orbit_target(), z: zero() },
        }
    } else {
        CameraView::FirstPerson { at: Vec3 { x: zero(), y: eye_height(), z: zero() } }
    }
}

/// Where a player's camera is: in the head, or around the character while its
/// looks are changed. `orbit` turns by the angle that it has gone around.
#[verifier::when_used_as_spec(spec_camera_view)]
pub fn camera_view(mode: InputMode, orbit: Quat) -> (r: CameraView)
    ensures
        r == spec_camera_view(mode, orbit),
{
    if mode == InputMode::Customizing {
        CameraView::Orbit {
            at: orbit.rotate(Vec3 { x: zero(), y: orbit_height(), z: orbit_distance() }),
            target: Vec3 { x: zero(), y: orbit_target(), z: zero() },
        }
    } else {
        CameraView::FirstPerson { at: Vec3 { x: zero(), y: eye_height(), z: zero() } }
    }
}

pub open spec fn spec_no_longer_than_one(input: Vec2) -> Vec2 {
    let squared = input.x.times(input.x).plus(input.y.times(input.y));
    if squared.gt(one().times(one())) {
        Vec2 {
            x: one().times(input.x.over(squared.sqrt())),
            y: one().times(input.y.over(squared.sqrt())),
        }
    } else {
        input
    }
}

/// The input, or what of it is as long as one.
#[verifier::when_used_as_spec(spec_no_longer_than_one)]
pub fn no_longer_than_one(input: Vec2) -> (r: Vec2)
    ensures
        r == spec_no_longer_than_one(input),
{
    let squared = input.x.times(input.x).plus(input.y.times(input.y));
    if squared.gt(one().times(one())) {
        Vec2 {
            x: one().times(input.x.over(squared.sqrt())),
            y: one().times(input.y.over(squared.sqrt())),
        }
    } else {
        input
    }
}

pub open spec fn spec_apply_movement(
    input: Vec2,
    facing: Quat,
    velocity: Vec3,
    grounded: bool,
    dt: Scalar,
) -> Vec3 {
    let way = no_longer_than_one(input);
    let wanted = facing.rotate(Vec3 { x: way.x, y: zero(), z: way.y.neg() }).scale(max_speed());
    let step = dt.max(shortest_step());
    let most = if grounded {
        ground_acceleration()
    } else {
        air_acceleration()
    };
    no_longer(
        wanted.minus(Vec3 { x: velocity.x, y: zero(), z: velocity.z }),
        most.times(step),
    ).shrink(step)
}

/// The acceleration that brings a player who moves at `velocity` up to the speed
/// that the input asks for, in a frame of `dt` seconds.
#[verifier::when_used_as_spec(spec_apply_movement)]
pub fn apply_movement(
    input: Vec2,
    facing: Quat,
    velocity: Vec3,
    grounded: bool,
    dt: Scalar,
) -> (r: Vec3)
    ensures
        r == spec_apply_movement(input, facing, velocity, grounded, dt),
{
    let way = no_longer_than_one(input);
    let wanted = facing.rotate(Vec3 { x: way.x, y: zero(), z: way.y.neg() }).scale(max_speed());
    let step = dt.max(shortest_step());
    let most = if grounded {
        ground_acceleration()
    } else {
        air_acceleration()
    };
    no_longer(
        wanted.minus(Vec3 { x: velocity.x, y: zero(), z: velocity.z }),
        most.times(step),
    ).shrink(step)
}

pub open spec fn spec_apply_jump(grounded: bool, velocity: Vec3) -> Vec3 {
    if grounded {
        Vec3 { x: velocity.x, y: jump_speed(), z: velocity.z }
    } else {
        velocity
    }
}

/// How a player moves who jumps: up, from the ground only.
#[verifier::when_used_as_spec(spec_apply_jump)]
pub fn apply_jump(grounded: bool, velocity: Vec3) -> (r: Vec3)
    ensures
        r == spec_apply_jump(grounded, velocity),
{
    if grounded {
        Vec3 { x: velocity.x, y: jump_speed(), z: velocity.z }
    } else {
        velocity
    }
}

pub open spec fn spec_movement_held(
    mode: InputMode,
    forward: bool,
    left: bool,
    back: bool,
    right: bool,
) -> bool {
    mode == InputMode::Player && (forward || left || back || right)
}

/// Whether the player asks to move.
#[verifier::when_used_as_spec(spec_movement_held)]
pub fn movement_held(
    mode: InputMode,
    forward: bool,
    left: bool,
    back: bool,
    right: bool,
) -> (r: bool)
    ensures
        r == spec_movement_held(mode, forward, left, back, right),
{
    mode == InputMode::Player && (forward || left || back || right)
}

pub open spec fn spec_apply_ground_brake(
    grounded: bool,
    held: bool,
    velocity: Vec3,
    dt: Scalar,
) -> Option<Vec3> {
    let over_ground = Vec3 { x: velocity.x, y: zero(), z: velocity.z };
    if !grounded || held || over_ground.length_squared().lt(slow_enough()) {
        None
    } else {
        let step = dt.max(shortest_step());
        Some(no_longer(over_ground, brake_acceleration().times(step)).neg().shrink(step))
    }
}

/// The acceleration that stops a player on the ground who does not ask to move.
#[verifier::when_used_as_spec(spec_apply_ground_brake)]
pub fn apply_ground_brake(
    grounded: bool,
    held: bool,
    velocity: Vec3,
    dt: Scalar,
) -> (r: Option<Vec3>)
    ensures
        r == spec_apply_ground_brake(grounded, held, velocity, dt),
{
    let over_ground = Vec3 { x: velocity.x, y: zero(), z: velocity.z };
    if !grounded || held || over_ground.length_squared().lt(slow_enough()) {
        None
    } else {
        let step = dt.max(shortest_step());
        Some(no_longer(over_ground, brake_acceleration().times(step)).neg().shrink(step))
    }
}

/// The name of the joint that leans with the player's aim.
pub fn aim_pitch_bone() -> (r: &'static str)
    ensures
        r@ == "chest_joint"@,
{
    "chest_joint"
}

/// The rotation of a joint that leans with the aim of the player at this machine;
/// none for other joints. `lean` turns by as much as the player looks up or down.
pub fn apply_aim_pitch_to_local_spine(
    joint: &str,
    line: &Vec<RigNode>,
    rotation: Quat,
    lean: Quat,
) -> (r: Option<Quat>)
    ensures
        r == (if joint@ == "chest_joint"@ && exists|i: int|
            0 <= i < line@.len() && (#[trigger] line@[i]).local_body {
            Some(rotation.compose(lean))
        } else {
            None
        }),
{
    if same_text(joint, "chest_joint") && ancestor_has_body_marker(line) {
        Some(rotation.compose(lean))
    } else {
        None
    }
}

/// Whether a player stands: on whatever a ray down met.
pub fn ground_check(facing: &mut Facing, hits: usize)
    ensures
        *final(facing) == (Facing { grounded: hits > 0, ..*old(facing) }),
{
    facing.grounded = hits > 0;
}

pub open spec fn spec_smoothed_velocity(velocity: Vec3, prev: Vec3, at: Vec3, dt: Scalar) -> Vec3 {
    velocity.scale(one().minus(velocity_alpha())).plus(
        at.minus(prev).shrink(dt.max(shortest_frame())).scale(velocity_alpha()),
    )
}

/// A velocity a little nearer to that of a frame in which something went from
/// `prev` to `at` in `dt` seconds.
#[verifier::when_used_as_spec(spec_smoothed_velocity)]
pub fn smoothed_velocity(velocity: Vec3, prev: Vec3, at: Vec3, dt: Scalar) -> (r: Vec3)
    ensures
        r == spec_smoothed_velocity(velocity, prev, at, dt),
{
    velocity.scale(one().minus(velocity_alpha())).plus(
        at.minus(prev).shrink(dt.max(shortest_frame())).scale(velocity_alpha()),
    )
}

/// Tells from where a player is how fast the player moves.
pub fn track_local_velocity(velocity: &mut Vec3, prev: &mut Option<Vec3>, at: Vec3, dt: Scalar)
    ensures
        *final(prev) == Some(at),
        *final(velocity) == (match *old(prev) {
            Some(before) => smoothed_velocity(*old(velocity), before, at, dt),
            None => *old(velocity),
        }),
{
    match *prev {
        Some(before) => {
            *velocity = smoothed_velocity(*velocity, before, at, dt);
        },
        None => {},
    }
    *prev = Some(at);
}

pub open spec fn spec_cursor_grab(
    mode: InputMode,
    free: bool,
    clicked: bool,
    escaped: bool,
) -> bool {
    if mode != InputMode::Player {
        free
    } else if free {
        !clicked
    } else {
        escaped
    }
}

/// Whether the cursor is free after a frame: a click takes it while the player
/// plays, and escape gives it back.
#[verifier::when_used_as_spec(spec_cursor_grab)]
pub fn cursor_grab(mode: InputMode, free: bool, clicked: bool, escaped: bool) -> (r: bool)
    ensures
        r == spec_cursor_grab(mode, free, clicked, escaped),
{
    if mode != InputMode::Player {
        free
    } else if free {
        !clicked
    } else {
        escaped
    }
}

/// However much a player looks around, the pitch stays within what a neck allows.
pub proof fn law_pitch_is_limited(pitch: Scalar)
    requires
        !pitch.is_nan(),
    ensures
        limited_pitch(pitch).le(pitch_limit()),
        pitch_limit().neg().le(limited_pitch(pitch)),
{
    let limit = pitch_limit();
    assert(limit.neg().le(limit));
}

} // verus!

//! What a client sends.

use crate::net::protocol::PlayerInputMessage;
use crate::player::controller::Facing;
use crate::player::visuals::{is_casting, is_casting_phase};
use crate::spells::engine::CastState;
use crate::vector::Vec2;
use vstd::prelude::*;

verus! {

/// What the player at this machine does in a frame, for the server.
pub fn send_local_player_input(
    facing: Facing,
    casts: &CastState,
    movement: Vec2,
    jump: bool,
) -> (r: PlayerInputMessage)
    requires
        casts.wf(),
    ensures
        r.movement == movement,
        r.yaw == facing.yaw,
        r.pitch == facing.pitch,
        r.jump == jump,
        r.casting == exists|id: Seq<char>|
            casts@.contains_key(id) && is_casting_phase((#[trigger] casts@[id]).phase),
{
    PlayerInputMessage {
        movement,
        yaw: facing.yaw,
        pitch: facing.pitch,
        jump,
        casting: is_casting(casts),
    }
}

} // verus!

//! Portals as the server has them: what they carry, and what falls through
//! floors and walls on the way.
//!
//! A portal may move, because someone carries it. Whether something went through
//! is told from where both were a step ago and where both are now.

use crate::entity::{holds, insert_entity, with_entity, Entity};
use crate::physics::{mask_of, CollisionLayers, GameLayer, ALL_LAYERS};
use crate::scalar::{zero, Scalar};
use crate::spells::portal::{
    along, carried_position, carried_rotation, carried_velocity, face_or_zero, find_pair,
    horizontal_disc_depth, horizontal_normal_dot_y, kept_lockout, last_in, lemma_lockout_holds,
    over_disc, pair_of, passes, player_layers, portal_radius, portal_virtual_transform, radial,
    retain_lockout, still_locked, view_pose, HalfTurns, Portal, PortalSlot, Traveler, TravelerView,
    VirtualView,
};
use crate::vector::{Pose, Quat, Vec3};
use vstd::prelude::*;

verus! {

/// A portal of the server, and how a disc with its normal is turned.
#[derive(Clone, Copy, Debug, PartialEq, Eq, Structural)]
pub struct ServerPortal {
    pub portal: Portal,
    pub disc: Quat,
}

pub open spec fn spec_turned(portal: ServerPortal) -> Portal {
    let pose = portal.portal.pose;
    if pose.rotation.equals(Quat::identity()) {
        Portal { pose: Pose { translation: pose.translation, rotation: portal.disc }, ..portal.portal }
    } else {
        portal.portal
    }
}

/// The portal, turned by its normal if it has not been turned yet.
#[verifier::when_used_as_spec(spec_turned)]
pub fn turned(portal: ServerPortal) -> (r: Portal)
    ensures
        r == spec_turned(portal),
{
    let pose = portal.portal.pose;
    if pose.rotation.equals(Quat::identity()) {
        Portal { pose: Pose { translation: pose.translation, rotation: portal.disc }, ..portal.portal }
    } else {
        portal.portal
    }
}

/// The portals, each turned.
pub open spec fn all_turned(portals: Seq<ServerPortal>) -> Seq<Portal> {
    portals.map_values(|p: ServerPortal| turned(p))
}

fn turn_all(portals: &Vec<ServerPortal>) -> (r: Vec<Portal>)
    ensures
        r@ == all_turned(portals@),
{
    let mut all: Vec<Portal> = Vec::new();
    let mut i: usize = 0;
    while i < portals.len()
        invariant
            i <= portals.len(),
            all@.len() == i,
            forall|j: int| 0 <= j < i ==> #[trigger] all@[j] == turned(portals@[j]),
        decreases portals.len() - i,
    {
        all.push(turned(portals[i]));
        i += 1;
    }
    assert(all@ =~= all_turned(portals@));
    all
}

pub open spec fn spec_basis(prev_pos: Vec3, pos: Vec3, entry: Portal) -> (Vec3, Pose) {
    if along(prev_pos, entry.prev).gt(zero()) {
        (prev_pos, entry.prev)
    } else {
        (pos, entry.pose)
    }
}

/// The point that a body is carried from, and the disc that it was before there:
/// both of a step ago if the body was in front then, else both of now.
#[verifier::when_used_as_spec(spec_basis)]
pub fn basis(prev_pos: Vec3, pos: Vec3, entry: Portal) -> (r: (Vec3, Pose))
    ensures
        r == spec_basis(prev_pos, pos, entry),
{
    if along(prev_pos, entry.prev).gt(zero()) {
        (prev_pos, entry.prev)
    } else {
        (pos, entry.pose)
    }
}

/// The entry and the exit of what went from `prev_pos` to `pos` past the pair:
/// the primary portal first.
pub open spec fn entered(
    pair: (Portal, Portal),
    lockout: Seq<Entity>,
    prev_pos: Vec3,
    pos: Vec3,
) -> Option<(Portal, Portal)> {
    if !lockout.contains(pair.0.entity) && passes(prev_pos, pos, pair.0.prev, pair.0.pose) {
        Some((pair.0, pair.1))
    } else if !lockout.contains(pair.1.entity) && passes(prev_pos, pos, pair.1.prev, pair.1.pose) {
        Some((pair.1, pair.0))
    } else {
        None
    }
}

pub open spec fn spec_player_view(
    prev_pos: Vec3,
    pos: Vec3,
    rotation: Quat,
    entry: Portal,
    exit: Portal,
    turns: HalfTurns,
) -> VirtualView {
    let (from, before) = basis(prev_pos, pos, entry);
    portal_virtual_transform(Pose { translation: from, rotation }, before, exit.pose, turns)
}

/// What a player turned by `rotation` sees after coming out of `exit`.
#[verifier::when_used_as_spec(spec_player_view)]
pub fn player_view(
    prev_pos: Vec3,
    pos: Vec3,
    rotation: Quat,
    entry: Portal,
    exit: Portal,
    turns: HalfTurns,
) -> (r: VirtualView)
    ensures
        r == spec_player_view(prev_pos, pos, rotation, entry, exit, turns),
{
    let (from, before) = basis(prev_pos, pos, entry);
    portal_virtual_transform(Pose { translation: from, rotation }, before, exit.pose, turns)
}

pub open spec fn spec_carried_pose(
    prev_pos: Vec3,
    pos: Vec3,
    rotation: Quat,
    entry: Portal,
    exit: Portal,
    turns: HalfTurns,
) -> Pose {
    let (from, before) = basis(prev_pos, pos, entry);
    Pose {
        translation: carried_position(from, before, exit.pose),
        rotation: carried_rotation(rotation, before.rotation, exit.pose.rotation, turns),
    }
}

/// Where a body comes out of `exit`, and how it is turned.
#[verifier::when_used_as_spec(spec_carried_pose)]
pub fn carried_pose(
    prev_pos: Vec3,
    pos: Vec3,
    rotation: Quat,
    entry: Portal,
    exit: Portal,
    turns: HalfTurns,
) -> (r: Pose)
    ensures
        r == spec_carried_pose(prev_pos, pos, rotation, entry, exit, turns),
{
    let (from, before) = basis(prev_pos, pos, entry);
    Pose {
        translation: carried_position(from, before, exit.pose),
        rotation: carried_rotation(rotation, before.rotation, exit.pose.rotation, turns),
    }
}

pub open spec fn spec_velocity_out(
    prev_pos: Vec3,
    pos: Vec3,
    velocity: Vec3,
    entry: Portal,
    exit: Portal,
    turns: HalfTurns,
) -> Vec3 {
    let (_, before) = basis(prev_pos, pos, entry);
    carried_velocity(velocity, before.rotation, exit.pose.rotation, turns)
}

/// How what moved at `velocity` moves out of `exit`.
#[verifier::when_used_as_spec(spec_velocity_out)]
pub fn velocity_out(
    prev_pos: Vec3,
    pos: Vec3,
    velocity: Vec3,
    entry: Portal,
    exit: Portal,
    turns: HalfTurns,
) -> (r: Vec3)
    ensures
        r == spec_velocity_out(prev_pos, pos, velocity, entry, exit, turns),
{
    let (_, before) = basis(prev_pos, pos, entry);
    carried_velocity(velocity, before.rotation, exit.pose.rotation, turns)
}

/// Where something was a step ago; where it is, if it was nowhere.
pub open spec fn was_at(body: TravelerView) -> Vec3 {
    match body.prev {
        Some(p) => p,
        None => body.pose.translation,
    }
}

/// What was carried from `entry` to `exit`, and what it sees if it is a player. A player
/// is turned to look along the view.
pub open spec fn carried(
    body: TravelerView,
    lockout: Seq<Entity>,
    entry: Portal,
    exit: Portal,
    player: bool,
    turns: HalfTurns,
) -> (TravelerView, Option<VirtualView>) {
    let pos = body.pose.translation;
    let prev_pos = was_at(body);
    let rotation = body.pose.rotation;
    let pose = if player {
        view_pose(player_view(prev_pos, pos, rotation, entry, exit, turns))
    } else {
        carried_pose(prev_pos, pos, rotation, entry, exit, turns)
    };
    (
        TravelerView {
            entity: body.entity,
            pose,
            velocity: velocity_out(prev_pos, pos, body.velocity, entry, exit, turns),
            prev: Some(pose.translation),
            lockout: with_entity(with_entity(lockout, entry.entity), exit.entity),
        },
        if player {
            Some(player_view(prev_pos, pos, rotation, entry, exit, turns))
        } else {
            None
        },
    )
}

/// Something after one step past the portals of the server, and what it sees if
/// it is a player who came through.
pub open spec fn server_step(
    portals: Seq<Portal>,
    body: TravelerView,
    player: bool,
    turns: HalfTurns,
) -> (TravelerView, Option<VirtualView>) {
    let pos = body.pose.translation;
    let lockout = kept_lockout(portals, pos, body.lockout);
    let stays = TravelerView { prev: Some(pos), lockout, ..body };
    match pair_of(portals) {
        None => (stays, None),
        Some(pair) => match entered(pair, lockout, was_at(body), pos) {
            None => (stays, None),
            Some((entry, exit)) => carried(body, lockout, entry, exit, player, turns),
        },
    }
}

/// Carries what stepped into a portal to the other one, and remembers where it
/// was for the next step. What a player who came through sees is the result.
pub fn server_portal_teleport(
    portals: &Vec<ServerPortal>,
    body: &mut Traveler,
    player: bool,
    turns: HalfTurns,
) -> (r: Option<VirtualView>)
    ensures
        (final(body)@, r) == server_step(all_turned(portals@), old(body)@, player, turns),
{
    let pos = body.pose.translation;
    let prev_pos = match body.prev {
        Some(p) => p,
        None => pos,
    };
    let all = turn_all(portals);
    retain_lockout(&all, pos, &mut body.lockout);
    body.prev = Some(pos);
    let pair = match find_pair(&all) {
        Some(pair) => pair,
        None => {
            return None;
        },
    };
    let (entry, exit) = if !holds(&body.lockout, pair.0.entity) && passes(
        prev_pos,
        pos,
        pair.0.prev,
        pair.0.pose,
    ) {
        (pair.0, pair.1)
    } else if !holds(&body.lockout, pair.1.entity) && passes(
        prev_pos,
        pos,
        pair.1.prev,
        pair.1.pose,
    ) {
        (pair.1, pair.0)
    } else {
        return None;
    };
    let rotation = body.pose.rotation;
    let view = if player {
        Some(player_view(prev_pos, pos, rotation, entry, exit, turns))
    } else {
        None
    };
    let pose = match view {
        Some(view) => view_pose(view),
        None => carried_pose(prev_pos, pos, rotation, entry, exit, turns),
    };
    body.velocity = velocity_out(prev_pos, pos, body.velocity, entry, exit, turns);
    body.pose = pose;
    body.prev = Some(pose.translation);
    insert_entity(&mut body.lockout, entry.entity);
    insert_entity(&mut body.lockout, exit.entity);
    view
}

pub open spec fn spec_aged(portal: ServerPortal) -> ServerPortal {
    ServerPortal { portal: Portal { prev: portal.portal.pose, ..portal.portal }, disc: portal.disc }
}

/// The portal, its step over.
#[verifier::when_used_as_spec(spec_aged)]
pub fn aged(portal: ServerPortal) -> (r: ServerPortal)
    ensures
        r == spec_aged(portal),
{
    ServerPortal { portal: Portal { prev: portal.portal.pose, ..portal.portal }, disc: portal.disc }
}

/// Ends a step: where the portals are now is where they were.
pub fn update_prev_portal_pose(portals: &mut Vec<ServerPortal>)
    ensures
        final(portals)@ == old(portals)@.map_values(|p: ServerPortal| aged(p)),
{
    let mut i: usize = 0;
    while i < portals.len()
        invariant
            i <= portals.len(),
            portals@.len() == old(portals)@.len(),
            forall|j: int| 0 <= j < i ==> #[trigger] portals@[j] == aged(old(portals)@[j]),
            forall|j: int| i <= j < portals@.len() ==> #[trigger] portals@[j] == old(portals)@[j],
        decreases portals.len() - i,
    {
        let portal = aged(portals[i]);
        portals.set(i, portal);
        i += 1;
    }
    assert(portals@ =~= old(portals)@.map_values(|p: ServerPortal| aged(p)));
}

/// Whether a level disc takes what is at `pos` down through the floor.
pub open spec fn sinks_into(portal: Portal, pos: Vec3, lockout: Seq<Entity>) -> bool {
    let normal = face_or_zero(portal.pose.rotation);
    &&& !lockout.contains(portal.entity)
    &&& !normal.y.abs().lt(horizontal_normal_dot_y())
    &&& over_disc(pos, portal.pose.translation, normal)
}

/// Whether a player at `pos` falls: there is a pair, and some disc takes the
/// player.
pub open spec fn player_sinks(portals: Seq<Portal>, pos: Vec3, lockout: Seq<Entity>) -> bool {
    &&& has_both(portals)
    &&& exists|i: int| 0 <= i < portals.len() && sinks_into(#[trigger] portals[i], pos, lockout)
}

/// Whether there is a portal of either slot.
pub open spec fn has_both(portals: Seq<Portal>) -> bool {
    &&& exists|i: int|
        0 <= i < portals.len() && (#[trigger] portals[i]).slot == PortalSlot::Primary
    &&& exists|i: int|
        0 <= i < portals.len() && (#[trigger] portals[i]).slot == PortalSlot::Secondary
}

fn find_both(portals: &Vec<Portal>) -> (r: bool)
    ensures
        r == has_both(portals@),
{
    let mut primary = false;
    let mut secondary = false;
    let mut i: usize = 0;
    while i < portals.len()
        invariant
            i <= portals.len(),
            primary <==> exists|j: int|
                0 <= j < i && (#[trigger] portals@[j]).slot == PortalSlot::Primary,
            secondary <==> exists|j: int|
                0 <= j < i && (#[trigger] portals@[j]).slot == PortalSlot::Secondary,
        decreases portals.len() - i,
    {
        let ghost at = portals@[i as int];
        match portals[i].slot {
            PortalSlot::Primary => primary = true,
            PortalSlot::Secondary => secondary = true,
        }
        i += 1;
    }
    primary && secondary
}

/// The layers that a player at `pos` must now have, if they are not `layers`
/// already.
pub fn update_networked_player_falling(
    portals: &Vec<Portal>,
    pos: Vec3,
    layers: CollisionLayers,
    lockout: &Vec<Entity>,
) -> (r: Option<CollisionLayers>)
    ensures
        r == (if layers == player_layers(player_sinks(portals@, pos, lockout@)) {
            None
        } else {
            Some(player_layers(player_sinks(portals@, pos, lockout@)))
        }),
{
    let mut sinks = false;
    if find_both(portals) {
        let mut i: usize = 0;
        while i < portals.len() && !sinks
            invariant
                i <= portals.len(),
                sinks <==> exists|j: int|
                    0 <= j < i && sinks_into(#[trigger] portals@[j], pos, lockout@),
            decreases portals.len() - i,
        {
            let portal = portals[i];
            let normal = face_or_zero(portal.pose.rotation);
            sinks = !holds(lockout, portal.entity) && !normal.y.abs().lt(
                horizontal_normal_dot_y(),
            ) && over_disc(pos, portal.pose.translation, normal);
            assert(sinks == sinks_into(portals@[i as int], pos, lockout@));
            i += 1;
        }
    }
    let target = player_layers(sinks);
    if layers == target {
        None
    } else {
        Some(target)
    }
}

pub open spec fn spec_through_floor(pos: Vec3, at: Vec3, normal: Vec3) -> bool {
    !radial(pos.minus(at), normal).ge(portal_radius()) && normal.y.abs().ge(
        horizontal_normal_dot_y(),
    ) && pos.minus(at).dot(normal).abs().lt(horizontal_disc_depth())
}

/// Whether a level disc of this face takes what is at `pos` through the floor.
#[verifier::when_used_as_spec(spec_through_floor)]
pub fn through_floor(pos: Vec3, at: Vec3, normal: Vec3) -> (r: bool)
    ensures
        r == spec_through_floor(pos, at, normal),
{
    !radial(pos.minus(at), normal).ge(portal_radius()) && normal.y.abs().ge(
        horizontal_normal_dot_y(),
    ) && pos.minus(at).dot(normal).abs().lt(horizontal_disc_depth())
}

pub open spec fn spec_through_wall(pos: Vec3, at: Vec3, normal: Vec3, depth: Scalar) -> bool {
    !radial(pos.minus(at), normal).ge(portal_radius()) && !normal.y.abs().ge(
        horizontal_normal_dot_y(),
    ) && pos.minus(at).dot(normal).abs().lt(depth)
}

/// Whether an upright disc of this face takes what is at `pos` through the wall
/// that it is on: within `depth` of it.
#[verifier::when_used_as_spec(spec_through_wall)]
pub fn through_wall(pos: Vec3, at: Vec3, normal: Vec3, depth: Scalar) -> (r: bool)
    ensures
        r == spec_through_wall(pos, at, normal, depth),
{
    !radial(pos.minus(at), normal).ge(portal_radius()) && !normal.y.abs().ge(
        horizontal_normal_dot_y(),
    ) && pos.minus(at).dot(normal).abs().lt(depth)
}

/// Whether some portal takes a body at `pos` through the floor.
pub open spec fn near_level(portals: Seq<Portal>, pos: Vec3, lockout: Seq<Entity>) -> bool {
    &&& has_both(portals)
    &&& exists|i: int|
        0 <= i < portals.len() && !lockout.contains((#[trigger] portals[i]).entity)
            && through_floor(
            pos,
            portals[i].pose.translation,
            face_or_zero(portals[i].pose.rotation),
        )
}

/// Whether some portal takes a body at `pos` through a wall.
pub open spec fn near_upright(
    portals: Seq<Portal>,
    pos: Vec3,
    lockout: Seq<Entity>,
    depth: Scalar,
) -> bool {
    &&& has_both(portals)
    &&& exists|i: int|
        0 <= i < portals.len() && !lockout.contains((#[trigger] portals[i]).entity)
            && through_wall(
            pos,
            portals[i].pose.translation,
            face_or_zero(portals[i].pose.rotation),
            depth,
        )
}

pub open spec fn spec_prop_layers(floor: bool, wall: bool) -> CollisionLayers {
    if !floor && !wall {
        CollisionLayers::new(GameLayer::Default, ALL_LAYERS)
    } else {
        CollisionLayers::new(GameLayer::Default, mask_of(!wall, true, !floor))
    }
}

/// What a body collides with: not the ground if it goes through the floor, and
/// not walls if it goes through one.
#[verifier::when_used_as_spec(spec_prop_layers)]
pub fn prop_layers(floor: bool, wall: bool) -> (r: CollisionLayers)
    ensures
        r == spec_prop_layers(floor, wall),
{
    if !floor && !wall {
        CollisionLayers::new(GameLayer::Default, ALL_LAYERS)
    } else {
        CollisionLayers::new(GameLayer::Default, mask_of(!wall, true, !floor))
    }
}

/// The layers that a body at `pos` must now have, if they are not `layers`
/// already. Within `depth` of an upright disc there is no wall.
pub fn update_networked_prop_falling(
    portals: &Vec<Portal>,
    pos: Vec3,
    layers: CollisionLayers,
    lockout: &Vec<Entity>,
    depth: Scalar,
) -> (r: Option<CollisionLayers>)
    ensures
        r == ({
            let target = prop_layers(
                near_level(portals@, pos, lockout@),
                near_upright(portals@, pos, lockout@, depth),
            );
            if layers == target {
                None
            } else {
                Some(target)
            }
        }),
{
    let mut floor = false;
    let mut wall = false;
    if find_both(portals) {
        let mut i: usize = 0;
        while i < portals.len()
            invariant
                i <= portals.len(),
                floor <==> exists|j: int|
                    0 <= j < i && !lockout@.contains((#[trigger] portals@[j]).entity)
                        && through_floor(
                        pos,
                        portals@[j].pose.translation,
                        face_or_zero(portals@[j].pose.rotation),
                    ),
                wall <==> exists|j: int|
                    0 <= j < i && !lockout@.contains((#[trigger] portals@[j]).entity)
                        && through_wall(
                        pos,
                        portals@[j].pose.translation,
                        face_or_zero(portals@[j].pose.rotation),
                        depth,
                    ),
            decreases portals.len() - i,
        {
            let portal = portals[i];
            assert(portals@[i as int] == portal);
            if !holds(lockout, portal.entity) {
                let normal = face_or_zero(portal.pose.rotation);
                if through_floor(pos, portal.pose.translation, normal) {
                    floor = true;
                }
                if through_wall(pos, portal.pose.translation, normal, depth) {
                    wall = true;
                }
            }
            i += 1;
        }
    }
    let target = prop_layers(floor, wall);
    if layers == target {
        None
    } else {
        Some(target)
    }
}

/// Without both portals nothing is carried, and the floor and the walls hold.
pub proof fn law_one_portal_leads_nowhere(
    portals: Seq<Portal>,
    body: TravelerView,
    player: bool,
    turns: HalfTurns,
    depth: Scalar,
)
    requires
        !has_both(portals),
    ensures
        server_step(portals, body, player, turns).0.pose == body.pose,
        server_step(portals, body, player, turns).0.velocity == body.velocity,
        server_step(portals, body, player, turns).1 is None,
        !player_sinks(portals, body.pose.translation, body.lockout),
        !near_level(portals, body.pose.translation, body.lockout),
        !near_upright(portals, body.pose.translation, body.lockout, depth),
{
    lemma_last_in(portals, PortalSlot::Primary);
    lemma_last_in(portals, PortalSlot::Secondary);
}

/// There is a last portal of a slot just if there is one.
proof fn lemma_last_in(portals: Seq<Portal>, slot: PortalSlot)
    ensures
        last_in(portals, slot) is Some <==> exists|i: int|
            0 <= i < portals.len() && (#[trigger] portals[i]).slot == slot,
    decreases portals.len(),
{
    if portals.len() > 0 {
        let rest = portals.drop_last();
        lemma_last_in(rest, slot);
        if portals.last().slot == slot {
            assert(portals[portals.len() - 1].slot == slot);
        } else {
            if exists|i: int| 0 <= i < rest.len() && (#[trigger] rest[i]).slot == slot {
                let i = choose|i: int| 0 <= i < rest.len() && (#[trigger] rest[i]).slot == slot;
                assert(portals[i].slot == slot);
            }
            if exists|i: int| 0 <= i < portals.len() && (#[trigger] portals[i]).slot == slot {
                let i = choose|i: int|
                    0 <= i < portals.len() && (#[trigger] portals[i]).slot == slot;
                assert(rest[i].slot == slot);
            }
        }
    }
}

/// What has come through a portal does not go into it again for as long as it stays
/// near it.
pub proof fn law_used_portal_waits(
    portals: Seq<Portal>,
    pair: (Portal, Portal),
    body: TravelerView,
    next: TravelerView,
    player: bool,
    turns: HalfTurns,
    used: Portal,
)
    requires
        pair_of(portals) == Some(pair),
        entered(
            pair,
            kept_lockout(portals, body.pose.translation, body.lockout),
            was_at(body),
            body.pose.translation,
        ) is Some,
        next.lockout == server_step(portals, body, player, turns).0.lockout,
        used == pair.0 || used == pair.1,
        still_locked(portals, next.pose.translation, used.entity),
    ensures
        entered(
            pair,
            kept_lockout(portals, next.pose.translation, next.lockout),
            was_at(next),
            next.pose.translation,
        ) matches Some((entry, _)) ==> entry.entity != used.entity,
{
    let kept = kept_lockout(portals, body.pose.translation, body.lockout);
    let (entry, exit) = entered(pair, kept, was_at(body), body.pose.translation)->Some_0;
    lemma_lockout_holds(portals, next.pose.translation, kept, entry.entity, exit.entity);
}

/// What has come through the pair does not go through it again for as long as it
/// stays near both of its portals.
pub proof fn law_no_bounce(
    portals: Seq<Portal>,
    pair: (Portal, Portal),
    body: TravelerView,
    next: TravelerView,
    player: bool,
    turns: HalfTurns,
)
    requires
        pair_of(portals) == Some(pair),
        entered(
            pair,
            kept_lockout(portals, body.pose.translation, body.lockout),
            was_at(body),
            body.pose.translation,
        ) is Some,
        next.lockout == server_step(portals, body, player, turns).0.lockout,
        still_locked(portals, next.pose.translation, pair.0.entity),
        still_locked(portals, next.pose.translation, pair.1.entity),
    ensures
        server_step(portals, next, player, turns).0.pose == next.pose,
        server_step(portals, next, player, turns).0.velocity == next.velocity,
        server_step(portals, next, player, turns).1 is None,
{
    law_used_portal_waits(portals, pair, body, next, player, turns, pair.0);
    law_used_portal_waits(portals, pair, body, next, player, turns, pair.1);
}

/// What does not move is not carried by portals that do not move.
pub proof fn law_rest_is_not_carried(
    portals: Seq<Portal>,
    body: TravelerView,
    player: bool,
    turns: HalfTurns,
)
    requires
        body.prev is None || body.prev == Some(body.pose.translation),
        forall|i: int| 0 <= i < portals.len() ==> (#[trigger] portals[i]).prev == portals[i].pose,
    ensures
        server_step(portals, body, player, turns).0.pose == body.pose,
        server_step(portals, body, player, turns).0.velocity == body.velocity,
        server_step(portals, body, player, turns).1 is None,
{
    lemma_last_is_one(portals, PortalSlot::Primary);
    lemma_last_is_one(portals, PortalSlot::Secondary);
}

proof fn lemma_last_is_one(portals: Seq<Portal>, slot: PortalSlot)
    ensures
        last_in(portals, slot) matches Some(p) ==> portals.contains(p),
    decreases portals.len(),
{
    if portals.len() > 0 {
        let rest = portals.drop_last();
        lemma_last_is_one(rest, slot);
        if portals.last().slot == slot {
            assert(portals[portals.len() - 1] == portals.last());
        } else {
            match last_in(rest, slot) {
                Some(p) => {
                    let i = choose|i: int| 0 <= i < rest.len() && rest[i] == p;
                    assert(portals[i] == p);
                },
                None => {},
            }
        }
    }
}

} // verus!

//! The portals of the game for one.
//!
//! They are placed as everywhere else, but a player is simply put before the
//! exit and pushed out of it.

use crate::entity::Entity;
use crate::player::spells::SpellId;
use crate::scalar::{zero, Scalar};
use crate::spells::portal::{
    face, find_pair, horizontal_disc_depth, is_level, pair_of, place_portal, portal_radius, radial,
    Portal, PortalSlot, SurfaceHit,
};
use crate::vector::{Pose, Vec3};
use vstd::prelude::*;

verus! {

/// How far before the exit a player is put (`0.9`).
#[verifier::allow_in_spec]
pub fn exit_offset() -> Scalar
    returns
        (Scalar { bits: 0x3f66_6666 }),
{
    Scalar { bits: 0x3f66_6666 }
}

/// How fast a player comes out at least (`3.0`).
#[verifier::allow_in_spec]
pub fn exit_min_speed() -> Scalar
    returns
        (Scalar { bits: 0x4040_0000 }),
{
    Scalar { bits: 0x4040_0000 }
}

/// A portal placed: where, where it faces, and what goes for it.
#[derive(Debug)]
pub struct Placed {
    pub slot: PortalSlot,
    pub at: Vec3,
    pub normal: Vec3,
    pub gone: Vec<Entity>,
}

/// The portals in a slot.
pub open spec fn in_slot(portals: Seq<Portal>, slot: PortalSlot) -> Seq<Entity> {
    portals.filter(|p: Portal| p.slot == slot).map_values(|p: Portal| p.entity)
}

fn collect_slot(portals: &Vec<Portal>, slot: PortalSlot) -> (r: Vec<Entity>)
    ensures
        r@ == in_slot(portals@, slot),
{
    let ghost same = |p: Portal| p.slot == slot;
    let mut found: Vec<Entity> = Vec::new();
    let mut i: usize = 0;
    proof {
        reveal(Seq::filter);
    }
    while i < portals.len()
        invariant
            i <= portals.len(),
            same == (|p: Portal| p.slot == slot),
            found@ =~= portals@.take(i as int).filter(same).map_values(|p: Portal| p.entity),
        decreases portals.len() - i,
    {
        proof {
            reveal(Seq::filter);
            assert(portals@.take(i + 1).drop_last() =~= portals@.take(i as int));
        }
        if portals[i].slot == slot {
            found.push(portals[i].entity);
        }
        i += 1;
    }
    assert(portals@.take(i as int) =~= portals@);
    found
}

/// Whether a portal is placed, and how.
pub open spec fn places(
    placed: Option<Placed>,
    slot: PortalSlot,
    active: SpellId,
    eye: Vec3,
    forward: Vec3,
    hit: Option<SurfaceHit>,
    portals: Seq<Portal>,
) -> bool {
    match (active == SpellId::Portal, place_portal(eye, forward, hit)) {
        (true, Some((at, normal))) => {
            &&& placed is Some
            &&& placed->Some_0.slot == slot
            &&& placed->Some_0.at == at
            &&& placed->Some_0.normal == normal
            &&& placed->Some_0.gone@ == in_slot(portals, slot)
        },
        _ => placed is None,
    }
}

fn place(
    slot: PortalSlot,
    active: SpellId,
    eye: Vec3,
    forward: Vec3,
    hit: Option<SurfaceHit>,
    portals: &Vec<Portal>,
) -> (r: Option<Placed>)
    ensures
        places(r, slot, active, eye, forward, hit, portals@),
{
    if active != SpellId::Portal {
        return None;
    }
    match place_portal(eye, forward, hit) {
        Some((at, normal)) => {
            let gone = collect_slot(portals, slot);
            Some(Placed { slot, at, normal, gone })
        },
        None => None,
    }
}

/// Places the primary portal, with the portal spell in hand.
pub fn on_place_primary(
    active: SpellId,
    eye: Vec3,
    forward: Vec3,
    hit: Option<SurfaceHit>,
    portals: &Vec<Portal>,
) -> (r: Option<Placed>)
    ensures
        places(r, PortalSlot::Primary, active, eye, forward, hit, portals@),
{
    place(PortalSlot::Primary, active, eye, forward, hit, portals)
}

/// Places the secondary portal, with the portal spell in hand.
pub fn on_place_secondary(
    active: SpellId,
    eye: Vec3,
    forward: Vec3,
    hit: Option<SurfaceHit>,
    portals: &Vec<Portal>,
) -> (r: Option<Placed>)
    ensures
        places(r, PortalSlot::Secondary, active, eye, forward, hit, portals@),
{
    place(PortalSlot::Secondary, active, eye, forward, hit, portals)
}

pub open spec fn spec_steps_onto(prev_pos: Vec3, pos: Vec3, entry: Pose) -> bool {
    let normal = face(entry.rotation);
    radial(prev_pos.minus(entry.translation), normal).gt(portal_radius()) && radial(
        pos.minus(entry.translation),
        normal,
    ).le(portal_radius()) && pos.minus(entry.translation).dot(normal).abs().lt(
        horizontal_disc_depth(),
    )
}

/// Whether a player who went from `prev_pos` to `pos` stepped onto a level disc.
#[verifier::when_used_as_spec(spec_steps_onto)]
pub fn steps_onto(prev_pos: Vec3, pos: Vec3, entry: Pose) -> (r: bool)
    ensures
        r == spec_steps_onto(prev_pos, pos, entry),
{
    let normal = face(entry.rotation);
    radial(prev_pos.minus(entry.translation), normal).gt(portal_radius()) && radial(
        pos.minus(entry.translation),
        normal,
    ).le(portal_radius()) && pos.minus(entry.translation).dot(normal).abs().lt(
        horizontal_disc_depth(),
    )
}

pub open spec fn spec_walks_into(prev_pos: Vec3, pos: Vec3, entry: Pose) -> bool {
    let normal = face(entry.rotation);
    let prev_along = prev_pos.minus(entry.translation).dot(normal);
    let curr_along = pos.minus(entry.translation).dot(normal);
    let at = prev_pos.lerp(pos, prev_along.over(prev_along.minus(curr_along))).minus(
        entry.translation,
    );
    prev_along.gt(zero()) && curr_along.le(zero()) && radial(at, normal).le(portal_radius())
}

/// Whether a player who went from `prev_pos` to `pos` walked into the front of an
/// upright disc, within its rim.
#[verifier::when_used_as_spec(spec_walks_into)]
pub fn walks_into(prev_pos: Vec3, pos: Vec3, entry: Pose) -> (r: bool)
    ensures
        r == spec_walks_into(prev_pos, pos, entry),
{
    let normal = face(entry.rotation);
    let prev_along = prev_pos.minus(entry.translation).dot(normal);
    let curr_along = pos.minus(entry.translation).dot(normal);
    let at = prev_pos.lerp(pos, prev_along.over(prev_along.minus(curr_along))).minus(
        entry.translation,
    );
    prev_along.gt(zero()) && curr_along.le(zero()) && radial(at, normal).le(portal_radius())
}

pub open spec fn spec_takes(prev_pos: Vec3, pos: Vec3, entry: Pose) -> bool {
    if is_level(face(entry.rotation)) {
        steps_onto(prev_pos, pos, entry)
    } else {
        walks_into(prev_pos, pos, entry)
    }
}

/// Whether a disc takes a player who went from `prev_pos` to `pos`.
#[verifier::when_used_as_spec(spec_takes)]
pub fn takes(prev_pos: Vec3, pos: Vec3, entry: Pose) -> (r: bool)
    ensures
        r == spec_takes(prev_pos, pos, entry),
{
    if is_level(face(entry.rotation)) {
        steps_onto(prev_pos, pos, entry)
    } else {
        walks_into(prev_pos, pos, entry)
    }
}

/// A player, as the portals see one.
#[derive(Clone, Copy, Debug, PartialEq, Eq, Structural)]
pub struct Walker {
    pub at: Vec3,
    pub velocity: Vec3,
    pub prev: Option<Vec3>,
}

pub open spec fn spec_put_out(walker: Walker, exit: Pose) -> Walker {
    let normal = face(exit.rotation);
    let at = exit.translation.plus(normal.scale(exit_offset()));
    Walker {
        at,
        velocity: normal.scale(walker.velocity.length().max(exit_min_speed())),
        prev: Some(at),
    }
}

/// A player put before `exit` and pushed out of it.
#[verifier::when_used_as_spec(spec_put_out)]
pub fn put_out(walker: Walker, exit: Pose) -> (r: Walker)
    ensures
        r == spec_put_out(walker, exit),
{
    let normal = face(exit.rotation);
    let at = exit.translation.plus(normal.scale(exit_offset()));
    Walker {
        at,
        velocity: normal.scale(walker.velocity.length().max(exit_min_speed())),
        prev: Some(at),
    }
}

/// A player after a step past the portals.
pub open spec fn walk_step(portals: Seq<Portal>, walker: Walker) -> Walker {
    let stays = Walker { prev: Some(walker.at), ..walker };
    match (pair_of(portals), walker.prev) {
        (Some((primary, secondary)), Some(prev_pos)) => if takes(
            prev_pos,
            walker.at,
            primary.pose,
        ) {
            put_out(walker, secondary.pose)
        } else if takes(prev_pos, walker.at, secondary.pose) {
            put_out(walker, primary.pose)
        } else {
            stays
        },
        _ => stays,
    }
}

/// Moves a player who went into a portal out of the other one.
pub fn process_teleports(portals: &Vec<Portal>, walker: &mut Walker)
    ensures
        *final(walker) == walk_step(portals@, *old(walker)),
{
    let before = *walker;
    walker.prev = Some(before.at);
    match (find_pair(portals), before.prev) {
        (Some((primary, secondary)), Some(prev_pos)) => {
            if takes(prev_pos, before.at, primary.pose) {
                *walker = put_out(before, secondary.pose);
            } else if takes(prev_pos, before.at, secondary.pose) {
                *walker = put_out(before, primary.pose);
            }
        },
        _ => {},
    }
}

/// Who stands still is not taken, wherever that is.
pub proof fn law_standing_still_is_safe(portals: Seq<Portal>, walker: Walker)
    requires
        walker.prev == Some(walker.at),
    ensures
        walk_step(portals, walker) == walker,
{
    assert forall|p: Vec3, entry: Pose| !(#[trigger] takes(p, p, entry)) by {
        let normal = face(entry.rotation);
        let r = radial(p.minus(entry.translation), normal);
        let a = p.minus(entry.translation).dot(normal);
        assert(!(r.gt(portal_radius()) && r.le(portal_radius())));
        assert(!(a.gt(zero()) && a.le(zero())));
    }
}

} // verus!

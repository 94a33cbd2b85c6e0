//! Paired portals: what steps into one comes out of the other.
//!
//! A portal is a disc whose face looks along the Y axis of its rotation. The
//! pair is the last portal of either slot. A body enters where it changed
//! sides between two steps within the rim; the portals it has just used do not
//! take it again until it has moved away from them.

use crate::entity::{holds, insert_entity, together, with_entity, Entity};
use crate::lists::lemma_filter_keeps;
use crate::net::protocol::{NetworkedPortal, PlacePortalMessage};
use crate::physics::{mask_of, CollisionLayers, GameLayer, Ray, ALL_LAYERS};
use crate::scalar::{
    doubles, lemma_order_is_value, lemma_plus_value, lemma_times_nothing, lemma_times_one,
    lemma_times_two, one, zero, Scalar,
};
use crate::vector::{from_axes, looking, two, Pose, Quat, Vec3};
use vstd::prelude::*;

verus! {

/// Which of the two portals of the pair.
#[derive(Clone, Copy, Debug, PartialEq, Eq, Structural)]
pub enum PortalSlot {
    Primary,
    Secondary,
}

/// A portal where it stands now and where it stood a step ago.
#[derive(Clone, Copy, Debug, PartialEq, Eq, Structural)]
pub struct Portal {
    pub entity: Entity,
    pub slot: PortalSlot,
    pub pose: Pose,
    pub prev: Pose,
}

/// The rotations by half a turn about each axis, as the engine rounds them.
#[derive(Clone, Copy, Debug, PartialEq, Eq, Structural)]
pub struct HalfTurns {
    pub x: Quat,
    pub y: Quat,
    pub z: Quat,
}

/// How far a portal's rim is from its middle (`1.4`).
#[verifier::allow_in_spec]
pub fn portal_radius() -> Scalar
    returns
        (Scalar { bits: 0x3fb3_3333 }),
{
    Scalar { bits: 0x3fb3_3333 }
}

/// From where on a disc's face counts as level (`0.7`).
#[verifier::allow_in_spec]
pub fn horizontal_normal_dot_y() -> Scalar
    returns
        (Scalar { bits: 0x3f33_3333 }),
{
    Scalar { bits: 0x3f33_3333 }
}

/// How near to a level disc the floor gives way (`2.0`).
#[verifier::allow_in_spec]
pub fn horizontal_disc_depth() -> Scalar
    returns
        (Scalar { bits: 0x4000_0000 }),
{
    Scalar { bits: 0x4000_0000 }
}

/// How far a portal stands out of the surface that it sticks to (`0.02`).
#[verifier::allow_in_spec]
pub fn surface_inset() -> Scalar
    returns
        (Scalar { bits: 0x3ca3_d70a }),
{
    Scalar { bits: 0x3ca3_d70a }
}

/// How far ahead a portal floats that met no surface (`2.5`).
#[verifier::allow_in_spec]
pub fn air_portal_distance() -> Scalar
    returns
        (Scalar { bits: 0x4020_0000 }),
{
    Scalar { bits: 0x4020_0000 }
}

/// How far a portal can be put (`15.0`).
#[verifier::allow_in_spec]
pub fn portal_raycast_range() -> Scalar
    returns
        (Scalar { bits: 0x4170_0000 }),
{
    Scalar { bits: 0x4170_0000 }
}

/// How many radii away from a used portal it takes a body again (`1.5`).
#[verifier::allow_in_spec]
pub fn lockout_factor() -> Scalar
    returns
        (Scalar { bits: 0x3fc0_0000 }),
{
    Scalar { bits: 0x3fc0_0000 }
}

/// What counts as nothing (`1e-6`).
#[verifier::allow_in_spec]
pub fn tiny() -> Scalar
    returns
        (Scalar { bits: 0x3586_37bd }),
{
    Scalar { bits: 0x3586_37bd }
}

/// Below this the faces of two portals oppose each other (`-0.5`).
#[verifier::allow_in_spec]
pub fn minus_half() -> Scalar
    returns
        (Scalar { bits: 0xbf00_0000 }),
{
    Scalar { bits: 0xbf00_0000 }
}

/// How wide a player is, from the middle (`0.4`).
#[verifier::allow_in_spec]
pub fn capsule_radius() -> Scalar
    returns
        (Scalar { bits: 0x3ecc_cccd }),
{
    Scalar { bits: 0x3ecc_cccd }
}

/// Half the height of a player's trunk (`0.6`).
#[verifier::allow_in_spec]
pub fn capsule_half_height() -> Scalar
    returns
        (Scalar { bits: 0x3f19_999a }),
{
    Scalar { bits: 0x3f19_999a }
}

/// How far up or down a player can look (`1.4835298`).
#[verifier::allow_in_spec]
pub fn pitch_limit() -> Scalar
    returns
        (Scalar { bits: 0x3fbd_e44e }),
{
    Scalar { bits: 0x3fbd_e44e }
}

/// How far a player's eyes are above the middle (`0.7`).
#[verifier::allow_in_spec]
pub fn eye_height() -> Scalar
    returns
        (Scalar { bits: 0x3f33_3333 }),
{
    Scalar { bits: 0x3f33_3333 }
}

pub open spec fn spec_up() -> Vec3 {
    Vec3 { x: zero(), y: one(), z: zero() }
}

/// Straight up.
#[verifier::when_used_as_spec(spec_up)]
pub fn up() -> (r: Vec3)
    ensures
        r == spec_up(),
{
    Vec3 { x: zero(), y: one(), z: zero() }
}

pub open spec fn spec_ahead() -> Vec3 {
    Vec3 { x: zero(), y: zero(), z: one().neg() }
}

/// Straight ahead, before any rotation.
#[verifier::when_used_as_spec(spec_ahead)]
pub fn ahead() -> (r: Vec3)
    ensures
        r == spec_ahead(),
{
    Vec3 { x: zero(), y: zero(), z: one().neg() }
}

pub open spec fn spec_lockout_radius() -> Scalar {
    portal_radius().times(lockout_factor())
}

/// From where on a used portal takes a body again.
#[verifier::when_used_as_spec(spec_lockout_radius)]
pub fn lockout_radius() -> (r: Scalar)
    ensures
        r == spec_lockout_radius(),
{
    portal_radius().times(lockout_factor())
}

pub open spec fn spec_face(rotation: Quat) -> Vec3 {
    rotation.rotate(up()).normalize()
}

/// Where a disc's face looks.
#[verifier::when_used_as_spec(spec_face)]
pub fn face(rotation: Quat) -> (r: Vec3)
    ensures
        r == spec_face(rotation),
{
    rotation.rotate(up()).normalize()
}

pub open spec fn spec_face_or_zero(rotation: Quat) -> Vec3 {
    rotation.rotate(up()).normalize_or_zero()
}

/// Where a disc's face looks; nowhere, for a rotation that is none.
#[verifier::when_used_as_spec(spec_face_or_zero)]
pub fn face_or_zero(rotation: Quat) -> (r: Vec3)
    ensures
        r == spec_face_or_zero(rotation),
{
    rotation.rotate(up()).normalize_or_zero()
}

pub open spec fn spec_radial(rel: Vec3, normal: Vec3) -> Scalar {
    rel.minus(normal.scale(rel.dot(normal))).length()
}

/// How far `rel` is from the line along `normal`.
#[verifier::when_used_as_spec(spec_radial)]
pub fn radial(rel: Vec3, normal: Vec3) -> (r: Scalar)
    ensures
        r == spec_radial(rel, normal),
{
    rel.minus(normal.scale(rel.dot(normal))).length()
}

pub open spec fn spec_along(point: Vec3, pose: Pose) -> Scalar {
    point.minus(pose.translation).dot(face(pose.rotation))
}

/// How far `point` is in front of the disc at `pose`; below zero behind it.
#[verifier::when_used_as_spec(spec_along)]
pub fn along(point: Vec3, pose: Pose) -> (r: Scalar)
    ensures
        r == spec_along(point, pose),
{
    point.minus(pose.translation).dot(face(pose.rotation))
}

pub open spec fn spec_crossing_time(prev_along: Scalar, curr_along: Scalar) -> Scalar {
    if curr_along.minus(prev_along).abs().gt(tiny()) {
        prev_along.neg().over(curr_along.minus(prev_along)).clamp(zero(), one())
    } else {
        zero()
    }
}

/// When, between two steps, the distance passed nought.
#[verifier::when_used_as_spec(spec_crossing_time)]
pub fn crossing_time(prev_along: Scalar, curr_along: Scalar) -> (r: Scalar)
    ensures
        r == spec_crossing_time(prev_along, curr_along),
{
    if curr_along.minus(prev_along).abs().gt(tiny()) {
        prev_along.neg().over(curr_along.minus(prev_along)).clamp(zero(), one())
    } else {
        zero()
    }
}

pub open spec fn spec_passes(prev_pos: Vec3, pos: Vec3, prev_entry: Pose, entry: Pose) -> bool {
    let prev_along = along(prev_pos, prev_entry);
    let curr_along = along(pos, entry);
    let at = prev_pos.minus(prev_entry.translation).lerp(
        pos.minus(entry.translation),
        crossing_time(prev_along, curr_along),
    );
    prev_along.gt(zero()) != curr_along.gt(zero()) && !radial(at, face(entry.rotation)).gt(
        portal_radius(),
    )
}

/// Whether what went from `prev_pos` to `pos`, while the disc went from
/// `prev_entry` to `entry`, changed sides within the rim.
#[verifier::when_used_as_spec(spec_passes)]
pub fn passes(prev_pos: Vec3, pos: Vec3, prev_entry: Pose, entry: Pose) -> (r: bool)
    ensures
        r == spec_passes(prev_pos, pos, prev_entry, entry),
{
    let prev_along = along(prev_pos, prev_entry);
    let curr_along = along(pos, entry);
    let at = prev_pos.minus(prev_entry.translation).lerp(
        pos.minus(entry.translation),
        crossing_time(prev_along, curr_along),
    );
    prev_along.gt(zero()) != curr_along.gt(zero()) && !radial(at, face(entry.rotation)).gt(
        portal_radius(),
    )
}

pub open spec fn spec_needs_x_flip(entry: Quat, exit: Quat) -> bool {
    face_or_zero(entry).dot(face_or_zero(exit)).lt(minus_half())
}

/// Whether the faces of two discs oppose each other.
#[verifier::when_used_as_spec(spec_needs_x_flip)]
pub fn needs_x_flip(entry: Quat, exit: Quat) -> (r: bool)
    ensures
        r == spec_needs_x_flip(entry, exit),
{
    face_or_zero(entry).dot(face_or_zero(exit)).lt(minus_half())
}

pub open spec fn spec_carried_position(pos: Vec3, entry: Pose, exit: Pose) -> Vec3 {
    let local = entry.rotation.inverse().rotate(pos.minus(entry.translation));
    let x = if needs_x_flip(entry.rotation, exit.rotation) {
        local.x.neg()
    } else {
        local.x
    };
    let y = if face_or_zero(exit.rotation).y.ge(horizontal_normal_dot_y()) {
        local.y.abs()
    } else {
        local.y
    };
    exit.translation.plus(exit.rotation.rotate(Vec3 { x, y, z: local.z }))
}

/// Where a body at `pos` before `entry` comes out of `exit`.
///
/// Opposing faces mirror sideways, which is undone. A level exit has only one
/// side that is not in the floor, so a body always comes out above it.
#[verifier::when_used_as_spec(spec_carried_position)]
pub fn carried_position(pos: Vec3, entry: Pose, exit: Pose) -> (r: Vec3)
    ensures
        r == spec_carried_position(pos, entry, exit),
{
    let local = entry.rotation.inverse().rotate(pos.minus(entry.translation));
    let x = if needs_x_flip(entry.rotation, exit.rotation) {
        local.x.neg()
    } else {
        local.x
    };
    let y = if face_or_zero(exit.rotation).y.ge(horizontal_normal_dot_y()) {
        local.y.abs()
    } else {
        local.y
    };
    exit.translation.plus(exit.rotation.rotate(Vec3 { x, y, z: local.z }))
}

pub open spec fn spec_carried_rotation(
    rotation: Quat,
    entry: Quat,
    exit: Quat,
    turns: HalfTurns,
) -> Quat {
    if needs_x_flip(entry, exit) {
        exit.compose(turns.z).compose(entry.inverse()).compose(rotation)
    } else {
        exit.compose(entry.inverse()).compose(rotation)
    }
}

/// How a body that was turned by `rotation` comes out of `exit`.
#[verifier::when_used_as_spec(spec_carried_rotation)]
pub fn carried_rotation(rotation: Quat, entry: Quat, exit: Quat, turns: HalfTurns) -> (r: Quat)
    ensures
        r == spec_carried_rotation(rotation, entry, exit, turns),
{
    if needs_x_flip(entry, exit) {
        exit.compose(turns.z).compose(entry.inverse()).compose(rotation)
    } else {
        exit.compose(entry.inverse()).compose(rotation)
    }
}

pub open spec fn spec_carried_velocity(
    velocity: Vec3,
    entry: Quat,
    exit: Quat,
    turns: HalfTurns,
) -> Vec3 {
    let flip = if needs_x_flip(entry, exit) {
        turns.z
    } else {
        turns.x
    };
    exit.compose(flip).compose(entry.inverse()).rotate(velocity)
}

/// How a body that moved at `velocity` comes out of `exit`.
#[verifier::when_used_as_spec(spec_carried_velocity)]
pub fn carried_velocity(velocity: Vec3, entry: Quat, exit: Quat, turns: HalfTurns) -> (r: Vec3)
    ensures
        r == spec_carried_velocity(velocity, entry, exit, turns),
{
    let flip = if needs_x_flip(entry, exit) {
        turns.z
    } else {
        turns.x
    };
    exit.compose(flip).compose(entry.inverse()).rotate(velocity)
}

/// A viewpoint behind a portal: where it is, where it looks, and which way is up.
#[derive(Clone, Copy, Debug, PartialEq, Eq, Structural)]
pub struct VirtualView {
    pub position: Vec3,
    pub forward: Vec3,
    pub up: Vec3,
}

pub open spec fn spec_direction_or_x(v: Vec3) -> Vec3 {
    if one().over(v.length()).is_finite() && one().over(v.length()).gt(zero()) {
        v.scale(one().over(v.length()))
    } else {
        Vec3 { x: one(), y: zero(), z: zero() }
    }
}

/// The direction of `v`, or that of the X axis where it has none.
#[verifier::when_used_as_spec(spec_direction_or_x)]
pub fn direction_or_x(v: Vec3) -> (r: Vec3)
    ensures
        r == spec_direction_or_x(v),
{
    if one().over(v.length()).is_finite() && one().over(v.length()).gt(zero()) {
        v.scale(one().over(v.length()))
    } else {
        Vec3 { x: one(), y: zero(), z: zero() }
    }
}

pub open spec fn spec_portal_virtual_transform(
    viewer: Pose,
    entry: Pose,
    exit: Pose,
    turns: HalfTurns,
) -> VirtualView {
    let back = entry.rotation.inverse();
    let local_pos = back.rotate(viewer.translation.minus(entry.translation));
    let seen = viewer.rotation.rotate(ahead());
    let local_forward = turns.z.rotate(back.rotate(seen));
    let position = exit.translation.plus(exit.rotation.rotate(turns.y.rotate(local_pos)));
    let forward = exit.rotation.rotate(local_forward);
    let top = if forward.cross(up()).length_squared().gt(tiny()) {
        up()
    } else {
        direction_or_x(Vec3 { x: seen.x, y: zero(), z: seen.z })
    };
    VirtualView { position, forward, up: top }
}

/// What a viewer before `entry` sees, as a view from behind `exit`.
#[verifier::when_used_as_spec(spec_portal_virtual_transform)]
pub fn portal_virtual_transform(
    viewer: Pose,
    entry: Pose,
    exit: Pose,
    turns: HalfTurns,
) -> (r: VirtualView)
    ensures
        r == spec_portal_virtual_transform(viewer, entry, exit, turns),
{
    let back = entry.rotation.inverse();
    let local_pos = back.rotate(viewer.translation.minus(entry.translation));
    let seen = viewer.rotation.rotate(ahead());
    let local_forward = turns.z.rotate(back.rotate(seen));
    let position = exit.translation.plus(exit.rotation.rotate(turns.y.rotate(local_pos)));
    let forward = exit.rotation.rotate(local_forward);
    let top = if forward.cross(up()).length_squared().gt(tiny()) {
        up()
    } else {
        direction_or_x(Vec3 { x: seen.x, y: zero(), z: seen.z })
    };
    VirtualView { position, forward, up: top }
}

pub open spec fn spec_view_pose(view: VirtualView) -> Pose {
    Pose { translation: view.position, rotation: looking(view.forward, view.up) }
}

/// Where who has a view stands, turned to look along it.
#[verifier::when_used_as_spec(spec_view_pose)]
pub fn view_pose(view: VirtualView) -> (r: Pose)
    ensures
        r == spec_view_pose(view),
{
    Pose { translation: view.position, rotation: looking(view.forward, view.up) }
}

/// The axes of a disc, as the columns of its rotation.
#[derive(Clone, Copy, Debug, PartialEq, Eq, Structural)]
pub struct DiscAxes {
    pub x: Vec3,
    pub y: Vec3,
    pub z: Vec3,
}

pub open spec fn spec_disc_axes(normal: Vec3) -> Option<DiscAxes> {
    let y = normal.normalize_or_zero();
    if y.equals(Vec3::origin()) {
        None
    } else {
        let z = if y.cross(up()).length_squared().lt(tiny()) {
            Vec3 { x: zero(), y: zero(), z: one() }
        } else {
            up().minus(y.scale(y.dot(up()))).normalize()
        };
        Some(DiscAxes { x: y.cross(z), y, z })
    }
}

/// The axes of a disc whose face looks along `normal`, its top as far up as that
/// allows; none where `normal` has no direction.
#[verifier::when_used_as_spec(spec_disc_axes)]
pub fn disc_axes(normal: Vec3) -> (r: Option<DiscAxes>)
    ensures
        r == spec_disc_axes(normal),
{
    let y = normal.normalize_or_zero();
    if y.equals(Vec3::origin()) {
        None
    } else {
        let z = if y.cross(up()).length_squared().lt(tiny()) {
            Vec3 { x: zero(), y: zero(), z: one() }
        } else {
            up().minus(y.scale(y.dot(up()))).normalize()
        };
        Some(DiscAxes { x: y.cross(z), y, z })
    }
}

pub open spec fn spec_disc_rotation(normal: Vec3) -> Quat {
    match disc_axes(normal) {
        Some(axes) => from_axes(axes.x, axes.y, axes.z),
        None => Quat::identity(),
    }
}

/// How a disc is turned whose face looks along `normal`; not at all where `normal` has no
/// direction.
#[verifier::when_used_as_spec(spec_disc_rotation)]
pub fn disc_rotation(normal: Vec3) -> (r: Quat)
    ensures
        r == spec_disc_rotation(normal),
{
    match disc_axes(normal) {
        Some(axes) => from_axes(axes.x, axes.y, axes.z),
        None => Quat::identity(),
    }
}

/// The last portal of a slot.
pub open spec fn last_in(portals: Seq<Portal>, slot: PortalSlot) -> Option<Portal>
    decreases portals.len(),
{
    if portals.len() == 0 {
        None
    } else if portals.last().slot == slot {
        Some(portals.last())
    } else {
        last_in(portals.drop_last(), slot)
    }
}

/// The primary portal and the secondary one, once there are both.
pub open spec fn pair_of(portals: Seq<Portal>) -> Option<(Portal, Portal)> {
    match (last_in(portals, PortalSlot::Primary), last_in(portals, PortalSlot::Secondary)) {
        (Some(primary), Some(secondary)) => Some((primary, secondary)),
        _ => None,
    }
}

/// The pair, if it is complete.
pub fn find_pair(portals: &Vec<Portal>) -> (r: Option<(Portal, Portal)>)
    ensures
        r == pair_of(portals@),
{
    let mut primary: Option<Portal> = None;
    let mut secondary: Option<Portal> = None;
    let mut i: usize = 0;
    while i < portals.len()
        invariant
            i <= portals.len(),
            primary == last_in(portals@.take(i as int), PortalSlot::Primary),
            secondary == last_in(portals@.take(i as int), PortalSlot::Secondary),
        decreases portals.len() - i,
    {
        let portal = portals[i];
        assert(portals@.take(i + 1).drop_last() =~= portals@.take(i as int));
        match portal.slot {
            PortalSlot::Primary => primary = Some(portal),
            PortalSlot::Secondary => secondary = Some(portal),
        }
        i += 1;
    }
    assert(portals@.take(portals.len() as int) =~= portals@);
    match (primary, secondary) {
        (Some(p), Some(s)) => Some((p, s)),
        _ => None,
    }
}

/// Where the portal named `entity` stands, if there still is one.
pub open spec fn portal_at(portals: Seq<Portal>, entity: Entity) -> Option<Vec3>
    decreases portals.len(),
{
    if portals.len() == 0 {
        None
    } else if portals.last().entity == entity {
        Some(portals.last().pose.translation)
    } else {
        portal_at(portals.drop_last(), entity)
    }
}

fn locate(portals: &Vec<Portal>, entity: Entity) -> (r: Option<Vec3>)
    ensures
        r == portal_at(portals@, entity),
{
    let mut found: Option<Vec3> = None;
    let mut i: usize = 0;
    while i < portals.len()
        invariant
            i <= portals.len(),
            found == portal_at(portals@.take(i as int), entity),
        decreases portals.len() - i,
    {
        assert(portals@.take(i + 1).drop_last() =~= portals@.take(i as int));
        if portals[i].entity == entity {
            found = Some(portals[i].pose.translation);
        }
        i += 1;
    }
    assert(portals@.take(portals.len() as int) =~= portals@);
    found
}

/// Whether a body at `pos` is still too near to a portal that it has used.
pub open spec fn still_locked(portals: Seq<Portal>, pos: Vec3, entity: Entity) -> bool {
    match portal_at(portals, entity) {
        Some(at) => pos.minus(at).length().le(lockout_radius()),
        None => false,
    }
}

/// The used portals that a body at `pos` is still too near to.
pub open spec fn kept_lockout(portals: Seq<Portal>, pos: Vec3, lockout: Seq<Entity>) -> Seq<
    Entity,
> {
    lockout.filter(|e: Entity| still_locked(portals, pos, e))
}

/// Drops the portals that the body has moved away from.
pub fn retain_lockout(portals: &Vec<Portal>, pos: Vec3, lockout: &mut Vec<Entity>)
    ensures
        final(lockout)@ == kept_lockout(portals@, pos, old(lockout)@),
{
    let ghost stays = |e: Entity| still_locked(portals@, pos, e);
    let mut kept: Vec<Entity> = Vec::new();
    let mut i: usize = 0;
    assert(lockout@.take(0).filter(stays) =~= Seq::<Entity>::empty()) by {
        reveal(Seq::filter);
    }
    while i < lockout.len()
        invariant
            i <= lockout.len(),
            lockout@ == old(lockout)@,
            stays == (|e: Entity| still_locked(portals@, pos, e)),
            kept@ == lockout@.take(i as int).filter(stays),
        decreases lockout.len() - i,
    {
        let entity = lockout[i];
        assert(lockout@.take(i + 1).drop_last() =~= lockout@.take(i as int));
        assert(lockout@.take(i + 1).last() == entity);
        proof {
            reveal(Seq::filter);
        }
        let near = match locate(portals, entity) {
            Some(at) => pos.minus(at).length().le(lockout_radius()),
            None => false,
        };
        if near {
            kept.push(entity);
        }
        i += 1;
    }
    assert(lockout@.take(lockout.len() as int) =~= lockout@);
    *lockout = kept;
}

/// The two portals that a body has used are kept as such for as long as the body
/// is near them.
pub proof fn lemma_lockout_holds(
    portals: Seq<Portal>,
    pos: Vec3,
    lockout: Seq<Entity>,
    entry: Entity,
    exit: Entity,
)
    ensures
        ({
            let used = with_entity(with_entity(lockout, entry), exit);
            &&& still_locked(portals, pos, entry) ==> kept_lockout(portals, pos, used).contains(
                entry,
            )
            &&& still_locked(portals, pos, exit) ==> kept_lockout(portals, pos, used).contains(exit)
        }),
{
    let once = with_entity(lockout, entry);
    let used = with_entity(once, exit);
    let stays = |e: Entity| still_locked(portals, pos, e);
    assert(once.contains(entry)) by {
        if !lockout.contains(entry) {
            assert(once.last() == entry);
        }
    }
    let i = choose|i: int| 0 <= i < once.len() && once[i] == entry;
    assert(used[i] == entry);
    assert(used.contains(exit)) by {
        if !once.contains(exit) {
            assert(used.last() == exit);
        }
    }
    if stays(entry) {
        lemma_filter_keeps(used, stays, entry);
    }
    if stays(exit) {
        lemma_filter_keeps(used, stays, exit);
    }
}

/// A body that portals carry.
#[derive(Debug)]
pub struct Traveler {
    pub entity: Entity,
    pub pose: Pose,
    pub velocity: Vec3,
    pub prev: Option<Vec3>,
    pub lockout: Vec<Entity>,
}

/// What a [`Traveler`] is to the rules.
pub struct TravelerView {
    pub entity: Entity,
    pub pose: Pose,
    pub velocity: Vec3,
    pub prev: Option<Vec3>,
    pub lockout: Seq<Entity>,
}

impl View for Traveler {
    type V = TravelerView;

    open spec fn view(&self) -> TravelerView {
        TravelerView {
            entity: self.entity,
            pose: self.pose,
            velocity: self.velocity,
            prev: self.prev,
            lockout: self.lockout@,
        }
    }
}

pub open spec fn spec_passes_fixed(prev_pos: Vec3, pos: Vec3, entry: Pose) -> bool {
    let prev_along = along(prev_pos, entry);
    let curr_along = along(pos, entry);
    let at = prev_pos.lerp(pos, crossing_time(prev_along, curr_along)).minus(entry.translation);
    prev_along.gt(zero()) != curr_along.gt(zero()) && !radial(at, face(entry.rotation)).gt(
        portal_radius(),
    )
}

/// Whether what went from `prev_pos` to `pos` changed sides of a disc that does
/// not move, within the rim.
#[verifier::when_used_as_spec(spec_passes_fixed)]
pub fn passes_fixed(prev_pos: Vec3, pos: Vec3, entry: Pose) -> (r: bool)
    ensures
        r == spec_passes_fixed(prev_pos, pos, entry),
{
    let prev_along = along(prev_pos, entry);
    let curr_along = along(pos, entry);
    let at = prev_pos.lerp(pos, crossing_time(prev_along, curr_along)).minus(entry.translation);
    prev_along.gt(zero()) != curr_along.gt(zero()) && !radial(at, face(entry.rotation)).gt(
        portal_radius(),
    )
}

/// The entry and the exit of a body that went from `prev_pos` to `pos` past the
/// pair: the primary portal first.
pub open spec fn entered_fixed(
    pair: (Portal, Portal),
    lockout: Seq<Entity>,
    prev_pos: Vec3,
    pos: Vec3,
) -> Option<(Portal, Portal)> {
    if !lockout.contains(pair.0.entity) && passes_fixed(prev_pos, pos, pair.0.pose) {
        Some((pair.0, pair.1))
    } else if !lockout.contains(pair.1.entity) && passes_fixed(prev_pos, pos, pair.1.pose) {
        Some((pair.1, pair.0))
    } else {
        None
    }
}

/// A body carried from `entry` to `exit`, both of them fixed.
pub open spec fn carried_fixed(
    body: TravelerView,
    lockout: Seq<Entity>,
    entry: Portal,
    exit: Portal,
    turns: HalfTurns,
) -> TravelerView {
    let pos = body.pose.translation;
    let prev_pos = match body.prev {
        Some(p) => p,
        None => pos,
    };
    let basis = if along(prev_pos, entry.pose).gt(zero()) {
        prev_pos
    } else {
        pos
    };
    let turn = exit.pose.rotation.compose(entry.pose.rotation.inverse());
    let flipped = exit.pose.rotation.compose(turns.x).compose(entry.pose.rotation.inverse());
    let at = exit.pose.translation.plus(turn.rotate(basis.minus(entry.pose.translation)));
    TravelerView {
        entity: body.entity,
        pose: Pose { translation: at, rotation: turn.compose(body.pose.rotation) },
        velocity: flipped.rotate(body.velocity),
        prev: Some(at),
        lockout: with_entity(with_entity(lockout, entry.entity), exit.entity),
    }
}

/// A body after one step past portals that do not move.
pub open spec fn traveler_step(
    portals: Seq<Portal>,
    body: TravelerView,
    turns: HalfTurns,
) -> TravelerView {
    let pos = body.pose.translation;
    let prev_pos = match body.prev {
        Some(p) => p,
        None => pos,
    };
    let lockout = kept_lockout(portals, pos, body.lockout);
    let stays = TravelerView { prev: Some(pos), lockout, ..body };
    match pair_of(portals) {
        None => stays,
        Some(pair) => match entered_fixed(pair, lockout, prev_pos, pos) {
            None => stays,
            Some((entry, exit)) => carried_fixed(body, lockout, entry, exit, turns),
        },
    }
}

/// Carries a body that stepped into a portal to the other one, and remembers
/// where it was for the next step.
pub fn process_traveler_teleports(
    portals: &Vec<Portal>,
    body: &mut Traveler,
    turns: HalfTurns,
)
    ensures
        final(body)@ == traveler_step(portals@, old(body)@, turns),
{
    let pos = body.pose.translation;
    let prev_pos = match body.prev {
        Some(p) => p,
        None => pos,
    };
    retain_lockout(portals, pos, &mut body.lockout);
    body.prev = Some(pos);
    let pair = match find_pair(portals) {
        Some(pair) => pair,
        None => {
            return;
        },
    };
    let (entry, exit) = if !holds(&body.lockout, pair.0.entity) && passes_fixed(
        prev_pos,
        pos,
        pair.0.pose,
    ) {
        (pair.0, pair.1)
    } else if !holds(&body.lockout, pair.1.entity) && passes_fixed(prev_pos, pos, pair.1.pose) {
        (pair.1, pair.0)
    } else {
        return;
    };
    let basis = if along(prev_pos, entry.pose).gt(zero()) {
        prev_pos
    } else {
        pos
    };
    let turn = exit.pose.rotation.compose(entry.pose.rotation.inverse());
    let flipped = exit.pose.rotation.compose(turns.x).compose(entry.pose.rotation.inverse());
    let at = exit.pose.translation.plus(turn.rotate(basis.minus(entry.pose.translation)));
    body.pose = Pose { translation: at, rotation: turn.compose(body.pose.rotation) };
    body.velocity = flipped.rotate(body.velocity);
    body.prev = Some(at);
    insert_entity(&mut body.lockout, entry.entity);
    insert_entity(&mut body.lockout, exit.entity);
}

/// What has come through a portal does not go into it again for as long as it stays
/// near it.
pub proof fn law_used_portal_waits(
    portals: Seq<Portal>,
    pair: (Portal, Portal),
    body: TravelerView,
    next: TravelerView,
    prev_pos: Vec3,
    turns: HalfTurns,
    used: Portal,
)
    requires
        pair_of(portals) == Some(pair),
        body.prev == Some(prev_pos),
        entered_fixed(
            pair,
            kept_lockout(portals, body.pose.translation, body.lockout),
            prev_pos,
            body.pose.translation,
        ) is Some,
        next.lockout == traveler_step(portals, body, turns).lockout,
        used == pair.0 || used == pair.1,
        still_locked(portals, next.pose.translation, used.entity),
    ensures
        forall|from: Vec3|
            (#[trigger] entered_fixed(
                pair,
                kept_lockout(portals, next.pose.translation, next.lockout),
                from,
                next.pose.translation,
            )) matches Some((entry, _)) ==> entry.entity != used.entity,
{
    let kept = kept_lockout(portals, body.pose.translation, body.lockout);
    let (entry, exit) = entered_fixed(pair, kept, prev_pos, body.pose.translation)->Some_0;
    lemma_lockout_holds(portals, next.pose.translation, kept, entry.entity, exit.entity);
}

pub open spec fn spec_signum(x: Scalar) -> Scalar {
    if x.is_nan() {
        x
    } else if x.bits < 0x8000_0000 {
        one()
    } else {
        one().neg()
    }
}

/// `1.0` with the sign of `x`.
#[verifier::when_used_as_spec(spec_signum)]
pub fn signum(x: Scalar) -> (r: Scalar)
    ensures
        r == spec_signum(x),
{
    if x.is_nan() {
        x
    } else if x.bits < 0x8000_0000 {
        one()
    } else {
        one().neg()
    }
}

pub open spec fn spec_heading(forward: Vec3) -> Option<(Scalar, Scalar)> {
    let flat = forward.x.times(forward.x).plus(forward.z.times(forward.z));
    if flat.gt(tiny()) {
        Some(
            (
                forward.x.neg().times(one().over(flat.sqrt())),
                forward.z.neg().times(one().over(flat.sqrt())),
            ),
        )
    } else {
        None
    }
}

/// The sine and the cosine of the yaw that faces along `forward`, unless that
/// points straight up or down.
#[verifier::when_used_as_spec(spec_heading)]
pub fn heading(forward: Vec3) -> (r: Option<(Scalar, Scalar)>)
    ensures
        r == spec_heading(forward),
{
    let flat = forward.x.times(forward.x).plus(forward.z.times(forward.z));
    if flat.gt(tiny()) {
        Some(
            (
                forward.x.neg().times(one().over(flat.sqrt())),
                forward.z.neg().times(one().over(flat.sqrt())),
            ),
        )
    } else {
        None
    }
}

pub open spec fn spec_pitch_sine(forward: Vec3) -> Scalar {
    forward.y.clamp(one().neg(), one())
}

/// The sine of the pitch that looks along `forward`.
#[verifier::when_used_as_spec(spec_pitch_sine)]
pub fn pitch_sine(forward: Vec3) -> (r: Scalar)
    ensures
        r == spec_pitch_sine(forward),
{
    forward.y.clamp(one().neg(), one())
}

pub open spec fn spec_limited_pitch(pitch: Scalar) -> Scalar {
    pitch.clamp(pitch_limit().neg(), pitch_limit())
}

/// A pitch that a player can have.
#[verifier::when_used_as_spec(spec_limited_pitch)]
pub fn limited_pitch(pitch: Scalar) -> (r: Scalar)
    ensures
        r == spec_limited_pitch(pitch),
{
    pitch.clamp(pitch_limit().neg(), pitch_limit())
}

pub open spec fn spec_is_level(normal: Vec3) -> bool {
    normal.y.abs().gt(horizontal_normal_dot_y())
}

/// Whether a disc with this face lies level.
#[verifier::when_used_as_spec(spec_is_level)]
pub fn is_level(normal: Vec3) -> (r: bool)
    ensures
        r == spec_is_level(normal),
{
    normal.y.abs().gt(horizontal_normal_dot_y())
}

pub open spec fn spec_camera_offset() -> Vec3 {
    Vec3 { x: zero(), y: eye_height(), z: zero() }
}

/// From a player's middle to the eyes.
#[verifier::when_used_as_spec(spec_camera_offset)]
pub fn camera_offset() -> (r: Vec3)
    ensures
        r == spec_camera_offset(),
{
    Vec3 { x: zero(), y: eye_height(), z: zero() }
}

pub open spec fn spec_anchor_offset(entry: Pose) -> Vec3 {
    if is_level(face(entry.rotation)) {
        Vec3::origin()
    } else {
        camera_offset()
    }
}

/// The point of a player that a portal goes by: the middle over a level disc,
/// the eyes before an upright one.
#[verifier::when_used_as_spec(spec_anchor_offset)]
pub fn anchor_offset(entry: Pose) -> (r: Vec3)
    ensures
        r == spec_anchor_offset(entry),
{
    if is_level(face(entry.rotation)) {
        Vec3::origin()
    } else {
        camera_offset()
    }
}

pub open spec fn spec_anchor_target(entry: Pose, prev_along: Scalar) -> Scalar {
    if is_level(face(entry.rotation)) {
        zero()
    } else {
        capsule_radius().times(signum(prev_along))
    }
}

/// How far in front of the disc a player's anchor is when it takes the player.
#[verifier::when_used_as_spec(spec_anchor_target)]
pub fn anchor_target(entry: Pose, prev_along: Scalar) -> (r: Scalar)
    ensures
        r == spec_anchor_target(entry, prev_along),
{
    if is_level(face(entry.rotation)) {
        zero()
    } else {
        capsule_radius().times(signum(prev_along))
    }
}

pub open spec fn spec_anchor_crossed(entry: Pose, prev_along: Scalar, curr_along: Scalar) -> bool {
    if is_level(face(entry.rotation)) {
        prev_along.gt(zero()) != curr_along.gt(zero())
    } else {
        prev_along.abs().gt(capsule_radius()) && curr_along.abs().le(capsule_radius())
    }
}

/// Whether a player's anchor went through a level disc, or came within a
/// shoulder of an upright one.
#[verifier::when_used_as_spec(spec_anchor_crossed)]
pub fn anchor_crossed(entry: Pose, prev_along: Scalar, curr_along: Scalar) -> (r: bool)
    ensures
        r == spec_anchor_crossed(entry, prev_along, curr_along),
{
    if is_level(face(entry.rotation)) {
        prev_along.gt(zero()) != curr_along.gt(zero())
    } else {
        prev_along.abs().gt(capsule_radius()) && curr_along.abs().le(capsule_radius())
    }
}

pub open spec fn spec_anchor_at_crossing(prev_pos: Vec3, pos: Vec3, entry: Pose) -> Vec3 {
    let prev_anchor = prev_pos.plus(anchor_offset(entry));
    let curr_anchor = pos.plus(anchor_offset(entry));
    let prev_along = along(prev_anchor, entry);
    let curr_along = along(curr_anchor, entry);
    let t = if curr_along.minus(prev_along).abs().gt(tiny()) {
        anchor_target(entry, prev_along).minus(prev_along).over(curr_along.minus(prev_along)).clamp(
            zero(),
            one(),
        )
    } else {
        zero()
    };
    prev_anchor.lerp(curr_anchor, t)
}

/// Where a player's anchor was when the disc took it.
#[verifier::when_used_as_spec(spec_anchor_at_crossing)]
pub fn anchor_at_crossing(prev_pos: Vec3, pos: Vec3, entry: Pose) -> (r: Vec3)
    ensures
        r == spec_anchor_at_crossing(prev_pos, pos, entry),
{
    let prev_anchor = prev_pos.plus(anchor_offset(entry));
    let curr_anchor = pos.plus(anchor_offset(entry));
    let prev_along = along(prev_anchor, entry);
    let curr_along = along(curr_anchor, entry);
    let t = if curr_along.minus(prev_along).abs().gt(tiny()) {
        anchor_target(entry, prev_along).minus(prev_along).over(curr_along.minus(prev_along)).clamp(
            zero(),
            one(),
        )
    } else {
        zero()
    };
    prev_anchor.lerp(curr_anchor, t)
}

pub open spec fn spec_player_passes(prev_pos: Vec3, pos: Vec3, entry: Pose) -> bool {
    anchor_crossed(
        entry,
        along(prev_pos.plus(anchor_offset(entry)), entry),
        along(pos.plus(anchor_offset(entry)), entry),
    ) && !radial(
        anchor_at_crossing(prev_pos, pos, entry).minus(entry.translation),
        face(entry.rotation),
    ).gt(portal_radius())
}

/// Whether a player who went from `prev_pos` to `pos` steps through the disc.
#[verifier::when_used_as_spec(spec_player_passes)]
pub fn player_passes(prev_pos: Vec3, pos: Vec3, entry: Pose) -> (r: bool)
    ensures
        r == spec_player_passes(prev_pos, pos, entry),
{
    anchor_crossed(
        entry,
        along(prev_pos.plus(anchor_offset(entry)), entry),
        along(pos.plus(anchor_offset(entry)), entry),
    ) && !radial(
        anchor_at_crossing(prev_pos, pos, entry).minus(entry.translation),
        face(entry.rotation),
    ).gt(portal_radius())
}

pub open spec fn spec_body_at_exit(view: Vec3, entry: Pose, exit: Pose) -> Vec3 {
    let body = view.minus(anchor_offset(entry));
    if is_level(face(exit.rotation)) && !is_level(face(entry.rotation)) {
        Vec3 {
            x: body.x,
            y: exit.translation.y.plus(
                capsule_half_height().plus(capsule_radius()).times(signum(face(exit.rotation).y)),
            ),
            z: body.z,
        }
    } else {
        body
    }
}

/// Where a player whose view comes out at `view` stands. Out of an upright disc
/// and up a level one, the player stands on it.
#[verifier::when_used_as_spec(spec_body_at_exit)]
pub fn body_at_exit(view: Vec3, entry: Pose, exit: Pose) -> (r: Vec3)
    ensures
        r == spec_body_at_exit(view, entry, exit),
{
    let body = view.minus(anchor_offset(entry));
    if is_level(face(exit.rotation)) && !is_level(face(entry.rotation)) {
        Vec3 {
            x: body.x,
            y: exit.translation.y.plus(
                capsule_half_height().plus(capsule_radius()).times(signum(face(exit.rotation).y)),
            ),
            z: body.z,
        }
    } else {
        body
    }
}

/// A player who has just come out of a portal: the view that the player now
/// has, the way that the player now looks, and whether the portal entered lay level.
#[derive(Clone, Copy, Debug, PartialEq, Eq, Structural)]
pub struct PlayerCrossing {
    pub view: VirtualView,
    pub forward: Vec3,
    pub level: bool,
}

/// The entry and the exit of a player who went from `prev_pos` to `pos`.
pub open spec fn entered_by_player(
    pair: (Portal, Portal),
    lockout: Seq<Entity>,
    prev_pos: Vec3,
    pos: Vec3,
) -> Option<(Portal, Portal)> {
    if !lockout.contains(pair.0.entity) && player_passes(prev_pos, pos, pair.0.pose) {
        Some((pair.0, pair.1))
    } else if !lockout.contains(pair.1.entity) && player_passes(prev_pos, pos, pair.1.pose) {
        Some((pair.1, pair.0))
    } else {
        None
    }
}

/// What a player who is turned by `camera` sees out of `exit`.
pub open spec fn view_at_exit(
    prev_pos: Vec3,
    pos: Vec3,
    camera: Quat,
    entry: Portal,
    exit: Portal,
    turns: HalfTurns,
) -> VirtualView {
    portal_virtual_transform(
        Pose {
            translation: anchor_at_crossing(prev_pos, pos, entry.pose),
            rotation: camera,
        },
        entry.pose,
        exit.pose,
        turns,
    )
}

/// A player after one step past the portals, and what became of the view.
pub open spec fn player_step(
    portals: Seq<Portal>,
    body: TravelerView,
    camera: Quat,
    turns: HalfTurns,
) -> (TravelerView, Option<PlayerCrossing>) {
    let pos = body.pose.translation;
    let lockout = kept_lockout(portals, pos.plus(camera_offset()), body.lockout);
    let stays = TravelerView { prev: Some(pos), lockout, ..body };
    match (pair_of(portals), body.prev) {
        (Some(pair), Some(prev_pos)) => match entered_by_player(pair, lockout, prev_pos, pos) {
            None => (stays, None),
            Some((entry, exit)) => {
                let view = view_at_exit(prev_pos, pos, camera, entry, exit, turns);
                let at = body_at_exit(view.position, entry.pose, exit.pose);
                (
                    TravelerView {
                        pose: Pose { translation: at, rotation: body.pose.rotation },
                        prev: Some(at),
                        lockout: with_entity(with_entity(lockout, entry.entity), exit.entity),
                        ..body
                    },
                    Some(
                        PlayerCrossing {
                            view,
                            forward: view_pose(view).rotation.rotate(ahead()),
                            level: is_level(face(entry.pose.rotation)),
                        },
                    ),
                )
            },
        },
        _ => (stays, None),
    }
}

/// Moves a player who stepped into a portal to the other one. The facing that
/// follows from the way the player looks, and with it the velocity, is left to the caller: see
/// [`heading`], [`pitch_sine`] and [`velocity_at_exit`].
pub fn process_teleports(
    portals: &Vec<Portal>,
    body: &mut Traveler,
    camera: Quat,
    turns: HalfTurns,
) -> (r: Option<PlayerCrossing>)
    ensures
        (final(body)@, r) == player_step(portals@, old(body)@, camera, turns),
{
    let pos = body.pose.translation;
    let before = body.prev;
    retain_lockout(portals, pos.plus(camera_offset()), &mut body.lockout);
    body.prev = Some(pos);
    let pair = match find_pair(portals) {
        Some(pair) => pair,
        None => {
            return None;
        },
    };
    let prev_pos = match before {
        Some(p) => p,
        None => {
            return None;
        },
    };
    let (entry, exit) = if !holds(&body.lockout, pair.0.entity) && player_passes(
        prev_pos,
        pos,
        pair.0.pose,
    ) {
        (pair.0, pair.1)
    } else if !holds(&body.lockout, pair.1.entity) && player_passes(prev_pos, pos, pair.1.pose) {
        (pair.1, pair.0)
    } else {
        return None;
    };
    let basis = Pose {
        translation: anchor_at_crossing(prev_pos, pos, entry.pose),
        rotation: camera,
    };
    let view = portal_virtual_transform(basis, entry.pose, exit.pose, turns);
    let at = body_at_exit(view.position, entry.pose, exit.pose);
    body.pose = Pose { translation: at, rotation: body.pose.rotation };
    body.prev = Some(at);
    insert_entity(&mut body.lockout, entry.entity);
    insert_entity(&mut body.lockout, exit.entity);
    Some(
        PlayerCrossing {
            view,
            forward: view_pose(view).rotation.rotate(ahead()),
            level: is_level(face(entry.pose.rotation)),
        },
    )
}

/// A player who has come through a portal does not go into it again for as long as
/// the player's eyes stay near it.
pub proof fn law_used_portal_waits_for_player(
    portals: Seq<Portal>,
    pair: (Portal, Portal),
    body: TravelerView,
    next: TravelerView,
    prev_pos: Vec3,
    camera: Quat,
    turns: HalfTurns,
    used: Portal,
)
    requires
        pair_of(portals) == Some(pair),
        body.prev == Some(prev_pos),
        entered_by_player(
            pair,
            kept_lockout(portals, body.pose.translation.plus(camera_offset()), body.lockout),
            prev_pos,
            body.pose.translation,
        ) is Some,
        next.lockout == player_step(portals, body, camera, turns).0.lockout,
        used == pair.0 || used == pair.1,
        still_locked(portals, next.pose.translation.plus(camera_offset()), used.entity),
    ensures
        forall|from: Vec3|
            (#[trigger] entered_by_player(
                pair,
                kept_lockout(portals, next.pose.translation.plus(camera_offset()), next.lockout),
                from,
                next.pose.translation,
            )) matches Some((entry, _)) ==> entry.entity != used.entity,
{
    let kept = kept_lockout(portals, body.pose.translation.plus(camera_offset()), body.lockout);
    let (entry, exit) = entered_by_player(pair, kept, prev_pos, body.pose.translation)->Some_0;
    lemma_lockout_holds(
        portals,
        next.pose.translation.plus(camera_offset()),
        kept,
        entry.entity,
        exit.entity,
    );
}

pub open spec fn spec_velocity_at_exit(crossing: PlayerCrossing, turned: Vec3) -> Vec3 {
    if crossing.level {
        turned
    } else {
        Vec3::origin()
    }
}

/// How a player moves out of a portal: as before, turned with the view, through
/// a level one; not at all through an upright one.
#[verifier::when_used_as_spec(spec_velocity_at_exit)]
pub fn velocity_at_exit(crossing: PlayerCrossing, turned: Vec3) -> (r: Vec3)
    ensures
        r == spec_velocity_at_exit(crossing, turned),
{
    if crossing.level {
        turned
    } else {
        Vec3::origin()
    }
}

/// The longest side of the picture behind a portal.
pub const PORTAL_TEXTURE_MAX_DIM: u32 = 1280;

pub open spec fn spec_texture_side(side: u32, longest: u32) -> u32 {
    if longest <= PORTAL_TEXTURE_MAX_DIM {
        side
    } else {
        let scaled = Scalar::from_u32(side).times(
            Scalar::from_u32(PORTAL_TEXTURE_MAX_DIM).over(Scalar::from_u32(longest)),
        ).round_to_u32();
        if scaled < 1 {
            1
        } else {
            scaled
        }
    }
}

/// A side of the picture behind a portal, for a window whose longest side is
/// `longest`: as long as the window's, or in proportion to it.
#[verifier::when_used_as_spec(spec_texture_side)]
pub fn texture_side(side: u32, longest: u32) -> (r: u32)
    ensures
        r == spec_texture_side(side, longest),
{
    if longest <= PORTAL_TEXTURE_MAX_DIM {
        side
    } else {
        let scaled = Scalar::from_u32(side).times(
            Scalar::from_u32(PORTAL_TEXTURE_MAX_DIM).over(Scalar::from_u32(longest)),
        ).round_to_u32();
        if scaled < 1 {
            1
        } else {
            scaled
        }
    }
}

pub open spec fn spec_portal_texture_size(width: u32, height: u32) -> (u32, u32) {
    let w = if width < 1 {
        1u32
    } else {
        width
    };
    let h = if height < 1 {
        1u32
    } else {
        height
    };
    let longest = if w < h {
        h
    } else {
        w
    };
    (texture_side(w, longest), texture_side(h, longest))
}

/// The size of the picture behind a portal, for a window of this size.
#[verifier::when_used_as_spec(spec_portal_texture_size)]
pub fn portal_texture_size(width: u32, height: u32) -> (r: (u32, u32))
    ensures
        r == spec_portal_texture_size(width, height),
{
    let w = if width < 1 {
        1u32
    } else {
        width
    };
    let h = if height < 1 {
        1u32
    } else {
        height
    };
    let longest = if w < h {
        h
    } else {
        w
    };
    (texture_side(w, longest), texture_side(h, longest))
}

/// How bright the rim of the primary portal is: orange (`1.5`, `0.55`, `0.12`).
#[verifier::allow_in_spec]
pub fn primary_rim() -> Vec3
    returns
        (Vec3 {
            x: Scalar { bits: 0x3fc0_0000 },
            y: Scalar { bits: 0x3f0c_cccd },
            z: Scalar { bits: 0x3df5_c28f },
        }),
{
    Vec3 {
        x: Scalar { bits: 0x3fc0_0000 },
        y: Scalar { bits: 0x3f0c_cccd },
        z: Scalar { bits: 0x3df5_c28f },
    }
}

/// How bright the rim of the secondary portal is: blue (`0.25`, `0.85`, `2.2`).
#[verifier::allow_in_spec]
pub fn secondary_rim() -> Vec3
    returns
        (Vec3 {
            x: Scalar { bits: 0x3e80_0000 },
            y: Scalar { bits: 0x3f59_999a },
            z: Scalar { bits: 0x400c_cccd },
        }),
{
    Vec3 {
        x: Scalar { bits: 0x3e80_0000 },
        y: Scalar { bits: 0x3f59_999a },
        z: Scalar { bits: 0x400c_cccd },
    }
}

/// What a portal looks like.
#[derive(Clone, Copy, Debug, PartialEq)]
pub struct PortalLook {
    /// Red, green and blue.
    pub rim: Vec3,
    pub rotation: Quat,
    /// The size of the picture behind it.
    pub picture: (u32, u32),
}

pub open spec fn spec_on_networked_portal_replicated(
    portal: NetworkedPortal,
    width: u32,
    height: u32,
) -> PortalLook {
    PortalLook {
        rim: match portal.slot {
            PortalSlot::Primary => primary_rim(),
            PortalSlot::Secondary => secondary_rim(),
        },
        rotation: disc_rotation(portal.normal),
        picture: portal_texture_size(width, height),
    }
}

/// What a portal looks like that the server has told of, in a window of this size.
#[verifier::when_used_as_spec(spec_on_networked_portal_replicated)]
pub fn on_networked_portal_replicated(
    portal: NetworkedPortal,
    width: u32,
    height: u32,
) -> (r: PortalLook)
    ensures
        r == spec_on_networked_portal_replicated(portal, width, height),
{
    PortalLook {
        rim: match portal.slot {
            PortalSlot::Primary => primary_rim(),
            PortalSlot::Secondary => secondary_rim(),
        },
        rotation: disc_rotation(portal.normal),
        picture: portal_texture_size(width, height),
    }
}

/// What a cast ray met: how far away, and which way the surface faces.
#[derive(Clone, Copy, Debug, PartialEq, Eq, Structural)]
pub struct SurfaceHit {
    pub distance: Scalar,
    pub normal: Vec3,
}

pub open spec fn spec_place_portal(
    eye: Vec3,
    forward: Vec3,
    hit: Option<SurfaceHit>,
) -> Option<(Vec3, Vec3)> {
    match forward.direction() {
        None => None,
        Some(_) => match hit {
            Some(hit) => Some(
                (
                    eye.plus(forward.scale(hit.distance)).plus(hit.normal.scale(surface_inset())),
                    hit.normal,
                ),
            ),
            None => Some(
                (eye.plus(forward.scale(air_portal_distance())), forward.neg()),
            ),
        },
    }
}

/// Where a portal goes that a player at `eye` puts `forward`, and where it
/// faces: onto what the ray met, or into the air. Nowhere without a direction.
#[verifier::when_used_as_spec(spec_place_portal)]
pub fn place_portal(
    eye: Vec3,
    forward: Vec3,
    hit: Option<SurfaceHit>,
) -> (r: Option<(Vec3, Vec3)>)
    ensures
        r == spec_place_portal(eye, forward, hit),
{
    match forward.direction() {
        None => None,
        Some(_) => match hit {
            Some(hit) => Some(
                (
                    eye.plus(forward.scale(hit.distance)).plus(hit.normal.scale(surface_inset())),
                    hit.normal,
                ),
            ),
            None => Some(
                (eye.plus(forward.scale(air_portal_distance())), forward.neg()),
            ),
        },
    }
}

/// The ray that looks for a surface to put a portal on, if the player looks
/// anywhere. It goes through lanterns, portals and the player.
pub fn portal_ray(
    eye: Vec3,
    forward: Vec3,
    lanterns: &Vec<Entity>,
    portals: &Vec<Entity>,
    player: Entity,
) -> (r: Option<Ray>)
    ensures
        match (forward.direction(), r) {
            (Some(direction), Some(ray)) => ray.goes(
                eye,
                direction,
                portal_raycast_range(),
                (lanterns@ + portals@).push(player),
            ),
            (None, None) => true,
            _ => false,
        },
{
    match forward.direction() {
        Some(direction) => {
            let mut ignored = together(lanterns, portals);
            ignored.push(player);
            Some(Ray { origin: eye, direction, range: portal_raycast_range(), ignored })
        },
        None => None,
    }
}

pub open spec fn spec_place_portal_handler(
    slot: PortalSlot,
    eye: Vec3,
    forward: Vec3,
    hit: Option<SurfaceHit>,
) -> Option<PlacePortalMessage> {
    match place_portal(eye, forward, hit) {
        Some((position, normal)) => Some(PlacePortalMessage { slot, position, normal }),
        None => None,
    }
}

/// The request to put a portal where the player looks.
#[verifier::when_used_as_spec(spec_place_portal_handler)]
pub fn place_portal_handler(
    slot: PortalSlot,
    eye: Vec3,
    forward: Vec3,
    hit: Option<SurfaceHit>,
) -> (r: Option<PlacePortalMessage>)
    ensures
        r == spec_place_portal_handler(slot, eye, forward, hit),
{
    match place_portal(eye, forward, hit) {
        Some((position, normal)) => Some(PlacePortalMessage { slot, position, normal }),
        None => None,
    }
}

/// What becomes of the camera behind a portal.
#[derive(Clone, Copy, Debug, PartialEq, Eq, Structural)]
pub enum CameraUpdate {
    /// There is no pair to look through.
    Off,
    /// The camera's portal is not of the pair: nothing changes.
    Keep,
    /// The camera shows this view.
    On(VirtualView),
}

/// What becomes of the camera behind `portal`, for a viewer at `viewer`.
pub open spec fn camera_update(
    portals: Seq<Portal>,
    portal: Entity,
    viewer: Pose,
    turns: HalfTurns,
) -> CameraUpdate {
    match pair_of(portals) {
        None => CameraUpdate::Off,
        Some((primary, secondary)) => if portal == primary.entity {
            CameraUpdate::On(portal_virtual_transform(viewer, primary.pose, secondary.pose, turns))
        } else if portal == secondary.entity {
            CameraUpdate::On(portal_virtual_transform(viewer, secondary.pose, primary.pose, turns))
        } else {
            CameraUpdate::Keep
        },
    }
}

/// What becomes of the cameras behind the portals, in their order.
pub fn update_portal_cameras(
    portals: &Vec<Portal>,
    cameras: &Vec<Entity>,
    viewer: Pose,
    turns: HalfTurns,
) -> (r: Vec<CameraUpdate>)
    ensures
        r@.len() == cameras@.len(),
        forall|i: int|
            0 <= i < cameras@.len() ==> #[trigger] r@[i] == camera_update(
                portals@,
                cameras@[i],
                viewer,
                turns,
            ),
{
    let pair = find_pair(portals);
    let mut updates: Vec<CameraUpdate> = Vec::new();
    let mut i: usize = 0;
    while i < cameras.len()
        invariant
            i <= cameras.len(),
            pair == pair_of(portals@),
            updates@.len() == i,
            forall|j: int|
                0 <= j < i ==> #[trigger] updates@[j] == camera_update(
                    portals@,
                    cameras@[j],
                    viewer,
                    turns,
                ),
        decreases cameras.len() - i,
    {
        let update = match pair {
            None => CameraUpdate::Off,
            Some((primary, secondary)) => if cameras[i] == primary.entity {
                CameraUpdate::On(
                    portal_virtual_transform(viewer, primary.pose, secondary.pose, turns),
                )
            } else if cameras[i] == secondary.entity {
                CameraUpdate::On(
                    portal_virtual_transform(viewer, secondary.pose, primary.pose, turns),
                )
            } else {
                CameraUpdate::Keep
            },
        };
        updates.push(update);
        i += 1;
    }
    updates
}

/// A camera and the portal that it stands behind.
#[derive(Clone, Copy, Debug, PartialEq, Eq, Structural)]
pub struct PortalCamera {
    pub camera: Entity,
    pub portal: Entity,
}

/// The cameras whose portal is gone, in their order.
pub fn cleanup_orphan_portal_cameras(
    cameras: &Vec<PortalCamera>,
    portals: &Vec<Entity>,
) -> (r: Vec<PortalCamera>)
    ensures
        r@ == cameras@.filter(|c: PortalCamera| !portals@.contains(c.portal)),
{
    let ghost gone = |c: PortalCamera| !portals@.contains(c.portal);
    let mut orphans: Vec<PortalCamera> = Vec::new();
    let mut i: usize = 0;
    proof {
        reveal(Seq::filter);
    }
    while i < cameras.len()
        invariant
            i <= cameras.len(),
            gone == (|c: PortalCamera| !portals@.contains(c.portal)),
            orphans@ == cameras@.take(i as int).filter(gone),
        decreases cameras.len() - i,
    {
        proof {
            reveal(Seq::filter);
            assert(cameras@.take(i + 1).drop_last() =~= cameras@.take(i as int));
        }
        if !holds(portals, cameras[i].portal) {
            orphans.push(cameras[i]);
        }
        i += 1;
    }
    assert(cameras@.take(cameras.len() as int) =~= cameras@);
    orphans
}

pub open spec fn spec_over_disc(pos: Vec3, at: Vec3, normal: Vec3) -> bool {
    radial(pos.minus(at), normal).lt(portal_radius()) && pos.minus(at).dot(normal).abs().lt(
        horizontal_disc_depth(),
    )
}

/// Whether `pos` is over or under the disc, close enough for the floor to give way.
#[verifier::when_used_as_spec(spec_over_disc)]
pub fn over_disc(pos: Vec3, at: Vec3, normal: Vec3) -> (r: bool)
    ensures
        r == spec_over_disc(pos, at, normal),
{
    radial(pos.minus(at), normal).lt(portal_radius()) && pos.minus(at).dot(normal).abs().lt(
        horizontal_disc_depth(),
    )
}

/// Whether the disc takes what is at `pos` down through the floor.
pub open spec fn falls_into(portal: Portal, pos: Vec3, lockout: Seq<Entity>) -> bool {
    &&& !lockout.contains(portal.entity)
    &&& !face(portal.pose.rotation).y.abs().lt(horizontal_normal_dot_y())
    &&& over_disc(pos, portal.pose.translation, face(portal.pose.rotation))
}

/// Whether some disc takes what is at `pos` down through the floor.
pub open spec fn falls(portals: Seq<Portal>, pos: Vec3, lockout: Seq<Entity>) -> bool {
    exists|i: int| 0 <= i < portals.len() && falls_into(#[trigger] portals[i], pos, lockout)
}

fn find_fall(portals: &Vec<Portal>, pos: Vec3, lockout: &Vec<Entity>) -> (r: bool)
    ensures
        r == falls(portals@, pos, lockout@),
{
    let mut i: usize = 0;
    while i < portals.len()
        invariant
            i <= portals.len(),
            forall|j: int| 0 <= j < i ==> !falls_into(#[trigger] portals@[j], pos, lockout@),
        decreases portals.len() - i,
    {
        let portal = portals[i];
        let normal = face(portal.pose.rotation);
        if !holds(lockout, portal.entity) && !normal.y.abs().lt(horizontal_normal_dot_y())
            && over_disc(pos, portal.pose.translation, normal) {
            assert(falls_into(portals@[i as int], pos, lockout@));
            return true;
        }
        i += 1;
    }
    false
}

pub open spec fn spec_player_layers(falling: bool) -> CollisionLayers {
    if falling {
        CollisionLayers::new(GameLayer::Player, mask_of(true, true, false))
    } else {
        CollisionLayers::new(GameLayer::Player, ALL_LAYERS)
    }
}

/// What a player collides with: everything, or all but the ground.
#[verifier::when_used_as_spec(spec_player_layers)]
pub fn player_layers(falling: bool) -> (r: CollisionLayers)
    ensures
        r == spec_player_layers(falling),
{
    if falling {
        CollisionLayers::new(GameLayer::Player, mask_of(true, true, false))
    } else {
        CollisionLayers::new(GameLayer::Player, ALL_LAYERS)
    }
}

pub open spec fn spec_traveler_layers(falling: bool) -> CollisionLayers {
    if falling {
        CollisionLayers::new(GameLayer::Default, mask_of(true, true, false))
    } else {
        CollisionLayers::new(GameLayer::Default, ALL_LAYERS)
    }
}

/// What a carried body collides with: everything, or all but the ground.
#[verifier::when_used_as_spec(spec_traveler_layers)]
pub fn traveler_layers(falling: bool) -> (r: CollisionLayers)
    ensures
        r == spec_traveler_layers(falling),
{
    if falling {
        CollisionLayers::new(GameLayer::Default, mask_of(true, true, false))
    } else {
        CollisionLayers::new(GameLayer::Default, ALL_LAYERS)
    }
}

/// The layers that a player at `pos` must now have, if they are not `layers`
/// already.
pub fn update_player_falling(
    portals: &Vec<Portal>,
    pos: Vec3,
    layers: CollisionLayers,
    lockout: &Vec<Entity>,
) -> (r: Option<CollisionLayers>)
    ensures
        r == (if layers == player_layers(falls(portals@, pos, lockout@)) {
            None
        } else {
            Some(player_layers(falls(portals@, pos, lockout@)))
        }),
{
    let target = player_layers(find_fall(portals, pos, lockout));
    if layers == target {
        None
    } else {
        Some(target)
    }
}

/// The layers that a carried body at `pos` must now have, if they are not
/// `layers` already, and whether it has to be woken.
pub fn update_traveler_falling(
    portals: &Vec<Portal>,
    pos: Vec3,
    layers: CollisionLayers,
    lockout: &Vec<Entity>,
) -> (r: (Option<CollisionLayers>, bool))
    ensures
        r.0 == (if layers == traveler_layers(falls(portals@, pos, lockout@)) {
            None
        } else {
            Some(traveler_layers(falls(portals@, pos, lockout@)))
        }),
        r.1 == falls(portals@, pos, lockout@),
{
    let falling = find_fall(portals, pos, lockout);
    let target = traveler_layers(falling);
    if layers == target {
        (None, falling)
    } else {
        (Some(target), falling)
    }
}

/// A scalar product of which one part is the whole.
proof fn lemma_dot_single(u: Vec3, v: Vec3, whole: Scalar)
    requires
        u.x.times(v.x).is_finite(),
        u.y.times(v.y).is_finite(),
        u.z.times(v.z).is_finite(),
        whole.is_finite(),
        ({
            let (a, b, c) = (
                u.x.times(v.x).value(),
                u.y.times(v.y).value(),
                u.z.times(v.z).value(),
            );
            ||| a == whole.value() && b == 0 && c == 0
            ||| a == 0 && b == whole.value() && c == 0
            ||| a == 0 && b == 0 && c == whole.value()
        }),
    ensures
        u.dot(v).is_finite(),
        u.dot(v).value() == whole.value(),
{
    let (a, b, c) = (u.x.times(v.x), u.y.times(v.y), u.z.times(v.z));
    if c.value() == 0 {
        lemma_plus_value(a, b, whole);
    } else {
        lemma_plus_value(a, b, zero());
    }
    lemma_plus_value(a.plus(b), c, whole);
}

/// A difference with nothing is a number or its opposite.
proof fn lemma_one_sided(a: Scalar, b: Scalar)
    requires
        a.is_finite(),
        b.is_finite(),
        a.magnitude() == 0 || b.magnitude() == 0,
    ensures
        a.minus(b).is_finite(),
{
    if a.magnitude() == 0 {
        lemma_plus_value(a, b.neg(), b.neg());
    } else {
        lemma_plus_value(a, b.neg(), a);
    }
}

/// What lies across an axis of the world is finite.
proof fn lemma_cross_finite(b: Vec3, v: Vec3)
    requires
        v.is_finite(),
        b.x.magnitude() == 0 || b.x.magnitude() == one().magnitude(),
        b.y.magnitude() == 0 || b.y.magnitude() == one().magnitude(),
        b.z.magnitude() == 0 || b.z.magnitude() == one().magnitude(),
        b.x.magnitude() == 0 && b.y.magnitude() == 0 || b.y.magnitude() == 0 && b.z.magnitude()
            == 0 || b.x.magnitude() == 0 && b.z.magnitude() == 0,
    ensures
        b.cross(v).is_finite(),
{
    lemma_part(b.x, v.y);
    lemma_part(b.x, v.z);
    lemma_part(b.y, v.x);
    lemma_part(b.y, v.z);
    lemma_part(b.z, v.x);
    lemma_part(b.z, v.y);
    lemma_one_sided(b.y.times(v.z), v.y.times(b.z));
    lemma_one_sided(b.z.times(v.x), v.z.times(b.x));
    lemma_one_sided(b.x.times(v.y), v.x.times(b.y));
}

proof fn lemma_part(b: Scalar, a: Scalar)
    requires
        a.is_finite(),
        b.magnitude() == 0 || b.magnitude() == one().magnitude(),
    ensures
        a.times(b).is_finite(),
        b.times(a).is_finite(),
        b.magnitude() == 0 ==> a.times(b).magnitude() == 0 && b.times(a).magnitude() == 0,
{
    if b.magnitude() == 0 {
        lemma_times_nothing(a, b);
    } else {
        lemma_times_one(a, b);
    }
}

/// Whether a rotation is exactly half a turn about the Y axis.
pub open spec fn is_half_turn_y(q: Quat) -> bool {
    &&& q.y.magnitude() == one().magnitude()
    &&& q.x.magnitude() == 0
    &&& q.z.magnitude() == 0
    &&& q.w.magnitude() == 0
}

/// Half a turn about the Y axis keeps what lies along it and mirrors the rest.
proof fn lemma_half_turn_y(q: Quat, v: Vec3)
    requires
        is_half_turn_y(q),
        v.is_finite(),
        doubles(v.y),
    ensures
        q.rotate(v).is_finite(),
        q.rotate(v).y.value() == v.y.value(),
        q.rotate(v).x.value() == -v.x.value(),
        q.rotate(v).z.value() == -v.z.value(),
{
    let (b, w) = (q.axis(), q.w);
    let nothing = zero();
    // The factor of the vector itself is minus one.
    lemma_times_nothing(w, w);
    lemma_times_nothing(b.x, b.x);
    lemma_times_nothing(b.z, b.z);
    lemma_times_one(b.y, b.y);
    lemma_dot_single(b, b, one());
    lemma_plus_value(w.times(w), b.dot(b).neg(), one().neg());
    let k = w.times(w).minus(b.dot(b));
    lemma_order_is_value(k, one().neg());
    let own = v.scale(k);
    lemma_times_one(v.x, k);
    lemma_times_one(v.y, k);
    lemma_times_one(v.z, k);
    // What lies along the axis counts twice.
    lemma_times_nothing(v.x, b.x);
    lemma_times_nothing(v.z, b.z);
    lemma_times_one(v.y, b.y);
    let along = if b.y.signed() {
        v.y.neg()
    } else {
        v.y
    };
    lemma_dot_single(v, b, along);
    lemma_order_is_value(v.dot(b), along);
    lemma_times_two(v.dot(b), two());
    let twice = v.dot(b).times(two());
    let more = b.scale(twice);
    lemma_times_nothing(twice, b.x);
    lemma_times_nothing(twice, b.z);
    lemma_times_one(twice, b.y);
    // Nothing lies across.
    lemma_cross_finite(b, v);
    lemma_times_nothing(two(), w);
    let none = b.cross(v).scale(w.times(two()));
    lemma_times_nothing(b.cross(v).x, w.times(two()));
    lemma_times_nothing(b.cross(v).y, w.times(two()));
    lemma_times_nothing(b.cross(v).z, w.times(two()));
    lemma_plus_value(own.x, more.x, v.x.neg());
    lemma_plus_value(own.z, more.z, v.z.neg());
    lemma_plus_value(own.y, more.y, v.y);
    let sum = own.plus(more);
    lemma_plus_value(sum.x, none.x, v.x.neg());
    lemma_plus_value(sum.z, none.z, v.z.neg());
    lemma_plus_value(sum.y, none.y, v.y);
}

/// Whether a rotation is exactly half a turn about the Z axis.
pub open spec fn is_half_turn_z(q: Quat) -> bool {
    &&& q.z.magnitude() == one().magnitude()
    &&& q.x.magnitude() == 0
    &&& q.y.magnitude() == 0
    &&& q.w.magnitude() == 0
}

/// Half a turn about the Z axis keeps what lies along it and mirrors the rest.
proof fn lemma_half_turn_z(q: Quat, v: Vec3)
    requires
        is_half_turn_z(q),
        v.is_finite(),
        doubles(v.z),
    ensures
        q.rotate(v).is_finite(),
        q.rotate(v).z.value() == v.z.value(),
        q.rotate(v).x.value() == -v.x.value(),
        q.rotate(v).y.value() == -v.y.value(),
{
    let (b, w) = (q.axis(), q.w);
    let nothing = zero();
    // The factor of the vector itself is minus one.
    lemma_times_nothing(w, w);
    lemma_times_nothing(b.x, b.x);
    lemma_times_nothing(b.y, b.y);
    lemma_times_one(b.z, b.z);
    lemma_dot_single(b, b, one());
    lemma_plus_value(w.times(w), b.dot(b).neg(), one().neg());
    let k = w.times(w).minus(b.dot(b));
    lemma_order_is_value(k, one().neg());
    let own = v.scale(k);
    lemma_times_one(v.x, k);
    lemma_times_one(v.y, k);
    lemma_times_one(v.z, k);
    // What lies along the axis counts twice.
    lemma_times_nothing(v.x, b.x);
    lemma_times_nothing(v.y, b.y);
    lemma_times_one(v.z, b.z);
    let along = if b.z.signed() {
        v.z.neg()
    } else {
        v.z
    };
    lemma_dot_single(v, b, along);
    lemma_order_is_value(v.dot(b), along);
    lemma_times_two(v.dot(b), two());
    let twice = v.dot(b).times(two());
    let more = b.scale(twice);
    lemma_times_nothing(twice, b.x);
    lemma_times_nothing(twice, b.y);
    lemma_times_one(twice, b.z);
    // Nothing lies across.
    lemma_cross_finite(b, v);
    lemma_times_nothing(two(), w);
    let none = b.cross(v).scale(w.times(two()));
    lemma_times_nothing(b.cross(v).x, w.times(two()));
    lemma_times_nothing(b.cross(v).y, w.times(two()));
    lemma_times_nothing(b.cross(v).z, w.times(two()));
    lemma_plus_value(own.x, more.x, v.x.neg());
    lemma_plus_value(own.y, more.y, v.y.neg());
    lemma_plus_value(own.z, more.z, v.z);
    let sum = own.plus(more);
    lemma_plus_value(sum.x, none.x, v.x.neg());
    lemma_plus_value(sum.y, none.y, v.y.neg());
    lemma_plus_value(sum.z, none.z, v.z);
}

/// Where a viewpoint lies to a portal: `y` across its disc, `x` and `z` along it.
pub open spec fn place_before(viewer: Pose, portal: Pose) -> Vec3 {
    portal.rotation.inverse().rotate(viewer.translation.minus(portal.translation))
}

/// Where a viewpoint looks, as a portal lies.
pub open spec fn look_before(viewer: Pose, portal: Pose) -> Vec3 {
    portal.rotation.inverse().rotate(viewer.rotation.rotate(ahead()))
}

/// What is seen through a pair is seen from as far off the exit's disc as the viewer is
/// off the entry's, on the same side, and from across its middle. The look keeps what it
/// has along the discs' upward axis and is turned about it.
pub proof fn law_view_keeps_its_side(viewer: Pose, entry: Pose, exit: Pose, turns: HalfTurns)
    requires
        is_half_turn_y(turns.y),
        is_half_turn_z(turns.z),
        place_before(viewer, entry).is_finite(),
        doubles(place_before(viewer, entry).y),
        look_before(viewer, entry).is_finite(),
        doubles(look_before(viewer, entry).z),
    ensures
        ({
            let view = portal_virtual_transform(viewer, entry, exit, turns);
            let (before, behind) = (
                place_before(viewer, entry),
                turns.y.rotate(place_before(viewer, entry)),
            );
            let (look, out) = (
                look_before(viewer, entry),
                turns.z.rotate(look_before(viewer, entry)),
            );
            &&& view.position == exit.translation.plus(exit.rotation.rotate(behind))
            &&& behind.y.equals(before.y)
            &&& behind.x.equals(before.x.neg())
            &&& behind.z.equals(before.z.neg())
            &&& behind.y.gt(zero()) <==> before.y.gt(zero())
            &&& view.forward == exit.rotation.rotate(out)
            &&& out.x.equals(look.x.neg())
            &&& out.y.equals(look.y.neg())
            &&& out.z.equals(look.z)
        }),
{
    let before = place_before(viewer, entry);
    let behind = turns.y.rotate(before);
    lemma_half_turn_y(turns.y, before);
    lemma_order_is_value(behind.x, before.x.neg());
    lemma_order_is_value(behind.y, before.y);
    lemma_order_is_value(behind.z, before.z.neg());
    let look = look_before(viewer, entry);
    let out = turns.z.rotate(look);
    lemma_half_turn_z(turns.z, look);
    lemma_order_is_value(out.x, look.x.neg());
    lemma_order_is_value(out.y, look.y.neg());
    lemma_order_is_value(out.z, look.z);
}

/// Half a turn and another lead back: what a pair of portals mirrors, the way back
/// mirrors again.
pub proof fn law_two_half_turns_lead_back(turns: HalfTurns, v: Vec3)
    requires
        is_half_turn_y(turns.y),
        is_half_turn_z(turns.z),
        v.is_finite(),
        doubles(v.y),
        doubles(v.z),
    ensures
        turns.y.rotate(turns.y.rotate(v)).equals(v),
        turns.z.rotate(turns.z.rotate(v)).equals(v),
{
    let (a, b) = (turns.y.rotate(v), turns.z.rotate(v));
    lemma_half_turn_y(turns.y, v);
    lemma_order_is_value(a.y, v.y);
    lemma_half_turn_y(turns.y, a);
    let c = turns.y.rotate(a);
    lemma_order_is_value(c.x, v.x);
    lemma_order_is_value(c.y, v.y);
    lemma_order_is_value(c.z, v.z);
    lemma_half_turn_z(turns.z, v);
    lemma_order_is_value(b.z, v.z);
    lemma_half_turn_z(turns.z, b);
    let d = turns.z.rotate(b);
    lemma_order_is_value(d.x, v.x);
    lemma_order_is_value(d.y, v.y);
    lemma_order_is_value(d.z, v.z);
}

} // verus!

//! The colors of a character.
//!
//! A material of the model marks three regions, and each gets a color of its own.
//! There is a material for the body, and one for things.

use crate::entity::Entity;
use crate::net::protocol::{PlayerCustomization, Tints};
use crate::player::rig::{
    ancestor_has_body_marker, ancestor_has_remote_body, find_ancestor_customization, line_look,
    line_name, resolve_node_name, RigNode,
};
use crate::scalar::Scalar;
use crate::text::begins_with;
use vstd::prelude::*;

verus! {

/// How far to the front the eyes are drawn (`100.0`).
#[verifier::allow_in_spec]
pub fn eyes_depth_bias() -> Scalar
    returns
        (Scalar { bits: 0x42c8_0000 }),
{
    Scalar { bits: 0x42c8_0000 }
}

/// How far to the front the eyebrows are drawn (`50.0`).
#[verifier::allow_in_spec]
pub fn eyebrows_depth_bias() -> Scalar
    returns
        (Scalar { bits: 0x4248_0000 }),
{
    Scalar { bits: 0x4248_0000 }
}

/// How far to the front the mouth is drawn (`50.0`).
#[verifier::allow_in_spec]
pub fn mouth_depth_bias() -> Scalar
    returns
        (Scalar { bits: 0x4248_0000 }),
{
    Scalar { bits: 0x4248_0000 }
}

/// The colors of the player at this machine.
#[derive(Clone, Copy, Debug, PartialEq, Eq, Structural)]
pub struct CharacterColors {
    pub body: Tints,
    pub objects: Tints,
}

impl Default for CharacterColors {
    fn default() -> (r: CharacterColors)
        ensures
            r == (CharacterColors { body: Tints::first_body(), objects: Tints::first_objects() }),
    {
        CharacterColors { body: Tints::first_body(), objects: Tints::first_objects() }
    }
}

/// Which colors a part gets.
#[derive(Clone, Copy, Debug, PartialEq, Eq, Structural)]
pub enum RecolorSlot {
    Body,
    Objects,
}

/// Whose colors a part gets.
#[derive(Clone, Copy, Debug, PartialEq, Eq, Structural)]
pub enum RecolorOwner {
    Local,
    Remote(Entity),
}

/// A part that has got its colors.
#[derive(Clone, Copy, Debug, PartialEq, Eq, Structural)]
pub struct Recolored {
    pub slot: RecolorSlot,
    pub owner: RecolorOwner,
}

impl CharacterColors {
    pub open spec fn spec_tints_for(self, slot: RecolorSlot) -> Tints {
        match slot {
            RecolorSlot::Body => self.body,
            RecolorSlot::Objects => self.objects,
        }
    }

    /// The colors of a slot.
    #[verifier::when_used_as_spec(spec_tints_for)]
    pub fn tints_for(self, slot: RecolorSlot) -> (r: Tints)
        ensures
            r == self.spec_tints_for(slot),
    {
        match slot {
            RecolorSlot::Body => self.body,
            RecolorSlot::Objects => self.objects,
        }
    }
}

pub open spec fn spec_tints_from_customization(
    look: PlayerCustomization,
    slot: RecolorSlot,
) -> Tints {
    match slot {
        RecolorSlot::Body => look.body,
        RecolorSlot::Objects => look.objects,
    }
}

/// The colors of a slot.
#[verifier::when_used_as_spec(spec_tints_from_customization)]
pub fn tints_from_customization(look: PlayerCustomization, slot: RecolorSlot) -> (r: Tints)
    ensures
        r == spec_tints_from_customization(look, slot),
{
    match slot {
        RecolorSlot::Body => look.body,
        RecolorSlot::Objects => look.objects,
    }
}

/// How far to the front a part of the face is drawn.
pub open spec fn depth_bias(name: Seq<char>) -> Option<Scalar> {
    if "F_eyes"@.is_prefix_of(name) {
        Some(eyes_depth_bias())
    } else if "F_eyebrows"@.is_prefix_of(name) {
        Some(eyebrows_depth_bias())
    } else if "F_mouth"@.is_prefix_of(name) {
        Some(mouth_depth_bias())
    } else {
        None
    }
}

/// How far to the front a part of the face is drawn; other parts are not.
pub fn face_feature_depth_bias(name: &str) -> (r: Option<Scalar>)
    ensures
        r == depth_bias(name@),
{
    if begins_with(name, "F_eyes") {
        Some(eyes_depth_bias())
    } else if begins_with(name, "F_eyebrows") {
        Some(eyebrows_depth_bias())
    } else if begins_with(name, "F_mouth") {
        Some(mouth_depth_bias())
    } else {
        None
    }
}

/// Where the first name stands that begins with `prefix`; the length, if there is
/// none.
pub open spec fn place_with_prefix(names: Seq<String>, prefix: Seq<char>) -> int
    decreases names.len(),
{
    if names.len() == 0 || prefix.is_prefix_of(names[0]@) {
        0
    } else {
        1 + place_with_prefix(names.skip(1), prefix)
    }
}

/// The first material whose name begins with `prefix`, by its place.
pub fn find_material_with_prefix(names: &Vec<String>, prefix: &str) -> (r: Option<usize>)
    ensures
        match r {
            Some(i) => i < names@.len() && i == place_with_prefix(names@, prefix@),
            None => place_with_prefix(names@, prefix@) == names@.len(),
        },
{
    let mut i: usize = 0;
    assert(names@.skip(0) =~= names@);
    while i < names.len()
        invariant
            i <= names.len(),
            place_with_prefix(names@, prefix@) == i + place_with_prefix(
                names@.skip(i as int),
                prefix@,
            ),
        decreases names.len() - i,
    {
        assert(names@.skip(i as int).skip(1) =~= names@.skip(i + 1));
        if begins_with(names[i].as_str(), prefix) {
            return Some(i);
        }
        i += 1;
    }
    None
}

pub open spec fn spec_is_it(material: Option<u64>, this: u64) -> bool {
    match material {
        Some(material) => material == this,
        None => false,
    }
}

/// Whether a material that may be missing is this one.
#[verifier::when_used_as_spec(spec_is_it)]
pub fn is_it(material: Option<u64>, this: u64) -> (r: bool)
    ensures
        r == spec_is_it(material, this),
{
    match material {
        Some(material) => material == this,
        None => false,
    }
}

pub open spec fn spec_slot_of(
    material: u64,
    body: Option<u64>,
    objects: Option<u64>,
) -> Option<RecolorSlot> {
    if is_it(body, material) {
        Some(RecolorSlot::Body)
    } else if is_it(objects, material) {
        Some(RecolorSlot::Objects)
    } else {
        None
    }
}

/// Which colors a part made of `material` gets, if that is one of the two that
/// have regions.
#[verifier::when_used_as_spec(spec_slot_of)]
pub fn slot_of(material: u64, body: Option<u64>, objects: Option<u64>) -> (r: Option<RecolorSlot>)
    ensures
        r == spec_slot_of(material, body, objects),
{
    if is_it(body, material) {
        Some(RecolorSlot::Body)
    } else if is_it(objects, material) {
        Some(RecolorSlot::Objects)
    } else {
        None
    }
}

/// What is known of a part's material.
#[derive(Clone, Copy, Debug, PartialEq, Eq, Structural)]
pub enum Source {
    /// It is not there yet.
    Missing,
    /// It marks no regions.
    Unmarked,
    Marked,
}

/// What becomes of a part.
#[derive(Clone, Copy, Debug, PartialEq, Eq, Structural)]
pub enum Recoloring {
    /// It stays as it is.
    Leave,
    /// It stays as it is, and is not looked at again.
    Done(Recolored),
    /// It gets colors, and a place further to the front if it is part of a face.
    Swap { recolored: Recolored, tints: Tints, bias: Option<Scalar> },
}

pub open spec fn spec_recoloring(
    slot: RecolorSlot,
    owner: RecolorOwner,
    source: Source,
    tints: Tints,
    bias: Option<Scalar>,
) -> Recoloring {
    match source {
        Source::Missing => Recoloring::Leave,
        Source::Unmarked => Recoloring::Done(Recolored { slot, owner }),
        Source::Marked => Recoloring::Swap { recolored: Recolored { slot, owner }, tints, bias },
    }
}

/// What becomes of a part that gets these colors.
#[verifier::when_used_as_spec(spec_recoloring)]
pub fn recoloring(
    slot: RecolorSlot,
    owner: RecolorOwner,
    source: Source,
    tints: Tints,
    bias: Option<Scalar>,
) -> (r: Recoloring)
    ensures
        r == spec_recoloring(slot, owner, source, tints, bias),
{
    match source {
        Source::Missing => Recoloring::Leave,
        Source::Unmarked => Recoloring::Done(Recolored { slot, owner }),
        Source::Marked => Recoloring::Swap { recolored: Recolored { slot, owner }, tints, bias },
    }
}

/// What becomes of a part that has just appeared, if it belongs to the player at
/// this machine.
pub fn apply_recolor_materials(
    line: &Vec<RigNode>,
    material: u64,
    body: Option<u64>,
    objects: Option<u64>,
    source: Source,
    colors: CharacterColors,
) -> (r: Recoloring)
    ensures
        r == (if !(exists|i: int| 0 <= i < line@.len() && (#[trigger] line@[i]).local_body) {
            Recoloring::Leave
        } else {
            match slot_of(material, body, objects) {
                None => Recoloring::Leave,
                Some(slot) => recoloring(
                    slot,
                    RecolorOwner::Local,
                    source,
                    colors.tints_for(slot),
                    depth_bias(line_name(line@)),
                ),
            }
        }),
{
    if !ancestor_has_body_marker(line) {
        return Recoloring::Leave;
    }
    match slot_of(material, body, objects) {
        None => Recoloring::Leave,
        Some(slot) => {
            let name = resolve_node_name(line);
            recoloring(
                slot,
                RecolorOwner::Local,
                source,
                colors.tints_for(slot),
                face_feature_depth_bias(name.as_str()),
            )
        },
    }
}

/// What becomes of a part that has just appeared, if it belongs to another player
/// whose looks are known.
pub fn apply_remote_recolor_materials(
    line: &Vec<RigNode>,
    material: u64,
    body: Option<u64>,
    objects: Option<u64>,
    source: Source,
) -> (r: Recoloring)
    ensures
        r == (if !(exists|i: int| 0 <= i < line@.len() && (#[trigger] line@[i]).remote_body) {
            Recoloring::Leave
        } else {
            match (line_look(line@), slot_of(material, body, objects)) {
                (Some((player, look)), Some(slot)) => recoloring(
                    slot,
                    RecolorOwner::Remote(player),
                    source,
                    tints_from_customization(look, slot),
                    depth_bias(line_name(line@)),
                ),
                _ => Recoloring::Leave,
            }
        }),
{
    if !ancestor_has_remote_body(line) {
        return Recoloring::Leave;
    }
    match (find_ancestor_customization(line), slot_of(material, body, objects)) {
        (Some((player, look)), Some(slot)) => {
            let name = resolve_node_name(line);
            recoloring(
                slot,
                RecolorOwner::Remote(player),
                source,
                tints_from_customization(look, slot),
                face_feature_depth_bias(name.as_str()),
            )
        },
        _ => Recoloring::Leave,
    }
}

pub open spec fn spec_refresh_tints_on_change(
    part: Recolored,
    colors: CharacterColors,
) -> Option<Tints> {
    match part.owner {
        RecolorOwner::Local => Some(colors.tints_for(part.slot)),
        RecolorOwner::Remote(_) => None,
    }
}

/// The new colors of a part when the player at this machine picks others: none for
/// the parts of other players.
#[verifier::when_used_as_spec(spec_refresh_tints_on_change)]
pub fn refresh_tints_on_change(part: Recolored, colors: CharacterColors) -> (r: Option<Tints>)
    ensures
        r == spec_refresh_tints_on_change(part, colors),
{
    match part.owner {
        RecolorOwner::Local => Some(colors.tints_for(part.slot)),
        RecolorOwner::Remote(_) => None,
    }
}

/// A player who looks different now.
#[derive(Clone, Copy, Debug, PartialEq, Eq, Structural)]
pub struct ChangedLook {
    pub player: Entity,
    pub look: PlayerCustomization,
}

/// The new looks of a player, if they have changed.
pub open spec fn look_of(changed: Seq<ChangedLook>, player: Entity) -> Option<PlayerCustomization>
    decreases changed.len(),
{
    if changed.len() == 0 {
        None
    } else if changed[0].player == player {
        Some(changed[0].look)
    } else {
        look_of(changed.skip(1), player)
    }
}

/// The new colors of a part when other players pick others: none for the parts of
/// the player at this machine.
pub fn refresh_remote_tints_on_change(part: Recolored, changed: &Vec<ChangedLook>) -> (r: Option<
    Tints,
>)
    ensures
        r == (match part.owner {
            RecolorOwner::Local => None,
            RecolorOwner::Remote(player) => match look_of(changed@, player) {
                Some(look) => Some(tints_from_customization(look, part.slot)),
                None => None,
            },
        }),
{
    let player = match part.owner {
        RecolorOwner::Local => {
            return None;
        },
        RecolorOwner::Remote(player) => player,
    };
    let mut i: usize = 0;
    assert(changed@.skip(0) =~= changed@);
    while i < changed.len()
        invariant
            i <= changed.len(),
            part.owner == RecolorOwner::Remote(player),
            look_of(changed@, player) == look_of(changed@.skip(i as int), player),
        decreases changed.len() - i,
    {
        assert(changed@.skip(i as int).skip(1) =~= changed@.skip(i + 1));
        if changed[i].player == player {
            return Some(tints_from_customization(changed[i].look, part.slot));
        }
        i += 1;
    }
    None
}

} // verus!

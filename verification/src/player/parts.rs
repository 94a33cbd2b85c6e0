//! What a character wears: which parts of the one model are shown.
//!
//! The model holds every outfit at once. A selection names one variant for each
//! slot, and a part of the model is shown just if it belongs to the variant
//! selected for its slot. What nobody can select is not shown, and what no slot
//! knows always is.

use crate::table::same_text;
use crate::text::{begins_with, number_from};
use vstd::prelude::*;
use vstd::string::StrSliceExecFns;

verus! {

/// A choice that there is about a character.
#[derive(Clone, Copy, Debug, PartialEq, Eq, Structural)]
pub enum Slot {
    Top,
    Bottom,
    Headwear,
    Hair,
    Eyes,
    Eyebrows,
    Mouth,
}

/// Which variant is selected for each slot.
#[derive(Clone, Copy, Debug, PartialEq, Eq, Structural)]
pub struct PartSelection {
    pub top: u8,
    pub bottom: u8,
    pub headwear: u8,
    pub hair: u8,
    pub eyes: u8,
    pub eyebrows: u8,
    pub mouth: u8,
}

impl Default for PartSelection {
    fn default() -> (r: PartSelection)
        ensures
            r == PartSelection::starter(),
    {
        PartSelection::starter()
    }
}

/// How many slots there are.
pub const SLOTS: usize = 7;

pub open spec fn spec_slot_at(i: usize) -> Slot {
    match i {
        0 => Slot::Top,
        1 => Slot::Bottom,
        2 => Slot::Headwear,
        3 => Slot::Hair,
        4 => Slot::Eyes,
        5 => Slot::Eyebrows,
        _ => Slot::Mouth,
    }
}

/// The slots, in the order in which they are offered.
#[verifier::when_used_as_spec(spec_slot_at)]
pub fn slot_at(i: usize) -> (r: Slot)
    ensures
        r == spec_slot_at(i),
{
    match i {
        0 => Slot::Top,
        1 => Slot::Bottom,
        2 => Slot::Headwear,
        3 => Slot::Hair,
        4 => Slot::Eyes,
        5 => Slot::Eyebrows,
        _ => Slot::Mouth,
    }
}

impl Slot {
    pub open spec fn spec_display(self) -> &'static str {
        match self {
            Slot::Top => "Top",
            Slot::Bottom => "Bottom",
            Slot::Headwear => "Headwear",
            Slot::Hair => "Hair",
            Slot::Eyes => "Eyes",
            Slot::Eyebrows => "Eyebrows",
            Slot::Mouth => "Mouth",
        }
    }

    /// What the slot is called.
    #[verifier::when_used_as_spec(spec_display)]
    pub fn display(self) -> (r: &'static str)
        ensures
            r == self.spec_display(),
    {
        match self {
            Slot::Top => "Top",
            Slot::Bottom => "Bottom",
            Slot::Headwear => "Headwear",
            Slot::Hair => "Hair",
            Slot::Eyes => "Eyes",
            Slot::Eyebrows => "Eyebrows",
            Slot::Mouth => "Mouth",
        }
    }
}

pub open spec fn spec_top_label(i: u8) -> &'static str {
    match i {
        0 => "Witch",
        1 => "Archer",
        2 => "Fighter",
        3 => "Hunter",
        4 => "Knight",
        5 => "Mage",
        6 => "Rogue",
        7 => "Sorcerer",
        8 => "Swordsman",
        _ => "?",
    }
}

/// The tops.
#[verifier::when_used_as_spec(spec_top_label)]
pub fn top_label(i: u8) -> (r: &'static str)
    ensures
        r == spec_top_label(i),
{
    match i {
        0 => "Witch",
        1 => "Archer",
        2 => "Fighter",
        3 => "Hunter",
        4 => "Knight",
        5 => "Mage",
        6 => "Rogue",
        7 => "Sorcerer",
        8 => "Swordsman",
        _ => "?",
    }
}

pub open spec fn spec_top_mesh(i: u8) -> Option<&'static str> {
    match i {
        0 => Some("F_Witch_Top"),
        1 => Some("F_Archer_Top"),
        2 => Some("F_Fighter_Top"),
        3 => Some("F_Hunter_Top"),
        4 => Some("F_Knight_Top"),
        5 => Some("F_Mage_Top"),
        6 => Some("F_Rogue_Top"),
        7 => Some("F_Sorcerer_Top"),
        8 => Some("F_Swordsman_Top"),
        _ => None,
    }
}

/// What a top consists of.
#[verifier::when_used_as_spec(spec_top_mesh)]
pub fn top_mesh(i: u8) -> (r: Option<&'static str>)
    ensures
        r == spec_top_mesh(i),
{
    match i {
        0 => Some("F_Witch_Top"),
        1 => Some("F_Archer_Top"),
        2 => Some("F_Fighter_Top"),
        3 => Some("F_Hunter_Top"),
        4 => Some("F_Knight_Top"),
        5 => Some("F_Mage_Top"),
        6 => Some("F_Rogue_Top"),
        7 => Some("F_Sorcerer_Top"),
        8 => Some("F_Swordsman_Top"),
        _ => None,
    }
}

pub open spec fn spec_top_addition(i: u8) -> Option<&'static str> {
    match i {
        4 => Some("F_Knight_Pauldrons"),
        _ => None,
    }
}

/// What else goes with a top.
#[verifier::when_used_as_spec(spec_top_addition)]
pub fn top_addition(i: u8) -> (r: Option<&'static str>)
    ensures
        r == spec_top_addition(i),
{
    match i {
        4 => Some("F_Knight_Pauldrons"),
        _ => None,
    }
}

pub open spec fn spec_bottom_label(i: u8) -> &'static str {
    match i {
        0 => "Witch",
        1 => "Archer",
        2 => "Fighter",
        3 => "Hunter",
        4 => "Knight",
        5 => "Mage",
        6 => "Rogue",
        7 => "Sorcerer",
        8 => "Swordsman",
        _ => "?",
    }
}

/// The bottoms.
#[verifier::when_used_as_spec(spec_bottom_label)]
pub fn bottom_label(i: u8) -> (r: &'static str)
    ensures
        r == spec_bottom_label(i),
{
    match i {
        0 => "Witch",
        1 => "Archer",
        2 => "Fighter",
        3 => "Hunter",
        4 => "Knight",
        5 => "Mage",
        6 => "Rogue",
        7 => "Sorcerer",
        8 => "Swordsman",
        _ => "?",
    }
}

pub open spec fn spec_bottom_mesh(i: u8) -> Option<&'static str> {
    match i {
        0 => Some("F_Witch_Bottom"),
        1 => Some("F_Archer_Bottom"),
        2 => Some("F_Fighter_Bottom"),
        3 => Some("F_Hunter_Bottom"),
        4 => Some("F_Knight_Bottom"),
        5 => Some("F_Mage_Bottom"),
        6 => Some("F_Rogue_Bottom"),
        7 => Some("F_Sorcerer_Bottom"),
        8 => Some("F_Swordsman_Bottom"),
        _ => None,
    }
}

/// What a bottom consists of.
#[verifier::when_used_as_spec(spec_bottom_mesh)]
pub fn bottom_mesh(i: u8) -> (r: Option<&'static str>)
    ensures
        r == spec_bottom_mesh(i),
{
    match i {
        0 => Some("F_Witch_Bottom"),
        1 => Some("F_Archer_Bottom"),
        2 => Some("F_Fighter_Bottom"),
        3 => Some("F_Hunter_Bottom"),
        4 => Some("F_Knight_Bottom"),
        5 => Some("F_Mage_Bottom"),
        6 => Some("F_Rogue_Bottom"),
        7 => Some("F_Sorcerer_Bottom"),
        8 => Some("F_Swordsman_Bottom"),
        _ => None,
    }
}

pub open spec fn spec_bottom_addition(i: u8) -> Option<&'static str> {
    match i {
        4 => Some("F_Knight_Skirt"),
        7 => Some("F_Sorcerer_Shoes"),
        _ => None,
    }
}

/// What else goes with a bottom.
#[verifier::when_used_as_spec(spec_bottom_addition)]
pub fn bottom_addition(i: u8) -> (r: Option<&'static str>)
    ensures
        r == spec_bottom_addition(i),
{
    match i {
        4 => Some("F_Knight_Skirt"),
        7 => Some("F_Sorcerer_Shoes"),
        _ => None,
    }
}

pub open spec fn spec_headwear_label(i: u8) -> &'static str {
    match i {
        0 => "None",
        1 => "Witch Hat",
        2 => "Mage Hood",
        3 => "Archer Bycocket",
        4 => "Hunter Beret",
        5 => "Knight Helmet",
        6 => "Swordsman Kettle",
        7 => "Sorcerer Circlet",
        8 => "Fighter Coif",
        9 => "Rogue Mask",
        _ => "?",
    }
}

/// What goes on the head.
#[verifier::when_used_as_spec(spec_headwear_label)]
pub fn headwear_label(i: u8) -> (r: &'static str)
    ensures
        r == spec_headwear_label(i),
{
    match i {
        0 => "None",
        1 => "Witch Hat",
        2 => "Mage Hood",
        3 => "Archer Bycocket",
        4 => "Hunter Beret",
        5 => "Knight Helmet",
        6 => "Swordsman Kettle",
        7 => "Sorcerer Circlet",
        8 => "Fighter Coif",
        9 => "Rogue Mask",
        _ => "?",
    }
}

pub open spec fn spec_headwear_mesh(i: u8) -> Option<&'static str> {
    match i {
        1 => Some("F_Witch_Headwear"),
        2 => Some("F_Mage_Headwear"),
        3 => Some("F_Archer_BycocketHat"),
        4 => Some("F_Hunter_Beret"),
        5 => Some("F_Knight_ArmetHelmet"),
        6 => Some("F_Swordsman_KettleHat"),
        7 => Some("F_Sorcerer_Circlet"),
        8 => Some("F_Fighter_LeatherCoif"),
        9 => Some("F_Rogue_FaceMask"),
        _ => None,
    }
}

/// What goes on the head consists of this.
#[verifier::when_used_as_spec(spec_headwear_mesh)]
pub fn headwear_mesh(i: u8) -> (r: Option<&'static str>)
    ensures
        r == spec_headwear_mesh(i),
{
    match i {
        1 => Some("F_Witch_Headwear"),
        2 => Some("F_Mage_Headwear"),
        3 => Some("F_Archer_BycocketHat"),
        4 => Some("F_Hunter_Beret"),
        5 => Some("F_Knight_ArmetHelmet"),
        6 => Some("F_Swordsman_KettleHat"),
        7 => Some("F_Sorcerer_Circlet"),
        8 => Some("F_Fighter_LeatherCoif"),
        9 => Some("F_Rogue_FaceMask"),
        _ => None,
    }
}

pub open spec fn spec_headwear_addition(i: u8) -> Option<&'static str> {
    match i {
        5 => Some("F_Knight_ArmetHelmet_Visor"),
        9 => Some("F_Rogue_FaceMask_NeckWrap"),
        _ => None,
    }
}

/// What else goes with what is on the head.
#[verifier::when_used_as_spec(spec_headwear_addition)]
pub fn headwear_addition(i: u8) -> (r: Option<&'static str>)
    ensures
        r == spec_headwear_addition(i),
{
    match i {
        5 => Some("F_Knight_ArmetHelmet_Visor"),
        9 => Some("F_Rogue_FaceMask_NeckWrap"),
        _ => None,
    }
}

pub open spec fn spec_hair_label(i: u8) -> &'static str {
    match i {
        0 => "None",
        1 => "Hair 1",
        2 => "Hair 1b",
        3 => "Hair 14b Bun",
        _ => "?",
    }
}

/// The hair.
#[verifier::when_used_as_spec(spec_hair_label)]
pub fn hair_label(i: u8) -> (r: &'static str)
    ensures
        r == spec_hair_label(i),
{
    match i {
        0 => "None",
        1 => "Hair 1",
        2 => "Hair 1b",
        3 => "Hair 14b Bun",
        _ => "?",
    }
}

pub open spec fn spec_hair_mesh(i: u8) -> Option<&'static str> {
    match i {
        1 => Some("F_hair_1"),
        2 => Some("F_hair_1b"),
        3 => Some("F_hair_14b_Bun"),
        _ => None,
    }
}

/// What the hair consists of.
#[verifier::when_used_as_spec(spec_hair_mesh)]
pub fn hair_mesh(i: u8) -> (r: Option<&'static str>)
    ensures
        r == spec_hair_mesh(i),
{
    match i {
        1 => Some("F_hair_1"),
        2 => Some("F_hair_1b"),
        3 => Some("F_hair_14b_Bun"),
        _ => None,
    }
}

pub open spec fn spec_cape_mesh(i: u8) -> Option<&'static str> {
    match i {
        0 => Some("F_Witch_Cape"),
        1 => Some("F_Witch_Choker"),
        2 => Some("F_Archer_Cape"),
        3 => Some("F_Mage_Cape"),
        4 => Some("F_Mage_Scarf"),
        5 => Some("F_Sorcerer_Shawl"),
        _ => None,
    }
}

/// What hangs from the shoulders. It is never shown.
#[verifier::when_used_as_spec(spec_cape_mesh)]
pub fn cape_mesh(i: u8) -> (r: Option<&'static str>)
    ensures
        r == spec_cape_mesh(i),
{
    match i {
        0 => Some("F_Witch_Cape"),
        1 => Some("F_Witch_Choker"),
        2 => Some("F_Archer_Cape"),
        3 => Some("F_Mage_Cape"),
        4 => Some("F_Mage_Scarf"),
        5 => Some("F_Sorcerer_Shawl"),
        _ => None,
    }
}

pub open spec fn spec_weapon_mesh(i: u8) -> Option<&'static str> {
    match i {
        0 => Some("F_Witch_Staff"),
        1 => Some("F_Mage_Staff"),
        2 => Some("F_Sorcerer_Staff"),
        3 => Some("F_Archer_Bow"),
        4 => Some("F_Archer_Arrow"),
        5 => Some("F_Archer_ArrowQuiver"),
        6 => Some("F_Hunter_Bow"),
        7 => Some("F_Hunter_Arrow"),
        8 => Some("F_Hunter_ArrowQuiver"),
        9 => Some("F_Fighter_Sword"),
        10 => Some("F_Fighter_SwordScabbard"),
        11 => Some("F_Knight_Sword"),
        12 => Some("F_Knight_SwordScabbard"),
        13 => Some("F_Knight_Dagger"),
        14 => Some("F_Knight_DaggerScabbard"),
        15 => Some("F_Swordsman_Sword"),
        16 => Some("F_Swordsman_SwordScabbard"),
        17 => Some("F_Rogue_Dagger"),
        18 => Some("F_Rogue_DaggerScabbard"),
        _ => None,
    }
}

/// What a character could hold. It is never shown here.
#[verifier::when_used_as_spec(spec_weapon_mesh)]
pub fn weapon_mesh(i: u8) -> (r: Option<&'static str>)
    ensures
        r == spec_weapon_mesh(i),
{
    match i {
        0 => Some("F_Witch_Staff"),
        1 => Some("F_Mage_Staff"),
        2 => Some("F_Sorcerer_Staff"),
        3 => Some("F_Archer_Bow"),
        4 => Some("F_Archer_Arrow"),
        5 => Some("F_Archer_ArrowQuiver"),
        6 => Some("F_Hunter_Bow"),
        7 => Some("F_Hunter_Arrow"),
        8 => Some("F_Hunter_ArrowQuiver"),
        9 => Some("F_Fighter_Sword"),
        10 => Some("F_Fighter_SwordScabbard"),
        11 => Some("F_Knight_Sword"),
        12 => Some("F_Knight_SwordScabbard"),
        13 => Some("F_Knight_Dagger"),
        14 => Some("F_Knight_DaggerScabbard"),
        15 => Some("F_Swordsman_Sword"),
        16 => Some("F_Swordsman_SwordScabbard"),
        17 => Some("F_Rogue_Dagger"),
        18 => Some("F_Rogue_DaggerScabbard"),
        _ => None,
    }
}

pub open spec fn spec_eyes_label(i: u8) -> &'static str {
    match i {
        0 => "Eyes 0",
        _ => "?",
    }
}

/// The eyes.
#[verifier::when_used_as_spec(spec_eyes_label)]
pub fn eyes_label(i: u8) -> (r: &'static str)
    ensures
        r == spec_eyes_label(i),
{
    match i {
        0 => "Eyes 0",
        _ => "?",
    }
}

pub open spec fn spec_eyebrows_label(i: u8) -> &'static str {
    match i {
        0 => "Eyebrows 0",
        _ => "?",
    }
}

/// The eyebrows.
#[verifier::when_used_as_spec(spec_eyebrows_label)]
pub fn eyebrows_label(i: u8) -> (r: &'static str)
    ensures
        r == spec_eyebrows_label(i),
{
    match i {
        0 => "Eyebrows 0",
        _ => "?",
    }
}

pub open spec fn spec_mouth_label(i: u8) -> &'static str {
    match i {
        0 => "Mouth 0",
        _ => "?",
    }
}

/// The mouths.
#[verifier::when_used_as_spec(spec_mouth_label)]
pub fn mouth_label(i: u8) -> (r: &'static str)
    ensures
        r == spec_mouth_label(i),
{
    match i {
        0 => "Mouth 0",
        _ => "?",
    }
}

pub open spec fn spec_outfit_mesh(slot: Slot, i: u8) -> Option<&'static str> {
    match slot {
        Slot::Top => top_mesh(i),
        Slot::Bottom => bottom_mesh(i),
        Slot::Headwear => headwear_mesh(i),
        _ => None,
    }
}

/// The first part of a variant of an outfit.
#[verifier::when_used_as_spec(spec_outfit_mesh)]
pub fn outfit_mesh(slot: Slot, i: u8) -> (r: Option<&'static str>)
    ensures
        r == spec_outfit_mesh(slot, i),
{
    match slot {
        Slot::Top => top_mesh(i),
        Slot::Bottom => bottom_mesh(i),
        Slot::Headwear => headwear_mesh(i),
        _ => None,
    }
}

pub open spec fn spec_outfit_addition(slot: Slot, i: u8) -> Option<&'static str> {
    match slot {
        Slot::Top => top_addition(i),
        Slot::Bottom => bottom_addition(i),
        Slot::Headwear => headwear_addition(i),
        _ => None,
    }
}

/// The second part of a variant of an outfit, for those that have two.
#[verifier::when_used_as_spec(spec_outfit_addition)]
pub fn outfit_addition(slot: Slot, i: u8) -> (r: Option<&'static str>)
    ensures
        r == spec_outfit_addition(slot, i),
{
    match slot {
        Slot::Top => top_addition(i),
        Slot::Bottom => bottom_addition(i),
        Slot::Headwear => headwear_addition(i),
        _ => None,
    }
}

/// Whether this is the part with that name.
pub open spec fn is_named(part: Option<&str>, name: Seq<char>) -> bool {
    part is Some && part->Some_0@ == name
}

fn has_name(part: Option<&str>, name: &str) -> (r: bool)
    ensures
        r == is_named(part, name@),
{
    match part {
        Some(part) => same_text(part, name),
        None => false,
    }
}

/// Whether a part belongs to a variant of an outfit.
pub open spec fn in_variant(slot: Slot, i: u8, name: Seq<char>) -> bool {
    is_named(outfit_mesh(slot, i), name) || is_named(outfit_addition(slot, i), name)
}

/// Whether a part belongs to some variant of an outfit.
pub open spec fn in_outfit(slot: Slot, name: Seq<char>) -> bool {
    exists|i: u8| i < PartSelection::variant_count(slot) && #[trigger] in_variant(slot, i, name)
}

/// Whether a part is one that nobody can select.
pub open spec fn is_reserved(name: Seq<char>) -> bool {
    ||| name == "F_BottomBody"@
    ||| name == "F_TopBody"@
    ||| exists|i: u8| #[trigger] is_named(cape_mesh(i), name)
    ||| exists|i: u8| #[trigger] is_named(weapon_mesh(i), name)
}

/// Whether the rest of a name is the number of the selected variant, which must
/// be one of `count`.
pub open spec fn is_number(rest: Seq<char>, selected: u8, count: usize) -> bool {
    selected < count && crate::text::number_in(rest, 255) == Some(selected as nat)
}

fn is_indexed_match(name: &str, from: usize, selected: u8, count: usize) -> (r: bool)
    requires
        from <= name@.len(),
    ensures
        r == is_number(name@.skip(from as int), selected, count),
{
    match number_from(name, from, 255) {
        Some(n) => (n as usize) < count && n == selected as u32,
        None => false,
    }
}

fn is_cape(name: &str) -> (r: bool)
    ensures
        r == exists|i: u8| #[trigger] is_named(cape_mesh(i), name@),
{
    let mut i: u8 = 0;
    while i < 6
        invariant
            i <= 6,
            forall|j: u8| j < i ==> !(#[trigger] is_named(cape_mesh(j), name@)),
        decreases 6 - i,
    {
        if has_name(cape_mesh(i), name) {
            assert(is_named(cape_mesh(i), name@));
            return true;
        }
        i += 1;
    }
    assert forall|j: u8| !(#[trigger] is_named(cape_mesh(j), name@)) by {
        if j >= 6 {
            assert(cape_mesh(j) is None);
        }
    }
    false
}

fn is_weapon(name: &str) -> (r: bool)
    ensures
        r == exists|i: u8| #[trigger] is_named(weapon_mesh(i), name@),
{
    let mut i: u8 = 0;
    while i < 19
        invariant
            i <= 19,
            forall|j: u8| j < i ==> !(#[trigger] is_named(weapon_mesh(j), name@)),
        decreases 19 - i,
    {
        if has_name(weapon_mesh(i), name) {
            assert(is_named(weapon_mesh(i), name@));
            return true;
        }
        i += 1;
    }
    assert forall|j: u8| !(#[trigger] is_named(weapon_mesh(j), name@)) by {
        if j >= 19 {
            assert(weapon_mesh(j) is None);
        }
    }
    false
}

/// Whether a part of an outfit is shown, if it is one of the slot's.
pub open spec fn outfit_visibility(slot: Slot, selected: u8, name: Seq<char>) -> Option<bool> {
    if in_outfit(slot, name) {
        Some(in_variant(slot, selected, name))
    } else {
        None
    }
}

fn decide_outfit_visibility(slot: Slot, selected: u8, name: &str) -> (r: Option<bool>)
    requires
        PartSelection::variant_count(slot) <= 100,
    ensures
        r == outfit_visibility(slot, selected, name@),
{
    let count = PartSelection::variant_count(slot);
    let mut found = false;
    let mut i: u8 = 0;
    while (i as usize) < count
        invariant
            i <= count <= 100,
            count == PartSelection::variant_count(slot),
            found == exists|j: u8| j < i && #[trigger] in_variant(slot, j, name@),
        decreases count - i,
    {
        let here = has_name(outfit_mesh(slot, i), name) || has_name(outfit_addition(slot, i), name);
        assert(here == in_variant(slot, i, name@));
        if here {
            found = true;
        }
        i += 1;
    }
    if found {
        let shown = has_name(outfit_mesh(slot, selected), name) || has_name(
            outfit_addition(slot, selected),
            name,
        );
        Some(shown)
    } else {
        None
    }
}

impl PartSelection {
    pub open spec fn spec_starter() -> PartSelection {
        PartSelection {
            top: 0,
            bottom: 0,
            headwear: 1,
            hair: 1,
            eyes: 0,
            eyebrows: 0,
            mouth: 0,
        }
    }

    /// What a character wears at first.
    #[verifier::when_used_as_spec(spec_starter)]
    pub fn starter() -> (r: PartSelection)
        ensures
            r == Self::spec_starter(),
    {
        PartSelection {
            top: 0,
            bottom: 0,
            headwear: 1,
            hair: 1,
            eyes: 0,
            eyebrows: 0,
            mouth: 0,
        }
    }

    pub open spec fn spec_index_for(self, slot: Slot) -> u8 {
        match slot {
            Slot::Top => self.top,
            Slot::Bottom => self.bottom,
            Slot::Headwear => self.headwear,
            Slot::Hair => self.hair,
            Slot::Eyes => self.eyes,
            Slot::Eyebrows => self.eyebrows,
            Slot::Mouth => self.mouth,
        }
    }

    /// The variant selected for a slot.
    #[verifier::when_used_as_spec(spec_index_for)]
    pub fn index_for(self, slot: Slot) -> (r: u8)
        ensures
            r == self.spec_index_for(slot),
    {
        match slot {
            Slot::Top => self.top,
            Slot::Bottom => self.bottom,
            Slot::Headwear => self.headwear,
            Slot::Hair => self.hair,
            Slot::Eyes => self.eyes,
            Slot::Eyebrows => self.eyebrows,
            Slot::Mouth => self.mouth,
        }
    }

    pub open spec fn spec_variant_count(slot: Slot) -> usize {
        match slot {
            Slot::Top => 9,
            Slot::Bottom => 9,
            Slot::Headwear => 10,
            Slot::Hair => 4,
            Slot::Eyes => 1,
            Slot::Eyebrows => 1,
            Slot::Mouth => 1,
        }
    }

    /// How many variants a slot has.
    #[verifier::when_used_as_spec(spec_variant_count)]
    pub fn variant_count(slot: Slot) -> (r: usize)
        ensures
            r == Self::spec_variant_count(slot),
    {
        match slot {
            Slot::Top => 9,
            Slot::Bottom => 9,
            Slot::Headwear => 10,
            Slot::Hair => 4,
            Slot::Eyes => 1,
            Slot::Eyebrows => 1,
            Slot::Mouth => 1,
        }
    }

    pub open spec fn spec_with_index(self, slot: Slot, i: u8) -> PartSelection {
        match slot {
            Slot::Top => PartSelection { top: i, ..self },
            Slot::Bottom => PartSelection { bottom: i, ..self },
            Slot::Headwear => PartSelection { headwear: i, ..self },
            Slot::Hair => PartSelection { hair: i, ..self },
            Slot::Eyes => PartSelection { eyes: i, ..self },
            Slot::Eyebrows => PartSelection { eyebrows: i, ..self },
            Slot::Mouth => PartSelection { mouth: i, ..self },
        }
    }

    /// The selection with another variant for one slot.
    #[verifier::when_used_as_spec(spec_with_index)]
    pub fn with_index(self, slot: Slot, i: u8) -> (r: PartSelection)
        ensures
            r == self.spec_with_index(slot, i),
    {
        match slot {
            Slot::Top => PartSelection { top: i, ..self },
            Slot::Bottom => PartSelection { bottom: i, ..self },
            Slot::Headwear => PartSelection { headwear: i, ..self },
            Slot::Hair => PartSelection { hair: i, ..self },
            Slot::Eyes => PartSelection { eyes: i, ..self },
            Slot::Eyebrows => PartSelection { eyebrows: i, ..self },
            Slot::Mouth => PartSelection { mouth: i, ..self },
        }
    }

    /// The variant `dir` further on for a slot, or back; round from the last one
    /// to the first.
    pub open spec fn turned(self, slot: Slot, dir: int) -> PartSelection {
        self.with_index(
            slot,
            ((self.index_for(slot) + dir) % (Self::variant_count(slot) as int)) as u8,
        )
    }

    /// Selects the variant `dir` further on for a slot, or back; round from the
    /// last one to the first.
    pub fn advance(&mut self, slot: Slot, dir: i32)
        requires
            old(self).index_for(slot) + dir <= i32::MAX,
        ensures
            *final(self) == old(self).turned(slot, dir as int),
    {
        let count = PartSelection::variant_count(slot) as i32;
        let at = self.index_for(slot) as i32 + dir;
        match at.checked_rem_euclid(count) {
            Some(next) => {
                *self = self.with_index(slot, next as u8);
            },
            None => {},
        }
    }

    pub open spec fn spec_label(self, slot: Slot) -> &'static str {
        match slot {
            Slot::Top => top_label(self.top),
            Slot::Bottom => bottom_label(self.bottom),
            Slot::Headwear => headwear_label(self.headwear),
            Slot::Hair => hair_label(self.hair),
            Slot::Eyes => eyes_label(self.eyes),
            Slot::Eyebrows => eyebrows_label(self.eyebrows),
            Slot::Mouth => mouth_label(self.mouth),
        }
    }

    /// What the variant selected for a slot is called.
    #[verifier::when_used_as_spec(spec_label)]
    pub fn label(self, slot: Slot) -> (r: &'static str)
        ensures
            r == self.spec_label(slot),
    {
        match slot {
            Slot::Top => top_label(self.top),
            Slot::Bottom => bottom_label(self.bottom),
            Slot::Headwear => headwear_label(self.headwear),
            Slot::Hair => hair_label(self.hair),
            Slot::Eyes => eyes_label(self.eyes),
            Slot::Eyebrows => eyebrows_label(self.eyebrows),
            Slot::Mouth => mouth_label(self.mouth),
        }
    }

    /// Whether a part of the model is shown.
    pub open spec fn shows(self, name: Seq<char>) -> bool {
        if is_reserved(name) {
            false
        } else if "F_eyes"@.is_prefix_of(name) {
            is_number(name.skip(6), self.eyes, Self::variant_count(Slot::Eyes))
        } else if "F_eyebrows"@.is_prefix_of(name) {
            is_number(name.skip(10), self.eyebrows, Self::variant_count(Slot::Eyebrows))
        } else if "F_mouth"@.is_prefix_of(name) {
            is_number(name.skip(7), self.mouth, Self::variant_count(Slot::Mouth))
        } else if "F_hair"@.is_prefix_of(name) {
            is_named(hair_mesh(self.hair), name)
        } else {
            match (
                outfit_visibility(Slot::Top, self.top, name),
                outfit_visibility(Slot::Bottom, self.bottom, name),
                outfit_visibility(Slot::Headwear, self.headwear, name),
            ) {
                (Some(shown), _, _) => shown,
                (None, Some(shown), _) => shown,
                (None, None, Some(shown)) => shown,
                (None, None, None) => true,
            }
        }
    }

    /// Whether a part of the model is shown.
    pub fn is_visible(&self, name: &str) -> (r: bool)
        ensures
            r == self.shows(name@),
    {
        proof {
            reveal_strlit("F_eyes");
            reveal_strlit("F_eyebrows");
            reveal_strlit("F_mouth");
        }
        if same_text(name, "F_BottomBody") || same_text(name, "F_TopBody") {
            return false;
        }
        if is_weapon(name) || is_cape(name) {
            return false;
        }
        if begins_with(name, "F_eyes") {
            return is_indexed_match(name, 6, self.eyes, PartSelection::variant_count(Slot::Eyes));
        }
        if begins_with(name, "F_eyebrows") {
            return is_indexed_match(
                name,
                10,
                self.eyebrows,
                PartSelection::variant_count(Slot::Eyebrows),
            );
        }
        if begins_with(name, "F_mouth") {
            return is_indexed_match(name, 7, self.mouth, PartSelection::variant_count(Slot::Mouth));
        }
        if begins_with(name, "F_hair") {
            return has_name(hair_mesh(self.hair), name);
        }
        match decide_outfit_visibility(Slot::Top, self.top, name) {
            Some(shown) => {
                return shown;
            },
            None => {},
        }
        match decide_outfit_visibility(Slot::Bottom, self.bottom, name) {
            Some(shown) => {
                return shown;
            },
            None => {},
        }
        match decide_outfit_visibility(Slot::Headwear, self.headwear, name) {
            Some(shown) => {
                return shown;
            },
            None => {},
        }
        true
    }
}

/// Going on and back by as much selects what was selected.
pub proof fn law_advance_and_back(selection: PartSelection, slot: Slot, dir: int)
    requires
        selection.index_for(slot) < PartSelection::variant_count(slot),
    ensures
        selection.turned(slot, dir).turned(slot, -dir) == selection,
{
    let n = PartSelection::variant_count(slot) as int;
    let i = selection.index_for(slot) as int;
    let j = (i + dir) % n;
    assert(0 <= j < n);
    vstd::arithmetic::div_mod::lemma_sub_mod_noop(i + dir, dir, n);
    vstd::arithmetic::div_mod::lemma_sub_mod_noop((i + dir) % n, dir, n);
    vstd::arithmetic::div_mod::lemma_mod_twice(i + dir, n);
    vstd::arithmetic::div_mod::lemma_small_mod(i as nat, n as nat);
}

/// Going on always selects a variant that there is, and leaves the other slots
/// alone.
pub proof fn law_advance_stays_in_range(
    selection: PartSelection,
    slot: Slot,
    dir: int,
    other: Slot,
)
    ensures
        selection.turned(slot, dir).index_for(slot) < PartSelection::variant_count(slot),
        other != slot ==> selection.turned(slot, dir).index_for(other) == selection.index_for(other),
{
    let n = PartSelection::variant_count(slot) as int;
    assert(0 <= (selection.index_for(slot) + dir) % n < n);
}

/// The skin under the clothes, weapons and capes are never shown.
pub proof fn law_reserved_parts_are_hidden(selection: PartSelection, name: Seq<char>)
    requires
        is_reserved(name),
    ensures
        !selection.shows(name),
{
}

/// How a name ends.
spec fn ending(name: Seq<char>) -> (char, char) {
    (name[name.len() - 2], name[name.len() - 1])
}

/// How the names of tops end.
spec fn ends_as_top(e: (char, char)) -> bool {
    e == ('o', 'p') || e == ('n', 's')
}

/// How the names of bottoms end.
spec fn ends_as_bottom(e: (char, char)) -> bool {
    e == ('o', 'm') || e == ('r', 't') || e == ('e', 's')
}

/// How the names of what goes on the head end.
spec fn ends_as_headwear(e: (char, char)) -> bool {
    e == ('a', 'r') || e == ('a', 't') || e == ('e', 't') || e == ('o', 'r') || e == ('i', 'f') || e
        == ('s', 'k') || e == ('a', 'p')
}

/// How the names of reserved parts end.
spec fn ends_as_reserved(e: (char, char)) -> bool {
    e == ('p', 'e') || e == ('e', 'r') || e == ('r', 'f') || e == ('w', 'l') || e == ('f', 'f') || e
        == ('o', 'w') || e == ('r', 'd') || e == ('d', 'y')
}

/// The names of outfits have a capital where those of faces and hair do not.
spec fn is_capital(c: char) -> bool {
    'A' <= c && c <= 'Z'
}

proof fn lemma_top_names(i: u8, name: Seq<char>)
    requires
        in_variant(Slot::Top, i, name),
    ensures
        ends_as_top(ending(name)),
        name.len() > 3,
        is_capital(name[2]),
{
    reveal_strlit("F_Witch_Top");
    reveal_strlit("F_Archer_Top");
    reveal_strlit("F_Fighter_Top");
    reveal_strlit("F_Hunter_Top");
    reveal_strlit("F_Knight_Top");
    reveal_strlit("F_Knight_Pauldrons");
    reveal_strlit("F_Mage_Top");
    reveal_strlit("F_Rogue_Top");
    reveal_strlit("F_Sorcerer_Top");
    reveal_strlit("F_Swordsman_Top");
}

proof fn lemma_bottom_names(i: u8, name: Seq<char>)
    requires
        in_variant(Slot::Bottom, i, name),
    ensures
        ends_as_bottom(ending(name)),
        name.len() > 3,
        is_capital(name[2]),
{
    reveal_strlit("F_Witch_Bottom");
    reveal_strlit("F_Archer_Bottom");
    reveal_strlit("F_Fighter_Bottom");
    reveal_strlit("F_Hunter_Bottom");
    reveal_strlit("F_Knight_Bottom");
    reveal_strlit("F_Knight_Skirt");
    reveal_strlit("F_Mage_Bottom");
    reveal_strlit("F_Rogue_Bottom");
    reveal_strlit("F_Sorcerer_Bottom");
    reveal_strlit("F_Sorcerer_Shoes");
    reveal_strlit("F_Swordsman_Bottom");
}

proof fn lemma_headwear_names(i: u8, name: Seq<char>)
    requires
        in_variant(Slot::Headwear, i, name),
    ensures
        ends_as_headwear(ending(name)),
        name.len() > 3,
        is_capital(name[2]),
{
    reveal_strlit("F_Witch_Headwear");
    reveal_strlit("F_Mage_Headwear");
    reveal_strlit("F_Archer_BycocketHat");
    reveal_strlit("F_Hunter_Beret");
    reveal_strlit("F_Knight_ArmetHelmet");
    reveal_strlit("F_Knight_ArmetHelmet_Visor");
    reveal_strlit("F_Swordsman_KettleHat");
    reveal_strlit("F_Sorcerer_Circlet");
    reveal_strlit("F_Fighter_LeatherCoif");
    reveal_strlit("F_Rogue_FaceMask");
    reveal_strlit("F_Rogue_FaceMask_NeckWrap");
}

proof fn lemma_reserved_names(name: Seq<char>)
    requires
        is_reserved(name),
    ensures
        ends_as_reserved(ending(name)),
{
    reveal_strlit("F_BottomBody");
    reveal_strlit("F_TopBody");
    reveal_strlit("F_Witch_Cape");
    reveal_strlit("F_Witch_Choker");
    reveal_strlit("F_Archer_Cape");
    reveal_strlit("F_Mage_Cape");
    reveal_strlit("F_Mage_Scarf");
    reveal_strlit("F_Sorcerer_Shawl");
    reveal_strlit("F_Witch_Staff");
    reveal_strlit("F_Mage_Staff");
    reveal_strlit("F_Sorcerer_Staff");
    reveal_strlit("F_Archer_Bow");
    reveal_strlit("F_Archer_Arrow");
    reveal_strlit("F_Archer_ArrowQuiver");
    reveal_strlit("F_Hunter_Bow");
    reveal_strlit("F_Hunter_Arrow");
    reveal_strlit("F_Hunter_ArrowQuiver");
    reveal_strlit("F_Fighter_Sword");
    reveal_strlit("F_Fighter_SwordScabbard");
    reveal_strlit("F_Knight_Sword");
    reveal_strlit("F_Knight_SwordScabbard");
    reveal_strlit("F_Knight_Dagger");
    reveal_strlit("F_Knight_DaggerScabbard");
    reveal_strlit("F_Swordsman_Sword");
    reveal_strlit("F_Swordsman_SwordScabbard");
    reveal_strlit("F_Rogue_Dagger");
    reveal_strlit("F_Rogue_DaggerScabbard");
}

/// A part of an outfit is shown just if it belongs to the variant selected for
/// its slot.
pub proof fn law_outfit_follows_selection(selection: PartSelection, slot: Slot, name: Seq<char>)
    requires
        in_outfit(slot, name),
    ensures
        selection.shows(name) == in_variant(slot, selection.index_for(slot), name),
{
    let i = choose|i: u8|
        i < PartSelection::variant_count(slot) && #[trigger] in_variant(slot, i, name);
    match slot {
        Slot::Top => lemma_top_names(i, name),
        Slot::Bottom => lemma_bottom_names(i, name),
        Slot::Headwear => lemma_headwear_names(i, name),
        _ => {},
    }
    assert(!is_reserved(name)) by {
        if is_reserved(name) {
            lemma_reserved_names(name);
        }
    }
    assert forall|other: Slot| other != slot implies !(#[trigger] in_outfit(other, name)) by {
        if in_outfit(other, name) {
            let j = choose|j: u8|
                j < PartSelection::variant_count(other) && #[trigger] in_variant(other, j, name);
            match other {
                Slot::Top => lemma_top_names(j, name),
                Slot::Bottom => lemma_bottom_names(j, name),
                Slot::Headwear => lemma_headwear_names(j, name),
                _ => {},
            }
        }
    }
    reveal_strlit("F_eyes");
    reveal_strlit("F_eyebrows");
    reveal_strlit("F_mouth");
    reveal_strlit("F_hair");
    assert(!"F_eyes"@.is_prefix_of(name)) by {
        assert("F_eyes"@[2] == 'e');
    }
    assert(!"F_eyebrows"@.is_prefix_of(name)) by {
        assert("F_eyebrows"@[2] == 'e');
    }
    assert(!"F_mouth"@.is_prefix_of(name)) by {
        assert("F_mouth"@[2] == 'm');
    }
    assert(!"F_hair"@.is_prefix_of(name)) by {
        assert("F_hair"@[2] == 'h');
    }
}

} // verus!

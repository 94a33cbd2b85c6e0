//! The parts that a character hangs together from, each below another one.
//!
//! What a part belongs to is told from the line of parts above it. A line starts
//! with the part itself and goes up to the topmost one.

use crate::entity::Entity;
use crate::net::protocol::PlayerCustomization;
use crate::player::parts::PartSelection;
use crate::text::begins_with;
use vstd::prelude::*;

verus! {

/// One part in a line, and what is known of it.
#[derive(Debug)]
pub struct RigNode {
    pub entity: Entity,
    pub name: Option<String>,
    /// Whether it is the body of the player at this machine.
    pub local_body: bool,
    /// Whether it is the body of another player.
    pub remote_body: bool,
    /// Whether it belongs to the player at this machine.
    pub local_player: bool,
    /// Whose it is, if it is a player.
    pub owner: Option<u64>,
    /// What the player looks like, if it is one.
    pub look: Option<PlayerCustomization>,
}

/// Whether a part has a name that its author gave it.
pub open spec fn is_given(name: Option<String>) -> bool {
    name is Some && !"Mesh"@.is_prefix_of(name->Some_0@)
}

/// The first name in a line that an author gave; no text, if there is none.
pub open spec fn line_name(line: Seq<RigNode>) -> Seq<char>
    decreases line.len(),
{
    if line.len() == 0 {
        Seq::empty()
    } else if is_given(line[0].name) {
        line[0].name->Some_0@
    } else {
        line_name(line.skip(1))
    }
}

/// The name that a part goes by: its own, or that of the nearest part above it,
/// leaving out those that no author gave.
pub fn resolve_node_name(line: &Vec<RigNode>) -> (r: String)
    ensures
        r@ == line_name(line@),
{
    let mut i: usize = 0;
    assert(line@.skip(0) =~= line@);
    while i < line.len()
        invariant
            i <= line.len(),
            line_name(line@) == line_name(line@.skip(i as int)),
        decreases line.len() - i,
    {
        assert(line@.skip(i as int).skip(1) =~= line@.skip(i + 1));
        match &line[i].name {
            Some(name) => {
                if !begins_with(name.as_str(), "Mesh") {
                    return name.clone();
                }
            },
            None => {},
        }
        i += 1;
    }
    let none = String::new();
    assert(none@ =~= Seq::<char>::empty());
    none
}

/// Whether a line leads to the body of the player at this machine.
pub fn ancestor_has_body_marker(line: &Vec<RigNode>) -> (r: bool)
    ensures
        r == exists|i: int| 0 <= i < line@.len() && (#[trigger] line@[i]).local_body,
{
    let mut i: usize = 0;
    while i < line.len()
        invariant
            i <= line.len(),
            forall|j: int| 0 <= j < i ==> !(#[trigger] line@[j]).local_body,
        decreases line.len() - i,
    {
        if line[i].local_body {
            assert(line@[i as int].local_body);
            return true;
        }
        i += 1;
    }
    false
}

/// Whether a line leads to the body of another player.
pub fn ancestor_has_remote_body(line: &Vec<RigNode>) -> (r: bool)
    ensures
        r == exists|i: int| 0 <= i < line@.len() && (#[trigger] line@[i]).remote_body,
{
    let mut i: usize = 0;
    while i < line.len()
        invariant
            i <= line.len(),
            forall|j: int| 0 <= j < i ==> !(#[trigger] line@[j]).remote_body,
        decreases line.len() - i,
    {
        if line[i].remote_body {
            assert(line@[i as int].remote_body);
            return true;
        }
        i += 1;
    }
    false
}

/// Whether a line leads to the player at this machine.
pub fn ancestor_is_local_player(line: &Vec<RigNode>) -> (r: bool)
    ensures
        r == exists|i: int| 0 <= i < line@.len() && (#[trigger] line@[i]).local_player,
{
    let mut i: usize = 0;
    while i < line.len()
        invariant
            i <= line.len(),
            forall|j: int| 0 <= j < i ==> !(#[trigger] line@[j]).local_player,
        decreases line.len() - i,
    {
        if line[i].local_player {
            assert(line@[i as int].local_player);
            return true;
        }
        i += 1;
    }
    false
}

/// The nearest player in a line, and what the player looks like.
pub open spec fn line_look(line: Seq<RigNode>) -> Option<(Entity, PlayerCustomization)>
    decreases line.len(),
{
    if line.len() == 0 {
        None
    } else if line[0].look is Some {
        Some((line[0].entity, line[0].look->Some_0))
    } else {
        line_look(line.skip(1))
    }
}

/// The nearest player in a line, and what the player looks like.
pub fn find_ancestor_customization(line: &Vec<RigNode>) -> (r: Option<
    (Entity, PlayerCustomization),
>)
    ensures
        r == line_look(line@),
{
    let mut i: usize = 0;
    assert(line@.skip(0) =~= line@);
    while i < line.len()
        invariant
            i <= line.len(),
            line_look(line@) == line_look(line@.skip(i as int)),
        decreases line.len() - i,
    {
        assert(line@.skip(i as int).skip(1) =~= line@.skip(i + 1));
        match line[i].look {
            Some(look) => {
                return Some((line[i].entity, look));
            },
            None => {},
        }
        i += 1;
    }
    None
}

/// Whose the nearest owned part in a line is.
pub open spec fn line_owner(line: Seq<RigNode>) -> Option<u64>
    decreases line.len(),
{
    if line.len() == 0 {
        None
    } else if line[0].owner is Some {
        line[0].owner
    } else {
        line_owner(line.skip(1))
    }
}

/// Whose the nearest owned part in a line is.
pub fn find_ancestor_owner(line: &Vec<RigNode>) -> (r: Option<u64>)
    ensures
        r == line_owner(line@),
{
    let mut i: usize = 0;
    assert(line@.skip(0) =~= line@);
    while i < line.len()
        invariant
            i <= line.len(),
            line_owner(line@) == line_owner(line@.skip(i as int)),
        decreases line.len() - i,
    {
        assert(line@.skip(i as int).skip(1) =~= line@.skip(i + 1));
        match line[i].owner {
            Some(owner) => {
                return Some(owner);
            },
            None => {},
        }
        i += 1;
    }
    None
}

/// Whether a part of the model is shown.
#[derive(Debug)]
pub struct PartMesh {
    pub name: String,
    pub shown: bool,
}

/// What becomes of a part that has just appeared: nothing unless it belongs to the
/// player at this machine; else its name is kept, and it is shown or not.
pub fn apply_local_part_visibility(
    line: &Vec<RigNode>,
    selection: PartSelection,
) -> (r: Option<PartMesh>)
    ensures
        r is Some <==> exists|i: int| 0 <= i < line@.len() && (#[trigger] line@[i]).local_body,
        r matches Some(part) ==> part.name@ == line_name(line@) && part.shown == selection.shows(
            line_name(line@),
        ),
{
    if !ancestor_has_body_marker(line) {
        return None;
    }
    let name = resolve_node_name(line);
    let shown = selection.is_visible(name.as_str());
    Some(PartMesh { name, shown })
}

/// Shows a part, or not, when something else is selected.
pub fn refresh_part_visibility(
    part: &mut PartMesh,
    selection: PartSelection,
)
    ensures
        final(part).name@ == old(part).name@,
        final(part).shown == selection.shows(old(part).name@),
{
    part.shown = selection.is_visible(part.name.as_str());
}

} // verus!

//! Names for the things in the world, and small sets of them.

use vstd::prelude::*;

verus! {

/// The engine's handle of one thing in the world.
#[derive(Clone, Copy, Debug, PartialEq, Eq, Structural)]
pub struct Entity {
    pub bits: u64,
}

pub open spec fn spec_placeholder() -> Entity {
    Entity { bits: 1 }
}

/// The handle that the engine keeps for nothing.
#[verifier::when_used_as_spec(spec_placeholder)]
pub fn placeholder() -> (r: Entity)
    ensures
        r == spec_placeholder(),
{
    Entity { bits: 1 }
}

/// Whether `items` holds `entity`.
pub fn holds(items: &Vec<Entity>, entity: Entity) -> (r: bool)
    ensures
        r == items@.contains(entity),
{
    let mut i: usize = 0;
    while i < items.len()
        invariant
            i <= items.len(),
            forall|j: int| 0 <= j < i ==> items@[j] != entity,
        decreases items.len() - i,
    {
        if items[i] == entity {
            return true;
        }
        i += 1;
    }
    false
}

/// The things of both lists, those of `first` before those of `second`.
pub fn together(first: &Vec<Entity>, second: &Vec<Entity>) -> (r: Vec<Entity>)
    ensures
        r@ == first@ + second@,
{
    let mut all: Vec<Entity> = Vec::new();
    let mut i: usize = 0;
    while i < first.len()
        invariant
            i <= first.len(),
            all@ =~= first@.take(i as int),
        decreases first.len() - i,
    {
        all.push(first[i]);
        i += 1;
    }
    let mut j: usize = 0;
    while j < second.len()
        invariant
            j <= second.len(),
            all@ =~= first@ + second@.take(j as int),
        decreases second.len() - j,
    {
        all.push(second[j]);
        j += 1;
    }
    assert(second@.take(j as int) =~= second@);
    all
}

/// `items` with `entity` in it once more only if it was not there.
pub open spec fn with_entity(items: Seq<Entity>, entity: Entity) -> Seq<Entity> {
    if items.contains(entity) {
        items
    } else {
        items.push(entity)
    }
}

/// Puts `entity` into the set `items`.
pub fn insert_entity(items: &mut Vec<Entity>, entity: Entity)
    ensures
        final(items)@ == with_entity(old(items)@, entity),
{
    if !holds(items, entity) {
        items.push(entity);
    }
}

} // verus!

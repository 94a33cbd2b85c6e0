//! The spells that have to be switched on and off, and the one in hand.

use crate::entity::Entity;
use crate::spells::data::SpellId;
use crate::table::{same_text, Table};
use vstd::prelude::*;

verus! {

/// A spell that has to be switched on and off.
#[derive(Debug)]
pub struct SpellEntry {
    pub label: String,
}

/// The spells that have to be switched on and off, by name.
#[derive(Debug)]
pub struct SpellRegistry {
    pub entries: Table<SpellEntry>,
}

/// The spell in a player's hand.
#[derive(Debug)]
pub struct ActiveSpell(pub SpellId);

/// A player picks another spell.
#[derive(Debug)]
pub struct SwitchSpell {
    pub player: Entity,
    pub spell: SpellId,
}

/// What is to be done for a player who picks another spell: the places of the
/// spells to switch off and on, where they have to be.
#[derive(Clone, Copy, Debug, PartialEq, Eq, Structural)]
pub struct Switch {
    pub off: Option<usize>,
    pub on: Option<usize>,
}

impl View for SpellRegistry {
    type V = Map<Seq<char>, SpellEntry>;

    open spec fn view(&self) -> Map<Seq<char>, SpellEntry> {
        self.entries@
    }
}

impl Default for SpellRegistry {
    fn default() -> (r: SpellRegistry)
        ensures
            r.wf(),
            r@ == Map::<Seq<char>, SpellEntry>::empty(),
    {
        SpellRegistry { entries: Table::new() }
    }
}

impl SpellRegistry {
    /// Each spell stands there once.
    pub open spec fn wf(&self) -> bool {
        self.entries.wf()
    }

    /// The names of the spells, in their order.
    pub open spec fn names(&self) -> Seq<Seq<char>> {
        self.entries.names()
    }

    /// Puts in a spell, in place of the one with its name.
    pub fn add(&mut self, id: SpellId, entry: SpellEntry)
        requires
            old(self).wf(),
        ensures
            final(self).wf(),
            final(self)@ == old(self)@.insert(id.0@, entry),
    {
        let _ = self.entries.insert(id.0, entry);
    }

    /// The spell with this name.
    pub fn get(&self, id: &SpellId) -> (r: Option<&SpellEntry>)
        requires
            self.wf(),
        ensures
            match r {
                Some(entry) => self@.contains_key(id.0@) && *entry == self@[id.0@],
                None => !self@.contains_key(id.0@),
            },
    {
        self.entries.get(id.0.as_str())
    }

    /// Where the spell with this name stands.
    pub fn place(&self, id: &SpellId) -> (r: Option<usize>)
        requires
            self.wf(),
        ensures
            match r {
                Some(i) => i < self.names().len() && self.names()[i as int] == id.0@,
                None => !self.names().contains(id.0@),
            },
            r is Some <==> self@.contains_key(id.0@),
    {
        let place = self.entries.find(id.0.as_str());
        proof {
            if place is None && self.names().contains(id.0@) {
                let i = choose|i: int| 0 <= i < self.names().len() && self.names()[i] == id.0@;
                assert(self.entries.keys@[i]@ == id.0@);
            }
        }
        place
    }

    /// What the spell with this name is called.
    pub fn label(&self, id: &SpellId) -> (r: &str)
        requires
            self.wf(),
        ensures
            r@ == (if self@.contains_key(id.0@) {
                self@[id.0@].label@
            } else {
                "Unknown"@
            }),
    {
        match self.entries.get(id.0.as_str()) {
            Some(entry) => entry.label.as_str(),
            None => "Unknown",
        }
    }
}

/// Whether this is what is to be done.
pub open spec fn switches(
    r: Option<Switch>,
    before: Seq<char>,
    after: Seq<char>,
    registry: SpellRegistry,
) -> bool {
    if before == after {
        r is None
    } else {
        &&& r is Some
        &&& match r->Some_0.off {
            Some(i) => i < registry.names().len() && registry.names()[i as int] == before,
            None => !registry.names().contains(before),
        }
        &&& match r->Some_0.on {
            Some(i) => i < registry.names().len() && registry.names()[i as int] == after,
            None => !registry.names().contains(after),
        }
    }
}

/// Puts another spell into a player's hand. Picking the one that is there changes
/// nothing.
pub fn apply_switch_spell(active: &mut ActiveSpell, spell: &SpellId, registry: &SpellRegistry) -> (r:
    Option<Switch>)
    requires
        registry.wf(),
    ensures
        final(active).0.0@ == spell.0@,
        switches(r, old(active).0.0@, spell.0@, *registry),
{
    if same_text(active.0.0.as_str(), spell.0.as_str()) {
        return None;
    }
    let off = registry.place(&active.0);
    let on = registry.place(spell);
    *active = ActiveSpell(spell.copy());
    Some(Switch { off, on })
}

} // verus!

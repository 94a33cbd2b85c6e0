//! The fixed spells of the game for one.

use vstd::prelude::*;

verus! {

/// A spell of the game for one, or a place for one.
#[derive(Clone, Copy, Debug, PartialEq, Eq, Structural)]
pub enum SpellId {
    Empty,
    ConvexLens,
    Iris,
    Portal,
    Placeholder4,
    Placeholder5,
    Placeholder6,
    Placeholder7,
    Placeholder8,
}

impl Default for SpellId {
    fn default() -> (r: SpellId)
        ensures
            r == SpellId::Empty,
    {
        SpellId::Empty
    }
}

impl SpellId {
    pub open spec fn spec_label(self) -> &'static str {
        match self {
            SpellId::Empty => "Empty",
            SpellId::ConvexLens => "Convex Lens",
            SpellId::Iris => "Iris",
            SpellId::Portal => "Portal",
            SpellId::Placeholder4 => "Slot 4",
            SpellId::Placeholder5 => "Slot 5",
            SpellId::Placeholder6 => "Slot 6",
            SpellId::Placeholder7 => "Slot 7",
            SpellId::Placeholder8 => "Slot 8",
        }
    }

    /// What the spell is called.
    #[verifier::when_used_as_spec(spec_label)]
    pub fn label(self) -> (r: &'static str)
        ensures
            r == self.spec_label(),
    {
        match self {
            SpellId::Empty => "Empty",
            SpellId::ConvexLens => "Convex Lens",
            SpellId::Iris => "Iris",
            SpellId::Portal => "Portal",
            SpellId::Placeholder4 => "Slot 4",
            SpellId::Placeholder5 => "Slot 5",
            SpellId::Placeholder6 => "Slot 6",
            SpellId::Placeholder7 => "Slot 7",
            SpellId::Placeholder8 => "Slot 8",
        }
    }
}

/// The eight spells on the wheel.
#[derive(Clone, Copy, Debug)]
pub struct EquippedSpells(pub [SpellId; 8]);

impl Default for EquippedSpells {
    fn default() -> (r: EquippedSpells)
        ensures
            r.0@ == seq![
                SpellId::ConvexLens,
                SpellId::Iris,
                SpellId::Portal,
                SpellId::Placeholder4,
                SpellId::Placeholder5,
                SpellId::Placeholder6,
                SpellId::Placeholder7,
                SpellId::Placeholder8,
            ],
    {
        let spells = [
            SpellId::ConvexLens,
            SpellId::Iris,
            SpellId::Portal,
            SpellId::Placeholder4,
            SpellId::Placeholder5,
            SpellId::Placeholder6,
            SpellId::Placeholder7,
            SpellId::Placeholder8,
        ];
        assert(spells@ =~= seq![
            SpellId::ConvexLens,
            SpellId::Iris,
            SpellId::Portal,
            SpellId::Placeholder4,
            SpellId::Placeholder5,
            SpellId::Placeholder6,
            SpellId::Placeholder7,
            SpellId::Placeholder8,
        ]);
        EquippedSpells(spells)
    }
}

/// The spell in hand.
#[derive(Clone, Copy, Debug, PartialEq, Eq, Structural)]
pub struct ActiveSpell(pub SpellId);

impl Default for ActiveSpell {
    fn default() -> (r: ActiveSpell)
        ensures
            r == ActiveSpell(SpellId::ConvexLens),
    {
        ActiveSpell(SpellId::ConvexLens)
    }
}

} // verus!

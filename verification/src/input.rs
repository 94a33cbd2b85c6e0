//! What the player's keys go to.

use vstd::prelude::*;

verus! {

/// What is open, and so what the keys go to.
#[derive(Clone, Copy, Debug, PartialEq, Eq, Structural)]
pub enum InputMode {
    /// Nothing: the player plays.
    Player,
    RadialMenu,
    /// The panel that changes how the character looks.
    Customizing,
    Inventory,
}

impl Default for InputMode {
    fn default() -> (r: InputMode)
        ensures
            r == InputMode::Player,
    {
        InputMode::Player
    }
}

/// Which of the two sets of bindings are on.
#[derive(Clone, Copy, Debug, PartialEq, Eq, Structural)]
pub struct Contexts {
    pub player: bool,
    pub menu: bool,
}

pub open spec fn spec_contexts_for(mode: InputMode) -> Contexts {
    match mode {
        InputMode::Player => Contexts { player: true, menu: false },
        InputMode::RadialMenu => Contexts { player: false, menu: true },
        InputMode::Customizing => Contexts { player: false, menu: false },
        InputMode::Inventory => Contexts { player: false, menu: false },
    }
}

/// Which bindings are on in a mode. Panels take the cursor and leave none on.
#[verifier::when_used_as_spec(spec_contexts_for)]
pub fn contexts_for(mode: InputMode) -> (r: Contexts)
    ensures
        r == spec_contexts_for(mode),
{
    match mode {
        InputMode::Player => Contexts { player: true, menu: false },
        InputMode::RadialMenu => Contexts { player: false, menu: true },
        InputMode::Customizing => Contexts { player: false, menu: false },
        InputMode::Inventory => Contexts { player: false, menu: false },
    }
}

/// The bindings to switch to when the mode has changed.
pub fn sync_contexts(mode: InputMode, before: &mut Option<InputMode>) -> (r: Option<Contexts>)
    ensures
        *final(before) == Some(mode),
        r == (if *old(before) == Some(mode) {
            None
        } else {
            Some(contexts_for(mode))
        }),
{
    let same = match *before {
        Some(before) => before == mode,
        None => false,
    };
    *before = Some(mode);
    if same {
        None
    } else {
        Some(contexts_for(mode))
    }
}

/// The two sets of bindings are never on at once.
pub proof fn law_contexts_exclude_each_other(mode: InputMode)
    ensures
        !(contexts_for(mode).player && contexts_for(mode).menu),
{
}

} // verus!

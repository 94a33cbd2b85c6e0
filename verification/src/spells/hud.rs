//! What is on the screen, and the charge bar in it.

use crate::scalar::{one, zero, Scalar};
use crate::spells::bodies::ColorDef;
use crate::spells::catalog::SpellCatalog;
use crate::spells::data::{CastDef, ChargingDef, SpellId};
use crate::spells::engine::{CastInstance, CastState};
use vstd::prelude::*;

verus! {

/// The least that a full charge counts as (`1e-6`).
#[verifier::allow_in_spec]
pub fn smallest_full() -> Scalar
    returns
        (Scalar { bits: 0x3586_37bd }),
{
    Scalar { bits: 0x3586_37bd }
}

/// `0.5`.
#[verifier::allow_in_spec]
pub fn a_half() -> Scalar
    returns
        (Scalar { bits: 0x3f00_0000 }),
{
    Scalar { bits: 0x3f00_0000 }
}

/// How wide the charge bar is (`120.0`).
#[verifier::allow_in_spec]
pub fn bar_width() -> Scalar
    returns
        (Scalar { bits: 0x42f0_0000 }),
{
    Scalar { bits: 0x42f0_0000 }
}

/// How high the charge bar is (`6.0`).
#[verifier::allow_in_spec]
pub fn bar_height() -> Scalar
    returns
        (Scalar { bits: 0x40c0_0000 }),
{
    Scalar { bits: 0x40c0_0000 }
}

/// How far below the middle the charge bar is (`124.0`).
#[verifier::allow_in_spec]
pub fn bar_top() -> Scalar
    returns
        (Scalar { bits: 0x42f8_0000 }),
{
    Scalar { bits: 0x42f8_0000 }
}

/// How green an empty bar is (`0.75`).
#[verifier::allow_in_spec]
pub fn fill_green() -> Scalar
    returns
        (Scalar { bits: 0x3f40_0000 }),
{
    Scalar { bits: 0x3f40_0000 }
}

/// How much greener a full bar is (`0.25`).
#[verifier::allow_in_spec]
pub fn fill_green_gain() -> Scalar
    returns
        (Scalar { bits: 0x3e80_0000 }),
{
    Scalar { bits: 0x3e80_0000 }
}

/// How blue an empty bar is (`0.4`).
#[verifier::allow_in_spec]
pub fn fill_blue() -> Scalar
    returns
        (Scalar { bits: 0x3ecc_cccd }),
{
    Scalar { bits: 0x3ecc_cccd }
}

/// How much bluer a full bar is (`0.5`).
#[verifier::allow_in_spec]
pub fn fill_blue_gain() -> Scalar
    returns
        (Scalar { bits: 0x3f00_0000 }),
{
    Scalar { bits: 0x3f00_0000 }
}

/// How opaque the bar is (`0.95`).
#[verifier::allow_in_spec]
pub fn fill_opacity() -> Scalar
    returns
        (Scalar { bits: 0x3f73_3333 }),
{
    Scalar { bits: 0x3f73_3333 }
}

/// The color behind the charge bar (`0.15`, `0.15`, `0.18`, `0.7`).
#[verifier::allow_in_spec]
pub fn bar_back_color() -> ColorDef
    returns
        (ColorDef {
            r: Scalar { bits: 0x3e19_999a },
            g: Scalar { bits: 0x3e19_999a },
            b: Scalar { bits: 0x3e38_51ec },
            a: Scalar { bits: 0x3f33_3333 },
        }),
{
    ColorDef {
        r: Scalar { bits: 0x3e19_999a },
        g: Scalar { bits: 0x3e19_999a },
        b: Scalar { bits: 0x3e38_51ec },
        a: Scalar { bits: 0x3f33_3333 },
    }
}

/// The color of the charge bar before there is a charge (`1.0`, `0.8`, `0.4`, `0.9`).
#[verifier::allow_in_spec]
pub fn new_fill_color() -> ColorDef
    returns
        (ColorDef {
            r: Scalar { bits: 0x3f80_0000 },
            g: Scalar { bits: 0x3f4c_cccd },
            b: Scalar { bits: 0x3ecc_cccd },
            a: Scalar { bits: 0x3f66_6666 },
        }),
{
    ColorDef {
        r: Scalar { bits: 0x3f80_0000 },
        g: Scalar { bits: 0x3f4c_cccd },
        b: Scalar { bits: 0x3ecc_cccd },
        a: Scalar { bits: 0x3f66_6666 },
    }
}

/// A box on the screen. Where it begins counts from what it is in: to the right of
/// the middle of the screen and down from it, or from the corner of another box.
#[derive(Clone, Copy, Debug, PartialEq, Eq, Structural)]
pub struct HudBox {
    pub left: Scalar,
    pub top: Scalar,
    pub width: Scalar,
    /// As high as what is in it, if nothing is said.
    pub height: Option<Scalar>,
    /// What it is filled with, if anything.
    pub color: Option<ColorDef>,
    pub shown: bool,
}

/// What the charge bar shows.
#[derive(Clone, Copy, Debug, PartialEq, Eq, Structural)]
pub struct ChargeBar {
    /// How much of the bar is filled.
    pub ratio: Scalar,
    /// Whether the charge is enough to let go.
    pub full: bool,
}

pub open spec fn spec_display_max(charging: ChargingDef) -> Option<Scalar> {
    match charging {
        ChargingDef::Uncharged => None,
        ChargingDef::Charging { source: _, min_release: _, max_charge, decay_rate: _, overcharge } =>
            match overcharge {
                Some(beyond) => Some(beyond.max),
                None => Some(max_charge),
            },
    }
}

/// The charge at which the bar is full: the cap, beyond full where that goes.
#[verifier::when_used_as_spec(spec_display_max)]
pub fn display_max(charging: ChargingDef) -> (r: Option<Scalar>)
    ensures
        r == spec_display_max(charging),
{
    match charging {
        ChargingDef::Uncharged => None,
        ChargingDef::Charging { source: _, min_release: _, max_charge, decay_rate: _, overcharge } =>
            match overcharge {
                Some(beyond) => Some(beyond.max),
                None => Some(max_charge),
            },
    }
}

pub open spec fn spec_charge_ratio(charge: Scalar, full: Scalar) -> Scalar {
    charge.over(full.max(smallest_full())).clamp(zero(), one())
}

/// How much of a full charge there is.
#[verifier::when_used_as_spec(spec_charge_ratio)]
pub fn charge_ratio(charge: Scalar, full: Scalar) -> (r: Scalar)
    ensures
        r == spec_charge_ratio(charge, full),
{
    charge.over(full.max(smallest_full())).clamp(zero(), one())
}

/// The charge of a cast; none, if it was never used.
pub open spec fn charge_of(m: Map<Seq<char>, CastInstance>, id: Seq<char>) -> Scalar {
    if m.contains_key(id) {
        m[id].charge
    } else {
        zero()
    }
}

/// What the bar shows of a cast that has some charge.
pub open spec fn bar_of(cast: CastDef, m: Map<Seq<char>, CastInstance>) -> Option<ChargeBar> {
    let charge = charge_of(m, cast.id.0@);
    match cast.charging {
        ChargingDef::Uncharged => None,
        ChargingDef::Charging { min_release, .. } => if charge.gt(zero()) {
            Some(
                ChargeBar {
                    ratio: charge_ratio(charge, display_max(cast.charging)->Some_0),
                    full: charge.ge(min_release),
                },
            )
        } else {
            None
        },
    }
}

/// The first bar that a cast from place `i` on has; an empty one if there are
/// only casts without a charge that could have one.
pub open spec fn bar_from(
    casts: Seq<CastDef>,
    m: Map<Seq<char>, CastInstance>,
    i: int,
    chargeable: bool,
) -> Option<ChargeBar>
    decreases casts.len() - i,
{
    if i < 0 || i >= casts.len() {
        if chargeable {
            Some(ChargeBar { ratio: zero(), full: false })
        } else {
            None
        }
    } else if bar_of(casts[i], m) is Some {
        bar_of(casts[i], m)
    } else {
        bar_from(casts, m, i + 1, chargeable || casts[i].charging !is Uncharged)
    }
}

/// What the bar shows of the active spell: its first cast that has some charge.
/// Nothing, for a spell without any cast that charges.
pub fn update_charge_bar(
    catalog: &SpellCatalog,
    active: &SpellId,
    state: &CastState,
) -> (r: Option<ChargeBar>)
    requires
        catalog.wf(),
        state.wf(),
    ensures
        r == (if catalog@.contains_key(active.0@) {
            bar_from(catalog@[active.0@].casts@, state@, 0, false)
        } else {
            None
        }),
{
    let spell = match catalog.get(active) {
        Some(spell) => spell,
        None => {
            return None;
        },
    };
    let mut chargeable = false;
    let mut i: usize = 0;
    while i < spell.casts.len()
        invariant
            i <= spell.casts.len(),
            catalog@.contains_key(active.0@),
            *spell == catalog@[active.0@],
            state.wf(),
            bar_from(spell.casts@, state@, 0, false) == bar_from(
                spell.casts@,
                state@,
                i as int,
                chargeable,
            ),
        decreases spell.casts.len() - i,
    {
        let cast = &spell.casts[i];
        if let ChargingDef::Charging {
            source: _,
            min_release,
            max_charge: _,
            decay_rate: _,
            overcharge: _,
        } = cast.charging {
            let charge = match state.instance(cast.id.0.as_str()) {
                Some(instance) => instance.charge,
                None => zero(),
            };
            if charge.gt(zero()) {
                let full = display_max(cast.charging).unwrap();
                return Some(
                    ChargeBar { ratio: charge_ratio(charge, full), full: charge.ge(min_release) },
                );
            }
            chargeable = true;
        }
        i += 1;
    }
    if chargeable {
        Some(ChargeBar { ratio: zero(), full: false })
    } else {
        None
    }
}

/// The charge bar on the screen: what is behind it, and the bar in that.
#[derive(Clone, Copy, Debug, PartialEq, Eq, Structural)]
pub struct ChargeBarBoxes {
    pub back: HudBox,
    pub fill: HudBox,
}

pub open spec fn spec_spawn_charge_bar() -> ChargeBarBoxes {
    ChargeBarBoxes {
        back: HudBox {
            left: bar_width().neg().times(a_half()),
            top: bar_top(),
            width: bar_width(),
            height: Some(bar_height()),
            color: Some(bar_back_color()),
            shown: false,
        },
        fill: HudBox {
            left: zero(),
            top: zero(),
            width: zero(),
            height: Some(bar_height()),
            color: Some(new_fill_color()),
            shown: true,
        },
    }
}

/// The charge bar on the screen. It does not show at first.
#[verifier::when_used_as_spec(spec_spawn_charge_bar)]
pub fn spawn_charge_bar() -> (r: ChargeBarBoxes)
    ensures
        r == spec_spawn_charge_bar(),
{
    ChargeBarBoxes {
        back: HudBox {
            left: bar_width().neg().times(a_half()),
            top: bar_top(),
            width: bar_width(),
            height: Some(bar_height()),
            color: Some(bar_back_color()),
            shown: false,
        },
        fill: HudBox {
            left: zero(),
            top: zero(),
            width: zero(),
            height: Some(bar_height()),
            color: Some(new_fill_color()),
            shown: true,
        },
    }
}

pub open spec fn spec_bar_warmth(bar: ChargeBar) -> Scalar {
    if bar.full {
        one()
    } else {
        bar.ratio
    }
}

/// How warm the bar's color is.
#[verifier::when_used_as_spec(spec_bar_warmth)]
pub fn bar_warmth(bar: ChargeBar) -> (r: Scalar)
    ensures
        r == spec_bar_warmth(bar),
{
    if bar.full {
        one()
    } else {
        bar.ratio
    }
}

pub open spec fn spec_show_charge_bar(
    boxes: ChargeBarBoxes,
    bar: Option<ChargeBar>,
) -> ChargeBarBoxes {
    match bar {
        None => ChargeBarBoxes {
            back: HudBox { shown: false, ..boxes.back },
            fill: boxes.fill,
        },
        Some(bar) => ChargeBarBoxes {
            back: HudBox { shown: true, ..boxes.back },
            fill: HudBox {
                width: bar_width().times(bar.ratio),
                color: Some(
                    ColorDef {
                        r: one(),
                        g: fill_green().plus(fill_green_gain().times(bar_warmth(bar))),
                        b: fill_blue().plus(fill_blue_gain().times(bar_warmth(bar))),
                        a: fill_opacity(),
                    },
                ),
                ..boxes.fill
            },
        },
    }
}

/// The charge bar on the screen with this charge: hidden, without one.
#[verifier::when_used_as_spec(spec_show_charge_bar)]
pub fn show_charge_bar(boxes: ChargeBarBoxes, bar: Option<ChargeBar>) -> (r: ChargeBarBoxes)
    ensures
        r == spec_show_charge_bar(boxes, bar),
{
    match bar {
        None => ChargeBarBoxes {
            back: HudBox { shown: false, ..boxes.back },
            fill: boxes.fill,
        },
        Some(bar) => ChargeBarBoxes {
            back: HudBox { shown: true, ..boxes.back },
            fill: HudBox {
                width: bar_width().times(bar.ratio),
                color: Some(
                    ColorDef {
                        r: one(),
                        g: fill_green().plus(fill_green_gain().times(bar_warmth(bar))),
                        b: fill_blue().plus(fill_blue_gain().times(bar_warmth(bar))),
                        a: fill_opacity(),
                    },
                ),
                ..boxes.fill
            },
        },
    }
}

} // verus!

//! What the screen says about the lens: the power that enters it, and how the player
//! stands to each lantern.

use crate::entity::Entity;
use crate::scalar::{one, zero, Scalar};
use crate::spells::bodies::ColorDef;
use crate::spells::convex_lens::{LensPower, LensSource};
use crate::spells::data::SpellId;
use crate::spells::hud::{a_half, HudBox};
use vstd::prelude::*;

verus! {

/// Half the width of the alignment box (`36.0`).
#[verifier::allow_in_spec]
pub fn align_box_half_w() -> Scalar
    returns
        (Scalar { bits: 0x4210_0000 }),
{
    Scalar { bits: 0x4210_0000 }
}

/// Half the height of the alignment box (`84.0`).
#[verifier::allow_in_spec]
pub fn align_box_half_h() -> Scalar
    returns
        (Scalar { bits: 0x42a8_0000 }),
{
    Scalar { bits: 0x42a8_0000 }
}

/// How thick the border of the alignment box is (`1.5`).
#[verifier::allow_in_spec]
pub fn align_border() -> Scalar
    returns
        (Scalar { bits: 0x3fc0_0000 }),
{
    Scalar { bits: 0x3fc0_0000 }
}

/// The size of a dot in the alignment box (`6.0`).
#[verifier::allow_in_spec]
pub fn align_dot_size() -> Scalar
    returns
        (Scalar { bits: 0x40c0_0000 }),
{
    Scalar { bits: 0x40c0_0000 }
}

/// How far out of the box a dot may be (`1.6`).
#[verifier::allow_in_spec]
pub fn dot_limit() -> Scalar
    returns
        (Scalar { bits: 0x3fcc_cccd }),
{
    Scalar { bits: 0x3fcc_cccd }
}

/// How far left of the middle the power readout begins (`60.0`).
#[verifier::allow_in_spec]
pub fn lumen_text_left() -> Scalar
    returns
        (Scalar { bits: 0x4270_0000 }),
{
    Scalar { bits: 0x4270_0000 }
}

/// How far below the middle the power readout is (`96.0`).
#[verifier::allow_in_spec]
pub fn lumen_text_top() -> Scalar
    returns
        (Scalar { bits: 0x42c0_0000 }),
{
    Scalar { bits: 0x42c0_0000 }
}

/// How wide the power readout is (`120.0`).
#[verifier::allow_in_spec]
pub fn lumen_text_width() -> Scalar
    returns
        (Scalar { bits: 0x42f0_0000 }),
{
    Scalar { bits: 0x42f0_0000 }
}

/// `2.0`.
#[verifier::allow_in_spec]
pub fn two() -> Scalar
    returns
        (Scalar { bits: 0x4000_0000 }),
{
    Scalar { bits: 0x4000_0000 }
}

/// How green the readout is without any power (`0.85`).
#[verifier::allow_in_spec]
pub fn readout_green() -> Scalar
    returns
        (Scalar { bits: 0x3f59_999a }),
{
    Scalar { bits: 0x3f59_999a }
}

/// How much greener the readout is at full power (`0.15`).
#[verifier::allow_in_spec]
pub fn readout_green_gain() -> Scalar
    returns
        (Scalar { bits: 0x3e19_999a }),
{
    Scalar { bits: 0x3e19_999a }
}

/// How blue the readout is at full power (`0.55`).
#[verifier::allow_in_spec]
pub fn readout_blue() -> Scalar
    returns
        (Scalar { bits: 0x3f0c_cccd }),
{
    Scalar { bits: 0x3f0c_cccd }
}

/// How much bluer the readout is without any power (`0.45`).
#[verifier::allow_in_spec]
pub fn readout_blue_gain() -> Scalar
    returns
        (Scalar { bits: 0x3ee6_6666 }),
{
    Scalar { bits: 0x3ee6_6666 }
}

/// How opaque the readout of some power is (`0.85`).
#[verifier::allow_in_spec]
pub fn readout_opacity() -> Scalar
    returns
        (Scalar { bits: 0x3f59_999a }),
{
    Scalar { bits: 0x3f59_999a }
}

/// The color of the readout before there is one (`0.7`, `0.7`, `0.7`, `0.85`).
#[verifier::allow_in_spec]
pub fn first_text_color() -> ColorDef
    returns
        (ColorDef {
            r: Scalar { bits: 0x3f33_3333 },
            g: Scalar { bits: 0x3f33_3333 },
            b: Scalar { bits: 0x3f33_3333 },
            a: Scalar { bits: 0x3f59_999a },
        }),
{
    ColorDef {
        r: Scalar { bits: 0x3f33_3333 },
        g: Scalar { bits: 0x3f33_3333 },
        b: Scalar { bits: 0x3f33_3333 },
        a: Scalar { bits: 0x3f59_999a },
    }
}

/// The color of the readout with no lantern in range (`0.5`, `0.5`, `0.5`, `0.6`).
#[verifier::allow_in_spec]
pub fn out_of_range_color() -> ColorDef
    returns
        (ColorDef {
            r: Scalar { bits: 0x3f00_0000 },
            g: Scalar { bits: 0x3f00_0000 },
            b: Scalar { bits: 0x3f00_0000 },
            a: Scalar { bits: 0x3f19_999a },
        }),
{
    ColorDef {
        r: Scalar { bits: 0x3f00_0000 },
        g: Scalar { bits: 0x3f00_0000 },
        b: Scalar { bits: 0x3f00_0000 },
        a: Scalar { bits: 0x3f19_999a },
    }
}

/// The color of what is misaligned (`1.0`, `0.35`, `0.35`, `0.9`).
#[verifier::allow_in_spec]
pub fn misaligned_color() -> ColorDef
    returns
        (ColorDef {
            r: Scalar { bits: 0x3f80_0000 },
            g: Scalar { bits: 0x3eb3_3333 },
            b: Scalar { bits: 0x3eb3_3333 },
            a: Scalar { bits: 0x3f66_6666 },
        }),
{
    ColorDef {
        r: Scalar { bits: 0x3f80_0000 },
        g: Scalar { bits: 0x3eb3_3333 },
        b: Scalar { bits: 0x3eb3_3333 },
        a: Scalar { bits: 0x3f66_6666 },
    }
}

/// The color of the border of the alignment box (`0.85`, `0.85`, `0.85`, `0.55`).
#[verifier::allow_in_spec]
pub fn border_color() -> ColorDef
    returns
        (ColorDef {
            r: Scalar { bits: 0x3f59_999a },
            g: Scalar { bits: 0x3f59_999a },
            b: Scalar { bits: 0x3f59_999a },
            a: Scalar { bits: 0x3f0c_cccd },
        }),
{
    ColorDef {
        r: Scalar { bits: 0x3f59_999a },
        g: Scalar { bits: 0x3f59_999a },
        b: Scalar { bits: 0x3f59_999a },
        a: Scalar { bits: 0x3f0c_cccd },
    }
}

/// The color of a dot before it stands for a lantern (`1.0`, `0.85`, `0.4`, `0.9`).
#[verifier::allow_in_spec]
pub fn new_dot_color() -> ColorDef
    returns
        (ColorDef {
            r: Scalar { bits: 0x3f80_0000 },
            g: Scalar { bits: 0x3f59_999a },
            b: Scalar { bits: 0x3ecc_cccd },
            a: Scalar { bits: 0x3f66_6666 },
        }),
{
    ColorDef {
        r: Scalar { bits: 0x3f80_0000 },
        g: Scalar { bits: 0x3f59_999a },
        b: Scalar { bits: 0x3ecc_cccd },
        a: Scalar { bits: 0x3f66_6666 },
    }
}

/// The color of the best lantern's dot (`1.0`, `0.9`, `0.4`, `0.95`).
#[verifier::allow_in_spec]
pub fn active_dot_color() -> ColorDef
    returns
        (ColorDef {
            r: Scalar { bits: 0x3f80_0000 },
            g: Scalar { bits: 0x3f66_6666 },
            b: Scalar { bits: 0x3ecc_cccd },
            a: Scalar { bits: 0x3f73_3333 },
        }),
{
    ColorDef {
        r: Scalar { bits: 0x3f80_0000 },
        g: Scalar { bits: 0x3f66_6666 },
        b: Scalar { bits: 0x3ecc_cccd },
        a: Scalar { bits: 0x3f73_3333 },
    }
}

/// The color of another aligned lantern's dot (`0.95`, `0.85`, `0.45`, `0.55`).
#[verifier::allow_in_spec]
pub fn aligned_dot_color() -> ColorDef
    returns
        (ColorDef {
            r: Scalar { bits: 0x3f73_3333 },
            g: Scalar { bits: 0x3f59_999a },
            b: Scalar { bits: 0x3ee6_6666 },
            a: Scalar { bits: 0x3f0c_cccd },
        }),
{
    ColorDef {
        r: Scalar { bits: 0x3f73_3333 },
        g: Scalar { bits: 0x3f59_999a },
        b: Scalar { bits: 0x3ee6_6666 },
        a: Scalar { bits: 0x3f0c_cccd },
    }
}

/// How many lanterns have a dot.
pub const MAX_LANTERN_DOTS: usize = 3;

/// What the power readout says.
#[derive(Clone, Copy, Debug, PartialEq, Eq, Structural)]
pub enum LumenReadout {
    /// No lantern is in range.
    OutOfRange,
    Misaligned,
    /// So many lumens, and how warm the color is.
    Lumens { lumens: i32, warmth: Scalar },
}

pub open spec fn spec_lumen_readout(
    in_range: bool,
    aligned: bool,
    lumens: Scalar,
    scalar: Scalar,
) -> LumenReadout {
    if !in_range {
        LumenReadout::OutOfRange
    } else if !aligned {
        LumenReadout::Misaligned
    } else {
        LumenReadout::Lumens {
            lumens: lumens.round_to_i32(),
            warmth: scalar.over(one()).clamp(zero(), one()),
        }
    }
}

/// What the power readout says.
#[verifier::when_used_as_spec(spec_lumen_readout)]
pub fn lumen_readout(
    in_range: bool,
    aligned: bool,
    lumens: Scalar,
    scalar: Scalar,
) -> (r: LumenReadout)
    ensures
        r == spec_lumen_readout(in_range, aligned, lumens, scalar),
{
    if !in_range {
        LumenReadout::OutOfRange
    } else if !aligned {
        LumenReadout::Misaligned
    } else {
        LumenReadout::Lumens {
            lumens: lumens.round_to_i32(),
            warmth: scalar.over(one()).clamp(zero(), one()),
        }
    }
}

pub open spec fn spec_readout_color(readout: LumenReadout) -> ColorDef {
    match readout {
        LumenReadout::OutOfRange => out_of_range_color(),
        LumenReadout::Misaligned => misaligned_color(),
        LumenReadout::Lumens { lumens: _, warmth } => ColorDef {
            r: one(),
            g: readout_green().plus(readout_green_gain().times(warmth)),
            b: readout_blue().plus(readout_blue_gain().times(one().minus(warmth))),
            a: readout_opacity(),
        },
    }
}

/// The color of the power readout.
#[verifier::when_used_as_spec(spec_readout_color)]
pub fn readout_color(readout: LumenReadout) -> (r: ColorDef)
    ensures
        r == spec_readout_color(readout),
{
    match readout {
        LumenReadout::OutOfRange => out_of_range_color(),
        LumenReadout::Misaligned => misaligned_color(),
        LumenReadout::Lumens { lumens: _, warmth } => ColorDef {
            r: one(),
            g: readout_green().plus(readout_green_gain().times(warmth)),
            b: readout_blue().plus(readout_blue_gain().times(one().minus(warmth))),
            a: readout_opacity(),
        },
    }
}

/// Whether the readouts of the lens show: with the spells that use it.
pub open spec fn spec_shows_lens_readouts(active: Seq<char>) -> bool {
    active == "convex_lens"@ || active == "iris"@
}

/// Whether the readouts of the lens show: with the spells that use it.
pub fn shows_lens_readouts(active: &SpellId) -> (r: bool)
    ensures
        r == spec_shows_lens_readouts(active.0@),
{
    active.is("convex_lens") || active.is("iris")
}

/// The power readout, and its color.
#[derive(Clone, Copy, Debug, PartialEq, Eq, Structural)]
pub struct LumenText {
    pub readout: LumenReadout,
    pub color: ColorDef,
}

/// What the power readout shows; nothing, with a spell that does without the lens.
pub fn update_lumen_text(active: &SpellId, power: &LensPower) -> (r: Option<LumenText>)
    ensures
        r == (if spec_shows_lens_readouts(active.0@) {
            let readout = lumen_readout(power.in_range, power.aligned, power.lumens, power.scalar);
            Some(LumenText { readout, color: readout_color(readout) })
        } else {
            None
        }),
{
    if !shows_lens_readouts(active) {
        return None;
    }
    let readout = lumen_readout(power.in_range, power.aligned, power.lumens, power.scalar);
    Some(LumenText { readout, color: readout_color(readout) })
}

/// How a lantern's dot looks.
#[derive(Clone, Copy, Debug, PartialEq, Eq, Structural)]
pub enum DotLook {
    /// Aligned, and the best one.
    Active,
    Aligned,
    Misaligned,
}

pub open spec fn spec_dot_color(look: DotLook) -> ColorDef {
    match look {
        DotLook::Active => active_dot_color(),
        DotLook::Aligned => aligned_dot_color(),
        DotLook::Misaligned => misaligned_color(),
    }
}

/// The color of a lantern's dot.
#[verifier::when_used_as_spec(spec_dot_color)]
pub fn dot_color(look: DotLook) -> (r: ColorDef)
    ensures
        r == spec_dot_color(look),
{
    match look {
        DotLook::Active => active_dot_color(),
        DotLook::Aligned => aligned_dot_color(),
        DotLook::Misaligned => misaligned_color(),
    }
}

/// A lantern's dot in the alignment box.
#[derive(Clone, Copy, Debug, PartialEq, Eq, Structural)]
pub struct AlignmentDot {
    pub left: Scalar,
    pub top: Scalar,
    pub look: DotLook,
}

pub open spec fn spec_dot_middle() -> Scalar {
    align_dot_size().neg().times(a_half())
}

/// Where a dot begins that is in the middle of the alignment box.
#[verifier::when_used_as_spec(spec_dot_middle)]
pub fn dot_middle() -> (r: Scalar)
    ensures
        r == spec_dot_middle(),
{
    align_dot_size().neg().times(a_half())
}

pub open spec fn spec_alignment_dot(
    source: LensSource,
    active_lantern: Option<Entity>,
) -> AlignmentDot {
    AlignmentDot {
        left: dot_middle().plus(
            source.yaw_offset.clamp(dot_limit().neg(), dot_limit()).times(align_box_half_w()),
        ),
        top: dot_middle().plus(
            source.pitch_offset.clamp(dot_limit().neg(), dot_limit()).neg().times(
                align_box_half_h(),
            ),
        ),
        look: if !source.aligned {
            DotLook::Misaligned
        } else if active_lantern == Some(source.entity) {
            DotLook::Active
        } else {
            DotLook::Aligned
        },
    }
}

/// The dot of a lantern.
#[verifier::when_used_as_spec(spec_alignment_dot)]
pub fn alignment_dot(source: LensSource, active_lantern: Option<Entity>) -> (r: AlignmentDot)
    ensures
        r == spec_alignment_dot(source, active_lantern),
{
    AlignmentDot {
        left: dot_middle().plus(
            source.yaw_offset.clamp(dot_limit().neg(), dot_limit()).times(align_box_half_w()),
        ),
        top: dot_middle().plus(
            source.pitch_offset.clamp(dot_limit().neg(), dot_limit()).neg().times(
                align_box_half_h(),
            ),
        ),
        look: if !source.aligned {
            DotLook::Misaligned
        } else if active_lantern == Some(source.entity) {
            DotLook::Active
        } else {
            DotLook::Aligned
        },
    }
}

/// What the alignment box shows.
#[derive(Debug)]
pub struct AlignmentView {
    pub boxed: bool,
    /// One for each dot; those without a lantern do not show.
    pub dots: Vec<Option<AlignmentDot>>,
}

/// The dot at `slot`: that of the lantern at this place, if there is one.
pub open spec fn dot_at(
    sources: Seq<LensSource>,
    active_lantern: Option<Entity>,
    slot: int,
) -> Option<AlignmentDot> {
    if slot < sources.len() {
        Some(alignment_dot(sources[slot], active_lantern))
    } else {
        None
    }
}

/// What the alignment box shows: the box while a lantern is in range, and the dots of
/// the first lanterns. Nothing, with a spell that does without the lens.
pub fn update_alignment_indicator(active: &SpellId, power: &LensPower) -> (r: AlignmentView)
    ensures
        r.boxed == (spec_shows_lens_readouts(active.0@) && power.in_range),
        r.dots@ == Seq::new(
            MAX_LANTERN_DOTS as nat,
            |slot: int|
                if spec_shows_lens_readouts(active.0@) {
                    dot_at(power.sources@, power.active_lantern, slot)
                } else {
                    None
                },
        ),
{
    let shows = shows_lens_readouts(active);
    let mut dots: Vec<Option<AlignmentDot>> = Vec::new();
    let mut slot: usize = 0;
    while slot < MAX_LANTERN_DOTS
        invariant
            slot <= MAX_LANTERN_DOTS,
            shows == spec_shows_lens_readouts(active.0@),
            dots@ =~= Seq::new(
                slot as nat,
                |slot: int|
                    if spec_shows_lens_readouts(active.0@) {
                        dot_at(power.sources@, power.active_lantern, slot)
                    } else {
                        None
                    },
            ),
        decreases MAX_LANTERN_DOTS - slot,
    {
        if shows && slot < power.sources.len() {
            dots.push(Some(alignment_dot(power.sources[slot], power.active_lantern)));
        } else {
            dots.push(None);
        }
        slot += 1;
    }
    AlignmentView { boxed: shows && power.in_range, dots }
}

/// What there is on the screen for the lens.
#[derive(Debug)]
pub struct LensHud {
    /// The power readout.
    pub text: HudBox,
    pub text_color: ColorDef,
    /// The alignment box.
    pub frame: HudBox,
    /// The borders of the box, inside it: above, below, left and right.
    pub borders: Vec<HudBox>,
    pub dots: Vec<HudBox>,
}

pub open spec fn spec_frame_width() -> Scalar {
    align_box_half_w().times(two())
}

/// How wide the alignment box is.
#[verifier::when_used_as_spec(spec_frame_width)]
pub fn frame_width() -> (r: Scalar)
    ensures
        r == spec_frame_width(),
{
    align_box_half_w().times(two())
}

pub open spec fn spec_frame_height() -> Scalar {
    align_box_half_h().times(two())
}

/// How high the alignment box is.
#[verifier::when_used_as_spec(spec_frame_height)]
pub fn frame_height() -> (r: Scalar)
    ensures
        r == spec_frame_height(),
{
    align_box_half_h().times(two())
}

pub open spec fn spec_border(left: Scalar, top: Scalar, width: Scalar, height: Scalar) -> HudBox {
    HudBox { left, top, width, height: Some(height), color: Some(border_color()), shown: true }
}

/// A part of the border.
#[verifier::when_used_as_spec(spec_border)]
pub fn border(left: Scalar, top: Scalar, width: Scalar, height: Scalar) -> (r: HudBox)
    ensures
        r == spec_border(left, top, width, height),
{
    HudBox { left, top, width, height: Some(height), color: Some(border_color()), shown: true }
}

pub open spec fn spec_border_at(i: usize) -> HudBox {
    match i {
        0 => border(zero(), zero(), frame_width(), align_border()),
        1 => border(zero(), frame_height().minus(align_border()), frame_width(), align_border()),
        2 => border(zero(), zero(), align_border(), frame_height()),
        _ => border(frame_width().minus(align_border()), zero(), align_border(), frame_height()),
    }
}

/// The parts of the border: above, below, left and right.
#[verifier::when_used_as_spec(spec_border_at)]
pub fn border_at(i: usize) -> (r: HudBox)
    ensures
        r == spec_border_at(i),
{
    match i {
        0 => border(zero(), zero(), frame_width(), align_border()),
        1 => border(zero(), frame_height().minus(align_border()), frame_width(), align_border()),
        2 => border(zero(), zero(), align_border(), frame_height()),
        _ => border(frame_width().minus(align_border()), zero(), align_border(), frame_height()),
    }
}

pub open spec fn spec_new_dot() -> HudBox {
    HudBox {
        left: dot_middle(),
        top: dot_middle(),
        width: align_dot_size(),
        height: Some(align_dot_size()),
        color: Some(new_dot_color()),
        shown: false,
    }
}

/// A dot that stands for no lantern yet.
#[verifier::when_used_as_spec(spec_new_dot)]
pub fn new_dot() -> (r: HudBox)
    ensures
        r == spec_new_dot(),
{
    HudBox {
        left: dot_middle(),
        top: dot_middle(),
        width: align_dot_size(),
        height: Some(align_dot_size()),
        color: Some(new_dot_color()),
        shown: false,
    }
}

pub open spec fn spec_new_readout() -> HudBox {
    HudBox {
        left: lumen_text_left().neg(),
        top: lumen_text_top(),
        width: lumen_text_width(),
        height: None,
        color: None,
        shown: false,
    }
}

/// The power readout before there is one.
#[verifier::when_used_as_spec(spec_new_readout)]
pub fn new_readout() -> (r: HudBox)
    ensures
        r == spec_new_readout(),
{
    HudBox {
        left: lumen_text_left().neg(),
        top: lumen_text_top(),
        width: lumen_text_width(),
        height: None,
        color: None,
        shown: false,
    }
}

pub open spec fn spec_new_frame() -> HudBox {
    HudBox {
        left: align_box_half_w().neg(),
        top: align_box_half_h().neg(),
        width: frame_width(),
        height: Some(frame_height()),
        color: None,
        shown: false,
    }
}

/// The alignment box before it shows.
#[verifier::when_used_as_spec(spec_new_frame)]
pub fn new_frame() -> (r: HudBox)
    ensures
        r == spec_new_frame(),
{
    HudBox {
        left: align_box_half_w().neg(),
        top: align_box_half_h().neg(),
        width: frame_width(),
        height: Some(frame_height()),
        color: None,
        shown: false,
    }
}

/// How many parts the border has.
pub const BORDERS: usize = 4;

/// What there is on the screen for the lens. It does not show at first.
pub fn spawn() -> (r: LensHud)
    ensures
        r.text == new_readout(),
        r.text_color == first_text_color(),
        r.frame == new_frame(),
        r.borders@ == Seq::new(BORDERS as nat, |i: int| border_at(i as usize)),
        r.dots@ == Seq::new(MAX_LANTERN_DOTS as nat, |i: int| new_dot()),
{
    let mut borders: Vec<HudBox> = Vec::new();
    let mut i: usize = 0;
    while i < BORDERS
        invariant
            i <= BORDERS,
            borders@ =~= Seq::new(i as nat, |i: int| border_at(i as usize)),
        decreases BORDERS - i,
    {
        borders.push(border_at(i));
        i += 1;
    }
    let mut dots: Vec<HudBox> = Vec::new();
    let mut j: usize = 0;
    while j < MAX_LANTERN_DOTS
        invariant
            j <= MAX_LANTERN_DOTS,
            dots@ =~= Seq::new(j as nat, |i: int| new_dot()),
        decreases MAX_LANTERN_DOTS - j,
    {
        dots.push(new_dot());
        j += 1;
    }
    LensHud {
        text: new_readout(),
        text_color: first_text_color(),
        frame: new_frame(),
        borders,
        dots,
    }
}

} // verus!

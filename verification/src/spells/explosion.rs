//! Explosions: everything near is pushed away.

use crate::scalar::Scalar;
use crate::spells::effects::{charge_scale, Located, Push};
use crate::vector::Vec3;
use vstd::prelude::*;

verus! {

/// How hard an explosion pushes at a charge of one (`200.0`).
#[verifier::allow_in_spec]
pub fn base_impulse() -> Scalar
    returns
        (Scalar { bits: 0x4348_0000 }),
{
    Scalar { bits: 0x4348_0000 }
}

pub open spec fn spec_explosion_push(
    thing: Located,
    origin: Vec3,
    captured_charge: Option<Scalar>,
) -> Option<
    Push,
> {
    let direction = thing.position.minus(origin).normalize_or_zero();
    if direction.equals(Vec3::origin()) {
        None
    } else {
        Some(
            Push {
                entity: thing.entity,
                impulse: direction.scale(base_impulse().times(charge_scale(captured_charge))),
            },
        )
    }
}

/// The push that something gets from an explosion at `origin`, if it is not
/// right there.
#[verifier::when_used_as_spec(spec_explosion_push)]
pub fn explosion_push(
    thing: Located,
    origin: Vec3,
    captured_charge: Option<Scalar>,
) -> (r: Option<
    Push,
>)
    ensures
        r == spec_explosion_push(thing, origin, captured_charge),
{
    let direction = thing.position.minus(origin).normalize_or_zero();
    if direction.equals(Vec3::origin()) {
        None
    } else {
        Some(
            Push {
                entity: thing.entity,
                impulse: direction.scale(base_impulse().times(charge_scale(captured_charge))),
            },
        )
    }
}

/// The pushes that things get, in their order.
pub open spec fn pushes(things: Seq<Located>, origin: Vec3, captured_charge: Option<Scalar>) -> Seq<
    Push,
>
    decreases things.len(),
{
    if things.len() == 0 {
        Seq::empty()
    } else {
        match explosion_push(things.last(), origin, captured_charge) {
            Some(push) => pushes(things.drop_last(), origin, captured_charge).push(push),
            None => pushes(things.drop_last(), origin, captured_charge),
        }
    }
}

/// The pushes that an explosion gives to the things in its area.
pub fn apply_explosion(
    things: &Vec<Located>,
    origin: Vec3,
    captured_charge: Option<Scalar>,
) -> (r: Vec<Push>)
    ensures
        r@ == pushes(things@, origin, captured_charge),
{
    let mut all: Vec<Push> = Vec::new();
    let mut i: usize = 0;
    while i < things.len()
        invariant
            i <= things.len(),
            all@ == pushes(things@.take(i as int), origin, captured_charge),
        decreases things.len() - i,
    {
        assert(things@.take(i + 1).drop_last() =~= things@.take(i as int));
        if let Some(push) = explosion_push(things[i], origin, captured_charge) {
            all.push(push);
        }
        i += 1;
    }
    assert(things@.take(things.len() as int) =~= things@);
    all
}

} // verus!

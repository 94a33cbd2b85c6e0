//! What goes over the wire.

use crate::closeness::{
    exact, grains, lemma_clamp_close, lemma_exact, lemma_exact_ordered, lemma_minus_close,
    lemma_neg_close, lemma_plus_close, lemma_size_of_product, lemma_times_close, lemma_whole,
    limit, size, within,
};
use crate::player::parts::PartSelection;
use crate::rounding::units;
use crate::scalar::{
    lemma_order_is_value, lemma_product, lemma_rem, lemma_sum_exact, lemma_sum_ordered, one, zero,
    Scalar,
};
use crate::spells::portal::PortalSlot;
use crate::vector::{Vec2, Vec3};
use vstd::arithmetic::power2::{lemma2_to64, lemma_pow2_adds, lemma_pow2_pos, lemma_pow2_unfold, pow2};
use vstd::prelude::*;

verus! {

/// Half a turn (`3.14159265358979`).
#[verifier::allow_in_spec]
pub fn pi() -> Scalar
    returns
        (Scalar { bits: 0x4049_0fdb }),
{
    Scalar { bits: 0x4049_0fdb }
}

/// A full turn (`6.2831855`).
#[verifier::allow_in_spec]
pub fn full_turn() -> Scalar
    returns
        (Scalar { bits: 0x40c9_0fdb }),
{
    Scalar { bits: 0x40c9_0fdb }
}

/// `0.5`.
#[verifier::allow_in_spec]
pub fn half() -> Scalar
    returns
        (Scalar { bits: 0x3f00_0000 }),
{
    Scalar { bits: 0x3f00_0000 }
}

/// How far a prediction may be off (`0.01`).
#[verifier::allow_in_spec]
pub fn rollback_threshold() -> Scalar
    returns
        (Scalar { bits: 0x3c23_d70a }),
{
    Scalar { bits: 0x3c23_d70a }
}

/// What a client does: sent each frame, never its position.
#[derive(Clone, Copy, Debug, PartialEq, Eq, Structural)]
pub struct PlayerInputMessage {
    /// To the right, and ahead.
    pub movement: Vec2,
    pub yaw: Scalar,
    pub pitch: Scalar,
    pub jump: bool,
    pub casting: bool,
}

/// A client's beam: what is on the ray is pushed and hurt.
#[derive(Clone, Copy, Debug, PartialEq, Eq, Structural)]
pub struct BeamImpulseMessage {
    pub origin: Vec3,
    pub direction: Vec3,
    pub range: Scalar,
    pub magnitude: Scalar,
    pub damage: Scalar,
}

/// A body that the server moves.
#[derive(Clone, Copy, Debug, PartialEq, Eq, Structural)]
pub struct NetworkedProp {
    pub shape: PropShape,
    pub tint_seed: Scalar,
    pub mass: Scalar,
    pub tint: Vec3,
}

/// The shapes that the wire knows.
#[derive(Clone, Copy, Debug, PartialEq, Eq, Structural)]
pub enum PropShape {
    Cube { size: Scalar },
    Sphere { radius: Scalar },
    Cuboid { x: Scalar, y: Scalar, z: Scalar },
}

impl Default for PropShape {
    fn default() -> (r: PropShape)
        ensures
            r == (PropShape::Cube { size: half() }),
    {
        PropShape::Cube { size: half() }
    }
}

/// A client throws a lantern.
#[derive(Clone, Copy, Debug, PartialEq, Eq, Structural)]
pub struct ThrowLanternMessage {
    pub origin: Vec3,
    pub velocity: Vec3,
}

/// A client picks up the lanterns nearby.
#[derive(Clone, Copy, Debug, PartialEq, Eq, Structural)]
pub struct PickupLanternMessage {
    pub player_position: Vec3,
}

/// A client's cast sends out a body.
#[derive(Debug)]
pub struct SpawnBodyMessage {
    pub origin: Vec3,
    pub velocity: Vec3,
    pub shape: PropShape,
    pub mass: Scalar,
    pub friction: Scalar,
    pub linear_damping: Scalar,
    pub angular_damping: Scalar,
    pub restitution: Scalar,
    pub tint_seed: Scalar,
    pub tint: Vec3,
    /// The cast that sends it, whose triggers and markers it gets.
    pub parent_cast: Option<ParentCastInfo>,
}

/// Names the cast that sends out a body.
#[derive(Debug)]
pub struct ParentCastInfo {
    pub spell_id: String,
    pub cast_id: String,
    pub captured_charge: Option<Scalar>,
    pub chain_depth: u8,
}

/// A portal that the server placed.
#[derive(Clone, Copy, Debug, PartialEq, Eq, Structural)]
pub struct NetworkedPortal {
    pub slot: PortalSlot,
    pub normal: Vec3,
}

/// A client places a portal.
#[derive(Clone, Copy, Debug, PartialEq, Eq, Structural)]
pub struct PlacePortalMessage {
    pub slot: PortalSlot,
    pub position: Vec3,
    pub normal: Vec3,
}

/// A client carries a portal, or lets go of it.
#[derive(Clone, Copy, Debug, PartialEq, Eq, Structural)]
pub struct HoldPortalMessage {
    pub slot: PortalSlot,
    pub active: bool,
    pub position: Vec3,
    pub yaw: Scalar,
    pub pitch: Scalar,
}

/// The client that something belongs to.
#[derive(Clone, Copy, Debug, PartialEq, Eq, Structural)]
pub struct NetworkOwner(pub u64);

/// The colors of the three regions of a material.
#[derive(Clone, Copy, Debug, PartialEq, Eq, Structural)]
pub struct Tints {
    pub red: Vec3,
    pub green: Vec3,
    pub blue: Vec3,
}

/// What a player looks like: the colors of skin and clothes, those of things, and
/// what is worn.
#[derive(Clone, Copy, Debug, PartialEq, Eq, Structural)]
pub struct PlayerCustomization {
    pub body: Tints,
    pub objects: Tints,
    pub parts: PartSelection,
}

impl Tints {
    pub open spec fn spec_first_body() -> Tints {
        Tints {
            red: Vec3 {
                x: Scalar { bits: 0x3f59_999a },
                y: Scalar { bits: 0x3f3d_70a4 },
                z: Scalar { bits: 0x3f1e_b852 },
            },
            green: Vec3 {
                x: Scalar { bits: 0x3ee6_6666 },
                y: Scalar { bits: 0x3e4c_cccd },
                z: Scalar { bits: 0x3f0c_cccd },
            },
            blue: Vec3 {
                x: Scalar { bits: 0x3dcc_cccd },
                y: Scalar { bits: 0x3da3_d70a },
                z: Scalar { bits: 0x3df5_c28f },
            },
        }
    }

    /// The colors of skin and clothes at first.
    #[verifier::when_used_as_spec(spec_first_body)]
    pub fn first_body() -> (r: Tints)
        ensures
            r == Self::spec_first_body(),
    {
        Tints {
            red: Vec3 {
                x: Scalar { bits: 0x3f59_999a },
                y: Scalar { bits: 0x3f3d_70a4 },
                z: Scalar { bits: 0x3f1e_b852 },
            },
            green: Vec3 {
                x: Scalar { bits: 0x3ee6_6666 },
                y: Scalar { bits: 0x3e4c_cccd },
                z: Scalar { bits: 0x3f0c_cccd },
            },
            blue: Vec3 {
                x: Scalar { bits: 0x3dcc_cccd },
                y: Scalar { bits: 0x3da3_d70a },
                z: Scalar { bits: 0x3df5_c28f },
            },
        }
    }

    pub open spec fn spec_first_objects() -> Tints {
        Tints {
            red: Vec3 {
                x: Scalar { bits: 0x3f26_6666 },
                y: Scalar { bits: 0x3f0c_cccd },
                z: Scalar { bits: 0x3e99_999a },
            },
            green: Vec3 {
                x: Scalar { bits: 0x3e4c_cccd },
                y: Scalar { bits: 0x3e19_999a },
                z: Scalar { bits: 0x3e80_0000 },
            },
            blue: Vec3 {
                x: Scalar { bits: 0x3f66_6666 },
                y: Scalar { bits: 0x3f61_47ae },
                z: Scalar { bits: 0x3f4c_cccd },
            },
        }
    }

    /// The colors of things at first.
    #[verifier::when_used_as_spec(spec_first_objects)]
    pub fn first_objects() -> (r: Tints)
        ensures
            r == Self::spec_first_objects(),
    {
        Tints {
            red: Vec3 {
                x: Scalar { bits: 0x3f26_6666 },
                y: Scalar { bits: 0x3f0c_cccd },
                z: Scalar { bits: 0x3e99_999a },
            },
            green: Vec3 {
                x: Scalar { bits: 0x3e4c_cccd },
                y: Scalar { bits: 0x3e19_999a },
                z: Scalar { bits: 0x3e80_0000 },
            },
            blue: Vec3 {
                x: Scalar { bits: 0x3f66_6666 },
                y: Scalar { bits: 0x3f61_47ae },
                z: Scalar { bits: 0x3f4c_cccd },
            },
        }
    }
}

impl Default for PlayerCustomization {
    fn default() -> (r: PlayerCustomization)
        ensures
            r == (PlayerCustomization {
                body: Tints::first_body(),
                objects: Tints::first_objects(),
                parts: PartSelection::starter(),
            }),
    {
        PlayerCustomization {
            body: Tints::first_body(),
            objects: Tints::first_objects(),
            parts: PartSelection::starter(),
        }
    }
}

/// A client wants to look like this.
#[derive(Clone, Copy, Debug, PartialEq, Eq, Structural)]
pub struct CustomizeMessage {
    pub customization: PlayerCustomization,
}

impl Default for CustomizeMessage {
    fn default() -> (r: CustomizeMessage)
        ensures
            r.customization == (PlayerCustomization {
                body: Tints::first_body(),
                objects: Tints::first_objects(),
                parts: PartSelection::starter(),
            }),
    {
        CustomizeMessage { customization: PlayerCustomization::default() }
    }
}

/// Where a client's beam goes, for everyone to see.
#[derive(Clone, Copy, Debug, PartialEq, Eq, Structural)]
pub struct BeamCastBroadcast {
    pub client_id: u64,
    pub active: bool,
    pub origin: Vec3,
    pub direction: Vec3,
    pub length: Scalar,
}

/// A name that every peer knows a thing by. Nought names nothing.
#[derive(Clone, Copy, Debug, PartialEq, Eq, Structural)]
pub struct NetworkedId(pub u64);

/// How much is left of something, for everyone to see.
#[derive(Clone, Copy, Debug, PartialEq, Eq, Structural)]
pub struct NetworkedHealth {
    pub hp: Scalar,
    pub max_hp: Scalar,
}

/// Where something is, for everyone to see.
#[derive(Clone, Copy, Debug, PartialEq, Eq, Structural)]
pub struct NetworkedPosition {
    pub x: Scalar,
    pub y: Scalar,
    pub z: Scalar,
    pub yaw: Scalar,
    pub pitch: Scalar,
    pub airborne: bool,
    pub casting: bool,
}

/// How far a client's cast has charged.
#[derive(Clone, Copy, Debug, PartialEq, Eq, Structural)]
pub struct ChargeStateMessage {
    pub active: bool,
    pub ratio: Scalar,
    pub tint: Vec3,
}

/// How far a client's cast has charged, for everyone to see.
#[derive(Clone, Copy, Debug, PartialEq, Eq, Structural)]
pub struct ChargeStateBroadcast {
    pub client_id: u64,
    pub active: bool,
    pub ratio: Scalar,
    pub tint: Vec3,
}

/// A client has come out of a portal and faces another way.
#[derive(Clone, Copy, Debug, PartialEq, Eq, Structural)]
pub struct TeleportSnap {
    pub client_id: u64,
    pub new_yaw: Scalar,
}

impl NetworkedPosition {
    pub open spec fn spec_from_vec3(v: Vec3) -> NetworkedPosition {
        NetworkedPosition {
            x: v.x,
            y: v.y,
            z: v.z,
            yaw: zero(),
            pitch: zero(),
            airborne: false,
            casting: false,
        }
    }

    /// At rest at a point.
    #[verifier::when_used_as_spec(spec_from_vec3)]
    pub fn from_vec3(v: Vec3) -> (r: NetworkedPosition)
        ensures
            r == Self::spec_from_vec3(v),
    {
        NetworkedPosition {
            x: v.x,
            y: v.y,
            z: v.z,
            yaw: zero(),
            pitch: zero(),
            airborne: false,
            casting: false,
        }
    }

    pub open spec fn spec_to_vec3(self) -> Vec3 {
        Vec3 { x: self.x, y: self.y, z: self.z }
    }

    /// The point.
    #[verifier::when_used_as_spec(spec_to_vec3)]
    pub fn to_vec3(self) -> (r: Vec3)
        ensures
            r == self.spec_to_vec3(),
    {
        Vec3 { x: self.x, y: self.y, z: self.z }
    }
}

pub open spec fn spec_yaw_between(start: Scalar, end: Scalar) -> Scalar {
    let rest = end.minus(start).rem(full_turn());
    if rest.gt(pi()) {
        rest.minus(full_turn())
    } else if rest.lt(pi().neg()) {
        rest.plus(full_turn())
    } else {
        rest
    }
}

/// The way from one yaw to another, the short way round: whole turns do not count.
#[verifier::when_used_as_spec(spec_yaw_between)]
pub fn yaw_between(start: Scalar, end: Scalar) -> (r: Scalar)
    ensures
        r == spec_yaw_between(start, end),
{
    let rest = end.minus(start).rem(full_turn());
    if rest.gt(pi()) {
        rest.minus(full_turn())
    } else if rest.lt(pi().neg()) {
        rest.plus(full_turn())
    } else {
        rest
    }
}

pub open spec fn spec_between(start: Scalar, end: Scalar, t: Scalar) -> Scalar {
    start.plus(end.minus(start).times(t))
}

/// `start + (end - start) * t`.
#[verifier::when_used_as_spec(spec_between)]
pub fn between(start: Scalar, end: Scalar, t: Scalar) -> (r: Scalar)
    ensures
        r == spec_between(start, end, t),
{
    start.plus(end.minus(start).times(t))
}

pub open spec fn spec_lerp_networked_position(
    start: NetworkedPosition,
    end: NetworkedPosition,
    t: Scalar,
) -> NetworkedPosition {
    let at = t.clamp(zero(), one());
    NetworkedPosition {
        x: between(start.x, end.x, at),
        y: between(start.y, end.y, at),
        z: between(start.z, end.z, at),
        yaw: start.yaw.plus(yaw_between(start.yaw, end.yaw).times(at)),
        pitch: between(start.pitch, end.pitch, at),
        airborne: if at.ge(half()) {
            end.airborne
        } else {
            start.airborne
        },
        casting: if at.ge(half()) {
            end.casting
        } else {
            start.casting
        },
    }
}

/// What something looks like at `t` between two snapshots. What is either so or
/// not changes halfway.
#[verifier::when_used_as_spec(spec_lerp_networked_position)]
pub fn lerp_networked_position(
    start: NetworkedPosition,
    end: NetworkedPosition,
    t: Scalar,
) -> (r: NetworkedPosition)
    ensures
        r == spec_lerp_networked_position(start, end, t),
{
    let at = t.clamp(zero(), one());
    NetworkedPosition {
        x: between(start.x, end.x, at),
        y: between(start.y, end.y, at),
        z: between(start.z, end.z, at),
        yaw: start.yaw.plus(yaw_between(start.yaw, end.yaw).times(at)),
        pitch: between(start.pitch, end.pitch, at),
        airborne: if at.ge(half()) {
            end.airborne
        } else {
            start.airborne
        },
        casting: if at.ge(half()) {
            end.casting
        } else {
            start.casting
        },
    }
}

/// What is sent of a point comes back as the same point.
pub proof fn law_point_comes_back(v: Vec3)
    ensures
        NetworkedPosition::from_vec3(v).to_vec3() == v,
{
}

proof fn lemma_full_turn()
    ensures
        full_turn().value() == 2 * pi().value(),
        pi().value() > 0,
{
    lemma_pow2_pos(127);
    lemma_pow2_unfold(128);
    let p = pow2(127) as int;
    assert(units(full_turn().magnitude()) == 0xc9_0fdb * (2 * p));
    assert(units(pi().magnitude()) == 0xc9_0fdb * p);
    assert(0xc9_0fdb * (2 * p) == 2 * (0xc9_0fdb * p)) by (nonlinear_arith);
}

/// What is between half a turn and a full one is short of a full one by a number that
/// needs no rounding.
proof fn lemma_short_of_a_turn(m: int) -> (p: int)
    requires
        pi().magnitude() < m < full_turn().magnitude(),
    ensures
        0 <= p < 0x100_0000,
        full_turn().value() - units(m) == p * pow2(127),
{
    lemma_pow2_unfold(128);
    let w = pow2(127) as int;
    let q = m % 0x80_0000 + 0x80_0000;
    let full = 0xc9_0fdbint;
    assert(full_turn().value() == full * (2 * w));
    if m / 0x80_0000 == 128 {
        assert(full * (2 * w) - q * w == (2 * full - q) * w) by (nonlinear_arith);
        2 * full - q
    } else {
        assert(m / 0x80_0000 == 129);
        assert(full * (2 * w) - q * (2 * w) == (2 * full - 2 * q) * w) by (nonlinear_arith);
        2 * full - 2 * q
    }
}

/// The way from one yaw to another is at most half a turn, either way, and leads
/// there: what it leaves out are whole turns.
pub proof fn law_yaw_takes_the_short_way(start: Scalar, end: Scalar)
    requires
        end.minus(start).is_finite(),
    ensures
        yaw_between(start, end).is_finite(),
        yaw_between(start, end).le(pi()),
        yaw_between(start, end).ge(pi().neg()),
        exists|turns: int|
            yaw_between(start, end).value() == end.minus(start).value() + #[trigger] (turns
                * full_turn().value()),
{
    let plain = end.minus(start);
    let full = full_turn();
    let rest = plain.rem(full);
    lemma_full_turn();
    lemma_rem(plain, full);
    lemma_order_is_value(rest, pi());
    lemma_order_is_value(rest, pi().neg());
    let n = choose|n: int| #[trigger] (n * full.value()) == plain.value() - rest.value();
    let f = full.value();
    assert((-n) * f == -(n * f) && (-n - 1) * f == -(n * f) - f && (-n + 1) * f == -(n * f) + f)
        by (nonlinear_arith);
    lemma_order_is_value(rest, full);
    lemma_order_is_value(rest, full.neg());
    if rest.gt(pi()) {
        let p = lemma_short_of_a_turn(rest.magnitude());
        lemma_sum_exact(rest, full.neg(), p, 127);
        lemma_order_is_value(rest.minus(full), pi());
        lemma_order_is_value(rest.minus(full), pi().neg());
        assert(yaw_between(start, end).value() == plain.value() + (-n - 1) * f);
    } else if rest.lt(pi().neg()) {
        let p = lemma_short_of_a_turn(rest.magnitude());
        lemma_sum_exact(rest, full, p, 127);
        lemma_order_is_value(rest.plus(full), pi());
        lemma_order_is_value(rest.plus(full), pi().neg());
        assert(yaw_between(start, end).value() == plain.value() + (-n + 1) * f);
    } else {
        assert(yaw_between(start, end).value() == plain.value() + (-n) * f);
    }
}

/// A step of nothing leads nowhere.
proof fn lemma_no_step(start: Scalar, way: Scalar, at: Scalar)
    requires
        start.is_finite(),
        way.is_finite(),
        at.is_finite(),
        at.magnitude() == 0,
    ensures
        start.plus(way.times(at)).equals(start),
{
    let step = way.times(at);
    assert(step.magnitude() == 0) by {
        reveal(Scalar::spec_times);
        lemma_product(way.magnitude(), 0);
    }
    lemma_sum_ordered(start, step, start);
}

/// A step along a way is close to the exact one.
proof fn lemma_step_close(start: Scalar, way: Scalar, at: Scalar, bound: real)
    requires
        start.is_finite(),
        way.is_finite(),
        at.is_finite(),
        0real <= exact(at) <= 1real,
        1real <= bound <= limit() / 16real,
        size(exact(start)) <= bound,
        size(exact(way)) <= 4real * bound,
    ensures
        within(
            start.plus(way.times(at)),
            exact(start) + exact(way) * exact(at),
            10real * bound,
        ),
{
    let step = way.times(at);
    lemma_size_of_product(exact(way), exact(at), 4real * bound, 1real);
    lemma_times_close(way, at, 4real * bound);
    lemma_plus_close(start, step, 6real * bound);
}

/// Whether a number is close to the one at `at` on the way from one to another.
pub open spec fn on_the_way(start: Scalar, end: Scalar, at: Scalar, r: Scalar, e: real) -> bool {
    within(r, exact(start) + (exact(end) - exact(start)) * exact(at), e)
}

proof fn lemma_between_close(start: Scalar, end: Scalar, at: Scalar, bound: real)
    requires
        start.is_finite(),
        end.is_finite(),
        at.is_finite(),
        0real <= exact(at) <= 1real,
        1real <= bound <= limit() / 16real,
        size(exact(start)) <= bound,
        size(exact(end)) <= bound,
    ensures
        on_the_way(start, end, at, between(start, end, at), 12real * bound),
        at.magnitude() == 0 ==> between(start, end, at).equals(start),
{
    let way = end.minus(start);
    let d = exact(end) - exact(start);
    lemma_minus_close(end, start, 2real * bound);
    lemma_step_close(start, way, at, bound);
    let off = exact(way) - d;
    lemma_size_of_product(off, exact(at), size(off), 1real);
    assert(exact(way) * exact(at) == d * exact(at) + off * exact(at)) by (nonlinear_arith)
        requires
            off == exact(way) - d,
    ;
    if at.magnitude() == 0 {
        lemma_no_step(start, way, at);
    }
}

pub proof fn lemma_pi_close()
    ensures
        3real < exact(pi()) < 4real,
        exact(full_turn()) == 2real * exact(pi()),
{
    lemma_full_turn();
    lemma_exact(pi());
    lemma_exact(full_turn());
    lemma_pow2_adds(127, 22);
    lemma2_to64();
    lemma_whole();
    assert(units(pi().magnitude()) == 0xc9_0fdb * pow2(127));
}

proof fn lemma_times_one(x: real, y: real)
    requires
        y == 1real,
    ensures
        x * y == x,
{
    assert(x * y == x) by (nonlinear_arith)
        requires
            y == 1real,
    ;
}

/// So many full turns.
pub open spec fn whole_turns(turns: int) -> real {
    (turns as real) * exact(full_turn())
}

/// What is shown between two snapshots is on the straight way from one to the other,
/// and turned the short way: at the start before it begins, at the end once it is
/// over. As big as the numbers are, as far off it is.
pub proof fn law_shown_is_on_the_way(
    start: NetworkedPosition,
    end: NetworkedPosition,
    t: Scalar,
    bound: real,
)
    requires
        !t.is_nan(),
        1real <= bound <= limit() / 16real,
        within(start.x, 0real, bound * grains()) && within(end.x, 0real, bound * grains()),
        within(start.y, 0real, bound * grains()) && within(end.y, 0real, bound * grains()),
        within(start.z, 0real, bound * grains()) && within(end.z, 0real, bound * grains()),
        within(start.yaw, 0real, bound * grains()) && within(end.yaw, 0real, bound * grains()),
    ensures
        ({
            let at = t.clamp(zero(), one());
            let shown = lerp_networked_position(start, end, t);
            &&& on_the_way(start.x, end.x, at, shown.x, 12real * bound)
            &&& on_the_way(start.y, end.y, at, shown.y, 12real * bound)
            &&& on_the_way(start.z, end.z, at, shown.z, 12real * bound)
            &&& shown.yaw.is_finite()
            &&& size(exact(shown.yaw) - exact(start.yaw)) * grains() <= exact(pi()) * grains()
                + 10real * bound
            &&& t.le(zero()) ==> {
                &&& shown.x.equals(start.x)
                &&& shown.y.equals(start.y)
                &&& shown.z.equals(start.z)
                &&& shown.yaw.equals(start.yaw)
            }
            &&& t.ge(one()) ==> {
                &&& within(shown.x, exact(end.x), 12real * bound)
                &&& within(shown.y, exact(end.y), 12real * bound)
                &&& within(shown.z, exact(end.z), 12real * bound)
                &&& exists|turns: int|
                    within(
                        shown.yaw,
                        exact(end.yaw) + #[trigger] whole_turns(turns),
                        12real * bound,
                    )
            }
        }),
{
    let at = t.clamp(zero(), one());
    lemma_clamp_close(t);
    lemma_between_close(start.x, end.x, at, bound);
    lemma_between_close(start.y, end.y, at, bound);
    lemma_between_close(start.z, end.z, at, bound);
    let way = yaw_between(start.yaw, end.yaw);
    let plain = end.yaw.minus(start.yaw);
    lemma_minus_close(end.yaw, start.yaw, 2real * bound);
    law_yaw_takes_the_short_way(start.yaw, end.yaw);
    lemma_pi_close();
    lemma_exact_ordered(way, pi());
    lemma_exact_ordered(pi().neg(), way);
    lemma_neg_close(pi());
    lemma_step_close(start.yaw, way, at, bound);
    lemma_size_of_product(exact(way), exact(at), exact(pi()), 1real);
    if at.magnitude() == 0 {
        lemma_no_step(start.yaw, way, at);
    }
    let f = full_turn().value();
    let turns = choose|turns: int| way.value() == plain.value() + #[trigger] (turns * f);
    lemma_exact(way);
    lemma_exact(plain);
    lemma_exact(full_turn());
    assert((turns * f) as real == (turns as real) * (f as real)) by (nonlinear_arith);
    let (tr, fr, full) = (turns as real, f as real, exact(full_turn()));
    let lit = 713623846352979940529142984724747568191373312real;
    assert((tr * full) * lit == tr * fr) by (nonlinear_arith)
        requires
            full * lit == fr,
    ;
    assert(exact(way) == exact(plain) + tr * full);
    if t.ge(one()) {
        lemma_times_one(exact(way), exact(at));
        lemma_times_one(exact(end.x) - exact(start.x), exact(at));
        lemma_times_one(exact(end.y) - exact(start.y), exact(at));
        lemma_times_one(exact(end.z) - exact(start.z), exact(at));
        assert(within(
            lerp_networked_position(start, end, t).yaw,
            exact(end.yaw) + whole_turns(turns),
            12real * bound,
        ));
    }
}

pub open spec fn spec_position_should_rollback(this: Vec3, that: Vec3) -> bool {
    this.minus(that).length().ge(rollback_threshold())
}

/// Whether a predicted point is too far off to let it stand.
#[verifier::when_used_as_spec(spec_position_should_rollback)]
pub fn position_should_rollback(this: Vec3, that: Vec3) -> (r: bool)
    ensures
        r == spec_position_should_rollback(this, that),
{
    this.minus(that).length().ge(rollback_threshold())
}

pub open spec fn spec_linear_velocity_should_rollback(this: Vec3, that: Vec3) -> bool {
    this.minus(that).length().ge(rollback_threshold())
}

/// Whether a predicted velocity is too far off to let it stand.
#[verifier::when_used_as_spec(spec_linear_velocity_should_rollback)]
pub fn linear_velocity_should_rollback(this: Vec3, that: Vec3) -> (r: bool)
    ensures
        r == spec_linear_velocity_should_rollback(this, that),
{
    this.minus(that).length().ge(rollback_threshold())
}

pub open spec fn spec_rotation_should_rollback(angle: Scalar) -> bool {
    angle.ge(rollback_threshold())
}

/// Whether a predicted orientation is too far off to let it stand, given the angle
/// that it is off by.
#[verifier::when_used_as_spec(spec_rotation_should_rollback)]
pub fn rotation_should_rollback(angle: Scalar) -> (r: bool)
    ensures
        r == spec_rotation_should_rollback(angle),
{
    angle.ge(rollback_threshold())
}

} // verus!

//! Points, directions and rotations in space.
//!
//! The formulas, down to the order of their sums, are those of the engine's
//! vector library, so a pose that is computed here equals one computed there.

use crate::scalar::{one, zero, Scalar, SIGN};
use vstd::prelude::*;

verus! {

/// A point or a direction.
#[derive(Clone, Copy, Debug, PartialEq, Eq, Structural)]
pub struct Vec3 {
    pub x: Scalar,
    pub y: Scalar,
    pub z: Scalar,
}

/// A point or a direction on a plane.
#[derive(Clone, Copy, Debug, PartialEq, Eq, Structural)]
pub struct Vec2 {
    pub x: Scalar,
    pub y: Scalar,
}

/// A rotation, as a unit quaternion.
#[derive(Clone, Copy, Debug, PartialEq, Eq, Structural)]
pub struct Quat {
    pub x: Scalar,
    pub y: Scalar,
    pub z: Scalar,
    pub w: Scalar,
}

/// A position and an orientation.
#[derive(Clone, Copy, Debug, PartialEq, Eq, Structural)]
pub struct Pose {
    pub translation: Vec3,
    pub rotation: Quat,
}

/// `2.0`.
#[verifier::allow_in_spec]
pub fn two() -> Scalar
    returns
        (Scalar { bits: 0x4000_0000 }),
{
    Scalar { bits: 0x4000_0000 }
}

impl Vec3 {
    pub open spec fn spec_new(x: Scalar, y: Scalar, z: Scalar) -> Vec3 {
        Vec3 { x, y, z }
    }

    /// The vector with these components.
    #[verifier::when_used_as_spec(spec_new)]
    pub fn new(x: Scalar, y: Scalar, z: Scalar) -> (r: Vec3)
        ensures
            r == Self::spec_new(x, y, z),
    {
        Vec3 { x, y, z }
    }

    pub open spec fn spec_origin() -> Vec3 {
        Vec3 { x: zero(), y: zero(), z: zero() }
    }

    /// The vector without any extent.
    #[verifier::when_used_as_spec(spec_origin)]
    pub fn origin() -> (r: Vec3)
        ensures
            r == Self::spec_origin(),
    {
        Vec3 { x: zero(), y: zero(), z: zero() }
    }

    pub open spec fn spec_plus(self, other: Vec3) -> Vec3 {
        Vec3 { x: self.x.plus(other.x), y: self.y.plus(other.y), z: self.z.plus(other.z) }
    }

    /// The sum, component by component.
    #[verifier::when_used_as_spec(spec_plus)]
    pub fn plus(self, other: Vec3) -> (r: Vec3)
        ensures
            r == self.spec_plus(other),
    {
        Vec3 { x: self.x.plus(other.x), y: self.y.plus(other.y), z: self.z.plus(other.z) }
    }

    pub open spec fn spec_minus(self, other: Vec3) -> Vec3 {
        Vec3 { x: self.x.minus(other.x), y: self.y.minus(other.y), z: self.z.minus(other.z) }
    }

    /// The difference, component by component.
    #[verifier::when_used_as_spec(spec_minus)]
    pub fn minus(self, other: Vec3) -> (r: Vec3)
        ensures
            r == self.spec_minus(other),
    {
        Vec3 { x: self.x.minus(other.x), y: self.y.minus(other.y), z: self.z.minus(other.z) }
    }

    pub open spec fn spec_scale(self, k: Scalar) -> Vec3 {
        Vec3 { x: self.x.times(k), y: self.y.times(k), z: self.z.times(k) }
    }

    /// Each component times `k`.
    #[verifier::when_used_as_spec(spec_scale)]
    pub fn scale(self, k: Scalar) -> (r: Vec3)
        ensures
            r == self.spec_scale(k),
    {
        Vec3 { x: self.x.times(k), y: self.y.times(k), z: self.z.times(k) }
    }

    pub open spec fn spec_shrink(self, k: Scalar) -> Vec3 {
        Vec3 { x: self.x.over(k), y: self.y.over(k), z: self.z.over(k) }
    }

    /// Each component divided by `k`.
    #[verifier::when_used_as_spec(spec_shrink)]
    pub fn shrink(self, k: Scalar) -> (r: Vec3)
        ensures
            r == self.spec_shrink(k),
    {
        Vec3 { x: self.x.over(k), y: self.y.over(k), z: self.z.over(k) }
    }

    pub open spec fn spec_neg(self) -> Vec3 {
        Vec3 { x: self.x.neg(), y: self.y.neg(), z: self.z.neg() }
    }

    /// The opposite vector.
    #[verifier::when_used_as_spec(spec_neg)]
    pub fn neg(self) -> (r: Vec3)
        ensures
            r == self.spec_neg(),
    {
        Vec3 { x: self.x.neg(), y: self.y.neg(), z: self.z.neg() }
    }

    pub open spec fn spec_equals(self, other: Vec3) -> bool {
        self.x.equals(other.x) && self.y.equals(other.y) && self.z.equals(other.z)
    }

    /// Whether the vectors are the same, component by component.
    #[verifier::when_used_as_spec(spec_equals)]
    pub fn equals(self, other: Vec3) -> (r: bool)
        ensures
            r == self.spec_equals(other),
    {
        self.x.equals(other.x) && self.y.equals(other.y) && self.z.equals(other.z)
    }

    pub open spec fn spec_is_finite(self) -> bool {
        self.x.is_finite() && self.y.is_finite() && self.z.is_finite()
    }

    /// Whether every component is finite.
    #[verifier::when_used_as_spec(spec_is_finite)]
    pub fn is_finite(self) -> (r: bool)
        ensures
            r == self.spec_is_finite(),
    {
        self.x.is_finite() && self.y.is_finite() && self.z.is_finite()
    }

    pub open spec fn spec_dot(self, other: Vec3) -> Scalar {
        self.x.times(other.x).plus(self.y.times(other.y)).plus(self.z.times(other.z))
    }

    /// The scalar product.
    #[verifier::when_used_as_spec(spec_dot)]
    pub fn dot(self, other: Vec3) -> (r: Scalar)
        ensures
            r == self.spec_dot(other),
    {
        self.x.times(other.x).plus(self.y.times(other.y)).plus(self.z.times(other.z))
    }

    pub open spec fn spec_cross(self, other: Vec3) -> Vec3 {
        Vec3 {
            x: self.y.times(other.z).minus(other.y.times(self.z)),
            y: self.z.times(other.x).minus(other.z.times(self.x)),
            z: self.x.times(other.y).minus(other.x.times(self.y)),
        }
    }

    /// The vector product.
    #[verifier::when_used_as_spec(spec_cross)]
    pub fn cross(self, other: Vec3) -> (r: Vec3)
        ensures
            r == self.spec_cross(other),
    {
        Vec3 {
            x: self.y.times(other.z).minus(other.y.times(self.z)),
            y: self.z.times(other.x).minus(other.z.times(self.x)),
            z: self.x.times(other.y).minus(other.x.times(self.y)),
        }
    }

    pub open spec fn spec_length_squared(self) -> Scalar {
        self.dot(self)
    }

    /// The square of the length.
    #[verifier::when_used_as_spec(spec_length_squared)]
    pub fn length_squared(self) -> (r: Scalar)
        ensures
            r == self.spec_length_squared(),
    {
        self.dot(self)
    }

    pub open spec fn spec_length(self) -> Scalar {
        self.dot(self).sqrt()
    }

    /// The length.
    #[verifier::when_used_as_spec(spec_length)]
    pub fn length(self) -> (r: Scalar)
        ensures
            r == self.spec_length(),
    {
        self.dot(self).sqrt()
    }

    pub open spec fn spec_distance(self, other: Vec3) -> Scalar {
        self.minus(other).length()
    }

    /// How far two points are apart.
    #[verifier::when_used_as_spec(spec_distance)]
    pub fn distance(self, other: Vec3) -> (r: Scalar)
        ensures
            r == self.spec_distance(other),
    {
        self.minus(other).length()
    }

    pub open spec fn spec_normalize(self) -> Vec3 {
        self.scale(one().over(self.length()))
    }

    /// The direction of a vector that has one.
    #[verifier::when_used_as_spec(spec_normalize)]
    pub fn normalize(self) -> (r: Vec3)
        ensures
            r == self.spec_normalize(),
    {
        self.scale(one().over(self.length()))
    }

    pub open spec fn spec_normalize_or_zero(self) -> Vec3 {
        if one().over(self.length()).is_finite() && one().over(self.length()).gt(zero()) {
            self.scale(one().over(self.length()))
        } else {
            Vec3::origin()
        }
    }

    /// The direction, or no extent where there is none.
    #[verifier::when_used_as_spec(spec_normalize_or_zero)]
    pub fn normalize_or_zero(self) -> (r: Vec3)
        ensures
            r == self.spec_normalize_or_zero(),
    {
        if one().over(self.length()).is_finite() && one().over(self.length()).gt(zero()) {
            self.scale(one().over(self.length()))
        } else {
            Vec3::origin()
        }
    }

    pub open spec fn spec_direction(self) -> Option<Vec3> {
        if self.length().is_finite() && self.length().gt(zero()) {
            Some(self.shrink(self.length()))
        } else {
            None
        }
    }

    /// The direction, where the length is neither nought nor beyond measure.
    #[verifier::when_used_as_spec(spec_direction)]
    pub fn direction(self) -> (r: Option<Vec3>)
        ensures
            r == self.spec_direction(),
    {
        if self.length().is_finite() && self.length().gt(zero()) {
            Some(self.shrink(self.length()))
        } else {
            None
        }
    }

    pub open spec fn spec_lerp(self, other: Vec3, t: Scalar) -> Vec3 {
        self.scale(one().minus(t)).plus(other.scale(t))
    }

    /// The point at `t` on the way from `self` to `other`.
    #[verifier::when_used_as_spec(spec_lerp)]
    pub fn lerp(self, other: Vec3, t: Scalar) -> (r: Vec3)
        ensures
            r == self.spec_lerp(other, t),
    {
        self.scale(one().minus(t)).plus(other.scale(t))
    }
}

impl Quat {
    pub open spec fn spec_identity() -> Quat {
        Quat { x: zero(), y: zero(), z: zero(), w: one() }
    }

    /// No rotation.
    #[verifier::when_used_as_spec(spec_identity)]
    pub fn identity() -> (r: Quat)
        ensures
            r == Self::spec_identity(),
    {
        Quat { x: zero(), y: zero(), z: zero(), w: one() }
    }

    pub open spec fn spec_inverse(self) -> Quat {
        Quat { x: self.x.neg(), y: self.y.neg(), z: self.z.neg(), w: self.w }
    }

    /// The rotation back.
    #[verifier::when_used_as_spec(spec_inverse)]
    pub fn inverse(self) -> (r: Quat)
        ensures
            r == self.spec_inverse(),
    {
        Quat { x: self.x.neg(), y: self.y.neg(), z: self.z.neg(), w: self.w }
    }

    pub open spec fn spec_equals(self, other: Quat) -> bool {
        self.x.equals(other.x) && self.y.equals(other.y) && self.z.equals(other.z) && self.w.equals(other.w)
    }

    /// Whether the components are the same.
    #[verifier::when_used_as_spec(spec_equals)]
    pub fn equals(self, other: Quat) -> (r: bool)
        ensures
            r == self.spec_equals(other),
    {
        self.x.equals(other.x) && self.y.equals(other.y) && self.z.equals(other.z) && self.w.equals(other.w)
    }

    pub open spec fn spec_axis(self) -> Vec3 {
        Vec3 { x: self.x, y: self.y, z: self.z }
    }

    /// The first three components.
    #[verifier::when_used_as_spec(spec_axis)]
    pub fn axis(self) -> (r: Vec3)
        ensures
            r == self.spec_axis(),
    {
        Vec3 { x: self.x, y: self.y, z: self.z }
    }

    pub open spec fn spec_rotate(self, v: Vec3) -> Vec3 {
        v.scale(self.w.times(self.w).minus(self.axis().dot(self.axis()))).plus(
            self.axis().scale(v.dot(self.axis()).times(two())),
        ).plus(self.axis().cross(v).scale(self.w.times(two())))
    }

    /// `v` turned by this rotation.
    #[verifier::when_used_as_spec(spec_rotate)]
    pub fn rotate(self, v: Vec3) -> (r: Vec3)
        ensures
            r == self.spec_rotate(v),
    {
        v.scale(self.w.times(self.w).minus(self.axis().dot(self.axis()))).plus(
            self.axis().scale(v.dot(self.axis()).times(two())),
        ).plus(self.axis().cross(v).scale(self.w.times(two())))
    }

    pub open spec fn spec_compose(self, other: Quat) -> Quat {
        Quat {
            x: self.w.times(other.x).plus(self.x.times(other.w)).plus(
                self.y.times(other.z).minus(self.z.times(other.y)),
            ),
            y: self.w.times(other.y).minus(self.x.times(other.z)).plus(
                self.y.times(other.w).plus(self.z.times(other.x)),
            ),
            z: self.w.times(other.z).plus(self.x.times(other.y)).plus(
                self.z.times(other.w).minus(self.y.times(other.x)),
            ),
            w: self.w.times(other.w).minus(self.x.times(other.x)).plus(
                self.y.times(other.y).neg().minus(self.z.times(other.z)),
            ),
        }
    }

    /// First `other`, after it this rotation.
    #[verifier::when_used_as_spec(spec_compose)]
    pub fn compose(self, other: Quat) -> (r: Quat)
        ensures
            r == self.spec_compose(other),
    {
        Quat {
            x: self.w.times(other.x).plus(self.x.times(other.w)).plus(
                self.y.times(other.z).minus(self.z.times(other.y)),
            ),
            y: self.w.times(other.y).minus(self.x.times(other.z)).plus(
                self.y.times(other.w).plus(self.z.times(other.x)),
            ),
            z: self.w.times(other.z).plus(self.x.times(other.y)).plus(
                self.z.times(other.w).minus(self.y.times(other.x)),
            ),
            w: self.w.times(other.w).minus(self.x.times(other.x)).plus(
                self.y.times(other.y).neg().minus(self.z.times(other.z)),
            ),
        }
    }
}

/// `0.5`.
#[verifier::allow_in_spec]
pub fn a_half() -> Scalar
    returns
        (Scalar { bits: 0x3f00_0000 }),
{
    Scalar { bits: 0x3f00_0000 }
}

pub open spec fn spec_sign_of(a: Scalar) -> Scalar {
    if a.is_nan() {
        a
    } else if a.bits >= SIGN {
        one().neg()
    } else {
        one()
    }
}

/// One with the sign of `a`.
#[verifier::when_used_as_spec(spec_sign_of)]
pub fn sign_of(a: Scalar) -> (r: Scalar)
    ensures
        r == spec_sign_of(a),
{
    if a.is_nan() {
        a
    } else if a.bits >= SIGN {
        one().neg()
    } else {
        one()
    }
}

pub open spec fn spec_any_across(v: Vec3) -> Vec3 {
    let sign = sign_of(v.z);
    let a = one().neg().over(sign.plus(v.z));
    let b = v.x.times(v.y).times(a);
    Vec3 { x: b, y: sign.plus(v.y.times(v.y).times(a)), z: v.y.neg() }
}

/// A direction across `v`, which is one itself.
#[verifier::when_used_as_spec(spec_any_across)]
pub fn any_across(v: Vec3) -> (r: Vec3)
    ensures
        r == spec_any_across(v),
{
    let sign = sign_of(v.z);
    let a = one().neg().over(sign.plus(v.z));
    let b = v.x.times(v.y).times(a);
    Vec3 { x: b, y: sign.plus(v.y.times(v.y).times(a)), z: v.y.neg() }
}

pub open spec fn spec_from_axes(x: Vec3, y: Vec3, z: Vec3) -> Quat {
    if z.z.le(zero()) {
        let differ = y.y.minus(x.x);
        let rest = one().minus(z.z);
        if differ.le(zero()) {
            let part = rest.minus(differ);
            let k = a_half().over(part.sqrt());
            Quat {
                x: part.times(k),
                y: x.y.plus(y.x).times(k),
                z: x.z.plus(z.x).times(k),
                w: y.z.minus(z.y).times(k),
            }
        } else {
            let part = rest.plus(differ);
            let k = a_half().over(part.sqrt());
            Quat {
                x: x.y.plus(y.x).times(k),
                y: part.times(k),
                z: y.z.plus(z.y).times(k),
                w: z.x.minus(x.z).times(k),
            }
        }
    } else {
        let both = y.y.plus(x.x);
        let rest = one().plus(z.z);
        if both.le(zero()) {
            let part = rest.minus(both);
            let k = a_half().over(part.sqrt());
            Quat {
                x: x.z.plus(z.x).times(k),
                y: y.z.plus(z.y).times(k),
                z: part.times(k),
                w: x.y.minus(y.x).times(k),
            }
        } else {
            let part = rest.plus(both);
            let k = a_half().over(part.sqrt());
            Quat {
                x: y.z.minus(z.y).times(k),
                y: z.x.minus(x.z).times(k),
                z: x.y.minus(y.x).times(k),
                w: part.times(k),
            }
        }
    }
}

/// The rotation that takes the axes of space to these.
#[verifier::when_used_as_spec(spec_from_axes)]
pub fn from_axes(x: Vec3, y: Vec3, z: Vec3) -> (r: Quat)
    ensures
        r == spec_from_axes(x, y, z),
{
    if z.z.le(zero()) {
        let differ = y.y.minus(x.x);
        let rest = one().minus(z.z);
        if differ.le(zero()) {
            let part = rest.minus(differ);
            let k = a_half().over(part.sqrt());
            Quat {
                x: part.times(k),
                y: x.y.plus(y.x).times(k),
                z: x.z.plus(z.x).times(k),
                w: y.z.minus(z.y).times(k),
            }
        } else {
            let part = rest.plus(differ);
            let k = a_half().over(part.sqrt());
            Quat {
                x: x.y.plus(y.x).times(k),
                y: part.times(k),
                z: y.z.plus(z.y).times(k),
                w: z.x.minus(x.z).times(k),
            }
        }
    } else {
        let both = y.y.plus(x.x);
        let rest = one().plus(z.z);
        if both.le(zero()) {
            let part = rest.minus(both);
            let k = a_half().over(part.sqrt());
            Quat {
                x: x.z.plus(z.x).times(k),
                y: y.z.plus(z.y).times(k),
                z: part.times(k),
                w: x.y.minus(y.x).times(k),
            }
        } else {
            let part = rest.plus(both);
            let k = a_half().over(part.sqrt());
            Quat {
                x: y.z.minus(z.y).times(k),
                y: z.x.minus(x.z).times(k),
                z: x.y.minus(y.x).times(k),
                w: part.times(k),
            }
        }
    }
}

pub open spec fn spec_direction_or_across(v: Vec3, up: Vec3) -> Vec3 {
    if one().over(v.length()).is_finite() && one().over(v.length()).gt(zero()) {
        v.scale(one().over(v.length()))
    } else {
        any_across(up)
    }
}

/// The direction of `v`, or one across `up` where it has none.
#[verifier::when_used_as_spec(spec_direction_or_across)]
pub fn direction_or_across(v: Vec3, up: Vec3) -> (r: Vec3)
    ensures
        r == spec_direction_or_across(v, up),
{
    if one().over(v.length()).is_finite() && one().over(v.length()).gt(zero()) {
        v.scale(one().over(v.length()))
    } else {
        any_across(up)
    }
}

pub open spec fn spec_looking(forward: Vec3, up: Vec3) -> Quat {
    let back = match forward.direction() {
        Some(d) => d.neg(),
        None => Vec3 { x: zero().neg(), y: zero().neg(), z: one() },
    };
    let top = match up.direction() {
        Some(d) => d,
        None => Vec3 { x: zero(), y: one(), z: zero() },
    };
    let right = direction_or_across(top.cross(back), top);
    from_axes(right, back.cross(right), back)
}

/// The rotation that looks along `forward` with its top as near to `up` as that allows.
/// Without a direction it looks along the negative Z axis, with the Y axis up.
#[verifier::when_used_as_spec(spec_looking)]
pub fn looking(forward: Vec3, up: Vec3) -> (r: Quat)
    ensures
        r == spec_looking(forward, up),
{
    let back = match forward.direction() {
        Some(d) => d.neg(),
        None => Vec3 { x: zero().neg(), y: zero().neg(), z: one() },
    };
    let top = match up.direction() {
        Some(d) => d,
        None => Vec3 { x: zero(), y: one(), z: zero() },
    };
    let right = direction_or_across(top.cross(back), top);
    from_axes(right, back.cross(right), back)
}

} // verus!

//! The convex lens: lanterns shine through it, and what comes out is a beam.
//!
//! How much power enters the lens depends on how the player stands to the
//! lanterns. The beam converges or diverges like light through a thin lens, and
//! goes on at the far side of a portal that it meets.

use crate::entity::{together, Entity};
use crate::net::protocol::BeamImpulseMessage;
use crate::physics::Ray;
use crate::scalar::{infinity, one, zero, Scalar};
use crate::spells::effects::Push;
use crate::spells::portal::{
    face, find_pair, pair_of, portal_radius, radial, tiny, HalfTurns, Portal,
};
use crate::vector::{Pose, Vec3};
use vstd::prelude::*;

verus! {

/// How far a beam goes (`30.0`).
#[verifier::allow_in_spec]
pub fn beam_max_range() -> Scalar
    returns
        (Scalar { bits: 0x41f0_0000 }),
{
    Scalar { bits: 0x41f0_0000 }
}

/// How hard a beam pushes in a second (`80.0`).
#[verifier::allow_in_spec]
pub fn beam_impulse_rate() -> Scalar
    returns
        (Scalar { bits: 0x42a0_0000 }),
{
    Scalar { bits: 0x42a0_0000 }
}

/// How much a beam hurts in a second (`30.0`).
#[verifier::allow_in_spec]
pub fn beam_damage_rate() -> Scalar
    returns
        (Scalar { bits: 0x41f0_0000 }),
{
    Scalar { bits: 0x41f0_0000 }
}

/// How far from a lantern no power is left (`14.0`).
#[verifier::allow_in_spec]
pub fn beam_power_falloff() -> Scalar
    returns
        (Scalar { bits: 0x4160_0000 }),
{
    Scalar { bits: 0x4160_0000 }
}

/// How far from a lantern a lens still sees it (`25.0`).
#[verifier::allow_in_spec]
pub fn tether_max_range() -> Scalar
    returns
        (Scalar { bits: 0x41c8_0000 }),
{
    Scalar { bits: 0x41c8_0000 }
}

/// A full turn (`6.2831855`).
#[verifier::allow_in_spec]
pub fn full_circle() -> Scalar
    returns
        (Scalar { bits: 0x40c9_0fdb }),
{
    Scalar { bits: 0x40c9_0fdb }
}

/// How wide the lens is, from its middle (`0.10`).
#[verifier::allow_in_spec]
pub fn lens_radius() -> Scalar
    returns
        (Scalar { bits: 0x3dcc_cccd }),
{
    Scalar { bits: 0x3dcc_cccd }
}

/// Where a lantern has to be for the beam to run parallel (`3.0`).
#[verifier::allow_in_spec]
pub fn focal_length() -> Scalar
    returns
        (Scalar { bits: 0x4040_0000 }),
{
    Scalar { bits: 0x4040_0000 }
}

/// What a power of one is shown as (`1200.0`).
#[verifier::allow_in_spec]
pub fn max_lumens() -> Scalar
    returns
        (Scalar { bits: 0x4496_0000 }),
{
    Scalar { bits: 0x4496_0000 }
}

/// How far to the side a lantern may be: fifteen degrees (`0.26179940`).
#[verifier::allow_in_spec]
pub fn yaw_tolerance() -> Scalar
    returns
        (Scalar { bits: 0x3e86_0a92 }),
{
    Scalar { bits: 0x3e86_0a92 }
}

/// How far up or down a lantern may be: thirty-five degrees (`0.61086524`).
#[verifier::allow_in_spec]
pub fn pitch_tolerance() -> Scalar
    returns
        (Scalar { bits: 0x3f1c_61aa }),
{
    Scalar { bits: 0x3f1c_61aa }
}

/// How close to the focal length counts as there (`0.001`).
#[verifier::allow_in_spec]
pub fn focal_slack() -> Scalar
    returns
        (Scalar { bits: 0x3a83_126f }),
{
    Scalar { bits: 0x3a83_126f }
}

/// How many segments a beam's mesh has.
pub const BEAM_SEGMENTS: u32 = 24;

/// A lantern that the lens sees.
#[derive(Clone, Copy, Debug, PartialEq, Eq, Structural)]
pub struct LensSource {
    pub entity: Entity,
    /// One at the edge of what is aligned.
    pub yaw_offset: Scalar,
    pub pitch_offset: Scalar,
    pub aligned: bool,
    pub lens_distance: Scalar,
}

/// How much power enters a player's lens, and from where.
#[derive(Debug)]
pub struct LensPower {
    pub scalar: Scalar,
    pub in_range: bool,
    pub aligned: bool,
    pub lens_distance: Scalar,
    pub lumens: Scalar,
    pub active_lantern: Option<Entity>,
    pub sources: Vec<LensSource>,
}

/// A lantern as the lens sees it: how far away, and in which direction, unless
/// the two are in one place.
#[derive(Clone, Copy, Debug, PartialEq, Eq, Structural)]
pub struct LensView {
    pub distance: Scalar,
    pub local: Option<Vec3>,
}

pub open spec fn spec_lens_view(lens: Pose, lantern: Vec3) -> Option<LensView> {
    let distance = lens.translation.distance(lantern);
    if distance.gt(tether_max_range()) {
        None
    } else {
        match lens.translation.minus(lantern).direction() {
            Some(radial) => Some(
                LensView { distance, local: Some(lens.rotation.inverse().rotate(radial)) },
            ),
            None => Some(LensView { distance, local: None }),
        }
    }
}

/// How the lens sees a lantern; not at all beyond its range.
#[verifier::when_used_as_spec(spec_lens_view)]
pub fn lens_view(lens: Pose, lantern: Vec3) -> (r: Option<LensView>)
    ensures
        r == spec_lens_view(lens, lantern),
{
    let distance = lens.translation.distance(lantern);
    if distance.gt(tether_max_range()) {
        None
    } else {
        match lens.translation.minus(lantern).direction() {
            Some(radial) => Some(
                LensView { distance, local: Some(lens.rotation.inverse().rotate(radial)) },
            ),
            None => Some(LensView { distance, local: None }),
        }
    }
}

pub open spec fn spec_lens_pitch_sine(local: Vec3) -> Scalar {
    local.y.clamp(one().neg(), one())
}

/// The sine of the pitch at which a lantern in this direction is.
#[verifier::when_used_as_spec(spec_lens_pitch_sine)]
pub fn lens_pitch_sine(local: Vec3) -> (r: Scalar)
    ensures
        r == spec_lens_pitch_sine(local),
{
    local.y.clamp(one().neg(), one())
}

/// At which angles a lantern is.
#[derive(Clone, Copy, Debug, PartialEq, Eq, Structural)]
pub struct LensAngles {
    pub yaw: Scalar,
    pub pitch: Scalar,
}

pub open spec fn spec_lens_source(
    entity: Entity,
    distance: Scalar,
    angles: Option<LensAngles>,
) -> LensSource {
    match angles {
        Some(angles) => LensSource {
            entity,
            yaw_offset: angles.yaw.over(yaw_tolerance()),
            pitch_offset: angles.pitch.over(pitch_tolerance()),
            aligned: angles.yaw.abs().le(yaw_tolerance()) && angles.pitch.abs().le(
                pitch_tolerance(),
            ),
            lens_distance: distance,
        },
        None => LensSource {
            entity,
            yaw_offset: zero(),
            pitch_offset: zero(),
            aligned: true,
            lens_distance: distance,
        },
    }
}

/// A lantern that the lens sees at these angles; one in the same place as the
/// lens is right ahead.
#[verifier::when_used_as_spec(spec_lens_source)]
pub fn lens_source(
    entity: Entity,
    distance: Scalar,
    angles: Option<LensAngles>,
) -> (r: LensSource)
    ensures
        r == spec_lens_source(entity, distance, angles),
{
    match angles {
        Some(angles) => LensSource {
            entity,
            yaw_offset: angles.yaw.over(yaw_tolerance()),
            pitch_offset: angles.pitch.over(pitch_tolerance()),
            aligned: angles.yaw.abs().le(yaw_tolerance()) && angles.pitch.abs().le(
                pitch_tolerance(),
            ),
            lens_distance: distance,
        },
        None => LensSource {
            entity,
            yaw_offset: zero(),
            pitch_offset: zero(),
            aligned: true,
            lens_distance: distance,
        },
    }
}

pub open spec fn spec_prefers(b: LensSource, a: LensSource) -> bool {
    if b.aligned != a.aligned {
        b.aligned
    } else {
        b.lens_distance.lt(a.lens_distance)
    }
}

/// Whether `b` is the better lantern: aligned rather than not, else nearer.
#[verifier::when_used_as_spec(spec_prefers)]
pub fn prefers(b: LensSource, a: LensSource) -> (r: bool)
    ensures
        r == spec_prefers(b, a),
{
    if b.aligned != a.aligned {
        b.aligned
    } else {
        b.lens_distance.lt(a.lens_distance)
    }
}

/// The best lantern: the first of those that no other is better than.
pub open spec fn best_of(sources: Seq<LensSource>) -> LensSource
    decreases sources.len(),
{
    if sources.len() <= 1 {
        sources[0]
    } else if prefers(sources.last(), best_of(sources.drop_last())) {
        sources.last()
    } else {
        best_of(sources.drop_last())
    }
}

pub open spec fn spec_power_of(source: LensSource) -> Scalar {
    one().minus(source.lens_distance.over(beam_power_falloff())).clamp(zero(), one())
}

/// What an aligned lantern gives: all of its power at no distance, and none at the
/// far end.
#[verifier::when_used_as_spec(spec_power_of)]
pub fn power_of(source: LensSource) -> (r: Scalar)
    ensures
        r == spec_power_of(source),
{
    one().minus(source.lens_distance.over(beam_power_falloff())).clamp(zero(), one())
}

/// What all aligned lanterns give together.
pub open spec fn total_power(sources: Seq<LensSource>) -> Scalar
    decreases sources.len(),
{
    if sources.len() == 0 {
        zero()
    } else if sources.last().aligned {
        total_power(sources.drop_last()).plus(power_of(sources.last()))
    } else {
        total_power(sources.drop_last())
    }
}

/// How much power enters a lens that sees these lanterns.
pub fn compute_lens_power(sources: Vec<LensSource>) -> (r: LensPower)
    ensures
        r.sources@ == sources@,
        sources@.len() == 0 ==> {
            &&& r.scalar == zero()
            &&& !r.in_range
            &&& !r.aligned
            &&& r.lens_distance == zero()
            &&& r.lumens == zero()
            &&& r.active_lantern is None
        },
        sources@.len() > 0 ==> {
            &&& r.scalar == total_power(sources@)
            &&& r.in_range
            &&& r.aligned == best_of(sources@).aligned
            &&& r.lens_distance == best_of(sources@).lens_distance
            &&& r.lumens == total_power(sources@).times(max_lumens())
            &&& r.active_lantern == Some(best_of(sources@).entity)
        },
{
    if sources.len() == 0 {
        return LensPower {
            scalar: zero(),
            in_range: false,
            aligned: false,
            lens_distance: zero(),
            lumens: zero(),
            active_lantern: None,
            sources,
        };
    }
    let mut best = sources[0];
    let mut scalar = zero();
    let mut i: usize = 0;
    while i < sources.len()
        invariant
            i <= sources.len(),
            sources.len() > 0,
            i == 0 ==> best == sources@[0],
            i > 0 ==> best == best_of(sources@.take(i as int)),
            scalar == total_power(sources@.take(i as int)),
        decreases sources.len() - i,
    {
        let source = sources[i];
        assert(sources@.take(i + 1).drop_last() =~= sources@.take(i as int));
        if i > 0 && prefers(source, best) {
            best = source;
        }
        if source.aligned {
            scalar = scalar.plus(power_of(source));
        }
        i += 1;
    }
    assert(sources@.take(sources.len() as int) =~= sources@);
    LensPower {
        scalar,
        in_range: true,
        aligned: best.aligned,
        lens_distance: best.lens_distance,
        lumens: scalar.times(max_lumens()),
        active_lantern: Some(best.entity),
        sources,
    }
}

/// The best lantern is one of those seen. If any is aligned, so is the best; and
/// none of those aligned alike is nearer.
pub proof fn law_best_lantern(sources: Seq<LensSource>, i: int)
    requires
        0 <= i < sources.len(),
        forall|j: int| 0 <= j < sources.len() ==> !(#[trigger] sources[j]).lens_distance.is_nan(),
    ensures
        sources.contains(best_of(sources)),
        sources[i].aligned ==> best_of(sources).aligned,
        sources[i].aligned == best_of(sources).aligned ==> best_of(sources).lens_distance.le(
            sources[i].lens_distance,
        ),
    decreases sources.len(),
{
    let rest = sources.drop_last();
    if sources.len() > 1 {
        assert forall|j: int| 0 <= j < rest.len() implies !(
        #[trigger] rest[j]).lens_distance.is_nan() by {
            assert(rest[j] == sources[j]);
        }
        if i < rest.len() {
            law_best_lantern(rest, i);
            assert(rest[i] == sources[i]);
        } else {
            law_best_lantern(rest, 0);
        }
        let b = best_of(rest);
        let j = choose|j: int| 0 <= j < rest.len() && rest[j] == b;
        assert(sources[j] == b);
        assert(sources[sources.len() - 1] == sources.last());
    } else {
        assert(sources[0] == best_of(sources));
    }
}

/// The ray of a beam from the lens. It goes through lanterns and the player.
pub fn lens_ray(lens: Vec3, direction: Vec3, lanterns: &Vec<Entity>, player: Entity) -> (r: Ray)
    ensures
        r.goes(lens, direction, beam_max_range(), lanterns@.push(player)),
{
    let mut ignored = together(lanterns, &Vec::new());
    ignored.push(player);
    Ray { origin: lens, direction, range: beam_max_range(), ignored }
}

/// What a ray met.
#[derive(Clone, Copy, Debug, PartialEq, Eq, Structural)]
pub struct RayHit {
    pub distance: Scalar,
    pub entity: Entity,
}

/// What a beam pushes, and in which direction.
#[derive(Clone, Copy, Debug, PartialEq, Eq, Structural)]
pub struct ImpulseInfo {
    pub direction: Vec3,
    pub entity: Entity,
}

/// The part of a beam beyond a portal.
#[derive(Clone, Copy, Debug, PartialEq, Eq, Structural)]
pub struct BentSegment {
    pub origin: Vec3,
    pub direction: Vec3,
    pub length: Scalar,
}

/// Where a beam goes.
#[derive(Clone, Copy, Debug, PartialEq, Eq, Structural)]
pub struct BeamHit {
    pub primary_dist: Scalar,
    pub impulse_info: Option<ImpulseInfo>,
    pub bent: Option<BentSegment>,
}

/// An entry and an exit that a beam can take.
#[derive(Clone, Copy, Debug, PartialEq, Eq, Structural)]
pub struct Passage {
    pub entry: Pose,
    pub exit: Pose,
}

/// The passages of a pair: either way.
pub open spec fn passages(portals: Seq<Portal>) -> Seq<Passage> {
    match pair_of(portals) {
        Some((primary, secondary)) => seq![
            Passage { entry: primary.pose, exit: secondary.pose },
            Passage { entry: secondary.pose, exit: primary.pose },
        ],
        None => Seq::empty(),
    }
}

/// The passages of a pair: either way; none while it is incomplete.
pub fn collect_portal_pairs(portals: &Vec<Portal>) -> (r: Vec<Passage>)
    ensures
        r@ == passages(portals@),
{
    let mut pairs: Vec<Passage> = Vec::new();
    if let Some((primary, secondary)) = find_pair(portals) {
        pairs.push(Passage { entry: primary.pose, exit: secondary.pose });
        pairs.push(Passage { entry: secondary.pose, exit: primary.pose });
    }
    assert(pairs@ =~= passages(portals@));
    pairs
}

pub open spec fn spec_disc_distance(
    origin: Vec3,
    direction: Vec3,
    disc: Pose,
    limit: Scalar,
) -> Option<Scalar> {
    let normal = face(disc.rotation);
    let slope = direction.dot(normal);
    let t = disc.translation.minus(origin).dot(normal).over(slope);
    let to_hit = origin.plus(direction.scale(t)).minus(disc.translation);
    if slope.abs().lt(tiny()) || t.lt(zero()) || t.gt(limit) || radial(to_hit, normal).gt(
        portal_radius(),
    ) {
        None
    } else {
        Some(t)
    }
}

/// How far along a ray a disc is met, if it is met before `limit`.
#[verifier::when_used_as_spec(spec_disc_distance)]
pub fn disc_distance(
    origin: Vec3,
    direction: Vec3,
    disc: Pose,
    limit: Scalar,
) -> (r: Option<Scalar>)
    ensures
        r == spec_disc_distance(origin, direction, disc, limit),
{
    let normal = face(disc.rotation);
    let slope = direction.dot(normal);
    let t = disc.translation.minus(origin).dot(normal).over(slope);
    let to_hit = origin.plus(direction.scale(t)).minus(disc.translation);
    if slope.abs().lt(tiny()) || t.lt(zero()) || t.gt(limit) || radial(to_hit, normal).gt(
        portal_radius(),
    ) {
        None
    } else {
        Some(t)
    }
}

/// A passage that a ray takes, and how far along it is.
#[derive(Clone, Copy, Debug, PartialEq, Eq, Structural)]
pub struct Crossing {
    pub distance: Scalar,
    pub passage: Passage,
}

/// The nearest passage that a ray meets before `limit`; the first of two that
/// are equally near.
pub open spec fn nearest_passage(
    passages: Seq<Passage>,
    origin: Vec3,
    direction: Vec3,
    limit: Scalar,
) -> Option<Crossing>
    decreases passages.len(),
{
    if passages.len() == 0 {
        None
    } else {
        let before = nearest_passage(passages.drop_last(), origin, direction, limit);
        match disc_distance(origin, direction, passages.last().entry, limit) {
            None => before,
            Some(t) => if before is None || t.lt(before->Some_0.distance) {
                Some(Crossing { distance: t, passage: passages.last() })
            } else {
                before
            },
        }
    }
}

/// The nearest passage that a ray meets before `limit`.
pub fn find_passage(
    passages: &Vec<Passage>,
    origin: Vec3,
    direction: Vec3,
    limit: Scalar,
) -> (r: Option<Crossing>)
    ensures
        r == nearest_passage(passages@, origin, direction, limit),
{
    let mut nearest: Option<Crossing> = None;
    let mut i: usize = 0;
    while i < passages.len()
        invariant
            i <= passages.len(),
            nearest == nearest_passage(passages@.take(i as int), origin, direction, limit),
        decreases passages.len() - i,
    {
        assert(passages@.take(i + 1).drop_last() =~= passages@.take(i as int));
        let passage = passages[i];
        if let Some(t) = disc_distance(origin, direction, passage.entry, limit) {
            let nearer = match nearest {
                None => true,
                Some(crossing) => t.lt(crossing.distance),
            };
            if nearer {
                nearest = Some(Crossing { distance: t, passage });
            }
        }
        i += 1;
    }
    assert(passages@.take(passages.len() as int) =~= passages@);
    nearest
}

pub open spec fn spec_bent_origin(origin: Vec3, direction: Vec3, crossing: Crossing) -> Vec3 {
    let entry = crossing.passage.entry;
    let exit = crossing.passage.exit;
    let at = origin.plus(direction.scale(crossing.distance));
    exit.translation.plus(
        exit.rotation.rotate(entry.rotation.inverse().rotate(at.minus(entry.translation))),
    )
}

/// Where a ray starts again beyond a passage.
#[verifier::when_used_as_spec(spec_bent_origin)]
pub fn bent_origin(origin: Vec3, direction: Vec3, crossing: Crossing) -> (r: Vec3)
    ensures
        r == spec_bent_origin(origin, direction, crossing),
{
    let entry = crossing.passage.entry;
    let exit = crossing.passage.exit;
    let at = origin.plus(direction.scale(crossing.distance));
    exit.translation.plus(
        exit.rotation.rotate(entry.rotation.inverse().rotate(at.minus(entry.translation))),
    )
}

pub open spec fn spec_bent_direction(
    direction: Vec3,
    crossing: Crossing,
    turns: HalfTurns,
) -> Vec3 {
    crossing.passage.exit.rotation.compose(turns.z).compose(
        crossing.passage.entry.rotation.inverse(),
    ).rotate(direction)
}

/// In which direction a ray goes on beyond a passage.
#[verifier::when_used_as_spec(spec_bent_direction)]
pub fn bent_direction(direction: Vec3, crossing: Crossing, turns: HalfTurns) -> (r: Vec3)
    ensures
        r == spec_bent_direction(direction, crossing, turns),
{
    crossing.passage.exit.rotation.compose(turns.z).compose(
        crossing.passage.entry.rotation.inverse(),
    ).rotate(direction)
}

/// What is left to find out about a beam.
#[derive(Clone, Copy, Debug, PartialEq, Eq, Structural)]
pub enum BeamPath {
    /// Nothing: it goes straight on.
    Straight(BeamHit),
    /// What a second ray meets, beyond a passage.
    Bent {
        primary_dist: Scalar,
        origin: Vec3,
        direction: Vec3,
        /// The direction of the second ray; there is none to cast without.
        ray: Option<Vec3>,
        remaining: Scalar,
    },
}

pub open spec fn spec_straight_beam(
    direction: Vec3,
    max_dist: Scalar,
    hit: Option<RayHit>,
) -> BeamHit {
    match hit {
        Some(hit) => BeamHit {
            primary_dist: hit.distance,
            impulse_info: Some(ImpulseInfo { direction, entity: hit.entity }),
            bent: None,
        },
        None => BeamHit { primary_dist: max_dist, impulse_info: None, bent: None },
    }
}

/// A beam that met no passage.
#[verifier::when_used_as_spec(spec_straight_beam)]
pub fn straight_beam(direction: Vec3, max_dist: Scalar, hit: Option<RayHit>) -> (r: BeamHit)
    ensures
        r == spec_straight_beam(direction, max_dist, hit),
{
    match hit {
        Some(hit) => BeamHit {
            primary_dist: hit.distance,
            impulse_info: Some(ImpulseInfo { direction, entity: hit.entity }),
            bent: None,
        },
        None => BeamHit { primary_dist: max_dist, impulse_info: None, bent: None },
    }
}

/// Where a beam goes whose first ray met `hit`.
pub open spec fn beam_path(
    origin: Vec3,
    direction: Vec3,
    max_dist: Scalar,
    hit: Option<RayHit>,
    passages: Seq<Passage>,
    turns: HalfTurns,
) -> BeamPath {
    let straight = straight_beam(direction, max_dist, hit);
    match nearest_passage(passages, origin, direction, straight.primary_dist) {
        None => BeamPath::Straight(straight),
        Some(crossing) => BeamPath::Bent {
            primary_dist: crossing.distance,
            origin: bent_origin(origin, direction, crossing),
            direction: bent_direction(direction, crossing, turns),
            ray: bent_direction(direction, crossing, turns).direction(),
            remaining: max_dist.minus(crossing.distance).max(zero()),
        },
    }
}

/// Where a beam goes whose first ray met `hit`: straight on, or beyond the
/// nearest passage before that.
pub fn cast_beam_ray(
    origin: Vec3,
    direction: Vec3,
    max_dist: Scalar,
    hit: Option<RayHit>,
    passages: &Vec<Passage>,
    turns: HalfTurns,
) -> (r: BeamPath)
    ensures
        r == beam_path(origin, direction, max_dist, hit, passages@, turns),
{
    let straight = straight_beam(direction, max_dist, hit);
    match find_passage(passages, origin, direction, straight.primary_dist) {
        None => BeamPath::Straight(straight),
        Some(crossing) => {
            let beyond = bent_direction(direction, crossing, turns);
            BeamPath::Bent {
                primary_dist: crossing.distance,
                origin: bent_origin(origin, direction, crossing),
                direction: beyond,
                ray: beyond.direction(),
                remaining: max_dist.minus(crossing.distance).max(zero()),
            }
        },
    }
}

pub open spec fn spec_finish_beam(path: BeamPath, hit: Option<RayHit>) -> BeamHit {
    match path {
        BeamPath::Straight(beam) => beam,
        BeamPath::Bent { primary_dist, origin, direction, ray, remaining } => {
            let (length, impulse_info) = match ray {
                None => (zero(), None),
                Some(_) => match hit {
                    Some(hit) => (
                        hit.distance,
                        Some(ImpulseInfo { direction, entity: hit.entity }),
                    ),
                    None => (remaining, None),
                },
            };
            BeamHit {
                primary_dist,
                impulse_info,
                bent: Some(BentSegment { origin, direction, length }),
            }
        },
    }
}

/// A beam whose second ray, if it was cast, met `hit`.
#[verifier::when_used_as_spec(spec_finish_beam)]
pub fn finish_beam(path: BeamPath, hit: Option<RayHit>) -> (r: BeamHit)
    ensures
        r == spec_finish_beam(path, hit),
{
    match path {
        BeamPath::Straight(beam) => beam,
        BeamPath::Bent { primary_dist, origin, direction, ray, remaining } => {
            let (length, impulse_info) = match ray {
                None => (zero(), None),
                Some(_) => match hit {
                    Some(hit) => (
                        hit.distance,
                        Some(ImpulseInfo { direction, entity: hit.entity }),
                    ),
                    None => (remaining, None),
                },
            };
            BeamHit {
                primary_dist,
                impulse_info,
                bent: Some(BentSegment { origin, direction, length }),
            }
        },
    }
}

/// A beam's shape: how long it is, and how wide at its end.
#[derive(Clone, Copy, Debug, PartialEq, Eq, Structural)]
pub struct BeamShape {
    pub length: Scalar,
    pub end_radius: Scalar,
}

pub open spec fn spec_image_distance(lens_distance: Scalar) -> Scalar {
    let beyond = lens_distance.minus(focal_length());
    if beyond.abs().lt(focal_slack()) {
        infinity()
    } else {
        focal_length().times(lens_distance).over(beyond)
    }
}

/// Where light from a lantern at this distance comes together again: beyond the
/// lens, before it, or nowhere.
#[verifier::when_used_as_spec(spec_image_distance)]
pub fn image_distance(lens_distance: Scalar) -> (r: Scalar)
    ensures
        r == spec_image_distance(lens_distance),
{
    let beyond = lens_distance.minus(focal_length());
    if beyond.abs().lt(focal_slack()) {
        infinity()
    } else {
        focal_length().times(lens_distance).over(beyond)
    }
}

pub open spec fn spec_beam_shape(lens_distance: Scalar, hit_distance: Scalar) -> BeamShape {
    let image = image_distance(lens_distance);
    if image.is_finite() && image.gt(zero()) {
        if hit_distance.lt(image) {
            BeamShape {
                length: hit_distance,
                end_radius: lens_radius().times(
                    one().minus(hit_distance.over(image)).max(zero()),
                ),
            }
        } else {
            BeamShape { length: image, end_radius: zero() }
        }
    } else if image.is_finite() && image.lt(zero()) {
        BeamShape {
            length: hit_distance,
            end_radius: lens_radius().times(one().plus(hit_distance.over(image.abs()))),
        }
    } else {
        BeamShape { length: hit_distance, end_radius: lens_radius() }
    }
}

/// The shape of a beam that goes as far as `hit_distance`. It ends where it
/// comes together, if that is nearer; it widens if it never does.
#[verifier::when_used_as_spec(spec_beam_shape)]
pub fn beam_shape(lens_distance: Scalar, hit_distance: Scalar) -> (r: BeamShape)
    ensures
        r == spec_beam_shape(lens_distance, hit_distance),
{
    let image = image_distance(lens_distance);
    if image.is_finite() && image.gt(zero()) {
        if hit_distance.lt(image) {
            BeamShape {
                length: hit_distance,
                end_radius: lens_radius().times(
                    one().minus(hit_distance.over(image)).max(zero()),
                ),
            }
        } else {
            BeamShape { length: image, end_radius: zero() }
        }
    } else if image.is_finite() && image.lt(zero()) {
        BeamShape {
            length: hit_distance,
            end_radius: lens_radius().times(one().plus(hit_distance.over(image.abs()))),
        }
    } else {
        BeamShape { length: hit_distance, end_radius: lens_radius() }
    }
}

pub open spec fn spec_beam_shows(in_control: bool, channeling: bool, power: Scalar) -> bool {
    in_control && channeling && !power.le(zero())
}

/// Whether a beam is there: while its cast channels, the player is in control,
/// and power enters the lens.
#[verifier::when_used_as_spec(spec_beam_shows)]
pub fn beam_shows(in_control: bool, channeling: bool, power: Scalar) -> (r: bool)
    ensures
        r == spec_beam_shows(in_control, channeling, power),
{
    in_control && channeling && !power.le(zero())
}

pub open spec fn spec_beam_impulse(power: Scalar, dt: Scalar) -> Scalar {
    beam_impulse_rate().times(power).times(dt)
}

/// How hard a beam pushes in `dt` seconds.
#[verifier::when_used_as_spec(spec_beam_impulse)]
pub fn beam_impulse(power: Scalar, dt: Scalar) -> (r: Scalar)
    ensures
        r == spec_beam_impulse(power, dt),
{
    beam_impulse_rate().times(power).times(dt)
}

pub open spec fn spec_beam_damage(power: Scalar, dt: Scalar) -> Scalar {
    beam_damage_rate().times(power).times(dt)
}

/// How much a beam hurts in `dt` seconds.
#[verifier::when_used_as_spec(spec_beam_damage)]
pub fn beam_damage(power: Scalar, dt: Scalar) -> (r: Scalar)
    ensures
        r == spec_beam_damage(power, dt),
{
    beam_damage_rate().times(power).times(dt)
}

/// One frame of a beam.
#[derive(Clone, Copy, Debug, PartialEq, Eq, Structural)]
pub struct BeamFrame {
    pub shape: BeamShape,
    /// The part beyond a portal, where it can be drawn.
    pub beyond: Option<BentSegment>,
    /// The push that what it meets gets here.
    pub push: Option<Push>,
    /// The same, for the server to do.
    pub message: BeamImpulseMessage,
}

pub open spec fn spec_cast_beam(
    lens: Vec3,
    direction: Vec3,
    power: Scalar,
    lens_distance: Scalar,
    dt: Scalar,
    hit: BeamHit,
) -> BeamFrame {
    BeamFrame {
        shape: beam_shape(lens_distance, hit.primary_dist),
        beyond: match hit.bent {
            Some(bent) => match bent.direction.direction() {
                Some(_) => Some(bent),
                None => None,
            },
            None => None,
        },
        push: match hit.impulse_info {
            Some(info) => Some(
                Push {
                    entity: info.entity,
                    impulse: info.direction.scale(beam_impulse(power, dt)),
                },
            ),
            None => None,
        },
        message: BeamImpulseMessage {
            origin: lens,
            direction,
            range: beam_max_range(),
            magnitude: beam_impulse(power, dt),
            damage: beam_damage(power, dt),
        },
    }
}

/// One frame of the beam of a player whose lens is at `lens` and looks
/// `direction`, given where the beam goes.
#[verifier::when_used_as_spec(spec_cast_beam)]
pub fn cast_beam(
    lens: Vec3,
    direction: Vec3,
    power: Scalar,
    lens_distance: Scalar,
    dt: Scalar,
    hit: BeamHit,
) -> (r: BeamFrame)
    ensures
        r == spec_cast_beam(lens, direction, power, lens_distance, dt, hit),
{
    BeamFrame {
        shape: beam_shape(lens_distance, hit.primary_dist),
        beyond: match hit.bent {
            Some(bent) => match bent.direction.direction() {
                Some(_) => Some(bent),
                None => None,
            },
            None => None,
        },
        push: match hit.impulse_info {
            Some(info) => Some(
                Push {
                    entity: info.entity,
                    impulse: info.direction.scale(beam_impulse(power, dt)),
                },
            ),
            None => None,
        },
        message: BeamImpulseMessage {
            origin: lens,
            direction,
            range: beam_max_range(),
            magnitude: beam_impulse(power, dt),
            damage: beam_damage(power, dt),
        },
    }
}

/// The aligned lanterns, between which and the lens a line is drawn.
pub fn tethers(sources: &Vec<LensSource>) -> (r: Vec<LensSource>)
    ensures
        r@ == sources@.filter(|s: LensSource| s.aligned),
{
    let ghost on = |s: LensSource| s.aligned;
    let mut drawn: Vec<LensSource> = Vec::new();
    let mut i: usize = 0;
    proof {
        reveal(Seq::filter);
    }
    while i < sources.len()
        invariant
            i <= sources.len(),
            on == (|s: LensSource| s.aligned),
            drawn@ == sources@.take(i as int).filter(on),
        decreases sources.len() - i,
    {
        proof {
            reveal(Seq::filter);
            assert(sources@.take(i + 1).drop_last() =~= sources@.take(i as int));
        }
        if sources[i].aligned {
            drawn.push(sources[i]);
        }
        i += 1;
    }
    assert(sources@.take(sources.len() as int) =~= sources@);
    drawn
}

/// The corner of a beam's mesh that stands at place `k` of its triangles. Corners
/// come in twos, one at the start of the beam and one at its end.
pub open spec fn frustum_index(segments: int, k: int) -> int {
    let i = k / 6;
    let next = (i + 1) % segments;
    let corner = k % 6;
    if corner == 0 || corner == 3 {
        2 * i
    } else if corner == 1 {
        2 * i + 1
    } else if corner == 5 {
        2 * next
    } else {
        2 * next + 1
    }
}

/// The triangles of a beam's mesh: two for each segment around it.
pub fn build_frustum_indices(segments: u32) -> (r: Vec<u32>)
    requires
        segments <= 0x8000_0000,
    ensures
        r@.len() == 6 * segments,
        forall|k: int| 0 <= k < r@.len() ==> #[trigger] r@[k] == frustum_index(segments as int, k),
{
    let mut indices: Vec<u32> = Vec::new();
    let mut i: u32 = 0;
    while i < segments
        invariant
            i <= segments,
            segments <= 0x8000_0000,
            indices@.len() == 6 * i,
            forall|k: int|
                0 <= k < indices@.len() ==> #[trigger] indices@[k] == frustum_index(
                    segments as int,
                    k,
                ),
        decreases segments - i,
    {
        let next: u32 = if i + 1 == segments {
            0
        } else {
            i + 1
        };
        assert(next == (i + 1) % (segments as int)) by (nonlinear_arith)
            requires
                next == (if i + 1 == segments {
                    0
                } else {
                    i + 1
                }),
                i < segments,
        ;
        indices.push(2 * i);
        indices.push(2 * i + 1);
        indices.push(2 * next + 1);
        indices.push(2 * i);
        indices.push(2 * next + 1);
        indices.push(2 * next);
        i += 1;
    }
    indices
}

/// A direction across a beam, by its sine and cosine.
#[derive(Clone, Copy, Debug, PartialEq, Eq, Structural)]
pub struct Spoke {
    pub sine: Scalar,
    pub cosine: Scalar,
}

/// The angle of the spoke at `i` among as many as there are segments.
pub open spec fn spec_spoke_angle(i: u32, segments: u32) -> Scalar {
    Scalar::from_u32(i).times(full_circle()).over(Scalar::from_u32(segments))
}

#[verifier::when_used_as_spec(spec_spoke_angle)]
pub fn spoke_angle(i: u32, segments: u32) -> (r: Scalar)
    ensures
        r == spec_spoke_angle(i, segments),
{
    Scalar::from_u32(i).times(full_circle()).over(Scalar::from_u32(segments))
}

/// The corner at `k` of a beam's mesh: the first of two is at the start of the beam,
/// the other at its end.
pub open spec fn frustum_corner(
    spokes: Seq<Spoke>,
    r_start: Scalar,
    r_end: Scalar,
    length: Scalar,
    k: int,
) -> Vec3 {
    let spoke = spokes[k / 2];
    if k % 2 == 0 {
        Vec3 { x: r_start.times(spoke.cosine), y: r_start.times(spoke.sine), z: zero() }
    } else {
        Vec3 { x: r_end.times(spoke.cosine), y: r_end.times(spoke.sine), z: length.neg() }
    }
}

/// Where the corner at `k` of a beam's mesh faces: outward.
pub open spec fn frustum_normal(spokes: Seq<Spoke>, k: int) -> Vec3 {
    Vec3 { x: spokes[k / 2].cosine, y: spokes[k / 2].sine, z: zero() }
}

/// The corners of a beam's mesh, and where they face.
#[derive(Debug)]
pub struct FrustumSides {
    pub positions: Vec<Vec3>,
    pub normals: Vec<Vec3>,
}

/// Gives a beam another width and length.
pub fn rewrite_frustum(
    spokes: &Vec<Spoke>,
    r_start: Scalar,
    r_end: Scalar,
    length: Scalar,
) -> (r: FrustumSides)
    ensures
        r.positions@ == Seq::new(
            2 * spokes@.len(),
            |k: int| frustum_corner(spokes@, r_start, r_end, length, k),
        ),
        r.normals@ == Seq::new(2 * spokes@.len(), |k: int| frustum_normal(spokes@, k)),
{
    let mut positions: Vec<Vec3> = Vec::new();
    let mut normals: Vec<Vec3> = Vec::new();
    let mut i: usize = 0;
    while i < spokes.len()
        invariant
            i <= spokes.len(),
            positions@ =~= Seq::new(
                2 * i as nat,
                |k: int| frustum_corner(spokes@, r_start, r_end, length, k),
            ),
            normals@ =~= Seq::new(2 * i as nat, |k: int| frustum_normal(spokes@, k)),
        decreases spokes.len() - i,
    {
        let spoke = spokes[i];
        let normal = Vec3 { x: spoke.cosine, y: spoke.sine, z: zero() };
        positions.push(
            Vec3 { x: r_start.times(spoke.cosine), y: r_start.times(spoke.sine), z: zero() },
        );
        positions.push(
            Vec3 { x: r_end.times(spoke.cosine), y: r_end.times(spoke.sine), z: length.neg() },
        );
        normals.push(normal);
        normals.push(normal);
        i += 1;
    }
    FrustumSides { positions, normals }
}

/// The mesh of a beam.
#[derive(Debug)]
pub struct FrustumMesh {
    pub sides: FrustumSides,
    pub indices: Vec<u32>,
}

/// A beam with a segment for each spoke.
pub fn build_frustum_mesh(
    spokes: &Vec<Spoke>,
    r_start: Scalar,
    r_end: Scalar,
    length: Scalar,
) -> (r: FrustumMesh)
    requires
        spokes@.len() <= 0x8000_0000,
    ensures
        r.sides.positions@ == Seq::new(
            2 * spokes@.len(),
            |k: int| frustum_corner(spokes@, r_start, r_end, length, k),
        ),
        r.sides.normals@ == Seq::new(2 * spokes@.len(), |k: int| frustum_normal(spokes@, k)),
        r.indices@.len() == 6 * spokes@.len(),
        forall|k: int|
            0 <= k < r.indices@.len() ==> #[trigger] r.indices@[k] == frustum_index(
                spokes@.len() as int,
                k,
            ),
{
    FrustumMesh {
        sides: rewrite_frustum(spokes, r_start, r_end, length),
        indices: build_frustum_indices(spokes.len() as u32),
    }
}

/// No triangle of a beam's mesh has a corner that the mesh lacks.
pub proof fn law_frustum_corners_are_there(segments: int, k: int)
    requires
        0 <= k < 6 * segments,
    ensures
        0 <= frustum_index(segments, k) < 2 * segments,
{
    let i = k / 6;
    assert(0 <= i < segments);
    assert(0 <= (i + 1) % segments < segments) by (nonlinear_arith)
        requires
            0 < segments,
    ;
}

} // verus!

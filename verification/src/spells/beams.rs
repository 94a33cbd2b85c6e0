//! How a beam goes on beyond a passage, next to what exact rotations do.
//!
//! How far a result is off is counted in grains.

use crate::closeness::{
    exact, grains, lemma_exact_constants, lemma_exact_ordered, lemma_minus_close, lemma_plus_close,
    lemma_quotient_back, lemma_times_close, limit, size, within,
};
use crate::scalar::{zero, Scalar};
use crate::spells::carrying::{
    are_half_turns, crosswise, half_z, lemma_axes, lemma_back_reach, lemma_carried_parts,
    lemma_halves, lemma_halves_near, lemma_local, lemma_part_in, lemma_part_out, lemma_placed,
    outwards, part, sideways,
};
use crate::spells::convex_lens::{
    beam_path, disc_distance, finish_beam, nearest_passage, Crossing, Passage, RayHit,
};
use crate::spells::portal::{face, HalfTurns};
use crate::spells::portal_views::widest;
use crate::turning::{
    is_scale, is_small, is_unit, lemma_close_wider, lemma_inverse, lemma_norm_of, lemma_parts_close,
    lemma_reach_near, lemma_squares_ordered, lemma_turned_close, lemma_way_round, reaches, Spot,
    Turn,
};
use crate::vector::{Pose, Vec3};
use vstd::prelude::*;

verus! {

/// How far the first ray of a beam goes: to what it meets, else as far as it can.
pub open spec fn first_reach(max_dist: Scalar, hit: Option<RayHit>) -> Scalar {
    match hit {
        Some(hit) => hit.distance,
        None => max_dist,
    }
}

/// Whether a beam goes through a passage before its first ray ends.
pub open spec fn takes_passage(
    origin: Vec3,
    direction: Vec3,
    max_dist: Scalar,
    hit: Option<RayHit>,
    passages: Seq<Passage>,
    crossing: Crossing,
) -> bool {
    nearest_passage(passages, origin, direction, first_reach(max_dist, hit)) == Some(crossing)
}

/// A beam that goes into the entry of a passage comes out of the front of the exit: what
/// its direction has towards the face of the entry, the new one has away from the face
/// of the exit. It is as long as it was, and turned half round the third axis.
pub proof fn law_beam_comes_out_of_the_front(
    origin: Vec3,
    direction: Vec3,
    max_dist: Scalar,
    hit: Option<RayHit>,
    passages: Seq<Passage>,
    turns: HalfTurns,
    crossing: Crossing,
    l: real,
)
    requires
        takes_passage(origin, direction, max_dist, hit, passages, crossing),
        is_unit(crossing.passage.entry.rotation),
        is_unit(crossing.passage.exit.rotation),
        are_half_turns(turns),
        direction.is_finite(),
        reaches(Spot::of(direction), l),
        is_scale(l / 65real),
    ensures
        ({
            let path = beam_path(origin, direction, max_dist, hit, passages, turns);
            let (a, b) = (crossing.passage.entry.rotation, crossing.passage.exit.rotation);
            let v = Spot::of(direction);
            let out = Spot::of(path->direction);
            &&& path is Bent
            &&& path->primary_dist == crossing.distance
            &&& path->direction.is_finite()
            &&& size(out.dot(out) - v.dot(v)) * grains() <= (l * l) * 2000real
            &&& size(part(out, b, outwards()) + part(v, a, outwards())) * grains() <= l * 700real
            &&& size(part(out, b, sideways()) + part(v, a, sideways())) * grains() <= l * 700real
            &&& size(part(out, b, crosswise()) - part(v, a, crosswise())) * grains() <= l * 700real
        }),
{
    let (a, b) = (crossing.passage.entry.rotation, crossing.passage.exit.rotation);
    lemma_halves_near(turns);
    lemma_halves(Turn::of(a).back().turned(Spot::of(direction)));
    lemma_carried_parts(direction, a, turns.z, b, half_z(), l);
}

/// Where a ray is after `t`, exactly.
pub open spec fn point_at(origin: Vec3, direction: Vec3, t: Scalar) -> Spot {
    Spot::of(origin).plus(Spot::of(direction).scale(exact(t)))
}

/// A beam starts again beyond a passage where it met the entry, as the exit lies to it.
pub proof fn law_beam_goes_on_where_it_went_in(
    origin: Vec3,
    direction: Vec3,
    max_dist: Scalar,
    hit: Option<RayHit>,
    passages: Seq<Passage>,
    turns: HalfTurns,
    crossing: Crossing,
    l: real,
    t: real,
)
    requires
        takes_passage(origin, direction, max_dist, hit, passages, crossing),
        is_unit(crossing.passage.entry.rotation),
        is_unit(crossing.passage.exit.rotation),
        is_small(origin, l),
        direction.is_finite(),
        crossing.distance.is_finite(),
        ({
            let v = Spot::of(direction).scale(exact(crossing.distance));
            size(v.x) <= l && size(v.y) <= l && size(v.z) <= l
        }),
        crossing.passage.entry.translation.is_finite(),
        reaches(
            point_at(origin, direction, crossing.distance).minus(
                Spot::of(crossing.passage.entry.translation),
            ),
            l,
        ),
        1real <= l * 1048576real,
        l * 2real <= widest(),
        is_small(crossing.passage.exit.translation, t),
        1real <= t * limit(),
        t <= widest(),
    ensures
        ({
            let path = beam_path(origin, direction, max_dist, hit, passages, turns);
            let (entry, exit) = (crossing.passage.entry, crossing.passage.exit);
            let (a, b) = (entry.rotation, exit.rotation);
            let was = point_at(origin, direction, crossing.distance).minus(
                Spot::of(entry.translation),
            );
            let now = Spot::of(path->origin).minus(Spot::of(exit.translation));
            let off = l * 700real + t * 4real;
            &&& path is Bent
            &&& path->origin.is_finite()
            &&& size(part(now, b, sideways()) - part(was, a, sideways())) * grains() <= off
            &&& size(part(now, b, outwards()) - part(was, a, outwards())) * grains() <= off
            &&& size(part(now, b, crosswise()) - part(was, a, crosswise())) * grains() <= off
        }),
{
    let (entry, exit) = (crossing.passage.entry, crossing.passage.exit);
    let (a, b) = (entry.rotation, exit.rotation);
    let p = point_at(origin, direction, crossing.distance);
    let was = p.minus(Spot::of(entry.translation));
    let at = origin.plus(direction.scale(crossing.distance));
    lemma_point_part(origin.x, direction.x, crossing.distance, l);
    lemma_point_part(origin.y, direction.y, crossing.distance, l);
    lemma_point_part(origin.z, direction.z, crossing.distance, l);
    lemma_parts_close(Spot::of(at), p, l * 4real, l * 7real);
    let here = Spot::of(at).minus(Spot::of(entry.translation));
    assert(here.minus(was) == Spot::of(at).minus(p));
    let m = l * (6real / 5real);
    lemma_quotient_back(m, 63real);
    lemma_quotient_back(m, 64real);
    lemma_reach_near(here, was, l * 7real, l, l * (1001real / 1000real));
    let k = l * (1001real / 1000real);
    lemma_quotient_back(k, 63real);
    lemma_quotient_back(k, 64real);
    lemma_local(at, entry, k);
    let t1 = Turn::of(a).back();
    let local = a.inverse().rotate(at.minus(entry.translation));
    let near = t1.turned(was);
    lemma_inverse(a);
    lemma_turned_close(t1, here, was, l * 7real);
    lemma_norm_of(a, l * 7real);
    lemma_way_round(
        Spot::of(local),
        t1.turned(here),
        near,
        k * 68real,
        t1.norm() * (l * 7real),
    );
    lemma_close_wider(
        Spot::of(local),
        near,
        k * 68real + t1.norm() * (l * 7real),
        m * 68real,
    );
    lemma_back_reach(a, was, l);
    let c = 101real / 100real;
    lemma_wider_reach(near, l * c, m * c);
    lemma_placed(local, near, exit, m, t);
    let path = beam_path(origin, direction, max_dist, hit, passages, turns);
    let now = Spot::of(path->origin).minus(Spot::of(exit.translation));
    lemma_axes(near);
    lemma_part_in(was, a, sideways());
    lemma_part_in(was, a, outwards());
    lemma_part_in(was, a, crosswise());
    let off = m * 141real + t * 2real;
    lemma_part_out(now, near, b, sideways(), off, l * c);
    lemma_part_out(now, near, b, outwards(), off, l * c);
    lemma_part_out(now, near, b, crosswise(), off, l * c);
}

proof fn lemma_wider_reach(u: Spot, l: real, m: real)
    requires
        reaches(u, l),
        l <= m,
    ensures
        reaches(u, m),
{
    lemma_squares_ordered(l, m);
}

pub proof fn lemma_point_part(o: Scalar, d: Scalar, t: Scalar, l: real)
    requires
        o.is_finite(),
        d.is_finite(),
        t.is_finite(),
        size(exact(o)) <= l,
        size(exact(d) * exact(t)) <= l,
        1real <= l * 1048576real,
        l <= widest(),
    ensures
        within(o.plus(d.times(t)), exact(o) + exact(d) * exact(t), l * 4real),
{
    lemma_times_close(d, t, l);
    lemma_plus_close(o, d.times(t), l * 3real);
}

/// The passage that a beam takes is one of those that there are, and no other one is
/// nearer.
pub proof fn law_beam_takes_the_nearest_passage(
    passages: Seq<Passage>,
    origin: Vec3,
    direction: Vec3,
    reach: Scalar,
)
    requires
        reach.is_finite(),
    ensures
        ({
            let taken = nearest_passage(passages, origin, direction, reach);
            &&& taken is None <==> forall|i: int|
                0 <= i < passages.len() ==> disc_distance(
                    origin,
                    direction,
                    (#[trigger] passages[i]).entry,
                    reach,
                ) is None
            &&& taken matches Some(crossing) ==> {
                &&& passages.contains(crossing.passage)
                &&& disc_distance(origin, direction, crossing.passage.entry, reach) == Some(
                    crossing.distance,
                )
                &&& forall|i: int|
                    0 <= i < passages.len() ==> (disc_distance(
                        origin,
                        direction,
                        (#[trigger] passages[i]).entry,
                        reach,
                    ) matches Some(t) ==> t.is_finite() && crossing.distance.is_finite()
                        ==> exact(crossing.distance) <= exact(t))
            }
        }),
    decreases passages.len(),
{
    if passages.len() > 0 {
        let rest = passages.drop_last();
        law_beam_takes_the_nearest_passage(rest, origin, direction, reach);
        let before = nearest_passage(rest, origin, direction, reach);
        let taken = nearest_passage(passages, origin, direction, reach);
        let n = passages.len() - 1;
        assert(passages[n] == passages.last());
        assert forall|i: int| 0 <= i < n implies rest[i] == passages[i] by {}
        let last = disc_distance(origin, direction, passages.last().entry, reach);
        if before is Some {
            let i = choose|i: int| 0 <= i < rest.len() && rest[i] == before->0.passage;
            assert(passages[i] == before->0.passage);
        }
        if before is None && last is None {
            assert forall|i: int| 0 <= i < passages.len() implies disc_distance(
                origin,
                direction,
                (#[trigger] passages[i]).entry,
                reach,
            ) is None by {
                if i < n {
                    assert(rest[i] == passages[i]);
                }
            }
        }
        if taken is Some {
            if before is Some {
                let i = choose|i: int| 0 <= i < rest.len() && rest[i] == before->0.passage;
                assert(disc_distance(origin, direction, passages[i].entry, reach) is Some);
            }
            let crossing = taken->0;
            assert forall|i: int| 0 <= i < passages.len() implies (disc_distance(
                origin,
                direction,
                (#[trigger] passages[i]).entry,
                reach,
            ) matches Some(t) ==> t.is_finite() && crossing.distance.is_finite()
                ==> exact(crossing.distance) <= exact(t)) by {
                let d = disc_distance(origin, direction, passages[i].entry, reach);
                if d is Some && d->0.is_finite() && crossing.distance.is_finite() {
                    if i < n {
                        assert(rest[i] == passages[i]);
                        assert(before is Some);
                        if crossing != before->0 {
                            lemma_met(origin, direction, before->0.passage.entry, reach);
                            lemma_nearer(crossing.distance, before->0.distance, d->0);
                        }
                    } else if before is Some && crossing == before->0 {
                        lemma_exact_ordered(d->0, crossing.distance);
                    }
                }
            }
        }
    }
}

/// A disc is met within reach.
proof fn lemma_met(origin: Vec3, direction: Vec3, disc: Pose, reach: Scalar)
    requires
        reach.is_finite(),
    ensures
        disc_distance(origin, direction, disc, reach) matches Some(t) ==> t.is_finite()
            || t.is_nan(),
{
}

/// What is nearer than something is nearer than all that is not.
proof fn lemma_nearer(a: Scalar, b: Scalar, c: Scalar)
    requires
        a.lt(b),
        a.is_finite(),
        c.is_finite(),
        b.is_finite() || b.is_nan(),
        b.is_finite() ==> exact(b) <= exact(c),
    ensures
        exact(a) <= exact(c),
{
    lemma_exact_ordered(a, b);
}

/// A bent beam that meets nothing beyond the passage goes as far as it can in all; what
/// it meets there it pushes in its new direction.
pub proof fn law_bent_beam_keeps_its_range(
    origin: Vec3,
    direction: Vec3,
    max_dist: Scalar,
    hit: Option<RayHit>,
    passages: Seq<Passage>,
    turns: HalfTurns,
    crossing: Crossing,
    beyond: Option<RayHit>,
    top: real,
)
    requires
        takes_passage(origin, direction, max_dist, hit, passages, crossing),
        max_dist.is_finite(),
        crossing.distance.is_finite(),
        0real <= exact(crossing.distance) <= exact(max_dist) <= top,
        1real <= top * limit(),
        top <= limit() / 4real,
    ensures
        ({
            let path = beam_path(origin, direction, max_dist, hit, passages, turns);
            let beam = finish_beam(path, beyond);
            &&& path is Bent
            &&& within(path->remaining, exact(max_dist) - exact(crossing.distance), top)
            &&& beam.primary_dist == crossing.distance
            &&& beam.bent is Some
            &&& beam.bent->0.origin == path->origin
            &&& beam.bent->0.direction == path->direction
            &&& path->ray is Some && beyond is None ==> beam.bent->0.length == path->remaining
                && beam.impulse_info is None
            &&& path->ray is Some && beyond is Some ==> beam.bent->0.length == beyond->0.distance
                && beam.impulse_info is Some && beam.impulse_info->0.direction == path->direction
                && beam.impulse_info->0.entity == beyond->0.entity
        }),
{
    let rest = max_dist.minus(crossing.distance);
    lemma_exact_constants();
    lemma_minus_close(max_dist, crossing.distance, top);
    lemma_exact_ordered(rest, zero());
}

} // verus!

//! What the server's portals do to what steps into them.

use crate::closeness::{
    exact, grains, lemma_exact, lemma_exact_ordered, lemma_times_close, lemma_whole, limit, size,
    within,
};
use crate::entity::Entity;
use crate::measuring::lemma_distance_close;
use crate::net::server_portals::{entered, server_step, was_at};
use crate::rounding::units;
use crate::scalar::zero;
use crate::spells::carrying::{
    are_half_turns, crosswise, is_off_by, law_comes_out_turned, law_comes_out_where_it_went_in,
    law_passing_changes_sides, law_view_lies_as_the_viewer, law_what_moves_in_moves_out, outwards,
    part, sideways,
};
use crate::spells::passing::{
    is_round, law_what_crosses_the_disc_goes_through, law_what_misses_the_disc_stays, lemma_radius,
    place_of,
};
use crate::spells::portal::{
    ahead, along, face_or_zero, horizontal_normal_dot_y, kept_lockout, lockout_factor,
    lockout_radius, needs_x_flip, pair_of, portal_at, portal_radius, still_locked, HalfTurns,
    Portal, TravelerView,
};
use crate::spells::portal_views::{
    is_near, is_not_upright, is_pair, law_view_pose_looks_along, widest,
};
use crate::turning::{close, is_nearly_unit, is_scale, is_small, is_unit, reaches, Spot, Turn};
use crate::vector::{Pose, Vec3};
use vstd::arithmetic::power2::{lemma2_to64, lemma_pow2_adds, pow2};
use vstd::prelude::*;

verus! {

/// Whether a body steps into `entry`, of a pair whose other portal is `exit`.
pub open spec fn steps_into(
    portals: Seq<Portal>,
    body: TravelerView,
    entry: Portal,
    exit: Portal,
) -> bool {
    let pos = body.pose.translation;
    pair_of(portals) matches Some(pair) && entered(
        pair,
        kept_lockout(portals, pos, body.lockout),
        was_at(body),
        pos,
    ) == Some((entry, exit))
}

/// The place and the disc that a body is carried from: those of a step ago if it was in
/// front of the disc then, else those of now.
pub open spec fn starts_from(body: TravelerView, entry: Portal) -> (Vec3, Pose) {
    if along(was_at(body), entry.prev).gt(zero()) {
        (was_at(body), entry.prev)
    } else {
        (body.pose.translation, entry.pose)
    }
}

/// Whatever steps into a portal of the server, a player or not, comes out of the other
/// one as fast as it went in; what it had towards the face of the entry it has away from
/// the face of the exit.
pub proof fn law_server_turns_velocities(
    portals: Seq<Portal>,
    body: TravelerView,
    player: bool,
    turns: HalfTurns,
    entry: Portal,
    exit: Portal,
    l: real,
)
    requires
        steps_into(portals, body, entry, exit),
        is_unit(entry.prev.rotation),
        is_unit(entry.pose.rotation),
        is_unit(exit.pose.rotation),
        are_half_turns(turns),
        body.velocity.is_finite(),
        reaches(Spot::of(body.velocity), l),
        is_scale(l / 65real),
    ensures
        ({
            let r = server_step(portals, body, player, turns).0.velocity;
            let (a, b) = (starts_from(body, entry).1.rotation, exit.pose.rotation);
            let (v, out) = (Spot::of(body.velocity), Spot::of(r));
            let (x, z) = (part(v, a, sideways()), part(v, a, crosswise()));
            let opposed = needs_x_flip(a, b);
            &&& r.is_finite()
            &&& size(out.dot(out) - v.dot(v)) * grains() <= (l * l) * 2000real
            &&& size(part(out, b, outwards()) + part(v, a, outwards())) * grains() <= l * 700real
            &&& size(
                part(out, b, sideways()) - (if opposed {
                    -x
                } else {
                    x
                }),
            ) * grains() <= l * 700real
            &&& size(
                part(out, b, crosswise()) - (if opposed {
                    z
                } else {
                    -z
                }),
            ) * grains() <= l * 700real
        }),
{
    let a = starts_from(body, entry).1.rotation;
    law_what_moves_in_moves_out(body.velocity, a, exit.pose.rotation, turns, l);
}

/// A body that steps into a portal of the server comes out of the other one where it was
/// before the first, and turned with the pair.
pub proof fn law_server_places_bodies(
    portals: Seq<Portal>,
    body: TravelerView,
    turns: HalfTurns,
    entry: Portal,
    exit: Portal,
    l: real,
    t: real,
    u: Spot,
    m: real,
)
    requires
        steps_into(portals, body, entry, exit),
        ({
            let (from, before) = starts_from(body, entry);
            &&& is_unit(before.rotation)
            &&& from.is_finite()
            &&& before.translation.is_finite()
            &&& reaches(Spot::of(from).minus(Spot::of(before.translation)), l)
        }),
        is_unit(exit.pose.rotation),
        is_unit(body.pose.rotation),
        are_half_turns(turns),
        is_small(exit.pose.translation, t),
        is_scale(l / 63real),
        is_scale(l / 64real),
        l <= widest(),
        1real <= t * limit(),
        t <= widest(),
        reaches(u, m),
        m > 0real,
    ensures
        ({
            let after = server_step(portals, body, false, turns).0;
            let (from, before) = starts_from(body, entry);
            let (a, b) = (before.rotation, exit.pose.rotation);
            let was = Spot::of(from).minus(Spot::of(before.translation));
            let now = Spot::of(after.pose.translation).minus(Spot::of(exit.pose.translation));
            let (x, y) = (part(was, a, sideways()), part(was, a, outwards()));
            let opposed = needs_x_flip(a, b);
            let off = l * 700real + t * 4real;
            let shown = Turn::of(body.pose.rotation).turned(u);
            let shows = Turn::of(after.pose.rotation).turned(u);
            let (p, q) = (part(shown, a, sideways()), part(shown, a, outwards()));
            &&& server_step(portals, body, false, turns).1 is None
            &&& after.pose.translation.is_finite()
            &&& after.prev == Some(after.pose.translation)
            &&& after.entity == body.entity
            &&& size(
                part(now, b, sideways()) - (if opposed {
                    -x
                } else {
                    x
                }),
            ) * grains() <= off
            &&& size(
                part(now, b, outwards()) - (if face_or_zero(b).y.ge(horizontal_normal_dot_y()) {
                    size(y)
                } else {
                    y
                }),
            ) * grains() <= off
            &&& size(part(now, b, crosswise()) - part(was, a, crosswise())) * grains() <= off
            &&& is_nearly_unit(after.pose.rotation)
            &&& size(
                part(shows, b, sideways()) - (if opposed {
                    -p
                } else {
                    p
                }),
            ) * grains() <= m * 700real
            &&& size(
                part(shows, b, outwards()) - (if opposed {
                    -q
                } else {
                    q
                }),
            ) * grains() <= m * 700real
            &&& size(part(shows, b, crosswise()) - part(shown, a, crosswise())) * grains() <= m
                * 700real
        }),
{
    let (from, before) = starts_from(body, entry);
    law_comes_out_where_it_went_in(from, before, exit.pose, l, t);
    law_comes_out_turned(
        body.pose.rotation,
        before.rotation,
        exit.pose.rotation,
        turns,
        u,
        m,
    );
}

/// A player who steps into a portal of the server comes out of the other one where the
/// view through the pair is seen from, and looks as it does, unless both look straight
/// up or down.
pub proof fn law_server_places_players(
    portals: Seq<Portal>,
    body: TravelerView,
    turns: HalfTurns,
    entry: Portal,
    exit: Portal,
    l: real,
    t: real,
)
    requires
        steps_into(portals, body, entry, exit),
        is_unit(body.pose.rotation),
        ({
            let (from, before) = starts_from(body, entry);
            let viewer = Pose { translation: from, rotation: body.pose.rotation };
            &&& is_pair(before, exit.pose, turns)
            &&& is_near(viewer, before, exit.pose, l, t)
            &&& is_not_upright(viewer, before, exit.pose, turns)
        }),
    ensures
        ({
            let (after, view) = server_step(portals, body, true, turns);
            let (from, before) = starts_from(body, entry);
            let (a, b) = (before.rotation, exit.pose.rotation);
            let was = Spot::of(from).minus(Spot::of(before.translation));
            let now = Spot::of(after.pose.translation).minus(Spot::of(exit.pose.translation));
            let seen = Spot::of(body.pose.rotation.rotate(ahead()));
            let sees = Spot::of(after.pose.rotation.rotate(ahead()));
            let off = l * 700real + t * 4real;
            &&& view is Some
            &&& view->0.position == after.pose.translation
            &&& after.prev == Some(after.pose.translation)
            &&& size(part(now, b, sideways()) + part(was, a, sideways())) * grains() <= off
            &&& size(part(now, b, outwards()) - part(was, a, outwards())) * grains() <= off
            &&& size(part(now, b, crosswise()) + part(was, a, crosswise())) * grains() <= off
            &&& close(sees, Spot::of(view->0.forward), 9100real)
            &&& size(part(Spot::of(view->0.forward), b, sideways()) + part(seen, a, sideways()))
                * grains() <= 700real
            &&& size(part(Spot::of(view->0.forward), b, outwards()) + part(seen, a, outwards()))
                * grains() <= 700real
            &&& size(part(Spot::of(view->0.forward), b, crosswise()) - part(seen, a, crosswise()))
                * grains() <= 700real
        }),
{
    let (from, before) = starts_from(body, entry);
    let viewer = Pose { translation: from, rotation: body.pose.rotation };
    law_view_lies_as_the_viewer(viewer, before, exit.pose, turns, l, t);
    law_view_pose_looks_along(viewer, before, exit.pose, turns);
}

/// What steps into a portal was not locked out of it and changed sides of its disc; the
/// two portals are those of the pair.
pub proof fn law_only_what_changes_sides_is_carried(
    portals: Seq<Portal>,
    body: TravelerView,
    entry: Portal,
    exit: Portal,
    l: real,
)
    requires
        steps_into(portals, body, entry, exit),
        is_off_by(was_at(body), entry.prev, l),
        is_off_by(body.pose.translation, entry.pose, l),
    ensures
        pair_of(portals) == Some((entry, exit)) || pair_of(portals) == Some((exit, entry)),
        !kept_lockout(portals, body.pose.translation, body.lockout).contains(entry.entity),
        ({
            let was = part(
                Spot::of(was_at(body)).minus(Spot::of(entry.prev.translation)),
                entry.prev.rotation,
                outwards(),
            );
            let now = part(
                Spot::of(body.pose.translation).minus(Spot::of(entry.pose.translation)),
                entry.pose.rotation,
                outwards(),
            );
            let off = l * 2100real;
            ||| was * grains() >= -off && now * grains() <= off
            ||| was * grains() <= off && now * grains() >= -off
        }),
{
    law_passing_changes_sides(was_at(body), body.pose.translation, entry.prev, entry.pose, l);
}

/// What crosses the disc of a portal within its rim, and is not locked out of it, is
/// carried.
pub proof fn law_server_carries_what_crosses(
    portals: Seq<Portal>,
    body: TravelerView,
    entry: Portal,
    exit: Portal,
    rho: real,
    l: real,
)
    requires
        pair_of(portals) == Some((entry, exit)),
        !kept_lockout(portals, body.pose.translation, body.lockout).contains(entry.entity),
        is_off_by(was_at(body), entry.prev, l),
        is_off_by(body.pose.translation, entry.pose, l),
        l >= 1real,
        l <= 1048576real,
        0real <= rho <= l,
        (exact(portal_radius()) - rho) * grains() > l * 4700real,
        is_round(place_of(was_at(body), entry.prev), entry.pose.rotation, rho),
        is_round(place_of(body.pose.translation, entry.pose), entry.pose.rotation, rho),
        ({
            let was = part(
                place_of(was_at(body), entry.prev),
                entry.prev.rotation,
                outwards(),
            );
            let now = part(
                place_of(body.pose.translation, entry.pose),
                entry.pose.rotation,
                outwards(),
            );
            let off = l * 2100real;
            ||| was * grains() > off && now * grains() < -off
            ||| was * grains() < -off && now * grains() > off
        }),
    ensures
        steps_into(portals, body, entry, exit),
{
    law_what_crosses_the_disc_goes_through(
        was_at(body),
        body.pose.translation,
        entry.prev,
        entry.pose,
        rho,
        l,
    );
}

/// What passes beside both discs is not carried, and goes on as it did.
pub proof fn law_server_leaves_what_misses(
    portals: Seq<Portal>,
    body: TravelerView,
    player: bool,
    turns: HalfTurns,
    pair: (Portal, Portal),
    w: Spot,
    v: Spot,
    l: real,
)
    requires
        pair_of(portals) == Some(pair),
        l >= 1real,
        l <= 1048576real,
        passes_beside(body, pair.0, w, l),
        passes_beside(body, pair.1, v, l),
    ensures
        server_step(portals, body, player, turns).0.pose == body.pose,
        server_step(portals, body, player, turns).0.velocity == body.velocity,
        server_step(portals, body, player, turns).0.prev == Some(body.pose.translation),
        server_step(portals, body, player, turns).1 is None,
{
    let (p, q) = (was_at(body), body.pose.translation);
    law_what_misses_the_disc_stays(p, q, pair.0.prev, pair.0.pose, w, l);
    law_what_misses_the_disc_stays(p, q, pair.1.prev, pair.1.pose, v, l);
}

/// Whether a body was and is beyond the rim of a disc, to the side of `w`.
pub open spec fn passes_beside(body: TravelerView, portal: Portal, w: Spot, l: real) -> bool {
    let rim = exact(portal_radius());
    &&& is_off_by(was_at(body), portal.prev, l)
    &&& is_off_by(body.pose.translation, portal.pose, l)
    &&& w.dot(w) == 1real
    &&& w.dot(Turn::of(portal.pose.rotation).turned(outwards())) == 0real
    &&& (place_of(was_at(body), portal.prev).dot(w) - rim) * grains() > l * 4700real
    &&& (place_of(body.pose.translation, portal.pose).dot(w) - rim) * grains() > l * 4700real
}

/// A used portal takes a body again once the body is away from it: farther than half as
/// far again as the rim.
pub proof fn law_used_portals_open_again(
    portals: Seq<Portal>,
    pos: Vec3,
    entity: Entity,
    at: Vec3,
    d: real,
)
    requires
        portal_at(portals, entity) == Some(at),
        pos.is_finite(),
        at.is_finite(),
        0real <= d <= 134217728real,
        ({
            let u = Spot::of(pos).minus(Spot::of(at));
            d * d == u.dot(u)
        }),
    ensures
        ({
            let reach = exact(lockout_radius());
            &&& (reach - d) * grains() > d * 25real + 4real ==> still_locked(portals, pos, entity)
            &&& (d - reach) * grains() > d * 25real + 4real ==> !still_locked(portals, pos, entity)
            &&& within(lockout_radius(), exact(portal_radius()) * 3real / 2real, 4real)
        }),
{
    lemma_distance_close(pos, at, d);
    lemma_lockout_radius();
    lemma_exact_ordered(pos.minus(at).length(), lockout_radius());
}

proof fn lemma_lockout_radius()
    ensures
        within(lockout_radius(), exact(portal_radius()) * 3real / 2real, 4real),
{
    lemma_radius();
    let f = lockout_factor();
    lemma_exact(f);
    lemma_whole();
    lemma_pow2_adds(126, 23);
    lemma2_to64();
    assert(f.magnitude() == 0x3fc0_0000int);
    assert(units(0x3fc0_0000int) == 0xc0_0000int * (pow2(126) as int)) by {
        assert(0x3fc0_0000int / 0x80_0000int == 127int);
        assert(0x3fc0_0000int % 0x80_0000int == 0x40_0000int);
    }
    assert(exact(f) == 3real / 2real);
    let r = exact(portal_radius());
    lemma_times_close(portal_radius(), f, 3real);
}

} // verus!

//! Where things are put, thrown and pushed, set against exact numbers.
//!
//! How far a result is off is counted in grains.

use crate::closeness::{
    exact, grains, lemma_exact, lemma_exact_constants, lemma_exact_ordered, lemma_neg_close,
    lemma_plus_within, lemma_quotient_back, lemma_size_of_product, lemma_times_close, lemma_whole,
    size, within,
};
use crate::composing::{
    after, lemma_after, lemma_after_norm, lemma_compose_close, lemma_near_norm, lemma_rotate_near,
};
use crate::entity::Entity;
use crate::magic::{near_throw_offset, on_pickup, on_throw_lantern, pickup_radius, MAX_LANTERNS};
use crate::measuring::{is_apart, lemma_direction_close, lemma_distance_close, lemma_times_near};
use crate::net::protocol::PickupLanternMessage;
use crate::net::server::forward_from_yaw_pitch;
use crate::net::server_bodies::{lantern_pickup_radius, within_reach, Lantern};
use crate::rounding::lemma_units_increase;
use crate::scalar::{lemma_order_is_value, lemma_units_of_power, one, zero, Scalar};
use crate::spells::effects;
use crate::spells::beams::lemma_point_part;
use crate::spells::damage::{FalloffKind, Team};
use crate::spells::data::{AreaShape, LaunchKind, TargetDef};
use crate::spells::deliveries::{launch_velocity, Aim};
use crate::spells::effects::{area_damage, impulse, impulse_tick, Located};
use crate::spells::engine::DeliveryTarget;
use crate::spells::explosion::{base_impulse, explosion_push};
use crate::spells::lantern::{throw_forward, throw_up};
use crate::spells::portal::{ahead, air_portal_distance, place_portal, surface_inset, SurfaceHit};
use crate::spells::portal_views::widest;
use crate::turning::{
    close, is_small, is_unit, lemma_cancel, lemma_close_wider, lemma_dot_scale, lemma_dot_swap,
    lemma_nothing, lemma_positive, lemma_regroup, lemma_scale_ordered, lemma_spread,
    lemma_spread_minus, lemma_square, lemma_squares_ordered, lemma_swap, reaches, Spot, Turn,
};
use crate::vector::{Quat, Vec3};
use vstd::prelude::*;

verus! {

/// Whether a result is where exact numbers put it, but for `e` grains in each coordinate.
pub open spec fn is_at(v: Vec3, u: Spot, e: real) -> bool {
    within(v.x, u.x, e) && within(v.y, u.y, e) && within(v.z, u.z, e)
}

/// Whether both a place and what is added to it are in measure.
pub open spec fn is_in_measure(o: Vec3, d: Vec3, k: Scalar, l: real) -> bool {
    &&& is_small(o, l)
    &&& d.is_finite()
    &&& k.is_finite()
    &&& size(exact(d.x) * exact(k)) <= l
    &&& size(exact(d.y) * exact(k)) <= l
    &&& size(exact(d.z) * exact(k)) <= l
    &&& 1real <= l * 1048576real
    &&& l * 8real <= widest()
}

/// A portal that is put on a surface lies where the ray met it, a little off, and faces
/// as the surface does.
pub proof fn law_portal_lies_on_the_surface(
    eye: Vec3,
    forward: Vec3,
    hit: SurfaceHit,
    l: real,
)
    requires
        forward.direction() is Some,
        is_in_measure(eye, forward, hit.distance, l),
        is_in_measure(eye, hit.normal, surface_inset(), l),
    ensures
        ({
            let r = place_portal(eye, forward, Some(hit));
            let there = Spot::of(eye).plus(Spot::of(forward).scale(exact(hit.distance))).plus(
                Spot::of(hit.normal).scale(exact(surface_inset())),
            );
            &&& r matches Some((at, normal)) && is_at(at, there, l * 20real) && normal
                == hit.normal
        }),
{
    let p = eye.plus(forward.scale(hit.distance));
    lemma_on_the_way(eye, forward, hit.distance, l);
    lemma_added(
        p.x,
        exact(eye.x) + exact(forward.x) * exact(hit.distance),
        hit.normal.x,
        surface_inset(),
        l,
    );
    lemma_added(
        p.y,
        exact(eye.y) + exact(forward.y) * exact(hit.distance),
        hit.normal.y,
        surface_inset(),
        l,
    );
    lemma_added(
        p.z,
        exact(eye.z) + exact(forward.z) * exact(hit.distance),
        hit.normal.z,
        surface_inset(),
        l,
    );
}

/// A portal that meets no surface floats ahead and faces back.
pub proof fn law_portal_floats_ahead(eye: Vec3, forward: Vec3, l: real)
    requires
        forward.direction() is Some,
        is_in_measure(eye, forward, air_portal_distance(), l),
    ensures
        ({
            let r = place_portal(eye, forward, None);
            let there = Spot::of(eye).plus(Spot::of(forward).scale(exact(air_portal_distance())));
            &&& r matches Some((at, normal)) && is_at(at, there, l * 4real) && Spot::of(normal)
                == Spot::of(forward).scale(-1real)
        }),
{
    lemma_on_the_way(eye, forward, air_portal_distance(), l);
    lemma_neg_close(forward.x);
    lemma_neg_close(forward.y);
    lemma_neg_close(forward.z);
}

/// A point some way along a direction.
proof fn lemma_on_the_way(o: Vec3, d: Vec3, k: Scalar, l: real)
    requires
        is_in_measure(o, d, k, l),
    ensures
        is_at(o.plus(d.scale(k)), Spot::of(o).plus(Spot::of(d).scale(exact(k))), l * 4real),
{
    lemma_point_part(o.x, d.x, k, l);
    lemma_point_part(o.y, d.y, k, l);
    lemma_point_part(o.z, d.z, k, l);
}

proof fn lemma_added(p: Scalar, x: real, n: Scalar, k: Scalar, l: real)
    requires
        within(p, x, l * 4real),
        size(x) <= l * 2real,
        n.is_finite(),
        k.is_finite(),
        size(exact(n) * exact(k)) <= l,
        1real <= l * 1048576real,
        l * 8real <= widest(),
    ensures
        within(p.plus(n.times(k)), x + exact(n) * exact(k), l * 20real),
{
    lemma_times_close(n, k, l);
    lemma_plus_within(p, x, l * 4real, n.times(k), exact(n) * exact(k), l, l * 4real);
}

/// A lantern is thrown from a little ahead of the eyes, where they look and a little up,
/// as long as not enough of them are out.
pub proof fn law_lanterns_are_thrown_ahead(out: usize, eye: Vec3, forward: Vec3, l: real)
    requires
        is_in_measure(eye, forward, near_throw_offset(), l),
        is_in_measure(eye, forward, throw_forward(), l),
        size(exact(throw_up())) <= l,
        throw_up().is_finite(),
    ensures
        ({
            let r = on_throw_lantern(out, eye, forward);
            &&& r is None <==> out >= MAX_LANTERNS
            &&& r is Some ==> {
                let v = Spot::of(forward).scale(exact(throw_forward()));
                &&& is_at(
                    r->0.origin,
                    Spot::of(eye).plus(Spot::of(forward).scale(exact(near_throw_offset()))),
                    l * 4real,
                )
                &&& is_at(
                    r->0.velocity,
                    Spot { x: v.x, y: v.y + exact(throw_up()), z: v.z },
                    l * 5real,
                )
            }
        }),
{
    lemma_on_the_way(eye, forward, near_throw_offset(), l);
    lemma_thrown(forward, throw_forward(), throw_up(), l);
}

/// What is thrown at one speed ahead and another one up.
proof fn lemma_thrown(forward: Vec3, fast: Scalar, high: Scalar, l: real)
    requires
        forward.is_finite(),
        fast.is_finite(),
        high.is_finite(),
        size(exact(high)) <= l,
        size(exact(forward.x) * exact(fast)) <= l,
        size(exact(forward.y) * exact(fast)) <= l,
        size(exact(forward.z) * exact(fast)) <= l,
        1real <= l * 1048576real,
        l * 8real <= widest(),
    ensures
        ({
            let up = Vec3 { x: zero(), y: one(), z: zero() };
            let v = Spot::of(forward).scale(exact(fast));
            is_at(
                forward.scale(fast).plus(up.scale(high)),
                Spot { x: v.x, y: v.y + exact(high), z: v.z },
                l * 5real,
            )
        }),
{
    let (x, h) = (exact(fast), exact(high));
    lemma_exact_constants();
    lemma_nothing(exact(zero()), h);
    assert(exact(one()) * h == h);
    let o = l / 4real;
    lemma_quotient_back(l, 4real);
    lemma_times_close(zero(), high, o);
    lemma_times_close(one(), high, l);
    lemma_times_close(forward.x, fast, l);
    lemma_times_close(forward.y, fast, l);
    lemma_times_close(forward.z, fast, l);
    lemma_plus_within(
        forward.x.times(fast),
        exact(forward.x) * x,
        l,
        zero().times(high),
        0real,
        o,
        l * 2real,
    );
    lemma_plus_within(
        forward.y.times(fast),
        exact(forward.y) * x,
        l,
        one().times(high),
        h,
        l,
        l * 3real,
    );
    lemma_plus_within(
        forward.z.times(fast),
        exact(forward.z) * x,
        l,
        zero().times(high),
        0real,
        o,
        l * 2real,
    );
}

/// A lantern is picked up by who is near enough, and by no one else.
pub proof fn law_near_lanterns_are_picked_up(player: Vec3, lantern: Vec3, d: real)
    requires
        player.is_finite(),
        lantern.is_finite(),
        0real <= d <= 134217728real,
        ({
            let u = Spot::of(player).minus(Spot::of(lantern));
            d * d == u.dot(u)
        }),
        pickup_radius().is_finite(),
    ensures
        (exact(pickup_radius()) - d) * grains() > d * 25real + 4real ==> on_pickup(player, lantern),
        (d - exact(pickup_radius())) * grains() > d * 25real + 4real ==> !on_pickup(
            player,
            lantern,
        ),
{
    lemma_distance_close(player, lantern, d);
    lemma_exact_ordered(player.distance(lantern), pickup_radius());
}

/// The same of the server's lanterns.
pub proof fn law_server_lanterns_are_picked_up(
    msg: PickupLanternMessage,
    lantern: Lantern,
    d: real,
)
    requires
        msg.player_position.is_finite(),
        lantern.at.is_finite(),
        0real <= d <= 134217728real,
        ({
            let u = Spot::of(msg.player_position).minus(Spot::of(lantern.at));
            d * d == u.dot(u)
        }),
    ensures
        ({
            let reach = exact(lantern_pickup_radius());
            &&& (reach - d) * grains() > d * 25real + 4real
                ==> within_reach(msg, lantern)
            &&& (d - reach) * grains() > d * 25real + 4real
                ==> !within_reach(msg, lantern)
        }),
{
    lemma_distance_close(msg.player_position, lantern.at, d);
    lemma_exact_ordered(
        msg.player_position.distance(lantern.at),
        lantern_pickup_radius(),
    );
}

/// An explosion pushes things away from where it is, as hard for all of them, and by its
/// charge.
pub proof fn law_explosions_push_away(
    thing: Located,
    origin: Vec3,
    charge: Scalar,
    d: real,
)
    requires
        is_apart(thing.position, origin, d),
        charge.is_finite(),
        0real < exact(charge) <= 1024real,
        exact(charge) * 1048576real >= 1real,
    ensures
        ({
            let r = explosion_push(thing, origin, Some(charge));
            let u = Spot::of(thing.position).minus(Spot::of(origin));
            let hard = exact(base_impulse()) * exact(charge);
            &&& r is Some
            &&& r->0.entity == thing.entity
            &&& is_at(
                r->0.impulse,
                Spot { x: u.x / d * hard, y: u.y / d * hard, z: u.z / d * hard },
                hard * 60real,
            )
        }),
{
    let g = grains();
    let u = Spot::of(thing.position).minus(Spot::of(origin));
    lemma_direction_close(thing.position, origin, d);
    let n = thing.position.minus(origin).normalize_or_zero();
    let b = exact(base_impulse());
    lemma_base();
    let c = exact(charge);
    let hard = b * c;
    lemma_scale_ordered(c, 128real, b);
    lemma_scale_ordered(c, b, 256real);
    lemma_swap(c, b);
    lemma_times_close(base_impulse(), charge, hard);
    let k = base_impulse().times(charge);
    lemma_not_nothing(n, u, d);
    lemma_pushed(n.x, u.x / d, k, hard);
    lemma_pushed(n.y, u.y / d, k, hard);
    lemma_pushed(n.z, u.z / d, k, hard);
}

proof fn lemma_base()
    ensures
        base_impulse().is_finite(),
        128real <= exact(base_impulse()) <= 256real,
{
    let a = base_impulse();
    lemma_exact(a);
    lemma_whole();
    lemma_units_of_power(134);
    lemma_units_of_power(135);
    lemma_units_increase(134int * 0x80_0000int, a.magnitude() as int);
    lemma_units_increase(a.magnitude() as int, 135int * 0x80_0000int);
    vstd::arithmetic::power2::lemma_pow2_adds(149, 7);
    vstd::arithmetic::power2::lemma_pow2_adds(149, 8);
    vstd::arithmetic::power2::lemma2_to64();
}

/// A direction is not nothing.
proof fn lemma_not_nothing(n: Vec3, u: Spot, d: real)
    requires
        d > 0real,
        d * d == u.dot(u),
        within(n.x, u.x / d, 50real),
        within(n.y, u.y / d, 50real),
        within(n.z, u.z / d, 50real),
    ensures
        !n.equals(Vec3::origin()),
        size(u.x / d) <= 1real,
        size(u.y / d) <= 1real,
        size(u.z / d) <= 1real,
{
    lemma_exact_constants();
    lemma_exact_ordered(n.x, zero());
    lemma_exact_ordered(n.y, zero());
    lemma_exact_ordered(n.z, zero());
    lemma_order_is_value(n.x, zero());
    lemma_order_is_value(n.y, zero());
    lemma_order_is_value(n.z, zero());
    let (x, y, z) = (u.x / d, u.y / d, u.z / d);
    lemma_quotient_back(u.x, d);
    lemma_quotient_back(u.y, d);
    lemma_quotient_back(u.z, d);
    assert(x * x + y * y + z * z == 1real) by {
        let p = Spot { x, y, z };
        assert(p.scale(d) == u);
        lemma_dot_scale(p, d, u);
        lemma_dot_swap(p, u);
        lemma_dot_scale(p, d, p);
        let m = p.dot(p);
        assert(d * (d * m) == d * d);
        lemma_regroup(d, d, m);
        lemma_positive(d, d);
        lemma_cancel(d * d, m, 1real);
        lemma_cancel(d * d, 1real, m);
    }
    lemma_square(x);
    lemma_square(y);
    lemma_square(z);
    lemma_squares_ordered(x, 1real);
    lemma_squares_ordered(y, 1real);
    lemma_squares_ordered(z, 1real);
    let e = 1real / 1000real;
    lemma_quotient_back(1real, 1000real);
    if size(x) <= e && size(y) <= e && size(z) <= e {
        lemma_squares_ordered(x, e);
        lemma_squares_ordered(y, e);
        lemma_squares_ordered(z, e);
        assert(e * e <= 1real / 1000real) by {
            lemma_scale_ordered(e, e, 1real);
        }
    }
}

proof fn lemma_pushed(n: Scalar, x: real, k: Scalar, hard: real)
    requires
        within(n, x, 50real),
        size(x) <= 1real,
        k.is_finite(),
        size(exact(k) - hard) * grains() <= hard,
        hard * 8192real >= 1real,
        hard <= 1048576real,
    ensures
        within(n.times(k), x * hard, hard * 60real),
{
    let g = grains();
    let c = exact(k);
    lemma_scale_ordered(c, size(x) * g + 50real, 2real * g);
    lemma_swap(c, size(x) * g + 50real);
    lemma_regroup(c, 2real, g);
    lemma_times_near(n, x, 50real, k, c * 2real);
    lemma_size_of_product(x, (c - hard) * g, 1real, hard);
    lemma_regroup(x, c - hard, g);
    lemma_spread_minus(c, hard, x);
}

/// What is met is pushed in the direction of the cast, by its strength and its charge;
/// what goes on pushing does so by its strength and the time.
pub proof fn law_casts_push_along(
    target: DeliveryTarget,
    magnitude: Scalar,
    charge: Scalar,
    top: real,
)
    requires
        target.entity is Some,
        target.direction is Some,
        target.direction->0.is_finite(),
        magnitude.is_finite(),
        charge.is_finite(),
        size(exact(target.direction->0.x)) <= 2real,
        size(exact(target.direction->0.y)) <= 2real,
        size(exact(target.direction->0.z)) <= 2real,
        0real <= exact(magnitude) <= top,
        0real <= exact(charge) <= 1024real,
        1real <= top * 1048576real,
        top <= 1048576real,
    ensures
        ({
            let (r, t) = (
                impulse(target, magnitude, Some(charge)),
                impulse_tick(target, magnitude, charge),
            );
            let v = Spot::of(target.direction->0).scale(exact(magnitude)).scale(exact(charge));
            &&& r is Some && r->0.entity == target.entity->0
            &&& is_at(r->0.impulse, v, top * 10000real)
            &&& t is Some && t->0.entity == target.entity->0
            &&& is_at(t->0.impulse, v, top * 10000real)
        }),
{
    let v = target.direction->0;
    lemma_scaled_twice(v.x, magnitude, charge, top);
    lemma_scaled_twice(v.y, magnitude, charge, top);
    lemma_scaled_twice(v.z, magnitude, charge, top);
}

proof fn lemma_scaled_twice(v: Scalar, m: Scalar, c: Scalar, top: real)
    requires
        v.is_finite(),
        m.is_finite(),
        c.is_finite(),
        size(exact(v)) <= 2real,
        0real <= exact(m) <= top,
        0real <= exact(c) <= 1024real,
        1real <= top * 1048576real,
        top <= 1048576real,
    ensures
        within(v.times(m).times(c), exact(v) * exact(m) * exact(c), top * 10000real),
{
    let g = grains();
    let (x, y, z) = (exact(v), exact(m), exact(c));
    lemma_size_of_product(x, y, 2real, top);
    lemma_times_close(v, m, top * 2real);
    let p = x * y;
    assert((size(p) * g + top * 2real) * z <= (top * 4096real) * g) by {
        let w = size(p) * g + top * 2real;
        lemma_scale_ordered(w, z, 1024real);
        assert(w <= top * 4real * g);
    }
    lemma_times_near(v.times(m), p, top * 2real, c, top * 4096real);
    lemma_scale_ordered(top * 2real, z, 1024real);
}

/// A cast that hurts an area makes a blast where it aims, as wide as the area and as hard
/// as the charge; on no side, and its caster is spared.
pub proof fn law_area_casts_blast(
    radius: Scalar,
    aim: Aim,
    base_damage: Scalar,
    falloff: FalloffKind,
    charge: Scalar,
    caster: Entity,
)
    requires
        base_damage.is_finite(),
        charge.is_finite(),
        0real <= exact(base_damage) <= 1048576real,
        0real <= exact(charge) <= 1024real,
    ensures
        ({
            let target = TargetDef::Area { shape: AreaShape::Sphere { radius } };
            let r = area_damage(target, Some(aim), base_damage, falloff, Some(charge), caster);
            let base = exact(base_damage);
            &&& r is Some
            &&& r->0.origin == aim.position
            &&& r->0.radius == radius
            &&& r->0.falloff == falloff
            &&& r->0.source_team == Team::Neutral
            &&& r->0.source != None::<Entity> ==> r->0.source == Some(caster)
            &&& within(r->0.base_damage, base * exact(charge), base * 1024real + 1real)
        }),
{
    let (b, c) = (exact(base_damage), exact(charge));
    lemma_scale_ordered(b, 0real, c);
    lemma_scale_ordered(b, c, 1024real);
    lemma_times_close(base_damage, charge, b * 1024real + 1real);
}

/// Where someone looks who is turned one way and then the other one.
pub proof fn law_looks_as_turned(yaw: Quat, pitch: Quat)
    requires
        is_unit(yaw),
        is_unit(pitch),
    ensures
        ({
            let r = forward_from_yaw_pitch(yaw, pitch);
            let there = Turn::of(yaw).turned(
                Turn::of(pitch).turned(Spot { x: 0real, y: 0real, z: -1real }),
            );
            &&& r.is_finite()
            &&& close(Spot::of(r), there, 200real)
        }),
{
    let g = grains();
    let (a, b) = (Turn::of(yaw), Turn::of(pitch));
    let q = yaw.compose(pitch);
    let v = Spot { x: 0real, y: 0real, z: -1real };
    lemma_compose_close(yaw, pitch);
    lemma_after_norm(a, b);
    assert((a.norm() * b.norm()) * 1000real <= 1002real && (a.norm() * b.norm()) * 1000real
        >= 998real) by {
        let (m, n) = (a.norm() - 1real, b.norm() - 1real);
        lemma_spread(1real, m, b.norm());
        lemma_spread(1real, n, m);
        lemma_size_of_product(m * 10000real, n * 10000real, 1real, 1real);
        lemma_regroup(m, 10000real, n * 10000real);
        lemma_regroup(m, n, 10000real);
        lemma_swap(m, b.norm());
    }
    lemma_near_norm(Turn::of(q), after(a, b), 28real / g);
    lemma_after(a, b, v);
    lemma_exact_constants();
    lemma_neg_close(one());
    assert(Spot::of(ahead()) == v);
    assert(reaches(v, 1real)) by {
        lemma_nothing(0real, 0real);
        assert(v.dot(v) == 1real);
    }
    lemma_quotient_back(1real, 65real);
    lemma_quotient_back(28real, g);
    lemma_rotate_near(q, after(a, b), ahead(), 28real / g, 1real);
    lemma_close_wider(
        Spot::of(q.rotate(ahead())),
        after(a, b).turned(v),
        (1real * ((28real / g) * g)) * 3real + 1real * 64real,
        200real,
    );
}

/// A body that is thrown starts at its speed ahead and its speed up. One that is dropped
/// or held starts at rest.
pub proof fn law_bodies_start_as_launched(launch: LaunchKind, forward: Vec3, l: real)
    requires
        forward.is_finite(),
        1real <= l * 1048576real,
        l * 8real <= widest(),
        launch matches LaunchKind::Throw { forward: fast, up: high } ==> {
            &&& fast.is_finite()
            &&& high.is_finite()
            &&& size(exact(high)) <= l
            &&& size(exact(forward.x) * exact(fast)) <= l
            &&& size(exact(forward.y) * exact(fast)) <= l
            &&& size(exact(forward.z) * exact(fast)) <= l
        },
    ensures
        ({
            let r = launch_velocity(launch, forward);
            match launch {
                LaunchKind::Throw { forward: fast, up: high } => {
                    let v = Spot::of(forward).scale(exact(fast));
                    is_at(r, Spot { x: v.x, y: v.y + exact(high), z: v.z }, l * 5real)
                },
                _ => is_at(r, Spot { x: 0real, y: 0real, z: 0real }, 0real),
            }
        }),
{
    lemma_exact_constants();
    match launch {
        LaunchKind::Throw { forward: fast, up: high } => {
            lemma_thrown(forward, fast, high, l);
        },
        _ => {},
    }
}

/// What is within reach of a point is found, and nothing else.
pub proof fn law_area_holds_what_is_near(things: Seq<Located>, point: Vec3, radius: Scalar)
    ensures
        forall|entity: Entity|
            #![trigger effects::within(things, point, radius).contains(entity)]
            effects::within(things, point, radius).contains(entity) <==> exists|i: int|
                0 <= i < things.len() && (#[trigger] things[i]).entity == entity
                    && point.minus(things[i].position).length().le(radius),
    decreases things.len(),
{
    if things.len() > 0 {
        let rest = things.drop_last();
        law_area_holds_what_is_near(rest, point, radius);
        let (all, before) = (
            effects::within(things, point, radius),
            effects::within(rest, point, radius),
        );
        let n = things.len() - 1;
        let near = point.minus(things[n].position).length().le(radius);
        assert forall|entity: Entity| #[trigger] all.contains(entity) <==> exists|i: int|
            0 <= i < things.len() && (#[trigger] things[i]).entity == entity
                && point.minus(things[i].position).length().le(radius) by {
            if all.contains(entity) {
                let k = choose|k: int| 0 <= k < all.len() && all[k] == entity;
                if k < before.len() {
                    assert(before[k] == entity);
                    assert(before.contains(entity));
                    let i = choose|i: int|
                        0 <= i < rest.len() && (#[trigger] rest[i]).entity == entity
                            && point.minus(rest[i].position).length().le(radius);
                    assert(things[i] == rest[i]);
                } else {
                    assert(things[n].entity == entity);
                }
            }
            if exists|i: int|
                0 <= i < things.len() && (#[trigger] things[i]).entity == entity
                    && point.minus(things[i].position).length().le(radius) {
                let i = choose|i: int|
                    0 <= i < things.len() && (#[trigger] things[i]).entity == entity
                        && point.minus(things[i].position).length().le(radius);
                if i < n {
                    assert(rest[i] == things[i]);
                    assert(before.contains(entity));
                    let k = choose|k: int| 0 <= k < before.len() && before[k] == entity;
                    assert(all[k] == entity);
                } else {
                    assert(all[before.len() as int] == entity);
                }
            }
        }
    }
}

} // verus!

//! What bodies set off, and when.

use crate::closeness::{exact, lemma_plus_close, limit, size, within};
use crate::entity::Entity;
use crate::scalar::Scalar;
use crate::spells::data::TriggerSpec;
use crate::spells::triggers::{
    body_place, due_in, older, run_out, set_off, touch, PendingView, Touched, TriggerBody,
};
use vstd::prelude::*;

verus! {

/// Whether the first body of a name stands at `p`.
pub open spec fn is_first_body(bodies: Seq<TriggerBody>, entity: Entity, p: int) -> bool {
    &&& 0 <= p < bodies.len()
    &&& bodies[p].entity == entity
    &&& forall|i: int| 0 <= i < p ==> (#[trigger] bodies[i]).entity != entity
}

proof fn lemma_first_body(bodies: Seq<TriggerBody>, entity: Entity, p: int)
    requires
        is_first_body(bodies, entity, p),
    ensures
        body_place(bodies, entity) == p,
    decreases p,
{
    if p > 0 {
        let rest = bodies.skip(1);
        assert(bodies[0].entity != entity);
        assert forall|i: int| 0 <= i < p - 1 implies (#[trigger] rest[i]).entity != entity by {
            assert(rest[i] == bodies[i + 1]);
        }
        assert(rest[p - 1] == bodies[p]);
        lemma_first_body(rest, entity, p - 1);
    }
}

/// How many of the first `n` things that a body sets off wait for it to touch something.
pub open spec fn touch_events(body: TriggerBody, n: int) -> int
    decreases n,
{
    if n <= 0 {
        0
    } else if body.triggers.events@[n - 1] is OnCollision {
        touch_events(body, n - 1) + 1
    } else {
        touch_events(body, n - 1)
    }
}

/// Whether a cast is one that a body sets off, where the body is and with its charge.
pub open spec fn comes_of(cast: PendingView, body: TriggerBody, triggers: TriggerSpec) -> bool {
    &&& cast.names.0 == triggers.spell_id.0@
    &&& cast.names.1 == triggers.cast_id.0@
    &&& cast.origin == body.position
    &&& cast.original_caster == body.triggers.original_caster
    &&& cast.captured_charge == body.triggers.captured_charge
    &&& body.triggers.chain_depth < 255 ==> cast.chain_depth == body.triggers.chain_depth + 1
}

/// Each of the first `n` touch events makes its cast, in order, and there are no others.
proof fn lemma_set_off(body: TriggerBody, n: int)
    requires
        0 <= n <= body.triggers.events@.len(),
    ensures
        set_off(body, n).len() == touch_events(body, n),
        0 <= touch_events(body, n) <= n,
        forall|i: int|
            0 <= i < n && (#[trigger] body.triggers.events@[i]) is OnCollision ==> 0
                <= touch_events(body, i) < set_off(body, n).len() && comes_of(
                set_off(body, n)[touch_events(body, i)],
                body,
                body.triggers.events@[i]->OnCollision_triggers,
            ),
    decreases n,
{
    if n > 0 {
        lemma_set_off(body, n - 1);
        let (all, before) = (set_off(body, n), set_off(body, n - 1));
        assert forall|i: int|
            0 <= i < n && (#[trigger] body.triggers.events@[i]) is OnCollision implies 0
            <= touch_events(body, i) < all.len() && comes_of(
            all[touch_events(body, i)],
            body,
            body.triggers.events@[i]->OnCollision_triggers,
        ) by {
            if i < n - 1 {
                assert(all[touch_events(body, i)] == before[touch_events(body, i)]);
            }
        }
    }
}

/// A body that touches something for the first time sets off all that waits for that, in
/// order, after what waits already, and is used up. No other body changes.
pub proof fn law_touching_sets_off(state: Touched, entity: Entity, p: int)
    requires
        is_first_body(state.bodies, entity, p),
        !state.bodies[p].triggers.fired,
    ensures
        ({
            let after = touch(state, entity);
            let body = state.bodies[p];
            let events = body.triggers.events@;
            let n = state.pending.len();
            &&& after.bodies.len() == state.bodies.len()
            &&& after.bodies[p].triggers.fired
            &&& forall|i: int|
                0 <= i < state.bodies.len() && i != p ==> #[trigger] after.bodies[i]
                    == state.bodies[i]
            &&& after.used == state.used.push(entity)
            &&& after.pending.len() == n + touch_events(body, events.len() as int)
            &&& forall|i: int| 0 <= i < n ==> #[trigger] after.pending[i] == state.pending[i]
            &&& forall|i: int|
                0 <= i < events.len() && (#[trigger] events[i]) is OnCollision ==> comes_of(
                    after.pending[n + touch_events(body, i)],
                    body,
                    events[i]->OnCollision_triggers,
                )
        }),
{
    lemma_first_body(state.bodies, entity, p);
    let body = state.bodies[p];
    let events = body.triggers.events@;
    lemma_set_off(body, events.len() as int);
    let after = touch(state, entity);
    let new = set_off(body, events.len() as int);
    assert forall|i: int|
        0 <= i < events.len() && (#[trigger] events[i]) is OnCollision implies comes_of(
        after.pending[state.pending.len() + touch_events(body, i)],
        body,
        events[i]->OnCollision_triggers,
    ) by {
        assert(after.pending[state.pending.len() + touch_events(body, i)] == new[touch_events(
            body,
            i,
        )]);
    }
}

/// What touches something and is no body, or has set something off before, changes
/// nothing.
pub proof fn law_touching_does_nothing_more(state: Touched, entity: Entity)
    requires
        forall|i: int|
            0 <= i < state.bodies.len() && (#[trigger] state.bodies[i]).entity == entity
                ==> state.bodies[i].triggers.fired,
    ensures
        touch(state, entity) == state,
{
    lemma_place_of(state.bodies, entity);
}

proof fn lemma_place_of(bodies: Seq<TriggerBody>, entity: Entity)
    ensures
        0 <= body_place(bodies, entity) <= bodies.len(),
        body_place(bodies, entity) < bodies.len() ==> bodies[body_place(bodies, entity)].entity
            == entity,
    decreases bodies.len(),
{
    if bodies.len() > 0 && bodies[0].entity != entity {
        lemma_place_of(bodies.skip(1), entity);
    }
}

/// A body sets nothing off before its time: while no time that it waits for is over it
/// only gets older, by as much as passes.
pub proof fn law_time_does_not_run_out_early(body: TriggerBody, dt: Scalar, top: real)
    requires
        !body.triggers.fired,
        body.triggers.elapsed.is_finite(),
        dt.is_finite(),
        size(exact(body.triggers.elapsed) + exact(dt)) <= top,
        1real <= top * limit(),
        top <= limit(),
        forall|i: int|
            0 <= i < body.triggers.events@.len() && (
            #[trigger] body.triggers.events@[i]) is OnTimeout
                ==> !body.triggers.events@[i]->OnTimeout_secs.le(body.triggers.elapsed.plus(dt)),
    ensures
        due_in(body, dt).len() == 0,
        !older(body, dt).triggers.fired,
        within(
            older(body, dt).triggers.elapsed,
            exact(body.triggers.elapsed) + exact(dt),
            top,
        ),
        older(body, dt).position == body.position,
        older(body, dt).triggers.events == body.triggers.events,
{
    lemma_plus_close(body.triggers.elapsed, dt, top);
    lemma_none_due(body, body.triggers.elapsed.plus(dt), body.triggers.events@.len() as int);
}

proof fn lemma_none_due(body: TriggerBody, elapsed: Scalar, n: int)
    requires
        0 <= n <= body.triggers.events@.len(),
        forall|i: int|
            0 <= i < n && (#[trigger] body.triggers.events@[i]) is OnTimeout
                ==> !body.triggers.events@[i]->OnTimeout_secs.le(elapsed),
    ensures
        run_out(body, elapsed, n).len() == 0,
    decreases n,
{
    if n > 0 {
        lemma_none_due(body, elapsed, n - 1);
        assert(body.triggers.events@[n - 1] is OnTimeout
            ==> !body.triggers.events@[n - 1]->OnTimeout_secs.le(elapsed));
    }
}

} // verus!

//! Bodies that set off another cast when something happens to them.

use crate::entity::{placeholder, Entity};
use crate::scalar::Scalar;
use crate::spells::catalog::SpellCatalog;
use crate::spells::data::{BodyEventTrigger, CastId, OriginDef, SpellDef, SpellId, TriggerSpec};
use crate::spells::engine::{
    can_dispatch, dispatch_child_cast, first_in_spell, ChildCastContext, ChildDispatch,
    MAX_CHILD_CAST_CHAIN_DEPTH,
};
use crate::spells::handlers::Authority;
use crate::vector::Vec3;
use vstd::prelude::*;

verus! {

/// What a body sets off, and on whose behalf.
#[derive(Debug)]
pub struct BodyTriggers {
    pub events: Vec<BodyEventTrigger>,
    pub original_caster: Option<Entity>,
    pub captured_charge: Option<Scalar>,
    pub chain_depth: u8,
    /// The cast that sent the body out.
    pub caused_by: Option<TriggerSpec>,
    /// Whether it has set something off already. It does so once.
    pub fired: bool,
    /// For how many seconds the body has been there.
    pub elapsed: Scalar,
}

/// A body with triggers, and where it is.
#[derive(Debug)]
pub struct TriggerBody {
    pub entity: Entity,
    pub position: Vec3,
    pub triggers: BodyTriggers,
}

/// A cast to be set off.
#[derive(Debug)]
pub struct PendingChildCast {
    pub spell_id: SpellId,
    pub cast_id: CastId,
    pub origin: Vec3,
    pub original_caster: Option<Entity>,
    pub captured_charge: Option<Scalar>,
    pub chain_depth: u8,
    pub caused_by: Option<TriggerSpec>,
}

/// The names of a cast, as text.
pub open spec fn names_of(spec: TriggerSpec) -> (Seq<char>, Seq<char>) {
    (spec.spell_id.0@, spec.cast_id.0@)
}

/// The names of a cast that caused something, as text.
pub open spec fn cause_of(spec: Option<TriggerSpec>) -> Option<(Seq<char>, Seq<char>)> {
    match spec {
        Some(spec) => Some(names_of(spec)),
        None => None,
    }
}

/// What there is to say of a cast to be set off.
pub struct PendingView {
    pub names: (Seq<char>, Seq<char>),
    pub origin: Vec3,
    pub original_caster: Option<Entity>,
    pub captured_charge: Option<Scalar>,
    pub chain_depth: u8,
    pub caused_by: Option<(Seq<char>, Seq<char>)>,
}

impl View for PendingChildCast {
    type V = PendingView;

    open spec fn view(&self) -> PendingView {
        PendingView {
            names: (self.spell_id.0@, self.cast_id.0@),
            origin: self.origin,
            original_caster: self.original_caster,
            captured_charge: self.captured_charge,
            chain_depth: self.chain_depth,
            caused_by: cause_of(self.caused_by),
        }
    }
}

/// The depth of what a body sets off: one more than its own, if there is room.
pub open spec fn next_depth(depth: u8) -> u8 {
    if depth < 255 {
        (depth + 1) as u8
    } else {
        255
    }
}

/// The cast that a body sets off by one of its triggers.
pub open spec fn set_off_by(body: TriggerBody, triggers: TriggerSpec) -> PendingView {
    PendingView {
        names: names_of(triggers),
        origin: body.position,
        original_caster: body.triggers.original_caster,
        captured_charge: body.triggers.captured_charge,
        chain_depth: next_depth(body.triggers.chain_depth),
        caused_by: cause_of(body.triggers.caused_by),
    }
}

/// What the first `n` triggers of a body set off when it touches something.
pub open spec fn set_off(body: TriggerBody, n: int) -> Seq<PendingView>
    decreases n,
{
    if n <= 0 {
        Seq::empty()
    } else {
        match body.triggers.events@[n - 1] {
            BodyEventTrigger::OnCollision { triggers } => set_off(body, n - 1).push(
                set_off_by(body, triggers),
            ),
            _ => set_off(body, n - 1),
        }
    }
}

/// What the first `n` triggers of a body set off when it has been there for
/// `elapsed` seconds.
pub open spec fn run_out(body: TriggerBody, elapsed: Scalar, n: int) -> Seq<PendingView>
    decreases n,
{
    if n <= 0 {
        Seq::empty()
    } else {
        match body.triggers.events@[n - 1] {
            BodyEventTrigger::OnTimeout { secs, triggers } => if secs.le(elapsed) {
                run_out(body, elapsed, n - 1).push(set_off_by(body, triggers))
            } else {
                run_out(body, elapsed, n - 1)
            },
            _ => run_out(body, elapsed, n - 1),
        }
    }
}

/// The casts to be set off, as one sequence.
pub open spec fn views(pending: Seq<PendingChildCast>) -> Seq<PendingView> {
    pending.map_values(|p: PendingChildCast| p@)
}

fn copy_cause(spec: &Option<TriggerSpec>) -> (r: Option<TriggerSpec>)
    ensures
        cause_of(r) == cause_of(*spec),
{
    match spec {
        Some(spec) => Some(
            TriggerSpec { spell_id: spec.spell_id.copy(), cast_id: spec.cast_id.copy() },
        ),
        None => None,
    }
}

/// What there is to say of what a body sets off: when, and which cast.
pub enum EventView {
    OnCollision { names: (Seq<char>, Seq<char>) },
    OnTimeout { secs: Scalar, names: (Seq<char>, Seq<char>) },
}

/// What there is to say of one thing that a body sets off.
pub open spec fn event_view(event: BodyEventTrigger) -> EventView {
    match event {
        BodyEventTrigger::OnCollision { triggers } => EventView::OnCollision {
            names: names_of(triggers),
        },
        BodyEventTrigger::OnTimeout { secs, triggers } => EventView::OnTimeout {
            secs,
            names: names_of(triggers),
        },
    }
}

/// What there is to say of all that a body sets off.
pub open spec fn event_views(events: Seq<BodyEventTrigger>) -> Seq<EventView> {
    events.map_values(|e: BodyEventTrigger| event_view(e))
}

/// The same list once more.
pub fn copy_events(events: &Vec<BodyEventTrigger>) -> (r: Vec<BodyEventTrigger>)
    ensures
        event_views(r@) == event_views(events@),
{
    let mut copy: Vec<BodyEventTrigger> = Vec::new();
    let mut i: usize = 0;
    while i < events.len()
        invariant
            i <= events.len(),
            copy@.len() == i,
            forall|j: int| 0 <= j < i ==> event_view(#[trigger] copy@[j]) == event_view(events@[j]),
        decreases events.len() - i,
    {
        let one = match &events[i] {
            BodyEventTrigger::OnCollision { triggers } => BodyEventTrigger::OnCollision {
                triggers: TriggerSpec {
                    spell_id: triggers.spell_id.copy(),
                    cast_id: triggers.cast_id.copy(),
                },
            },
            BodyEventTrigger::OnTimeout { secs, triggers } => BodyEventTrigger::OnTimeout {
                secs: *secs,
                triggers: TriggerSpec {
                    spell_id: triggers.spell_id.copy(),
                    cast_id: triggers.cast_id.copy(),
                },
            },
        };
        copy.push(one);
        i += 1;
    }
    assert(event_views(copy@) =~= event_views(events@));
    copy
}

fn pending_cast(body: &TriggerBody, triggers: &TriggerSpec) -> (r: PendingChildCast)
    ensures
        r@ == set_off_by(*body, *triggers),
{
    PendingChildCast {
        spell_id: triggers.spell_id.copy(),
        cast_id: triggers.cast_id.copy(),
        origin: body.position,
        original_caster: body.triggers.original_caster,
        captured_charge: body.triggers.captured_charge,
        chain_depth: if body.triggers.chain_depth < 255 {
            body.triggers.chain_depth + 1
        } else {
            255
        },
        caused_by: copy_cause(&body.triggers.caused_by),
    }
}

/// A body that has set something off.
pub open spec fn fired(body: TriggerBody) -> TriggerBody {
    TriggerBody { triggers: BodyTriggers { fired: true, ..body.triggers }, ..body }
}

/// A body touched something: what it sets off goes to `pending`, unless it has
/// done so before. The result tells whether the body is used up.
pub fn fire_on_collision(body: &mut TriggerBody, pending: &mut Vec<PendingChildCast>) -> (r: bool)
    ensures
        r == !old(body).triggers.fired,
        *final(body) == fired(*old(body)),
        views(final(pending)@) == (if old(body).triggers.fired {
            views(old(pending)@)
        } else {
            views(old(pending)@) + set_off(
                *old(body),
                old(body).triggers.events@.len() as int,
            )
        }),
{
    if body.triggers.fired {
        return false;
    }
    let ghost whole = *body;
    let ghost start = views(pending@);
    let mut i: usize = 0;
    assert(start =~= start + set_off(whole, 0));
    while i < body.triggers.events.len()
        invariant
            *body == whole,
            i <= whole.triggers.events@.len(),
            views(pending@) == start + set_off(whole, i as int),
        decreases whole.triggers.events@.len() - i,
    {
        if let BodyEventTrigger::OnCollision { triggers } = &body.triggers.events[i] {
            let ghost before = pending@;
            let cast = pending_cast(body, triggers);
            let ghost view = cast@;
            pending.push(cast);
            assert(views(pending@) =~= views(before).push(view));
            assert((start + set_off(whole, i as int)).push(view) =~= start + set_off(
                whole,
                i as int,
            ).push(view));
        }
        i += 1;
    }
    body.triggers.fired = true;
    true
}

/// A body after `dt` seconds more: it is used up if one of its times has run out.
pub open spec fn older(body: TriggerBody, dt: Scalar) -> TriggerBody {
    let elapsed = body.triggers.elapsed.plus(dt);
    let due = run_out(body, elapsed, body.triggers.events@.len() as int);
    if body.triggers.fired {
        body
    } else {
        TriggerBody {
            triggers: BodyTriggers { elapsed, fired: due.len() > 0, ..body.triggers },
            ..body
        }
    }
}

/// What a body sets off in `dt` seconds.
pub open spec fn due_in(body: TriggerBody, dt: Scalar) -> Seq<PendingView> {
    if body.triggers.fired {
        Seq::empty()
    } else {
        run_out(body, body.triggers.elapsed.plus(dt), body.triggers.events@.len() as int)
    }
}

/// Lets `dt` seconds pass for a body: what it sets off goes to `pending`, unless it
/// has set something off before. The result tells whether the body is used up.
pub fn fire_on_timeout(
    body: &mut TriggerBody,
    dt: Scalar,
    pending: &mut Vec<PendingChildCast>,
) -> (r: bool)
    ensures
        r == (due_in(*old(body), dt).len() > 0),
        *final(body) == older(*old(body), dt),
        views(final(pending)@) == views(old(pending)@) + due_in(*old(body), dt),
{
    let ghost whole = *body;
    let ghost start = views(pending@);
    if body.triggers.fired {
        assert(start =~= start + due_in(whole, dt));
        return false;
    }
    let elapsed = body.triggers.elapsed.plus(dt);
    let mut due = false;
    let mut i: usize = 0;
    assert(start =~= start + run_out(whole, elapsed, 0));
    while i < body.triggers.events.len()
        invariant
            *body == whole,
            i <= whole.triggers.events@.len(),
            due == (run_out(whole, elapsed, i as int).len() > 0),
            views(pending@) == start + run_out(whole, elapsed, i as int),
        decreases whole.triggers.events@.len() - i,
    {
        if let BodyEventTrigger::OnTimeout { secs, triggers } = &body.triggers.events[i] {
            if secs.le(elapsed) {
                let ghost before = pending@;
                let cast = pending_cast(body, triggers);
                let ghost view = cast@;
                pending.push(cast);
                assert(views(pending@) =~= views(before).push(view));
                assert((start + run_out(whole, elapsed, i as int)).push(view) =~= start + run_out(
                    whole,
                    elapsed,
                    i as int,
                ).push(view));
                due = true;
            }
        }
        i += 1;
    }
    body.triggers.elapsed = elapsed;
    body.triggers.fired = due;
    due
}

/// The bodies, what they have set off, and those of them that are used up.
pub struct Touched {
    pub bodies: Seq<TriggerBody>,
    pub pending: Seq<PendingView>,
    pub used: Seq<Entity>,
}

/// Where the first body named `entity` stands; the length, if there is none.
pub open spec fn body_place(bodies: Seq<TriggerBody>, entity: Entity) -> int
    decreases bodies.len(),
{
    if bodies.len() == 0 || bodies[0].entity == entity {
        0
    } else {
        1 + body_place(bodies.skip(1), entity)
    }
}

/// What comes of one thing, perhaps a body, having touched something.
pub open spec fn touch(state: Touched, entity: Entity) -> Touched {
    let p = body_place(state.bodies, entity);
    if p < state.bodies.len() && !state.bodies[p].triggers.fired {
        Touched {
            bodies: state.bodies.update(p, fired(state.bodies[p])),
            pending: state.pending + set_off(
                state.bodies[p],
                state.bodies[p].triggers.events@.len() as int,
            ),
            used: state.used.push(entity),
        }
    } else {
        state
    }
}

/// What comes of the first `n` collisions.
pub open spec fn touched(state: Touched, collisions: Seq<(Entity, Entity)>, n: int) -> Touched
    decreases n,
{
    if n <= 0 {
        state
    } else {
        let before = touched(state, collisions, n - 1);
        touch(touch(before, collisions[n - 1].0), collisions[n - 1].1)
    }
}

fn find_body(bodies: &Vec<TriggerBody>, entity: Entity) -> (r: usize)
    ensures
        r == body_place(bodies@, entity),
        r <= bodies@.len(),
{
    let mut i: usize = 0;
    assert(bodies@.skip(0) =~= bodies@);
    while i < bodies.len()
        invariant
            i <= bodies.len(),
            body_place(bodies@, entity) == i + body_place(bodies@.skip(i as int), entity),
        decreases bodies.len() - i,
    {
        if bodies[i].entity == entity {
            return i;
        }
        assert(bodies@.skip(i as int).skip(1) =~= bodies@.skip(i + 1));
        i += 1;
    }
    i
}

fn probe(
    bodies: &mut Vec<TriggerBody>,
    pending: &mut Vec<PendingChildCast>,
    used: &mut Vec<Entity>,
    entity: Entity,
)
    ensures
        (Touched { bodies: final(bodies)@, pending: views(final(pending)@), used: final(used)@ })
            == touch(
            Touched { bodies: old(bodies)@, pending: views(old(pending)@), used: old(used)@ },
            entity,
        ),
{
    let p = find_body(bodies, entity);
    if p < bodies.len() {
        let hit = fire_on_collision(&mut bodies[p], pending);
        if hit {
            used.push(entity);
        } else {
            assert(bodies@ =~= old(bodies)@);
        }
    }
}

/// Goes through the collisions. Either side of each may be a body with triggers:
/// what it sets off goes to `pending`. The result names the bodies that are
/// used up.
pub fn enqueue_pending_collision_triggers(
    collisions: &Vec<(Entity, Entity)>,
    bodies: &mut Vec<TriggerBody>,
    pending: &mut Vec<PendingChildCast>,
) -> (used: Vec<Entity>)
    ensures
        (Touched { bodies: final(bodies)@, pending: views(final(pending)@), used: used@ })
            == touched(
            Touched { bodies: old(bodies)@, pending: views(old(pending)@), used: Seq::empty() },
            collisions@,
            collisions@.len() as int,
        ),
{
    let ghost start = Touched {
        bodies: bodies@,
        pending: views(pending@),
        used: Seq::empty(),
    };
    let mut used: Vec<Entity> = Vec::new();
    let mut i: usize = 0;
    assert(used@ =~= start.used);
    while i < collisions.len()
        invariant
            i <= collisions.len(),
            (Touched { bodies: bodies@, pending: views(pending@), used: used@ }) == touched(
                start,
                collisions@,
                i as int,
            ),
        decreases collisions.len() - i,
    {
        probe(bodies, pending, &mut used, collisions[i].0);
        probe(bodies, pending, &mut used, collisions[i].1);
        i += 1;
    }
    used
}

/// What comes of `dt` seconds for the first `n` bodies.
pub open spec fn timed_out(state: Touched, dt: Scalar, n: int) -> Touched
    decreases n,
{
    if n <= 0 {
        state
    } else {
        let before = timed_out(state, dt, n - 1);
        let body = state.bodies[n - 1];
        Touched {
            bodies: before.bodies.update(n - 1, older(body, dt)),
            pending: before.pending + due_in(body, dt),
            used: if due_in(body, dt).len() > 0 {
                before.used.push(body.entity)
            } else {
                before.used
            },
        }
    }
}

proof fn lemma_timed_out(state: Touched, dt: Scalar, n: int)
    requires
        0 <= n <= state.bodies.len(),
    ensures
        timed_out(state, dt, n).bodies.len() == state.bodies.len(),
        forall|i: int|
            n <= i < state.bodies.len() ==> #[trigger] timed_out(state, dt, n).bodies[i]
                == state.bodies[i],
    decreases n,
{
    if n > 0 {
        lemma_timed_out(state, dt, n - 1);
    }
}

/// Lets `dt` seconds pass: what the bodies whose times have run out set off goes to
/// `pending`. The result holds the bodies that are used up.
pub fn enqueue_pending_timeout_triggers(
    bodies: &mut Vec<TriggerBody>,
    dt: Scalar,
    pending: &mut Vec<PendingChildCast>,
) -> (used: Vec<Entity>)
    ensures
        (Touched { bodies: final(bodies)@, pending: views(final(pending)@), used: used@ })
            == timed_out(
            Touched { bodies: old(bodies)@, pending: views(old(pending)@), used: Seq::empty() },
            dt,
            old(bodies)@.len() as int,
        ),
{
    let mut used: Vec<Entity> = Vec::new();
    let ghost start = Touched {
        bodies: bodies@,
        pending: views(pending@),
        used: Seq::empty(),
    };
    let mut i: usize = 0;
    while i < bodies.len()
        invariant
            i <= bodies.len(),
            start == (Touched {
                bodies: old(bodies)@,
                pending: views(old(pending)@),
                used: Seq::empty(),
            }),
            bodies@.len() == start.bodies.len(),
            (Touched { bodies: bodies@, pending: views(pending@), used: used@ }) == timed_out(
                start,
                dt,
                i as int,
            ),
        decreases bodies.len() - i,
    {
        proof {
            lemma_timed_out(start, dt, i as int);
            assert(bodies@[i as int] == start.bodies[i as int]);
        }
        let gone = fire_on_timeout(&mut bodies[i], dt, pending);
        if gone {
            used.push(bodies[i].entity);
        }
        i += 1;
    }
    used
}

/// What a pending cast is to the engine: it starts at the point of impact.
pub fn child_of(pending: &PendingChildCast) -> (r: ChildCastContext)
    ensures
        r.origin == OriginDef::Impact(pending.origin),
        r.original_caster == pending.original_caster,
        r.captured_charge == pending.captured_charge,
        r.chain_depth == pending.chain_depth,
        cause_of(r.caused_by) == cause_of(pending.caused_by),
{
    ChildCastContext {
        origin: OriginDef::Impact(pending.origin),
        original_caster: pending.original_caster,
        captured_charge: pending.captured_charge,
        chain_depth: pending.chain_depth,
        caused_by: copy_cause(&pending.caused_by),
    }
}

/// Those of the casts to be set off that can be: they are in the catalog, and not
/// too far down a chain.
pub open spec fn runnable(
    pending: Seq<PendingView>,
    spells: Map<Seq<char>, SpellDef>,
) -> Seq<PendingView> {
    pending.filter(|p: PendingView| can_dispatch(spells, p.names.0, p.names.1, p.chain_depth))
}

/// Whether a cast is the one that was to be set off.
pub open spec fn sets_off(
    dispatch: ChildDispatch,
    pending: PendingView,
    catalog: SpellCatalog,
) -> bool {
    let spell = catalog@[pending.names.0];
    &&& dispatch.spell < catalog.defs().len()
    &&& catalog.defs()[dispatch.spell as int] == spell
    &&& first_in_spell(spell, dispatch.cast as int, pending.names.1)
    &&& dispatch.context.player == match pending.original_caster {
        Some(e) => e,
        None => placeholder(),
    }
    &&& dispatch.context.spell_id.0@ == pending.names.0
    &&& dispatch.context.cast_id.0@ == pending.names.1
    &&& dispatch.context.authority == Authority::Both
    &&& dispatch.context.captured_charge == pending.captured_charge
    &&& dispatch.context.chain_depth == pending.chain_depth
    &&& dispatch.context.origin == OriginDef::Impact(pending.origin)
    &&& dispatch.context.target == spell.casts@[dispatch.cast as int].target
}

/// The casts to run for what was set off, in order. What they set off in turn
/// waits for the next time.
pub fn dispatch_pending_child_casts(
    catalog: &SpellCatalog,
    pending: &mut Vec<PendingChildCast>,
) -> (r: Vec<ChildDispatch>)
    requires
        catalog.wf(),
    ensures
        final(pending)@.len() == 0,
        r@.len() == runnable(views(old(pending)@), catalog@).len(),
        forall|i: int|
            0 <= i < r@.len() ==> sets_off(
                #[trigger] r@[i],
                runnable(views(old(pending)@), catalog@)[i],
                *catalog,
            ),
{
    let ghost runs = |p: PendingView| can_dispatch(catalog@, p.names.0, p.names.1, p.chain_depth);
    let ghost all = views(pending@);
    let mut due: Vec<ChildDispatch> = Vec::new();
    let mut i: usize = 0;
    proof {
        reveal(Seq::filter);
    }
    while i < pending.len()
        invariant
            i <= pending.len(),
            pending@ == old(pending)@,
            catalog.wf(),
            all == views(pending@),
            runs == (|p: PendingView|
                can_dispatch(catalog@, p.names.0, p.names.1, p.chain_depth)),
            due@.len() == all.take(i as int).filter(runs).len(),
            forall|k: int|
                0 <= k < due@.len() ==> sets_off(
                    #[trigger] due@[k],
                    all.take(i as int).filter(runs)[k],
                    *catalog,
                ),
        decreases pending.len() - i,
    {
        proof {
            reveal(Seq::filter);
            assert(all.take(i + 1).drop_last() =~= all.take(i as int));
            assert(all[i as int] == pending@[i as int]@);
        }
        let child = child_of(&pending[i]);
        let dispatch = dispatch_child_cast(
            catalog,
            &pending[i].spell_id,
            &pending[i].cast_id,
            &child,
        );
        if let Some(dispatch) = dispatch {
            due.push(dispatch);
        }
        i += 1;
    }
    assert(all.take(i as int) =~= all);
    pending.clear();
    due
}

/// A body sets something off once: after that, touching things adds nothing.
pub proof fn law_body_fires_once(state: Touched, entity: Entity)
    ensures
        touch(touch(state, entity), entity) == touch(state, entity),
{
    let p = body_place(state.bodies, entity);
    lemma_place(state.bodies, entity);
    if p < state.bodies.len() {
        lemma_place_kept(state.bodies, p, entity);
    }
}

proof fn lemma_place(bodies: Seq<TriggerBody>, entity: Entity)
    ensures
        0 <= body_place(bodies, entity) <= bodies.len(),
    decreases bodies.len(),
{
    if bodies.len() > 0 {
        lemma_place(bodies.skip(1), entity);
    }
}

/// That a body has set something off does not move it.
proof fn lemma_place_kept(bodies: Seq<TriggerBody>, p: int, entity: Entity)
    requires
        0 <= p < bodies.len(),
    ensures
        body_place(bodies.update(p, fired(bodies[p])), entity) == body_place(bodies, entity),
    decreases bodies.len(),
{
    let after = bodies.update(p, fired(bodies[p]));
    if p > 0 {
        assert(after.skip(1) =~= bodies.skip(1).update(p - 1, fired(bodies[p])));
        lemma_place_kept(bodies.skip(1), p - 1, entity);
    } else {
        assert(after.skip(1) =~= bodies.skip(1));
    }
}

/// A body whose time has run out sets off what it was to set off then, wherever it
/// is, and never again.
pub proof fn law_time_runs_out(body: TriggerBody, dt: Scalar, later: Scalar, i: int)
    requires
        !body.triggers.fired,
        0 <= i < body.triggers.events@.len(),
        body.triggers.events@[i] is OnTimeout,
        body.triggers.events@[i]->OnTimeout_secs.le(body.triggers.elapsed.plus(dt)),
    ensures
        due_in(body, dt).contains(
            set_off_by(body, body.triggers.events@[i]->OnTimeout_triggers),
        ),
        due_in(older(body, dt), later).len() == 0,
{
    let n = body.triggers.events@.len() as int;
    lemma_run_out_holds(body, body.triggers.elapsed.plus(dt), n, i);
}

proof fn lemma_run_out_holds(body: TriggerBody, elapsed: Scalar, n: int, i: int)
    requires
        0 <= i < n <= body.triggers.events@.len(),
        body.triggers.events@[i] is OnTimeout,
        body.triggers.events@[i]->OnTimeout_secs.le(elapsed),
    ensures
        run_out(body, elapsed, n).contains(
            set_off_by(body, body.triggers.events@[i]->OnTimeout_triggers),
        ),
    decreases n,
{
    let all = run_out(body, elapsed, n);
    let cast = set_off_by(body, body.triggers.events@[i]->OnTimeout_triggers);
    if i == n - 1 {
        assert(all.last() == cast);
    } else {
        lemma_run_out_holds(body, elapsed, n - 1, i);
        let before = run_out(body, elapsed, n - 1);
        let j = choose|j: int| 0 <= j < before.len() && before[j] == cast;
        assert(all[j] == cast);
    }
}

/// What a body sets off is one deeper in the chain than the body's own cast, as far
/// down as chains are counted.
pub proof fn law_chain_grows(body: TriggerBody, n: int, i: int)
    requires
        0 <= n <= body.triggers.events@.len(),
        0 <= i < set_off(body, n).len(),
    ensures
        set_off(body, n)[i].chain_depth == next_depth(body.triggers.chain_depth),
        body.triggers.chain_depth < 255 ==> set_off(body, n)[i].chain_depth
            == body.triggers.chain_depth + 1,
        set_off(body, n)[i].original_caster == body.triggers.original_caster,
        set_off(body, n)[i].captured_charge == body.triggers.captured_charge,
    decreases n,
{
    if i < set_off(body, n - 1).len() {
        law_chain_grows(body, n - 1, i);
    }
}

/// No chain goes on for ever: what is set off by a cast at the limit is not run.
pub proof fn law_chain_ends(
    body: TriggerBody,
    n: int,
    i: int,
    spells: Map<Seq<char>, SpellDef>,
)
    requires
        0 <= n <= body.triggers.events@.len(),
        0 <= i < set_off(body, n).len(),
        MAX_CHILD_CAST_CHAIN_DEPTH <= body.triggers.chain_depth,
    ensures
        !can_dispatch(
            spells,
            set_off(body, n)[i].names.0,
            set_off(body, n)[i].names.1,
            set_off(body, n)[i].chain_depth,
        ),
{
    law_chain_grows(body, n, i);
}

} // verus!

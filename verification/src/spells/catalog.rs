//! The live catalogs of spells and body templates.
//!
//! A rebuild takes everything that is written down. The new catalogs go live
//! together, and only if nothing in them points nowhere; otherwise those that
//! were live stay.

use crate::scalar::zero;
use crate::spells::bodies::BodyDef;
use crate::spells::data::{
    BodyTemplateId, CastDef, EffectDef, HandlerId, PayloadDef, SpellDef, SpellId,
};
use crate::spells::handlers::HandlerRegistry;
use crate::table::{has_key, place_of, same_text, Table};
use vstd::prelude::*;

verus! {

/// The live spells, in the order of their names.
#[derive(Debug)]
pub struct SpellCatalog {
    pub spells: Table<SpellDef>,
}

/// The live body templates.
#[derive(Debug)]
pub struct BodyCatalog {
    pub bodies: Table<BodyDef>,
}

impl View for SpellCatalog {
    type V = Map<Seq<char>, SpellDef>;

    open spec fn view(&self) -> Map<Seq<char>, SpellDef> {
        self.spells@
    }
}

impl View for BodyCatalog {
    type V = Map<Seq<char>, BodyDef>;

    open spec fn view(&self) -> Map<Seq<char>, BodyDef> {
        self.bodies@
    }
}

impl SpellCatalog {
    /// Each spell stands under its own name, once.
    pub open spec fn wf(&self) -> bool {
        &&& self.spells.wf()
        &&& forall|i: int|
            0 <= i < self.spells.keys@.len() ==> (#[trigger] self.spells.keys@[i])@
                == self.spells.values@[i].id.0@
    }

    /// The spells in their order.
    pub open spec fn defs(&self) -> Seq<SpellDef> {
        self.spells.values@
    }

    /// A catalog without spells.
    pub fn new() -> (r: SpellCatalog)
        ensures
            r.wf(),
            r.spells.sorted(),
            r@ == Map::<Seq<char>, SpellDef>::empty(),
            r.defs().len() == 0,
    {
        SpellCatalog { spells: Table::new() }
    }

    /// The spell with this name.
    pub fn get(&self, id: &SpellId) -> (r: Option<&SpellDef>)
        requires
            self.wf(),
        ensures
            match r {
                Some(s) => self@.contains_key(id.0@) && *s == self@[id.0@],
                None => !self@.contains_key(id.0@),
            },
    {
        self.spells.get(id.0.as_str())
    }

    /// The spells in their order.
    pub fn iter(&self) -> (r: &Vec<SpellDef>)
        ensures
            r@ == self.defs(),
    {
        &self.spells.values
    }

    /// The names of the spells, in their order.
    pub fn ids(&self) -> (r: &Vec<String>)
        ensures
            r@ == self.spells.keys@,
    {
        &self.spells.keys
    }

    /// Whether there are no spells.
    pub fn is_empty(&self) -> (r: bool)
        requires
            self.wf(),
        ensures
            r == (self.defs().len() == 0),
    {
        self.spells.is_empty()
    }

    /// Puts a spell into the catalog as it is, behind those that are there or in
    /// place of the one with its name.
    pub fn insert_for_test(&mut self, spell: SpellDef)
        requires
            old(self).wf(),
        ensures
            final(self).wf(),
            final(self)@ == old(self)@.insert(spell.id.0@, spell),
    {
        let key = spell.id.0.clone();
        let ghost before = self.spells;
        let replaced = self.spells.insert(key, spell);
        proof {
            if replaced {
                let p = place_of(before.keys@, spell.id.0@);
                assert(has_key(before.keys@, spell.id.0@));
                assert(before.keys@[p]@ == spell.id.0@);
            }
        }
    }
}

impl BodyCatalog {
    /// Each body stands under its own name, once.
    pub open spec fn wf(&self) -> bool {
        &&& self.bodies.wf()
        &&& forall|i: int|
            0 <= i < self.bodies.keys@.len() ==> (#[trigger] self.bodies.keys@[i])@
                == self.bodies.values@[i].id.0@
    }

    /// A catalog without bodies.
    pub fn new() -> (r: BodyCatalog)
        ensures
            r.wf(),
            r@ == Map::<Seq<char>, BodyDef>::empty(),
    {
        BodyCatalog { bodies: Table::new() }
    }

    /// The body with this name.
    pub fn get(&self, id: &BodyTemplateId) -> (r: Option<&BodyDef>)
        requires
            self.wf(),
        ensures
            match r {
                Some(b) => self@.contains_key(id.0@) && *b == self@[id.0@],
                None => !self@.contains_key(id.0@),
            },
    {
        self.bodies.get(id.0.as_str())
    }
}

/// The spells by name; of several with one name the last.
pub open spec fn spells_by_id(defs: Seq<SpellDef>) -> Map<Seq<char>, SpellDef>
    decreases defs.len(),
{
    if defs.len() == 0 {
        Map::empty()
    } else {
        spells_by_id(defs.drop_last()).insert(defs.last().id.0@, defs.last())
    }
}

/// The bodies by name; of several with one name the last.
pub open spec fn bodies_by_id(defs: Seq<BodyDef>) -> Map<Seq<char>, BodyDef>
    decreases defs.len(),
{
    if defs.len() == 0 {
        Map::empty()
    } else {
        bodies_by_id(defs.drop_last()).insert(defs.last().id.0@, defs.last())
    }
}

/// What is written down under a name has that name.
proof fn lemma_spells_own_ids(defs: Seq<SpellDef>)
    ensures
        forall|k: Seq<char>|
            spells_by_id(defs).contains_key(k) ==> (#[trigger] spells_by_id(defs)[k]).id.0@ == k,
    decreases defs.len(),
{
    if defs.len() > 0 {
        lemma_spells_own_ids(defs.drop_last());
    }
}

proof fn lemma_bodies_own_ids(defs: Seq<BodyDef>)
    ensures
        forall|k: Seq<char>|
            bodies_by_id(defs).contains_key(k) ==> (#[trigger] bodies_by_id(defs)[k]).id.0@ == k,
    decreases defs.len(),
{
    if defs.len() > 0 {
        lemma_bodies_own_ids(defs.drop_last());
    }
}

fn collect_spells(defs: Vec<SpellDef>) -> (r: SpellCatalog)
    ensures
        r.wf(),
        r.spells.sorted(),
        r@ == spells_by_id(defs@),
{
    let ghost all = defs@;
    let mut rest = defs;
    let mut catalog = SpellCatalog::new();
    let ghost mut n: int = 0;
    while rest.len() > 0
        invariant
            0 <= n <= all.len(),
            rest@ == all.skip(n),
            catalog.spells.wf(),
            catalog.spells.sorted(),
            catalog@ == spells_by_id(all.take(n)),
        decreases rest.len(),
    {
        let def = rest.remove(0);
        let key = def.id.0.clone();
        assert(all.take(n + 1).drop_last() =~= all.take(n));
        assert(rest@ =~= all.skip(n + 1));
        catalog.spells.insert_sorted(key, def);
        proof {
            n = n + 1;
        }
    }
    assert(all.take(n) =~= all);
    proof {
        lemma_spells_own_ids(all);
        assert forall|i: int| 0 <= i < catalog.spells.keys@.len() implies (
        #[trigger] catalog.spells.keys@[i])@ == catalog.spells.values@[i].id.0@ by {
            catalog.spells.lemma_at(i);
        }
    }
    catalog
}

fn collect_bodies(defs: Vec<BodyDef>) -> (r: BodyCatalog)
    ensures
        r.wf(),
        r@ == bodies_by_id(defs@),
{
    let ghost all = defs@;
    let mut rest = defs;
    let mut catalog = BodyCatalog::new();
    let ghost mut n: int = 0;
    while rest.len() > 0
        invariant
            0 <= n <= all.len(),
            rest@ == all.skip(n),
            catalog.bodies.wf(),
            catalog@ == bodies_by_id(all.take(n)),
        decreases rest.len(),
    {
        let def = rest.remove(0);
        let key = def.id.0.clone();
        assert(all.take(n + 1).drop_last() =~= all.take(n));
        assert(rest@ =~= all.skip(n + 1));
        catalog.bodies.insert(key, def);
        proof {
            n = n + 1;
        }
    }
    assert(all.take(n) =~= all);
    proof {
        lemma_bodies_own_ids(all);
        assert forall|i: int| 0 <= i < catalog.bodies.keys@.len() implies (
        #[trigger] catalog.bodies.keys@[i])@ == catalog.bodies.values@[i].id.0@ by {
            catalog.bodies.lemma_at(i);
        }
    }
    catalog
}

/// What is wrong with a cast.
#[derive(Clone, Copy, Debug, PartialEq, Eq, Structural)]
pub enum ProblemKind {
    /// A cast before it has the same name.
    DuplicateCastId,
    /// The cooldown is below zero.
    NegativeCooldown,
    /// There is no such body template.
    UnknownBodyTemplate,
}

/// A cast that keeps a catalog from going live, by its place.
#[derive(Clone, Copy, Debug, PartialEq, Eq, Structural)]
pub struct CatalogProblem {
    pub spell: usize,
    pub cast: usize,
    pub kind: ProblemKind,
}

/// Whether a cast before the one at `spell` and `cast` has the name `id`.
pub open spec fn named_before(spells: Seq<SpellDef>, spell: int, cast: int, id: Seq<char>) -> bool {
    exists|s: int, c: int|
        0 <= s <= spell && 0 <= c < spells[s].casts@.len() && (s < spell || c < cast)
            && (#[trigger] spells[s].casts@[c]).id.0@ == id
}

/// Whether the payload names a body template that there is not.
pub open spec fn lacks_body(payload: PayloadDef, bodies: Map<Seq<char>, BodyDef>) -> bool {
    match payload {
        PayloadDef::SpawnBody { template, launch: _, on_event: _ } => !bodies.contains_key(
            template.0@,
        ),
        _ => false,
    }
}

/// What is wrong with one cast.
pub open spec fn problems_of_cast(
    spells: Seq<SpellDef>,
    bodies: Map<Seq<char>, BodyDef>,
    spell: int,
    cast: int,
) -> Seq<CatalogProblem> {
    let def = spells[spell].casts@[cast];
    let at = |kind: ProblemKind|
        CatalogProblem { spell: spell as usize, cast: cast as usize, kind };
    let duplicate = if named_before(spells, spell, cast, def.id.0@) {
        seq![at(ProblemKind::DuplicateCastId)]
    } else {
        Seq::empty()
    };
    let cooldown = if def.cooldown.lt(zero()) {
        seq![at(ProblemKind::NegativeCooldown)]
    } else {
        Seq::empty()
    };
    let body = if lacks_body(def.payload, bodies) {
        seq![at(ProblemKind::UnknownBodyTemplate)]
    } else {
        Seq::empty()
    };
    duplicate + cooldown + body
}

/// What is wrong with the first `n` casts of a spell.
pub open spec fn problems_of_casts(
    spells: Seq<SpellDef>,
    bodies: Map<Seq<char>, BodyDef>,
    spell: int,
    n: int,
) -> Seq<CatalogProblem>
    decreases n,
{
    if n <= 0 {
        Seq::empty()
    } else {
        problems_of_casts(spells, bodies, spell, n - 1) + problems_of_cast(
            spells,
            bodies,
            spell,
            n - 1,
        )
    }
}

/// What is wrong with the first `n` spells.
pub open spec fn problems_of_spells(
    spells: Seq<SpellDef>,
    bodies: Map<Seq<char>, BodyDef>,
    n: int,
) -> Seq<CatalogProblem>
    decreases n,
{
    if n <= 0 {
        Seq::empty()
    } else {
        problems_of_spells(spells, bodies, n - 1) + problems_of_casts(
            spells,
            bodies,
            n - 1,
            spells[n - 1].casts@.len() as int,
        )
    }
}

fn is_named_before(spells: &Vec<SpellDef>, spell: usize, cast: usize, id: &str) -> (r: bool)
    requires
        spell < spells.len(),
        cast <= spells@[spell as int].casts@.len(),
    ensures
        r == named_before(spells@, spell as int, cast as int, id@),
{
    let mut s: usize = 0;
    while s <= spell
        invariant
            s <= spell + 1,
            spell < spells.len(),
            cast <= spells@[spell as int].casts@.len(),
            forall|a: int, b: int|
                0 <= a < s && 0 <= b < spells@[a].casts@.len() && (a < spell || b < cast)
                    ==> (#[trigger] spells@[a].casts@[b]).id.0@ != id@,
        decreases spell + 1 - s,
    {
        let casts = &spells[s].casts;
        let end: usize = if s < spell {
            casts.len()
        } else {
            cast
        };
        let mut c: usize = 0;
        while c < end
            invariant
                s <= spell < spells.len(),
                casts@ == spells@[s as int].casts@,
                end == (if s < spell {
                    casts@.len() as int
                } else {
                    cast as int
                }),
                c <= end <= casts@.len(),
                forall|b: int| 0 <= b < c ==> (#[trigger] spells@[s as int].casts@[b]).id.0@ != id@,
            decreases end - c,
        {
            if same_text(casts[c].id.0.as_str(), id) {
                assert(spells@[s as int].casts@[c as int].id.0@ == id@);
                return true;
            }
            c += 1;
        }
        s += 1;
    }
    false
}

/// Appends what is wrong with one cast.
pub fn validate_cast(
    spells: &Vec<SpellDef>,
    bodies: &BodyCatalog,
    spell: usize,
    cast: usize,
    problems: &mut Vec<CatalogProblem>,
)
    requires
        bodies.wf(),
        spell < spells.len(),
        cast < spells@[spell as int].casts@.len(),
    ensures
        final(problems)@ == old(problems)@ + problems_of_cast(
            spells@,
            bodies@,
            spell as int,
            cast as int,
        ),
{
    let def = &spells[spell].casts[cast];
    if is_named_before(spells, spell, cast, def.id.0.as_str()) {
        problems.push(CatalogProblem { spell, cast, kind: ProblemKind::DuplicateCastId });
    }
    if def.cooldown.lt(zero()) {
        problems.push(CatalogProblem { spell, cast, kind: ProblemKind::NegativeCooldown });
    }
    let lacks = match &def.payload {
        PayloadDef::SpawnBody { template, launch: _, on_event: _ } => !bodies.bodies.contains(
            template.0.as_str(),
        ),
        _ => false,
    };
    if lacks {
        problems.push(CatalogProblem { spell, cast, kind: ProblemKind::UnknownBodyTemplate });
    }
    assert(problems@ =~= old(problems)@ + problems_of_cast(
        spells@,
        bodies@,
        spell as int,
        cast as int,
    ));
}

/// Everything that keeps the spells from going live beside the bodies.
pub fn validate(spells: &Vec<SpellDef>, bodies: &BodyCatalog) -> (r: Vec<CatalogProblem>)
    requires
        bodies.wf(),
    ensures
        r@ == problems_of_spells(spells@, bodies@, spells@.len() as int),
{
    let mut problems: Vec<CatalogProblem> = Vec::new();
    let mut s: usize = 0;
    while s < spells.len()
        invariant
            bodies.wf(),
            s <= spells.len(),
            problems@ == problems_of_spells(spells@, bodies@, s as int),
        decreases spells.len() - s,
    {
        let n: usize = spells[s].casts.len();
        let mut c: usize = 0;
        assert(problems@ =~= problems_of_spells(spells@, bodies@, s as int) + problems_of_casts(
            spells@,
            bodies@,
            s as int,
            0,
        ));
        while c < n
            invariant
                bodies.wf(),
                s < spells.len(),
                c <= n,
                n == spells@[s as int].casts@.len(),
                problems@ == problems_of_spells(spells@, bodies@, s as int) + problems_of_casts(
                    spells@,
                    bodies@,
                    s as int,
                    c as int,
                ),
            decreases n - c,
        {
            validate_cast(spells, bodies, s, c, &mut problems);
            assert(problems@ =~= problems_of_spells(spells@, bodies@, s as int)
                + problems_of_casts(spells@, bodies@, s as int, c + 1));
            c += 1;
        }
        s += 1;
    }
    problems
}

/// How a rebuild ended.
#[derive(Debug)]
pub enum Rebuild {
    /// The new catalogs are live. `announce` tells whether a spell or a body
    /// came or went.
    Live { announce: bool },
    /// The old catalogs stay, because of `problems` in `refused`.
    Kept { problems: Vec<CatalogProblem>, refused: SpellCatalog },
}

fn same_names(a: &Vec<String>, b: &Vec<String>) -> (r: bool)
    ensures
        r == (a@.map_values(|k: String| k@) == b@.map_values(|k: String| k@)),
{
    let ghost left = a@.map_values(|k: String| k@);
    let ghost right = b@.map_values(|k: String| k@);
    if a.len() != b.len() {
        assert(left.len() != right.len());
        return false;
    }
    let mut i: usize = 0;
    while i < a.len()
        invariant
            i <= a.len(),
            a.len() == b.len(),
            left == a@.map_values(|k: String| k@),
            right == b@.map_values(|k: String| k@),
            forall|j: int| 0 <= j < i ==> left[j] == right[j],
        decreases a.len() - i,
    {
        if !same_text(a[i].as_str(), b[i].as_str()) {
            assert(left[i as int] != right[i as int]);
            return false;
        }
        i += 1;
    }
    assert(left =~= right);
    true
}

fn names_within(a: &Table<BodyDef>, b: &Table<BodyDef>) -> (r: bool)
    requires
        a.wf(),
        b.wf(),
    ensures
        r == a@.dom().subset_of(b@.dom()),
{
    let mut i: usize = 0;
    while i < a.keys.len()
        invariant
            a.wf(),
            b.wf(),
            i <= a.keys.len(),
            forall|j: int| 0 <= j < i ==> b@.contains_key((#[trigger] a.keys@[j])@),
        decreases a.keys.len() - i,
    {
        if !b.contains(a.keys[i].as_str()) {
            proof {
                a.lemma_at(i as int);
                assert(a@.dom().contains(a.keys@[i as int]@));
                assert(!b@.dom().contains(a.keys@[i as int]@));
            }
            return false;
        }
        i += 1;
    }
    assert forall|k: Seq<char>| a@.dom().contains(k) implies b@.dom().contains(k) by {
        let p = place_of(a.keys@, k);
        assert(has_key(a.keys@, k));
        assert(a.keys@[p]@ == k);
    }
    true
}

/// Puts what is written down into the catalogs, unless something in it points
/// nowhere: then the catalogs stay as they are.
pub fn rebuild(
    spell_defs: Vec<SpellDef>,
    body_defs: Vec<BodyDef>,
    spells: &mut SpellCatalog,
    bodies: &mut BodyCatalog,
) -> (r: Rebuild)
    requires
        old(spells).wf(),
        old(bodies).wf(),
    ensures
        final(spells).wf(),
        final(bodies).wf(),
        match r {
            Rebuild::Live { announce } => {
                &&& final(spells)@ == spells_by_id(spell_defs@)
                &&& final(bodies)@ == bodies_by_id(body_defs@)
                &&& final(spells).spells.sorted()
                &&& problems_of_spells(
                    final(spells).defs(),
                    final(bodies)@,
                    final(spells).defs().len() as int,
                ).len() == 0
                &&& announce == (old(spells).defs().len() == 0 || old(spells).spells.names()
                    != final(spells).spells.names() || old(bodies)@.dom() != final(bodies)@.dom())
            },
            Rebuild::Kept { problems, refused } => {
                &&& *final(spells) == *old(spells)
                &&& *final(bodies) == *old(bodies)
                &&& refused.wf()
                &&& refused.spells.sorted()
                &&& refused@ == spells_by_id(spell_defs@)
                &&& problems@ == problems_of_spells(
                    refused.defs(),
                    bodies_by_id(body_defs@),
                    refused.defs().len() as int,
                )
                &&& problems@.len() > 0
            },
        },
{
    let next_bodies = collect_bodies(body_defs);
    let next_spells = collect_spells(spell_defs);
    let problems = validate(next_spells.iter(), &next_bodies);
    if problems.len() > 0 {
        return Rebuild::Kept { problems, refused: next_spells };
    }
    let was_empty = spells.is_empty();
    let same_spells = same_names(next_spells.ids(), spells.ids());
    let same_bodies = names_within(&next_bodies.bodies, &bodies.bodies) && names_within(
        &bodies.bodies,
        &next_bodies.bodies,
    );
    assert(same_bodies == (old(bodies)@.dom() =~= next_bodies@.dom()));
    *spells = next_spells;
    *bodies = next_bodies;
    Rebuild::Live { announce: was_empty || !same_spells || !same_bodies }
}

/// The casts and handlers that this peer has been warned about.
#[derive(Debug)]
pub struct HandlerWarnings {
    pub casts: Vec<String>,
    pub handlers: Vec<String>,
}

impl HandlerWarnings {
    /// Each warning is about one cast and one handler.
    pub open spec fn wf(&self) -> bool {
        self.casts@.len() == self.handlers@.len()
    }

    /// The warnings in their order.
    pub open spec fn pairs(&self) -> Seq<(Seq<char>, Seq<char>)> {
        Seq::new(self.casts@.len(), |i: int| (self.casts@[i]@, self.handlers@[i]@))
    }

    /// No warnings yet.
    pub fn new() -> (r: HandlerWarnings)
        ensures
            r.wf(),
            r.pairs().len() == 0,
    {
        HandlerWarnings { casts: Vec::new(), handlers: Vec::new() }
    }

    fn warned(&self, cast_id: &str, handler: &str) -> (r: bool)
        requires
            self.wf(),
        ensures
            r == self.pairs().contains((cast_id@, handler@)),
    {
        let mut i: usize = 0;
        while i < self.casts.len()
            invariant
                self.wf(),
                i <= self.casts.len(),
                forall|j: int| 0 <= j < i ==> self.pairs()[j] != (cast_id@, handler@),
            decreases self.casts.len() - i,
        {
            if same_text(self.casts[i].as_str(), cast_id) && same_text(
                self.handlers[i].as_str(),
                handler,
            ) {
                assert(self.pairs()[i as int] == (cast_id@, handler@));
                return true;
            }
            i += 1;
        }
        false
    }

    /// Whether to warn that a cast names a handler that this peer lacks: once
    /// for each cast and handler.
    pub fn warn_handler<H>(
        &mut self,
        handler: &HandlerId,
        cast_id: &str,
        handlers: &HandlerRegistry<H>,
    ) -> (r: bool)
        requires
            old(self).wf(),
            handlers.wf(),
        ensures
            final(self).wf(),
            r == (!handlers@.contains_key(handler.0@) && !old(self).pairs().contains(
                (cast_id@, handler.0@),
            )),
            final(self).pairs() == (if r {
                old(self).pairs().push((cast_id@, handler.0@))
            } else {
                old(self).pairs()
            }),
    {
        if handlers.contains(handler) || self.warned(cast_id, handler.0.as_str()) {
            return false;
        }
        let ghost before = self.pairs();
        self.casts.push(cast_id.to_owned());
        self.handlers.push(handler.0.clone());
        assert(self.pairs() =~= before.push((cast_id@, handler.0@)));
        true
    }
}

/// The handler that a cast's payload calls, where it calls one.
pub open spec fn payload_handler(cast: CastDef) -> Option<Seq<char>> {
    match cast.payload {
        PayloadDef::Custom { handler } => Some(handler.0@),
        _ => None,
    }
}

/// The handler that a cast's effect calls, where it calls one.
pub open spec fn effect_handler(cast: CastDef) -> Option<Seq<char>> {
    match cast.effect {
        EffectDef::Custom { handler } => Some(handler.0@),
        _ => None,
    }
}

/// Whether to warn about a handler that a cast calls.
pub open spec fn to_warn<H>(
    warned: Seq<(Seq<char>, Seq<char>)>,
    cast: Seq<char>,
    handler: Option<Seq<char>>,
    handlers: Map<Seq<char>, H>,
) -> bool {
    match handler {
        Some(h) => !handlers.contains_key(h) && !warned.contains((cast, h)),
        None => false,
    }
}

/// The warnings after one about a handler that a cast calls, if it is due.
pub open spec fn after_warning<H>(
    warned: Seq<(Seq<char>, Seq<char>)>,
    cast: Seq<char>,
    handler: Option<Seq<char>>,
    handlers: Map<Seq<char>, H>,
) -> Seq<(Seq<char>, Seq<char>)> {
    if to_warn(warned, cast, handler, handlers) {
        warned.push((cast, handler->Some_0))
    } else {
        warned
    }
}

/// Whether to warn about the handlers of a cast's payload and of its effect.
pub fn warn_cast<H>(
    cast: &CastDef,
    handlers: &HandlerRegistry<H>,
    warnings: &mut HandlerWarnings,
) -> (r: (bool, bool))
    requires
        old(warnings).wf(),
        handlers.wf(),
    ensures
        final(warnings).wf(),
        ({
            let first = after_warning(
                old(warnings).pairs(),
                cast.id.0@,
                payload_handler(*cast),
                handlers@,
            );
            &&& r.0 == to_warn(
                old(warnings).pairs(),
                cast.id.0@,
                payload_handler(*cast),
                handlers@,
            )
            &&& r.1 == to_warn(first, cast.id.0@, effect_handler(*cast), handlers@)
            &&& final(warnings).pairs() == after_warning(
                first,
                cast.id.0@,
                effect_handler(*cast),
                handlers@,
            )
        }),
{
    let payload = match &cast.payload {
        PayloadDef::Custom { handler } => warnings.warn_handler(
            handler,
            cast.id.0.as_str(),
            handlers,
        ),
        _ => false,
    };
    let effect = match &cast.effect {
        EffectDef::Custom { handler } => warnings.warn_handler(
            handler,
            cast.id.0.as_str(),
            handlers,
        ),
        _ => false,
    };
    (payload, effect)
}

/// A cast's missing handler is told of once: whatever else is told of afterwards,
/// it is not again.
pub proof fn law_handler_is_told_of_once<H>(
    warned: Seq<(Seq<char>, Seq<char>)>,
    cast: Seq<char>,
    handler: Option<Seq<char>>,
    handlers: Map<Seq<char>, H>,
    later: Seq<(Seq<char>, Seq<char>)>,
)
    requires
        to_warn(warned, cast, handler, handlers),
    ensures
        !to_warn(after_warning(warned, cast, handler, handlers) + later, cast, handler, handlers),
{
    let told = after_warning(warned, cast, handler, handlers);
    assert((told + later)[told.len() - 1] == (cast, handler->Some_0));
}

/// Whether nothing is wrong with a cast: its name is its own, its cooldown is not
/// negative, and there is a body to send out if it sends one out.
pub open spec fn is_sound(
    spells: Seq<SpellDef>,
    bodies: Map<Seq<char>, BodyDef>,
    spell: int,
    cast: int,
) -> bool {
    let def = spells[spell].casts@[cast];
    &&& !named_before(spells, spell, cast, def.id.0@)
    &&& !def.cooldown.lt(zero())
    &&& !lacks_body(def.payload, bodies)
}

proof fn lemma_sound_casts(
    spells: Seq<SpellDef>,
    bodies: Map<Seq<char>, BodyDef>,
    spell: int,
    n: int,
)
    ensures
        problems_of_casts(spells, bodies, spell, n).len() == 0 <==> forall|c: int|
            0 <= c < n ==> #[trigger] is_sound(spells, bodies, spell, c),
    decreases n,
{
    if n > 0 {
        lemma_sound_casts(spells, bodies, spell, n - 1);
        assert(is_sound(spells, bodies, spell, n - 1) <==> problems_of_cast(
            spells,
            bodies,
            spell,
            n - 1,
        ).len() == 0);
    }
}

proof fn lemma_sound_spells(spells: Seq<SpellDef>, bodies: Map<Seq<char>, BodyDef>, n: int)
    ensures
        problems_of_spells(spells, bodies, n).len() == 0 <==> forall|s: int, c: int|
            0 <= s < n && 0 <= c < spells[s].casts@.len() ==> #[trigger] is_sound(
                spells,
                bodies,
                s,
                c,
            ),
    decreases n,
{
    if n > 0 {
        lemma_sound_spells(spells, bodies, n - 1);
        lemma_sound_casts(spells, bodies, n - 1, spells[n - 1].casts@.len() as int);
    }
}

/// A catalog goes live just if nothing is wrong with any of its casts.
pub proof fn law_catalog_is_sound(spells: Seq<SpellDef>, bodies: Map<Seq<char>, BodyDef>)
    ensures
        problems_of_spells(spells, bodies, spells.len() as int).len() == 0 <==> forall|
            s: int,
            c: int,
        |
            0 <= s < spells.len() && 0 <= c < spells[s].casts@.len() ==> #[trigger] is_sound(
                spells,
                bodies,
                s,
                c,
            ),
{
    lemma_sound_spells(spells, bodies, spells.len() as int);
}

/// No two casts of a live catalog have the same name.
pub proof fn law_cast_names_are_unique(
    spells: Seq<SpellDef>,
    bodies: Map<Seq<char>, BodyDef>,
    s: int,
    c: int,
    t: int,
    d: int,
)
    requires
        problems_of_spells(spells, bodies, spells.len() as int).len() == 0,
        0 <= s < spells.len(),
        0 <= c < spells[s].casts@.len(),
        0 <= t < spells.len(),
        0 <= d < spells[t].casts@.len(),
        spells[s].casts@[c].id.0@ == spells[t].casts@[d].id.0@,
    ensures
        s == t,
        c == d,
{
    law_catalog_is_sound(spells, bodies);
    assert(is_sound(spells, bodies, s, c));
    assert(is_sound(spells, bodies, t, d));
}

} // verus!

//! Handlers: code that a cast calls by name.

use crate::entity::Entity;
use crate::scalar::Scalar;
use crate::spells::data::{CastId, HandlerId, OriginDef, SpellId, TargetDef};
use crate::table::Table;
use vstd::prelude::*;

verus! {

/// On whose behalf a cast runs.
#[derive(Clone, Copy, Debug, PartialEq, Eq, Structural)]
pub enum Authority {
    /// A server without a screen: state only.
    Server,
    /// A client that runs ahead of the server.
    Client,
    /// Both at once.
    Both,
}

/// What a handler is told about the cast that calls it.
#[derive(Debug)]
pub struct CastContext {
    pub player: Entity,
    pub spell_id: SpellId,
    pub cast_id: CastId,
    pub authority: Authority,
    /// The charge at release, where the cast has one.
    pub captured_charge: Option<Scalar>,
    /// How many casts set this one off, one after the other.
    pub chain_depth: u8,
    pub origin: OriginDef,
    pub target: TargetDef,
}

/// The handlers of a peer, by name.
#[derive(Debug)]
pub struct HandlerRegistry<H> {
    pub handlers: Table<H>,
}

impl<H> View for HandlerRegistry<H> {
    type V = Map<Seq<char>, H>;

    open spec fn view(&self) -> Map<Seq<char>, H> {
        self.handlers@
    }
}

impl<H> HandlerRegistry<H> {
    /// No name occurs twice.
    pub open spec fn wf(&self) -> bool {
        self.handlers.wf()
    }

    /// A registry without handlers.
    pub fn new() -> (r: HandlerRegistry<H>)
        ensures
            r.wf(),
            r@ == Map::<Seq<char>, H>::empty(),
    {
        HandlerRegistry { handlers: Table::new() }
    }

    /// Registers a handler. The result tells whether it took the place of another.
    pub fn register(&mut self, id: HandlerId, handler: H) -> (replaced: bool)
        requires
            old(self).wf(),
        ensures
            final(self).wf(),
            final(self)@ == old(self)@.insert(id.0@, handler),
            replaced == old(self)@.contains_key(id.0@),
    {
        self.handlers.insert(id.0, handler)
    }

    /// The handler with this name.
    pub fn get(&self, id: &HandlerId) -> (r: Option<&H>)
        requires
            self.wf(),
        ensures
            match r {
                Some(h) => self@.contains_key(id.0@) && *h == self@[id.0@],
                None => !self@.contains_key(id.0@),
            },
    {
        self.handlers.get(id.0.as_str())
    }

    /// Whether there is a handler with this name.
    pub fn contains(&self, id: &HandlerId) -> (r: bool)
        requires
            self.wf(),
        ensures
            r == self@.contains_key(id.0@),
    {
        self.handlers.contains(id.0.as_str())
    }
}

} // verus!

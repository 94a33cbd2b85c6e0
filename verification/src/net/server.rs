//! What the server decides: who is there, what they do, and what is put into
//! the world on their behalf.

use crate::entity::{holds, Entity};
use crate::lists::{lemma_filter_holds, lemma_filter_keeps, lemma_filter_places};
use crate::net::protocol::{HoldPortalMessage, NetworkedPortal, NetworkedPosition, PlacePortalMessage};
use crate::spells::portal::{ahead, disc_rotation, PortalSlot};
use crate::vector::{Quat, Vec3};
use std::collections::HashMap;
use vstd::prelude::*;

verus! {

broadcast use vstd::std_specs::hash::group_hash_axioms;

/// A peer, as the connection names it.
#[derive(Clone, Copy, Debug, PartialEq, Eq, Structural)]
pub enum PeerId {
    Netcode(u64),
    Steam(u64),
    Local(u64),
    Entity(u64),
    /// A peer without a number, such as the server itself.
    Unnumbered,
}

impl PeerId {
    pub open spec fn spec_client_id(self) -> Option<u64> {
        match self {
            PeerId::Netcode(id) => Some(id),
            PeerId::Steam(id) => Some(id),
            PeerId::Local(id) => Some(id),
            PeerId::Entity(id) => Some(id),
            PeerId::Unnumbered => None,
        }
    }

    /// The number of the client, if the peer is one.
    #[verifier::when_used_as_spec(spec_client_id)]
    pub fn client_id(self) -> (r: Option<u64>)
        ensures
            r == self.spec_client_id(),
    {
        match self {
            PeerId::Netcode(id) => Some(id),
            PeerId::Steam(id) => Some(id),
            PeerId::Local(id) => Some(id),
            PeerId::Entity(id) => Some(id),
            PeerId::Unnumbered => None,
        }
    }
}

/// Gives out the names that every peer knows things by: one after the other, from
/// one on.
#[derive(Clone, Copy, Debug, PartialEq, Eq, Structural)]
pub struct NetworkedIdAlloc {
    /// The last name given out; nought if none was.
    pub next: u64,
}

impl Default for NetworkedIdAlloc {
    fn default() -> (r: NetworkedIdAlloc)
        ensures
            r.next == 0,
    {
        NetworkedIdAlloc { next: 0 }
    }
}

impl NetworkedIdAlloc {
    /// A name that was not given out before.
    pub fn next(&mut self) -> (r: u64)
        requires
            old(self).next < u64::MAX,
        ensures
            r == old(self).next + 1,
            final(self).next == r,
    {
        self.next = self.next + 1;
        self.next
    }
}

/// The players by the number of their client.
#[derive(Debug)]
pub struct ClientPlayerMap(pub HashMap<u64, Entity>);

impl View for ClientPlayerMap {
    type V = Map<u64, Entity>;

    open spec fn view(&self) -> Map<u64, Entity> {
        self.0@
    }
}

impl Default for ClientPlayerMap {
    fn default() -> (r: ClientPlayerMap)
        ensures
            r@ == Map::<u64, Entity>::empty(),
    {
        ClientPlayerMap(HashMap::new())
    }
}

impl ClientPlayerMap {
    /// Remembers the player of a client.
    pub fn insert(&mut self, client: u64, player: Entity)
        ensures
            final(self)@ == old(self)@.insert(client, player),
    {
        self.0.insert(client, player);
    }

    /// Forgets the player of a client.
    pub fn remove(&mut self, client: u64)
        ensures
            final(self)@ == old(self)@.remove(client),
    {
        self.0.remove(&client);
    }

    /// The player of a client.
    pub fn get(&self, client: u64) -> (r: Option<Entity>)
        ensures
            r == (if self@.contains_key(client) {
                Some(self@[client])
            } else {
                None
            }),
    {
        match self.0.get(&client) {
            Some(player) => Some(*player),
            None => None,
        }
    }

    /// The player of a peer, if it is a client that has one.
    pub fn player_of(&self, peer: PeerId) -> (r: Option<Entity>)
        ensures
            r == (match peer.client_id() {
                Some(client) => if self@.contains_key(client) {
                    Some(self@[client])
                } else {
                    None
                },
                None => None,
            }),
    {
        match peer.client_id() {
            Some(client) => self.get(client),
            None => None,
        }
    }
}

/// A portal that a client carries.
#[derive(Clone, Copy, Debug, PartialEq, Eq, Structural)]
pub struct HeldPortal {
    pub client: u64,
    pub slot: PortalSlot,
    pub entity: Entity,
}

/// The portals that clients carry: at most one for each client and slot.
#[derive(Debug)]
pub struct HeldPortalRegistry {
    pub entries: Vec<HeldPortal>,
}

/// What a client carries in a slot, if the first so many entries tell.
pub open spec fn held_by(entries: Seq<HeldPortal>, client: u64, slot: PortalSlot) -> Option<Entity>
    decreases entries.len(),
{
    if entries.len() == 0 {
        None
    } else if entries.last().client == client && entries.last().slot == slot {
        Some(entries.last().entity)
    } else {
        held_by(entries.drop_last(), client, slot)
    }
}

/// The entries of all other clients and slots.
pub open spec fn let_go(entries: Seq<HeldPortal>, client: u64, slot: PortalSlot) -> Seq<
    HeldPortal,
> {
    entries.filter(|h: HeldPortal| !(h.client == client && h.slot == slot))
}

/// The entries of the other slot.
pub open spec fn free_slot(entries: Seq<HeldPortal>, slot: PortalSlot) -> Seq<HeldPortal> {
    entries.filter(|h: HeldPortal| h.slot != slot)
}

/// The portals carried in a slot.
pub open spec fn in_slot(entries: Seq<HeldPortal>, slot: PortalSlot) -> Seq<HeldPortal> {
    entries.filter(|h: HeldPortal| h.slot == slot)
}

impl View for HeldPortalRegistry {
    type V = Seq<HeldPortal>;

    open spec fn view(&self) -> Seq<HeldPortal> {
        self.entries@
    }
}

impl Default for HeldPortalRegistry {
    fn default() -> (r: HeldPortalRegistry)
        ensures
            r.wf(),
            r@ == Seq::<HeldPortal>::empty(),
    {
        HeldPortalRegistry { entries: Vec::new() }
    }
}

impl HeldPortalRegistry {
    /// No client has two portals of one slot.
    pub open spec fn wf(&self) -> bool {
        one_each(self@)
    }

    fn get(&self, client: u64, slot: PortalSlot) -> (r: Option<Entity>)
        ensures
            r == held_by(self@, client, slot),
    {
        let mut found: Option<Entity> = None;
        let mut i: usize = 0;
        while i < self.entries.len()
            invariant
                i <= self.entries.len(),
                found == held_by(self.entries@.take(i as int), client, slot),
            decreases self.entries.len() - i,
        {
            assert(self.entries@.take(i + 1).drop_last() =~= self.entries@.take(i as int));
            let held = self.entries[i];
            if held.client == client && held.slot == slot {
                found = Some(held.entity);
            }
            i += 1;
        }
        assert(self.entries@.take(i as int) =~= self.entries@);
        found
    }

    fn remove(&mut self, client: u64, slot: PortalSlot)
        ensures
            final(self)@ == let_go(old(self)@, client, slot),
    {
        let ghost stays = |h: HeldPortal| !(h.client == client && h.slot == slot);
        let mut kept: Vec<HeldPortal> = Vec::new();
        let mut i: usize = 0;
        proof {
            reveal(Seq::filter);
        }
        while i < self.entries.len()
            invariant
                i <= self.entries.len(),
                self.entries@ == old(self)@,
                stays == (|h: HeldPortal| !(h.client == client && h.slot == slot)),
                kept@ == self.entries@.take(i as int).filter(stays),
            decreases self.entries.len() - i,
        {
            proof {
                reveal(Seq::filter);
                assert(self.entries@.take(i + 1).drop_last() =~= self.entries@.take(i as int));
            }
            let held = self.entries[i];
            if !(held.client == client && held.slot == slot) {
                kept.push(held);
            }
            i += 1;
        }
        assert(self.entries@.take(i as int) =~= self.entries@);
        self.entries = kept;
    }

    fn clear_slot(&mut self, slot: PortalSlot) -> (r: Vec<Entity>)
        ensures
            final(self)@ == free_slot(old(self)@, slot),
            r@ == in_slot(old(self)@, slot).map_values(|h: HeldPortal| h.entity),
    {
        let ghost stays = |h: HeldPortal| h.slot != slot;
        let ghost goes = |h: HeldPortal| h.slot == slot;
        let mut kept: Vec<HeldPortal> = Vec::new();
        let mut gone: Vec<Entity> = Vec::new();
        let mut i: usize = 0;
        proof {
            reveal(Seq::filter);
        }
        while i < self.entries.len()
            invariant
                i <= self.entries.len(),
                self.entries@ == old(self)@,
                stays == (|h: HeldPortal| h.slot != slot),
                goes == (|h: HeldPortal| h.slot == slot),
                kept@ == self.entries@.take(i as int).filter(stays),
                gone@ =~= self.entries@.take(i as int).filter(goes).map_values(
                    |h: HeldPortal| h.entity,
                ),
            decreases self.entries.len() - i,
        {
            proof {
                reveal(Seq::filter);
                assert(self.entries@.take(i + 1).drop_last() =~= self.entries@.take(i as int));
            }
            let held = self.entries[i];
            if held.slot == slot {
                gone.push(held.entity);
            } else {
                kept.push(held);
            }
            i += 1;
        }
        assert(self.entries@.take(i as int) =~= self.entries@);
        self.entries = kept;
        gone
    }
}

/// No two entries are of one client and slot.
pub open spec fn one_each(entries: Seq<HeldPortal>) -> bool {
    forall|i: int, j: int|
        0 <= i < j < entries.len() ==> !((#[trigger] entries[i]).client == (
        #[trigger] entries[j]).client && entries[i].slot == entries[j].slot)
}

/// A portal that is out in the world: a placed one, or one that is carried.
#[derive(Clone, Copy, Debug, PartialEq, Eq, Structural)]
pub struct PortalRecord {
    pub entity: Entity,
    pub slot: PortalSlot,
    pub carried: bool,
}

/// A portal to be put into the world, and what goes for it.
#[derive(Debug)]
pub struct NewPortal {
    pub gone: Vec<Entity>,
    pub net_id: u64,
    pub portal: NetworkedPortal,
    pub position: NetworkedPosition,
    /// How the disc is turned; not at all, for a normal that is none.
    pub rotation: Quat,
}

/// Whether a portal leaves its slot: a placed one, or any.
pub open spec fn leaving(slot: PortalSlot, any: bool) -> spec_fn(PortalRecord) -> bool {
    |p: PortalRecord| p.slot == slot && (any || !p.carried)
}

/// Whether a portal stays where another one comes into a slot.
pub open spec fn staying(slot: PortalSlot, any: bool) -> spec_fn(PortalRecord) -> bool {
    |p: PortalRecord| !(p.slot == slot && (any || !p.carried))
}

fn take_out(portals: &mut Vec<PortalRecord>, slot: PortalSlot, any: bool) -> (r: Vec<Entity>)
    ensures
        final(portals)@ == old(portals)@.filter(staying(slot, any)),
        r@ == old(portals)@.filter(leaving(slot, any)).map_values(|p: PortalRecord| p.entity),
{
    let mut kept: Vec<PortalRecord> = Vec::new();
    let mut gone: Vec<Entity> = Vec::new();
    let mut i: usize = 0;
    proof {
        reveal(Seq::filter);
    }
    while i < portals.len()
        invariant
            i <= portals.len(),
            portals@ == old(portals)@,
            kept@ == portals@.take(i as int).filter(staying(slot, any)),
            gone@ =~= portals@.take(i as int).filter(leaving(slot, any)).map_values(
                |p: PortalRecord| p.entity,
            ),
        decreases portals.len() - i,
    {
        proof {
            reveal(Seq::filter);
            assert(portals@.take(i + 1).drop_last() =~= portals@.take(i as int));
        }
        let portal = portals[i];
        if portal.slot == slot && (any || !portal.carried) {
            gone.push(portal.entity);
        } else {
            kept.push(portal);
        }
        i += 1;
    }
    assert(portals@.take(i as int) =~= portals@);
    *portals = kept;
    gone
}

/// The portals without those named.
pub open spec fn without(portals: Seq<PortalRecord>, gone: Seq<Entity>) -> Seq<PortalRecord> {
    portals.filter(|p: PortalRecord| !gone.contains(p.entity))
}

fn drop_named(portals: &mut Vec<PortalRecord>, gone: &Vec<Entity>)
    ensures
        final(portals)@ == without(old(portals)@, gone@),
{
    let ghost stays = |p: PortalRecord| !gone@.contains(p.entity);
    let mut kept: Vec<PortalRecord> = Vec::new();
    let mut i: usize = 0;
    proof {
        reveal(Seq::filter);
    }
    while i < portals.len()
        invariant
            i <= portals.len(),
            portals@ == old(portals)@,
            stays == (|p: PortalRecord| !gone@.contains(p.entity)),
            kept@ == portals@.take(i as int).filter(stays),
        decreases portals.len() - i,
    {
        proof {
            reveal(Seq::filter);
            assert(portals@.take(i + 1).drop_last() =~= portals@.take(i as int));
        }
        let portal = portals[i];
        if !holds(gone, portal.entity) {
            kept.push(portal);
        }
        i += 1;
    }
    assert(portals@.take(i as int) =~= portals@);
    *portals = kept;
}

pub open spec fn spec_is_placeable(msg: PlacePortalMessage) -> bool {
    msg.position.is_finite() && msg.normal.is_finite()
}

/// Whether a portal can be placed like this.
#[verifier::when_used_as_spec(spec_is_placeable)]
pub fn is_placeable(msg: PlacePortalMessage) -> (r: bool)
    ensures
        r == spec_is_placeable(msg),
{
    msg.position.is_finite() && msg.normal.is_finite()
}

/// Puts a portal where a client asks, as `fresh`, in place of the one in its slot.
pub fn handle_place_portal(
    msg: PlacePortalMessage,
    fresh: Entity,
    portals: &mut Vec<PortalRecord>,
    ids: &mut NetworkedIdAlloc,
) -> (r: Option<NewPortal>)
    requires
        old(ids).next < u64::MAX,
    ensures
        r is Some <==> is_placeable(msg),
        r is None ==> final(portals)@ == old(portals)@ && *final(ids) == *old(ids),
        r matches Some(new) ==> {
            &&& final(portals)@ == old(portals)@.filter(staying(msg.slot, true)).push(
                PortalRecord { entity: fresh, slot: msg.slot, carried: false },
            )
            &&& final(ids).next == old(ids).next + 1
            &&& new.net_id == final(ids).next
            &&& new.gone@ == old(portals)@.filter(leaving(msg.slot, true)).map_values(
                |p: PortalRecord| p.entity,
            )
            &&& new.portal == (NetworkedPortal { slot: msg.slot, normal: msg.normal })
            &&& new.position == NetworkedPosition::from_vec3(msg.position)
            &&& new.rotation == disc_rotation(msg.normal)
        },
{
    if !is_placeable(msg) {
        return None;
    }
    let gone = take_out(portals, msg.slot, true);
    portals.push(PortalRecord { entity: fresh, slot: msg.slot, carried: false });
    let net_id = ids.next();
    Some(
        NewPortal {
            gone,
            net_id,
            portal: NetworkedPortal { slot: msg.slot, normal: msg.normal },
            position: NetworkedPosition::from_vec3(msg.position),
            rotation: disc_rotation(msg.normal),
        },
    )
}

pub open spec fn spec_forward_from_yaw_pitch(yaw: Quat, pitch: Quat) -> Vec3 {
    yaw.compose(pitch).rotate(ahead())
}

/// Where someone looks who is turned by `yaw` and then by `pitch`.
#[verifier::when_used_as_spec(spec_forward_from_yaw_pitch)]
pub fn forward_from_yaw_pitch(yaw: Quat, pitch: Quat) -> (r: Vec3)
    ensures
        r == spec_forward_from_yaw_pitch(yaw, pitch),
{
    yaw.compose(pitch).rotate(ahead())
}

pub open spec fn spec_is_holdable(msg: HoldPortalMessage) -> bool {
    msg.position.is_finite() && msg.yaw.is_finite() && msg.pitch.is_finite()
}

/// Whether a portal can be carried like this.
#[verifier::when_used_as_spec(spec_is_holdable)]
pub fn is_holdable(msg: HoldPortalMessage) -> (r: bool)
    ensures
        r == spec_is_holdable(msg),
{
    msg.position.is_finite() && msg.yaw.is_finite() && msg.pitch.is_finite()
}

pub open spec fn spec_held_position(msg: HoldPortalMessage) -> NetworkedPosition {
    NetworkedPosition {
        yaw: msg.yaw,
        pitch: msg.pitch,
        ..NetworkedPosition::from_vec3(msg.position)
    }
}

/// Where a carried portal is, and how its carrier looks.
#[verifier::when_used_as_spec(spec_held_position)]
pub fn held_position(msg: HoldPortalMessage) -> (r: NetworkedPosition)
    ensures
        r == spec_held_position(msg),
{
    NetworkedPosition {
        yaw: msg.yaw,
        pitch: msg.pitch,
        ..NetworkedPosition::from_vec3(msg.position)
    }
}

/// What a message about a carried portal comes to.
#[derive(Debug)]
pub enum HoldOutcome {
    /// It makes no sense.
    Ignored,
    /// The portal is let go of, and vanishes if there was one.
    Released(Option<Entity>),
    /// The portal that is there is moved.
    Moved {
        entity: Entity,
        portal: NetworkedPortal,
        position: NetworkedPosition,
        rotation: Quat,
    },
    /// A portal appears, in place of all others in its slot.
    Raised(NewPortal),
}

/// The names of the portals carried in a slot.
pub open spec fn carried_in(entries: Seq<HeldPortal>, slot: PortalSlot) -> Seq<Entity> {
    in_slot(entries, slot).map_values(|h: HeldPortal| h.entity)
}

/// The names of the placed portals in a slot.
pub open spec fn placed_in(portals: Seq<PortalRecord>, slot: PortalSlot) -> Seq<Entity> {
    portals.filter(leaving(slot, false)).map_values(|p: PortalRecord| p.entity)
}

/// The portals when a carried one, named `fresh`, takes a slot.
pub open spec fn with_carried(
    portals: Seq<PortalRecord>,
    entries: Seq<HeldPortal>,
    slot: PortalSlot,
    fresh: Entity,
) -> Seq<PortalRecord> {
    without(portals.filter(staying(slot, false)), carried_in(entries, slot)).push(
        PortalRecord { entity: fresh, slot, carried: true },
    )
}

/// The carried portals when a client's, named `fresh`, takes a slot.
pub open spec fn now_held(
    entries: Seq<HeldPortal>,
    client: u64,
    slot: PortalSlot,
    fresh: Entity,
) -> Seq<HeldPortal> {
    free_slot(entries, slot).push(HeldPortal { client, slot, entity: fresh })
}

/// Follows a client who carries a portal and looks `forward`: the first message
/// makes the portal appear as `fresh`, later ones move it, and the last one lets
/// go of it.
pub fn handle_hold_portal(
    client: u64,
    msg: HoldPortalMessage,
    forward: Vec3,
    fresh: Entity,
    portals: &mut Vec<PortalRecord>,
    registry: &mut HeldPortalRegistry,
    ids: &mut NetworkedIdAlloc,
) -> (r: HoldOutcome)
    requires
        old(registry).wf(),
        old(ids).next < u64::MAX,
    ensures
        final(registry).wf(),
        r is Ignored <==> !is_holdable(msg),
        r is Released <==> is_holdable(msg) && !msg.active,
        r is Moved <==> is_holdable(msg) && msg.active && held_by(
            old(registry)@,
            client,
            msg.slot,
        ) is Some,
        r is Ignored || r is Moved ==> final(portals)@ == old(portals)@ && final(registry)@ == old(
            registry,
        )@,
        !(r is Raised) ==> *final(ids) == *old(ids),
        r matches HoldOutcome::Released(gone) ==> {
            &&& gone == held_by(old(registry)@, client, msg.slot)
            &&& final(registry)@ == let_go(old(registry)@, client, msg.slot)
            &&& final(portals)@ == (match gone {
                Some(e) => without(old(portals)@, seq![e]),
                None => old(portals)@,
            })
        },
        r matches HoldOutcome::Moved { entity, portal, position, rotation } ==> {
            &&& held_by(old(registry)@, client, msg.slot) == Some(entity)
            &&& portal == (NetworkedPortal { slot: msg.slot, normal: forward.neg() })
            &&& position == held_position(msg)
            &&& rotation == disc_rotation(forward.neg())
        },
        r matches HoldOutcome::Raised(new) ==> {
            &&& new.gone@ == placed_in(old(portals)@, msg.slot) + carried_in(
                old(registry)@,
                msg.slot,
            )
            &&& final(portals)@ == with_carried(old(portals)@, old(registry)@, msg.slot, fresh)
            &&& final(registry)@ == now_held(old(registry)@, client, msg.slot, fresh)
            &&& final(ids).next == old(ids).next + 1
            &&& new.net_id == final(ids).next
            &&& new.portal == (NetworkedPortal { slot: msg.slot, normal: forward.neg() })
            &&& new.position == held_position(msg)
            &&& new.rotation == disc_rotation(forward.neg())
        },
{
    if !is_holdable(msg) {
        return HoldOutcome::Ignored;
    }
    let held = registry.get(client, msg.slot);
    if !msg.active {
        proof {
            lemma_let_go(registry@, client, msg.slot);
        }
        registry.remove(client, msg.slot);
        match held {
            Some(entity) => {
                let mut gone: Vec<Entity> = Vec::new();
                gone.push(entity);
                assert(gone@ =~= seq![entity]);
                drop_named(portals, &gone);
            },
            None => {},
        }
        return HoldOutcome::Released(held);
    }
    let portal = NetworkedPortal { slot: msg.slot, normal: forward.neg() };
    let position = held_position(msg);
    let rotation = disc_rotation(forward.neg());
    match held {
        Some(entity) => HoldOutcome::Moved { entity, portal, position, rotation },
        None => {
            proof {
                lemma_now_held(registry@, client, msg.slot, fresh);
            }
            let mut gone = take_out(portals, msg.slot, false);
            let mut carried = registry.clear_slot(msg.slot);
            drop_named(portals, &carried);
            gone.append(&mut carried);
            portals.push(PortalRecord { entity: fresh, slot: msg.slot, carried: true });
            registry.entries.push(HeldPortal { client, slot: msg.slot, entity: fresh });
            let net_id = ids.next();
            HoldOutcome::Raised(NewPortal { gone, net_id, portal, position, rotation })
        },
    }
}

proof fn lemma_let_go(entries: Seq<HeldPortal>, client: u64, slot: PortalSlot)
    requires
        one_each(entries),
    ensures
        one_each(let_go(entries, client, slot)),
{
    let stays = |h: HeldPortal| !(h.client == client && h.slot == slot);
    let left = let_go(entries, client, slot);
    assert forall|i: int, j: int| 0 <= i < j < left.len() implies !((#[trigger] left[i]).client == (
    #[trigger] left[j]).client && left[i].slot == left[j].slot) by {
        let (a, b) = lemma_filter_places(entries, stays, i, j);
        assert(entries[a] == left[i] && entries[b] == left[j]);
    }
}

proof fn lemma_now_held(entries: Seq<HeldPortal>, client: u64, slot: PortalSlot, fresh: Entity)
    requires
        one_each(entries),
    ensures
        one_each(now_held(entries, client, slot, fresh)),
{
    let stays = |h: HeldPortal| h.slot != slot;
    let freed = free_slot(entries, slot);
    let all = now_held(entries, client, slot, fresh);
    assert forall|i: int, j: int| 0 <= i < j < all.len() implies !((#[trigger] all[i]).client == (
    #[trigger] all[j]).client && all[i].slot == all[j].slot) by {
        if j < freed.len() {
            let (a, b) = lemma_filter_places(entries, stays, i, j);
            assert(entries[a] == all[i] && entries[b] == all[j]);
        } else {
            lemma_filter_holds(entries, stays, i);
        }
    }
}

/// Whether someone carries the portal, in its slot.
pub open spec fn is_known(portal: PortalRecord, entries: Seq<HeldPortal>) -> bool {
    exists|k: int|
        0 <= k < entries.len() && (#[trigger] entries[k]).slot == portal.slot && entries[k].entity
            == portal.entity
}

/// Whether there is one portal at most for each slot, and everyone who carries
/// one is known.
pub open spec fn tidy(portals: Seq<PortalRecord>, entries: Seq<HeldPortal>) -> bool {
    &&& forall|i: int, j: int|
        0 <= i < j < portals.len() ==> (#[trigger] portals[i]).slot != (#[trigger] portals[j]).slot
    &&& forall|i: int|
        0 <= i < portals.len() && (#[trigger] portals[i]).carried ==> is_known(portals[i], entries)
}

/// A placed portal is the only one in its slot, whatever was there.
pub proof fn law_placed_portal_is_alone(
    portals: Seq<PortalRecord>,
    entries: Seq<HeldPortal>,
    slot: PortalSlot,
    fresh: Entity,
)
    requires
        tidy(portals, entries),
    ensures
        tidy(
            portals.filter(staying(slot, true)).push(
                PortalRecord { entity: fresh, slot, carried: false },
            ),
            entries,
        ),
{
    lemma_tidy_part(portals, entries, staying(slot, true));
    let left = portals.filter(staying(slot, true));
    assert forall|i: int| 0 <= i < left.len() implies (#[trigger] left[i]).slot != slot by {
        lemma_filter_holds(portals, staying(slot, true), i);
    }
}

/// What is left of tidy portals is tidy.
proof fn lemma_tidy_part(
    portals: Seq<PortalRecord>,
    entries: Seq<HeldPortal>,
    keep: spec_fn(PortalRecord) -> bool,
)
    requires
        tidy(portals, entries),
    ensures
        tidy(portals.filter(keep), entries),
{
    let left = portals.filter(keep);
    assert forall|i: int, j: int| 0 <= i < j < left.len() implies (#[trigger] left[i]).slot != (
    #[trigger] left[j]).slot by {
        let (a, b) = lemma_filter_places(portals, keep, i, j);
        assert(portals[a] == left[i] && portals[b] == left[j]);
    }
    assert forall|i: int| 0 <= i < left.len() && (#[trigger] left[i]).carried implies is_known(
        left[i],
        entries,
    ) by {
        lemma_filter_holds(portals, keep, i);
        let a = choose|a: int| 0 <= a < portals.len() && portals[a] == left[i];
        assert(portals[a].carried);
    }
}

/// A portal that someone takes up is the only one in its slot, whatever was there.
pub proof fn law_carried_portal_is_alone(
    portals: Seq<PortalRecord>,
    entries: Seq<HeldPortal>,
    client: u64,
    slot: PortalSlot,
    fresh: Entity,
)
    requires
        tidy(portals, entries),
    ensures
        tidy(
            with_carried(portals, entries, slot, fresh),
            now_held(entries, client, slot, fresh),
        ),
{
    let placed_gone = portals.filter(staying(slot, false));
    let carried = carried_in(entries, slot);
    let unnamed = |p: PortalRecord| !carried.contains(p.entity);
    let left = without(placed_gone, carried);
    let held = now_held(entries, client, slot, fresh);
    let freed = free_slot(entries, slot);
    let other = |h: HeldPortal| h.slot != slot;
    let same = |h: HeldPortal| h.slot == slot;
    lemma_tidy_part(portals, entries, staying(slot, false));
    lemma_tidy_part(placed_gone, entries, unnamed);
    assert forall|i: int| 0 <= i < left.len() implies (#[trigger] left[i]).slot != slot by {
        lemma_filter_holds(placed_gone, unnamed, i);
        let a = choose|a: int| 0 <= a < placed_gone.len() && placed_gone[a] == left[i];
        lemma_filter_holds(portals, staying(slot, false), a);
        if left[i].slot == slot {
            assert(left[i].carried);
            let k = choose|k: int|
                0 <= k < entries.len() && (#[trigger] entries[k]).slot == left[i].slot
                    && entries[k].entity == left[i].entity;
            lemma_filter_keeps(entries, same, entries[k]);
            let m = choose|m: int|
                0 <= m < in_slot(entries, slot).len() && in_slot(entries, slot)[m] == entries[k];
            assert(carried[m] == left[i].entity);
        }
    }
    let all = with_carried(portals, entries, slot, fresh);
    assert forall|i: int| 0 <= i < all.len() && (#[trigger] all[i]).carried implies is_known(
        all[i],
        held,
    ) by {
        if i < left.len() {
            assert(left[i].carried);
            let k = choose|k: int|
                0 <= k < entries.len() && (#[trigger] entries[k]).slot == left[i].slot
                    && entries[k].entity == left[i].entity;
            lemma_filter_keeps(entries, other, entries[k]);
            let m = choose|m: int| 0 <= m < freed.len() && freed[m] == entries[k];
            assert(held[m] == entries[k]);
        } else {
            assert(held[freed.len() as int].entity == fresh);
        }
    }
}

/// When someone lets go of a portal, there still is one at most for each slot,
/// and everyone else who carries one is known.
pub proof fn law_release_keeps_the_rest(
    portals: Seq<PortalRecord>,
    entries: Seq<HeldPortal>,
    client: u64,
    slot: PortalSlot,
)
    requires
        tidy(portals, entries),
        one_each(entries),
    ensures
        held_by(entries, client, slot) matches Some(e) ==> tidy(
            without(portals, seq![e]),
            let_go(entries, client, slot),
        ),
        held_by(entries, client, slot) is None ==> tidy(portals, let_go(entries, client, slot)),
{
    let stays = |h: HeldPortal| !(h.client == client && h.slot == slot);
    let held = let_go(entries, client, slot);
    lemma_held_by(entries, client, slot);
    assert forall|p: PortalRecord| (held_by(entries, client, slot) matches Some(e) ==> p.entity != e)
        && #[trigger] is_known(p, entries) implies is_known(p, held) by {
        let k = choose|k: int|
            0 <= k < entries.len() && (#[trigger] entries[k]).slot == p.slot && entries[k].entity
                == p.entity;
        lemma_filter_keeps(entries, stays, entries[k]);
        let m = choose|m: int| 0 <= m < held.len() && held[m] == entries[k];
        assert(held[m].slot == p.slot);
    }
    match held_by(entries, client, slot) {
        Some(e) => {
            let gone = seq![e];
            let unnamed = |p: PortalRecord| !gone.contains(p.entity);
            lemma_tidy_part(portals, entries, unnamed);
            let left = without(portals, gone);
            assert forall|i: int| 0 <= i < left.len() && (#[trigger] left[i]).carried implies is_known(
                left[i],
                held,
            ) by {
                lemma_filter_holds(portals, unnamed, i);
                assert(gone[0] == e);
                assert(is_known(left[i], entries));
            }
        },
        None => {},
    }
}

/// What a client carries in a slot is what its only entry says.
proof fn lemma_held_by(entries: Seq<HeldPortal>, client: u64, slot: PortalSlot)
    requires
        one_each(entries),
    ensures
        forall|k: int|
            0 <= k < entries.len() && (#[trigger] entries[k]).client == client && entries[k].slot
                == slot ==> held_by(entries, client, slot) == Some(entries[k].entity),
    decreases entries.len(),
{
    if entries.len() > 0 {
        let rest = entries.drop_last();
        assert(one_each(rest)) by {
            assert forall|i: int, j: int| 0 <= i < j < rest.len() implies !((
            #[trigger] rest[i]).client == (#[trigger] rest[j]).client && rest[i].slot
                == rest[j].slot) by {
                assert(rest[i] == entries[i] && rest[j] == entries[j]);
            }
        }
        lemma_held_by(rest, client, slot);
        assert forall|k: int|
            0 <= k < entries.len() && (#[trigger] entries[k]).client == client && entries[k].slot
                == slot implies held_by(entries, client, slot) == Some(entries[k].entity) by {
            if k < rest.len() {
                assert(rest[k] == entries[k]);
                assert(entries[entries.len() - 1] == entries.last());
            }
        }
    }
}

} // verus!

//! The server half of the synchronization layer.
//!
//! A [`ServerNetworkPlugin`] owns the server's identifier map and, for
//! each registered message type, an outbound queue with destination
//! descriptors and an inbound buffer of raw payloads.  The tick pipeline
//! runs its steps in a fixed order: [`ServerNetworkPlugin::receive_untyped`]
//! first, then [`ServerNetworkPlugin::after_receive_typed`] per inbound
//! type, then game logic, then [`ServerNetworkPlugin::before_send_typed`]
//! per outbound type, immediately before the transport's own flush so
//! nothing waits a tick.

use vstd::prelude::*;
use crate::{
    matches_registration, ChannelId, ClientId, Direction, Entity, Kind, QueueError,
    RegistrationError, TypeRegistration,
};
use crate::player_id::PlayerIdMap;
use crate::message::{
    event_bytes, framed, payloads_for, spec_kind_of, valid_body, Destination, EventMessage,
    MessageInQueue, ProtocolError, ServerMessageOutQueue, UntypedPacket,
};
use crate::message::{decode_event, decode_packet, encode_event, encode_packet};
use crate::network_id::NetworkIdMap;
use crate::resolve::{
    drops_resolve_out, entity_to_network, handles_fresh, network_to_entity, outbound_form,
    sim_fresh, wire_form, EntityField, MissingPolicy,
};
use crate::simulation::Simulation;

verus! {

/// Whether the server instantiates an outbound path for a type of this
/// direction.
pub open spec fn server_sends(d: Direction) -> bool {
    d is Clientbound || d is Bidirectional
}

/// Whether the server instantiates an inbound path for a type of this
/// direction.
pub open spec fn server_receives(d: Direction) -> bool {
    d is Serverbound || d is Bidirectional
}

/// A fully framed packet, ready to hand to the transport: the channel to
/// send it on, the destination semantics, and the bytes — serialized
/// exactly once, whatever the destination fans out to.
pub struct OutPacket {
    pub channel_id: ChannelId,
    pub destination: Destination,
    pub bytes: Vec<u8>,
}

/// One registered message type on the server, with its queues.
pub struct ServerEntry {
    pub reg: TypeRegistration,
    pub out: ServerMessageOutQueue,
    pub inq: MessageInQueue,
}

/// Every queued outbound message is an instance of the entry's type, in
/// outbound (local-handle) form, and the queue carries the type's own
/// kind and channel.
pub open spec fn server_entry_wf(e: ServerEntry) -> bool {
    &&& e.out.kind == e.reg.kind
    &&& e.out.channel_id == e.reg.channel_id
    &&& forall|j: int|
        0 <= j < e.out.raw@.len() ==> matches_registration((#[trigger] e.out.raw@[j]).1, e.reg)
            && outbound_form(e.out.raw@[j].1.fields@)
}

/// The sum of entity-field counts over a queue, front first.
pub open spec fn total_out_fields(q: Seq<(Destination, EventMessage)>) -> nat
    decreases q.len(),
{
    if q.len() == 0 {
        0
    } else {
        q[0].1.fields@.len() + total_out_fields(q.skip(1))
    }
}

/// The forward map's key set after the drain has processed a whole
/// queue, front first: each sent message adds its Create-policy handles.
pub open spec fn out_keys(q: Seq<(Destination, EventMessage)>, keys: Set<u64>) -> Set<u64>
    decreases q.len(),
{
    if q.len() == 0 {
        keys
    } else {
        out_keys(q.skip(1), crate::resolve::keys_after_msg(q[0].1.fields@, keys))
    }
}

/// How many queued messages the drain sends: exactly those whose
/// Drop-policy handles are all registered at the moment they are
/// processed.
pub open spec fn sent_count(q: Seq<(Destination, EventMessage)>, keys: Set<u64>) -> nat
    decreases q.len(),
{
    if q.len() == 0 {
        0
    } else {
        (if crate::resolve::drops_resolve_keys(q[0].1.fields@, keys) {
            1nat
        } else {
            0nat
        }) + sent_count(q.skip(1), crate::resolve::keys_after_msg(q[0].1.fields@, keys))
    }
}

/// Processing one more message steps the key set and the sent count.
proof fn lemma_out_run_snoc(q: Seq<(Destination, EventMessage)>, x: (Destination, EventMessage), keys: Set<u64>)
    ensures
        out_keys(q.push(x), keys) == crate::resolve::keys_after_msg(
            x.1.fields@,
            out_keys(q, keys),
        ),
        sent_count(q.push(x), keys) == sent_count(q, keys) + (
        if crate::resolve::drops_resolve_keys(x.1.fields@, out_keys(q, keys)) {
            1nat
        } else {
            0nat
        }),
    decreases q.len(),
{
    if q.len() == 0 {
        assert(q.push(x).skip(1) =~= Seq::<(Destination, EventMessage)>::empty());
        assert(q.push(x)[0] == x);
        let step = crate::resolve::keys_after_msg(x.1.fields@, keys);
        assert(out_keys(q.push(x), keys) == out_keys(q.push(x).skip(1), step));
        assert(out_keys(q.push(x).skip(1), step) == step);
        assert(out_keys(q, keys) == keys);
        assert(sent_count(q.push(x).skip(1), step) == 0);
        assert(sent_count(q, keys) == 0);
    } else {
        assert(q.push(x).skip(1) =~= q.skip(1).push(x));
        assert(q.push(x)[0] == q[0]);
        let step = crate::resolve::keys_after_msg(q[0].1.fields@, keys);
        lemma_out_run_snoc(q.skip(1), x, step);
        assert(out_keys(q.push(x), keys) == out_keys(q.skip(1).push(x), step));
        assert(out_keys(q, keys) == out_keys(q.skip(1), step));
        assert(sent_count(q.push(x), keys) == (
        if crate::resolve::drops_resolve_keys(q[0].1.fields@, keys) {
            1nat
        } else {
            0nat
        }) + sent_count(q.skip(1).push(x), step));
        assert(sent_count(q, keys) == (
        if crate::resolve::drops_resolve_keys(q[0].1.fields@, keys) {
            1nat
        } else {
            0nat
        }) + sent_count(q.skip(1), step));
    }
}

/// The server's network state: its identifier map and one entry per
/// registered message type.
pub struct ServerNetworkPlugin {
    pub network_ids: NetworkIdMap,
    pub entries: Vec<ServerEntry>,
}

impl ServerNetworkPlugin {
    /// Well-formedness: the identifier map is a bijection, kind tags are
    /// unique, and every entry is internally consistent.
    pub open spec fn wf(self) -> bool {
        &&& self.network_ids.wf()
        &&& forall|i: int, k: int|
            0 <= i < k < self.entries@.len() ==> (#[trigger] self.entries@[i]).reg.kind != (
            #[trigger] self.entries@[k]).reg.kind
        &&& forall|i: int|
            0 <= i < self.entries@.len() ==> server_entry_wf(#[trigger] self.entries@[i])
    }

    /// Whether a type is registered under this kind tag.
    pub open spec fn spec_has_kind(self, kind: Kind) -> bool {
        exists|i: int|
            0 <= i < self.entries@.len() && (#[trigger] self.entries@[i]).reg.kind == kind
    }

    /// The index of the type registered under this kind tag.
    pub open spec fn kind_index(self, kind: Kind) -> int {
        choose|i: int|
            0 <= i < self.entries@.len() && (#[trigger] self.entries@[i]).reg.kind == kind
    }

    pub fn new() -> (r: Self)
        ensures
            r.wf(),
            r.network_ids.fwd() == Map::<u64, u32>::empty(),
            r.network_ids.rev() == Map::<u32, u64>::empty(),
            r.entries@.len() == 0,
    {
        Self { network_ids: NetworkIdMap::new(), entries: Vec::new() }
    }

    fn find_kind(&self, kind: Kind) -> (r: Option<usize>)
        requires
            self.wf(),
        ensures
            r matches Some(i) ==> self.spec_has_kind(kind) && 0 <= i < self.entries@.len()
                && self.entries@[i as int].reg.kind == kind && i as int == self.kind_index(kind),
            r is None ==> !self.spec_has_kind(kind),
    {
        let n = self.entries.len();
        let mut i: usize = 0;
        while i < n
            invariant
                self.wf(),
                n == self.entries@.len(),
                i <= n,
                forall|k: int| 0 <= k < i ==> (#[trigger] self.entries@[k]).reg.kind != kind,
            decreases n - i,
        {
            if self.entries[i].reg.kind == kind {
                proof {
                    let w = self.kind_index(kind);
                    assert(0 <= w < self.entries@.len() && self.entries@[w].reg.kind == kind);
                    if w != i as int {
                        assert(self.entries@[w].reg.kind != self.entries@[i as int].reg.kind);
                    }
                }
                return Some(i);
            }
            i = i + 1;
        }
        None
    }

    /// Registers one message type: gives it its queues and wires them
    /// into the pipeline.  Rejected if the kind tag is already taken —
    /// kind tags must be globally unique so a receiver can dispatch on
    /// them.
    pub fn add_network_event(&mut self, reg: TypeRegistration) -> (r: Result<(), RegistrationError>)
        requires
            old(self).wf(),
        ensures
            final(self).wf(),
            final(self).network_ids == old(self).network_ids,
            old(self).spec_has_kind(reg.kind) ==> r == Err::<(), RegistrationError>(
                RegistrationError::DuplicateKind,
            ) && final(self).entries@ == old(self).entries@,
            !old(self).spec_has_kind(reg.kind) ==> {
                &&& r == Ok::<(), RegistrationError>(())
                &&& final(self).entries@.len() == old(self).entries@.len() + 1
                &&& forall|i: int|
                    0 <= i < old(self).entries@.len() ==> final(self).entries@[i] == old(
                        self,
                    ).entries@[i]
                &&& final(self).entries@.last().reg == reg
                &&& final(self).entries@.last().out.raw@.len() == 0
                &&& final(self).entries@.last().inq.raw@.len() == 0
            },
    {
        let ghost reg0 = reg;
        match self.find_kind(reg.kind) {
            Some(_) => Err(RegistrationError::DuplicateKind),
            None => {
                let channel_id = reg.channel_id;
                let kind = reg.kind;
                let entry = ServerEntry {
                    out: ServerMessageOutQueue::new(channel_id, kind),
                    inq: MessageInQueue::new(),
                    reg,
                };
                self.entries.push(entry);
                Ok(())
            },
        }
    }

    /// Queues a message of the given kind for one specific client.
    pub fn send(&mut self, kind: Kind, client_id: ClientId, message: EventMessage) -> (r: Result<
        (),
        QueueError,
    >)
        requires
            old(self).wf(),
        ensures
            final(self).wf(),
            final(self).network_ids == old(self).network_ids,
            r matches Err(_) ==> final(self).entries@ == old(self).entries@,
            r is Ok ==> queued(
                *old(self),
                *final(self),
                kind,
                Destination::Client(client_id),
                message,
            ),
            r is Ok <==> old(self).spec_has_kind(kind) && server_sends(
                old(self).entries@[old(self).kind_index(kind)].reg.direction,
            ) && matches_registration(message, old(self).entries@[old(self).kind_index(kind)].reg)
                && outbound_form(message.fields@),
    {
        self.queue_out(kind, Destination::Client(client_id), message)
    }

    /// Queues a message of the given kind for every connected client.
    pub fn broadcast(&mut self, kind: Kind, message: EventMessage) -> (r: Result<(), QueueError>)
        requires
            old(self).wf(),
        ensures
            final(self).wf(),
            final(self).network_ids == old(self).network_ids,
            r matches Err(_) ==> final(self).entries@ == old(self).entries@,
            r is Ok ==> queued(*old(self), *final(self), kind, Destination::Broadcast, message),
            r is Ok <==> old(self).spec_has_kind(kind) && server_sends(
                old(self).entries@[old(self).kind_index(kind)].reg.direction,
            ) && matches_registration(message, old(self).entries@[old(self).kind_index(kind)].reg)
                && outbound_form(message.fields@),
    {
        self.queue_out(kind, Destination::Broadcast, message)
    }

    /// Queues a message of the given kind for every connected client
    /// except one.
    pub fn broadcast_except(&mut self, kind: Kind, client_id: ClientId, message: EventMessage) -> (r:
        Result<(), QueueError>)
        requires
            old(self).wf(),
        ensures
            final(self).wf(),
            final(self).network_ids == old(self).network_ids,
            r matches Err(_) ==> final(self).entries@ == old(self).entries@,
            r is Ok ==> queued(
                *old(self),
                *final(self),
                kind,
                Destination::Except(client_id),
                message,
            ),
            r is Ok <==> old(self).spec_has_kind(kind) && server_sends(
                old(self).entries@[old(self).kind_index(kind)].reg.direction,
            ) && matches_registration(message, old(self).entries@[old(self).kind_index(kind)].reg)
                && outbound_form(message.fields@),
    {
        self.queue_out(kind, Destination::Except(client_id), message)
    }

    fn queue_out(&mut self, kind: Kind, destination: Destination, message: EventMessage) -> (r:
        Result<(), QueueError>)
        requires
            old(self).wf(),
        ensures
            final(self).wf(),
            final(self).network_ids == old(self).network_ids,
            r matches Err(_) ==> final(self).entries@ == old(self).entries@,
            r is Ok ==> queued(*old(self), *final(self), kind, destination, message),
            r is Ok <==> old(self).spec_has_kind(kind) && server_sends(
                old(self).entries@[old(self).kind_index(kind)].reg.direction,
            ) && matches_registration(message, old(self).entries@[old(self).kind_index(kind)].reg)
                && outbound_form(message.fields@),
            !old(self).spec_has_kind(kind) ==> r == Err::<(), QueueError>(QueueError::UnknownKind),
    {
        let i = match self.find_kind(kind) {
            Some(i) => i,
            None => {
                return Err(QueueError::UnknownKind);
            },
        };
        let mut e = self.entries.remove(i);
        let sends = match e.reg.direction {
            Direction::Clientbound => true,
            Direction::Bidirectional => true,
            Direction::Serverbound => false,
        };
        if !sends {
            self.entries.insert(i, e);
            proof {
                assert(self.entries@ =~= old(self).entries@);
            }
            return Err(QueueError::WrongDirection);
        }
        if !message_conforms(&message, &e.reg) {
            self.entries.insert(i, e);
            proof {
                assert(self.entries@ =~= old(self).entries@);
            }
            return Err(QueueError::InvalidMessage);
        }
        e.out.send_to(destination, message);
        self.entries.insert(i, e);
        proof {
            assert(self.entries@ =~= old(self).entries@.update(i as int, e));
            assert forall|k: int| 0 <= k < self.entries@.len() implies server_entry_wf(
                #[trigger] self.entries@[k],
            ) by {
                assert(old(self).entries@[k] == old(self).entries@[k]);
            }
            assert(self.wf());
        }
        Ok(())
    }
}

/// The one message was appended to the kind's outbound queue, with this
/// destination; nothing else changed.
pub open spec fn queued(
    pre: ServerNetworkPlugin,
    post: ServerNetworkPlugin,
    kind: Kind,
    destination: Destination,
    message: EventMessage,
) -> bool {
    let i = pre.kind_index(kind);
    &&& pre.spec_has_kind(kind)
    &&& post.entries@.len() == pre.entries@.len()
    &&& forall|k: int|
        0 <= k < pre.entries@.len() && k != i ==> post.entries@[k] == #[trigger] pre.entries@[k]
    &&& post.entries@[i].reg == pre.entries@[i].reg
    &&& post.entries@[i].inq == pre.entries@[i].inq
    &&& post.entries@[i].out.kind == pre.entries@[i].out.kind
    &&& post.entries@[i].out.channel_id == pre.entries@[i].out.channel_id
    &&& post.entries@[i].out.raw@ == pre.entries@[i].out.raw@.push((destination, message))
}

/// Checks at run time that a message is an instance of the registered
/// type, in outbound form.
pub(crate) fn message_conforms(m: &EventMessage, reg: &TypeRegistration) -> (r: bool)
    ensures
        r == (matches_registration(*m, *reg) && outbound_form(m.fields@)),
{
    if m.kind != reg.kind {
        return false;
    }
    if m.fields.len() != reg.policies.len() {
        return false;
    }
    let n = m.fields.len();
    let mut j: usize = 0;
    while j < n
        invariant
            n == m.fields@.len(),
            n == reg.policies@.len(),
            j <= n,
            forall|k: int|
                0 <= k < j ==> (#[trigger] m.fields@[k]).policy == reg.policies@[k] && (
                m.fields@[k].value is Local || (m.fields@[k].policy is Ignore
                    && m.fields@[k].value is Empty)),
        decreases n - j,
    {
        let f = m.fields[j];
        let pj = reg.policies[j];
        let policy_ok = match (f.policy, pj) {
            (MissingPolicy::Drop, MissingPolicy::Drop) => true,
            (MissingPolicy::Create, MissingPolicy::Create) => true,
            (MissingPolicy::Ignore, MissingPolicy::Ignore) => true,
            _ => false,
        };
        if !policy_ok {
            return false;
        }
        let form_ok = match f.value {
            crate::resolve::EntityRef::Local { .. } => true,
            crate::resolve::EntityRef::Empty => match f.policy {
                MissingPolicy::Ignore => true,
                _ => false,
            },
            crate::resolve::EntityRef::Wire { .. } => false,
        };
        if !form_ok {
            return false;
        }
        j = j + 1;
    }
    true
}


/// The packet is the framed, exactly-once serialization of the resolved
/// form of one particular queued message: same destination, sender and
/// payload, with each entity field translated through the final map.
pub open spec fn packet_from(
    pkt: OutPacket,
    q0: Seq<(Destination, EventMessage)>,
    kind: Kind,
    reg: TypeRegistration,
    fwd0: Map<u64, u32>,
    rev0: Map<u32, u64>,
    fwd1: Map<u64, u32>,
) -> bool {
    exists|j: int, m: EventMessage|
        #![trigger q0[j], event_bytes(m)]
        {
            &&& 0 <= j < q0.len()
            &&& pkt.destination == q0[j].0
            &&& m.kind == kind
            &&& m.client_id == q0[j].1.client_id
            &&& m.payload@ == q0[j].1.payload@
            &&& wire_form(m.fields@)
            &&& matches_registration(m, reg)
            &&& m.fields@.len() == q0[j].1.fields@.len()
            &&& (forall|t: int|
                0 <= t < m.fields@.len() ==> crate::resolve::sent_field(
                    (#[trigger] q0[j].1.fields@[t]),
                    m.fields@[t],
                    fwd0,
                    rev0,
                    fwd1,
                ))
            &&& pkt.bytes@ == framed(kind, event_bytes(m))
        }
}

/// The outbound drain for one kind succeeded: the queue is empty, and
/// the messages that reached the transport are exactly the ones whose
/// Drop-policy handles were registered when they were popped — one
/// packet each, in queue order, with the queued destination and the
/// resolved, framed bytes ([`crate::message::packet_body_at_sender`]).
/// A dropped message leaves no packet and registers nothing, and the
/// forward map's key set afterwards is exactly [`out_keys`] of the run.
pub open spec fn drained_ok(
    pre: ServerNetworkPlugin,
    post: ServerNetworkPlugin,
    kind: Kind,
    packets: Seq<OutPacket>,
) -> bool {
    let i = pre.kind_index(kind);
    let q0 = pre.entries@[i].out.raw@;
    let reg = pre.entries@[i].reg;
    &&& post.entries@.len() == pre.entries@.len()
    &&& forall|k: int|
        0 <= k < pre.entries@.len() && k != i ==> post.entries@[k] == #[trigger] pre.entries@[k]
    &&& post.entries@[i].reg == reg
    &&& post.entries@[i].inq == pre.entries@[i].inq
    &&& post.entries@[i].out.kind == pre.entries@[i].out.kind
    &&& post.entries@[i].out.channel_id == pre.entries@[i].out.channel_id
    &&& post.entries@[i].out.raw@.len() == 0
    &&& forall|e: u64| #[trigger]
        pre.network_ids.fwd().contains_key(e) ==> post.network_ids.fwd().contains_pair(
            e,
            pre.network_ids.fwd()[e],
        )
    &&& forall|w: u32| #[trigger]
        pre.network_ids.rev().contains_key(w) ==> post.network_ids.rev().contains_pair(
            w,
            pre.network_ids.rev()[w],
        )
    &&& packets.len() <= q0.len()
    &&& forall|p: int|
        0 <= p < packets.len() ==> (#[trigger] packets[p]).channel_id == reg.channel_id
    &&& forall|p: int|
        #![trigger packets[p]]
        0 <= p < packets.len() ==> packet_from(
            packets[p],
            q0,
            kind,
            reg,
            pre.network_ids.fwd(),
            pre.network_ids.rev(),
            post.network_ids.fwd(),
        )
    &&& post.network_ids.fwd().dom() == out_keys(q0, pre.network_ids.fwd().dom())
    &&& post.network_ids.rev().dom().len() <= pre.network_ids.rev().dom().len()
        + total_out_fields(q0)
    &&& packets.len() == sent_count(q0, pre.network_ids.fwd().dom())
    &&& forall|j: int|
        #![trigger q0[j]]
        0 <= j < q0.len() && crate::resolve::drops_resolve_keys(
            q0[j].1.fields@,
            out_keys(q0.take(j), pre.network_ids.fwd().dom()),
        ) ==> {
            let p = sent_count(q0.take(j), pre.network_ids.fwd().dom()) as int;
            &&& 0 <= p < packets.len()
            &&& packets[p].destination == q0[j].0
            &&& crate::message::packet_body_at_sender(
                packets[p].bytes@,
                q0[j].1,
                kind,
                reg,
                q0[j].1.client_id,
                pre.network_ids.fwd(),
                pre.network_ids.rev(),
                post.network_ids.fwd(),
            )
        }
}

impl ServerNetworkPlugin {
    /// The end-of-tick drain for one kind: pops every queued message,
    /// translates its handles to wire identifiers, drops it if a
    /// Drop-policy field fails to resolve, and otherwise wraps and
    /// serializes it — exactly once, whatever its destination fans out
    /// to — into a packet for the transport.
    pub fn before_send_typed(&mut self, kind: Kind) -> (r: Result<Vec<OutPacket>, QueueError>)
        requires
            old(self).wf(),
            old(self).spec_has_kind(kind) ==> old(self).network_ids.rev().dom().len()
                + total_out_fields(old(self).entries@[old(self).kind_index(kind)].out.raw@)
                < u32::MAX as nat,
        ensures
            final(self).wf(),
            r is Err <==> !old(self).spec_has_kind(kind),
            r is Err ==> r == Err::<Vec<OutPacket>, QueueError>(QueueError::UnknownKind)
                && final(self).entries@ == old(self).entries@ && final(self).network_ids == old(self).network_ids,
            r matches Ok(packets) ==> drained_ok(*old(self), *final(self), kind, packets@),
    {
        let i = match self.find_kind(kind) {
            Some(i) => i,
            None => {
                return Err(QueueError::UnknownKind);
            },
        };
        let mut e = self.entries.remove(i);
        let ghost q0 = e.out.raw@;
        let ghost reg0 = e.reg;
        let ghost fwd0 = self.network_ids.fwd();
        let ghost rev0 = self.network_ids.rev();
        let ghost inq0 = e.inq;
        let mut packets: Vec<OutPacket> = Vec::new();
        let ghost mut k: int = 0;
        while e.out.raw.len() > 0
            invariant
                old(self).wf(),
                i < old(self).entries@.len(),
                i as int == old(self).kind_index(kind),
                self.entries@ == old(self).entries@.remove(i as int),
                q0 == old(self).entries@[i as int].out.raw@,
                reg0 == old(self).entries@[i as int].reg,
                inq0 == old(self).entries@[i as int].inq,
                fwd0 == old(self).network_ids.fwd(),
                rev0 == old(self).network_ids.rev(),
                self.network_ids.wf(),
                e.reg == reg0,
                e.inq == inq0,
                e.out.kind == reg0.kind,
                e.out.kind == kind,
                e.out.channel_id == reg0.channel_id,
                0 <= k <= q0.len(),
                e.out.raw@ == q0.skip(k),
                rev0.dom().len() + total_out_fields(q0) < u32::MAX as nat,
                self.network_ids.rev().dom().len() + total_out_fields(e.out.raw@) <= rev0.dom().len()
                    + total_out_fields(q0),
                forall|j: int|
                    0 <= j < q0.len() ==> matches_registration((#[trigger] q0[j]).1, reg0)
                        && outbound_form(q0[j].1.fields@),
                forall|x: u64| #[trigger]
                    fwd0.contains_key(x) ==> self.network_ids.fwd().contains_pair(x, fwd0[x]),
                forall|w: u32| #[trigger]
                    rev0.contains_key(w) ==> self.network_ids.rev().contains_pair(w, rev0[w]),
                packets@.len() <= k,
                forall|p: int|
                    0 <= p < packets@.len() ==> (#[trigger] packets@[p]).channel_id
                        == reg0.channel_id,
                forall|x: u64| #[trigger]
                    self.network_ids.fwd().contains_key(x) && !fwd0.contains_key(x)
                        ==> !rev0.contains_key(self.network_ids.fwd()[x]),
                forall|p: int|
                    #![trigger packets@[p]]
                    0 <= p < packets@.len() ==> packet_from(
                        packets@[p],
                        q0,
                        kind,
                        reg0,
                        fwd0,
                        rev0,
                        self.network_ids.fwd(),
                    ),
                self.network_ids.fwd().dom() == out_keys(q0.take(k), fwd0.dom()),
                packets@.len() == sent_count(q0.take(k), fwd0.dom()),
                forall|j: int|
                    #![trigger q0[j]]
                    0 <= j < k && crate::resolve::drops_resolve_keys(
                        q0[j].1.fields@,
                        out_keys(q0.take(j), fwd0.dom()),
                    ) ==> {
                        let p = sent_count(q0.take(j), fwd0.dom()) as int;
                        &&& 0 <= p < packets@.len()
                        &&& packets@[p].destination == q0[j].0
                        &&& crate::message::packet_body_at_sender(
                            packets@[p].bytes@,
                            q0[j].1,
                            kind,
                            reg0,
                            q0[j].1.client_id,
                            fwd0,
                            rev0,
                            self.network_ids.fwd(),
                        )
                    },
            decreases e.out.raw@.len(),
        {
            let popped = e.out.raw.pop_front();
            let (dest, msg) = match popped {
                Some(x) => x,
                None => vstd::pervasive::unreached(),
            };
            proof {
                assert(q0.skip(k)[0] == q0[k]);
                assert(e.out.raw@ =~= q0.skip(k + 1));
                assert(total_out_fields(q0.skip(k)) == q0[k].1.fields@.len() + total_out_fields(
                    q0.skip(k + 1),
                ));
            }
            let EventMessage { kind: mkind, fields, client_id, payload } = msg;
            let mut flds = fields;
            let ghost f0 = flds@;
            let ghost fwd_b = self.network_ids.fwd();
            let ghost rev_b = self.network_ids.rev();
            let ok = entity_to_network(&mut flds, &mut self.network_ids);
            proof {
                assert forall|x: u64| #[trigger]
                    self.network_ids.fwd().contains_key(x) && !fwd0.contains_key(x) implies !rev0
                    .contains_key(self.network_ids.fwd()[x]) by {
                    if fwd_b.contains_key(x) {
                        assert(self.network_ids.fwd().contains_pair(x, fwd_b[x]));
                    } else {
                        if rev0.contains_key(self.network_ids.fwd()[x]) {
                            assert(rev_b.contains_pair(
                                self.network_ids.fwd()[x],
                                rev0[self.network_ids.fwd()[x]],
                            ));
                        }
                    }
                }
                assert forall|p: int|
                    #![trigger packets@[p]]
                    0 <= p < packets@.len() implies packet_from(
                    packets@[p],
                    q0,
                    kind,
                    reg0,
                    fwd0,
                    rev0,
                    self.network_ids.fwd(),
                ) by {
                    let (j, m) = choose|j: int, m: EventMessage|
                        #![trigger q0[j], event_bytes(m)]
                        {
                            &&& 0 <= j < q0.len()
                            &&& packets@[p].destination == q0[j].0
                            &&& m.kind == kind
                            &&& m.client_id == q0[j].1.client_id
                            &&& m.payload@ == q0[j].1.payload@
                            &&& wire_form(m.fields@)
                            &&& matches_registration(m, reg0)
                            &&& m.fields@.len() == q0[j].1.fields@.len()
                            &&& (forall|t: int|
                                0 <= t < m.fields@.len() ==> crate::resolve::sent_field(
                                    (#[trigger] q0[j].1.fields@[t]),
                                    m.fields@[t],
                                    fwd0,
                                    rev0,
                                    fwd_b,
                                ))
                            &&& packets@[p].bytes@ == framed(kind, event_bytes(m))
                        };
                    assert forall|t: int|
                        0 <= t < m.fields@.len() implies crate::resolve::sent_field(
                        (#[trigger] q0[j].1.fields@[t]),
                        m.fields@[t],
                        fwd0,
                        rev0,
                        self.network_ids.fwd(),
                    ) by {
                        let fv = q0[j].1.fields@[t].value;
                        if fv is Local && fwd_b.contains_key(fv->entity.0) {
                            assert(self.network_ids.fwd().contains_pair(
                                fv->entity.0,
                                fwd_b[fv->entity.0],
                            ));
                        }
                    }
                }
                let keysb = fwd_b.dom();
                assert(q0[k].1.fields@ == f0);
                if ok {
                    assert(crate::resolve::drops_resolve_keys(f0, keysb));
                } else {
                    if crate::resolve::drops_resolve_keys(f0, keysb) {
                        assert(drops_resolve_out(f0, fwd_b));
                        assert(false);
                    }
                }
                assert(q0.take(k + 1) =~= q0.take(k).push(q0[k]));
                lemma_out_run_snoc(q0.take(k), q0[k], fwd0.dom());
                if ok {
                    assert(self.network_ids.fwd().dom() == keysb.union(
                        crate::resolve::create_handles(f0),
                    ));
                } else {
                    assert(self.network_ids.fwd() == fwd_b);
                }
                assert(self.network_ids.fwd().dom() == out_keys(q0.take(k + 1), fwd0.dom()));
                assert forall|j: int|
                    #![trigger q0[j]]
                    0 <= j < k && crate::resolve::drops_resolve_keys(
                        q0[j].1.fields@,
                        out_keys(q0.take(j), fwd0.dom()),
                    ) implies {
                    let p = sent_count(q0.take(j), fwd0.dom()) as int;
                    &&& 0 <= p < packets@.len()
                    &&& packets@[p].destination == q0[j].0
                    &&& crate::message::packet_body_at_sender(
                        packets@[p].bytes@,
                        q0[j].1,
                        kind,
                        reg0,
                        q0[j].1.client_id,
                        fwd0,
                        rev0,
                        self.network_ids.fwd(),
                    )
                } by {
                    let p = sent_count(q0.take(j), fwd0.dom()) as int;
                    crate::message::lemma_packet_body_grow(
                        packets@[p].bytes@,
                        q0[j].1,
                        kind,
                        reg0,
                        q0[j].1.client_id,
                        fwd0,
                        rev0,
                        fwd_b,
                        self.network_ids.fwd(),
                    );
                }
            }
            if ok {
                let m2 = EventMessage { kind: mkind, fields: flds, client_id, payload };
                let body = encode_event(&m2);
                let pkt = UntypedPacket { kind: mkind, data: body };
                let bytes = encode_packet(&pkt);
                proof {
                    assert(matches_registration(q0[k].1, reg0));
                    assert forall|t: int| 0 <= t < m2.fields@.len() implies (
                    #[trigger] m2.fields@[t]).policy == reg0.policies@[t] && crate::resolve::sent_field(
                        q0[k].1.fields@[t],
                        m2.fields@[t],
                        fwd0,
                        rev0,
                        self.network_ids.fwd(),
                    ) by {
                        assert(crate::resolve::out_resolved(
                            f0[t],
                            flds@[t],
                            fwd_b,
                            rev_b,
                            self.network_ids.fwd(),
                        ));
                        assert(q0[k].1.fields@[t] == f0[t]);
                        let fv = f0[t].value;
                        if fv is Local {
                            let e2 = fv->entity.0;
                            if fwd0.contains_key(e2) {
                                assert(fwd_b.contains_pair(e2, fwd0[e2]));
                                assert(self.network_ids.fwd().contains_pair(e2, fwd0[e2]));
                            }
                            if fwd_b.contains_key(e2) {
                                assert(self.network_ids.fwd().contains_pair(e2, fwd_b[e2]));
                            }
                            if f0[t].policy is Create && !fwd0.contains_key(e2)
                                && fwd_b.contains_key(e2) {
                                assert(!rev0.contains_key(fwd_b[e2]));
                            }
                            if f0[t].policy is Create && !fwd0.contains_key(e2)
                                && !fwd_b.contains_key(e2) {
                                if rev0.contains_key(flds@[t].value->id.0) {
                                    assert(rev_b.contains_pair(
                                        flds@[t].value->id.0,
                                        rev0[flds@[t].value->id.0],
                                    ));
                                }
                            }
                        }
                    }
                    assert(matches_registration(m2, reg0));
                    assert(bytes@ == framed(kind, event_bytes(m2)));
                }
                packets.push(
                    OutPacket { channel_id: e.out.channel_id, destination: dest, bytes },
                );
                proof {
                    assert(q0[k].0 == dest);
                    assert(packet_from(
                        packets@.last(),
                        q0,
                        kind,
                        reg0,
                        fwd0,
                        rev0,
                        self.network_ids.fwd(),
                    ));
                    assert(q0[k].1.client_id == m2.client_id);
                    assert(crate::message::packet_body_at_sender(
                        packets@.last().bytes@,
                        q0[k].1,
                        kind,
                        reg0,
                        q0[k].1.client_id,
                        fwd0,
                        rev0,
                        self.network_ids.fwd(),
                    ));
                }
            }
            proof {
                k = k + 1;
            }
        }
        proof {
            assert(e.out.raw@ =~= Seq::<(Destination, EventMessage)>::empty());
            assert(k == q0.len());
            assert(q0.take(k) =~= q0);
        }
        self.entries.insert(i, e);
        proof {
            assert(self.entries@ =~= old(self).entries@.update(i as int, e));
            assert forall|t: int| 0 <= t < self.entries@.len() implies server_entry_wf(
                #[trigger] self.entries@[t],
            ) by {
                assert(old(self).entries@[t] == old(self).entries@[t]);
            }
            assert(self.wf());
        }
        Ok(packets)
    }
}


/// One raw payload was appended to the kind's inbound buffer; nothing
/// else changed.
pub open spec fn buffered(
    pre: ServerNetworkPlugin,
    post: ServerNetworkPlugin,
    kind: Kind,
    payload: Seq<u8>,
) -> bool {
    let i = pre.kind_index(kind);
    &&& pre.spec_has_kind(kind)
    &&& post.entries@.len() == pre.entries@.len()
    &&& forall|k: int|
        0 <= k < pre.entries@.len() && k != i ==> post.entries@[k] == #[trigger] pre.entries@[k]
    &&& post.entries@[i].reg == pre.entries@[i].reg
    &&& post.entries@[i].out == pre.entries@[i].out
    &&& post.entries@[i].inq.payloads() == pre.entries@[i].inq.payloads().push(payload)
}

/// The published message is the resolved form of one particular
/// buffered payload: a wire-form message that encodes to exactly those
/// bytes, with the same sender and payload, and each entity field
/// translated through the final map.
pub open spec fn published_from(
    m: EventMessage,
    payloads: Seq<Seq<u8>>,
    kind: Kind,
    rev0: Map<u32, u64>,
    rev1: Map<u32, u64>,
    next0: u64,
    tags1: Map<u64, u32>,
) -> bool {
    exists|j: int, w: EventMessage|
        #![trigger payloads[j], event_bytes(w)]
        {
            &&& 0 <= j < payloads.len()
            &&& event_bytes(w) == payloads[j]
            &&& w.kind == kind
            &&& m.kind == kind
            &&& m.client_id == w.client_id
            &&& m.payload@ == w.payload@
            &&& m.fields@.len() == w.fields@.len()
            &&& wire_form(w.fields@)
            &&& (forall|t: int|
                0 <= t < w.fields@.len() ==> crate::resolve::received_field(
                    (#[trigger] w.fields@[t]),
                    m.fields@[t],
                    rev0,
                    rev1,
                    next0,
                    tags1,
                ))
        }
}

/// The inbound dispatch for one kind succeeded: the buffer is empty and
/// every published message is an instance of the kind's type with every
/// entity field resolved to local form, provably the resolved form of
/// one of the buffered payloads.  The dispatch step's own contract adds
/// the completeness half: when every payload's Drop-policy identifiers
/// resolve against the initial map, one message per payload is
/// published, in order.
pub open spec fn dispatched(
    pre: ServerNetworkPlugin,
    post: ServerNetworkPlugin,
    kind: Kind,
    out: Seq<EventMessage>,
    next0: u64,
    tags1: Map<u64, u32>,
) -> bool {
    let i = pre.kind_index(kind);
    let reg = pre.entries@[i].reg;
    &&& post.entries@.len() == pre.entries@.len()
    &&& forall|k: int|
        0 <= k < pre.entries@.len() && k != i ==> post.entries@[k] == #[trigger] pre.entries@[k]
    &&& post.entries@[i].reg == reg
    &&& post.entries@[i].out == pre.entries@[i].out
    &&& post.entries@[i].inq.payloads().len() == 0
    &&& out.len() <= pre.entries@[i].inq.payloads().len()
    &&& forall|p: int|
        0 <= p < out.len() ==> matches_registration(#[trigger] out[p], reg) && out[p].kind == kind
            && outbound_form(out[p].fields@)
    &&& forall|p: int|
        #![trigger out[p]]
        0 <= p < out.len() ==> published_from(
            out[p],
            pre.entries@[i].inq.payloads(),
            kind,
            pre.network_ids.rev(),
            post.network_ids.rev(),
            next0,
            tags1,
        )
}

impl ServerNetworkPlugin {
    /// The untyped receive step for one raw packet: reads the envelope's
    /// kind tag and appends the payload to that kind's inbound buffer.
    /// A packet too short for an envelope, or a kind with no registered
    /// inbound path here, is a fatal protocol violation.
    pub fn receive_packet(&mut self, raw: &Vec<u8>) -> (r: Result<(), ProtocolError>)
        requires
            old(self).wf(),
        ensures
            final(self).wf(),
            final(self).network_ids == old(self).network_ids,
            r is Err ==> final(self).entries@ == old(self).entries@,
            r is Ok <==> raw@.len() >= 2 && old(self).spec_has_kind(spec_kind_of(raw@))
                && server_receives(
                old(self).entries@[old(self).kind_index(spec_kind_of(raw@))].reg.direction,
            ),
            raw@.len() < 2 ==> r == Err::<(), ProtocolError>(ProtocolError::MalformedEnvelope),
            r is Err && raw@.len() >= 2 ==> r == Err::<(), ProtocolError>(
                ProtocolError::UnknownKind,
            ),
            r is Ok ==> buffered(*old(self), *final(self), spec_kind_of(raw@), raw@.skip(2)),
    {
        let p = match decode_packet(raw) {
            Ok(p) => p,
            Err(_) => {
                return Err(ProtocolError::MalformedEnvelope);
            },
        };
        let i = match self.find_kind(p.kind) {
            Some(i) => i,
            None => {
                return Err(ProtocolError::UnknownKind);
            },
        };
        let mut e = self.entries.remove(i);
        let receives = match e.reg.direction {
            Direction::Serverbound => true,
            Direction::Bidirectional => true,
            Direction::Clientbound => false,
        };
        if !receives {
            self.entries.insert(i, e);
            proof {
                assert(self.entries@ =~= old(self).entries@);
            }
            return Err(ProtocolError::UnknownKind);
        }
        e.inq.push(p.data);
        self.entries.insert(i, e);
        proof {
            assert(self.entries@ =~= old(self).entries@.update(i as int, e));
            assert forall|t: int| 0 <= t < self.entries@.len() implies server_entry_wf(
                #[trigger] self.entries@[t],
            ) by {
                assert(old(self).entries@[t] == old(self).entries@[t]);
            }
            assert(self.wf());
        }
        Ok(())
    }

    /// The untyped receive step for everything the transport delivered
    /// this tick, in order: each packet's payload is buffered under its
    /// kind.  Runs once per tick, before any typed dispatch.
    pub fn receive_untyped(&mut self, raws: &Vec<Vec<u8>>) -> (r: Result<(), ProtocolError>)
        requires
            old(self).wf(),
        ensures
            final(self).wf(),
            final(self).network_ids == old(self).network_ids,
            final(self).entries@.len() == old(self).entries@.len(),
            r is Ok <==> (forall|t: int|
                0 <= t < raws@.len() ==> ((#[trigger] raws@[t])@.len() >= 2 && old(
                    self,
                ).spec_has_kind(spec_kind_of(raws@[t]@)) && server_receives(
                    old(self).entries@[old(self).kind_index(spec_kind_of(raws@[t]@))].reg.direction,
                ))),
            r is Ok ==> forall|k: int|
                0 <= k < old(self).entries@.len() ==> {
                    &&& (#[trigger] final(self).entries@[k]).reg == old(self).entries@[k].reg
                    &&& final(self).entries@[k].out == old(self).entries@[k].out
                    &&& final(self).entries@[k].inq.payloads() == old(
                        self,
                    ).entries@[k].inq.payloads() + payloads_for(
                        old(self).entries@[k].reg.kind,
                        raws@,
                    )
                },
    {
        let n = raws.len();
        let mut t: usize = 0;
        while t < n
            invariant
                old(self).wf(),
                self.wf(),
                n == raws@.len(),
                t <= n,
                self.network_ids == old(self).network_ids,
                self.entries@.len() == old(self).entries@.len(),
                forall|u: int|
                    0 <= u < t ==> ((#[trigger] raws@[u])@.len() >= 2 && old(self).spec_has_kind(
                        spec_kind_of(raws@[u]@),
                    ) && server_receives(
                        old(self).entries@[old(self).kind_index(
                            spec_kind_of(raws@[u]@),
                        )].reg.direction,
                    )),
                forall|k: int|
                    0 <= k < old(self).entries@.len() ==> {
                        &&& (#[trigger] self.entries@[k]).reg == old(self).entries@[k].reg
                        &&& self.entries@[k].out == old(self).entries@[k].out
                        &&& self.entries@[k].inq.payloads() == old(self).entries@[k].inq.payloads()
                            + payloads_for(
                            old(self).entries@[k].reg.kind,
                            raws@.take(t as int),
                        )
                    },
            decreases n - t,
        {
            let ghost pre_loop = *self;
            let r = self.receive_packet(&raws[t]);
            match r {
                Ok(()) => {},
                Err(err) => {
                    proof {
                        let ti = t as int;
                        let ki = spec_kind_of(raws@[ti]@);
                        if raws@[ti]@.len() >= 2 && old(self).spec_has_kind(ki) && server_receives(
                            old(self).entries@[old(self).kind_index(ki)].reg.direction,
                        ) {
                            let w = old(self).kind_index(ki);
                            assert(0 <= w < old(self).entries@.len() && old(
                                self,
                            ).entries@[w].reg.kind == ki);
                            assert(pre_loop.entries@[w].reg == old(self).entries@[w].reg);
                            assert(pre_loop.spec_has_kind(ki));
                            let w2 = pre_loop.kind_index(ki);
                            assert(0 <= w2 < pre_loop.entries@.len()
                                && pre_loop.entries@[w2].reg.kind == ki);
                            if w2 != w {
                                assert(pre_loop.entries@[w2].reg.kind
                                    != pre_loop.entries@[w].reg.kind);
                            }
                            assert(server_receives(pre_loop.entries@[w2].reg.direction));
                            assert(false);
                        }
                    }
                    return Err(err);
                },
            }
            proof {
                let ki = spec_kind_of(raws@[t as int]@);
                assert(pre_loop.spec_has_kind(ki));
                let wi = pre_loop.kind_index(ki);
                assert(pre_loop.entries@[wi].reg.kind == ki);
                assert(pre_loop.entries@[wi].reg == old(self).entries@[wi].reg);
                assert(old(self).spec_has_kind(ki));
                let w = old(self).kind_index(ki);
                assert(0 <= w < old(self).entries@.len() && old(self).entries@[w].reg.kind == ki);
                if w != wi {
                    assert(pre_loop.entries@[w].reg.kind == old(self).entries@[w].reg.kind);
                    assert(pre_loop.entries@[w].reg.kind != pre_loop.entries@[wi].reg.kind);
                }
                assert(server_receives(old(self).entries@[w].reg.direction));
                assert forall|k: int| 0 <= k < old(self).entries@.len() implies {
                    &&& (#[trigger] self.entries@[k]).reg == old(self).entries@[k].reg
                    &&& self.entries@[k].out == old(self).entries@[k].out
                    &&& self.entries@[k].inq.payloads() == old(self).entries@[k].inq.payloads()
                        + payloads_for(old(self).entries@[k].reg.kind, raws@.take(t as int + 1))
                } by {
                    assert(pre_loop.entries@[k] == pre_loop.entries@[k]);
                    assert(raws@.take(t as int + 1).drop_last() =~= raws@.take(t as int));
                    assert(raws@.take(t as int + 1).last() == raws@[t as int]);
                    let kk = old(self).entries@[k].reg.kind;
                    if k == wi {
                        assert(self.entries@[k].inq.payloads() == pre_loop.entries@[k].inq.payloads().push(
                            raws@[t as int]@.skip(2),
                        ));
                        assert(payloads_for(kk, raws@.take(t as int + 1)) =~= payloads_for(
                            kk,
                            raws@.take(t as int),
                        ).push(raws@[t as int]@.skip(2)));
                    } else {
                        assert(old(self).entries@[k].reg.kind != ki) by {
                            if kk == ki {
                                assert(pre_loop.entries@[k].reg.kind == ki);
                                assert(pre_loop.spec_has_kind(ki));
                            }
                        }
                        assert(payloads_for(kk, raws@.take(t as int + 1)) =~= payloads_for(
                            kk,
                            raws@.take(t as int),
                        ));
                    }
                }
            }
            t = t + 1;
        }
        proof {
            assert(raws@.take(n as int) =~= raws@);
        }
        Ok(())
    }
}


impl ServerNetworkPlugin {
    /// The typed dispatch step for one kind, run after the untyped
    /// receive step within the same tick: pops each buffered payload,
    /// deserializes it — a failure is a fatal protocol violation — and
    /// resolves its wire identifiers to local handles.  Messages whose
    /// Drop-policy fields fail to resolve are discarded silently; the
    /// rest are returned for game logic to consume this same tick.
    pub fn after_receive_typed(&mut self, kind: Kind, sim: &mut Simulation) -> (r: Result<
        Vec<EventMessage>,
        ProtocolError,
    >)
        requires
            old(self).wf(),
            handles_fresh(old(self).network_ids, *old(sim)),
            sim_fresh(*old(sim)),
            old(self).spec_has_kind(kind) ==> old(sim).next() + old(self).entries@[old(
                self,
            ).kind_index(kind)].inq.payloads().len() * old(self).entries@[old(self).kind_index(
                kind,
            )].reg.policies@.len() <= u64::MAX,
        ensures
            final(self).wf(),
            handles_fresh(final(self).network_ids, *final(sim)),
            sim_fresh(*final(sim)),
            final(sim).next() >= old(sim).next(),
            forall|e: u64| #[trigger]
                old(sim).tags().contains_key(e) ==> final(sim).tags().contains_pair(
                    e,
                    old(sim).tags()[e],
                ),
            forall|e: u64| #[trigger]
                old(self).network_ids.fwd().contains_key(e) ==> final(self).network_ids.fwd().contains_pair(e, old(self).network_ids.fwd()[e]),
            forall|w: u32| #[trigger]
                old(self).network_ids.rev().contains_key(w) ==> final(self).network_ids.rev().contains_pair(w, old(self).network_ids.rev()[w]),
            !old(self).spec_has_kind(kind) ==> r == Err::<Vec<EventMessage>, ProtocolError>(
                ProtocolError::UnknownKind,
            ) && final(self).entries@ == old(self).entries@
                && final(self).network_ids == old(self).network_ids
                && final(sim).next() == old(sim).next() && final(sim).tags() == old(sim).tags(),
            r is Ok <==> old(self).spec_has_kind(kind) && server_receives(
                old(self).entries@[old(self).kind_index(kind)].reg.direction,
            ) && (forall|p: int|
                0 <= p < old(self).entries@[old(self).kind_index(kind)].inq.payloads().len()
                    ==> valid_body(
                    old(self).entries@[old(self).kind_index(kind)].reg.policies@,
                    #[trigger] old(self).entries@[old(self).kind_index(kind)].inq.payloads()[p],
                )),
            r matches Ok(out) ==> dispatched(
                *old(self),
                *final(self),
                kind,
                out@,
                old(sim).next(),
                final(sim).tags(),
            ),
            old(self).spec_has_kind(kind) ==> final(sim).next() <= old(sim).next() + old(
                self,
            ).entries@[old(self).kind_index(kind)].inq.payloads().len() * old(self).entries@[old(
                self,
            ).kind_index(kind)].reg.policies@.len(),
            old(self).spec_has_kind(kind) && crate::message::inbound_creates_known(
                old(self).entries@[old(self).kind_index(kind)].inq.payloads(),
                old(self).entries@[old(self).kind_index(kind)].reg.policies@,
                old(self).network_ids.rev(),
            ) ==> final(sim).next() == old(sim).next() && final(sim).tags() == old(sim).tags()
                && final(self).network_ids.fwd() == old(self).network_ids.fwd()
                && final(self).network_ids.rev() == old(self).network_ids.rev(),
            r matches Ok(out) ==> (crate::message::inbound_all_resolve(
                old(self).entries@[old(self).kind_index(kind)].inq.payloads(),
                old(self).entries@[old(self).kind_index(kind)].reg.policies@,
                old(self).network_ids.rev(),
            ) ==> out@.len() == old(self).entries@[old(self).kind_index(
                kind,
            )].inq.payloads().len() && (forall|j: int|
                0 <= j < out@.len() ==> crate::message::published_at(
                    #[trigger] out@[j],
                    old(self).entries@[old(self).kind_index(kind)].inq.payloads()[j],
                    kind,
                    old(self).network_ids.rev(),
                    final(self).network_ids.rev(),
                    old(sim).next(),
                    final(sim).tags(),
                ))),
    {
        let i = match self.find_kind(kind) {
            Some(i) => i,
            None => {
                return Err(ProtocolError::UnknownKind);
            },
        };
        let mut e = self.entries.remove(i);
        let receives = match e.reg.direction {
            Direction::Serverbound => true,
            Direction::Bidirectional => true,
            Direction::Clientbound => false,
        };
        if !receives {
            self.entries.insert(i, e);
            proof {
                assert(self.entries@ =~= old(self).entries@);
            }
            return Err(ProtocolError::UnknownKind);
        }
        let ghost q0 = e.inq.payloads();
        let ghost reg0 = e.reg;
        let ghost out0 = e.out;
        let ghost plen = reg0.policies@.len();
        let mut out: Vec<EventMessage> = Vec::new();
        let ghost mut k: int = 0;
        while e.inq.raw.len() > 0
            invariant
                old(self).wf(),
                old(self).spec_has_kind(kind),
                i < old(self).entries@.len(),
                i as int == old(self).kind_index(kind),
                reg0.kind == kind,
                self.entries@ == old(self).entries@.remove(i as int),
                q0 == old(self).entries@[i as int].inq.payloads(),
                reg0 == old(self).entries@[i as int].reg,
                out0 == old(self).entries@[i as int].out,
                plen == reg0.policies@.len(),
                self.network_ids.wf(),
                handles_fresh(self.network_ids, *sim),
                sim_fresh(*sim),
                e.reg == reg0,
                e.out == out0,
                e.inq.payloads() == q0.skip(k),
                0 <= k <= q0.len(),
                old(sim).next() + q0.len() * plen <= u64::MAX,
                sim.next() >= old(sim).next(),
                sim.next() <= old(sim).next() + k * plen,
                forall|t: int|
                    0 <= t < k ==> valid_body(reg0.policies@, #[trigger] q0[t]),
                forall|x: u64| #[trigger]
                    old(sim).tags().contains_key(x) ==> sim.tags().contains_pair(
                        x,
                        old(sim).tags()[x],
                    ),
                forall|x: u64| #[trigger]
                    old(self).network_ids.fwd().contains_key(x) ==> self.network_ids.fwd()
                        .contains_pair(x, old(self).network_ids.fwd()[x]),
                forall|w: u32| #[trigger]
                    old(self).network_ids.rev().contains_key(w) ==> self.network_ids.rev()
                        .contains_pair(w, old(self).network_ids.rev()[w]),
                out@.len() <= k,
                forall|p: int|
                    0 <= p < out@.len() ==> matches_registration(#[trigger] out@[p], reg0)
                        && out@[p].kind == kind && outbound_form(out@[p].fields@),
                forall|i2: u32| #[trigger]
                    self.network_ids.rev().contains_key(i2) && !old(
                        self,
                    ).network_ids.rev().contains_key(i2) ==> self.network_ids.rev()[i2] >= old(
                        sim,
                    ).next() && sim.tags().contains_pair(self.network_ids.rev()[i2], i2),
                forall|p: int|
                    #![trigger out@[p]]
                    0 <= p < out@.len() ==> published_from(
                        out@[p],
                        q0,
                        kind,
                        old(self).network_ids.rev(),
                        self.network_ids.rev(),
                        old(sim).next(),
                        sim.tags(),
                    ),
                crate::message::inbound_creates_known(
                    q0,
                    reg0.policies@,
                    old(self).network_ids.rev(),
                ) ==> sim.next() == old(sim).next() && sim.tags() == old(sim).tags()
                    && self.network_ids.fwd() == old(self).network_ids.fwd()
                    && self.network_ids.rev() == old(self).network_ids.rev(),
                crate::message::inbound_all_resolve(
                    q0,
                    reg0.policies@,
                    old(self).network_ids.rev(),
                ) ==> out@.len() == k && (forall|j: int|
                    0 <= j < k ==> crate::message::published_at(
                        #[trigger] out@[j],
                        q0[j],
                        kind,
                        old(self).network_ids.rev(),
                        self.network_ids.rev(),
                        old(sim).next(),
                        sim.tags(),
                    )),
            decreases e.inq.raw@.len(),
        {
            proof {
                assert(e.inq.payloads().len() == e.inq.raw@.len());
            }
            let ghost raw_pre = e.inq.raw@;
            let popped = e.inq.raw.pop_front();
            let payload = match popped {
                Some(x) => x,
                None => vstd::pervasive::unreached(),
            };
            proof {
                assert(payload@ == q0.skip(k)[0]);
                assert(q0.skip(k)[0] == q0[k]);
                assert(e.inq.raw@ =~= raw_pre.skip(1));
                assert forall|t: int| 0 <= t < e.inq.raw@.len() implies (
                #[trigger] e.inq.payloads()[t]) == q0.skip(k + 1)[t] by {
                    assert(e.inq.raw@[t] == raw_pre[t + 1]);
                    assert(q0.skip(k)[t + 1] == q0.skip(k + 1)[t]);
                }
                assert(e.inq.payloads().len() == q0.skip(k + 1).len());
                assert(e.inq.payloads() =~= q0.skip(k + 1));
            }
            let m = match decode_event(&e.reg.policies, kind, &payload) {
                Ok(m) => m,
                Err(_) => {
                    self.entries.insert(i, e);
                    proof {
                        assert(!valid_body(reg0.policies@, q0[k]));
                        vstd::arithmetic::mul::lemma_mul_inequality(
                            k,
                            q0.len() as int,
                            plen as int,
                        );
                        assert(self.entries@ =~= old(self).entries@.remove(i as int).insert(
                            i as int,
                            e,
                        ));
                        assert forall|t: int| 0 <= t < self.entries@.len() implies server_entry_wf(
                            #[trigger] self.entries@[t],
                        ) by {
                            assert(old(self).entries@[t] == old(self).entries@[t]);
                            if t != i as int {
                                assert(self.entries@[t] == old(self).entries@[t]);
                            }
                        }
                        assert(self.wf());
                    }
                    return Err(ProtocolError::MalformedMessage);
                },
            };
            let ghost w0 = m;
            let EventMessage { kind: mkind, fields, client_id, payload: mpayload } = m;
            let mut flds = fields;
            let ghost f0 = flds@;
            let ghost rev_b = self.network_ids.rev();
            let ghost next_b = sim.next();
            let ghost tags_b = sim.tags();
            proof {
                vstd::arithmetic::mul::lemma_mul_inequality(k + 1, q0.len() as int, plen as int);
                vstd::arithmetic::mul::lemma_mul_is_distributive_add_other_way(
                    plen as int,
                    k,
                    1,
                );
            }
            let ok = network_to_entity(&mut flds, &mut self.network_ids, sim);
            proof {
                assert forall|i2: u32| #[trigger]
                    self.network_ids.rev().contains_key(i2) && !old(
                        self,
                    ).network_ids.rev().contains_key(i2) implies self.network_ids.rev()[i2] >= old(
                    sim,
                ).next() && sim.tags().contains_pair(self.network_ids.rev()[i2], i2) by {
                    if rev_b.contains_key(i2) {
                        assert(self.network_ids.rev().contains_pair(i2, rev_b[i2]));
                        assert(tags_b.contains_key(rev_b[i2]));
                        assert(sim.tags().contains_pair(rev_b[i2], tags_b[rev_b[i2]]));
                    }
                }
                assert forall|p: int|
                    #![trigger out@[p]]
                    0 <= p < out@.len() implies published_from(
                    out@[p],
                    q0,
                    kind,
                    old(self).network_ids.rev(),
                    self.network_ids.rev(),
                    old(sim).next(),
                    sim.tags(),
                ) by {
                    let (j, w) = choose|j: int, w: EventMessage|
                        #![trigger q0[j], event_bytes(w)]
                        {
                            &&& 0 <= j < q0.len()
                            &&& event_bytes(w) == q0[j]
                            &&& w.kind == kind
                            &&& out@[p].kind == kind
                            &&& out@[p].client_id == w.client_id
                            &&& out@[p].payload@ == w.payload@
                            &&& out@[p].fields@.len() == w.fields@.len()
                            &&& wire_form(w.fields@)
                            &&& (forall|t: int|
                                0 <= t < w.fields@.len() ==> crate::resolve::received_field(
                                    (#[trigger] w.fields@[t]),
                                    out@[p].fields@[t],
                                    old(self).network_ids.rev(),
                                    rev_b,
                                    old(sim).next(),
                                    tags_b,
                                ))
                        };
                    assert forall|t: int|
                        0 <= t < w.fields@.len() implies crate::resolve::received_field(
                        (#[trigger] w.fields@[t]),
                        out@[p].fields@[t],
                        old(self).network_ids.rev(),
                        self.network_ids.rev(),
                        old(sim).next(),
                        sim.tags(),
                    ) by {
                        let fv = w.fields@[t].value;
                        if fv is Wire && rev_b.contains_key(fv->id.0) {
                            assert(self.network_ids.rev().contains_pair(
                                fv->id.0,
                                rev_b[fv->id.0],
                            ));
                        }
                        let gv = out@[p].fields@[t].value;
                        if gv is Local && tags_b.contains_key(gv->entity.0) {
                            assert(sim.tags().contains_pair(
                                gv->entity.0,
                                tags_b[gv->entity.0],
                            ));
                        }
                    }
                }
                if crate::message::inbound_creates_known(
                    q0,
                    reg0.policies@,
                    old(self).network_ids.rev(),
                ) {
                    assert(event_bytes(w0) == q0[k]);
                    assert(forall|t: int|
                        0 <= t < w0.fields@.len() ==> (#[trigger] w0.fields@[t]).policy
                            == reg0.policies@[t]);
                    assert(crate::resolve::creates_known(
                        w0.fields@,
                        old(self).network_ids.rev(),
                    ));
                    assert(rev_b == old(self).network_ids.rev());
                    assert(crate::resolve::creates_known(f0, rev_b));
                }
                if crate::message::inbound_all_resolve(
                    q0,
                    reg0.policies@,
                    old(self).network_ids.rev(),
                ) {
                    assert(event_bytes(w0) == q0[k]);
                    assert(forall|t: int|
                        0 <= t < w0.fields@.len() ==> (#[trigger] w0.fields@[t]).policy
                            == reg0.policies@[t]);
                    assert(crate::resolve::drops_resolve_in(
                        w0.fields@,
                        old(self).network_ids.rev(),
                    ));
                    assert forall|t: int|
                        #![trigger f0[t]]
                        0 <= t < f0.len() && f0[t].policy is Drop && f0[t].value is Wire implies
                        rev_b.contains_key(f0[t].value->id.0) by {
                        assert(w0.fields@[t] == f0[t]);
                        assert(old(self).network_ids.rev().contains_key(f0[t].value->id.0));
                        assert(rev_b.contains_pair(
                            f0[t].value->id.0,
                            old(self).network_ids.rev()[f0[t].value->id.0],
                        ));
                    }
                    assert(crate::resolve::drops_resolve_in(f0, rev_b));
                    assert(ok);
                    assert forall|j: int| 0 <= j < out@.len() implies crate::message::published_at(
                        #[trigger] out@[j],
                        q0[j],
                        kind,
                        old(self).network_ids.rev(),
                        self.network_ids.rev(),
                        old(sim).next(),
                        sim.tags(),
                    ) by {
                        crate::message::lemma_published_at_grow(
                            out@[j],
                            q0[j],
                            kind,
                            old(self).network_ids.rev(),
                            rev_b,
                            self.network_ids.rev(),
                            old(sim).next(),
                            tags_b,
                            sim.tags(),
                        );
                    }
                }
            }
            if ok {
                let m2 = EventMessage { kind: mkind, fields: flds, client_id, payload: mpayload };
                proof {
                    assert forall|t: int| 0 <= t < m2.fields@.len() implies (
                    #[trigger] m2.fields@[t]).policy == reg0.policies@[t] by {
                        assert(crate::resolve::in_resolved(
                            f0[t],
                            flds@[t],
                            rev_b,
                            self.network_ids.rev(),
                            next_b,
                            sim.tags(),
                        ));
                    }
                    assert(matches_registration(m2, reg0));
                    assert forall|t: int|
                        0 <= t < m2.fields@.len() implies ((#[trigger] m2.fields@[t]).value
                        is Local || (m2.fields@[t].policy is Ignore && m2.fields@[t].value
                        is Empty)) by {
                        assert(crate::resolve::in_resolved(
                            f0[t],
                            flds@[t],
                            rev_b,
                            self.network_ids.rev(),
                            next_b,
                            sim.tags(),
                        ));
                        assert(f0[t] == f0[t]);
                    }
                    assert(outbound_form(m2.fields@));
                    assert forall|t: int| 0 <= t < w0.fields@.len() implies crate::resolve::received_field(
                        (#[trigger] w0.fields@[t]),
                        m2.fields@[t],
                        old(self).network_ids.rev(),
                        self.network_ids.rev(),
                        old(sim).next(),
                        sim.tags(),
                    ) by {
                        assert(crate::resolve::in_resolved(
                            f0[t],
                            flds@[t],
                            rev_b,
                            self.network_ids.rev(),
                            next_b,
                            sim.tags(),
                        ));
                        assert(w0.fields@[t] == f0[t]);
                        let fv = f0[t].value;
                        if fv is Wire {
                            let i2 = fv->id.0;
                            if old(self).network_ids.rev().contains_key(i2) {
                                assert(rev_b.contains_pair(
                                    i2,
                                    old(self).network_ids.rev()[i2],
                                ));
                                assert(self.network_ids.rev().contains_pair(
                                    i2,
                                    old(self).network_ids.rev()[i2],
                                ));
                            }
                            if rev_b.contains_key(i2) {
                                assert(self.network_ids.rev().contains_pair(i2, rev_b[i2]));
                            }
                            if f0[t].policy is Create && !old(
                                self,
                            ).network_ids.rev().contains_key(i2) && rev_b.contains_key(i2) {
                                assert(rev_b[i2] >= old(sim).next());
                                assert(tags_b.contains_pair(rev_b[i2], i2));
                                assert(sim.tags().contains_pair(rev_b[i2], i2));
                            }
                        }
                    }
                }
                out.push(m2);
                proof {
                    assert(published_from(
                        out@.last(),
                        q0,
                        kind,
                        old(self).network_ids.rev(),
                        self.network_ids.rev(),
                        old(sim).next(),
                        sim.tags(),
                    ));
                    assert(crate::message::published_at(
                        out@.last(),
                        q0[k],
                        kind,
                        old(self).network_ids.rev(),
                        self.network_ids.rev(),
                        old(sim).next(),
                        sim.tags(),
                    ));
                }
            }
            proof {
                k = k + 1;
            }
        }
        proof {
            assert(e.inq.payloads() =~= Seq::<Seq<u8>>::empty());
            assert(q0.skip(k).len() == 0);
            assert(k == q0.len());
        }
        self.entries.insert(i, e);
        proof {
            assert(self.entries@ =~= old(self).entries@.update(i as int, e));
            assert forall|t: int| 0 <= t < self.entries@.len() implies server_entry_wf(
                #[trigger] self.entries@[t],
            ) by {
                assert(old(self).entries@[t] == old(self).entries@[t]);
            }
            assert(self.wf());
        }
        Ok(out)
    }
}


/// A connection-level notification surfaced by the transport.
#[derive(Clone, Copy, PartialEq, Eq, Debug, Structural)]
pub enum ServerEvent {
    ClientConnected(ClientId),
    ClientDisconnected(ClientId),
}

/// Two states with the same registrations resolve kind tags the same
/// way.
proof fn lemma_kind_lookup_stable(a: ServerNetworkPlugin, b: ServerNetworkPlugin, kind: Kind)
    requires
        a.wf(),
        a.entries@.len() == b.entries@.len(),
        forall|k: int|
            0 <= k < a.entries@.len() ==> (#[trigger] b.entries@[k]).reg == a.entries@[k].reg,
        a.spec_has_kind(kind),
    ensures
        b.spec_has_kind(kind),
        b.kind_index(kind) == a.kind_index(kind),
{
    let w = a.kind_index(kind);
    assert(0 <= w < a.entries@.len() && a.entries@[w].reg.kind == kind);
    assert(b.entries@[w].reg.kind == kind);
    assert(b.spec_has_kind(kind));
    let w2 = b.kind_index(kind);
    assert(0 <= w2 < b.entries@.len() && b.entries@[w2].reg.kind == kind);
    assert(a.entries@[w2].reg.kind == kind);
    if w2 != w {
        assert(a.entries@[w2].reg.kind != a.entries@[w].reg.kind);
    }
}

/// One queued entry announcing one player to one client: a Create-policy
/// reference to the player's entity, and the owning client's identifier
/// as payload.
pub open spec fn spawn_entry(
    e: (Destination, EventMessage),
    player: (Entity, ClientId),
    to: ClientId,
    kind: Kind,
) -> bool {
    &&& e.0 == Destination::Client(to)
    &&& e.1.kind == kind
    &&& e.1.fields@.len() == 1
    &&& e.1.fields@[0] == (EntityField {
        policy: MissingPolicy::Create,
        value: crate::resolve::EntityRef::Local { entity: player.0 },
    })
    &&& e.1.payload@ == crate::message::u64_bytes(player.1)
}

impl ServerNetworkPlugin {
    /// The join half of the connection protocol.  A new player entity is
    /// spawned and registered; the new client is sent one catch-up spawn
    /// message per existing player and then told it is ready; everyone
    /// else learns about the new player.
    ///
    /// `players` is the current roster — each live player entity with
    /// its owning connection — before this join.
    pub fn handle_client_connected(
        &mut self,
        player_ids: &mut PlayerIdMap,
        sim: &mut Simulation,
        players: &Vec<(Entity, ClientId)>,
        client_id: ClientId,
        spawn_kind: Kind,
        ready_kind: Kind,
    ) -> (new_player: Entity)
        requires
            old(self).wf(),
            old(self).spec_has_kind(spawn_kind),
            old(self).spec_has_kind(ready_kind),
            server_sends(old(self).entries@[old(self).kind_index(spawn_kind)].reg.direction),
            server_sends(old(self).entries@[old(self).kind_index(ready_kind)].reg.direction),
            old(self).entries@[old(self).kind_index(spawn_kind)].reg.policies@ =~= seq![
                MissingPolicy::Create,
            ],
            old(self).entries@[old(self).kind_index(ready_kind)].reg.policies@ =~= Seq::<
                MissingPolicy,
            >::empty(),
            old(sim).next() < u64::MAX,
            old(self).network_ids.rev().dom().len() < u32::MAX as nat,
            players@.len() <= i16::MAX as nat,
        ensures
            final(self).wf(),
            // The new player object and its registrations.
            new_player.0 == old(sim).next(),
            final(sim).next() == old(sim).next() + 1,
            final(self).network_ids.wf(),
            final(self).network_ids.fwd().contains_key(new_player.0),
            final(sim).tags() == old(sim).tags().insert(
                new_player.0,
                final(self).network_ids.fwd()[new_player.0],
            ),
            final(player_ids).by_client() == old(player_ids).by_client().insert(
                client_id,
                new_player.0,
            ),
            // Registrations and inbound buffers are untouched.
            final(self).entries@.len() == old(self).entries@.len(),
            forall|k: int|
                0 <= k < old(self).entries@.len() ==> (#[trigger] final(self).entries@[k]).reg
                    == old(self).entries@[k].reg && final(self).entries@[k].inq == old(
                    self,
                ).entries@[k].inq,
            // Queues other than the two touched kinds are untouched.
            forall|k: int|
                0 <= k < old(self).entries@.len() && k != old(self).kind_index(spawn_kind) && k
                    != old(self).kind_index(ready_kind) ==> (#[trigger] final(self).entries@[k]).out == old(self).entries@[k].out,
            // The spawn queue: one catch-up entry per existing player for
            // the new client, then the announcement to everyone else.
            ({
                let si = old(self).kind_index(spawn_kind);
                let q0 = old(self).entries@[si].out.raw@;
                let q1 = final(self).entries@[si].out.raw@;
                &&& q1.len() == q0.len() + players@.len() + 1
                &&& forall|t: int| 0 <= t < q0.len() ==> #[trigger] q1[t] == q0[t]
                &&& forall|t: int|
                    0 <= t < players@.len() ==> spawn_entry(
                        #[trigger] q1[q0.len() + t],
                        players@[t],
                        client_id,
                        spawn_kind,
                    )
                &&& q1.last().0 == Destination::Except(client_id)
                &&& q1.last().1.kind == spawn_kind
                &&& q1.last().1.fields@.len() == 1
                &&& q1.last().1.fields@[0] == (EntityField {
                    policy: MissingPolicy::Create,
                    value: crate::resolve::EntityRef::Local { entity: new_player },
                })
                &&& q1.last().1.payload@ == crate::message::u64_bytes(client_id)
            }),
            // The ready queue: exactly one message for the new client,
            // carrying its own identifier and the prior player count.
            ({
                let ri = old(self).kind_index(ready_kind);
                let q0 = old(self).entries@[ri].out.raw@;
                let q1 = final(self).entries@[ri].out.raw@;
                &&& spawn_kind != ready_kind ==> {
                    &&& q1.len() == q0.len() + 1
                    &&& forall|t: int| 0 <= t < q0.len() ==> #[trigger] q1[t] == q0[t]
                    &&& q1.last().0 == Destination::Client(client_id)
                    &&& q1.last().1.kind == ready_kind
                    &&& q1.last().1.fields@.len() == 0
                    &&& q1.last().1.payload@ == (crate::player::PlayerReadyEvent {
                        own_client_it: client_id,
                        players_online_count: players@.len() as i16,
                    }).spec_payload()
                }
            }),
    {
        // Spawn the player object and register it under a fresh wire
        // identifier, mirrored onto the object as a tag.
        let new_player = sim.spawn();
        let network_id = self.network_ids.insert(new_player);
        sim.set_tag(new_player, network_id);
        player_ids.insert(client_id, new_player);
        let ghost mid = *self;
        proof {
            lemma_kind_lookup_stable(*old(self), mid, spawn_kind);
            lemma_kind_lookup_stable(*old(self), mid, ready_kind);
        }
        let ghost si = old(self).kind_index(spawn_kind);
        let ghost q0 = old(self).entries@[si].out.raw@;
        // Catch the new client up on every existing player.
        let n = players.len();
        let mut t: usize = 0;
        while t < n
            invariant
                mid.wf(),
                mid.entries@ == old(self).entries@,
                mid.spec_has_kind(spawn_kind),
                mid.spec_has_kind(ready_kind),
                si == mid.kind_index(spawn_kind),
                q0 == mid.entries@[si].out.raw@,
                server_sends(mid.entries@[mid.kind_index(spawn_kind)].reg.direction),
                server_sends(mid.entries@[mid.kind_index(ready_kind)].reg.direction),
                mid.entries@[mid.kind_index(spawn_kind)].reg.policies@ =~= seq![
                    MissingPolicy::Create,
                ],
                mid.entries@[mid.kind_index(ready_kind)].reg.policies@ =~= Seq::<
                    MissingPolicy,
                >::empty(),
                n == players@.len(),
                t <= n,
                self.wf(),
                self.network_ids == mid.network_ids,
                self.entries@.len() == mid.entries@.len(),
                forall|k: int|
                    0 <= k < mid.entries@.len() ==> (#[trigger] self.entries@[k]).reg
                        == mid.entries@[k].reg && self.entries@[k].inq == mid.entries@[k].inq,
                forall|k: int|
                    0 <= k < mid.entries@.len() && k != si ==> (#[trigger] self.entries@[k]).out
                        == mid.entries@[k].out,
                self.entries@[si].out.kind == mid.entries@[si].out.kind,
                self.entries@[si].out.channel_id == mid.entries@[si].out.channel_id,
                self.entries@[si].out.raw@.len() == q0.len() + t,
                forall|u: int| 0 <= u < q0.len() ==> #[trigger] self.entries@[si].out.raw@[u] == q0[u],
                forall|u: int|
                    0 <= u < t ==> spawn_entry(
                        #[trigger] self.entries@[si].out.raw@[q0.len() + u],
                        players@[u],
                        client_id,
                        spawn_kind,
                    ),
            decreases n - t,
        {
            let (player_entity, player_client) = players[t];
            let mut payload: Vec<u8> = Vec::new();
            crate::message::push_u64_le(&mut payload, player_client);
            let mut fields: Vec<EntityField> = Vec::new();
            fields.push(
                EntityField {
                    policy: MissingPolicy::Create,
                    value: crate::resolve::EntityRef::Local { entity: player_entity },
                },
            );
            let msg = EventMessage { kind: spawn_kind, fields, client_id: 0, payload };
            let ghost pre = *self;
            proof {
                lemma_kind_lookup_stable(mid, pre, spawn_kind);
            }
            let r = self.send(spawn_kind, client_id, msg);
            proof {
                assert(pre.entries@[pre.kind_index(spawn_kind)].reg == mid.entries@[si].reg);
            }
            match r {
                Ok(()) => {},
                Err(_) => vstd::pervasive::unreached(),
            }
            proof {
                let pi = pre.kind_index(spawn_kind);
                assert(pi == si);
                assert forall|k: int| 0 <= k < mid.entries@.len() implies (
                #[trigger] self.entries@[k]).reg == mid.entries@[k].reg && self.entries@[k].inq
                    == mid.entries@[k].inq by {
                    assert(pre.entries@[k] == pre.entries@[k]);
                    if k != pi {
                        assert(self.entries@[k] == pre.entries@[k]);
                    }
                }
                assert forall|k: int|
                    0 <= k < mid.entries@.len() && k != si implies (
                #[trigger] self.entries@[k]).out == mid.entries@[k].out by {
                    assert(pre.entries@[k] == pre.entries@[k]);
                    assert(self.entries@[k] == pre.entries@[k]);
                }
                lemma_kind_lookup_stable(mid, *self, spawn_kind);
            }
            t = t + 1;
        }
        // Announce the new player to everyone already connected.
        let mut payload: Vec<u8> = Vec::new();
        crate::message::push_u64_le(&mut payload, client_id);
        let mut fields: Vec<EntityField> = Vec::new();
        fields.push(
            EntityField {
                policy: MissingPolicy::Create,
                value: crate::resolve::EntityRef::Local { entity: new_player },
            },
        );
        let msg = EventMessage { kind: spawn_kind, fields, client_id: 0, payload };
        let ghost pre2 = *self;
        proof {
            lemma_kind_lookup_stable(mid, pre2, spawn_kind);
        }
        let r = self.broadcast_except(spawn_kind, client_id, msg);
        match r {
            Ok(()) => {},
            Err(_) => vstd::pervasive::unreached(),
        }
        proof {
            let pi = pre2.kind_index(spawn_kind);
            assert(pi == si);
            assert forall|k: int| 0 <= k < mid.entries@.len() implies (
            #[trigger] self.entries@[k]).reg == mid.entries@[k].reg && self.entries@[k].inq
                == mid.entries@[k].inq by {
                assert(pre2.entries@[k] == pre2.entries@[k]);
                if k != pi {
                    assert(self.entries@[k] == pre2.entries@[k]);
                }
            }
            assert forall|k: int|
                0 <= k < mid.entries@.len() && k != si implies (#[trigger] self.entries@[k]).out
                == mid.entries@[k].out by {
                assert(pre2.entries@[k] == pre2.entries@[k]);
                assert(self.entries@[k] == pre2.entries@[k]);
            }
        }
        // Tell the new client it is ready to spawn into the world.
        let count = #[verifier::truncate] (n as i16);
        let ready = crate::player::PlayerReadyEvent {
            own_client_it: client_id,
            players_online_count: count,
        };
        let ready_msg = ready.to_message(ready_kind);
        let ghost pre3 = *self;
        proof {
            assert forall|k: int| 0 <= k < mid.entries@.len() implies (
            #[trigger] pre3.entries@[k]).reg == mid.entries@[k].reg by {
                assert(self.entries@[k] == self.entries@[k]);
            }
            lemma_kind_lookup_stable(mid, pre3, spawn_kind);
            lemma_kind_lookup_stable(mid, pre3, ready_kind);
        }
        proof {
            let ri = mid.kind_index(ready_kind);
            if ri == si {
                assert(mid.entries@[ri].reg.policies@.len() == 0);
                assert(mid.entries@[si].reg.policies@.len() == 1);
            }
        }
        let r = self.send(ready_kind, client_id, ready_msg);
        match r {
            Ok(()) => {},
            Err(_) => vstd::pervasive::unreached(),
        }
        proof {
            let ri = pre3.kind_index(ready_kind);
            assert(ri == mid.kind_index(ready_kind));
            assert forall|k: int| 0 <= k < mid.entries@.len() implies (
            #[trigger] self.entries@[k]).reg == mid.entries@[k].reg && self.entries@[k].inq
                == mid.entries@[k].inq by {
                assert(pre3.entries@[k] == pre3.entries@[k]);
                if k != ri {
                    assert(self.entries@[k] == pre3.entries@[k]);
                }
            }
            assert forall|k: int|
                0 <= k < mid.entries@.len() && k != si && k != ri implies (
            #[trigger] self.entries@[k]).out == mid.entries@[k].out by {
                assert(pre3.entries@[k] == pre3.entries@[k]);
                assert(self.entries@[k] == pre3.entries@[k]);
            }
            lemma_kind_lookup_stable(mid, *self, spawn_kind);
            lemma_kind_lookup_stable(mid, *self, ready_kind);
            assert(count as int == players@.len());
        }
        new_player
    }

    /// The leave half of the connection protocol: the departed client's
    /// player object is despawned and its despawn is broadcast to
    /// everyone still connected.  The identifier registration outlives
    /// the object until that notification has been drained at the end of
    /// the tick — the broadcast's Drop-policy field is translated only
    /// then — so deregistering the handle afterwards is the caller's
    /// duty, as it is on the receiving side.
    pub fn handle_client_disconnected(
        &mut self,
        player_ids: &PlayerIdMap,
        sim: &mut Simulation,
        client_id: ClientId,
        despawn_kind: Kind,
    ) -> (r: Option<Entity>)
        requires
            old(self).wf(),
            old(self).spec_has_kind(despawn_kind),
            server_sends(old(self).entries@[old(self).kind_index(despawn_kind)].reg.direction),
            old(self).entries@[old(self).kind_index(despawn_kind)].reg.policies@ =~= seq![
                MissingPolicy::Drop,
            ],
        ensures
            final(self).wf(),
            final(sim).next() == old(sim).next(),
            r is Some <==> player_ids.by_client().contains_key(client_id),
            r is None ==> *final(self) == *old(self) && *final(sim) == *old(sim),
            final(self).network_ids == old(self).network_ids,
            r matches Some(player) ==> {
                let di = old(self).kind_index(despawn_kind);
                let q0 = old(self).entries@[di].out.raw@;
                let q1 = final(self).entries@[di].out.raw@;
                &&& player.0 == player_ids.by_client()[client_id]
                &&& !final(sim).tags().contains_key(player.0)
                &&& q1.len() == q0.len() + 1
                &&& forall|t: int| 0 <= t < q0.len() ==> #[trigger] q1[t] == q0[t]
                &&& q1.last().0 == Destination::Broadcast
                &&& q1.last().1.kind == despawn_kind
                &&& q1.last().1.fields@.len() == 1
                &&& q1.last().1.fields@[0] == (EntityField {
                    policy: MissingPolicy::Drop,
                    value: crate::resolve::EntityRef::Local { entity: player },
                })
                &&& q1.last().1.payload@ == crate::message::u64_bytes(client_id)
                &&& forall|k: int|
                    0 <= k < old(self).entries@.len() ==> (#[trigger] final(self).entries@[k]).reg
                        == old(self).entries@[k].reg && final(self).entries@[k].inq == old(
                        self,
                    ).entries@[k].inq
                &&& forall|k: int|
                    0 <= k < old(self).entries@.len() && k != di ==> (#[trigger] final(self).entries@[k]).out == old(self).entries@[k].out
            },
    {
        let player = match player_ids.from_client(client_id) {
            Some(p) => p,
            None => {
                return None;
            },
        };
        // The broadcast goes out while the handle still resolves; the
        // Drop-policy field is translated at the end-of-tick drain, so
        // deregistration must come after the queueing either way.
        let mut payload: Vec<u8> = Vec::new();
        crate::message::push_u64_le(&mut payload, client_id);
        let mut fields: Vec<EntityField> = Vec::new();
        fields.push(
            EntityField {
                policy: MissingPolicy::Drop,
                value: crate::resolve::EntityRef::Local { entity: player },
            },
        );
        let msg = EventMessage { kind: despawn_kind, fields, client_id: 0, payload };
        let r = self.broadcast(despawn_kind, msg);
        match r {
            Ok(()) => {},
            Err(_) => vstd::pervasive::unreached(),
        }
        sim.despawn(player);
        proof {
            lemma_kind_lookup_stable(*old(self), *self, despawn_kind);
        }
        Some(player)
    }
}

} // verus!

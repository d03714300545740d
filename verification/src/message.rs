//! Message envelopes, the binary wire codec, and the typed message queues.
//!
//! Every message crosses the wire as an [`UntypedPacket`]: a 16-bit kind
//! tag followed by the opaque bytes of the typed message.  A receiver
//! reads the kind first and only then deserializes the payload with the
//! policies registered for that kind — dispatch never has to try
//! candidate types.
//!
//! The typed body is encoded deterministically: five bytes per
//! entity-carrying field (a presence tag and a little-endian wire
//! identifier), eight bytes of sender identifier, then the message's own
//! payload bytes.  Encoding and decoding are exact inverses; see
//! [`decode_event`].

use vstd::prelude::*;
use vstd::arithmetic::div_mod::{lemma_fundamental_div_mod_converse, lemma_small_mod};
use std::collections::VecDeque;
use crate::{ChannelId, ClientId, Kind};
use crate::network_id::NetworkId;
use crate::resolve::{EntityField, EntityRef, MissingPolicy, wire_form};

verus! {

/// The one delivery lane used for all registered message types; the
/// transport must deliver it reliably and in order.
pub const RELIABLE_CHANNEL: ChannelId = 0;

/// A fatal protocol violation: the peers disagree about the protocol, or
/// the stream is corrupted.  These are not recovered from mid-session.
#[derive(Clone, Copy, PartialEq, Eq, Debug, Structural)]
pub enum ProtocolError {
    /// A packet too short to carry an envelope.
    MalformedEnvelope,
    /// An envelope whose kind tag has no registered message type.
    UnknownKind,
    /// A typed payload that does not decode under its kind's layout.
    MalformedMessage,
}

/// The destination of a server-originated packet.
#[derive(Clone, Copy, PartialEq, Eq, Debug, Structural)]
pub enum Destination {
    /// One specific client.
    Client(ClientId),
    /// Every connected client except one.
    Except(ClientId),
    /// Every connected client.
    Broadcast,
}

/// Anything that can say which channel it travels on.
pub trait NetworkMessage {
    fn channel_id(&self) -> ChannelId;
}

/// A typed message in the data-driven representation the resolution
/// protocol works on: its kind tag, its entity-carrying fields in
/// declaration order, the designated sender field, and the rest of the
/// message as opaque payload bytes.
pub struct EventMessage {
    pub kind: Kind,
    pub fields: Vec<EntityField>,
    pub client_id: ClientId,
    pub payload: Vec<u8>,
}

impl NetworkMessage for EventMessage {
    fn channel_id(&self) -> ChannelId {
        RELIABLE_CHANNEL
    }
}

/// An untyped packet: only the kind tag is decoded, the data stays raw
/// until the typed dispatch step for that kind runs.
pub struct UntypedPacket {
    pub kind: Kind,
    pub data: Vec<u8>,
}

/// Little-endian bytes of a 16-bit integer.
pub open spec fn u16_bytes(v: u16) -> Seq<u8> {
    seq![(v % 256) as u8, ((v / 256) % 256) as u8]
}

/// Little-endian bytes of a 32-bit integer.
pub open spec fn u32_bytes(v: u32) -> Seq<u8> {
    seq![
        (v % 256) as u8,
        ((v / 256) % 256) as u8,
        ((v / 256 / 256) % 256) as u8,
        ((v / 256 / 256 / 256) % 256) as u8,
    ]
}

/// Little-endian bytes of a 64-bit integer.
pub open spec fn u64_bytes(v: u64) -> Seq<u8> {
    seq![
        (v % 256) as u8,
        ((v / 256) % 256) as u8,
        ((v / 256 / 256) % 256) as u8,
        ((v / 256 / 256 / 256) % 256) as u8,
        ((v / 256 / 256 / 256 / 256) % 256) as u8,
        ((v / 256 / 256 / 256 / 256 / 256) % 256) as u8,
        ((v / 256 / 256 / 256 / 256 / 256 / 256) % 256) as u8,
        ((v / 256 / 256 / 256 / 256 / 256 / 256 / 256) % 256) as u8,
    ]
}

/// A framed envelope: the kind tag's bytes, then the body.  The body's
/// length is implied by the transport framing, not embedded.
pub open spec fn framed(kind: Kind, body: Seq<u8>) -> Seq<u8> {
    u16_bytes(kind) + body
}

/// The wire form of an envelope.
pub open spec fn packet_bytes(p: UntypedPacket) -> Seq<u8> {
    framed(p.kind, p.data@)
}

/// The wire form of one entity-carrying field: a presence tag, then the
/// wire identifier (zero-filled when absent).
pub open spec fn field_bytes(f: EntityField) -> Seq<u8> {
    match f.value {
        EntityRef::Wire { id } => seq![1u8] + u32_bytes(id.0),
        _ => seq![0u8, 0u8, 0u8, 0u8, 0u8],
    }
}

/// The wire form of a message's entity-carrying fields, in declaration
/// order.
pub open spec fn fields_bytes(fields: Seq<EntityField>) -> Seq<u8>
    decreases fields.len(),
{
    if fields.len() <= 0 {
        Seq::empty()
    } else {
        field_bytes(fields[0]) + fields_bytes(fields.skip(1))
    }
}

/// The wire form of a typed message body: fields, sender identifier,
/// payload.
pub open spec fn event_bytes(m: EventMessage) -> Seq<u8> {
    fields_bytes(m.fields@) + u64_bytes(m.client_id) + m.payload@
}

/// The kind tag carried by an encoded envelope.
pub open spec fn spec_kind_of(bytes: Seq<u8>) -> Kind {
    ((bytes[0] as int) + 256 * (bytes[1] as int)) as u16
}

/// The payloads, in arrival order, that a batch of raw envelopes carries
/// for one kind.
pub open spec fn payloads_for(kind: Kind, raws: Seq<Vec<u8>>) -> Seq<Seq<u8>>
    decreases raws.len(),
{
    if raws.len() == 0 {
        Seq::empty()
    } else {
        let rest = payloads_for(kind, raws.drop_last());
        if raws.last()@.len() >= 2 && spec_kind_of(raws.last()@) == kind {
            rest.push(raws.last()@.skip(2))
        } else {
            rest
        }
    }
}

/// `bytes` is the framed encoding of the resolved form of the one source
/// message `src`: same sender and payload, each entity field translated
/// through the batch's maps (see [`crate::resolve::sent_field`]).
pub open spec fn packet_body_at(
    bytes: Seq<u8>,
    src: EventMessage,
    kind: Kind,
    reg: crate::TypeRegistration,
    fwd0: Map<u64, u32>,
    rev0: Map<u32, u64>,
    fwd1: Map<u64, u32>,
) -> bool {
    exists|m: EventMessage|
        #![trigger event_bytes(m)]
        {
            &&& m.kind == kind
            &&& m.payload@ == src.payload@
            &&& wire_form(m.fields@)
            &&& crate::matches_registration(m, reg)
            &&& m.fields@.len() == src.fields@.len()
            &&& (forall|t: int|
                0 <= t < m.fields@.len() ==> crate::resolve::sent_field(
                    (#[trigger] src.fields@[t]),
                    m.fields@[t],
                    fwd0,
                    rev0,
                    fwd1,
                ))
            &&& bytes == framed(kind, event_bytes(m))
        }
}

/// `bytes` is as in [`packet_body_at`], and additionally the encoded
/// sender field is `sender` (a client drain stamps its own identifier
/// there when the type declares a sender field).
pub open spec fn packet_body_at_sender(
    bytes: Seq<u8>,
    src: EventMessage,
    kind: Kind,
    reg: crate::TypeRegistration,
    sender: ClientId,
    fwd0: Map<u64, u32>,
    rev0: Map<u32, u64>,
    fwd1: Map<u64, u32>,
) -> bool {
    exists|m: EventMessage|
        #![trigger event_bytes(m)]
        {
            &&& m.kind == kind
            &&& m.client_id == sender
            &&& m.payload@ == src.payload@
            &&& wire_form(m.fields@)
            &&& crate::matches_registration(m, reg)
            &&& m.fields@.len() == src.fields@.len()
            &&& (forall|t: int|
                0 <= t < m.fields@.len() ==> crate::resolve::sent_field(
                    (#[trigger] src.fields@[t]),
                    m.fields@[t],
                    fwd0,
                    rev0,
                    fwd1,
                ))
            &&& bytes == framed(kind, event_bytes(m))
        }
}

/// Growing the final forward map preserves [`packet_body_at_sender`]:
/// every clause of the per-field translation is either about the fixed
/// initial maps or a pair of the final map, and pairs persist.
pub proof fn lemma_packet_body_grow(
    bytes: Seq<u8>,
    src: EventMessage,
    kind: Kind,
    reg: crate::TypeRegistration,
    sender: ClientId,
    fwd0: Map<u64, u32>,
    rev0: Map<u32, u64>,
    fwd_a: Map<u64, u32>,
    fwd_b: Map<u64, u32>,
)
    requires
        packet_body_at_sender(bytes, src, kind, reg, sender, fwd0, rev0, fwd_a),
        forall|x: u64| #[trigger] fwd_a.contains_key(x) ==> fwd_b.contains_pair(x, fwd_a[x]),
    ensures
        packet_body_at_sender(bytes, src, kind, reg, sender, fwd0, rev0, fwd_b),
{
    let m = choose|m: EventMessage|
        #![trigger event_bytes(m)]
        {
            &&& m.kind == kind
            &&& m.client_id == sender
            &&& m.payload@ == src.payload@
            &&& wire_form(m.fields@)
            &&& crate::matches_registration(m, reg)
            &&& m.fields@.len() == src.fields@.len()
            &&& (forall|t: int|
                0 <= t < m.fields@.len() ==> crate::resolve::sent_field(
                    (#[trigger] src.fields@[t]),
                    m.fields@[t],
                    fwd0,
                    rev0,
                    fwd_a,
                ))
            &&& bytes == framed(kind, event_bytes(m))
        };
    assert forall|t: int| 0 <= t < m.fields@.len() implies crate::resolve::sent_field(
        (#[trigger] src.fields@[t]),
        m.fields@[t],
        fwd0,
        rev0,
        fwd_b,
    ) by {
        let fv = src.fields@[t].value;
        if fv is Local && fwd_a.contains_key(fv->entity.0) {
            assert(fwd_b.contains_pair(fv->entity.0, fwd_a[fv->entity.0]));
        }
    }
}

/// The published message `m` is the resolved form of the one buffered
/// payload `payload`: some wire-form message encodes to exactly those
/// bytes, agrees with `m` on sender and payload, and each of its entity
/// fields translates to `m`'s (see [`crate::resolve::received_field`]).
pub open spec fn published_at(
    m: EventMessage,
    payload: Seq<u8>,
    kind: Kind,
    rev0: Map<u32, u64>,
    rev1: Map<u32, u64>,
    next0: u64,
    tags1: Map<u64, u32>,
) -> bool {
    exists|w: EventMessage|
        #![trigger event_bytes(w)]
        {
            &&& event_bytes(w) == payload
            &&& w.kind == kind
            &&& m.kind == kind
            &&& m.client_id == w.client_id
            &&& m.payload@ == w.payload@
            &&& m.fields@.len() == w.fields@.len()
            &&& wire_form(w.fields@)
            &&& (forall|t: int|
                0 <= t < w.fields@.len() ==> crate::resolve::received_field(
                    (#[trigger] w.fields@[t]),
                    m.fields@[t],
                    rev0,
                    rev1,
                    next0,
                    tags1,
                ))
        }
}

/// Growing the final reverse map and the tags preserves
/// [`published_at`].
pub proof fn lemma_published_at_grow(
    m: EventMessage,
    payload: Seq<u8>,
    kind: Kind,
    rev0: Map<u32, u64>,
    rev_a: Map<u32, u64>,
    rev_b: Map<u32, u64>,
    next0: u64,
    tags_a: Map<u64, u32>,
    tags_b: Map<u64, u32>,
)
    requires
        published_at(m, payload, kind, rev0, rev_a, next0, tags_a),
        forall|i: u32| #[trigger] rev_a.contains_key(i) ==> rev_b.contains_pair(i, rev_a[i]),
        forall|e: u64| #[trigger] tags_a.contains_key(e) ==> tags_b.contains_pair(e, tags_a[e]),
    ensures
        published_at(m, payload, kind, rev0, rev_b, next0, tags_b),
{
    let w = choose|w: EventMessage|
        #![trigger event_bytes(w)]
        {
            &&& event_bytes(w) == payload
            &&& w.kind == kind
            &&& m.kind == kind
            &&& m.client_id == w.client_id
            &&& m.payload@ == w.payload@
            &&& m.fields@.len() == w.fields@.len()
            &&& wire_form(w.fields@)
            &&& (forall|t: int|
                0 <= t < w.fields@.len() ==> crate::resolve::received_field(
                    (#[trigger] w.fields@[t]),
                    m.fields@[t],
                    rev0,
                    rev_a,
                    next0,
                    tags_a,
                ))
        };
    assert forall|t: int| 0 <= t < w.fields@.len() implies crate::resolve::received_field(
        (#[trigger] w.fields@[t]),
        m.fields@[t],
        rev0,
        rev_b,
        next0,
        tags_b,
    ) by {
        let fv = w.fields@[t].value;
        if fv is Wire && rev_a.contains_key(fv->id.0) {
            assert(rev_b.contains_pair(fv->id.0, rev_a[fv->id.0]));
        }
        let gv = m.fields@[t].value;
        if gv is Local && tags_a.contains_key(gv->entity.0) {
            assert(tags_b.contains_pair(gv->entity.0, tags_a[gv->entity.0]));
        }
    }
}

/// Every well-formed message a buffered payload can encode has all its
/// Drop-policy identifiers registered in `rev0`, so no inbound
/// resolution of these payloads can fail.
pub open spec fn inbound_all_resolve(
    payloads: Seq<Seq<u8>>,
    policies: Seq<MissingPolicy>,
    rev0: Map<u32, u64>,
) -> bool {
    forall|j: int, w: EventMessage|
        #![trigger payloads[j], event_bytes(w)]
        0 <= j < payloads.len() && event_bytes(w) == payloads[j] && wire_form(w.fields@)
            && w.fields@.len() == policies.len() && (forall|t: int|
            0 <= t < w.fields@.len() ==> (#[trigger] w.fields@[t]).policy == policies[t])
            ==> crate::resolve::drops_resolve_in(w.fields@, rev0)
}

/// Every well-formed message a buffered payload can encode has all its
/// Create-policy identifiers already registered in `rev0`, so inbound
/// resolution of these payloads synthesizes nothing.
pub open spec fn inbound_creates_known(
    payloads: Seq<Seq<u8>>,
    policies: Seq<MissingPolicy>,
    rev0: Map<u32, u64>,
) -> bool {
    forall|j: int, w: EventMessage|
        #![trigger payloads[j], event_bytes(w)]
        0 <= j < payloads.len() && event_bytes(w) == payloads[j] && wire_form(w.fields@)
            && w.fields@.len() == policies.len() && (forall|t: int|
            0 <= t < w.fields@.len() ==> (#[trigger] w.fields@[t]).policy == policies[t])
            ==> crate::resolve::creates_known(w.fields@, rev0)
}

/// Whether `bytes` decodes as a message body under the given per-field
/// policies: long enough, every field chunk carrying either a present
/// identifier or — only for an Ignore-policy field — an all-zero absence
/// marker.
pub open spec fn valid_body(policies: Seq<MissingPolicy>, bytes: Seq<u8>) -> bool {
    &&& bytes.len() >= 5 * policies.len() + 8
    &&& forall|j: int|
        #![trigger policies[j]]
        0 <= j < policies.len() ==> (bytes[5 * j] == 1 || (bytes[5 * j] == 0 && policies[j]
            is Ignore && bytes[5 * j + 1] == 0 && bytes[5 * j + 2] == 0 && bytes[5 * j + 3] == 0
            && bytes[5 * j + 4] == 0))
}

pub proof fn lemma_u16_reconstruct(b0: u8, b1: u8)
    ensures
        u16_bytes(((b0 as u16) + 256 * (b1 as u16)) as u16) == seq![b0, b1],
{
    let v = ((b0 as u16) + 256 * (b1 as u16)) as u16;
    assert(v == (b0 as int) + 256 * (b1 as int));
    lemma_fundamental_div_mod_converse(v as int, 256, b1 as int, b0 as int);
    lemma_small_mod(b1 as nat, 256);
    assert(u16_bytes(v) =~= seq![b0, b1]);
}

pub proof fn lemma_u32_reconstruct(b0: u8, b1: u8, b2: u8, b3: u8)
    ensures
        u32_bytes(
            ((b0 as u32) + 256 * ((b1 as u32) + 256 * ((b2 as u32) + 256 * (b3 as u32)))) as u32,
        ) == seq![b0, b1, b2, b3],
{
    let q1 = (b2 as int) + 256 * (b3 as int);
    let q0 = (b1 as int) + 256 * q1;
    let v = (b0 as int) + 256 * q0;
    lemma_fundamental_div_mod_converse(v, 256, q0, b0 as int);
    lemma_fundamental_div_mod_converse(q0, 256, q1, b1 as int);
    lemma_fundamental_div_mod_converse(q1, 256, b3 as int, b2 as int);
    lemma_small_mod(b3 as nat, 256);
    let v = ((b0 as u32) + 256 * ((b1 as u32) + 256 * ((b2 as u32) + 256 * (b3 as u32)))) as u32;
    assert(v == (b0 as int) + 256 * q0);
    assert(u32_bytes(v) =~= seq![b0, b1, b2, b3]);
}

pub proof fn lemma_u64_reconstruct(b0: u8, b1: u8, b2: u8, b3: u8, b4: u8, b5: u8, b6: u8, b7: u8)
    ensures
        u64_bytes(
            ((b0 as u64) + 256 * ((b1 as u64) + 256 * ((b2 as u64) + 256 * ((b3 as u64) + 256 * ((
            b4 as u64) + 256 * ((b5 as u64) + 256 * ((b6 as u64) + 256 * (b7 as u64)))))))) as u64,
        ) == seq![b0, b1, b2, b3, b4, b5, b6, b7],
{
    let q6 = (b6 as int) + 256 * (b7 as int);
    let q5 = (b5 as int) + 256 * q6;
    let q4 = (b4 as int) + 256 * q5;
    let q3 = (b3 as int) + 256 * q4;
    let q2 = (b2 as int) + 256 * q3;
    let q1 = (b1 as int) + 256 * q2;
    let v = (b0 as int) + 256 * q1;
    lemma_fundamental_div_mod_converse(v, 256, q1, b0 as int);
    lemma_fundamental_div_mod_converse(q1, 256, q2, b1 as int);
    lemma_fundamental_div_mod_converse(q2, 256, q3, b2 as int);
    lemma_fundamental_div_mod_converse(q3, 256, q4, b3 as int);
    lemma_fundamental_div_mod_converse(q4, 256, q5, b4 as int);
    lemma_fundamental_div_mod_converse(q5, 256, q6, b5 as int);
    lemma_fundamental_div_mod_converse(q6, 256, b7 as int, b6 as int);
    lemma_small_mod(b7 as nat, 256);
    let v = ((b0 as u64) + 256 * ((b1 as u64) + 256 * ((b2 as u64) + 256 * ((b3 as u64) + 256 * ((
        b4 as u64) + 256 * ((b5 as u64) + 256 * ((b6 as u64) + 256 * (b7 as u64)))))))) as u64;
    assert(v == (b0 as int) + 256 * q1);
    assert(u64_bytes(v) =~= seq![b0, b1, b2, b3, b4, b5, b6, b7]);
}

/// Two integers with the same little-endian bytes are equal.
pub proof fn lemma_u16_bytes_injective(x: u16, y: u16)
    requires
        u16_bytes(x) == u16_bytes(y),
    ensures
        x == y,
{
    assert(x % 256 + 256 * ((x / 256) % 256) == x) by (bit_vector);
    assert(y % 256 + 256 * ((y / 256) % 256) == y) by (bit_vector);
    assert(u16_bytes(x)[0] == u16_bytes(y)[0]);
    assert(u16_bytes(x)[1] == u16_bytes(y)[1]);
}

/// Two integers with the same little-endian bytes are equal.
pub proof fn lemma_u64_bytes_injective(x: u64, y: u64)
    requires
        u64_bytes(x) == u64_bytes(y),
    ensures
        x == y,
{
    assert(x % 256 + 256 * ((x / 256) % 256) + 65536 * ((x / 256 / 256) % 256) + 16777216 * ((x
        / 256 / 256 / 256) % 256) + 4294967296 * ((x / 256 / 256 / 256 / 256) % 256)
        + 1099511627776 * ((x / 256 / 256 / 256 / 256 / 256) % 256) + 281474976710656 * ((x / 256
        / 256 / 256 / 256 / 256 / 256) % 256) + 72057594037927936 * ((x / 256 / 256 / 256 / 256
        / 256 / 256 / 256) % 256) == x) by (bit_vector);
    assert(y % 256 + 256 * ((y / 256) % 256) + 65536 * ((y / 256 / 256) % 256) + 16777216 * ((y
        / 256 / 256 / 256) % 256) + 4294967296 * ((y / 256 / 256 / 256 / 256) % 256)
        + 1099511627776 * ((y / 256 / 256 / 256 / 256 / 256) % 256) + 281474976710656 * ((y / 256
        / 256 / 256 / 256 / 256 / 256) % 256) + 72057594037927936 * ((y / 256 / 256 / 256 / 256
        / 256 / 256 / 256) % 256) == y) by (bit_vector);
    assert forall|k: int| 0 <= k < 8 implies u64_bytes(x)[k] == u64_bytes(y)[k] by {
    }
}

/// Appending one field to a sequence appends its bytes.
proof fn lemma_fields_bytes_snoc(s: Seq<EntityField>, g: EntityField)
    ensures
        fields_bytes(s.push(g)) == fields_bytes(s) + field_bytes(g),
    decreases s.len(),
{
    if s.len() == 0 {
        assert(s.push(g) =~= seq![g]);
        assert(seq![g].skip(1) =~= Seq::<EntityField>::empty());
        assert(fields_bytes(seq![g]) == field_bytes(g) + fields_bytes(Seq::empty()));
        assert(field_bytes(g) + Seq::<u8>::empty() =~= field_bytes(g));
        assert(fields_bytes(s) + field_bytes(g) =~= field_bytes(g));
    } else {
        lemma_fields_bytes_snoc(s.skip(1), g);
        assert(s.push(g).skip(1) =~= s.skip(1).push(g));
        assert(s.push(g)[0] == s[0]);
        assert((field_bytes(s[0]) + fields_bytes(s.skip(1))) + field_bytes(g) =~= field_bytes(s[0])
            + (fields_bytes(s.skip(1)) + field_bytes(g)));
    }
}

fn push_u32_le(out: &mut Vec<u8>, v: u32)
    ensures
        final(out)@ == old(out)@ + u32_bytes(v),
{
    out.push((v % 256) as u8);
    out.push((v / 256 % 256) as u8);
    out.push((v / 256 / 256 % 256) as u8);
    out.push((v / 256 / 256 / 256 % 256) as u8);
    proof {
        assert(out@ =~= old(out)@ + u32_bytes(v));
    }
}

pub(crate) fn push_u64_le(out: &mut Vec<u8>, v: u64)
    ensures
        final(out)@ == old(out)@ + u64_bytes(v),
{
    out.push((v % 256) as u8);
    out.push((v / 256 % 256) as u8);
    out.push((v / 256 / 256 % 256) as u8);
    out.push((v / 256 / 256 / 256 % 256) as u8);
    out.push((v / 256 / 256 / 256 / 256 % 256) as u8);
    out.push((v / 256 / 256 / 256 / 256 / 256 % 256) as u8);
    out.push((v / 256 / 256 / 256 / 256 / 256 / 256 % 256) as u8);
    out.push((v / 256 / 256 / 256 / 256 / 256 / 256 / 256 % 256) as u8);
    proof {
        assert(out@ =~= old(out)@ + u64_bytes(v));
    }
}

fn read_u32_le(bytes: &Vec<u8>, pos: usize) -> (v: u32)
    requires
        pos + 4 <= bytes@.len(),
    ensures
        u32_bytes(v) == bytes@.subrange(pos as int, pos as int + 4),
{
    let n = bytes.len();
    let b0 = bytes[pos];
    let b1 = bytes[pos + 1];
    let b2 = bytes[pos + 2];
    let b3 = bytes[pos + 3];
    let v = (b0 as u32) + 256 * ((b1 as u32) + 256 * ((b2 as u32) + 256 * (b3 as u32)));
    proof {
        lemma_u32_reconstruct(b0, b1, b2, b3);
        assert(bytes@.subrange(pos as int, pos as int + 4) =~= seq![b0, b1, b2, b3]);
    }
    v
}

fn read_u64_le(bytes: &Vec<u8>, pos: usize) -> (v: u64)
    requires
        pos + 8 <= bytes@.len(),
    ensures
        u64_bytes(v) == bytes@.subrange(pos as int, pos as int + 8),
{
    let n = bytes.len();
    let b0 = bytes[pos];
    let b1 = bytes[pos + 1];
    let b2 = bytes[pos + 2];
    let b3 = bytes[pos + 3];
    let b4 = bytes[pos + 4];
    let b5 = bytes[pos + 5];
    let b6 = bytes[pos + 6];
    let b7 = bytes[pos + 7];
    let v = (b0 as u64) + 256 * ((b1 as u64) + 256 * ((b2 as u64) + 256 * ((b3 as u64) + 256 * ((b4
        as u64) + 256 * ((b5 as u64) + 256 * ((b6 as u64) + 256 * (b7 as u64)))))));
    proof {
        lemma_u64_reconstruct(b0, b1, b2, b3, b4, b5, b6, b7);
        assert(bytes@.subrange(pos as int, pos as int + 8) =~= seq![b0, b1, b2, b3, b4, b5, b6, b7]);
    }
    v
}

/// Serializes an envelope: the kind tag, then the raw payload.
pub fn encode_packet(p: &UntypedPacket) -> (out: Vec<u8>)
    ensures
        out@ == packet_bytes(*p),
{
    let mut out: Vec<u8> = Vec::new();
    out.push((p.kind % 256) as u8);
    out.push((p.kind / 256 % 256) as u8);
    proof {
        assert(out@ =~= u16_bytes(p.kind));
    }
    let ghost head = out@;
    let mut k: usize = 0;
    while k < p.data.len()
        invariant
            head == u16_bytes(p.kind),
            k <= p.data@.len(),
            out@ == head + p.data@.take(k as int),
        decreases p.data@.len() - k,
    {
        out.push(p.data[k]);
        proof {
            assert(p.data@.take(k as int).push(p.data@[k as int]) =~= p.data@.take(k as int + 1));
        }
        k = k + 1;
    }
    proof {
        assert(p.data@.take(p.data@.len() as int) =~= p.data@);
    }
    out
}

/// Deserializes an envelope: reads the kind tag and takes the rest as raw
/// payload.  Fails — a fatal protocol violation — exactly when the packet
/// is too short to carry a kind tag.
pub fn decode_packet(bytes: &Vec<u8>) -> (r: Result<UntypedPacket, ProtocolError>)
    ensures
        r is Ok <==> bytes@.len() >= 2,
        r matches Ok(p) ==> packet_bytes(p) == bytes@ && p.data@ == bytes@.skip(2) && p.kind
            == spec_kind_of(bytes@),
        r is Err ==> r == Err::<UntypedPacket, ProtocolError>(ProtocolError::MalformedEnvelope),
{
    if bytes.len() < 2 {
        return Err(ProtocolError::MalformedEnvelope);
    }
    let b0 = bytes[0];
    let b1 = bytes[1];
    let kind = (b0 as u16) + 256 * (b1 as u16);
    let mut data: Vec<u8> = Vec::new();
    let mut k: usize = 2;
    while k < bytes.len()
        invariant
            2 <= k <= bytes@.len(),
            data@ == bytes@.subrange(2, k as int),
        decreases bytes@.len() - k,
    {
        data.push(bytes[k]);
        proof {
            assert(bytes@.subrange(2, k as int).push(bytes@[k as int]) =~= bytes@.subrange(
                2,
                k as int + 1,
            ));
        }
        k = k + 1;
    }
    let p = UntypedPacket { kind, data };
    proof {
        lemma_u16_reconstruct(b0, b1);
        assert(p.data@ =~= bytes@.skip(2));
        assert(packet_bytes(p) =~= bytes@);
    }
    Ok(p)
}

/// Serializes a typed message body: per-field presence tag and wire
/// identifier, the sender identifier, then the payload bytes.
pub fn encode_event(m: &EventMessage) -> (out: Vec<u8>)
    requires
        wire_form(m.fields@),
    ensures
        out@ == event_bytes(*m),
{
    let mut out: Vec<u8> = Vec::new();
    let n = m.fields.len();
    let mut j: usize = 0;
    while j < n
        invariant
            wire_form(m.fields@),
            n == m.fields@.len(),
            j <= n,
            out@ == fields_bytes(m.fields@.take(j as int)),
        decreases n - j,
    {
        let f = m.fields[j];
        let ghost pre = out@;
        match f.value {
            EntityRef::Wire { id } => {
                out.push(1u8);
                push_u32_le(&mut out, id.0);
                proof {
                    assert(out@ =~= pre + field_bytes(f));
                }
            },
            EntityRef::Empty => {
                out.push(0u8);
                out.push(0u8);
                out.push(0u8);
                out.push(0u8);
                out.push(0u8);
                proof {
                    assert(out@ =~= pre + field_bytes(f));
                }
            },
            _ => {
                proof {
                    assert(false);
                }
            },
        }
        proof {
            assert(m.fields@.take(j as int).push(m.fields@[j as int]) =~= m.fields@.take(
                j as int + 1,
            ));
            lemma_fields_bytes_snoc(m.fields@.take(j as int), m.fields@[j as int]);
        }
        j = j + 1;
    }
    proof {
        assert(m.fields@.take(n as int) =~= m.fields@);
    }
    let ghost head = out@;
    push_u64_le(&mut out, m.client_id);
    let ghost mid = out@;
    let mut k: usize = 0;
    while k < m.payload.len()
        invariant
            mid == head + u64_bytes(m.client_id),
            k <= m.payload@.len(),
            out@ == mid + m.payload@.take(k as int),
        decreases m.payload@.len() - k,
    {
        out.push(m.payload[k]);
        proof {
            assert(m.payload@.take(k as int).push(m.payload@[k as int]) =~= m.payload@.take(
                k as int + 1,
            ));
        }
        k = k + 1;
    }
    proof {
        assert(m.payload@.take(m.payload@.len() as int) =~= m.payload@);
        assert(out@ =~= event_bytes(*m));
    }
    out
}

/// Deserializes a typed message body under the policies registered for
/// `kind`.  Succeeds exactly on byte strings that a message of this shape
/// encodes to — the decoded message re-encodes to the input — and fails,
/// a fatal protocol violation, on every other byte string.
pub fn decode_event(policies: &Vec<MissingPolicy>, kind: Kind, bytes: &Vec<u8>) -> (r: Result<
    EventMessage,
    ProtocolError,
>)
    ensures
        r is Ok <==> valid_body(policies@, bytes@),
        r matches Ok(m) ==> {
            &&& m.kind == kind
            &&& m.fields@.len() == policies@.len()
            &&& forall|j: int|
                0 <= j < policies@.len() ==> (#[trigger] m.fields@[j]).policy == policies@[j]
            &&& wire_form(m.fields@)
            &&& event_bytes(m) == bytes@
        },
        r is Err ==> r == Err::<EventMessage, ProtocolError>(ProtocolError::MalformedMessage),
{
    let n = policies.len();
    let len = bytes.len();
    if len < 8 || n > (len - 8) / 5 {
        proof {
            if len >= 8 {
                vstd::arithmetic::div_mod::lemma_fundamental_div_mod(len as int - 8, 5);
            }
            assert(!valid_body(policies@, bytes@));
        }
        return Err(ProtocolError::MalformedMessage);
    }
    proof {
        vstd::arithmetic::div_mod::lemma_fundamental_div_mod(len as int - 8, 5);
        assert(5 * n + 8 <= len);
    }
    let mut fields: Vec<EntityField> = Vec::new();
    let mut j: usize = 0;
    while j < n
        invariant
            n == policies@.len(),
            bytes@.len() >= 5 * n + 8,
            j <= n,
            fields@.len() == j,
            forall|i: int| 0 <= i < j ==> (#[trigger] fields@[i]).policy == policies@[i],
            forall|i: int|
                #![trigger fields@[i]]
                0 <= i < j ==> (fields@[i].value is Wire || (fields@[i].policy is Ignore
                    && fields@[i].value is Empty)),
            fields_bytes(fields@) == bytes@.subrange(0, 5 * j as int),
            forall|i: int|
                #![trigger policies@[i]]
                0 <= i < j ==> (bytes@[5 * i] == 1 || (bytes@[5 * i] == 0 && policies@[i] is Ignore
                    && bytes@[5 * i + 1] == 0 && bytes@[5 * i + 2] == 0 && bytes@[5 * i + 3] == 0
                    && bytes@[5 * i + 4] == 0)),
        decreases n - j,
    {
        let len = bytes.len();
        let base = 5 * j;
        let tag = bytes[base];
        let g: EntityField;
        if tag == 1 {
            let id = read_u32_le(bytes, base + 1);
            g = EntityField { policy: policies[j], value: EntityRef::Wire { id: NetworkId(id) } };
            proof {
                assert(field_bytes(g) =~= bytes@.subrange(5 * j as int, 5 * j as int + 5));
            }
        } else if tag == 0 {
            let pj = policies[j];
            let zeros_ok = match pj {
                MissingPolicy::Ignore => bytes[base + 1] == 0 && bytes[base + 2] == 0 && bytes[base
                    + 3] == 0 && bytes[base + 4] == 0,
                _ => false,
            };
            if !zeros_ok {
                proof {
                    let ji = j as int;
                    assert(bytes@[5 * ji] == 0);
                    if valid_body(policies@, bytes@) {
                        assert(bytes@[5 * ji] == 1 || (bytes@[5 * ji] == 0 && policies@[ji]
                            is Ignore && bytes@[5 * ji + 1] == 0 && bytes@[5 * ji + 2] == 0
                            && bytes@[5 * ji + 3] == 0 && bytes@[5 * ji + 4] == 0));
                        assert(false);
                    }
                }
                return Err(ProtocolError::MalformedMessage);
            }
            g = EntityField { policy: pj, value: EntityRef::Empty };
            proof {
                assert(field_bytes(g) =~= bytes@.subrange(5 * j as int, 5 * j as int + 5));
            }
        } else {
            proof {
                let ji = j as int;
                if valid_body(policies@, bytes@) {
                    assert(bytes@[5 * ji] == 1 || (bytes@[5 * ji] == 0 && policies@[ji] is Ignore
                        && bytes@[5 * ji + 1] == 0 && bytes@[5 * ji + 2] == 0 && bytes@[5 * ji + 3]
                        == 0 && bytes@[5 * ji + 4] == 0));
                    assert(false);
                }
            }
            return Err(ProtocolError::MalformedMessage);
        }
        proof {
            lemma_fields_bytes_snoc(fields@, g);
            assert(bytes@.subrange(0, 5 * j as int) + bytes@.subrange(
                5 * j as int,
                5 * j as int + 5,
            ) =~= bytes@.subrange(0, 5 * (j as int + 1)));
        }
        fields.push(g);
        j = j + 1;
    }
    let client_id = read_u64_le(bytes, 5 * n);
    let mut payload: Vec<u8> = Vec::new();
    let mut k: usize = 5 * n + 8;
    while k < bytes.len()
        invariant
            5 * n + 8 <= k <= bytes@.len(),
            payload@ == bytes@.subrange(5 * n as int + 8, k as int),
        decreases bytes@.len() - k,
    {
        payload.push(bytes[k]);
        proof {
            assert(bytes@.subrange(5 * n as int + 8, k as int).push(bytes@[k as int])
                =~= bytes@.subrange(5 * n as int + 8, k as int + 1));
        }
        k = k + 1;
    }
    let m = EventMessage { kind, fields, client_id, payload };
    proof {
        assert(valid_body(policies@, bytes@));
        assert(event_bytes(m) =~= bytes@);
    }
    Ok(m)
}

/// A typed outbound queue for the server side, which must keep the
/// destination of each message.  Producers push during the game-logic
/// phase; the drain step at the end of the tick resolves, serializes and
/// hands every entry to the transport.
pub struct ServerMessageOutQueue {
    /// Messages to transmit at the end of the tick, oldest first.
    pub raw: VecDeque<(Destination, EventMessage)>,
    /// The channel the messages are sent on.
    pub channel_id: ChannelId,
    /// The kind tag of every message in this queue.
    pub kind: Kind,
}

impl ServerMessageOutQueue {
    pub fn new(channel_id: ChannelId, kind: Kind) -> (q: Self)
        ensures
            q.raw@ == Seq::<(Destination, EventMessage)>::empty(),
            q.channel_id == channel_id,
            q.kind == kind,
    {
        Self { raw: VecDeque::new(), channel_id, kind }
    }

    /// Queues a message for the given destination.
    pub fn send_to(&mut self, destination: Destination, message: EventMessage)
        ensures
            final(self).raw@ == old(self).raw@.push((destination, message)),
            final(self).channel_id == old(self).channel_id,
            final(self).kind == old(self).kind,
    {
        self.raw.push_back((destination, message));
    }

    /// Queues a message for one specific client.
    pub fn send(&mut self, client_id: &ClientId, message: EventMessage)
        ensures
            final(self).raw@ == old(self).raw@.push((Destination::Client(*client_id), message)),
            final(self).channel_id == old(self).channel_id,
            final(self).kind == old(self).kind,
    {
        self.raw.push_back((Destination::Client(*client_id), message));
    }

    /// Queues a message for every connected client.
    pub fn broadcast(&mut self, message: EventMessage)
        ensures
            final(self).raw@ == old(self).raw@.push((Destination::Broadcast, message)),
            final(self).channel_id == old(self).channel_id,
            final(self).kind == old(self).kind,
    {
        self.raw.push_back((Destination::Broadcast, message));
    }

    /// Queues a message for every connected client except one.
    pub fn broadcast_except(&mut self, client_id: &ClientId, message: EventMessage)
        ensures
            final(self).raw@ == old(self).raw@.push((Destination::Except(*client_id), message)),
            final(self).channel_id == old(self).channel_id,
            final(self).kind == old(self).kind,
    {
        self.raw.push_back((Destination::Except(*client_id), message));
    }
}

/// A typed outbound queue for the client side; the client has exactly one
/// destination, the server, so entries carry no destination.
pub struct ClientMessageOutQueue {
    /// Messages to transmit at the end of the tick, oldest first.
    pub raw: VecDeque<EventMessage>,
    /// The channel the messages are sent on.
    pub channel_id: ChannelId,
    /// The kind tag of every message in this queue.
    pub kind: Kind,
}

impl ClientMessageOutQueue {
    pub fn new(channel_id: ChannelId, kind: Kind) -> (q: Self)
        ensures
            q.raw@ == Seq::<EventMessage>::empty(),
            q.channel_id == channel_id,
            q.kind == kind,
    {
        Self { raw: VecDeque::new(), channel_id, kind }
    }

    /// Queues a message for the server.
    pub fn send(&mut self, message: EventMessage)
        ensures
            final(self).raw@ == old(self).raw@.push(message),
            final(self).channel_id == old(self).channel_id,
            final(self).kind == old(self).kind,
    {
        self.raw.push_back(message);
    }
}

/// The per-kind FIFO of raw, not yet deserialized payloads, filled by the
/// untyped receive step and drained by the typed dispatch step of the
/// same tick.
pub struct MessageInQueue {
    /// Raw payload bytes in arrival order.
    pub raw: VecDeque<Vec<u8>>,
}

impl MessageInQueue {
    /// The buffered payloads as byte sequences, in arrival order.
    pub open spec fn payloads(self) -> Seq<Seq<u8>> {
        self.raw@.map_values(|b: Vec<u8>| b@)
    }

    pub fn new() -> (q: Self)
        ensures
            q.raw@ == Seq::<Vec<u8>>::empty(),
            q.payloads() == Seq::<Seq<u8>>::empty(),
    {
        let q = Self { raw: VecDeque::new() };
        proof {
            assert(q.payloads() =~= Seq::<Seq<u8>>::empty());
        }
        q
    }

    /// Buffers one raw payload.
    pub fn push(&mut self, data: Vec<u8>)
        ensures
            final(self).payloads() == old(self).payloads().push(data@),
    {
        self.raw.push_back(data);
        proof {
            assert(self.payloads() =~= old(self).payloads().push(data@));
        }
    }
}

} // verus!

//! Network entity synchronization layer for a multiplayer simulation.
//!
//! A server and several clients share a mutable world over an ordered
//! transport, while each side keeps its own local identifier space for live
//! objects.  This crate provides the pieces that make that work:
//!
//! * [`network_id::NetworkIdMap`] — a bidirectional map between local entity
//!   handles and wire-stable identifiers;
//! * a per-field resolution protocol that translates entity references in
//!   both directions, with an explicit policy for unresolvable references;
//! * message envelopes, typed outbound queues and inbound demultiplexing;
//! * the registration surface that wires a message type into the tick
//!   pipeline of either side.
//!
//! The transport itself (sockets, connection management) is an external
//! collaborator: the library hands it fully framed bytes together with
//! destination descriptors and consumes the raw bytes it delivers.

use vstd::prelude::*;

pub mod block_map;
pub mod client;
pub mod message;
pub mod network_id;
pub mod physics;
pub mod player;
pub mod player_id;
pub mod resolve;
pub mod ship;
pub mod server;
pub mod simulation;

verus! {

/// Connection identifier of a remote peer, assigned by the transport.
pub type ClientId = u64;

/// A transport delivery lane; all lanes used here are reliable and ordered.
pub type ChannelId = u8;

/// Compact tag identifying a message type across the wire protocol.
pub type Kind = u16;

/// A local, engine-owned handle for a live simulation object.
///
/// Handles are not stable across the network and may be reused after
/// deletion; they are never sent raw, only translated through a
/// [`network_id::NetworkIdMap`].
#[derive(Clone, Copy, PartialEq, Eq, Hash, Debug, Structural)]
pub struct Entity(pub u64);

/// Marker for message types that travel from server to client.
pub trait Clientbound {

}

/// Marker for message types that travel from client to server.
pub trait Serverbound {

}

/// Which way a message type travels.  Fixed per type at registration, not
/// per instance; it decides which queues and pipeline steps each side
/// instantiates for the type.
#[derive(Clone, Copy, PartialEq, Eq, Debug, Structural)]
pub enum Direction {
    /// Server to client only.
    Clientbound,
    /// Client to server only.
    Serverbound,
    /// Both ways.
    Bidirectional,
}

/// Everything a side needs to know about one message type: its
/// globally-unique kind tag, its delivery channel, its direction, the
/// missing-policy of each entity-carrying field in declaration order, and
/// whether the type declares a designated sender field.
pub struct TypeRegistration {
    pub kind: Kind,
    pub channel_id: ChannelId,
    pub direction: Direction,
    pub policies: Vec<resolve::MissingPolicy>,
    pub has_client_id: bool,
}

/// Whether a message value is an instance of the registered type: same
/// kind tag, and one entity-carrying field per declared policy.
pub open spec fn matches_registration(m: message::EventMessage, reg: TypeRegistration) -> bool {
    &&& m.kind == reg.kind
    &&& m.fields@.len() == reg.policies@.len()
    &&& forall|j: int|
        0 <= j < m.fields@.len() ==> (#[trigger] m.fields@[j]).policy == reg.policies@[j]
}

/// Why a message could not be queued.  All three are programmer errors
/// on the producing side, caught before anything reaches the wire.
#[derive(Clone, Copy, PartialEq, Eq, Debug, Structural)]
pub enum QueueError {
    /// No type is registered under this kind tag.
    UnknownKind,
    /// The type's direction gives this side no such path.
    WrongDirection,
    /// The message is not an instance of the registered type, or its
    /// fields are not in the form this step expects.
    InvalidMessage,
}

/// Why a registration call was rejected.
#[derive(Clone, Copy, PartialEq, Eq, Debug, Structural)]
pub enum RegistrationError {
    /// Another message type is already registered under this kind tag.
    DuplicateKind,
}

} // verus!

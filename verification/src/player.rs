//! Player components and the connection-handshake message.

use vstd::prelude::*;
use crate::{Clientbound, ClientId, Kind};
use crate::message::{
    lemma_u16_bytes_injective, lemma_u64_bytes_injective, u16_bytes, u64_bytes, EventMessage,
};

verus! {

/// Marker for any player entity, not just the local one.
#[derive(Clone, Copy, PartialEq, Eq, Debug, Structural)]
pub struct PlayerMarker;

/// The connection identifier of the client controlling a player entity.
#[derive(Clone, Copy, PartialEq, Eq, Debug, Structural)]
pub struct PlayerClientId(pub ClientId);

/// Sent to a client right after it connects: the client that received
/// this is ready to spawn into the world.
#[derive(Clone, Copy, PartialEq, Eq, Debug, Structural)]
pub struct PlayerReadyEvent {
    pub own_client_it: ClientId,
    pub players_online_count: i16,
}

impl Clientbound for PlayerReadyEvent {

}

impl PlayerReadyEvent {
    /// The event's payload bytes: the client's own identifier, then the
    /// player count, both little endian.
    pub open spec fn spec_payload(self) -> Seq<u8> {
        u64_bytes(self.own_client_it) + u16_bytes(self.players_online_count as u16)
    }

    /// Serializes the event into the payload of a message of the given
    /// kind; the event carries no entity references.
    pub fn to_message(&self, kind: Kind) -> (r: EventMessage)
        ensures
            r.kind == kind,
            r.fields@.len() == 0,
            r.client_id == 0,
            r.payload@ == self.spec_payload(),
    {
        let mut payload: Vec<u8> = Vec::new();
        let v = self.own_client_it;
        payload.push((v % 256) as u8);
        payload.push((v / 256 % 256) as u8);
        payload.push((v / 256 / 256 % 256) as u8);
        payload.push((v / 256 / 256 / 256 % 256) as u8);
        payload.push((v / 256 / 256 / 256 / 256 % 256) as u8);
        payload.push((v / 256 / 256 / 256 / 256 / 256 % 256) as u8);
        payload.push((v / 256 / 256 / 256 / 256 / 256 / 256 % 256) as u8);
        payload.push((v / 256 / 256 / 256 / 256 / 256 / 256 / 256 % 256) as u8);
        let c = #[verifier::truncate] (self.players_online_count as u16);
        payload.push((c % 256) as u8);
        payload.push((c / 256 % 256) as u8);
        proof {
            assert(payload@ =~= self.spec_payload());
        }
        EventMessage { kind, fields: Vec::new(), client_id: 0, payload }
    }

    /// Deserializes the event back out of a message's payload.  Succeeds
    /// exactly on payloads of the right length, and the decoded event
    /// re-serializes to the same payload.
    pub fn from_message(m: &EventMessage) -> (r: Option<PlayerReadyEvent>)
        ensures
            r is Some <==> m.payload@.len() == 10,
            r matches Some(e) ==> e.spec_payload() == m.payload@,
    {
        if m.payload.len() != 10 {
            return None;
        }
        let b = &m.payload;
        let own = (b[0] as u64) + 256 * ((b[1] as u64) + 256 * ((b[2] as u64) + 256 * ((b[3]
            as u64) + 256 * ((b[4] as u64) + 256 * ((b[5] as u64) + 256 * ((b[6] as u64) + 256 * (
        b[7] as u64)))))));
        let cu = (b[8] as u16) + 256 * (b[9] as u16);
        let count = #[verifier::truncate] (cu as i16);
        let e = PlayerReadyEvent { own_client_it: own, players_online_count: count };
        proof {
            crate::message::lemma_u64_reconstruct(
                b@[0],
                b@[1],
                b@[2],
                b@[3],
                b@[4],
                b@[5],
                b@[6],
                b@[7],
            );
            crate::message::lemma_u16_reconstruct(b@[8], b@[9]);
            assert(((cu as i16) as u16) == cu) by (bit_vector);
            assert((count as u16) == cu);
            assert(e.spec_payload() =~= m.payload@);
        }
        Some(e)
    }
}

/// Round trip: serializing a ready event and deserializing the payload
/// yields the same event.
pub proof fn lemma_player_ready_round_trip(a: PlayerReadyEvent, b: PlayerReadyEvent)
    requires
        a.spec_payload() == b.spec_payload(),
    ensures
        a == b,
{
    assert(u64_bytes(a.own_client_it) =~= b.spec_payload().take(8));
    assert(u64_bytes(b.own_client_it) =~= b.spec_payload().take(8));
    lemma_u64_bytes_injective(a.own_client_it, b.own_client_it);
    assert(u16_bytes(a.players_online_count as u16) =~= b.spec_payload().skip(8));
    assert(u16_bytes(b.players_online_count as u16) =~= b.spec_payload().skip(8));
    lemma_u16_bytes_injective(a.players_online_count as u16, b.players_online_count as u16);
    let x = a.players_online_count;
    let y = b.players_online_count;
    assert((x as u16) == (y as u16) ==> x == y) by (bit_vector);
}

} // verus!

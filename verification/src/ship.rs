//! Ship components and the pilot-exclusivity rule.
//!
//! A ship has at most one pilot.  Taking the helm succeeds only when it
//! is free; leaving it succeeds only for the client that holds it.  The
//! caller broadcasts the corresponding event exactly when the transition
//! happened.

use vstd::prelude::*;
use crate::ClientId;

verus! {

/// Marker for a ship entity.
#[derive(Clone, Copy, PartialEq, Eq, Debug, Structural)]
pub struct Ship;

/// Marker for the ship currently under local control.
#[derive(Clone, Copy, PartialEq, Eq, Debug, Structural)]
pub struct ShipMarker;

/// Marker for entities whose position is synchronized generically.
#[derive(Clone, Copy, PartialEq, Eq, Debug, Structural)]
pub struct GenericPositionSyncMarker;

/// A ship's display name.
#[derive(Debug)]
pub struct ShipName {
    pub name: String,
}

/// Who, if anyone, is at a ship's helm.
#[derive(Clone, Copy, PartialEq, Eq, Debug, Structural)]
pub enum Pilot {
    /// The helm is free.
    Vacant,
    /// The helm is held by this client.
    Pilot(ClientId),
}

/// A client asks to take the helm: granted exactly when it is vacant,
/// so two clients can never pilot the same ship.
pub fn on_try_enter_ship(pilot: &mut Pilot, client_id: ClientId) -> (entered: bool)
    ensures
        entered <==> *old(pilot) is Vacant,
        entered ==> *final(pilot) == Pilot::Pilot(client_id),
        !entered ==> *final(pilot) == *old(pilot),
{
    match *pilot {
        Pilot::Vacant => {
            *pilot = Pilot::Pilot(client_id);
            true
        },
        Pilot::Pilot(_) => false,
    }
}

/// A client asks to leave the helm: granted exactly when that client is
/// the one holding it.
pub fn on_try_leave_ship(pilot: &mut Pilot, client_id: ClientId) -> (left: bool)
    ensures
        left <==> *old(pilot) == Pilot::Pilot(client_id),
        left ==> *final(pilot) is Vacant,
        !left ==> *final(pilot) == *old(pilot),
{
    match *pilot {
        Pilot::Pilot(holder) => {
            if holder == client_id {
                *pilot = Pilot::Vacant;
                true
            } else {
                false
            }
        },
        Pilot::Vacant => false,
    }
}

} // verus!

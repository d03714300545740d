//! The server's map between connection identifiers and player entities.
//!
//! Unlike [`crate::network_id::NetworkIdMap`] this is a plain two-way
//! lookup: one player entity per connected client, inserted on connect
//! and looked up by either side of the association.

use vstd::prelude::*;
use std::collections::HashMap;
use crate::{ClientId, Entity};

verus! {

broadcast use vstd::std_specs::hash::group_hash_axioms;

/// Two synchronized maps: connection identifier to player entity, and
/// back.
pub struct PlayerIdMap {
    map: HashMap<u64, u64>,
    reverse_map: HashMap<u64, u64>,
}

impl PlayerIdMap {
    /// The client-to-entity direction, as a mathematical map.
    pub closed spec fn by_client(self) -> Map<u64, u64> {
        self.map@
    }

    /// The entity-to-client direction, as a mathematical map.
    pub closed spec fn by_entity(self) -> Map<u64, u64> {
        self.reverse_map@
    }

    pub fn new() -> (r: Self)
        ensures
            r.by_client() == Map::<u64, u64>::empty(),
            r.by_entity() == Map::<u64, u64>::empty(),
    {
        Self { map: HashMap::new(), reverse_map: HashMap::new() }
    }

    /// The connection identifier of a player entity, if registered.
    pub fn from_entity(&self, entity: Entity) -> (r: Option<ClientId>)
        ensures
            r matches Some(c) ==> self.by_entity().contains_pair(entity.0, c),
            r is None ==> !self.by_entity().contains_key(entity.0),
    {
        match self.reverse_map.get(&entity.0) {
            Some(c) => Some(*c),
            None => None,
        }
    }

    /// The player entity of a connection, if registered.
    pub fn from_client(&self, client_id: ClientId) -> (r: Option<Entity>)
        ensures
            r matches Some(e) ==> self.by_client().contains_pair(client_id, e.0),
            r is None ==> !self.by_client().contains_key(client_id),
    {
        match self.map.get(&client_id) {
            Some(e) => Some(Entity(*e)),
            None => None,
        }
    }

    /// Associates a connection with its player entity, in both
    /// directions.
    pub fn insert(&mut self, client_id: ClientId, entity: Entity)
        ensures
            final(self).by_client() == old(self).by_client().insert(client_id, entity.0),
            final(self).by_entity() == old(self).by_entity().insert(entity.0, client_id),
    {
        self.map.insert(client_id, entity.0);
        self.reverse_map.insert(entity.0, client_id);
    }
}

} // verus!

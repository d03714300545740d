//! A minimal model of the simulation boundary.
//!
//! The engine that owns the live objects is an external collaborator; the
//! synchronization layer only needs three things from it: allocating a
//! handle for a freshly synthesized object, deleting one, and attaching or
//! reading an identifier tag on an object so that a created object can be
//! found again by wire identifier.  [`Simulation`] provides exactly that
//! surface over plain values, so the resolution protocol can be stated and
//! checked against it; an embedding application maps these handles onto its
//! engine's own objects.

use vstd::prelude::*;
use std::collections::HashMap;
use crate::Entity;
use crate::network_id::NetworkId;

verus! {

broadcast use vstd::std_specs::hash::group_hash_axioms;

/// Handle allocation and identifier tags for live simulation objects.
///
/// Handles are handed out in increasing order, so a freshly spawned handle
/// never collides with any handle seen before — the property the resolution
/// protocol relies on when it registers created objects.
pub struct Simulation {
    next_handle: u64,
    tags: HashMap<u64, u32>,
}

impl Simulation {
    /// The next handle that `spawn` will hand out; every handle allocated
    /// so far is strictly below it.
    pub closed spec fn next(self) -> u64 {
        self.next_handle
    }

    /// The identifier tags currently attached, as a mathematical map from
    /// handle to wire identifier.
    pub closed spec fn tags(self) -> Map<u64, u32> {
        self.tags@
    }

    pub fn new() -> (r: Self)
        ensures
            r.next() == 0,
            r.tags() == Map::<u64, u32>::empty(),
    {
        Self { next_handle: 0, tags: HashMap::new() }
    }

    /// Allocates a handle for a new live object.
    pub fn spawn(&mut self) -> (e: Entity)
        requires
            old(self).next() < u64::MAX,
        ensures
            e.0 == old(self).next(),
            final(self).next() == old(self).next() + 1,
            final(self).tags() == old(self).tags(),
    {
        let e = Entity(self.next_handle);
        self.next_handle = self.next_handle + 1;
        e
    }

    /// Attaches (or overwrites) the identifier tag on `entity`.
    pub fn set_tag(&mut self, entity: Entity, id: NetworkId)
        ensures
            final(self).next() == old(self).next(),
            final(self).tags() == old(self).tags().insert(entity.0, id.0),
    {
        self.tags.insert(entity.0, id.0);
    }

    /// Reads the identifier tag of `entity`, if it carries one.
    pub fn tag_of(&self, entity: Entity) -> (r: Option<NetworkId>)
        ensures
            r matches Some(id) ==> self.tags().contains_pair(entity.0, id.0),
            r is None ==> !self.tags().contains_key(entity.0),
    {
        match self.tags.get(&entity.0) {
            Some(i) => Some(NetworkId(*i)),
            None => None,
        }
    }

    /// Deletes the object: its tag, if any, is detached.  The handle is
    /// never reused by this model.
    pub fn despawn(&mut self, entity: Entity)
        ensures
            final(self).next() == old(self).next(),
            old(self).tags().contains_key(entity.0) ==> final(self).tags() == old(
                self,
            ).tags().remove(entity.0),
            !old(self).tags().contains_key(entity.0) ==> final(self).tags() == old(self).tags(),
    {
        if self.tags.contains_key(&entity.0) {
            self.tags.remove(&entity.0);
        }
    }
}

} // verus!

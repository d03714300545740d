//! Bidirectional mapping between local entity handles and wire identifiers.
//!
//! Each side of a connection (server, client) owns one [`NetworkIdMap`] for
//! the lifetime of the process.  Entries are created when an object spawns
//! and removed when it despawns.  The two directions of the map always form
//! a bijection over the currently registered pairs; see [`NetworkIdMap::wf`].

use vstd::prelude::*;
use std::collections::HashMap;
use crate::Entity;

verus! {

broadcast use vstd::std_specs::hash::group_hash_axioms;

/// Wire-stable identifier for a live object.
///
/// Generated independently per originating side from a uniform random
/// source, and checked against the live set before acceptance, so that it is
/// unique among all currently registered objects of that side.  It is never
/// derived from the numeric value of a local handle.
#[derive(Clone, Copy, PartialEq, Eq, Hash, Debug, Structural)]
pub struct NetworkId(pub u32);

/// Why a registration with a caller-chosen identifier was rejected.
///
/// Both cases guard against double-registration bugs: accepting either
/// insertion would silently break the bijection between handles and wire
/// identifiers.
#[derive(Clone, Copy, PartialEq, Eq, Debug, Structural)]
pub enum IdInsertError {
    /// The wire identifier is already registered for another handle.
    IdAlreadyRegistered,
    /// The handle is already registered under another wire identifier.
    EntityAlreadyRegistered,
}

/// Two synchronized maps: local handle to wire identifier, and back.
pub struct NetworkIdMap {
    map: HashMap<u64, u32>,
    reverse_map: HashMap<u32, u64>,
}

impl NetworkIdMap {
    /// The handle-to-identifier direction, as a mathematical map.
    pub closed spec fn fwd(self) -> Map<u64, u32> {
        self.map@
    }

    /// The identifier-to-handle direction, as a mathematical map.
    pub closed spec fn rev(self) -> Map<u32, u64> {
        self.reverse_map@
    }

    /// Well-formedness: the two directions are inverses of each other, so
    /// the registered pairs form a bijection — exactly one wire identifier
    /// per registered handle, and vice versa.
    pub open spec fn wf(self) -> bool {
        &&& self.fwd().dom().finite()
        &&& self.rev().dom().finite()
        &&& forall|e: u64|
            #[trigger] self.fwd().contains_key(e) ==> self.rev().contains_pair(self.fwd()[e], e)
        &&& forall|i: u32|
            #[trigger] self.rev().contains_key(i) ==> self.fwd().contains_pair(self.rev()[i], i)
    }

    pub fn new() -> (r: Self)
        ensures
            r.wf(),
            r.fwd() == Map::<u64, u32>::empty(),
            r.rev() == Map::<u32, u64>::empty(),
    {
        Self { map: HashMap::new(), reverse_map: HashMap::new() }
    }

    /// Pure lookup of the wire identifier registered for `entity`.
    pub fn from_entity(&self, entity: Entity) -> (r: Option<NetworkId>)
        ensures
            r matches Some(id) ==> self.fwd().contains_pair(entity.0, id.0),
            r is None ==> !self.fwd().contains_key(entity.0),
    {
        match self.map.get(&entity.0) {
            Some(i) => Some(NetworkId(*i)),
            None => None,
        }
    }

    /// Pure lookup of the handle registered for `network_id`.
    pub fn from_network(&self, network_id: NetworkId) -> (r: Option<Entity>)
        ensures
            r matches Some(e) ==> self.rev().contains_pair(network_id.0, e.0),
            r is None ==> !self.rev().contains_key(network_id.0),
    {
        match self.reverse_map.get(&network_id.0) {
            Some(e) => Some(Entity(*e)),
            None => None,
        }
    }

    /// Registers a pair known to collide with nothing; both directions are
    /// written atomically.
    pub(crate) fn insert_unchecked(&mut self, entity: Entity, id: NetworkId)
        requires
            old(self).wf(),
            !old(self).fwd().contains_key(entity.0),
            !old(self).rev().contains_key(id.0),
        ensures
            final(self).wf(),
            final(self).fwd() == old(self).fwd().insert(entity.0, id.0),
            final(self).rev() == old(self).rev().insert(id.0, entity.0),
    {
        let ghost f = self.map@;
        let ghost r = self.reverse_map@;
        self.map.insert(entity.0, id.0);
        self.reverse_map.insert(id.0, entity.0);
        proof {
            assert forall|e: u64| #[trigger] self.fwd().contains_key(e) implies self.rev()
                .contains_pair(self.fwd()[e], e) by {
                if e != entity.0 {
                    assert(f.contains_key(e));
                    assert(r.contains_pair(f[e], e));
                    assert(r.contains_key(f[e]));
                    assert(f[e] != id.0);
                }
            }
            assert forall|i: u32| #[trigger] self.rev().contains_key(i) implies self.fwd()
                .contains_pair(self.rev()[i], i) by {
                if i != id.0 {
                    assert(r.contains_key(i));
                    assert(f.contains_pair(r[i], i));
                    assert(f.contains_key(r[i]));
                    assert(r[i] != entity.0);
                }
            }
        }
    }

    /// Registers `entity` under the caller-supplied `network_id`.
    ///
    /// Used when adopting an identifier received from the remote side.  The
    /// call is rejected — never silently overwriting — if the identifier,
    /// or the handle, is already registered.  Reaching either rejection
    /// indicates a double-registration bug in the caller, not a recoverable
    /// runtime condition.
    pub fn insert_with_id(&mut self, entity: Entity, network_id: NetworkId) -> (r: Result<
        (),
        IdInsertError,
    >)
        requires
            old(self).wf(),
        ensures
            final(self).wf(),
            old(self).rev().contains_key(network_id.0) ==> r == Err::<(), IdInsertError>(
                IdInsertError::IdAlreadyRegistered,
            ) && final(self).fwd() == old(self).fwd() && final(self).rev() == old(self).rev(),
            !old(self).rev().contains_key(network_id.0) && old(self).fwd().contains_key(entity.0)
                ==> r == Err::<(), IdInsertError>(IdInsertError::EntityAlreadyRegistered) && final(self).fwd() == old(self).fwd() && final(self).rev() == old(self).rev(),
            !old(self).rev().contains_key(network_id.0) && !old(self).fwd().contains_key(entity.0)
                ==> r == Ok::<(), IdInsertError>(()) && final(self).fwd() == old(self).fwd().insert(
                entity.0,
                network_id.0,
            ) && final(self).rev() == old(self).rev().insert(network_id.0, entity.0),
    {
        if self.reverse_map.contains_key(&network_id.0) {
            Err(IdInsertError::IdAlreadyRegistered)
        } else if self.map.contains_key(&entity.0) {
            Err(IdInsertError::EntityAlreadyRegistered)
        } else {
            self.insert_unchecked(entity, network_id);
            Ok(())
        }
    }

    /// Registers `entity` under a fresh identifier drawn from
    /// `0..id_space`, retrying while the drawn identifier collides with a
    /// registered one.  If the handle is already registered, its existing
    /// identifier is returned and nothing changes.
    ///
    /// The full identifier space is used in normal operation (see
    /// [`NetworkIdMap::insert`]); a small `id_space` forces collisions and
    /// retries, which is useful to exercise the rejection sampling.  After
    /// a bounded number of random draws the search falls back to a linear
    /// scan, which must find a free identifier because fewer than
    /// `id_space` are registered.
    pub fn insert_within(&mut self, entity: Entity, id_space: u32) -> (id: NetworkId)
        requires
            old(self).wf(),
            id_space > 0,
            old(self).rev().dom().len() < id_space as nat,
        ensures
            final(self).wf(),
            old(self).fwd().contains_key(entity.0) ==> id.0 == old(self).fwd()[entity.0] && final(self).fwd() == old(self).fwd() && final(self).rev() == old(self).rev(),
            !old(self).fwd().contains_key(entity.0) ==> id.0 < id_space && !old(self).rev().contains_key(id.0) && final(self).fwd() == old(self).fwd().insert(
                entity.0,
                id.0,
            ) && final(self).rev() == old(self).rev().insert(id.0, entity.0),
    {
        if let Some(existing) = self.from_entity(entity) {
            return existing;
        }
        let mut attempts: u32 = 64;
        while attempts > 0
            invariant
                self.wf(),
                self.fwd() == old(self).fwd(),
                self.rev() == old(self).rev(),
                !self.fwd().contains_key(entity.0),
                id_space > 0,
                self.rev().dom().len() < id_space as nat,
            decreases attempts,
        {
            let candidate = random_id_below(id_space);
            if !self.reverse_map.contains_key(&candidate) {
                self.insert_unchecked(entity, NetworkId(candidate));
                return NetworkId(candidate);
            }
            attempts = attempts - 1;
        }
        let mut k: u32 = 0;
        while k < id_space
            invariant
                self.wf(),
                self.fwd() == old(self).fwd(),
                self.rev() == old(self).rev(),
                !self.fwd().contains_key(entity.0),
                k <= id_space,
                self.rev().dom().len() < id_space as nat,
                forall|j: u32| j < k ==> #[trigger] self.rev().contains_key(j),
            decreases id_space - k,
        {
            if !self.reverse_map.contains_key(&k) {
                self.insert_unchecked(entity, NetworkId(k));
                return NetworkId(k);
            }
            k = k + 1;
        }
        proof {
            lemma_ids_below_len(id_space);
            assert forall|x: u32| ids_below(id_space).contains(x) implies self.rev().dom().contains(
                x,
            ) by {
                assert(self.rev().contains_key(x));
            }
            vstd::set_lib::lemma_len_subset(ids_below(id_space), self.rev().dom());
        }
        vstd::pervasive::unreached()
    }

    /// Registers `entity` under a fresh random identifier, or returns the
    /// existing one if the handle is already registered.
    pub fn insert(&mut self, entity: Entity) -> (id: NetworkId)
        requires
            old(self).wf(),
            old(self).rev().dom().len() < u32::MAX as nat,
        ensures
            final(self).wf(),
            old(self).fwd().contains_key(entity.0) ==> id.0 == old(self).fwd()[entity.0] && final(self).fwd() == old(self).fwd() && final(self).rev() == old(self).rev(),
            !old(self).fwd().contains_key(entity.0) ==> id.0 < u32::MAX && !old(
                self,
            ).rev().contains_key(id.0) && final(self).fwd() == old(self).fwd().insert(
                entity.0,
                id.0,
            ) && final(self).rev() == old(self).rev().insert(id.0, entity.0),
    {
        self.insert_within(entity, u32::MAX)
    }

    /// Deregisters both directions for `entity`; removing an unregistered
    /// handle is a no-op.
    pub fn remove(&mut self, entity: Entity)
        requires
            old(self).wf(),
        ensures
            final(self).wf(),
            old(self).fwd().contains_key(entity.0) ==> final(self).fwd() == old(self).fwd().remove(
                entity.0,
            ) && final(self).rev() == old(self).rev().remove(old(self).fwd()[entity.0]),
            !old(self).fwd().contains_key(entity.0) ==> final(self).fwd() == old(self).fwd()
                && final(self).rev() == old(self).rev(),
    {
        let found = match self.map.get(&entity.0) {
            Some(i) => Some(*i),
            None => None,
        };
        match found {
            Some(i) => {
                self.map.remove(&entity.0);
                self.reverse_map.remove(&i);
                proof {
                    let f = old(self).fwd();
                    let r = old(self).rev();
                    assert forall|e: u64| #[trigger] self.fwd().contains_key(e) implies self.rev()
                        .contains_pair(self.fwd()[e], e) by {
                        assert(e != entity.0 && f.contains_key(e) && self.fwd()[e] == f[e]);
                        assert(r.contains_pair(f[e], e));
                        assert(r.contains_pair(i, entity.0));
                        assert(f[e] != i);
                    }
                    assert forall|j: u32| #[trigger] self.rev().contains_key(j) implies self.fwd()
                        .contains_pair(self.rev()[j], j) by {
                        assert(j != i && r.contains_key(j) && self.rev()[j] == r[j]);
                        assert(f.contains_pair(r[j], j));
                        assert(f.contains_pair(entity.0, i));
                        assert(r[j] != entity.0);
                    }
                }
            },
            None => {},
        }
    }

    /// Deregisters both directions for `network_id`; removing an
    /// unregistered identifier is a no-op.
    pub fn remove_network(&mut self, network_id: NetworkId)
        requires
            old(self).wf(),
        ensures
            final(self).wf(),
            old(self).rev().contains_key(network_id.0) ==> final(self).rev() == old(self).rev().remove(network_id.0) && final(self).fwd() == old(self).fwd().remove(
                old(self).rev()[network_id.0],
            ),
            !old(self).rev().contains_key(network_id.0) ==> final(self).fwd() == old(self).fwd()
                && final(self).rev() == old(self).rev(),
    {
        let found = match self.reverse_map.get(&network_id.0) {
            Some(e) => Some(*e),
            None => None,
        };
        match found {
            Some(e) => {
                self.reverse_map.remove(&network_id.0);
                self.map.remove(&e);
                proof {
                    let f = old(self).fwd();
                    let r = old(self).rev();
                    assert forall|e2: u64| #[trigger] self.fwd().contains_key(e2) implies self.rev()
                        .contains_pair(self.fwd()[e2], e2) by {
                        assert(e2 != e && f.contains_key(e2) && self.fwd()[e2] == f[e2]);
                        assert(r.contains_pair(f[e2], e2));
                        assert(r.contains_pair(network_id.0, e));
                        assert(f[e2] != network_id.0);
                    }
                    assert forall|j: u32| #[trigger] self.rev().contains_key(j) implies self.fwd()
                        .contains_pair(self.rev()[j], j) by {
                        assert(j != network_id.0 && r.contains_key(j) && self.rev()[j] == r[j]);
                        assert(f.contains_pair(r[j], j));
                        assert(f.contains_pair(e, network_id.0));
                        assert(r[j] != e);
                    }
                }
            },
            None => {},
        }
    }
}

/// The set of identifiers strictly below `n`.
spec fn ids_below(n: u32) -> Set<u32> {
    Set::new(|x: u32| x < n)
}

proof fn lemma_ids_below_len(n: u32)
    ensures
        ids_below(n).finite(),
        ids_below(n).len() == n,
    decreases n,
{
    if n == 0 {
        assert(ids_below(0) =~= Set::<u32>::empty());
    } else {
        let m = (n - 1) as u32;
        lemma_ids_below_len(m);
        assert(ids_below(n) =~= ids_below(m).insert(m));
        assert(!ids_below(m).contains(m));
    }
}

/// Relies on fastrand::u32: a value drawn uniformly from the given range,
/// here `0..bound`.
#[verifier::external_body]
fn random_id_below(bound: u32) -> (r: u32)
    requires
        bound > 0,
    ensures
        r < bound,
{
    fastrand::u32(0..bound)
}

/// Bijection invariant: at every point, every currently registered pair
/// round-trips — looking up the identifier of a handle and resolving it
/// back yields the same handle, and vice versa — and no handle or
/// identifier appears in more than one pair.
///
/// `wf` holds after [`NetworkIdMap::new`] and is preserved by every
/// operation, so this holds for all call sequences.
pub proof fn lemma_id_map_bijection(m: NetworkIdMap)
    requires
        m.wf(),
    ensures
        forall|e: u64| #[trigger]
            m.fwd().contains_key(e) ==> m.rev().contains_key(m.fwd()[e]) && m.rev()[m.fwd()[e]]
                == e,
        forall|i: u32| #[trigger]
            m.rev().contains_key(i) ==> m.fwd().contains_key(m.rev()[i]) && m.fwd()[m.rev()[i]]
                == i,
        forall|e1: u64, e2: u64|
            m.fwd().contains_key(e1) && m.fwd().contains_key(e2) && e1 != e2 ==> #[trigger] m.fwd()[e1]
                != #[trigger] m.fwd()[e2],
        forall|i1: u32, i2: u32|
            m.rev().contains_key(i1) && m.rev().contains_key(i2) && i1 != i2 ==> #[trigger] m.rev()[i1]
                != #[trigger] m.rev()[i2],
{
    assert forall|e1: u64, e2: u64|
        m.fwd().contains_key(e1) && m.fwd().contains_key(e2) && e1 != e2 implies #[trigger] m.fwd()[e1]
        != #[trigger] m.fwd()[e2] by {
        if m.fwd()[e1] == m.fwd()[e2] {
            assert(m.rev().contains_pair(m.fwd()[e1], e1));
            assert(m.rev().contains_pair(m.fwd()[e2], e2));
        }
    }
    assert forall|i1: u32, i2: u32|
        m.rev().contains_key(i1) && m.rev().contains_key(i2) && i1 != i2 implies #[trigger] m.rev()[i1]
        != #[trigger] m.rev()[i2] by {
        if m.rev()[i1] == m.rev()[i2] {
            assert(m.fwd().contains_pair(m.rev()[i1], i1));
            assert(m.fwd().contains_pair(m.rev()[i2], i2));
        }
    }
}

/// No-collision generation: two distinct registered handles always carry
/// distinct wire identifiers, so registering N distinct handles yields N
/// distinct identifiers no matter how small the identifier space was.
pub proof fn lemma_registered_ids_distinct(m: NetworkIdMap, e1: Entity, e2: Entity)
    requires
        m.wf(),
        m.fwd().contains_key(e1.0),
        m.fwd().contains_key(e2.0),
        e1.0 != e2.0,
    ensures
        m.fwd()[e1.0] != m.fwd()[e2.0],
{
    lemma_id_map_bijection(m);
}

} // verus!

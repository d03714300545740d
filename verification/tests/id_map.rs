use spacegame_core::network_id::{IdInsertError, NetworkId, NetworkIdMap};
use spacegame_core::Entity;

#[test]
fn insert_registers_both_directions() {
    let mut map = NetworkIdMap::new();
    let e = Entity(11);
    let id = map.insert(e);
    assert_eq!(map.from_entity(e), Some(id));
    assert_eq!(map.from_network(id), Some(e));
}

#[test]
fn insert_is_idempotent_per_handle() {
    let mut map = NetworkIdMap::new();
    let e = Entity(3);
    let id1 = map.insert(e);
    let id2 = map.insert(e);
    assert_eq!(id1, id2);
}

#[test]
fn insert_in_small_space_yields_distinct_ids() {
    // Shrink the identifier space to force collisions: the rejection
    // sampling must still hand out eight distinct identifiers.
    let mut map = NetworkIdMap::new();
    let mut ids = Vec::new();
    for h in 0..8u64 {
        let id = map.insert_within(Entity(h), 8);
        assert!(id.0 < 8);
        ids.push(id.0);
    }
    for a in 0..8 {
        for b in 0..8 {
            if a != b {
                assert_ne!(ids[a], ids[b]);
            }
        }
    }
}

#[test]
fn insert_with_id_rejects_duplicate_wire_id() {
    let mut map = NetworkIdMap::new();
    let id = NetworkId(42);
    assert_eq!(map.insert_with_id(Entity(1), id), Ok(()));
    // Same wire id for a different handle: rejected, never overwritten.
    assert_eq!(
        map.insert_with_id(Entity(2), id),
        Err(IdInsertError::IdAlreadyRegistered)
    );
    assert_eq!(map.from_network(id), Some(Entity(1)));
    assert_eq!(map.from_entity(Entity(2)), None);
}

#[test]
fn insert_with_id_rejects_duplicate_handle() {
    let mut map = NetworkIdMap::new();
    assert_eq!(map.insert_with_id(Entity(1), NetworkId(42)), Ok(()));
    assert_eq!(
        map.insert_with_id(Entity(1), NetworkId(43)),
        Err(IdInsertError::EntityAlreadyRegistered)
    );
    assert_eq!(map.from_entity(Entity(1)), Some(NetworkId(42)));
}

#[test]
fn remove_deletes_both_directions() {
    let mut map = NetworkIdMap::new();
    let e = Entity(9);
    let id = map.insert(e);
    map.remove(e);
    assert_eq!(map.from_entity(e), None);
    assert_eq!(map.from_network(id), None);
    // Removing an unregistered handle is a no-op.
    map.remove(Entity(555));
    assert_eq!(map.from_entity(Entity(555)), None);
}

#[test]
fn remove_network_deletes_both_directions() {
    let mut map = NetworkIdMap::new();
    let e = Entity(9);
    let id = map.insert(e);
    map.remove_network(id);
    assert_eq!(map.from_entity(e), None);
    assert_eq!(map.from_network(id), None);
}

#[test]
fn roundtrip_holds_for_every_registered_pair() {
    let mut map = NetworkIdMap::new();
    let mut pairs = Vec::new();
    for h in 0..32u64 {
        let id = map.insert(Entity(h));
        pairs.push((Entity(h), id));
    }
    map.remove(Entity(7));
    map.remove(Entity(19));
    for (e, id) in pairs {
        if e.0 == 7 || e.0 == 19 {
            assert_eq!(map.from_entity(e), None);
            assert_eq!(map.from_network(id), None);
        } else {
            assert_eq!(map.from_entity(e), Some(id));
            assert_eq!(map.from_network(id), Some(e));
        }
    }
}

use spacegame_core::block_map::{BlockMap, BlockMapEntry, BlockPosition, BlockRotation, BlockType};
use spacegame_core::message::{EventMessage, NetworkMessage, RELIABLE_CHANNEL};
use spacegame_core::player::PlayerReadyEvent;
use spacegame_core::player_id::PlayerIdMap;
use spacegame_core::ship::{on_try_enter_ship, on_try_leave_ship, Pilot};
use spacegame_core::Entity;

#[test]
fn block_map_set_get_remove() {
    let mut map = BlockMap::new();
    let pos = BlockPosition::new(1, 2, 3);
    assert_eq!(map.get(&pos), None);
    let old = map.set(Entity(10), BlockType::Hull, pos, BlockRotation(0));
    assert_eq!(old, None);
    assert_eq!(map.block_count, 1);
    assert_eq!(map.get(&pos), Some(Entity(10)));
    assert_eq!(map.get_type(&pos), Some(BlockType::Hull));

    // Replacing an occupied position hands back the old entry and keeps
    // the count.
    let old = map.set(Entity(11), BlockType::Hull, pos, BlockRotation(1));
    assert_eq!(
        old,
        Some(BlockMapEntry {
            block_type: BlockType::Hull,
            block_rotation: BlockRotation(0),
            entity: Entity(10),
        })
    );
    assert_eq!(map.block_count, 1);

    assert_eq!(map.remove(&pos), Some(Entity(11)));
    assert_eq!(map.block_count, 0);
    assert_eq!(map.remove(&pos), None);
    assert_eq!(map.block_count, 0);
}

#[test]
fn block_position_constructors() {
    assert_eq!(BlockPosition::new(4, 4, 4), BlockPosition::splat(4));
    let p = BlockPosition::new(1, -2, 3);
    assert_eq!((p.x, p.y, p.z), (1, -2, 3));
}

#[test]
fn block_map_entries_lists_all_blocks() {
    let mut map = BlockMap::new();
    for i in 0..4 {
        map.set(
            Entity(i as u64),
            BlockType::Hull,
            BlockPosition::new(i, 0, 0),
            BlockRotation(0),
        );
    }
    assert_eq!(map.entries().len(), 4);
}

#[test]
fn pilot_exclusivity() {
    let mut pilot = Pilot::Vacant;
    assert!(on_try_enter_ship(&mut pilot, 1));
    assert_eq!(pilot, Pilot::Pilot(1));
    // A second client cannot take an occupied helm.
    assert!(!on_try_enter_ship(&mut pilot, 2));
    assert_eq!(pilot, Pilot::Pilot(1));
    // Only the holder can leave.
    assert!(!on_try_leave_ship(&mut pilot, 2));
    assert_eq!(pilot, Pilot::Pilot(1));
    assert!(on_try_leave_ship(&mut pilot, 1));
    assert_eq!(pilot, Pilot::Vacant);
    assert!(!on_try_leave_ship(&mut pilot, 1));
}

#[test]
fn player_id_map_two_way() {
    let mut map = PlayerIdMap::new();
    map.insert(7, Entity(100));
    assert_eq!(map.from_client(7), Some(Entity(100)));
    assert_eq!(map.from_entity(Entity(100)), Some(7));
    assert_eq!(map.from_client(8), None);
    assert_eq!(map.from_entity(Entity(101)), None);
}

#[test]
fn player_ready_event_round_trip() {
    let e = PlayerReadyEvent { own_client_it: 0xABCDEF0123456789, players_online_count: -5 };
    let m = e.to_message(16);
    assert_eq!(m.kind, 16);
    let back = PlayerReadyEvent::from_message(&m).unwrap();
    assert_eq!(back, e);
}

#[test]
fn player_ready_event_rejects_wrong_length() {
    let m = EventMessage { kind: 16, fields: vec![], client_id: 0, payload: vec![1, 2, 3] };
    assert_eq!(PlayerReadyEvent::from_message(&m), None);
}

#[test]
fn all_messages_use_the_reliable_channel() {
    let m = EventMessage { kind: 1, fields: vec![], client_id: 0, payload: vec![] };
    assert_eq!(m.channel_id(), RELIABLE_CHANNEL);
}

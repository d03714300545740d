use spacegame_core::network_id::{NetworkId, NetworkIdMap};
use spacegame_core::resolve::{
    entity_to_network, network_to_entity, EntityField, EntityRef, MissingPolicy,
};
use spacegame_core::simulation::Simulation;
use spacegame_core::Entity;

fn field(policy: MissingPolicy, value: EntityRef) -> EntityField {
    EntityField { policy, value }
}

#[test]
fn drop_field_resolves_to_registered_id_outbound() {
    let mut map = NetworkIdMap::new();
    let a = Entity(1);
    let id = map.insert(a);
    let mut fields = vec![field(MissingPolicy::Drop, EntityRef::Local { entity: a })];
    assert!(entity_to_network(&mut fields, &mut map));
    assert_eq!(fields[0].value, EntityRef::Wire { id });
}

#[test]
fn drop_field_unregistered_aborts_send() {
    let mut map = NetworkIdMap::new();
    let mut fields = vec![field(MissingPolicy::Drop, EntityRef::Local { entity: Entity(1) })];
    assert!(!entity_to_network(&mut fields, &mut map));
    // Nothing was registered on the way out.
    assert_eq!(map.from_entity(Entity(1)), None);
}

#[test]
fn drop_round_trip_resolves_to_preexisting_handle() {
    // Sender side: local handle a carries wire id.
    let mut sender = NetworkIdMap::new();
    let a = Entity(10);
    let id = sender.insert(a);
    let mut fields = vec![field(MissingPolicy::Drop, EntityRef::Local { entity: a })];
    assert!(entity_to_network(&mut fields, &mut sender));

    // Receiver side knows that wire id under its own handle b.
    let mut receiver = NetworkIdMap::new();
    let b = Entity(77);
    receiver.insert_with_id(b, id).unwrap();
    let mut sim = Simulation::new();
    assert!(network_to_entity(&mut fields, &mut receiver, &mut sim));
    assert_eq!(fields[0].value, EntityRef::Local { entity: b });
}

#[test]
fn drop_round_trip_unknown_id_drops_message() {
    let mut receiver = NetworkIdMap::new();
    let mut sim = Simulation::new();
    let mut fields = vec![field(MissingPolicy::Drop, EntityRef::Wire { id: NetworkId(42) })];
    assert!(!network_to_entity(&mut fields, &mut receiver, &mut sim));
    // Never an arbitrary handle: the message is dropped instead.
    assert_eq!(receiver.from_network(NetworkId(42)), None);
}

#[test]
fn create_is_idempotent_across_receipts() {
    let mut map = NetworkIdMap::new();
    let mut sim = Simulation::new();
    let id = NetworkId(7);

    let mut first = vec![field(MissingPolicy::Create, EntityRef::Wire { id })];
    assert!(network_to_entity(&mut first, &mut map, &mut sim));
    let created = match first[0].value {
        EntityRef::Local { entity } => entity,
        _ => panic!("create field must resolve to a local handle"),
    };
    // The created object is tagged with the incoming wire id.
    assert_eq!(sim.tag_of(created), Some(id));

    let mut second = vec![field(MissingPolicy::Create, EntityRef::Wire { id })];
    assert!(network_to_entity(&mut second, &mut map, &mut sim));
    // Second receipt resolves to the already-created handle.
    assert_eq!(second[0].value, EntityRef::Local { entity: created });
    // No second object: the next spawned handle is still the second one.
    let next = sim.spawn();
    assert_eq!(next, Entity(created.0 + 1));
}

#[test]
fn failed_drop_shields_create() {
    let mut map = NetworkIdMap::new();
    let mut sim = Simulation::new();
    let mut fields = vec![
        field(MissingPolicy::Drop, EntityRef::Wire { id: NetworkId(99) }),
        field(MissingPolicy::Create, EntityRef::Wire { id: NetworkId(7) }),
    ];
    assert!(!network_to_entity(&mut fields, &mut map, &mut sim));
    // The unresolvable Drop field short-circuited: no object was created
    // for the Create field.
    assert_eq!(map.from_network(NetworkId(7)), None);
    assert_eq!(sim.spawn(), Entity(0));
}

#[test]
fn ignore_field_never_blocks() {
    let mut map = NetworkIdMap::new();
    let mut sim = Simulation::new();
    let known = Entity(5);
    let mut m2 = NetworkIdMap::new();
    let id = m2.insert(known);
    map.insert_with_id(known, id).unwrap();
    let mut fields = vec![
        field(MissingPolicy::Ignore, EntityRef::Wire { id }),
        field(MissingPolicy::Ignore, EntityRef::Wire { id: NetworkId(id.0.wrapping_add(1)) }),
        field(MissingPolicy::Ignore, EntityRef::Empty),
    ];
    assert!(network_to_entity(&mut fields, &mut map, &mut sim));
    assert_eq!(fields[0].value, EntityRef::Local { entity: known });
    assert_eq!(fields[1].value, EntityRef::Empty);
    assert_eq!(fields[2].value, EntityRef::Empty);
}

#[test]
fn create_outbound_generates_fresh_id() {
    let mut map = NetworkIdMap::new();
    let a = Entity(1);
    let occupied = map.insert(Entity(2));
    let mut fields = vec![field(MissingPolicy::Create, EntityRef::Local { entity: a })];
    assert!(entity_to_network(&mut fields, &mut map));
    match fields[0].value {
        EntityRef::Wire { id } => {
            assert_ne!(id, occupied);
            assert_eq!(map.from_entity(a), Some(id));
            assert_eq!(map.from_network(id), Some(a));
        }
        _ => panic!("create field must resolve to a wire id"),
    }
}

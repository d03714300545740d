use spacegame_core::client::ClientNetworkPlugin;
use spacegame_core::message::{
    decode_event, decode_packet, encode_event, encode_packet, Destination, EventMessage,
    ProtocolError, UntypedPacket,
};
use spacegame_core::network_id::NetworkId;
use spacegame_core::resolve::{EntityField, EntityRef, MissingPolicy};
use spacegame_core::server::ServerNetworkPlugin;
use spacegame_core::simulation::Simulation;
use spacegame_core::{
    Direction, Entity, Kind, QueueError, RegistrationError, TypeRegistration,
};

fn registration(kind: Kind, direction: Direction, policies: Vec<MissingPolicy>) -> TypeRegistration {
    TypeRegistration { kind, channel_id: 0, direction, policies, has_client_id: false }
}

fn message(kind: Kind, fields: Vec<EntityField>, payload: Vec<u8>) -> EventMessage {
    EventMessage { kind, fields, client_id: 0, payload }
}

fn drop_local(e: Entity) -> EntityField {
    EntityField { policy: MissingPolicy::Drop, value: EntityRef::Local { entity: e } }
}

fn create_local(e: Entity) -> EntityField {
    EntityField { policy: MissingPolicy::Create, value: EntityRef::Local { entity: e } }
}

#[test]
fn registration_rejects_duplicate_kind() {
    let mut server = ServerNetworkPlugin::new();
    assert_eq!(
        server.add_network_event(registration(5, Direction::Clientbound, vec![])),
        Ok(())
    );
    assert_eq!(
        server.add_network_event(registration(5, Direction::Serverbound, vec![])),
        Err(RegistrationError::DuplicateKind)
    );
}

#[test]
fn send_checks_kind_direction_and_shape() {
    let mut server = ServerNetworkPlugin::new();
    server
        .add_network_event(registration(5, Direction::Serverbound, vec![]))
        .unwrap();
    // Unknown kind.
    assert_eq!(
        server.broadcast(9, message(9, vec![], vec![])),
        Err(QueueError::UnknownKind)
    );
    // A serverbound type has no outbound path on the server.
    assert_eq!(
        server.broadcast(5, message(5, vec![], vec![])),
        Err(QueueError::WrongDirection)
    );
    let mut server2 = ServerNetworkPlugin::new();
    server2
        .add_network_event(registration(5, Direction::Clientbound, vec![MissingPolicy::Drop]))
        .unwrap();
    // Field count must match the declared policies.
    assert_eq!(
        server2.broadcast(5, message(5, vec![], vec![])),
        Err(QueueError::InvalidMessage)
    );
    assert_eq!(
        server2.broadcast(5, message(5, vec![drop_local(Entity(1))], vec![])),
        Ok(())
    );
}

#[test]
fn envelope_round_trip() {
    let p = UntypedPacket { kind: 0x1234, data: vec![9, 8, 7] };
    let bytes = encode_packet(&p);
    let q = decode_packet(&bytes).unwrap();
    assert_eq!(q.kind, 0x1234);
    assert_eq!(q.data, vec![9, 8, 7]);
}

#[test]
fn envelope_too_short_is_fatal() {
    assert!(matches!(
        decode_packet(&vec![1]),
        Err(ProtocolError::MalformedEnvelope)
    ));
}

#[test]
fn event_body_round_trip() {
    let policies = vec![MissingPolicy::Drop, MissingPolicy::Ignore, MissingPolicy::Ignore];
    let m = EventMessage {
        kind: 3,
        fields: vec![
            EntityField { policy: MissingPolicy::Drop, value: EntityRef::Wire { id: NetworkId(7) } },
            EntityField {
                policy: MissingPolicy::Ignore,
                value: EntityRef::Wire { id: NetworkId(0xDEADBEEF) },
            },
            EntityField { policy: MissingPolicy::Ignore, value: EntityRef::Empty },
        ],
        client_id: 0x1122334455667788,
        payload: vec![1, 2, 3, 4],
    };
    let bytes = encode_event(&m);
    let d = decode_event(&policies, 3, &bytes).unwrap();
    assert_eq!(d.kind, 3);
    assert_eq!(d.fields.len(), 3);
    assert_eq!(d.fields[0].value, EntityRef::Wire { id: NetworkId(7) });
    assert_eq!(
        d.fields[1].value,
        EntityRef::Wire { id: NetworkId(0xDEADBEEF) }
    );
    assert_eq!(d.fields[2].value, EntityRef::Empty);
    assert_eq!(d.client_id, 0x1122334455667788);
    assert_eq!(d.payload, vec![1, 2, 3, 4]);
}

#[test]
fn event_body_rejects_bad_tag_and_short_input() {
    let policies = vec![MissingPolicy::Drop];
    assert!(matches!(
        decode_event(&policies, 3, &vec![0, 0, 0]),
        Err(ProtocolError::MalformedMessage)
    ));
    // Tag 2 is not a valid presence tag.
    let mut bytes = vec![2, 0, 0, 0, 0];
    bytes.extend(vec![0u8; 8]);
    assert!(matches!(
        decode_event(&policies, 3, &bytes),
        Err(ProtocolError::MalformedMessage)
    ));
    // An absent marker is only allowed for Ignore-policy fields.
    let mut bytes = vec![0, 0, 0, 0, 0];
    bytes.extend(vec![0u8; 8]);
    assert!(matches!(
        decode_event(&policies, 3, &bytes),
        Err(ProtocolError::MalformedMessage)
    ));
}

/// Server has object A with wire id 42; the client mirrors it.  A
/// Drop-policy message from the client resolves on the server to its own
/// handle for A.  Without the mirror mapping, the client-side outbound
/// resolution fails and nothing is sent at all.
#[test]
fn scenario_drop_message_client_to_server() {
    let kind: Kind = 21;
    let reg = || registration(kind, Direction::Serverbound, vec![MissingPolicy::Drop]);

    let mut server = ServerNetworkPlugin::new();
    server.add_network_event(reg()).unwrap();
    let a_server = Entity(1000);
    server.network_ids.insert_with_id(a_server, NetworkId(42)).unwrap();

    let mut client = ClientNetworkPlugin::new(77);
    client.add_network_event(reg()).unwrap();
    let a_mirror = Entity(5);
    client.network_ids.insert_with_id(a_mirror, NetworkId(42)).unwrap();

    client.send(kind, message(kind, vec![drop_local(a_mirror)], vec![])).unwrap();
    let packets = client.before_send_typed(kind).unwrap();
    assert_eq!(packets.len(), 1);

    let raws: Vec<Vec<u8>> = packets.into_iter().map(|p| p.bytes).collect();
    server.receive_untyped(&raws).unwrap();
    let mut sim = Simulation::new();
    let published = server.after_receive_typed(kind, &mut sim).unwrap();
    assert_eq!(published.len(), 1);
    assert_eq!(
        published[0].fields[0].value,
        EntityRef::Local { entity: a_server }
    );

    // Client without a mirror for A: the send itself is aborted.
    let mut lonely = ClientNetworkPlugin::new(78);
    lonely.add_network_event(reg()).unwrap();
    lonely.send(kind, message(kind, vec![drop_local(Entity(5))], vec![])).unwrap();
    let packets = lonely.before_send_typed(kind).unwrap();
    assert_eq!(packets.len(), 0);
}

/// Server broadcasts a Create-policy spawn message with wire id 7; two
/// clients receive it, each ends up with one local object tagged 7, and
/// a duplicated delivery creates no second object.
#[test]
fn scenario_create_broadcast_two_clients() {
    let kind: Kind = 8;
    let server_reg = registration(kind, Direction::Clientbound, vec![MissingPolicy::Create]);
    let client_reg = || registration(kind, Direction::Clientbound, vec![MissingPolicy::Create]);

    let mut server = ServerNetworkPlugin::new();
    server.add_network_event(server_reg).unwrap();
    let player = Entity(1);
    server.network_ids.insert_with_id(player, NetworkId(7)).unwrap();
    server
        .broadcast(kind, message(kind, vec![create_local(player)], vec![]))
        .unwrap();
    let packets = server.before_send_typed(kind).unwrap();
    assert_eq!(packets.len(), 1);
    assert!(matches!(packets[0].destination, Destination::Broadcast));
    let bytes = packets[0].bytes.clone();

    for client_no in 0..2u64 {
        let mut client = ClientNetworkPlugin::new(client_no);
        client.add_network_event(client_reg()).unwrap();
        let mut sim = Simulation::new();

        client.receive_untyped(&vec![bytes.clone()]).unwrap();
        let published = client.after_receive_typed(kind, &mut sim).unwrap();
        assert_eq!(published.len(), 1);
        let local = match published[0].fields[0].value {
            EntityRef::Local { entity } => entity,
            _ => panic!("create field must resolve locally"),
        };
        assert_eq!(sim.tag_of(local), Some(NetworkId(7)));
        assert_eq!(client.network_ids.from_network(NetworkId(7)), Some(local));

        // The same packet delivered a second time resolves to the same
        // object instead of creating another.
        client.receive_untyped(&vec![bytes.clone()]).unwrap();
        let republished = client.after_receive_typed(kind, &mut sim).unwrap();
        assert_eq!(republished.len(), 1);
        assert_eq!(
            republished[0].fields[0].value,
            EntityRef::Local { entity: local }
        );
        assert_eq!(sim.spawn(), Entity(local.0 + 1));
    }
}

/// A message queued with destination "broadcast except client 3" leaves
/// the drain as exactly one packet, serialized once, whose destination
/// descriptor excludes connection 3; the transport fans it out.
#[test]
fn scenario_broadcast_except_serialized_once() {
    let kind: Kind = 2;
    let mut server = ServerNetworkPlugin::new();
    server
        .add_network_event(registration(kind, Direction::Clientbound, vec![]))
        .unwrap();
    server
        .broadcast_except(kind, 3, message(kind, vec![], vec![0xAB]))
        .unwrap();
    let packets = server.before_send_typed(kind).unwrap();
    assert_eq!(packets.len(), 1);
    assert!(matches!(packets[0].destination, Destination::Except(3)));
    // The payload decodes back out of the one serialized packet.
    let p = decode_packet(&packets[0].bytes).unwrap();
    assert_eq!(p.kind, kind);
    let m = decode_event(&vec![], kind, &p.data).unwrap();
    assert_eq!(m.payload, vec![0xAB]);
}

#[test]
fn unknown_kind_on_receive_is_fatal() {
    let mut server = ServerNetworkPlugin::new();
    server
        .add_network_event(registration(1, Direction::Serverbound, vec![]))
        .unwrap();
    let packet = encode_packet(&UntypedPacket { kind: 999, data: vec![] });
    assert_eq!(
        server.receive_untyped(&vec![packet]),
        Err(ProtocolError::UnknownKind)
    );
}

#[test]
fn sender_field_is_stamped_by_the_client() {
    let kind: Kind = 4;
    let mut client = ClientNetworkPlugin::new(0x55);
    let mut reg = registration(kind, Direction::Serverbound, vec![]);
    reg.has_client_id = true;
    client.add_network_event(reg).unwrap();
    // Application code writes a bogus sender; the drain overwrites it.
    let mut m = message(kind, vec![], vec![]);
    m.client_id = 9999;
    client.send(kind, m).unwrap();
    let packets = client.before_send_typed(kind).unwrap();
    assert_eq!(packets.len(), 1);
    let p = decode_packet(&packets[0].bytes).unwrap();
    let d = decode_event(&vec![], kind, &p.data).unwrap();
    assert_eq!(d.client_id, 0x55);
}

/// With one resolvable and one unresolvable message queued, the drain
/// sends exactly the resolvable one and registers nothing for the other.
#[test]
fn drain_sends_exactly_the_resolvable_messages() {
    let kind: Kind = 30;
    let mut server = ServerNetworkPlugin::new();
    server
        .add_network_event(registration(kind, Direction::Clientbound, vec![MissingPolicy::Drop]))
        .unwrap();
    let known = Entity(1);
    server.network_ids.insert_with_id(known, NetworkId(9)).unwrap();
    server.send(kind, 5, message(kind, vec![drop_local(known)], vec![])).unwrap();
    server
        .broadcast(kind, message(kind, vec![drop_local(Entity(999))], vec![]))
        .unwrap();
    let packets = server.before_send_typed(kind).unwrap();
    assert_eq!(packets.len(), 1);
    assert!(matches!(packets[0].destination, Destination::Client(5)));
    // The dropped message registered nothing.
    assert_eq!(server.network_ids.from_entity(Entity(999)), None);
}

/// A Create-policy message earlier in the queue registers its handle, so
/// a later Drop-policy reference to the same handle resolves within the
/// same drain.
#[test]
fn earlier_create_makes_later_drop_resolvable() {
    let kind_c: Kind = 31;
    let kind_d: Kind = 32;
    let mut server = ServerNetworkPlugin::new();
    server
        .add_network_event(registration(kind_c, Direction::Clientbound, vec![MissingPolicy::Create]))
        .unwrap();
    server
        .add_network_event(registration(kind_d, Direction::Clientbound, vec![MissingPolicy::Drop]))
        .unwrap();
    let e = Entity(4);
    server.broadcast(kind_c, message(kind_c, vec![create_local(e)], vec![])).unwrap();
    server.broadcast(kind_d, message(kind_d, vec![drop_local(e)], vec![])).unwrap();
    // Draining the Create kind first registers the handle...
    let created = server.before_send_typed(kind_c).unwrap();
    assert_eq!(created.len(), 1);
    let id = server.network_ids.from_entity(e).unwrap();
    // ...so the Drop-policy reference now resolves and carries that id.
    let dropped = server.before_send_typed(kind_d).unwrap();
    assert_eq!(dropped.len(), 1);
    let p = decode_packet(&dropped[0].bytes).unwrap();
    let m = decode_event(&vec![MissingPolicy::Drop], kind_d, &p.data).unwrap();
    assert_eq!(m.fields[0].value, EntityRef::Wire { id });
}

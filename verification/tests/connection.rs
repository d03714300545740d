use spacegame_core::client::ClientNetworkPlugin;
use spacegame_core::message::Destination;
use spacegame_core::player::PlayerReadyEvent;
use spacegame_core::player_id::PlayerIdMap;
use spacegame_core::resolve::{EntityRef, MissingPolicy};
use spacegame_core::server::ServerNetworkPlugin;
use spacegame_core::simulation::Simulation;
use spacegame_core::{Direction, Entity, Kind, TypeRegistration};

const SPAWN: Kind = 1;
const DESPAWN: Kind = 2;
const READY: Kind = 3;

fn registration(kind: Kind, policies: Vec<MissingPolicy>) -> TypeRegistration {
    TypeRegistration {
        kind,
        channel_id: 0,
        direction: Direction::Clientbound,
        policies,
        has_client_id: false,
    }
}

fn register_all_server(server: &mut ServerNetworkPlugin) {
    server.add_network_event(registration(SPAWN, vec![MissingPolicy::Create])).unwrap();
    server.add_network_event(registration(DESPAWN, vec![MissingPolicy::Drop])).unwrap();
    server.add_network_event(registration(READY, vec![])).unwrap();
}

fn register_all_client(client: &mut ClientNetworkPlugin) {
    client.add_network_event(registration(SPAWN, vec![MissingPolicy::Create])).unwrap();
    client.add_network_event(registration(DESPAWN, vec![MissingPolicy::Drop])).unwrap();
    client.add_network_event(registration(READY, vec![])).unwrap();
}

#[test]
fn join_protocol_catches_up_and_announces() {
    let mut server = ServerNetworkPlugin::new();
    register_all_server(&mut server);
    let mut player_ids = PlayerIdMap::new();
    let mut sim = Simulation::new();

    // First client joins an empty world.
    let p1 = server.handle_client_connected(&mut player_ids, &mut sim, &vec![], 10, SPAWN, READY);
    assert_eq!(player_ids.from_client(10), Some(p1));
    assert_eq!(sim.tag_of(p1), server.network_ids.from_entity(p1));

    // Second client joins; the roster holds the first player.
    let roster = vec![(p1, 10u64)];
    let p2 =
        server.handle_client_connected(&mut player_ids, &mut sim, &roster, 20, SPAWN, READY);
    assert_ne!(p1, p2);

    // Drain the spawn queue: for the second join there is one catch-up
    // message to client 20 and one announcement to everyone but 20,
    // besides the first join's single announcement.
    let packets = server.before_send_typed(SPAWN).unwrap();
    assert_eq!(packets.len(), 3);
    assert!(matches!(packets[0].destination, Destination::Except(10)));
    assert!(matches!(packets[1].destination, Destination::Client(20)));
    assert!(matches!(packets[2].destination, Destination::Except(20)));

    // The ready queue holds one message per join, addressed privately.
    let ready_packets = server.before_send_typed(READY).unwrap();
    assert_eq!(ready_packets.len(), 2);
    assert!(matches!(ready_packets[0].destination, Destination::Client(10)));
    assert!(matches!(ready_packets[1].destination, Destination::Client(20)));

    // Client 20 consumes its catch-up message and ends with a local
    // mirror of the first player, tagged with the same wire identifier
    // the server registered for it.
    let mut client = ClientNetworkPlugin::new(20);
    register_all_client(&mut client);
    let mut client_sim = Simulation::new();
    client.receive_untyped(&vec![packets[1].bytes.clone()]).unwrap();
    let published = client.after_receive_typed(SPAWN, &mut client_sim).unwrap();
    assert_eq!(published.len(), 1);
    let mirror = match published[0].fields[0].value {
        EntityRef::Local { entity } => entity,
        _ => panic!("create field must resolve locally"),
    };
    assert_eq!(client_sim.tag_of(mirror), server.network_ids.from_entity(p1));

    // And its ready message names it and counts the one prior player.
    client.receive_untyped(&vec![ready_packets[1].bytes.clone()]).unwrap();
    let ready = client.after_receive_typed(READY, &mut client_sim).unwrap();
    assert_eq!(ready.len(), 1);
    let ready = PlayerReadyEvent::from_message(&ready[0]).unwrap();
    assert_eq!(ready.own_client_it, 20);
    assert_eq!(ready.players_online_count, 1);
}

#[test]
fn leave_protocol_broadcasts_despawn() {
    let mut server = ServerNetworkPlugin::new();
    register_all_server(&mut server);
    let mut player_ids = PlayerIdMap::new();
    let mut sim = Simulation::new();
    let p1 = server.handle_client_connected(&mut player_ids, &mut sim, &vec![], 10, SPAWN, READY);
    let wire = server.network_ids.from_entity(p1).unwrap();
    // Flush the join traffic out of the way.
    server.before_send_typed(SPAWN).unwrap();
    server.before_send_typed(READY).unwrap();

    let left = server.handle_client_disconnected(&player_ids, &mut sim, 10, DESPAWN);
    assert_eq!(left, Some(p1));
    assert_eq!(sim.tag_of(p1), None);
    // The registration outlives the object until the notification has
    // been drained, so the Drop-policy field still resolves.
    assert_eq!(server.network_ids.from_entity(p1), Some(wire));

    let packets = server.before_send_typed(DESPAWN).unwrap();
    assert_eq!(packets.len(), 1);
    assert!(matches!(packets[0].destination, Destination::Broadcast));

    // Only now does the server deregister the departed player's handle.
    server.network_ids.remove(p1);
    assert_eq!(server.network_ids.from_network(wire), None);

    // A client that mirrored the player resolves the despawn to its own
    // handle and deregisters it in turn.
    let mut client = ClientNetworkPlugin::new(20);
    register_all_client(&mut client);
    let mut client_sim = Simulation::new();
    let mirror = Entity(500);
    client.network_ids.insert_with_id(mirror, wire).unwrap();
    client.receive_untyped(&vec![packets[0].bytes.clone()]).unwrap();
    let published = client.after_receive_typed(DESPAWN, &mut client_sim).unwrap();
    assert_eq!(published.len(), 1);
    assert_eq!(published[0].fields[0].value, EntityRef::Local { entity: mirror });
    client.network_ids.remove(mirror);
    assert_eq!(client.network_ids.from_network(wire), None);

    // An unknown client's disconnect is not in the map.
    let none = server.handle_client_disconnected(&player_ids, &mut sim, 99, DESPAWN);
    assert_eq!(none, None);
}

#[test]
fn receive_untyped_classifies_by_kind() {
    let mut server = ServerNetworkPlugin::new();
    let mk = |kind: Kind| TypeRegistration {
        kind,
        channel_id: 0,
        direction: Direction::Serverbound,
        policies: vec![],
        has_client_id: false,
    };
    server.add_network_event(mk(1)).unwrap();
    server.add_network_event(mk(2)).unwrap();

    let mut client = ClientNetworkPlugin::new(5);
    client.add_network_event(TypeRegistration {
        kind: 1,
        channel_id: 0,
        direction: Direction::Serverbound,
        policies: vec![],
        has_client_id: false,
    }).unwrap();
    client.add_network_event(TypeRegistration {
        kind: 2,
        channel_id: 0,
        direction: Direction::Serverbound,
        policies: vec![],
        has_client_id: false,
    }).unwrap();
    let m = |kind: Kind, b: u8| spacegame_core::message::EventMessage {
        kind,
        fields: vec![],
        client_id: 0,
        payload: vec![b],
    };
    client.send(1, m(1, 0xA)).unwrap();
    client.send(2, m(2, 0xB)).unwrap();
    client.send(1, m(1, 0xC)).unwrap();
    let mut raws = Vec::new();
    for p in client.before_send_typed(1).unwrap() {
        raws.push(p.bytes);
    }
    for p in client.before_send_typed(2).unwrap() {
        raws.push(p.bytes);
    }
    server.receive_untyped(&raws).unwrap();
    let mut sim = Simulation::new();
    let k1 = server.after_receive_typed(1, &mut sim).unwrap();
    let k2 = server.after_receive_typed(2, &mut sim).unwrap();
    assert_eq!(k1.len(), 2);
    assert_eq!(k1[0].payload, vec![0xA]);
    assert_eq!(k1[1].payload, vec![0xC]);
    assert_eq!(k2.len(), 1);
    assert_eq!(k2[0].payload, vec![0xB]);
}

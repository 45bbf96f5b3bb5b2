use nt::callback::{CallbackType, ConnectionCallbackType};
use nt::client::{ClientAction, ClientState, ConnectionState};
use nt::entry::EntryData;
use nt::error::Error;
use nt::packets::{
    ClearAllEntries, ClientHello, EntryAssignment, EntryDelete, EntryFlagsUpdate, EntryUpdate,
    NTVersion, ProtocolVersionUnsupported, ReceivedPacket, RpcExecute, RpcResponse, ServerHello,
};
use nt::server::{ClientPhase, ServerAction, ServerState};
use nt::types::{EntryType, EntryValue, RpcDefinition};

fn double(v: f64) -> EntryValue {
    EntryValue::Double(v.to_bits())
}

fn assignment(name: &str, id: u16, seqnum: u16, flags: u8, value: EntryValue) -> ReceivedPacket {
    ReceivedPacket::EntryAssignment(EntryAssignment::new(
        name.to_string(),
        value.entry_type(),
        id,
        seqnum,
        flags,
        value,
    ))
}

fn connected_client() -> ClientState {
    let mut client = ClientState::new("c1".to_string());
    client.connect();
    client.transport_opened();
    client.handle_packet(ReceivedPacket::ServerHello(ServerHello::new(
        0,
        "srv".to_string(),
    )));
    client.handle_packet(ReceivedPacket::ServerHelloComplete);
    assert!(client.connected());
    client
}

fn server_with_entries() -> ServerState {
    let mut server = ServerState::new("srv".to_string());
    for (i, name) in ["/a", "/b", "/c", "/d"].iter().enumerate() {
        let (id, actions) = server
            .create_entry(EntryData::new(
                name.to_string(),
                0,
                EntryValue::Boolean(true),
            ))
            .unwrap();
        assert_eq!(id, i as u16);
        assert_eq!(actions.len(), 1);
    }
    assert_eq!(server.delete_entry(0).len(), 1);
    server
}

fn join(server: &mut ServerState, conn: u64) -> Vec<ServerAction> {
    assert!(server.accept(conn));
    let mut actions = server.handle_packet(
        conn,
        ReceivedPacket::ClientHello(ClientHello::new(NTVersion::V3, format!("c{}", conn))),
    );
    actions.extend(server.handle_packet(conn, ReceivedPacket::ClientHelloComplete));
    assert_eq!(server.phase(conn), Some(ClientPhase::Connected));
    actions
}

#[test]
fn the_client_opens_and_says_hello() {
    let mut client = ClientState::new("c1".to_string());
    assert_eq!(client.state(), ConnectionState::Idle);
    assert_eq!(
        client.connect(),
        vec![
            ClientAction::OpenTransport,
            ClientAction::Send(ReceivedPacket::ClientHello(ClientHello::new(
                NTVersion::V3,
                "c1".to_string()
            ))),
        ]
    );
    assert_eq!(client.state(), ConnectionState::Connecting);
    assert_eq!(client.connect(), vec![]);
    client.transport_opened();
    assert_eq!(client.state(), ConnectionState::AwaitServerHello);
    assert_eq!(client.keep_alive(), vec![]);
}

#[test]
fn the_client_fails_on_an_unsupported_version() {
    let mut client = ClientState::new("c1".to_string());
    client.connect();
    assert_eq!(
        client.handle_packet(ReceivedPacket::ProtocolVersionUnsupported(
            ProtocolVersionUnsupported::new(NTVersion::V3)
        )),
        vec![
            ClientAction::Fail(Error::UnsupportedVersion { supported: 0x0300 }),
            ClientAction::Close,
        ]
    );
    assert_eq!(client.state(), ConnectionState::Closed);
    assert_eq!(
        client.handle_packet(ReceivedPacket::ServerHello(ServerHello::new(
            0,
            "srv".to_string()
        ))),
        vec![]
    );
    assert_eq!(client.state(), ConnectionState::Closed);
}

#[test]
fn the_client_takes_in_the_entries_of_the_server() {
    let mut client = ClientState::new("c1".to_string());
    client.connect();
    assert_eq!(
        client.handle_packet(ReceivedPacket::ServerHello(ServerHello::new(
            0,
            "srv".to_string()
        ))),
        vec![]
    );
    assert_eq!(client.state(), ConnectionState::ReceivingAssignments);
    let actions = client.handle_packet(assignment("/a", 1, 1, 0, EntryValue::Boolean(true)));
    assert_eq!(
        actions,
        vec![ClientAction::Notify(
            CallbackType::Add,
            1,
            EntryData::new("/a".to_string(), 0, EntryValue::Boolean(true))
        )]
    );
    client.handle_packet(assignment("/b", 2, 5, 1, double(2.0)));
    assert_eq!(
        client.handle_packet(ReceivedPacket::EntryDelete(EntryDelete::new(1))),
        vec![]
    );
    assert_eq!(
        client.handle_packet(ReceivedPacket::ServerHelloComplete),
        vec![
            ClientAction::Send(ReceivedPacket::ClientHelloComplete),
            ClientAction::StartKeepAlive,
            ClientAction::NotifyConnection(ConnectionCallbackType::ClientConnected),
        ]
    );
    assert_eq!(client.state(), ConnectionState::Connected);
    let entries = client.entries();
    assert_eq!(entries.len(), 2);
    assert_eq!(entries[1].id, 2);
    assert_eq!(entries[1].data.seqnum, 5);
    assert_eq!(
        client.keep_alive(),
        vec![ClientAction::Send(ReceivedPacket::KeepAlive)]
    );
}

#[test]
fn the_handshake_leaves_client_and_server_with_the_same_entries() {
    let mut server = server_with_entries();
    let mut client = ClientState::new("c1".to_string());
    assert!(server.accept(1));
    let mut to_server = Vec::new();
    for action in client.connect() {
        if let ClientAction::Send(packet) = action {
            to_server.push(packet);
        }
    }
    assert_eq!(
        to_server,
        vec![ReceivedPacket::ClientHello(ClientHello::new(
            NTVersion::V3,
            "c1".to_string()
        ))]
    );
    let mut to_client = Vec::new();
    for packet in to_server {
        for action in server.handle_packet(1, packet) {
            match action {
                ServerAction::Send(1, packet) => to_client.push(packet),
                other => panic!("{:?}", other),
            }
        }
    }
    assert_eq!(
        to_client,
        vec![
            ReceivedPacket::ServerHello(ServerHello::new(0, "srv".to_string())),
            assignment("/b", 1, 1, 0, EntryValue::Boolean(true)),
            assignment("/c", 2, 1, 0, EntryValue::Boolean(true)),
            assignment("/d", 3, 1, 0, EntryValue::Boolean(true)),
            ReceivedPacket::ServerHelloComplete,
        ]
    );
    assert_eq!(
        server.phase(1),
        Some(ClientPhase::AwaitClientHelloComplete)
    );
    let mut back = Vec::new();
    for packet in to_client {
        for action in client.handle_packet(packet) {
            if let ClientAction::Send(packet) = action {
                back.push(packet);
            }
        }
    }
    assert_eq!(back, vec![ReceivedPacket::ClientHelloComplete]);
    assert_eq!(
        server.handle_packet(1, ReceivedPacket::ClientHelloComplete),
        vec![ServerAction::NotifyConnection(
            ConnectionCallbackType::ClientConnected,
            1
        )]
    );
    assert_eq!(server.phase(1), Some(ClientPhase::Connected));
    assert_eq!(client.entries().len(), 3);
    let ours: Vec<(u16, EntryData)> = client
        .entries()
        .into_iter()
        .map(|slot| (slot.id, slot.data))
        .collect();
    let theirs: Vec<(u16, EntryData)> = server
        .entries()
        .into_iter()
        .map(|slot| (slot.id, slot.data))
        .collect();
    assert_eq!(ours, theirs);
}

#[test]
fn the_server_refuses_another_revision() {
    let mut server = ServerState::new("srv".to_string());
    assert!(server.accept(1));
    assert!(!server.accept(1));
    assert_eq!(server.phase(1), Some(ClientPhase::AwaitClientHello));
    assert_eq!(server.phase(2), None);
    let actions = server.handle_packet(
        1,
        ReceivedPacket::ClientHello(ClientHello {
            version: NTVersion::V2,
            name: "old".to_string(),
        }),
    );
    assert_eq!(
        actions,
        vec![
            ServerAction::Send(
                1,
                ReceivedPacket::ProtocolVersionUnsupported(ProtocolVersionUnsupported {
                    supported_version: 0x0300
                })
            ),
            ServerAction::Close(1),
        ]
    );
    assert_eq!(server.phase(1), Some(ClientPhase::Closed));
    assert_eq!(
        server.handle_packet(
            1,
            ReceivedPacket::ClientHello(ClientHello::new(NTVersion::V3, "c".to_string()))
        ),
        vec![]
    );
}

#[test]
fn the_server_hears_only_the_hello_before_the_hello() {
    let mut server = server_with_entries();
    assert!(server.accept(1));
    assert_eq!(
        server.handle_packet(1, ReceivedPacket::EntryDelete(EntryDelete::new(1))),
        vec![]
    );
    assert_eq!(
        server.handle_packet(1, assignment("/x", 0xFFFF, 1, 0, double(1.0))),
        vec![]
    );
    assert_eq!(
        server.handle_packet(1, ReceivedPacket::ClientHelloComplete),
        vec![]
    );
    assert_eq!(server.entries().len(), 3);
    assert_eq!(server.phase(1), Some(ClientPhase::AwaitClientHello));
    assert_eq!(
        server.handle_packet(9, ReceivedPacket::EntryDelete(EntryDelete::new(1))),
        vec![]
    );
}

#[test]
fn between_the_entries_and_the_answer_only_creations_are_heard() {
    let mut server = server_with_entries();
    assert!(server.accept(1));
    server.handle_packet(
        1,
        ReceivedPacket::ClientHello(ClientHello::new(NTVersion::V3, "c".to_string())),
    );
    assert_eq!(
        server.handle_packet(1, ReceivedPacket::EntryDelete(EntryDelete::new(1))),
        vec![]
    );
    assert_eq!(server.entries().len(), 3);
    let actions = server.handle_packet(1, assignment("/x", 0xFFFF, 9, 0, double(1.0)));
    assert_eq!(
        actions,
        vec![
            ServerAction::Send(1, assignment("/x", 4, 1, 0, double(1.0))),
            ServerAction::Notify(
                CallbackType::Add,
                4,
                EntryData::new("/x".to_string(), 0, double(1.0))
            ),
        ]
    );
}

#[test]
fn a_created_entry_is_announced_to_all_clients() {
    let mut server = server_with_entries();
    join(&mut server, 1);
    join(&mut server, 2);
    assert!(server.accept(3));
    let actions = server.handle_packet(2, assignment("/x", 0xFFFF, 1, 0, double(3.5)));
    assert_eq!(
        actions,
        vec![
            ServerAction::Send(1, assignment("/x", 4, 1, 0, double(3.5))),
            ServerAction::Send(2, assignment("/x", 4, 1, 0, double(3.5))),
            ServerAction::Notify(
                CallbackType::Add,
                4,
                EntryData::new("/x".to_string(), 0, double(3.5))
            ),
        ]
    );
    assert_eq!(server.get_entry(4).unwrap().name, "/x");
}

#[test]
fn an_assignment_with_a_real_id_is_dropped_by_the_server() {
    let mut server = server_with_entries();
    join(&mut server, 1);
    assert_eq!(
        server.handle_packet(1, assignment("/x", 9, 1, 0, double(3.5))),
        vec![]
    );
    assert_eq!(
        server.handle_packet(1, assignment("/b", 0xFFFF, 1, 0, double(3.5))),
        vec![]
    );
    assert_eq!(server.entries().len(), 3);
    assert_eq!(
        server.get_entry(1).unwrap().value,
        EntryValue::Boolean(true)
    );
}

#[test]
fn an_update_goes_to_every_other_client() {
    let mut server = server_with_entries();
    join(&mut server, 1);
    join(&mut server, 2);
    join(&mut server, 3);
    let update = ReceivedPacket::EntryUpdate(EntryUpdate::new(
        2,
        2,
        EntryType::Boolean,
        EntryValue::Boolean(false),
    ));
    let actions = server.handle_packet(2, update.clone());
    assert_eq!(
        actions,
        vec![
            ServerAction::Send(1, update.clone()),
            ServerAction::Send(3, update),
            ServerAction::Notify(
                CallbackType::Update,
                2,
                EntryData::new_with_seqnum(
                    "/c".to_string(),
                    0,
                    EntryValue::Boolean(false),
                    2
                )
            ),
        ]
    );
}

#[test]
fn a_stale_update_is_not_broadcast() {
    let mut server = ServerState::new("srv".to_string());
    for name in ["/0", "/1", "/2", "/3"] {
        server
            .create_entry(EntryData::new(name.to_string(), 0, double(0.0)))
            .unwrap();
    }
    let (id, _) = server
        .create_entry(EntryData::new("/x".to_string(), 0, double(3.5)))
        .unwrap();
    assert_eq!(id, 4);
    for _ in 1..10 {
        assert!(!server.update_entry(4, double(3.5)).is_empty());
    }
    assert_eq!(server.get_entry(4).unwrap().seqnum, 10);
    join(&mut server, 1);
    join(&mut server, 2);
    let stale = ReceivedPacket::EntryUpdate(EntryUpdate::new(4, 9, EntryType::Double, double(1.0)));
    assert_eq!(server.handle_packet(1, stale), vec![]);
    assert_eq!(server.get_entry(4).unwrap().seqnum, 10);
    assert_eq!(server.get_entry(4).unwrap().value, double(3.5));
    let mismatch = ReceivedPacket::EntryUpdate(EntryUpdate::new(
        4,
        11,
        EntryType::Boolean,
        EntryValue::Boolean(true),
    ));
    assert_eq!(server.handle_packet(1, mismatch), vec![]);
    assert_eq!(server.get_entry(4).unwrap().value, double(3.5));
}

#[test]
fn flags_deletes_and_clears_go_to_every_other_client() {
    let mut server = server_with_entries();
    join(&mut server, 1);
    join(&mut server, 2);
    let flags = ReceivedPacket::EntryFlagsUpdate(EntryFlagsUpdate::new(2, 1));
    assert_eq!(
        server.handle_packet(1, flags.clone()),
        vec![ServerAction::Send(2, flags)]
    );
    assert_eq!(
        server.handle_packet(
            1,
            ReceivedPacket::EntryFlagsUpdate(EntryFlagsUpdate::new(77, 1))
        ),
        vec![]
    );
    let delete = ReceivedPacket::EntryDelete(EntryDelete::new(1));
    assert_eq!(
        server.handle_packet(2, delete.clone()),
        vec![
            ServerAction::Send(1, delete.clone()),
            ServerAction::Notify(
                CallbackType::Delete,
                1,
                EntryData::new("/b".to_string(), 0, EntryValue::Boolean(true))
            ),
        ]
    );
    assert_eq!(server.handle_packet(2, delete), vec![]);
    let wrong = ReceivedPacket::ClearAllEntries(ClearAllEntries { magic: 0 });
    assert_eq!(server.handle_packet(1, wrong), vec![]);
    assert_eq!(server.entries().len(), 2);
    let clear = ReceivedPacket::ClearAllEntries(ClearAllEntries::new());
    assert_eq!(
        server.handle_packet(1, clear.clone()),
        vec![ServerAction::Send(2, clear)]
    );
    let left: Vec<u16> = server.entries().iter().map(|slot| slot.id).collect();
    assert_eq!(left, vec![2]);
    assert_eq!(
        server.handle_packet(1, ReceivedPacket::KeepAlive),
        vec![]
    );
}

#[test]
fn the_server_tells_all_clients_of_its_own_changes() {
    let mut server = server_with_entries();
    join(&mut server, 1);
    join(&mut server, 2);
    let update = ReceivedPacket::EntryUpdate(EntryUpdate::new(
        1,
        2,
        EntryType::Boolean,
        EntryValue::Boolean(false),
    ));
    assert_eq!(
        server.update_entry(1, EntryValue::Boolean(false)),
        vec![
            ServerAction::Send(1, update.clone()),
            ServerAction::Send(2, update),
            ServerAction::Notify(
                CallbackType::Update,
                1,
                EntryData::new_with_seqnum(
                    "/b".to_string(),
                    0,
                    EntryValue::Boolean(false),
                    2
                )
            ),
        ]
    );
    assert_eq!(server.update_entry(1, double(1.0)), vec![]);
    assert_eq!(server.update_entry(99, double(1.0)), vec![]);
    let flags = ReceivedPacket::EntryFlagsUpdate(EntryFlagsUpdate::new(1, 1));
    assert_eq!(
        server.update_entry_flags(1, 1),
        vec![
            ServerAction::Send(1, flags.clone()),
            ServerAction::Send(2, flags)
        ]
    );
    let clear = ReceivedPacket::ClearAllEntries(ClearAllEntries::new());
    assert_eq!(
        server.clear_entries(),
        vec![
            ServerAction::Send(1, clear.clone()),
            ServerAction::Send(2, clear)
        ]
    );
    let left: Vec<u16> = server.entries().iter().map(|slot| slot.id).collect();
    assert_eq!(left, vec![1]);
    let (id, actions) = server
        .create_entry(EntryData::new("/b".to_string(), 0, double(0.0)))
        .unwrap();
    assert_eq!(id, 1);
    assert_eq!(actions, vec![]);
}

#[test]
fn a_disconnect_is_told_to_the_observers_only() {
    let mut server = server_with_entries();
    join(&mut server, 1);
    join(&mut server, 2);
    assert_eq!(
        server.disconnect(1),
        vec![ServerAction::NotifyConnection(
            ConnectionCallbackType::ClientDisconnected,
            1
        )]
    );
    assert_eq!(server.phase(1), None);
    assert_eq!(server.disconnect(1), vec![]);
    assert_eq!(
        server.rpc_finished(1, 7, 1, Some(vec![1])),
        vec![]
    );
    let update = ReceivedPacket::EntryUpdate(EntryUpdate::new(
        1,
        2,
        EntryType::Boolean,
        EntryValue::Boolean(false),
    ));
    assert_eq!(
        server.update_entry(1, EntryValue::Boolean(false)).len(),
        2
    );
    assert_eq!(server.handle_packet(1, update), vec![]);
}

#[test]
fn a_call_goes_round_once() {
    let mut server = ServerState::new("srv".to_string());
    for i in 0..7 {
        server
            .create_entry(EntryData::new(format!("/{}", i), 0, double(0.0)))
            .unwrap();
    }
    let (id, _) = server
        .create_rpc(EntryData::new(
            "/reverse".to_string(),
            0,
            EntryValue::RpcDefinition(RpcDefinition::V0),
        ))
        .unwrap();
    assert_eq!(id, 7);
    assert!(server.has_rpc(7));
    assert!(!server.has_rpc(6));
    join(&mut server, 1);
    join(&mut server, 2);

    let mut client = connected_client();
    let (unique, actions) = client.call_rpc(7, vec![1, 2, 3]).unwrap();
    assert_eq!(unique, 0);
    let request = ReceivedPacket::RpcExecute(RpcExecute::new(7, 0, vec![1, 2, 3]));
    assert_eq!(actions, vec![ClientAction::Send(request.clone())]);

    assert_eq!(
        server.handle_packet(1, request),
        vec![ServerAction::RunRpc(1, 7, 0, vec![1, 2, 3])]
    );
    let response = ReceivedPacket::RpcResponse(RpcResponse::new(7, 0, vec![3, 2, 1]));
    assert_eq!(
        server.rpc_finished(1, 7, 0, Some(vec![3, 2, 1])),
        vec![ServerAction::Send(1, response.clone())]
    );
    assert_eq!(
        client.handle_packet(response.clone()),
        vec![ClientAction::RpcResult(7, 0, vec![3, 2, 1])]
    );
    assert_eq!(client.handle_packet(response), vec![]);
}

#[test]
fn a_failed_handler_gives_an_empty_result() {
    let mut server = ServerState::new("srv".to_string());
    let (id, _) = server
        .create_rpc(EntryData::new(
            "/f".to_string(),
            0,
            EntryValue::RpcDefinition(RpcDefinition::V0),
        ))
        .unwrap();
    join(&mut server, 1);
    assert_eq!(
        server.rpc_finished(1, id, 5, None),
        vec![ServerAction::Send(
            1,
            ReceivedPacket::RpcResponse(RpcResponse::new(id, 5, vec![]))
        )]
    );
    assert_eq!(
        server.handle_packet(
            1,
            ReceivedPacket::RpcExecute(RpcExecute::new(99, 5, vec![1]))
        ),
        vec![ServerAction::Send(
            1,
            ReceivedPacket::RpcResponse(RpcResponse::new(99, 5, vec![]))
        )]
    );
}

#[test]
fn a_response_that_matches_no_call_is_discarded() {
    let mut client = connected_client();
    assert_eq!(
        client.handle_packet(ReceivedPacket::RpcResponse(RpcResponse::new(7, 0, vec![1]))),
        vec![]
    );
    let (first, _) = client.call_rpc(7, vec![]).unwrap();
    let (second, _) = client.call_rpc(7, vec![]).unwrap();
    let (third, _) = client.call_rpc(8, vec![]).unwrap();
    assert_eq!((first, second, third), (0, 1, 2));
    assert_eq!(
        client.handle_packet(ReceivedPacket::RpcResponse(RpcResponse::new(8, 1, vec![1]))),
        vec![]
    );
    assert_eq!(
        client.handle_packet(ReceivedPacket::RpcResponse(RpcResponse::new(7, 1, vec![1]))),
        vec![ClientAction::RpcResult(7, 1, vec![1])]
    );
    assert_eq!(
        client.handle_packet(ReceivedPacket::RpcResponse(RpcResponse::new(7, 1, vec![1]))),
        vec![]
    );
    assert_eq!(
        client.handle_packet(ReceivedPacket::RpcResponse(RpcResponse::new(8, 2, vec![]))),
        vec![ClientAction::RpcResult(8, 2, vec![])]
    );
    assert_eq!(
        client.handle_packet(ReceivedPacket::RpcResponse(RpcResponse::new(7, 0, vec![9]))),
        vec![ClientAction::RpcResult(7, 0, vec![9])]
    );
}

#[test]
fn unique_ids_in_flight_are_not_given_again() {
    let mut client = connected_client();
    for expected in 0..=0xFFFFu32 {
        let (unique, _) = client.call_rpc(1, vec![]).unwrap();
        assert_eq!(unique as u32, expected);
    }
    assert_eq!(client.call_rpc(1, vec![]), Err(Error::Exhausted));
    assert_eq!(
        client.handle_packet(ReceivedPacket::RpcResponse(RpcResponse::new(1, 500, vec![]))),
        vec![ClientAction::RpcResult(1, 500, vec![])]
    );
    let (unique, _) = client.call_rpc(2, vec![]).unwrap();
    assert_eq!(unique, 500);
}

#[test]
fn a_client_that_is_not_connected_cannot_send() {
    let mut client = ClientState::new("c1".to_string());
    let data = EntryData::new("/x".to_string(), 0, double(3.5));
    assert_eq!(client.create_entry(data.clone()), Err(Error::BrokenPipe));
    assert_eq!(client.delete_entry(1), Err(Error::BrokenPipe));
    assert_eq!(client.update_entry(1, double(1.0)), Err(Error::BrokenPipe));
    assert_eq!(client.update_entry_flags(1, 1), Err(Error::BrokenPipe));
    assert_eq!(client.clear_entries(), Err(Error::BrokenPipe));
    assert_eq!(client.call_rpc(1, vec![]), Err(Error::BrokenPipe));
    client.connect();
    assert_eq!(client.create_entry(data), Err(Error::BrokenPipe));
}

#[test]
fn creating_by_name_waits_for_the_server() {
    let mut client = connected_client();
    let data = EntryData::new("/x".to_string(), 0, double(3.5));
    assert_eq!(
        client.create_entry(data.clone()),
        Ok(vec![ClientAction::Send(assignment(
            "/x",
            0xFFFF,
            1,
            0,
            double(3.5)
        ))])
    );
    assert_eq!(client.create_entry(data.clone()), Ok(vec![]));
    assert_eq!(client.entries().len(), 0);
    assert_eq!(
        client.handle_packet(assignment("/y", 3, 1, 0, double(0.0))),
        vec![ClientAction::Notify(
            CallbackType::Add,
            3,
            EntryData::new("/y".to_string(), 0, double(0.0))
        )]
    );
    assert_eq!(
        client.handle_packet(assignment("/x", 4, 1, 0, double(3.5))),
        vec![
            ClientAction::ResolveCreate("/x".to_string(), 4),
            ClientAction::Notify(CallbackType::Add, 4, data.clone()),
        ]
    );
    assert_eq!(client.get_entry(4), Some(data.clone()));
    assert_eq!(
        client.create_entry(data),
        Ok(vec![ClientAction::ResolveCreate("/x".to_string(), 4)])
    );
}

#[test]
fn the_client_applies_what_the_server_sends() {
    let mut client = connected_client();
    client.handle_packet(assignment("/a", 1, 1, 0, double(1.0)));
    client.handle_packet(assignment("/b", 2, 1, 1, double(2.0)));
    let update = ReceivedPacket::EntryUpdate(EntryUpdate::new(1, 2, EntryType::Double, double(5.0)));
    assert_eq!(
        client.handle_packet(update.clone()),
        vec![ClientAction::Notify(
            CallbackType::Update,
            1,
            EntryData::new_with_seqnum("/a".to_string(), 0, double(5.0), 2)
        )]
    );
    assert_eq!(client.handle_packet(update), vec![]);
    assert_eq!(
        client.handle_packet(ReceivedPacket::EntryFlagsUpdate(EntryFlagsUpdate::new(1, 4))),
        vec![]
    );
    assert_eq!(client.get_entry(1).unwrap().flags, 4);
    assert_eq!(
        client.handle_packet(ReceivedPacket::ClearAllEntries(ClearAllEntries { magic: 1 })),
        vec![]
    );
    assert_eq!(client.entries().len(), 2);
    assert_eq!(
        client.handle_packet(ReceivedPacket::ClearAllEntries(ClearAllEntries::new())),
        vec![]
    );
    assert_eq!(client.entries().len(), 1);
    assert_eq!(
        client.handle_packet(ReceivedPacket::EntryDelete(EntryDelete::new(2))),
        vec![ClientAction::Notify(
            CallbackType::Delete,
            2,
            EntryData::new("/b".to_string(), 1, double(2.0))
        )]
    );
    assert_eq!(
        client.handle_packet(ReceivedPacket::EntryDelete(EntryDelete::new(2))),
        vec![]
    );
    assert_eq!(client.handle_packet(ReceivedPacket::KeepAlive), vec![]);
}

#[test]
fn the_client_tells_the_server_of_its_own_changes() {
    let mut client = connected_client();
    client.handle_packet(assignment("/a", 1, 0xFFFF, 0, double(1.0)));
    client.handle_packet(assignment("/b", 2, 1, 1, double(2.0)));
    assert_eq!(
        client.update_entry(1, double(7.0)),
        Ok(vec![ClientAction::Send(ReceivedPacket::EntryUpdate(
            EntryUpdate::new(1, 0, EntryType::Double, double(7.0))
        ))])
    );
    assert_eq!(client.get_entry(1).unwrap().seqnum, 0);
    assert_eq!(client.get_entry(1).unwrap().value, double(7.0));
    assert_eq!(client.update_entry(1, EntryValue::Boolean(true)), Ok(vec![]));
    assert_eq!(client.get_entry(1).unwrap().value, double(7.0));
    assert_eq!(client.update_entry(9, double(7.0)), Ok(vec![]));
    assert_eq!(
        client.update_entry_flags(1, 1),
        Ok(vec![ClientAction::Send(ReceivedPacket::EntryFlagsUpdate(
            EntryFlagsUpdate::new(1, 1)
        ))])
    );
    assert_eq!(client.update_entry_flags(9, 1), Ok(vec![]));
    assert_eq!(
        client.delete_entry(2),
        Ok(vec![ClientAction::Send(ReceivedPacket::EntryDelete(
            EntryDelete::new(2)
        ))])
    );
    assert_eq!(client.delete_entry(2), Ok(vec![]));
    client.handle_packet(assignment("/c", 3, 1, 0, double(2.0)));
    assert_eq!(
        client.clear_entries(),
        Ok(vec![ClientAction::Send(ReceivedPacket::ClearAllEntries(
            ClearAllEntries::new()
        ))])
    );
    let left: Vec<u16> = client.entries().iter().map(|slot| slot.id).collect();
    assert_eq!(left, vec![1]);
}

#[test]
fn a_broken_transport_closes_the_client() {
    let mut client = connected_client();
    assert_eq!(
        client.transport_broken(),
        vec![ClientAction::NotifyConnection(
            ConnectionCallbackType::ClientDisconnected
        )]
    );
    assert_eq!(client.state(), ConnectionState::Closed);
    assert_eq!(client.transport_broken(), vec![]);
    let mut client = ClientState::new("c1".to_string());
    assert_eq!(client.transport_broken(), vec![]);
    client.connect();
    assert_eq!(
        client.transport_broken(),
        vec![ClientAction::Fail(Error::ConnectionAborted)]
    );
    assert_eq!(client.state(), ConnectionState::Closed);
}

#[test]
fn a_reconnect_forgets_the_directory() {
    let mut client = connected_client();
    client.handle_packet(assignment("/a", 1, 1, 0, double(1.0)));
    client.call_rpc(1, vec![]).unwrap();
    client.transport_broken();
    let actions = client.reconnect();
    assert_eq!(
        actions,
        vec![
            ClientAction::OpenTransport,
            ClientAction::Send(ReceivedPacket::ClientHello(ClientHello::new(
                NTVersion::V3,
                "c1".to_string()
            ))),
        ]
    );
    assert_eq!(client.state(), ConnectionState::Connecting);
    assert_eq!(client.entries().len(), 0);
    assert_eq!(
        client.handle_packet(ReceivedPacket::RpcResponse(RpcResponse::new(1, 0, vec![]))),
        vec![]
    );
}

//! The server's side: the directory that the server owns, the table of its clients, and what a
//! message from one client means for the others.
//!
//! As with the client, the state machine decides and the caller performs. A broadcast comes
//! out as one `Send` for every client that is to get the message, in the order of the table.

use crate::callback::{CallbackType, ConnectionCallbackType};
use crate::directory::{
    allocation, assigned_entry, candidate, cleared, entry_of, has_id, has_name, index_of_name,
    lemma_allocation, lemma_no_allocation, model_wf, rows, update_accepted, updated, with_flags,
    without, Directory, DirectoryModel, Inserted, Slot,
};
use crate::entry::{next_seqnum, seq_successor, EntryData, EntryModel};
use crate::error::Error;
use crate::packets::{
    ClearAllEntries, EntryAssignment, EntryDelete, EntryFlagsUpdate, EntryUpdate, NTVersion,
    PacketModel, ProtocolVersionUnsupported, ReceivedPacket, RpcResponse, ServerHello,
    CLEAR_ALL_MAGIC, UNASSIGNED_ID,
};
use crate::types::{EntryType, EntryValue, ValueModel};
use vstd::prelude::*;

verus! {

/// Where a connection stands, as the server sees it.
#[derive(Clone, Copy, Debug, PartialEq, Eq, Structural)]
pub enum ClientPhase {
    /// The client has connected and not said hello.
    AwaitClientHello,
    /// The server is sending its entries. The whole stream is one step of this state machine,
    /// so no connection is left in this phase between two steps.
    Streaming,
    /// The server has sent its entries and awaits the client's word that it has them.
    AwaitClientHelloComplete,
    /// The handshake is done.
    Connected,
    /// The connection is over.
    Closed,
}

/// One row of the client table.
pub type ClientRow = (u64, ClientPhase);

/// What the caller of the state machine is to do.
#[derive(Clone, Debug, PartialEq, Eq)]
pub enum ServerAction {
    /// Put the message into the outbound queue of this connection.
    Send(u64, ReceivedPacket),
    /// Close this connection.
    Close(u64),
    /// Run the entry callbacks of this kind on this snapshot of the entry with this id.
    Notify(CallbackType, u16, EntryData),
    /// Run the connection callbacks of this kind for this connection.
    NotifyConnection(ConnectionCallbackType, u64),
    /// Run the handler of this procedure on this parameter, behind a barrier that catches its
    /// failure, and report with `rpc_finished`: connection, procedure, unique id, parameter.
    RunRpc(u64, u16, u16, Vec<u8>),
}

/// What an action is, as mathematics.
pub enum ServerActionModel {
    Send(u64, PacketModel),
    Close(u64),
    Notify(CallbackType, u16, EntryModel),
    NotifyConnection(ConnectionCallbackType, u64),
    RunRpc(u64, u16, u16, Seq<u8>),
}

impl View for ServerAction {
    type V = ServerActionModel;

    open spec fn view(&self) -> ServerActionModel {
        match self {
            ServerAction::Send(conn, p) => ServerActionModel::Send(*conn, p@),
            ServerAction::Close(conn) => ServerActionModel::Close(*conn),
            ServerAction::Notify(kind, id, e) => ServerActionModel::Notify(*kind, *id, e@),
            ServerAction::NotifyConnection(kind, conn) => ServerActionModel::NotifyConnection(
                *kind,
                *conn,
            ),
            ServerAction::RunRpc(conn, id, unique, parameter) => ServerActionModel::RunRpc(
                *conn,
                *id,
                *unique,
                parameter@,
            ),
        }
    }
}

/// The models of a list of actions.
pub open spec fn actions_model(actions: Seq<ServerAction>) -> Seq<ServerActionModel> {
    actions.map_values(|a: ServerAction| a@)
}

/// What a server is, as mathematics.
pub struct ServerModel {
    pub name: Seq<char>,
    pub directory: DirectoryModel,
    /// The counter from which new entry ids are taken.
    pub next_id: u16,
    /// The connections, in the order in which they were accepted.
    pub clients: Seq<ClientRow>,
    /// The ids of the entries that have a handler.
    pub rpcs: Seq<u16>,
}

/// The connection is in the table.
pub open spec fn has_client(clients: Seq<ClientRow>, conn: u64) -> bool {
    exists|i: int| 0 <= i < clients.len() && (#[trigger] clients[i]).0 == conn
}

/// Where the connection stands in the table.
pub open spec fn index_of_client(clients: Seq<ClientRow>, conn: u64) -> int {
    choose|i: int| 0 <= i < clients.len() && (#[trigger] clients[i]).0 == conn
}

/// The phase of the connection.
pub open spec fn phase_of(clients: Seq<ClientRow>, conn: u64) -> ClientPhase {
    clients[index_of_client(clients, conn)].1
}

/// No connection is twice in the table.
pub open spec fn clients_wf(clients: Seq<ClientRow>) -> bool {
    forall|i: int, j: int|
        0 <= i < j < clients.len() ==> (#[trigger] clients[i]).0 != (#[trigger] clients[j]).0
}

/// The table with the connection in the phase `phase`.
pub open spec fn with_phase(clients: Seq<ClientRow>, conn: u64, phase: ClientPhase) -> Seq<
    ClientRow,
> {
    clients.map_values(
        |row: ClientRow|
            if row.0 == conn {
                (conn, phase)
            } else {
                row
            },
    )
}

/// The client has the server's entries, or is being sent them: what changes from now on is
/// sent to it.
pub open spec fn listening(phase: ClientPhase) -> bool {
    phase == ClientPhase::AwaitClientHelloComplete || phase == ClientPhase::Connected
}

/// The test that a row is to get a broadcast that leaves out `except`.
pub open spec fn gets_broadcast(except: Option<u64>) -> spec_fn(ClientRow) -> bool {
    |row: ClientRow| listening(row.1) && except != Some(row.0)
}

/// The action that sends `p` to the connection of a row.
pub open spec fn send_to_row(p: PacketModel) -> spec_fn(ClientRow) -> ServerActionModel {
    |row: ClientRow| ServerActionModel::Send(row.0, p)
}

/// A broadcast: the message to every listening client but `except`, in the order of the
/// table.
pub open spec fn broadcast(clients: Seq<ClientRow>, except: Option<u64>, p: PacketModel) -> Seq<
    ServerActionModel,
> {
    clients.filter(gets_broadcast(except)).map_values(send_to_row(p))
}

/// The assignment that announces a row of the directory.
pub open spec fn assignment_of(row: (u16, EntryModel)) -> PacketModel {
    PacketModel::EntryAssignment {
        entry_name: row.1.name,
        entry_type: row.1.value.entry_type(),
        entry_id: row.0,
        entry_seqnum: row.1.seqnum,
        entry_flags: row.1.flags,
        entry_value: row.1.value,
    }
}

/// The action that announces a row of the directory to `conn`.
pub open spec fn announce_to(conn: u64) -> spec_fn((u16, EntryModel)) -> ServerActionModel {
    |row: (u16, EntryModel)| ServerActionModel::Send(conn, assignment_of(row))
}

/// The server's answer to a hello of the right revision: its own hello, one assignment for
/// every entry, oldest first, and the end of the stream.
pub open spec fn handshake(s: ServerModel, conn: u64) -> Seq<ServerActionModel> {
    seq![ServerActionModel::Send(conn, PacketModel::ServerHello { flags: 0, name: s.name })]
        + s.directory.map_values(announce_to(conn)) + seq![
        ServerActionModel::Send(conn, PacketModel::ServerHelloComplete),
    ]
}

/// What a hello does: a client of another revision is told which one the server speaks, and
/// is closed; a client of revision 3.0 gets the handshake.
pub open spec fn hello_step(s: ServerModel, conn: u64, version: NTVersion) -> (
    ServerModel,
    Seq<ServerActionModel>,
) {
    if version != NTVersion::V3 {
        (
            ServerModel { clients: with_phase(s.clients, conn, ClientPhase::Closed), ..s },
            seq![
                ServerActionModel::Send(
                    conn,
                    PacketModel::ProtocolVersionUnsupported { supported_version: 0x0300 },
                ),
                ServerActionModel::Close(conn),
            ],
        )
    } else {
        (
            ServerModel {
                clients: with_phase(s.clients, conn, ClientPhase::AwaitClientHelloComplete),
                ..s
            },
            handshake(s, conn),
        )
    }
}

/// What a request to create an entry does.
///
/// A request with any other id than the one that asks for an assignment is dropped. So is one
/// for a name that exists, and one that finds every id taken. Otherwise the entry is created
/// with sequence number 1, announced to every listening client, the one that asked included,
/// and the local observers are told.
pub open spec fn create_step(
    s: ServerModel,
    name: Seq<char>,
    asked_id: u16,
    flags: u8,
    value: ValueModel,
) -> (ServerModel, Seq<ServerActionModel>) {
    match allocation(s.directory, s.next_id) {
        Some(id) if asked_id == UNASSIGNED_ID && !has_name(s.directory, name) => {
            let e = assigned_entry(name, 1, flags, value);
            (
                ServerModel {
                    directory: s.directory.push((id, e)),
                    next_id: candidate(id, 1),
                    ..s
                },
                broadcast(s.clients, None, assignment_of((id, e))) + seq![
                    ServerActionModel::Notify(CallbackType::Add, id, e),
                ],
            )
        },
        _ => (s, Seq::empty()),
    }
}

/// What an update from `conn` does: if the directory takes it, every other listening client
/// is sent it and the local observers are told.
pub open spec fn update_step(
    s: ServerModel,
    conn: Option<u64>,
    id: u16,
    seqnum: u16,
    ty: EntryType,
    value: ValueModel,
) -> (ServerModel, Seq<ServerActionModel>) {
    let after = updated(s.directory, id, seqnum, ty, value);
    (
        ServerModel { directory: after, ..s },
        if update_accepted(s.directory, id, seqnum, ty, value) {
            broadcast(
                s.clients,
                conn,
                PacketModel::EntryUpdate {
                    entry_id: id,
                    entry_seqnum: seqnum,
                    entry_type: ty,
                    entry_value: value,
                },
            ) + seq![ServerActionModel::Notify(CallbackType::Update, id, entry_of(after, id))]
        } else {
            Seq::empty()
        },
    )
}

/// What a flags update from `conn` does: if the entry exists it takes the flags, and every
/// other listening client is sent the update.
pub open spec fn flags_step(s: ServerModel, conn: Option<u64>, id: u16, flags: u8) -> (
    ServerModel,
    Seq<ServerActionModel>,
) {
    (
        ServerModel { directory: with_flags(s.directory, id, flags), ..s },
        if has_id(s.directory, id) {
            broadcast(
                s.clients,
                conn,
                PacketModel::EntryFlagsUpdate { entry_id: id, entry_flags: flags },
            )
        } else {
            Seq::empty()
        },
    )
}

/// What a delete from `conn` does: if the entry exists it goes, every other listening client
/// is sent the delete, and the local observers are told.
pub open spec fn delete_step(s: ServerModel, conn: Option<u64>, id: u16) -> (
    ServerModel,
    Seq<ServerActionModel>,
) {
    (
        ServerModel { directory: without(s.directory, id), ..s },
        if has_id(s.directory, id) {
            broadcast(s.clients, conn, PacketModel::EntryDelete { entry_id: id }) + seq![
                ServerActionModel::Notify(CallbackType::Delete, id, entry_of(s.directory, id)),
            ]
        } else {
            Seq::empty()
        },
    )
}

/// What a clear directive from `conn` does: with the magic number the entries that are not
/// persistent go and every other listening client is sent the directive; with any other
/// number nothing happens.
pub open spec fn clear_step(s: ServerModel, conn: Option<u64>, magic: u32) -> (
    ServerModel,
    Seq<ServerActionModel>,
) {
    (
        ServerModel { directory: cleared(s.directory, magic), ..s },
        if magic == CLEAR_ALL_MAGIC {
            broadcast(s.clients, conn, PacketModel::ClearAllEntries { magic })
        } else {
            Seq::empty()
        },
    )
}

/// What a call does: a procedure with a handler is to be run; for any other id the caller
/// gets an empty result at once.
pub open spec fn execute_step(
    s: ServerModel,
    conn: u64,
    id: u16,
    unique: u16,
    parameter: Seq<u8>,
) -> Seq<ServerActionModel> {
    if s.rpcs.contains(id) {
        seq![ServerActionModel::RunRpc(conn, id, unique, parameter)]
    } else {
        seq![
            ServerActionModel::Send(
                conn,
                PacketModel::RpcResponse { entry_id: id, unique_id: unique, result: Seq::empty() },
            ),
        ]
    }
}

/// What a message does that changes entries, from a client that may change them.
pub open spec fn entry_step(s: ServerModel, conn: u64, p: PacketModel) -> (
    ServerModel,
    Seq<ServerActionModel>,
) {
    match p {
        PacketModel::EntryAssignment {
            entry_name,
            entry_type,
            entry_id,
            entry_seqnum,
            entry_flags,
            entry_value,
        } => create_step(s, entry_name, entry_id, entry_flags, entry_value),
        PacketModel::EntryUpdate { entry_id, entry_seqnum, entry_type, entry_value } => update_step(
            s,
            Some(conn),
            entry_id,
            entry_seqnum,
            entry_type,
            entry_value,
        ),
        PacketModel::EntryFlagsUpdate { entry_id, entry_flags } => flags_step(
            s,
            Some(conn),
            entry_id,
            entry_flags,
        ),
        PacketModel::EntryDelete { entry_id } => delete_step(s, Some(conn), entry_id),
        PacketModel::ClearAllEntries { magic } => clear_step(s, Some(conn), magic),
        PacketModel::RpcExecute { entry_id, unique_id, parameter } => (
            s,
            execute_step(s, conn, entry_id, unique_id, parameter),
        ),
        _ => (s, Seq::empty()),
    }
}

/// What a message from the connection `conn` does to the server.
///
/// Before its hello a client is heard only for its hello. Between the server's entries and
/// the client's word that it has them, only that word and requests to create entries are
/// heard. A connected client is heard for everything but handshake messages; its keep-alive
/// calls for nothing. A connection that is closed or unknown is not heard.
pub open spec fn server_step(s: ServerModel, conn: u64, p: PacketModel) -> (
    ServerModel,
    Seq<ServerActionModel>,
) {
    if !has_client(s.clients, conn) {
        (s, Seq::empty())
    } else {
        match phase_of(s.clients, conn) {
            ClientPhase::AwaitClientHello => match p {
                PacketModel::ClientHello { version, name } => hello_step(s, conn, version),
                _ => (s, Seq::empty()),
            },
            ClientPhase::AwaitClientHelloComplete => match p {
                PacketModel::ClientHelloComplete => (
                    ServerModel {
                        clients: with_phase(s.clients, conn, ClientPhase::Connected),
                        ..s
                    },
                    seq![
                        ServerActionModel::NotifyConnection(
                            ConnectionCallbackType::ClientConnected,
                            conn,
                        ),
                    ],
                ),
                PacketModel::EntryAssignment { .. } => entry_step(s, conn, p),
                _ => (s, Seq::empty()),
            },
            ClientPhase::Connected => entry_step(s, conn, p),
            _ => (s, Seq::empty()),
        }
    }
}

fn is_listening(phase: ClientPhase) -> (b: bool)
    ensures
        b == listening(phase),
{
    phase == ClientPhase::AwaitClientHelloComplete || phase == ClientPhase::Connected
}

fn contains_id(ids: &Vec<u16>, id: u16) -> (b: bool)
    ensures
        b == ids@.contains(id),
{
    let mut i: usize = 0;
    while i < ids.len()
        invariant
            i <= ids@.len(),
            forall|j: int| 0 <= j < i ==> (#[trigger] ids@[j]) != id,
        decreases ids@.len() - i,
    {
        if ids[i] == id {
            return true;
        }
        i += 1;
    }
    false
}

/// The state of a server.
pub struct ServerState {
    name: String,
    directory: Directory,
    clients: Vec<ClientRow>,
    rpcs: Vec<u16>,
}

impl ServerState {
    pub closed spec fn view(&self) -> ServerModel {
        ServerModel {
            name: self.name@,
            directory: self.directory@,
            next_id: self.directory.next_id(),
            clients: self.clients@,
            rpcs: self.rpcs@,
        }
    }

    /// The server's invariant: that of its directory, and no connection twice in the table.
    pub closed spec fn wf(&self) -> bool {
        self.directory.wf() && clients_wf(self.clients@)
    }

    /// The invariant says of the model what it says of the state.
    pub proof fn lemma_wf(&self)
        ensures
            self.wf() == (model_wf(self@.directory) && clients_wf(self@.clients)),
    {
    }

    /// A server with the name `name`, without entries and without clients.
    pub fn new(name: String) -> (s: ServerState)
        ensures
            s.wf(),
            s@ == (ServerModel {
                name: name@,
                directory: Seq::empty(),
                next_id: 0,
                clients: Seq::empty(),
                rpcs: Seq::empty(),
            }),
    {
        let s = ServerState {
            name,
            directory: Directory::new(),
            clients: Vec::new(),
            rpcs: Vec::new(),
        };
        assert(s.clients@ =~= Seq::<ClientRow>::empty());
        assert(s.rpcs@ =~= Seq::<u16>::empty());
        s
    }

    /// A copy of the entries, oldest first.
    pub fn entries(&self) -> (out: Vec<Slot>)
        ensures
            rows(out@) == self@.directory,
    {
        self.directory.snapshot()
    }

    /// A copy of the entry with the id `id`.
    pub fn get_entry(&self, id: u16) -> (r: Option<EntryData>)
        requires
            self.wf(),
        ensures
            match r {
                Some(e) => has_id(self@.directory, id) && e@ == entry_of(self@.directory, id),
                None => !has_id(self@.directory, id),
            },
    {
        match self.directory.get(id) {
            Some(e) => Some(e.duplicate()),
            None => None,
        }
    }

    fn position_of_client(&self, conn: u64) -> (r: Option<usize>)
        requires
            self.wf(),
        ensures
            match r {
                Some(i) => i < self.clients@.len() && self.clients@[i as int].0 == conn
                    && has_client(self.clients@, conn) && index_of_client(self.clients@, conn)
                    == i,
                None => !has_client(self.clients@, conn),
            },
    {
        let mut i: usize = 0;
        while i < self.clients.len()
            invariant
                i <= self.clients@.len(),
                clients_wf(self.clients@),
                forall|j: int| 0 <= j < i ==> (#[trigger] self.clients@[j]).0 != conn,
            decreases self.clients@.len() - i,
        {
            if self.clients[i].0 == conn {
                proof {
                    lemma_index_of_client(self.clients@, conn, i as int);
                }
                return Some(i);
            }
            i += 1;
        }
        None
    }

    /// The phase of the connection `conn`, if it is in the table.
    pub fn phase(&self, conn: u64) -> (r: Option<ClientPhase>)
        requires
            self.wf(),
        ensures
            match r {
                Some(phase) => has_client(self@.clients, conn) && phase == phase_of(
                    self@.clients,
                    conn,
                ),
                None => !has_client(self@.clients, conn),
            },
    {
        match self.position_of_client(conn) {
            Some(i) => Some(self.clients[i].1),
            None => None,
        }
    }

    /// Takes a new connection into the table: it awaits the client's hello. Returns whether
    /// the connection is new; one that is in the table stays as it is.
    pub fn accept(&mut self, conn: u64) -> (added: bool)
        requires
            old(self).wf(),
        ensures
            final(self).wf(),
            added == !has_client(old(self)@.clients, conn),
            final(self)@ == if added {
                ServerModel {
                    clients: old(self)@.clients.push((conn, ClientPhase::AwaitClientHello)),
                    ..old(self)@
                }
            } else {
                old(self)@
            },
    {
        match self.position_of_client(conn) {
            Some(_) => false,
            None => {
                self.clients.push((conn, ClientPhase::AwaitClientHello));
                true
            },
        }
    }

    /// Takes a connection out of the table and tells the observers of connections. Nothing is
    /// sent to the other clients.
    pub fn disconnect(&mut self, conn: u64) -> (actions: Vec<ServerAction>)
        requires
            old(self).wf(),
        ensures
            final(self).wf(),
            final(self)@ == if has_client(old(self)@.clients, conn) {
                ServerModel {
                    clients: old(self)@.clients.remove(index_of_client(old(self)@.clients, conn)),
                    ..old(self)@
                }
            } else {
                old(self)@
            },
            actions_model(actions@) == if has_client(old(self)@.clients, conn) {
                seq![
                    ServerActionModel::NotifyConnection(
                        ConnectionCallbackType::ClientDisconnected,
                        conn,
                    ),
                ]
            } else {
                Seq::empty()
            },
    {
        let mut actions: Vec<ServerAction> = Vec::new();
        match self.position_of_client(conn) {
            Some(i) => {
                self.clients.remove(i);
                actions.push(
                    ServerAction::NotifyConnection(ConnectionCallbackType::ClientDisconnected, conn),
                );
                assert(actions_model(actions@) =~= seq![
                    ServerActionModel::NotifyConnection(
                        ConnectionCallbackType::ClientDisconnected,
                        conn,
                    ),
                ]);
            },
            None => {
                assert(actions_model(actions@) =~= Seq::<ServerActionModel>::empty());
            },
        }
        actions
    }

    fn set_phase(&mut self, conn: u64, phase: ClientPhase)
        requires
            old(self).wf(),
        ensures
            final(self).wf(),
            final(self)@ == (ServerModel {
                clients: with_phase(old(self)@.clients, conn, phase),
                ..old(self)@
            }),
    {
        let ghost before = self.clients@;
        match self.position_of_client(conn) {
            Some(i) => {
                self.clients.set(i, (conn, phase));
                proof {
                    assert forall|j: int| 0 <= j < before.len() implies #[trigger] self.clients@[j]
                        == with_phase(before, conn, phase)[j] by {
                        if j != i {
                            if j < i {
                                assert(before[j].0 != before[i as int].0);
                            } else {
                                assert(before[i as int].0 != before[j].0);
                            }
                        }
                    }
                    assert(self.clients@ =~= with_phase(before, conn, phase));
                }
            },
            None => {
                assert(self.clients@ =~= with_phase(before, conn, phase));
            },
        }
    }

    #[verifier::rlimit(50)]
    fn push_broadcast(&self, except: Option<u64>, packet: &ReceivedPacket, out: &mut Vec<ServerAction>)
        ensures
            actions_model(final(out)@) == actions_model(old(out)@) + broadcast(
                self@.clients,
                except,
                packet@,
            ),
    {
        let ghost start = actions_model(out@);
        let ghost keep = gets_broadcast(except);
        let ghost send = send_to_row(packet@);
        let ghost table = self.clients@;
        let mut i: usize = 0;
        assert(table.take(0).filter(keep).map_values(send) =~= Seq::<ServerActionModel>::empty());
        assert(start + Seq::<ServerActionModel>::empty() =~= start);
        while i < self.clients.len()
            invariant
                i <= self.clients@.len(),
                table == self.clients@,
                keep == gets_broadcast(except),
                send == send_to_row(packet@),
                actions_model(out@) == start + table.take(i as int).filter(keep).map_values(send),
            decreases self.clients@.len() - i,
        {
            let row = self.clients[i];
            proof {
                let k = i as int;
                assert(table.take(k + 1) =~= table.take(k).push(table[k]));
                table.take(k).lemma_filter_push(table[k], keep);
                table.take(k).filter(keep).lemma_push_map_commute(send, table[k]);
            }
            let skip = match except {
                Some(c) => c == row.0,
                None => false,
            };
            if is_listening(row.1) && !skip {
                let ghost before = actions_model(out@);
                out.push(ServerAction::Send(row.0, packet.duplicate()));
                assert(actions_model(out@) =~= before.push(send(table[i as int])));
                assert(start + table.take(i as int).filter(keep).map_values(send).push(
                    send(table[i as int]),
                ) =~= (start + table.take(i as int).filter(keep).map_values(send)).push(
                    send(table[i as int]),
                ));
            }
            i += 1;
        }
        assert(table.take(i as int) =~= table);
    }

    fn push_entries(&self, conn: u64, out: &mut Vec<ServerAction>)
        ensures
            actions_model(final(out)@) == actions_model(old(out)@) + self@.directory.map_values(
                announce_to(conn),
            ),
    {
        let ghost start = actions_model(out@);
        let ghost all = self.directory@;
        let ghost announce = announce_to(conn);
        let snapshot = self.directory.snapshot();
        assert(all.take(0).map_values(announce) =~= Seq::<ServerActionModel>::empty());
        assert(start + Seq::<ServerActionModel>::empty() =~= start);
        for slot in it: snapshot
            invariant
                rows(it.seq()) == all,
                announce == announce_to(conn),
                actions_model(out@) == start + all.take(it.index() as int).map_values(announce),
        {
            proof {
                let k = it.index() as int;
                assert(all.take(k + 1) =~= all.take(k).push(all[k]));
                all.take(k).lemma_push_map_commute(announce, all[k]);
            }
            let ghost before = actions_model(out@);
            let ghost row = slot@;
            let entry_type = slot.data.entry_type();
            out.push(
                ServerAction::Send(
                    conn,
                    ReceivedPacket::EntryAssignment(
                        EntryAssignment::new(
                            slot.data.name,
                            entry_type,
                            slot.id,
                            slot.data.seqnum,
                            slot.data.flags,
                            slot.data.value,
                        ),
                    ),
                ),
            );
            assert(actions_model(out@) =~= before.push(announce(row)));
            assert(start + all.take(it.index() as int).map_values(announce).push(announce(row))
                =~= (start + all.take(it.index() as int).map_values(announce)).push(
                announce(row),
            ));
        }
        assert(all.take(all.len() as int) =~= all);
    }

    fn on_hello(&mut self, conn: u64, version: NTVersion) -> (actions: Vec<ServerAction>)
        requires
            old(self).wf(),
        ensures
            final(self).wf(),
            (final(self)@, actions_model(actions@)) == hello_step(old(self)@, conn, version),
    {
        let mut actions: Vec<ServerAction> = Vec::new();
        assert(actions_model(actions@) =~= Seq::<ServerActionModel>::empty());
        if version != NTVersion::V3 {
            actions.push(
                ServerAction::Send(
                    conn,
                    ReceivedPacket::ProtocolVersionUnsupported(
                        ProtocolVersionUnsupported::new(NTVersion::V3),
                    ),
                ),
            );
            actions.push(ServerAction::Close(conn));
            self.set_phase(conn, ClientPhase::Closed);
            assert(actions_model(actions@) =~= hello_step(old(self)@, conn, version).1);
        } else {
            actions.push(
                ServerAction::Send(
                    conn,
                    ReceivedPacket::ServerHello(ServerHello::new(0, self.name.clone())),
                ),
            );
            assert(actions_model(actions@) =~= seq![
                ServerActionModel::Send(
                    conn,
                    PacketModel::ServerHello { flags: 0, name: old(self)@.name },
                ),
            ]);
            self.push_entries(conn, &mut actions);
            let ghost before = actions_model(actions@);
            actions.push(ServerAction::Send(conn, ReceivedPacket::ServerHelloComplete));
            assert(actions_model(actions@) =~= before + seq![
                ServerActionModel::Send(conn, PacketModel::ServerHelloComplete),
            ]);
            self.set_phase(conn, ClientPhase::AwaitClientHelloComplete);
        }
        actions
    }

    #[verifier::rlimit(50)]
    fn do_create(&mut self, name: String, asked_id: u16, flags: u8, value: EntryValue) -> (r: (
        Option<u16>,
        Vec<ServerAction>,
    ))
        requires
            old(self).wf(),
        ensures
            final(self).wf(),
            (final(self)@, actions_model(r.1@)) == create_step(
                old(self)@,
                name@,
                asked_id,
                flags,
                value@,
            ),
            match r.0 {
                Some(id) => asked_id == UNASSIGNED_ID && !has_name(old(self)@.directory, name@)
                    && allocation(old(self)@.directory, old(self)@.next_id) == Some(id),
                None => asked_id != UNASSIGNED_ID || has_name(old(self)@.directory, name@)
                    || allocation(old(self)@.directory, old(self)@.next_id) == None::<u16>,
            },
    {
        let mut actions: Vec<ServerAction> = Vec::new();
        assert(actions_model(actions@) =~= Seq::<ServerActionModel>::empty());
        if asked_id != UNASSIGNED_ID {
            return (None, actions);
        }
        let announced = EntryData::new(name.clone(), flags, value.duplicate());
        let entry_type = value.entry_type();
        match self.directory.insert(name, flags, value) {
            Inserted::Created(id) => {
                proof {
                    lemma_allocation(old(self)@.directory, old(self)@.next_id, id);
                }
                let packet = ReceivedPacket::EntryAssignment(
                    EntryAssignment::new(
                        announced.name.clone(),
                        entry_type,
                        id,
                        1,
                        flags,
                        announced.value.duplicate(),
                    ),
                );
                self.push_broadcast(None, &packet, &mut actions);
                let ghost before = actions_model(actions@);
                actions.push(ServerAction::Notify(CallbackType::Add, id, announced));
                assert(actions_model(actions@) =~= before + seq![
                    ServerActionModel::Notify(
                        CallbackType::Add,
                        id,
                        assigned_entry(name@, 1, flags, value@),
                    ),
                ]);
                (Some(id), actions)
            },
            Inserted::Existing(_) => (None, actions),
            Inserted::Full => {
                proof {
                    lemma_no_allocation(old(self)@.directory, old(self)@.next_id);
                }
                (None, actions)
            },
        }
    }

    #[verifier::rlimit(50)]
    fn do_update(
        &mut self,
        conn: Option<u64>,
        id: u16,
        seqnum: u16,
        ty: EntryType,
        value: EntryValue,
    ) -> (actions: Vec<ServerAction>)
        requires
            old(self).wf(),
        ensures
            final(self).wf(),
            (final(self)@, actions_model(actions@)) == update_step(
                old(self)@,
                conn,
                id,
                seqnum,
                ty,
                value@,
            ),
    {
        let mut actions: Vec<ServerAction> = Vec::new();
        assert(actions_model(actions@) =~= Seq::<ServerActionModel>::empty());
        let packet = ReceivedPacket::EntryUpdate(EntryUpdate::new(id, seqnum, ty, value.duplicate()));
        if self.directory.apply_update(id, seqnum, ty, value) {
            self.push_broadcast(conn, &packet, &mut actions);
            proof {
                let m = old(self)@.directory;
                let i = choose|i: int|
                    0 <= i < m.len() && (#[trigger] m[i]).0 == id && crate::directory::accepts(
                        m[i].1,
                        seqnum,
                        ty,
                        value@,
                    );
                assert(self@.directory[i].0 == id);
            }
            match self.directory.get(id) {
                Some(e) => {
                    let ghost before = actions_model(actions@);
                    actions.push(ServerAction::Notify(CallbackType::Update, id, e.duplicate()));
                    assert(actions_model(actions@) =~= before + seq![
                        ServerActionModel::Notify(
                            CallbackType::Update,
                            id,
                            entry_of(self@.directory, id),
                        ),
                    ]);
                },
                None => {},
            }
        }
        actions
    }

    fn do_flags(&mut self, conn: Option<u64>, id: u16, flags: u8) -> (actions: Vec<ServerAction>)
        requires
            old(self).wf(),
        ensures
            final(self).wf(),
            (final(self)@, actions_model(actions@)) == flags_step(old(self)@, conn, id, flags),
    {
        let mut actions: Vec<ServerAction> = Vec::new();
        assert(actions_model(actions@) =~= Seq::<ServerActionModel>::empty());
        if self.directory.apply_flags_update(id, flags) {
            let packet = ReceivedPacket::EntryFlagsUpdate(EntryFlagsUpdate::new(id, flags));
            self.push_broadcast(conn, &packet, &mut actions);
        }
        actions
    }

    fn do_delete(&mut self, conn: Option<u64>, id: u16) -> (actions: Vec<ServerAction>)
        requires
            old(self).wf(),
        ensures
            final(self).wf(),
            (final(self)@, actions_model(actions@)) == delete_step(old(self)@, conn, id),
    {
        let mut actions: Vec<ServerAction> = Vec::new();
        assert(actions_model(actions@) =~= Seq::<ServerActionModel>::empty());
        match self.directory.apply_delete(id) {
            Some(e) => {
                let packet = ReceivedPacket::EntryDelete(EntryDelete::new(id));
                self.push_broadcast(conn, &packet, &mut actions);
                let ghost before = actions_model(actions@);
                actions.push(ServerAction::Notify(CallbackType::Delete, id, e));
                assert(actions_model(actions@) =~= before + seq![
                    ServerActionModel::Notify(
                        CallbackType::Delete,
                        id,
                        entry_of(old(self)@.directory, id),
                    ),
                ]);
            },
            None => {},
        }
        actions
    }

    fn do_clear(&mut self, conn: Option<u64>, magic: u32) -> (actions: Vec<ServerAction>)
        requires
            old(self).wf(),
        ensures
            final(self).wf(),
            (final(self)@, actions_model(actions@)) == clear_step(old(self)@, conn, magic),
    {
        let mut actions: Vec<ServerAction> = Vec::new();
        assert(actions_model(actions@) =~= Seq::<ServerActionModel>::empty());
        if self.directory.apply_clear(magic) {
            let packet = ReceivedPacket::ClearAllEntries(ClearAllEntries { magic });
            self.push_broadcast(conn, &packet, &mut actions);
        }
        actions
    }

    #[verifier::rlimit(50)]
    fn on_entry_packet(&mut self, conn: u64, packet: ReceivedPacket) -> (actions: Vec<
        ServerAction,
    >)
        requires
            old(self).wf(),
        ensures
            final(self).wf(),
            (final(self)@, actions_model(actions@)) == entry_step(old(self)@, conn, packet@),
    {
        match packet {
            ReceivedPacket::EntryAssignment(p) => {
                self.do_create(p.entry_name, p.entry_id, p.entry_flags, p.entry_value).1
            },
            ReceivedPacket::EntryUpdate(p) => {
                self.do_update(Some(conn), p.entry_id, p.entry_seqnum, p.entry_type, p.entry_value)
            },
            ReceivedPacket::EntryFlagsUpdate(p) => self.do_flags(
                Some(conn),
                p.entry_id,
                p.entry_flags,
            ),
            ReceivedPacket::EntryDelete(p) => self.do_delete(Some(conn), p.entry_id),
            ReceivedPacket::ClearAllEntries(p) => self.do_clear(Some(conn), p.magic),
            ReceivedPacket::RpcExecute(p) => {
                let mut actions: Vec<ServerAction> = Vec::new();
                if contains_id(&self.rpcs, p.entry_id) {
                    actions.push(ServerAction::RunRpc(conn, p.entry_id, p.unique_id, p.parameter));
                } else {
                    actions.push(
                        ServerAction::Send(
                            conn,
                            ReceivedPacket::RpcResponse(
                                RpcResponse::new(p.entry_id, p.unique_id, Vec::new()),
                            ),
                        ),
                    );
                }
                assert(actions_model(actions@) =~= entry_step(old(self)@, conn, packet@).1);
                actions
            },
            _ => {
                let actions: Vec<ServerAction> = Vec::new();
                assert(actions_model(actions@) =~= Seq::<ServerActionModel>::empty());
                actions
            },
        }
    }

    /// Takes a message from the connection `conn`: the state moves as the protocol says, and
    /// the actions that the message calls for are returned in the order in which they are due.
    #[verifier::rlimit(50)]
    pub fn handle_packet(&mut self, conn: u64, packet: ReceivedPacket) -> (actions: Vec<
        ServerAction,
    >)
        requires
            old(self).wf(),
        ensures
            final(self).wf(),
            (final(self)@, actions_model(actions@)) == server_step(old(self)@, conn, packet@),
    {
        let nothing: Vec<ServerAction> = Vec::new();
        assert(actions_model(nothing@) =~= Seq::<ServerActionModel>::empty());
        match self.phase(conn) {
            Some(ClientPhase::AwaitClientHello) => match packet {
                ReceivedPacket::ClientHello(p) => self.on_hello(conn, p.version),
                _ => nothing,
            },
            Some(ClientPhase::AwaitClientHelloComplete) => match packet {
                ReceivedPacket::ClientHelloComplete => {
                    let mut actions: Vec<ServerAction> = Vec::new();
                    actions.push(
                        ServerAction::NotifyConnection(ConnectionCallbackType::ClientConnected, conn),
                    );
                    self.set_phase(conn, ClientPhase::Connected);
                    assert(actions_model(actions@) =~= server_step(old(self)@, conn, packet@).1);
                    actions
                },
                ReceivedPacket::EntryAssignment(_) => self.on_entry_packet(conn, packet),
                _ => nothing,
            },
            Some(ClientPhase::Connected) => self.on_entry_packet(conn, packet),
            _ => nothing,
        }
    }
}

/// What the server's own `update_entry` does: an entry of the value's type takes the value
/// and the next sequence number, every listening client is sent the update, and the local
/// observers are told; any other id changes nothing.
pub open spec fn local_update_step(s: ServerModel, id: u16, value: ValueModel) -> (
    ServerModel,
    Seq<ServerActionModel>,
) {
    if has_id(s.directory, id) && entry_of(s.directory, id).value.entry_type()
        == value.entry_type() {
        update_step(
            s,
            None,
            id,
            seq_successor(entry_of(s.directory, id).seqnum),
            value.entry_type(),
            value,
        )
    } else {
        (s, Seq::empty())
    }
}

/// What the end of a handler does: the caller gets the handler's result, or an empty one
/// where the handler failed. A caller that is gone, or not connected, gets nothing.
pub open spec fn finished_step(
    s: ServerModel,
    conn: u64,
    id: u16,
    unique: u16,
    result: Option<Seq<u8>>,
) -> Seq<ServerActionModel> {
    if has_client(s.clients, conn) && phase_of(s.clients, conn) == ClientPhase::Connected {
        seq![
            ServerActionModel::Send(
                conn,
                PacketModel::RpcResponse {
                    entry_id: id,
                    unique_id: unique,
                    result: match result {
                        Some(bytes) => bytes,
                        None => Seq::empty(),
                    },
                },
            ),
        ]
    } else {
        Seq::empty()
    }
}

impl ServerState {
    /// Creates an entry on the server itself.
    ///
    /// A new name gets the first free id and the sequence number 1, whatever `data` says of
    /// it; the entry is announced to every listening client and to the local observers. A
    /// name that exists keeps its entry, whose id is returned. Where every id is taken the
    /// result is `Exhausted`.
    pub fn create_entry(&mut self, data: EntryData) -> (res: Result<
        (u16, Vec<ServerAction>),
        Error,
    >)
        requires
            old(self).wf(),
        ensures
            final(self).wf(),
            match res {
                Ok((id, actions)) => {
                    &&& (final(self)@, actions_model(actions@)) == create_step(
                        old(self)@,
                        data@.name,
                        UNASSIGNED_ID,
                        data@.flags,
                        data@.value,
                    )
                    &&& if has_name(old(self)@.directory, data@.name) {
                        id == old(self)@.directory[index_of_name(
                            old(self)@.directory,
                            data@.name,
                        )].0
                    } else {
                        allocation(old(self)@.directory, old(self)@.next_id) == Some(id)
                    }
                },
                Err(e) => {
                    &&& e == Error::Exhausted
                    &&& final(self)@ == old(self)@
                    &&& !has_name(old(self)@.directory, data@.name)
                    &&& allocation(old(self)@.directory, old(self)@.next_id) == None::<u16>
                },
            },
    {
        match self.directory.id_of(&data.name) {
            Some(id) => {
                let actions: Vec<ServerAction> = Vec::new();
                assert(actions_model(actions@) =~= Seq::<ServerActionModel>::empty());
                Ok((id, actions))
            },
            None => {
                let (id, actions) = self.do_create(
                    data.name,
                    UNASSIGNED_ID,
                    data.flags,
                    data.value,
                );
                match id {
                    Some(id) => Ok((id, actions)),
                    None => Err(Error::Exhausted),
                }
            },
        }
    }

    /// Creates the entry of a procedure and notes that the procedure has a handler. The
    /// handler itself is kept by the caller, under the id that is returned.
    pub fn create_rpc(&mut self, data: EntryData) -> (res: Result<(u16, Vec<ServerAction>), Error>)
        requires
            old(self).wf(),
        ensures
            final(self).wf(),
            match res {
                Ok((id, actions)) => {
                    let created = create_step(
                        old(self)@,
                        data@.name,
                        UNASSIGNED_ID,
                        data@.flags,
                        data@.value,
                    );
                    &&& final(self)@ == (ServerModel {
                        rpcs: if old(self)@.rpcs.contains(id) {
                            old(self)@.rpcs
                        } else {
                            old(self)@.rpcs.push(id)
                        },
                        ..created.0
                    })
                    &&& actions_model(actions@) == created.1
                    &&& final(self)@.rpcs.contains(id)
                    &&& if has_name(old(self)@.directory, data@.name) {
                        id == old(self)@.directory[index_of_name(
                            old(self)@.directory,
                            data@.name,
                        )].0
                    } else {
                        allocation(old(self)@.directory, old(self)@.next_id) == Some(id)
                    }
                },
                Err(e) => {
                    &&& e == Error::Exhausted
                    &&& final(self)@ == old(self)@
                    &&& !has_name(old(self)@.directory, data@.name)
                    &&& allocation(old(self)@.directory, old(self)@.next_id) == None::<u16>
                },
            },
    {
        match self.create_entry(data) {
            Ok((id, actions)) => {
                if !contains_id(&self.rpcs, id) {
                    self.rpcs.push(id);
                    assert(self.rpcs@[self.rpcs@.len() - 1] == id);
                }
                Ok((id, actions))
            },
            Err(e) => Err(e),
        }
    }

    /// Deletes an entry on the server itself: as a delete from a client, sent to every
    /// listening client.
    pub fn delete_entry(&mut self, id: u16) -> (actions: Vec<ServerAction>)
        requires
            old(self).wf(),
        ensures
            final(self).wf(),
            (final(self)@, actions_model(actions@)) == delete_step(old(self)@, None, id),
    {
        self.do_delete(None, id)
    }

    /// Gives an entry a new value on the server itself; see `local_update_step`.
    pub fn update_entry(&mut self, id: u16, new_value: EntryValue) -> (actions: Vec<ServerAction>)
        requires
            old(self).wf(),
        ensures
            final(self).wf(),
            (final(self)@, actions_model(actions@)) == local_update_step(
                old(self)@,
                id,
                new_value@,
            ),
    {
        let current = match self.directory.get(id) {
            Some(e) => Some((e.seqnum, e.entry_type())),
            None => None,
        };
        match current {
            Some((seqnum, stored_type)) => {
                let entry_type = new_value.entry_type();
                if stored_type == entry_type {
                    return self.do_update(None, id, next_seqnum(seqnum), entry_type, new_value);
                }
            },
            None => {},
        }
        let actions: Vec<ServerAction> = Vec::new();
        assert(actions_model(actions@) =~= Seq::<ServerActionModel>::empty());
        actions
    }

    /// Gives an entry new flags on the server itself: as a flags update from a client, sent
    /// to every listening client.
    pub fn update_entry_flags(&mut self, id: u16, flags: u8) -> (actions: Vec<ServerAction>)
        requires
            old(self).wf(),
        ensures
            final(self).wf(),
            (final(self)@, actions_model(actions@)) == flags_step(old(self)@, None, id, flags),
    {
        self.do_flags(None, id, flags)
    }

    /// Clears the entries that are not persistent on the server itself, and tells every
    /// listening client.
    pub fn clear_entries(&mut self) -> (actions: Vec<ServerAction>)
        requires
            old(self).wf(),
        ensures
            final(self).wf(),
            (final(self)@, actions_model(actions@)) == clear_step(
                old(self)@,
                None,
                CLEAR_ALL_MAGIC,
            ),
    {
        self.do_clear(None, CLEAR_ALL_MAGIC)
    }

    /// Whether the entry with the id `id` has a handler.
    pub fn has_rpc(&self, id: u16) -> (b: bool)
        ensures
            b == self@.rpcs.contains(id),
    {
        contains_id(&self.rpcs, id)
    }

    /// The handler of a call has ended, with a result or, where `result` is none, in failure:
    /// the response for the caller; see `finished_step`.
    pub fn rpc_finished(&self, conn: u64, id: u16, unique: u16, result: Option<Vec<u8>>) -> (actions:
        Vec<ServerAction>)
        requires
            self.wf(),
        ensures
            actions_model(actions@) == finished_step(
                self@,
                conn,
                id,
                unique,
                match result {
                    Some(bytes) => Some(bytes@),
                    None => None,
                },
            ),
    {
        let mut actions: Vec<ServerAction> = Vec::new();
        assert(actions_model(actions@) =~= Seq::<ServerActionModel>::empty());
        match self.phase(conn) {
            Some(ClientPhase::Connected) => {
                let bytes = match result {
                    Some(bytes) => bytes,
                    None => Vec::new(),
                };
                let ghost sent = bytes@;
                actions.push(
                    ServerAction::Send(
                        conn,
                        ReceivedPacket::RpcResponse(RpcResponse::new(id, unique, bytes)),
                    ),
                );
                assert(actions_model(actions@) =~= seq![
                    ServerActionModel::Send(
                        conn,
                        PacketModel::RpcResponse { entry_id: id, unique_id: unique, result: sent },
                    ),
                ]);
            },
            _ => {},
        }
        actions
    }
}

/// A broadcast is one message for each client that it reaches: the same message every time,
/// only for clients of the table that are listening, and never for the one that is left out.
pub proof fn lemma_broadcast_recipients(clients: Seq<ClientRow>, except: Option<u64>, p: PacketModel)
    ensures
        forall|i: int|
            0 <= i < broadcast(clients, except, p).len() ==> {
                let action = #[trigger] broadcast(clients, except, p)[i];
                &&& action is Send
                &&& action->Send_1 == p
                &&& except != Some(action->Send_0)
                &&& has_client(clients, action->Send_0)
                &&& exists|j: int|
                    0 <= j < clients.len() && (#[trigger] clients[j]).0 == action->Send_0
                        && listening(clients[j].1)
            },
{
    let keep = gets_broadcast(except);
    let reached = clients.filter(keep);
    assert forall|i: int| 0 <= i < broadcast(clients, except, p).len() implies {
        let action = #[trigger] broadcast(clients, except, p)[i];
        &&& action is Send
        &&& action->Send_1 == p
        &&& except != Some(action->Send_0)
        &&& has_client(clients, action->Send_0)
        &&& exists|j: int|
            0 <= j < clients.len() && (#[trigger] clients[j]).0 == action->Send_0 && listening(
                clients[j].1,
            )
    } by {
        let row = reached[i];
        clients.lemma_filter_pred(keep, i);
        assert(reached.contains(row));
        clients.lemma_filter_contains_rev(keep, row);
        let j = choose|j: int| 0 <= j < clients.len() && clients[j] == row;
        assert(clients[j].0 == row.0 && listening(clients[j].1));
    }
}

/// An update that the directory does not take calls for nothing: no client hears of it and no
/// observer is told.
pub proof fn lemma_rejected_update_is_silent(
    s: ServerModel,
    conn: Option<u64>,
    id: u16,
    seqnum: u16,
    ty: EntryType,
    value: ValueModel,
)
    requires
        !update_accepted(s.directory, id, seqnum, ty, value),
    ensures
        update_step(s, conn, id, seqnum, ty, value) == (s, Seq::<ServerActionModel>::empty()),
{
    crate::directory::lemma_rejected_update_changes_nothing(s.directory, id, seqnum, ty, value);
}

/// In a table without repeated connections, the row of a connection is where one finds it.
pub proof fn lemma_index_of_client(clients: Seq<ClientRow>, conn: u64, i: int)
    requires
        clients_wf(clients),
        0 <= i < clients.len(),
        clients[i].0 == conn,
    ensures
        has_client(clients, conn),
        index_of_client(clients, conn) == i,
{
    let k = index_of_client(clients, conn);
    if k < i {
        assert(clients[k].0 != clients[i].0);
    } else if i < k {
        assert(clients[i].0 != clients[k].0);
    }
}

} // verus!

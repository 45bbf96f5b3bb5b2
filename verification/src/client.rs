//! The client's side of a connection: what a client does with what arrives and with what its
//! user asks for.
//!
//! The state machine decides; it does not perform. Every step returns the actions that the
//! caller is to carry out, in order: open the transport, send a message, run callbacks.

use crate::callback::{CallbackType, ConnectionCallbackType};
use crate::directory::{
    assigned, assignment_outcome, candidate, cleared, entry_of, has_id, has_name, index_of_name,
    lemma_candidate_reaches, lemma_first_candidate, lemma_one_left_out, model_wf, rows,
    update_accepted, updated, with_flags, without, Assigned, Directory, DirectoryModel, Slot,
};
use crate::entry::{next_seqnum, seq_successor, EntryData, EntryModel};
use crate::error::Error;
use crate::packets::{
    ClearAllEntries, ClientHello, EntryAssignment, EntryDelete, EntryFlagsUpdate, EntryUpdate,
    NTVersion, PacketModel, ReceivedPacket, RpcExecute, RpcResponse, CLEAR_ALL_MAGIC,
    UNASSIGNED_ID,
};
use crate::types::{EntryValue, ValueModel};
use crate::wire::texts;
use vstd::prelude::*;

verus! {

/// Where a client stands in the life of its connection.
#[derive(Clone, Copy, Debug, PartialEq, Eq, Structural)]
pub enum ConnectionState {
    /// No connection, and none asked for.
    Idle,
    /// The transport is being opened; the hello is on its way.
    Connecting,
    /// The transport is open; the server has not answered the hello.
    AwaitServerHello,
    /// The server has said hello and is sending its entries.
    ReceivingAssignments,
    /// The handshake is done.
    Connected,
    /// The connection is over.
    Closed,
}

/// What the caller of the state machine is to do.
#[derive(Clone, Debug, PartialEq, Eq)]
pub enum ClientAction {
    /// Open the transport to the server.
    OpenTransport,
    /// Send the message.
    Send(ReceivedPacket),
    /// Start sending a keep-alive once a second.
    StartKeepAlive,
    /// Close the transport.
    Close,
    /// Run the entry callbacks of this kind on this snapshot of the entry with this id.
    Notify(CallbackType, u16, EntryData),
    /// Run the connection callbacks of this kind.
    NotifyConnection(ConnectionCallbackType),
    /// The server has given this id to the entry of this name: resolve who waits for it.
    ResolveCreate(String, u16),
    /// Run, then drop, the callback of the call with these ids on this result.
    RpcResult(u16, u16, Vec<u8>),
    /// Tell the user that the connection failed.
    Fail(Error),
}

/// What an action is, as mathematics.
pub enum ClientActionModel {
    OpenTransport,
    Send(PacketModel),
    StartKeepAlive,
    Close,
    Notify(CallbackType, u16, EntryModel),
    NotifyConnection(ConnectionCallbackType),
    ResolveCreate(Seq<char>, u16),
    RpcResult(u16, u16, Seq<u8>),
    Fail(Error),
}

impl View for ClientAction {
    type V = ClientActionModel;

    open spec fn view(&self) -> ClientActionModel {
        match self {
            ClientAction::OpenTransport => ClientActionModel::OpenTransport,
            ClientAction::Send(p) => ClientActionModel::Send(p@),
            ClientAction::StartKeepAlive => ClientActionModel::StartKeepAlive,
            ClientAction::Close => ClientActionModel::Close,
            ClientAction::Notify(kind, id, e) => ClientActionModel::Notify(*kind, *id, e@),
            ClientAction::NotifyConnection(kind) => ClientActionModel::NotifyConnection(*kind),
            ClientAction::ResolveCreate(name, id) => ClientActionModel::ResolveCreate(name@, *id),
            ClientAction::RpcResult(id, unique, result) => ClientActionModel::RpcResult(
                *id,
                *unique,
                result@,
            ),
            ClientAction::Fail(e) => ClientActionModel::Fail(*e),
        }
    }
}

/// The models of a list of actions.
pub open spec fn actions_model(actions: Seq<ClientAction>) -> Seq<ClientActionModel> {
    actions.map_values(|a: ClientAction| a@)
}

/// What a client is, as mathematics.
pub struct ClientModel {
    pub state: ConnectionState,
    /// The name that the client gives in its hello.
    pub name: Seq<char>,
    /// The name that the server gave in its hello.
    pub server_name: Option<Seq<char>>,
    pub directory: DirectoryModel,
    /// The names for which an id is awaited, oldest first.
    pub pending_entries: Seq<Seq<char>>,
    /// The calls in flight: the id of the procedure and the unique id of the call.
    pub pending_rpcs: Seq<(u16, u16)>,
    /// The unique id from which the search for a free one starts.
    pub next_rpc_id: u16,
}

/// The test that a name is another one than `name`.
pub open spec fn other_name(name: Seq<char>) -> spec_fn(Seq<char>) -> bool {
    |n: Seq<char>| n != name
}

/// The test that a call is another one than the call with these ids.
pub open spec fn other_call(id: u16, unique: u16) -> spec_fn((u16, u16)) -> bool {
    |call: (u16, u16)| call != (id, unique)
}

/// The hello of a client with this name.
pub open spec fn hello(name: Seq<char>) -> PacketModel {
    PacketModel::ClientHello { version: NTVersion::V3, name }
}

/// What `connect` does: from `Idle` the client opens the transport and says hello; in any other
/// state nothing happens.
pub open spec fn connect_step(s: ClientModel) -> (ClientModel, Seq<ClientActionModel>) {
    if s.state == ConnectionState::Idle {
        (
            ClientModel { state: ConnectionState::Connecting, ..s },
            seq![ClientActionModel::OpenTransport, ClientActionModel::Send(hello(s.name))],
        )
    } else {
        (s, Seq::empty())
    }
}

/// What `reconnect` does: whatever the state, the client forgets the directory and what it
/// awaits, opens the transport and says hello.
pub open spec fn reconnect_step(s: ClientModel) -> (ClientModel, Seq<ClientActionModel>) {
    (
        ClientModel {
            state: ConnectionState::Connecting,
            server_name: None,
            directory: Seq::empty(),
            pending_entries: Seq::empty(),
            pending_rpcs: Seq::empty(),
            ..s
        },
        seq![ClientActionModel::OpenTransport, ClientActionModel::Send(hello(s.name))],
    )
}

/// What an assignment does to a client that takes assignments.
pub open spec fn assignment_step(
    s: ClientModel,
    name: Seq<char>,
    ty: crate::types::EntryType,
    id: u16,
    seqnum: u16,
    flags: u8,
    value: ValueModel,
) -> (ClientModel, Seq<ClientActionModel>) {
    let after = assigned(s.directory, name, ty, id, seqnum, flags, value);
    let resolves = id != UNASSIGNED_ID && s.pending_entries.contains(name);
    let resolve = if resolves {
        seq![ClientActionModel::ResolveCreate(name, id)]
    } else {
        Seq::empty()
    };
    let notify = if assignment_outcome(s.directory, name, ty, id, seqnum, value)
        != Assigned::Ignored {
        let row = after[index_of_name(after, name)];
        seq![ClientActionModel::Notify(CallbackType::Add, row.0, row.1)]
    } else {
        Seq::empty()
    };
    (
        ClientModel {
            directory: after,
            pending_entries: if resolves {
                s.pending_entries.filter(other_name(name))
            } else {
                s.pending_entries
            },
            ..s
        },
        resolve + notify,
    )
}

/// What a message does to a client that awaits the server's hello.
pub open spec fn hello_step(s: ClientModel, p: PacketModel) -> (
    ClientModel,
    Seq<ClientActionModel>,
) {
    match p {
        PacketModel::ProtocolVersionUnsupported { supported_version } => (
            ClientModel { state: ConnectionState::Closed, ..s },
            seq![
                ClientActionModel::Fail(Error::UnsupportedVersion { supported: supported_version }),
                ClientActionModel::Close,
            ],
        ),
        PacketModel::ServerHello { flags, name } => (
            ClientModel {
                state: ConnectionState::ReceivingAssignments,
                server_name: Some(name),
                ..s
            },
            Seq::empty(),
        ),
        _ => (s, Seq::empty()),
    }
}

/// What a message does to a client that is taking in the server's entries.
pub open spec fn receiving_step(s: ClientModel, p: PacketModel) -> (
    ClientModel,
    Seq<ClientActionModel>,
) {
    match p {
        PacketModel::EntryAssignment {
            entry_name,
            entry_type,
            entry_id,
            entry_seqnum,
            entry_flags,
            entry_value,
        } => assignment_step(
            s,
            entry_name,
            entry_type,
            entry_id,
            entry_seqnum,
            entry_flags,
            entry_value,
        ),
        PacketModel::ServerHelloComplete => (
            ClientModel { state: ConnectionState::Connected, ..s },
            seq![
                ClientActionModel::Send(PacketModel::ClientHelloComplete),
                ClientActionModel::StartKeepAlive,
                ClientActionModel::NotifyConnection(ConnectionCallbackType::ClientConnected),
            ],
        ),
        _ => (s, Seq::empty()),
    }
}

/// What a message does to a connected client.
pub open spec fn connected_step(s: ClientModel, p: PacketModel) -> (
    ClientModel,
    Seq<ClientActionModel>,
) {
    match p {
        PacketModel::EntryAssignment {
            entry_name,
            entry_type,
            entry_id,
            entry_seqnum,
            entry_flags,
            entry_value,
        } => assignment_step(
            s,
            entry_name,
            entry_type,
            entry_id,
            entry_seqnum,
            entry_flags,
            entry_value,
        ),
        PacketModel::EntryUpdate { entry_id, entry_seqnum, entry_type, entry_value } => {
            let after = updated(s.directory, entry_id, entry_seqnum, entry_type, entry_value);
            (
                ClientModel { directory: after, ..s },
                if update_accepted(s.directory, entry_id, entry_seqnum, entry_type, entry_value) {
                    seq![
                        ClientActionModel::Notify(
                            CallbackType::Update,
                            entry_id,
                            entry_of(after, entry_id),
                        ),
                    ]
                } else {
                    Seq::empty()
                },
            )
        },
        PacketModel::EntryFlagsUpdate { entry_id, entry_flags } => (
            ClientModel { directory: with_flags(s.directory, entry_id, entry_flags), ..s },
            Seq::empty(),
        ),
        PacketModel::EntryDelete { entry_id } => (
            ClientModel { directory: without(s.directory, entry_id), ..s },
            if has_id(s.directory, entry_id) {
                seq![
                    ClientActionModel::Notify(
                        CallbackType::Delete,
                        entry_id,
                        entry_of(s.directory, entry_id),
                    ),
                ]
            } else {
                Seq::empty()
            },
        ),
        PacketModel::ClearAllEntries { magic } => (
            ClientModel { directory: cleared(s.directory, magic), ..s },
            Seq::empty(),
        ),
        PacketModel::RpcResponse { entry_id, unique_id, result } => if s.pending_rpcs.contains(
            (entry_id, unique_id),
        ) {
            (
                ClientModel {
                    pending_rpcs: s.pending_rpcs.filter(other_call(entry_id, unique_id)),
                    ..s
                },
                seq![ClientActionModel::RpcResult(entry_id, unique_id, result)],
            )
        } else {
            (s, Seq::empty())
        },
        _ => (s, Seq::empty()),
    }
}

/// What a message from the server does to a client, and what the client does about it.
pub open spec fn client_step(s: ClientModel, p: PacketModel) -> (
    ClientModel,
    Seq<ClientActionModel>,
) {
    match s.state {
        ConnectionState::Connecting | ConnectionState::AwaitServerHello => hello_step(s, p),
        ConnectionState::ReceivingAssignments => receiving_step(s, p),
        ConnectionState::Connected => connected_step(s, p),
        _ => (s, Seq::empty()),
    }
}

/// What the loss of the transport does: a connected client tells its observers, a client in
/// the handshake tells its user that the connection was aborted; either way the client is
/// closed. A client without a connection stays as it is.
pub open spec fn broken_step(s: ClientModel) -> (ClientModel, Seq<ClientActionModel>) {
    match s.state {
        ConnectionState::Connected => (
            ClientModel { state: ConnectionState::Closed, ..s },
            seq![ClientActionModel::NotifyConnection(ConnectionCallbackType::ClientDisconnected)],
        ),
        ConnectionState::Connecting
        | ConnectionState::AwaitServerHello
        | ConnectionState::ReceivingAssignments => (
            ClientModel { state: ConnectionState::Closed, ..s },
            seq![ClientActionModel::Fail(Error::ConnectionAborted)],
        ),
        _ => (s, Seq::empty()),
    }
}

/// The assignment by which a client asks the server to create `e`.
pub open spec fn create_request(e: EntryModel) -> PacketModel {
    PacketModel::EntryAssignment {
        entry_name: e.name,
        entry_type: e.value.entry_type(),
        entry_id: UNASSIGNED_ID,
        entry_seqnum: e.seqnum,
        entry_flags: e.flags,
        entry_value: e.value,
    }
}

/// What `create_entry` does. A client that is not connected fails. A name that the client
/// knows resolves at once with its id. A name that is awaited already shares that wait. Any
/// other name is awaited from now on, and the server is asked for an id.
pub open spec fn create_step(s: ClientModel, e: EntryModel) -> Result<
    (ClientModel, Seq<ClientActionModel>),
    Error,
> {
    if s.state != ConnectionState::Connected {
        Err(Error::BrokenPipe)
    } else if has_name(s.directory, e.name) {
        Ok(
            (
                s,
                seq![
                    ClientActionModel::ResolveCreate(
                        e.name,
                        s.directory[index_of_name(s.directory, e.name)].0,
                    ),
                ],
            ),
        )
    } else if s.pending_entries.contains(e.name) {
        Ok((s, Seq::empty()))
    } else {
        Ok(
            (
                ClientModel { pending_entries: s.pending_entries.push(e.name), ..s },
                seq![ClientActionModel::Send(create_request(e))],
            ),
        )
    }
}

/// What `delete_entry` does: the entry goes, and the server is told if there was one.
pub open spec fn delete_step(s: ClientModel, id: u16) -> Result<
    (ClientModel, Seq<ClientActionModel>),
    Error,
> {
    if s.state != ConnectionState::Connected {
        Err(Error::BrokenPipe)
    } else {
        Ok(
            (
                ClientModel { directory: without(s.directory, id), ..s },
                if has_id(s.directory, id) {
                    seq![ClientActionModel::Send(PacketModel::EntryDelete { entry_id: id })]
                } else {
                    Seq::empty()
                },
            ),
        )
    }
}

/// What `update_entry` does: an entry of the value's type takes the value and the next
/// sequence number, and the server is told; any other id changes nothing.
pub open spec fn update_step(s: ClientModel, id: u16, value: ValueModel) -> Result<
    (ClientModel, Seq<ClientActionModel>),
    Error,
> {
    if s.state != ConnectionState::Connected {
        Err(Error::BrokenPipe)
    } else if has_id(s.directory, id) && entry_of(s.directory, id).value.entry_type()
        == value.entry_type() {
        let seqnum = seq_successor(entry_of(s.directory, id).seqnum);
        Ok(
            (
                ClientModel {
                    directory: updated(s.directory, id, seqnum, value.entry_type(), value),
                    ..s
                },
                seq![
                    ClientActionModel::Send(
                        PacketModel::EntryUpdate {
                            entry_id: id,
                            entry_seqnum: seqnum,
                            entry_type: value.entry_type(),
                            entry_value: value,
                        },
                    ),
                ],
            ),
        )
    } else {
        Ok((s, Seq::empty()))
    }
}

/// What `update_entry_flags` does: the entry takes the flags, and the server is told if there
/// is such an entry.
pub open spec fn flags_step(s: ClientModel, id: u16, flags: u8) -> Result<
    (ClientModel, Seq<ClientActionModel>),
    Error,
> {
    if s.state != ConnectionState::Connected {
        Err(Error::BrokenPipe)
    } else {
        Ok(
            (
                ClientModel { directory: with_flags(s.directory, id, flags), ..s },
                if has_id(s.directory, id) {
                    seq![
                        ClientActionModel::Send(
                            PacketModel::EntryFlagsUpdate { entry_id: id, entry_flags: flags },
                        ),
                    ]
                } else {
                    Seq::empty()
                },
            ),
        )
    }
}

/// What `clear_entries` does: every entry that is not persistent goes, and the server is told.
pub open spec fn clear_step(s: ClientModel) -> Result<(ClientModel, Seq<ClientActionModel>), Error> {
    if s.state != ConnectionState::Connected {
        Err(Error::BrokenPipe)
    } else {
        Ok(
            (
                ClientModel { directory: cleared(s.directory, CLEAR_ALL_MAGIC), ..s },
                seq![
                    ClientActionModel::Send(PacketModel::ClearAllEntries { magic: CLEAR_ALL_MAGIC }),
                ],
            ),
        )
    }
}

/// No call in flight has the unique id `unique`.
pub open spec fn unique_is_free(pending: Seq<(u16, u16)>, unique: u16) -> bool {
    forall|i: int| 0 <= i < pending.len() ==> (#[trigger] pending[i]).1 != unique
}

/// `unique` is the first free unique id at or after `start`, going round after `0xFFFF`.
pub open spec fn unique_from(pending: Seq<(u16, u16)>, start: u16, unique: u16) -> bool {
    exists|k: int|
        0 <= k < 0x1_0000 && unique == #[trigger] candidate(start, k) && unique_is_free(
            pending,
            unique,
        ) && forall|j: int| 0 <= j < k ==> !unique_is_free(pending, #[trigger] candidate(start, j))
}

/// What a call with the unique id `unique` does to a connected client.
pub open spec fn call_step(s: ClientModel, id: u16, unique: u16, parameter: Seq<u8>) -> (
    ClientModel,
    Seq<ClientActionModel>,
) {
    (
        ClientModel {
            pending_rpcs: s.pending_rpcs.push((id, unique)),
            next_rpc_id: candidate(unique, 1),
            ..s
        },
        seq![
            ClientActionModel::Send(PacketModel::RpcExecute { entry_id: id, unique_id: unique, parameter }),
        ],
    )
}

fn contains_name(names: &Vec<String>, name: &String) -> (b: bool)
    ensures
        b == texts(names@).contains(name@),
{
    let mut i: usize = 0;
    while i < names.len()
        invariant
            i <= names@.len(),
            forall|j: int| 0 <= j < i ==> (#[trigger] texts(names@)[j]) != name@,
        decreases names@.len() - i,
    {
        if names[i] == *name {
            assert(texts(names@)[i as int] == name@);
            return true;
        }
        i += 1;
    }
    false
}

fn remove_name(names: &mut Vec<String>, name: &String)
    ensures
        texts(final(names)@) == texts(old(names)@).filter(other_name(name@)),
{
    let ghost before = texts(names@);
    let ghost keep = other_name(name@);
    let mut all: Vec<String> = Vec::new();
    core::mem::swap(names, &mut all);
    assert(texts(names@) =~= before.take(0).filter(keep));
    for item in it: all
        invariant
            texts(it.seq()) == before,
            keep == other_name(name@),
            texts(names@) == before.take(it.index() as int).filter(keep),
    {
        proof {
            let k = it.index() as int;
            assert(before.take(k + 1) =~= before.take(k).push(before[k]));
            before.take(k).lemma_filter_push(before[k], keep);
        }
        let ghost kept = texts(names@);
        if item != *name {
            names.push(item);
            assert(texts(names@) =~= kept.push(item@));
        }
    }
    assert(before.take(before.len() as int) =~= before);
}

fn contains_call(calls: &Vec<(u16, u16)>, id: u16, unique: u16) -> (b: bool)
    ensures
        b == calls@.contains((id, unique)),
{
    let mut i: usize = 0;
    while i < calls.len()
        invariant
            i <= calls@.len(),
            forall|j: int| 0 <= j < i ==> (#[trigger] calls@[j]) != (id, unique),
        decreases calls@.len() - i,
    {
        if calls[i].0 == id && calls[i].1 == unique {
            return true;
        }
        i += 1;
    }
    false
}

fn remove_call(calls: &mut Vec<(u16, u16)>, id: u16, unique: u16)
    ensures
        final(calls)@ == old(calls)@.filter(other_call(id, unique)),
{
    let ghost before = calls@;
    let ghost keep = other_call(id, unique);
    let mut all: Vec<(u16, u16)> = Vec::new();
    core::mem::swap(calls, &mut all);
    assert(calls@ =~= before.take(0).filter(keep));
    for call in it: all
        invariant
            it.seq() == before,
            keep == other_call(id, unique),
            calls@ == before.take(it.index() as int).filter(keep),
    {
        proof {
            let k = it.index() as int;
            assert(before.take(k + 1) =~= before.take(k).push(before[k]));
            before.take(k).lemma_filter_push(before[k], keep);
        }
        if !(call.0 == id && call.1 == unique) {
            calls.push(call);
        }
    }
    assert(before.take(before.len() as int) =~= before);
}

fn unique_in_use(calls: &Vec<(u16, u16)>, unique: u16) -> (b: bool)
    ensures
        b == !unique_is_free(calls@, unique),
{
    let mut i: usize = 0;
    while i < calls.len()
        invariant
            i <= calls@.len(),
            forall|j: int| 0 <= j < i ==> (#[trigger] calls@[j]).1 != unique,
        decreases calls@.len() - i,
    {
        if calls[i].1 == unique {
            return true;
        }
        i += 1;
    }
    false
}

/// The state of a client.
pub struct ClientState {
    state: ConnectionState,
    name: String,
    server_name: Option<String>,
    directory: Directory,
    pending_entries: Vec<String>,
    pending_rpcs: Vec<(u16, u16)>,
    next_rpc_id: u16,
}

impl ClientState {
    pub closed spec fn view(&self) -> ClientModel {
        ClientModel {
            state: self.state,
            name: self.name@,
            server_name: match self.server_name {
                Some(n) => Some(n@),
                None => None,
            },
            directory: self.directory@,
            pending_entries: texts(self.pending_entries@),
            pending_rpcs: self.pending_rpcs@,
            next_rpc_id: self.next_rpc_id,
        }
    }

    /// The client's invariant: that of its directory.
    pub closed spec fn wf(&self) -> bool {
        self.directory.wf()
    }

    /// The invariant says of the model what the directory's invariant says.
    pub proof fn lemma_wf(&self)
        ensures
            self.wf() == model_wf(self@.directory),
    {
    }

    /// A client with the name `name` that has not asked for a connection.
    pub fn new(name: String) -> (c: ClientState)
        ensures
            c.wf(),
            c@ == (ClientModel {
                state: ConnectionState::Idle,
                name: name@,
                server_name: None,
                directory: Seq::empty(),
                pending_entries: Seq::empty(),
                pending_rpcs: Seq::empty(),
                next_rpc_id: 0,
            }),
    {
        let c = ClientState {
            state: ConnectionState::Idle,
            name,
            server_name: None,
            directory: Directory::new(),
            pending_entries: Vec::new(),
            pending_rpcs: Vec::new(),
            next_rpc_id: 0,
        };
        assert(texts(c.pending_entries@) =~= Seq::<Seq<char>>::empty());
        assert(c.pending_rpcs@ =~= Seq::<(u16, u16)>::empty());
        c
    }

    /// Where the client stands.
    pub fn state(&self) -> (s: ConnectionState)
        ensures
            s == self@.state,
    {
        self.state
    }

    /// Whether the handshake is done and the connection is up.
    pub fn connected(&self) -> (b: bool)
        ensures
            b == (self@.state == ConnectionState::Connected),
    {
        self.state == ConnectionState::Connected
    }

    /// A copy of the entries that the client knows, oldest first.
    pub fn entries(&self) -> (out: Vec<Slot>)
        ensures
            rows(out@) == self@.directory,
    {
        self.directory.snapshot()
    }

    /// A copy of the entry with the id `id`.
    pub fn get_entry(&self, id: u16) -> (r: Option<EntryData>)
        requires
            self.wf(),
        ensures
            match r {
                Some(e) => has_id(self@.directory, id) && e@ == entry_of(self@.directory, id),
                None => !has_id(self@.directory, id),
            },
    {
        match self.directory.get(id) {
            Some(e) => Some(e.duplicate()),
            None => None,
        }
    }

    fn hello_packet(&self) -> (p: ReceivedPacket)
        ensures
            p@ == hello(self@.name),
    {
        ReceivedPacket::ClientHello(ClientHello::new(NTVersion::V3, self.name.clone()))
    }

    /// Asks for a connection.
    pub fn connect(&mut self) -> (actions: Vec<ClientAction>)
        requires
            old(self).wf(),
        ensures
            final(self).wf(),
            (final(self)@, actions_model(actions@)) == connect_step(old(self)@),
    {
        let mut actions: Vec<ClientAction> = Vec::new();
        if self.state == ConnectionState::Idle {
            actions.push(ClientAction::OpenTransport);
            actions.push(ClientAction::Send(self.hello_packet()));
            self.state = ConnectionState::Connecting;
        }
        assert(actions_model(actions@) =~= connect_step(old(self)@).1);
        actions
    }

    /// Starts over after the connection was lost.
    pub fn reconnect(&mut self) -> (actions: Vec<ClientAction>)
        ensures
            final(self).wf(),
            (final(self)@, actions_model(actions@)) == reconnect_step(old(self)@),
    {
        let mut actions: Vec<ClientAction> = Vec::new();
        actions.push(ClientAction::OpenTransport);
        actions.push(ClientAction::Send(self.hello_packet()));
        self.state = ConnectionState::Connecting;
        self.server_name = None;
        self.directory = Directory::new();
        self.pending_entries = Vec::new();
        self.pending_rpcs = Vec::new();
        assert(actions_model(actions@) =~= reconnect_step(old(self)@).1);
        assert(texts(self.pending_entries@) =~= Seq::<Seq<char>>::empty());
        assert(self.pending_rpcs@ =~= Seq::<(u16, u16)>::empty());
        actions
    }

    /// The transport is open: the client now awaits the server's hello.
    pub fn transport_opened(&mut self)
        requires
            old(self).wf(),
        ensures
            final(self).wf(),
            final(self)@ == if old(self)@.state == ConnectionState::Connecting {
                ClientModel { state: ConnectionState::AwaitServerHello, ..old(self)@ }
            } else {
                old(self)@
            },
    {
        if self.state == ConnectionState::Connecting {
            self.state = ConnectionState::AwaitServerHello;
        }
    }

    /// The transport is lost.
    pub fn transport_broken(&mut self) -> (actions: Vec<ClientAction>)
        requires
            old(self).wf(),
        ensures
            final(self).wf(),
            (final(self)@, actions_model(actions@)) == broken_step(old(self)@),
    {
        let mut actions: Vec<ClientAction> = Vec::new();
        match self.state {
            ConnectionState::Connected => {
                actions.push(
                    ClientAction::NotifyConnection(ConnectionCallbackType::ClientDisconnected),
                );
                self.state = ConnectionState::Closed;
            },
            ConnectionState::Connecting
            | ConnectionState::AwaitServerHello
            | ConnectionState::ReceivingAssignments => {
                actions.push(ClientAction::Fail(Error::ConnectionAborted));
                self.state = ConnectionState::Closed;
            },
            _ => {},
        }
        assert(actions_model(actions@) =~= broken_step(old(self)@).1);
        actions
    }

    /// The keep-alive that is due once a second while the client is connected.
    pub fn keep_alive(&self) -> (actions: Vec<ClientAction>)
        ensures
            actions_model(actions@) == if self@.state == ConnectionState::Connected {
                seq![ClientActionModel::Send(PacketModel::KeepAlive)]
            } else {
                Seq::empty()
            },
    {
        let mut actions: Vec<ClientAction> = Vec::new();
        if self.state == ConnectionState::Connected {
            actions.push(ClientAction::Send(ReceivedPacket::KeepAlive));
            assert(actions_model(actions@) =~= seq![
                ClientActionModel::Send(PacketModel::KeepAlive),
            ]);
        } else {
            assert(actions_model(actions@) =~= Seq::<ClientActionModel>::empty());
        }
        actions
    }

    #[verifier::rlimit(50)]
    fn on_assignment(&mut self, ea: EntryAssignment) -> (actions: Vec<ClientAction>)
        requires
            old(self).wf(),
        ensures
            final(self).wf(),
            (final(self)@, actions_model(actions@)) == assignment_step(
                old(self)@,
                ea.entry_name@,
                ea.entry_type,
                ea.entry_id,
                ea.entry_seqnum,
                ea.entry_flags,
                ea.entry_value@,
            ),
    {
        let ghost expected = assignment_step(
            old(self)@,
            ea.entry_name@,
            ea.entry_type,
            ea.entry_id,
            ea.entry_seqnum,
            ea.entry_flags,
            ea.entry_value@,
        );
        let mut actions: Vec<ClientAction> = Vec::new();
        let name = ea.entry_name.clone();
        if ea.entry_id != UNASSIGNED_ID && contains_name(&self.pending_entries, &name) {
            remove_name(&mut self.pending_entries, &name);
            actions.push(ClientAction::ResolveCreate(name.clone(), ea.entry_id));
        }
        let outcome = self.directory.apply_assignment(
            ea.entry_name,
            ea.entry_type,
            ea.entry_id,
            ea.entry_seqnum,
            ea.entry_flags,
            ea.entry_value,
        );
        if outcome != Assigned::Ignored {
            proof {
                lemma_assignment_keeps_name(
                    old(self)@.directory,
                    name@,
                    ea.entry_type,
                    ea.entry_id,
                    ea.entry_seqnum,
                    ea.entry_flags,
                    ea.entry_value@,
                );
            }
            match self.directory.find(&name) {
                Some((id, e)) => {
                    actions.push(ClientAction::Notify(CallbackType::Add, id, e.duplicate()));
                },
                None => {},
            }
        }
        assert(actions_model(actions@) =~= expected.1);
        actions
    }

    /// Takes a message from the server: the state moves as the protocol says, and the actions
    /// that the message calls for are returned in the order in which they are due.
    #[verifier::rlimit(50)]
    pub fn handle_packet(&mut self, packet: ReceivedPacket) -> (actions: Vec<ClientAction>)
        requires
            old(self).wf(),
        ensures
            final(self).wf(),
            (final(self)@, actions_model(actions@)) == client_step(old(self)@, packet@),
    {
        let ghost expected = client_step(old(self)@, packet@);
        let mut actions: Vec<ClientAction> = Vec::new();
        match self.state {
            ConnectionState::Connecting | ConnectionState::AwaitServerHello => {
                match packet {
                    ReceivedPacket::ProtocolVersionUnsupported(p) => {
                        actions.push(
                            ClientAction::Fail(
                                Error::UnsupportedVersion { supported: p.supported_version },
                            ),
                        );
                        actions.push(ClientAction::Close);
                        self.state = ConnectionState::Closed;
                    },
                    ReceivedPacket::ServerHello(p) => {
                        self.server_name = Some(p.name);
                        self.state = ConnectionState::ReceivingAssignments;
                    },
                    _ => {},
                }
            },
            ConnectionState::ReceivingAssignments => {
                match packet {
                    ReceivedPacket::EntryAssignment(ea) => {
                        return self.on_assignment(ea);
                    },
                    ReceivedPacket::ServerHelloComplete => {
                        actions.push(ClientAction::Send(ReceivedPacket::ClientHelloComplete));
                        actions.push(ClientAction::StartKeepAlive);
                        actions.push(
                            ClientAction::NotifyConnection(ConnectionCallbackType::ClientConnected),
                        );
                        self.state = ConnectionState::Connected;
                    },
                    _ => {},
                }
            },
            ConnectionState::Connected => {
                match packet {
                    ReceivedPacket::EntryAssignment(ea) => {
                        return self.on_assignment(ea);
                    },
                    ReceivedPacket::EntryUpdate(eu) => {
                        let id = eu.entry_id;
                        let accepted = self.directory.apply_update(
                            id,
                            eu.entry_seqnum,
                            eu.entry_type,
                            eu.entry_value,
                        );
                        if accepted {
                            proof {
                                lemma_update_keeps_id(
                                    old(self)@.directory,
                                    id,
                                    eu.entry_seqnum,
                                    eu.entry_type,
                                    eu.entry_value@,
                                );
                            }
                            match self.directory.get(id) {
                                Some(e) => {
                                    actions.push(
                                        ClientAction::Notify(CallbackType::Update, id, e.duplicate()),
                                    );
                                },
                                None => {},
                            }
                        }
                    },
                    ReceivedPacket::EntryFlagsUpdate(p) => {
                        self.directory.apply_flags_update(p.entry_id, p.entry_flags);
                    },
                    ReceivedPacket::EntryDelete(p) => {
                        match self.directory.apply_delete(p.entry_id) {
                            Some(e) => {
                                actions.push(ClientAction::Notify(CallbackType::Delete, p.entry_id, e));
                            },
                            None => {},
                        }
                    },
                    ReceivedPacket::ClearAllEntries(p) => {
                        self.directory.apply_clear(p.magic);
                    },
                    ReceivedPacket::RpcResponse(p) => {
                        if contains_call(&self.pending_rpcs, p.entry_id, p.unique_id) {
                            remove_call(&mut self.pending_rpcs, p.entry_id, p.unique_id);
                            actions.push(ClientAction::RpcResult(p.entry_id, p.unique_id, p.result));
                        }
                    },
                    _ => {},
                }
            },
            _ => {},
        }
        assert(actions_model(actions@) =~= expected.1);
        actions
    }
}

/// A step that the user asked for came out as the model says: the same state and actions, or
/// the same failure with the state as it was.
pub open spec fn step_agrees(
    res: Result<Vec<ClientAction>, Error>,
    before: ClientModel,
    after: ClientModel,
    expected: Result<(ClientModel, Seq<ClientActionModel>), Error>,
) -> bool {
    match (res, expected) {
        (Ok(actions), Ok((m, a))) => after == m && actions_model(actions@) == a,
        (Err(e), Err(f)) => e == f && after == before,
        _ => false,
    }
}

impl ClientState {
    /// Asks the server to create an entry; see `create_step`.
    pub fn create_entry(&mut self, data: EntryData) -> (res: Result<Vec<ClientAction>, Error>)
        requires
            old(self).wf(),
        ensures
            final(self).wf(),
            step_agrees(res, old(self)@, final(self)@, create_step(old(self)@, data@)),
    {
        if self.state != ConnectionState::Connected {
            return Err(Error::BrokenPipe);
        }
        let mut actions: Vec<ClientAction> = Vec::new();
        match self.directory.id_of(&data.name) {
            Some(id) => {
                actions.push(ClientAction::ResolveCreate(data.name, id));
            },
            None => {
                if !contains_name(&self.pending_entries, &data.name) {
                    let ghost before = texts(self.pending_entries@);
                    self.pending_entries.push(data.name.clone());
                    assert(texts(self.pending_entries@) =~= before.push(data.name@));
                    let entry_type = data.entry_type();
                    actions.push(
                        ClientAction::Send(
                            ReceivedPacket::EntryAssignment(
                                EntryAssignment::new(
                                    data.name,
                                    entry_type,
                                    UNASSIGNED_ID,
                                    data.seqnum,
                                    data.flags,
                                    data.value,
                                ),
                            ),
                        ),
                    );
                }
            },
        }
        assert(actions_model(actions@) =~= create_step(old(self)@, data@)->Ok_0.1);
        Ok(actions)
    }

    /// Deletes an entry here and tells the server; see `delete_step`.
    pub fn delete_entry(&mut self, id: u16) -> (res: Result<Vec<ClientAction>, Error>)
        requires
            old(self).wf(),
        ensures
            final(self).wf(),
            step_agrees(res, old(self)@, final(self)@, delete_step(old(self)@, id)),
    {
        if self.state != ConnectionState::Connected {
            return Err(Error::BrokenPipe);
        }
        let mut actions: Vec<ClientAction> = Vec::new();
        if self.directory.apply_delete(id).is_some() {
            actions.push(ClientAction::Send(ReceivedPacket::EntryDelete(EntryDelete::new(id))));
        }
        assert(actions_model(actions@) =~= delete_step(old(self)@, id)->Ok_0.1);
        Ok(actions)
    }

    /// Gives an entry a new value here and tells the server; see `update_step`.
    pub fn update_entry(&mut self, id: u16, new_value: EntryValue) -> (res: Result<
        Vec<ClientAction>,
        Error,
    >)
        requires
            old(self).wf(),
        ensures
            final(self).wf(),
            step_agrees(res, old(self)@, final(self)@, update_step(old(self)@, id, new_value@)),
    {
        if self.state != ConnectionState::Connected {
            return Err(Error::BrokenPipe);
        }
        let ghost before = self.directory@;
        let mut actions: Vec<ClientAction> = Vec::new();
        let current = match self.directory.get(id) {
            Some(e) => Some((e.seqnum, e.entry_type())),
            None => None,
        };
        match current {
            Some((seqnum, stored_type)) => {
                let entry_type = new_value.entry_type();
                if stored_type == entry_type {
                    let next = next_seqnum(seqnum);
                    let copy = new_value.duplicate();
                    let accepted = self.directory.apply_update(id, next, entry_type, new_value);
                    proof {
                        let i = crate::directory::index_of_id(before, id);
                        assert(before[i].0 == id && crate::directory::accepts(
                            before[i].1,
                            next,
                            entry_type,
                            copy@,
                        ));
                    }
                    actions.push(
                        ClientAction::Send(
                            ReceivedPacket::EntryUpdate(EntryUpdate::new(id, next, entry_type, copy)),
                        ),
                    );
                }
            },
            None => {},
        }
        assert(actions_model(actions@) =~= update_step(old(self)@, id, new_value@)->Ok_0.1);
        Ok(actions)
    }

    /// Gives an entry new flags here and tells the server; see `flags_step`.
    pub fn update_entry_flags(&mut self, id: u16, flags: u8) -> (res: Result<
        Vec<ClientAction>,
        Error,
    >)
        requires
            old(self).wf(),
        ensures
            final(self).wf(),
            step_agrees(res, old(self)@, final(self)@, flags_step(old(self)@, id, flags)),
    {
        if self.state != ConnectionState::Connected {
            return Err(Error::BrokenPipe);
        }
        let mut actions: Vec<ClientAction> = Vec::new();
        if self.directory.apply_flags_update(id, flags) {
            actions.push(
                ClientAction::Send(ReceivedPacket::EntryFlagsUpdate(EntryFlagsUpdate::new(id, flags))),
            );
        }
        assert(actions_model(actions@) =~= flags_step(old(self)@, id, flags)->Ok_0.1);
        Ok(actions)
    }

    /// Clears the entries that are not persistent and tells the server; see `clear_step`.
    pub fn clear_entries(&mut self) -> (res: Result<Vec<ClientAction>, Error>)
        requires
            old(self).wf(),
        ensures
            final(self).wf(),
            step_agrees(res, old(self)@, final(self)@, clear_step(old(self)@)),
    {
        if self.state != ConnectionState::Connected {
            return Err(Error::BrokenPipe);
        }
        let mut actions: Vec<ClientAction> = Vec::new();
        self.directory.apply_clear(CLEAR_ALL_MAGIC);
        actions.push(ClientAction::Send(ReceivedPacket::ClearAllEntries(ClearAllEntries::new())));
        assert(actions_model(actions@) =~= clear_step(old(self)@)->Ok_0.1);
        Ok(actions)
    }

    /// The first unique id at or after the counter that no call in flight has.
    fn free_unique_id(&self) -> (r: Option<u16>)
        ensures
            match r {
                Some(unique) => unique_from(self@.pending_rpcs, self@.next_rpc_id, unique),
                None => forall|u: u16| !unique_is_free(self@.pending_rpcs, u),
            },
    {
        let mut k: u32 = 0;
        let mut c: u16 = self.next_rpc_id;
        while k < 0x1_0000
            invariant
                k <= 0x1_0000,
                c == candidate(self.next_rpc_id, k as int),
                forall|j: int|
                    0 <= j < k ==> !unique_is_free(
                        self.pending_rpcs@,
                        #[trigger] candidate(self.next_rpc_id, j),
                    ),
            decreases 0x1_0000 - k,
        {
            if !unique_in_use(&self.pending_rpcs, c) {
                return Some(c);
            }
            k += 1;
            c = c.wrapping_add(1);
        }
        proof {
            assert forall|u: u16| !unique_is_free(self.pending_rpcs@, u) by {
                let j = (u - self.next_rpc_id) % 0x1_0000;
                assert(candidate(self.next_rpc_id, j) == u);
            }
        }
        None
    }

    /// Calls the procedure with the id `id`.
    ///
    /// The call gets the first unique id, at or after the counter, that no call in flight has;
    /// it is in flight from now on, and the request goes to the server. The callback of the
    /// call is to be kept under the unique id that is returned. A client that is not connected
    /// fails with `BrokenPipe`; where all unique ids are in flight the call fails with
    /// `Exhausted`.
    pub fn call_rpc(&mut self, id: u16, parameter: Vec<u8>) -> (res: Result<
        (u16, Vec<ClientAction>),
        Error,
    >)
        requires
            old(self).wf(),
        ensures
            final(self).wf(),
            match res {
                Ok((unique, actions)) => {
                    &&& old(self)@.state == ConnectionState::Connected
                    &&& unique_from(old(self)@.pending_rpcs, old(self)@.next_rpc_id, unique)
                    &&& (final(self)@, actions_model(actions@)) == call_step(
                        old(self)@,
                        id,
                        unique,
                        parameter@,
                    )
                },
                Err(e) => {
                    &&& final(self)@ == old(self)@
                    &&& if old(self)@.state != ConnectionState::Connected {
                        e == Error::BrokenPipe
                    } else {
                        e == Error::Exhausted && forall|u: u16|
                            !unique_is_free(old(self)@.pending_rpcs, u)
                    }
                },
            },
    {
        if self.state != ConnectionState::Connected {
            return Err(Error::BrokenPipe);
        }
        match self.free_unique_id() {
            Some(unique) => {
                let mut actions: Vec<ClientAction> = Vec::new();
                self.pending_rpcs.push((id, unique));
                self.next_rpc_id = unique.wrapping_add(1);
                actions.push(
                    ClientAction::Send(
                        ReceivedPacket::RpcExecute(RpcExecute::new(id, unique, parameter)),
                    ),
                );
                assert(actions_model(actions@) =~= call_step(old(self)@, id, unique, parameter@).1);
                Ok((unique, actions))
            },
            None => Err(Error::Exhausted),
        }
    }
}

/// A result is handed to a callback only for a call that is in flight; and once it is handed
/// over the call is in flight no more, so that a second response with the same ids calls for
/// nothing.
#[verifier::rlimit(50)]
pub proof fn lemma_rpc_result_once(s: ClientModel, p: PacketModel)
    requires
        p is RpcResponse,
    ensures
        client_step(s, p).1.len() <= 1,
        forall|i: int|
            0 <= i < client_step(s, p).1.len() ==> (#[trigger] client_step(s, p).1[i])
                == ClientActionModel::RpcResult(p->RpcResponse_entry_id, p->RpcResponse_unique_id, p->result)
                && s.pending_rpcs.contains((p->RpcResponse_entry_id, p->RpcResponse_unique_id)),
        !client_step(s, p).0.pending_rpcs.contains(
            (p->RpcResponse_entry_id, p->RpcResponse_unique_id),
        ) || client_step(s, p).0 == s && client_step(s, p).1.len() == 0,
        forall|again: PacketModel|
            again is RpcResponse && again->RpcResponse_entry_id == p->RpcResponse_entry_id
                && again->RpcResponse_unique_id == p->RpcResponse_unique_id && client_step(s, p).1.len() == 1 ==> (
            #[trigger] client_step(client_step(s, p).0, again)).1.len() == 0,
{
    let id = p->RpcResponse_entry_id;
    let unique = p->RpcResponse_unique_id;
    let keep = other_call(id, unique);
    let after = client_step(s, p).0;
    if s.state == ConnectionState::Connected && s.pending_rpcs.contains((id, unique)) {
        let left = s.pending_rpcs.filter(keep);
        if left.contains((id, unique)) {
            let i = choose|i: int| 0 <= i < left.len() && left[i] == (id, unique);
            s.pending_rpcs.lemma_filter_pred(keep, i);
        }
    }
}

/// With fewer than 65536 calls in flight some unique id is free, and the search finds one
/// from whatever start: a call is refused only where none is free, never for a count.
pub proof fn lemma_unique_exists(pending: Seq<(u16, u16)>, start: u16)
    requires
        pending.len() < 0x1_0000,
    ensures
        exists|unique: u16| unique_from(pending, start, unique),
        exists|unique: u16| unique_is_free(pending, unique),
{
    let taken = pending.map_values(|call: (u16, u16)| call.1 as int);
    lemma_one_left_out(taken, 0x1_0000);
    let x = choose|x: int| 0 <= x < 0x1_0000 && !taken.contains(x);
    let unique = x as u16;
    assert forall|i: int| 0 <= i < pending.len() implies (#[trigger] pending[i]).1 != unique by {
        assert(taken[i] == pending[i].1);
    }
    assert(unique_is_free(pending, unique));
    let k = lemma_candidate_reaches(start, unique);
    let free = |c: u16| unique_is_free(pending, c);
    let first = lemma_first_candidate(free, start, k);
    assert(unique_from(pending, start, candidate(start, first)));
}

/// A call gets a unique id that no call in flight has, and is in flight afterwards.
pub proof fn lemma_call_is_fresh(s: ClientModel, id: u16, unique: u16, parameter: Seq<u8>)
    requires
        unique_from(s.pending_rpcs, s.next_rpc_id, unique),
    ensures
        !s.pending_rpcs.contains((id, unique)),
        call_step(s, id, unique, parameter).0.pending_rpcs.contains((id, unique)),
{
    if s.pending_rpcs.contains((id, unique)) {
        let i = choose|i: int| 0 <= i < s.pending_rpcs.len() && s.pending_rpcs[i] == (id, unique);
        assert(s.pending_rpcs[i].1 == unique);
    }
    let after = s.pending_rpcs.push((id, unique));
    assert(after[s.pending_rpcs.len() as int] == (id, unique));
}

/// After an assignment that was not ignored the directory knows the name.
pub proof fn lemma_assignment_keeps_name(
    m: DirectoryModel,
    name: Seq<char>,
    ty: crate::types::EntryType,
    id: u16,
    seqnum: u16,
    flags: u8,
    value: ValueModel,
)
    requires
        assignment_outcome(m, name, ty, id, seqnum, value) != Assigned::Ignored,
    ensures
        has_name(assigned(m, name, ty, id, seqnum, flags, value), name),
{
    let after = assigned(m, name, ty, id, seqnum, flags, value);
    if has_name(m, name) {
        let i = index_of_name(m, name);
        assert(after[i].1.name == name);
    } else if has_id(m, id) {
        let i = crate::directory::index_of_id(m, id);
        assert(after[i].1.name == name);
    } else {
        assert(after[m.len() as int].1.name == name);
    }
}

/// After an update the directory still knows the id.
pub proof fn lemma_update_keeps_id(
    m: DirectoryModel,
    id: u16,
    seqnum: u16,
    ty: crate::types::EntryType,
    value: ValueModel,
)
    requires
        has_id(m, id),
    ensures
        has_id(updated(m, id, seqnum, ty, value), id),
{
    let after = updated(m, id, seqnum, ty, value);
    let i = crate::directory::index_of_id(m, id);
    assert(after[i].0 == id);
}

} // verus!

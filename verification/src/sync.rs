//! What the two state machines do to each other: what a server sends leaves a client with
//! the server's entries.

use crate::client::{client_step, ClientModel, ConnectionState};
use crate::directory::{
    assigned, assigned_entry, has_id, has_name, model_wf, DirectoryModel,
};
use crate::entry::EntryModel;
use crate::packets::{PacketModel, UNASSIGNED_ID};
use crate::server::{assignment_of, handshake, ServerActionModel, ServerModel};
use vstd::prelude::*;

verus! {

/// The client after it has taken the messages, one after the other.
pub open spec fn client_run(s: ClientModel, packets: Seq<PacketModel>) -> ClientModel
    decreases packets.len(),
{
    if packets.len() == 0 {
        s
    } else {
        client_step(client_run(s, packets.drop_last()), packets.last()).0
    }
}

/// The directory after the assignments that announce `rows`, one after the other.
pub open spec fn after_assignments(start: DirectoryModel, rows: DirectoryModel) -> DirectoryModel
    decreases rows.len(),
{
    if rows.len() == 0 {
        start
    } else {
        let row = rows.last();
        assigned(
            after_assignments(start, rows.drop_last()),
            row.1.name,
            row.1.value.entry_type(),
            row.0,
            row.1.seqnum,
            row.1.flags,
            row.1.value,
        )
    }
}

/// The messages of a handshake: the hello, the entries, the end of the stream.
pub open spec fn handshake_packets(s: ServerModel) -> Seq<PacketModel> {
    seq![PacketModel::ServerHello { flags: 0, name: s.name }] + s.directory.map_values(
        |row: (u16, EntryModel)| assignment_of(row),
    ) + seq![PacketModel::ServerHelloComplete]
}

/// The action that sends a message to `conn`.
pub open spec fn send_to(conn: u64) -> spec_fn(PacketModel) -> ServerActionModel {
    |p: PacketModel| ServerActionModel::Send(conn, p)
}

/// A handshake is its messages, each sent to the client that said hello.
pub proof fn lemma_handshake_is_sent(s: ServerModel, conn: u64)
    ensures
        handshake(s, conn) == handshake_packets(s).map_values(send_to(conn)),
{
    assert(handshake(s, conn) =~= handshake_packets(s).map_values(send_to(conn)));
}

/// Taking messages one after the other is taking the first ones and then the rest.
pub proof fn lemma_client_run_concat(s: ClientModel, a: Seq<PacketModel>, b: Seq<PacketModel>)
    ensures
        client_run(s, a + b) == client_run(client_run(s, a), b),
    decreases b.len(),
{
    if b.len() == 0 {
        assert(a + b =~= a);
    } else {
        assert((a + b).drop_last() =~= a + b.drop_last());
        assert((a + b).last() == b.last());
        lemma_client_run_concat(s, a, b.drop_last());
    }
}

/// An assignment for a name and an id that the directory does not know puts the entry behind
/// the others. So what a server announces of a new entry leaves a client that held what the
/// server held with what the server holds.
pub proof fn lemma_assignment_of_new_row(m: DirectoryModel, row: (u16, EntryModel))
    requires
        row.0 != UNASSIGNED_ID,
        !has_name(m, row.1.name),
        !has_id(m, row.0),
    ensures
        assigned(
            m,
            row.1.name,
            row.1.value.entry_type(),
            row.0,
            row.1.seqnum,
            row.1.flags,
            row.1.value,
        ) == m.push(row),
{
    assert(assigned_entry(row.1.name, row.1.seqnum, row.1.flags, row.1.value) == row.1);
}

/// The assignments that announce a directory, applied to an empty directory, give the
/// directory.
pub proof fn lemma_assignments_rebuild(m: DirectoryModel, k: int)
    requires
        model_wf(m),
        0 <= k <= m.len(),
    ensures
        after_assignments(Seq::empty(), m.take(k)) == m.take(k),
    decreases k,
{
    if k > 0 {
        lemma_assignments_rebuild(m, k - 1);
        let front = m.take(k - 1);
        assert(m.take(k).drop_last() =~= front);
        let row = m[k - 1];
        assert(m.take(k).last() == row);
        assert(!has_name(front, row.1.name)) by {
            if has_name(front, row.1.name) {
                let i = choose|i: int| 0 <= i < front.len() && (#[trigger] front[i]).1.name
                    == row.1.name;
                assert(m[i].1.name != m[k - 1].1.name);
            }
        }
        assert(!has_id(front, row.0)) by {
            if has_id(front, row.0) {
                let i = choose|i: int| 0 <= i < front.len() && (#[trigger] front[i]).0 == row.0;
                assert(m[i].0 != m[k - 1].0);
            }
        }
        assert(m[k - 1].0 != UNASSIGNED_ID);
        lemma_assignment_of_new_row(front, row);
        assert(front.push(row) =~= m.take(k));
    } else {
        assert(m.take(0) =~= Seq::<(u16, EntryModel)>::empty());
    }
}

/// A client that is taking in the server's entries, and takes the assignments that announce
/// `rows`, has the directory that those assignments make; it is still taking in entries.
pub proof fn lemma_run_of_assignments(s: ClientModel, rows: DirectoryModel)
    requires
        s.state == ConnectionState::ReceivingAssignments,
    ensures
        client_run(s, rows.map_values(|row: (u16, EntryModel)| assignment_of(row))).state
            == ConnectionState::ReceivingAssignments,
        client_run(s, rows.map_values(|row: (u16, EntryModel)| assignment_of(row))).directory
            == after_assignments(s.directory, rows),
        client_run(s, rows.map_values(|row: (u16, EntryModel)| assignment_of(row))).server_name
            == s.server_name,
    decreases rows.len(),
{
    let packets = rows.map_values(|row: (u16, EntryModel)| assignment_of(row));
    if rows.len() > 0 {
        lemma_run_of_assignments(s, rows.drop_last());
        assert(packets.drop_last() =~= rows.drop_last().map_values(
            |row: (u16, EntryModel)| assignment_of(row),
        ));
        assert(packets.last() == assignment_of(rows.last()));
    }
}

/// The handshake synchronizes: a client that has said hello and holds no entries, and takes
/// what the server sends in answer, is connected, knows the server's name, and holds exactly
/// the server's entries in the server's order.
pub proof fn lemma_handshake_synchronizes(server: ServerModel, client: ClientModel)
    requires
        model_wf(server.directory),
        client.state == ConnectionState::Connecting || client.state
            == ConnectionState::AwaitServerHello,
        client.directory == Seq::<(u16, EntryModel)>::empty(),
    ensures
        client_run(client, handshake_packets(server)).state == ConnectionState::Connected,
        client_run(client, handshake_packets(server)).directory == server.directory,
        client_run(client, handshake_packets(server)).server_name == Some(server.name),
{
    let hello = seq![PacketModel::ServerHello { flags: 0, name: server.name }];
    let entries = server.directory.map_values(|row: (u16, EntryModel)| assignment_of(row));
    let end = seq![PacketModel::ServerHelloComplete];
    lemma_client_run_concat(client, hello + entries, end);
    lemma_client_run_concat(client, hello, entries);
    let greeted = client_run(client, hello);
    assert(greeted == client_step(client, hello[0]).0) by {
        assert(hello.drop_last() =~= Seq::<PacketModel>::empty());
        assert(client_run(client, hello.drop_last()) == client);
    }
    lemma_run_of_assignments(greeted, server.directory);
    lemma_assignments_rebuild(server.directory, server.directory.len() as int);
    assert(server.directory.take(server.directory.len() as int) =~= server.directory);
    let filled = client_run(greeted, entries);
    assert(client_run(filled, end) == client_step(filled, end[0]).0) by {
        assert(end.drop_last() =~= Seq::<PacketModel>::empty());
        assert(client_run(filled, end.drop_last()) == filled);
    }
}

} // verus!

//! The server of revision 4: topics, clients, and who is told of what.
//!
//! Clients publish topics, subscribe to keys by prefix, and send values. The server counts
//! the publishers of a topic, announces topics to every client under an id of the client's
//! own, and passes values on to the subscribers. As with revision 3 the state machine
//! decides and the caller performs: every step returns what is to be sent and which
//! observers are to be told.

use crate::backend::{
    batch, chunks, fresh_topic, has_topic, index_of_topic, nested_views, only_topics,
    publish_outcome, published, released, taken, takes, topics_wf, views, Published, TopicTable,
    TopicsModel, DEFAULT_PERIOD, MAX_BATCHING_SIZE,
};
use crate::bin::{BinaryModel, NTBinaryMessage, NTValue, NTValueModel};
use crate::connected::{
    after_announce, after_subscribe, after_unannounce, after_unsubscribe, announced, announcement,
    any_covers, covers, has_pub_id, index_of_announced, index_of_pub_id, index_of_subscribed,
    new_client, starts_with, str_equal, subs_model, subscribed, subscription_of, unannouncement,
    ClientModel, ConnectedClient, SubRow, Subscription, SubscriptionModel,
};
use crate::text::{
    Announce, DataType, GetValues, MessageValue, PublishRel, PublishReq, SetFlags, Subscribe,
    SubscriptionOptions, TextModel, Unannounce, Unsubscribe,
};
use crate::topic::{persistent_name, snapshot_of, Topic, TopicFlags, TopicModel, TopicSnapshot};
use crate::wire::texts;
use vstd::prelude::*;

verus! {

/// A text message of the server.
#[derive(Clone, Debug, PartialEq, Eq)]
pub enum TextOut {
    Announce(Announce),
    Unannounce(Unannounce),
}

impl View for TextOut {
    type V = TextModel;

    open spec fn view(&self) -> TextModel {
        match self {
            TextOut::Announce(a) => a@,
            TextOut::Unannounce(u) => u@,
        }
    }
}

/// What happened to a topic.
#[derive(Clone, Copy, Debug, PartialEq, Eq, Structural)]
pub enum CallbackType {
    Create,
    Delete,
    Update,
}

/// What the caller of the state machine is to do.
#[derive(Clone, Debug, PartialEq, Eq)]
pub enum Outgoing {
    /// Send these messages to this client as one text frame.
    Text(u32, Vec<TextOut>),
    /// Send these updates to this client as one binary frame.
    Binary(u32, Vec<NTBinaryMessage>),
    /// Run the callback of this subscription of the server itself on this snapshot.
    Notify(u32, TopicSnapshot, CallbackType),
}

/// What an action is, as mathematics.
pub enum OutgoingModel {
    Text(u32, Seq<TextModel>),
    Binary(u32, Seq<BinaryModel>),
    Notify(u32, TopicModel, CallbackType),
}

impl View for Outgoing {
    type V = OutgoingModel;

    open spec fn view(&self) -> OutgoingModel {
        match self {
            Outgoing::Text(cid, messages) => OutgoingModel::Text(*cid, views(messages@)),
            Outgoing::Binary(cid, updates) => OutgoingModel::Binary(*cid, views(updates@)),
            Outgoing::Notify(id, snapshot, kind) => OutgoingModel::Notify(*id, snapshot@, *kind),
        }
    }
}

/// One row of the clients: the id of the connection and what is kept for it.
pub type ClientRow = (u32, ClientModel);

/// The models of the clients.
pub open spec fn clients_model(clients: Seq<(u32, ConnectedClient)>) -> Seq<ClientRow> {
    clients.map_values(|row: (u32, ConnectedClient)| (row.0, row.1@))
}

/// The models of the server's own subscriptions: their ids and prefixes.
pub open spec fn subscriptions_model(subs: Seq<(u32, String)>) -> Seq<(u32, Seq<char>)> {
    subs.map_values(|row: (u32, String)| (row.0, row.1@))
}

/// What a server is, as mathematics.
pub struct NTServerModel {
    pub topics: TopicsModel,
    /// The clients, in the order in which they came.
    pub clients: Seq<ClientRow>,
    /// The keys under which the server itself publishes.
    pub pubs: Seq<Seq<char>>,
    /// The subscriptions of the server itself.
    pub subscriptions: Seq<(u32, Seq<char>)>,
    /// The id of the server's next subscription.
    pub next_sub_id: u32,
}

/// Some client has the id.
pub open spec fn has_cid(clients: Seq<ClientRow>, cid: u32) -> bool {
    exists|i: int| 0 <= i < clients.len() && (#[trigger] clients[i]).0 == cid
}

/// Where the client with the id stands.
pub open spec fn index_of_cid(clients: Seq<ClientRow>, cid: u32) -> int {
    choose|i: int| 0 <= i < clients.len() && (#[trigger] clients[i]).0 == cid
}

/// No two clients share an id.
pub open spec fn cids_distinct(clients: Seq<ClientRow>) -> bool {
    forall|i: int, j: int|
        0 <= i < j < clients.len() ==> (#[trigger] clients[i]).0 != (#[trigger] clients[j]).0
}

/// What the observers of the server itself are told about a topic: one word for every
/// subscription whose prefix covers the topic's key, oldest subscription first.
pub open spec fn notify_actions(
    subs: Seq<(u32, Seq<char>)>,
    t: TopicModel,
    kind: CallbackType,
) -> Seq<OutgoingModel>
    decreases subs.len(),
{
    if subs.len() == 0 {
        Seq::empty()
    } else {
        let front = notify_actions(subs.drop_last(), t, kind);
        if covers(subs.last().1, t.name) {
            front.push(OutgoingModel::Notify(subs.last().0, snapshot_of(t), kind))
        } else {
            front
        }
    }
}

/// The clients after a topic was announced to each.
pub open spec fn announced_clients(clients: Seq<ClientRow>, name: Seq<char>) -> Seq<ClientRow> {
    clients.map_values(|row: ClientRow| (row.0, after_announce(row.1, name)))
}

/// The announcements of a topic: one text frame for every client that has an id for it.
pub open spec fn announce_actions(clients: Seq<ClientRow>, t: TopicModel) -> Seq<OutgoingModel>
    decreases clients.len(),
{
    if clients.len() == 0 {
        Seq::empty()
    } else {
        let front = announce_actions(clients.drop_last(), t);
        match announcement(clients.last().1, t) {
            Some(a) => front.push(OutgoingModel::Text(clients.last().0, seq![a])),
            None => front,
        }
    }
}

/// The clients after each was told that a topic is gone.
pub open spec fn unannounced_clients(clients: Seq<ClientRow>, name: Seq<char>) -> Seq<ClientRow> {
    clients.map_values(|row: ClientRow| (row.0, after_unannounce(row.1, name)))
}

/// The word that a topic is gone: one text frame for every client that had it announced.
pub open spec fn unannounce_actions(clients: Seq<ClientRow>, name: Seq<char>) -> Seq<OutgoingModel>
    decreases clients.len(),
{
    if clients.len() == 0 {
        Seq::empty()
    } else {
        let front = unannounce_actions(clients.drop_last(), name);
        match unannouncement(clients.last().1, name) {
            Some(u) => front.push(OutgoingModel::Text(clients.last().0, seq![u])),
            None => front,
        }
    }
}

fn push_notifications(
    subs: &Vec<(u32, String)>,
    topic: &Topic,
    kind: CallbackType,
    out: &mut Vec<Outgoing>,
)
    ensures
        views(final(out)@) == views(old(out)@) + notify_actions(
            subscriptions_model(subs@),
            topic@,
            kind,
        ),
{
    let ghost start = views(out@);
    let ghost all = subscriptions_model(subs@);
    let mut i: usize = 0;
    assert(start + notify_actions(all.take(0), topic@, kind) =~= start);
    while i < subs.len()
        invariant
            i <= subs@.len(),
            all == subscriptions_model(subs@),
            views(out@) == start + notify_actions(all.take(i as int), topic@, kind),
        decreases subs@.len() - i,
    {
        let ghost front = notify_actions(all.take(i as int), topic@, kind);
        assert(all.take(i + 1).drop_last() =~= all.take(i as int));
        assert(all.take(i + 1).last() == all[i as int]);
        if starts_with(topic.name.as_str(), subs[i].1.as_str()) {
            let ghost before = views(out@);
            out.push(Outgoing::Notify(subs[i].0, topic.snapshot(), kind));
            assert(views(out@) =~= before.push(
                OutgoingModel::Notify(all[i as int].0, snapshot_of(topic@), kind),
            ));
            assert(start + front.push(
                OutgoingModel::Notify(all[i as int].0, snapshot_of(topic@), kind),
            ) =~= (start + front).push(
                OutgoingModel::Notify(all[i as int].0, snapshot_of(topic@), kind),
            ));
        }
        i += 1;
    }
    assert(all.take(i as int) =~= all);
}

fn announce_all(clients: &mut Vec<(u32, ConnectedClient)>, topic: &Topic, out: &mut Vec<Outgoing>)
    ensures
        clients_model(final(clients)@) == announced_clients(
            clients_model(old(clients)@),
            topic@.name,
        ),
        views(final(out)@) == views(old(out)@) + announce_actions(
            clients_model(old(clients)@),
            topic@,
        ),
{
    let ghost start = views(out@);
    let ghost all = clients_model(clients@);
    let mut i: usize = 0;
    assert(start + announce_actions(all.take(0), topic@) =~= start);
    while i < clients.len()
        invariant
            i <= clients@.len(),
            clients@.len() == all.len(),
            forall|j: int|
                0 <= j < i ==> (#[trigger] clients@[j]).0 == all[j].0 && clients@[j].1@
                    == after_announce(all[j].1, topic@.name),
            forall|j: int|
                i <= j < all.len() ==> (#[trigger] clients@[j]).0 == all[j].0 && clients@[j].1@
                    == all[j].1,
            views(out@) == start + announce_actions(all.take(i as int), topic@),
        decreases clients@.len() - i,
    {
        let ghost front = announce_actions(all.take(i as int), topic@);
        assert(all.take(i + 1).drop_last() =~= all.take(i as int));
        assert(all.take(i + 1).last() == all[i as int]);
        let cid = clients[i].0;
        let ghost rows = clients@;
        let r = clients[i].1.announce(topic);
        assert(clients@.len() == rows.len());
        assert(forall|j: int| 0 <= j < rows.len() && j != i ==> clients@[j] == rows[j]);
        assert(clients@[i as int].0 == cid);
        assert(clients@[i as int].1@ == after_announce(rows[i as int].1@, topic@.name));
        match r {
            Some(a) => {
                let ghost before = views(out@);
                let ghost word = a@;
                let mut frame: Vec<TextOut> = Vec::new();
                frame.push(TextOut::Announce(a));
                assert(views(frame@) =~= seq![word]);
                out.push(Outgoing::Text(cid, frame));
                assert(views(out@) =~= before.push(OutgoingModel::Text(cid, seq![word])));
                assert(start + front.push(OutgoingModel::Text(cid, seq![word])) =~= (start
                    + front).push(OutgoingModel::Text(cid, seq![word])));
            },
            None => {},
        }
        i += 1;
    }
    assert(all.take(i as int) =~= all);
    assert(clients_model(clients@) =~= announced_clients(all, topic@.name));
}

fn unannounce_all(clients: &mut Vec<(u32, ConnectedClient)>, topic: &Topic, out: &mut Vec<Outgoing>)
    ensures
        clients_model(final(clients)@) == unannounced_clients(
            clients_model(old(clients)@),
            topic@.name,
        ),
        views(final(out)@) == views(old(out)@) + unannounce_actions(
            clients_model(old(clients)@),
            topic@.name,
        ),
{
    let ghost start = views(out@);
    let ghost all = clients_model(clients@);
    let mut i: usize = 0;
    assert(start + unannounce_actions(all.take(0), topic@.name) =~= start);
    while i < clients.len()
        invariant
            i <= clients@.len(),
            clients@.len() == all.len(),
            forall|j: int|
                0 <= j < i ==> (#[trigger] clients@[j]).0 == all[j].0 && clients@[j].1@
                    == after_unannounce(all[j].1, topic@.name),
            forall|j: int|
                i <= j < all.len() ==> (#[trigger] clients@[j]).0 == all[j].0 && clients@[j].1@
                    == all[j].1,
            views(out@) == start + unannounce_actions(all.take(i as int), topic@.name),
        decreases clients@.len() - i,
    {
        let ghost front = unannounce_actions(all.take(i as int), topic@.name);
        assert(all.take(i + 1).drop_last() =~= all.take(i as int));
        assert(all.take(i + 1).last() == all[i as int]);
        let cid = clients[i].0;
        let ghost rows = clients@;
        let r = clients[i].1.unannounce(topic);
        assert(clients@.len() == rows.len());
        assert(forall|j: int| 0 <= j < rows.len() && j != i ==> clients@[j] == rows[j]);
        assert(clients@[i as int].0 == cid);
        assert(clients@[i as int].1@ == after_unannounce(rows[i as int].1@, topic@.name));
        match r {
            Some(u) => {
                let ghost before = views(out@);
                let ghost word = u@;
                let mut frame: Vec<TextOut> = Vec::new();
                frame.push(TextOut::Unannounce(u));
                assert(views(frame@) =~= seq![word]);
                out.push(Outgoing::Text(cid, frame));
                assert(views(out@) =~= before.push(OutgoingModel::Text(cid, seq![word])));
                assert(start + front.push(OutgoingModel::Text(cid, seq![word])) =~= (start
                    + front).push(OutgoingModel::Text(cid, seq![word])));
            },
            None => {},
        }
        i += 1;
    }
    assert(all.take(i as int) =~= all);
    assert(clients_model(clients@) =~= unannounced_clients(all, topic@.name));
}

/// One client is told of every topic of a list, in the list's order: the client afterwards
/// and the announcements.
pub open spec fn announce_each(c: ClientModel, topics: Seq<TopicModel>) -> (
    ClientModel,
    Seq<TextModel>,
)
    decreases topics.len(),
{
    if topics.len() == 0 {
        (c, Seq::empty())
    } else {
        let front = announce_each(c, topics.drop_last());
        let t = topics.last();
        (
            after_announce(front.0, t.name),
            match announcement(front.0, t) {
                Some(a) => front.1.push(a),
                None => front.1,
            },
        )
    }
}

fn announce_topics(client: &mut ConnectedClient, topics: &Vec<Topic>) -> (out: Vec<TextOut>)
    ensures
        (final(client)@, views(out@)) == announce_each(old(client)@, views(topics@)),
{
    let ghost all = views(topics@);
    let mut out: Vec<TextOut> = Vec::new();
    let mut i: usize = 0;
    assert(views(out@) =~= Seq::<TextModel>::empty());
    while i < topics.len()
        invariant
            i <= topics@.len(),
            all == views(topics@),
            (client@, views(out@)) == announce_each(old(client)@, all.take(i as int)),
        decreases topics@.len() - i,
    {
        assert(all.take(i + 1).drop_last() =~= all.take(i as int));
        assert(all.take(i + 1).last() == topics@[i as int]@);
        let ghost before = views(out@);
        match client.announce(&topics[i]) {
            Some(a) => {
                let ghost word = a@;
                out.push(TextOut::Announce(a));
                assert(views(out@) =~= before.push(word));
            },
            None => {},
        }
        i += 1;
    }
    assert(all.take(i as int) =~= all);
    out
}

/// One text frame for a client out of every piece.
pub open spec fn text_frames(cid: u32, pieces: Seq<Seq<TextModel>>) -> Seq<OutgoingModel> {
    pieces.map_values(|p: Seq<TextModel>| OutgoingModel::Text(cid, p))
}

/// One binary frame for a client out of every piece.
pub open spec fn binary_frames(cid: u32, pieces: Seq<Seq<BinaryModel>>) -> Seq<OutgoingModel> {
    pieces.map_values(|p: Seq<BinaryModel>| OutgoingModel::Binary(cid, p))
}

/// The frames in which a client gets a list of updates: at most five updates in each.
pub open spec fn update_frames(cid: u32, updates: Seq<BinaryModel>) -> Seq<OutgoingModel> {
    binary_frames(cid, chunks(updates, MAX_BATCHING_SIZE as nat))
}

fn push_text_frames(cid: u32, messages: Vec<TextOut>, out: &mut Vec<Outgoing>)
    ensures
        views(final(out)@) == views(old(out)@) + text_frames(
            cid,
            chunks(views(messages@), MAX_BATCHING_SIZE as nat),
        ),
{
    let ghost start = views(out@);
    let pieces = batch(messages, MAX_BATCHING_SIZE);
    let ghost all = nested_views(pieces@);
    assert(start + text_frames(cid, all.take(0)) =~= start);
    for piece in it: pieces
        invariant
            nested_views(it.seq()) == all,
            views(out@) == start + text_frames(cid, all.take(it.index() as int)),
    {
        let ghost k = it.index() as int;
        let ghost before = views(out@);
        out.push(Outgoing::Text(cid, piece));
        assert(views(out@) =~= before.push(OutgoingModel::Text(cid, all[k])));
        assert(start + text_frames(cid, all.take(k + 1)) =~= (start + text_frames(
            cid,
            all.take(k),
        )).push(OutgoingModel::Text(cid, all[k])));
    }
    assert(all.take(all.len() as int) =~= all);
}

fn push_binary_frames(cid: u32, updates: Vec<NTBinaryMessage>, out: &mut Vec<Outgoing>)
    ensures
        views(final(out)@) == views(old(out)@) + update_frames(cid, views(updates@)),
{
    let ghost start = views(out@);
    let pieces = batch(updates, MAX_BATCHING_SIZE);
    let ghost all = nested_views(pieces@);
    assert(start + binary_frames(cid, all.take(0)) =~= start);
    for piece in it: pieces
        invariant
            nested_views(it.seq()) == all,
            views(out@) == start + binary_frames(cid, all.take(it.index() as int)),
    {
        let ghost k = it.index() as int;
        let ghost before = views(out@);
        out.push(Outgoing::Binary(cid, piece));
        assert(views(out@) =~= before.push(OutgoingModel::Binary(cid, all[k])));
        assert(start + binary_frames(cid, all.take(k + 1)) =~= (start + binary_frames(
            cid,
            all.take(k),
        )).push(OutgoingModel::Binary(cid, all[k])));
    }
    assert(all.take(all.len() as int) =~= all);
}

/// The server of revision 4, as a state machine.
pub struct NTServer {
    table: TopicTable,
    clients: Vec<(u32, ConnectedClient)>,
    pubs: Vec<String>,
    subscriptions: Vec<(u32, String)>,
    next_sub_id: u32,
}

/// A server without topics, clients and subscriptions, whose first subscription gets the
/// id 1.
pub open spec fn new_server() -> NTServerModel {
    NTServerModel {
        topics: Seq::empty(),
        clients: Seq::empty(),
        pubs: Seq::empty(),
        subscriptions: Seq::empty(),
        next_sub_id: 1,
    }
}

/// A publisher asks for a topic: a new topic is told to the observers and announced to
/// every client; a topic that is there counts one publisher more.
pub open spec fn create_step(m: NTServerModel, name: Seq<char>, ty: DataType) -> (
    NTServerModel,
    Seq<OutgoingModel>,
) {
    let topics = published(m.topics, name, ty);
    if publish_outcome(m.topics, name, ty) == Published::Created {
        let t = fresh_topic(name, ty);
        (
            NTServerModel { topics, clients: announced_clients(m.clients, name), ..m },
            notify_actions(m.subscriptions, t, CallbackType::Create) + announce_actions(
                m.clients,
                t,
            ),
        )
    } else {
        (NTServerModel { topics, ..m }, Seq::empty())
    }
}

/// The topic loses its last publisher on a release.
pub open spec fn last_publisher(topics: TopicsModel, name: Seq<char>) -> bool {
    has_topic(topics, name) && topics[index_of_topic(topics, name)].1 == 1
}

/// A publisher lets go of a topic: with its last publisher the topic is gone, every client
/// that knew it is told so, and then the observers.
pub open spec fn release_step(m: NTServerModel, name: Seq<char>) -> (
    NTServerModel,
    Seq<OutgoingModel>,
) {
    let topics = released(m.topics, name);
    if last_publisher(m.topics, name) {
        let t = m.topics[index_of_topic(m.topics, name)].0;
        (
            NTServerModel { topics, clients: unannounced_clients(m.clients, name), ..m },
            unannounce_actions(m.clients, name) + notify_actions(
                m.subscriptions,
                t,
                CallbackType::Delete,
            ),
        )
    } else {
        (NTServerModel { topics, ..m }, Seq::empty())
    }
}

/// Where the text stands first in the list.
pub open spec fn first_index(s: Seq<Seq<char>>, x: Seq<char>) -> int {
    choose|i: int| 0 <= i < s.len() && s[i] == x && forall|j: int| 0 <= j < i ==> s[j] != x
}

/// The list without the first occurrence of the text.
pub open spec fn without_first(s: Seq<Seq<char>>, x: Seq<char>) -> Seq<Seq<char>> {
    if s.contains(x) {
        s.remove(first_index(s, x))
    } else {
        s
    }
}

/// Takes the first occurrence of `name` out of the list. Returns whether there was one.
pub fn remove_first(list: &mut Vec<String>, name: &str) -> (found: bool)
    ensures
        found == texts(old(list)@).contains(name@),
        texts(final(list)@) == without_first(texts(old(list)@), name@),
{
    let ghost all = texts(list@);
    let mut i: usize = 0;
    while i < list.len()
        invariant
            i <= list@.len(),
            list@ == old(list)@,
            all == texts(list@),
            forall|j: int| 0 <= j < i ==> all[j] != name@,
        decreases list@.len() - i,
    {
        if str_equal(list[i].as_str(), name) {
            proof {
                assert(all[i as int] == name@);
                assert(all.contains(name@));
                let k = first_index(all, name@);
                if k < i {
                    assert(all[k] != name@);
                } else if i < k {
                    assert(all[i as int] != name@);
                }
            }
            list.remove(i);
            assert(texts(list@) =~= all.remove(i as int));
            return true;
        }
        i += 1;
    }
    assert(!all.contains(name@));
    false
}

/// The server itself publishes a topic.
pub open spec fn publish_step(m: NTServerModel, t: TopicModel) -> (
    NTServerModel,
    Seq<OutgoingModel>,
) {
    create_step(NTServerModel { pubs: m.pubs.push(t.name), ..m }, t.name, t.value.data_type())
}

/// The server itself lets go of a topic that it publishes.
pub open spec fn local_release_step(m: NTServerModel, name: Seq<char>) -> (
    NTServerModel,
    Seq<OutgoingModel>,
) {
    if m.pubs.contains(name) {
        release_step(NTServerModel { pubs: without_first(m.pubs, name), ..m }, name)
    } else {
        (m, Seq::empty())
    }
}

/// The test that a subscription of the server has another id than `id`.
pub open spec fn other_id(id: u32) -> spec_fn((u32, Seq<char>)) -> bool {
    |row: (u32, Seq<char>)| row.0 != id
}

/// The server after it subscribed to a prefix: the subscription has the server's next id
/// and stands last; one that had the same id is gone.
pub open spec fn subscribe_step(m: NTServerModel, prefix: Seq<char>) -> NTServerModel {
    NTServerModel {
        subscriptions: m.subscriptions.filter(other_id(m.next_sub_id)).push(
            (m.next_sub_id, prefix),
        ),
        next_sub_id: if m.next_sub_id == u32::MAX {
            0
        } else {
            (m.next_sub_id + 1) as u32
        },
        ..m
    }
}

/// The server after the subscription with the id ended.
pub open spec fn unsubscribe_step(m: NTServerModel, id: u32) -> NTServerModel {
    NTServerModel { subscriptions: m.subscriptions.filter(other_id(id)), ..m }
}

fn drop_subscription(subs: &mut Vec<(u32, String)>, id: u32)
    ensures
        subscriptions_model(final(subs)@) == subscriptions_model(old(subs)@).filter(other_id(id)),
{
    let ghost all = subscriptions_model(subs@);
    let ghost keep = other_id(id);
    let mut i: usize = 0;
    let ghost mut k: int = 0;
    assert(all.take(0).filter(keep) + all.skip(0) =~= all);
    while i < subs.len()
        invariant
            0 <= k <= all.len(),
            i == all.take(k).filter(keep).len(),
            subscriptions_model(subs@) == all.take(k).filter(keep) + all.skip(k),
            keep == other_id(id),
        decreases all.len() - k,
    {
        let ghost kept = all.take(k).filter(keep);
        let ghost now = subscriptions_model(subs@);
        assert(now.len() == subs@.len());
        assert(k < all.len());
        assert(now[i as int] == all[k]);
        proof {
            assert(all.take(k + 1) =~= all.take(k).push(all[k]));
            all.take(k).lemma_filter_push(all[k], keep);
        }
        if subs[i].0 == id {
            subs.remove(i);
            assert(subscriptions_model(subs@) =~= now.remove(i as int));
            assert(now.remove(i as int) =~= kept + all.skip(k + 1));
        } else {
            assert(kept.push(all[k]) + all.skip(k + 1) =~= kept + all.skip(k));
            i += 1;
        }
        proof {
            k = k + 1;
        }
    }
    proof {
        assert(subscriptions_model(subs@).len() == subs@.len());
        assert(all.skip(k).len() == 0);
        assert(all.take(k) =~= all);
        assert(all.filter(keep) + all.skip(k) =~= all.filter(keep));
    }
}

/// The clients with `c` under the id `cid`: in the place of the client that had the id, or
/// last.
pub open spec fn with_client(clients: Seq<ClientRow>, cid: u32, c: ClientModel) -> Seq<ClientRow> {
    if has_cid(clients, cid) {
        clients.update(index_of_cid(clients, cid), (cid, c))
    } else {
        clients.push((cid, c))
    }
}

/// A connection is there: a new client stands under its id and is told of every topic, at
/// most five announcements to a frame.
pub open spec fn accept_step(m: NTServerModel, cid: u32) -> (NTServerModel, Seq<OutgoingModel>) {
    let told = announce_each(new_client(), only_topics(m.topics));
    (
        NTServerModel { clients: with_client(m.clients, cid, told.0), ..m },
        text_frames(cid, chunks(told.1, MAX_BATCHING_SIZE as nat)),
    )
}

/// Publishers let go of the topics of a list, one after the other.
pub open spec fn release_each(m: NTServerModel, names: Seq<Seq<char>>) -> (
    NTServerModel,
    Seq<OutgoingModel>,
)
    decreases names.len(),
{
    if names.len() == 0 {
        (m, Seq::empty())
    } else {
        let front = release_each(m, names.drop_last());
        let last = release_step(front.0, names.last());
        (last.0, front.1 + last.1)
    }
}

/// A connection is gone: its client is forgotten, and what it published is let go of.
pub open spec fn disconnect_step(m: NTServerModel, cid: u32) -> (
    NTServerModel,
    Seq<OutgoingModel>,
) {
    if has_cid(m.clients, cid) {
        let i = index_of_cid(m.clients, cid);
        release_each(NTServerModel { clients: m.clients.remove(i), ..m }, m.clients[i].1.pubs)
    } else {
        (m, Seq::empty())
    }
}

/// A client asks to publish: the topic is asked for, and the client is noted as one of its
/// publishers. A request of an unknown connection does nothing.
pub open spec fn client_publish_step(m: NTServerModel, cid: u32, name: Seq<char>, ty: DataType) -> (
    NTServerModel,
    Seq<OutgoingModel>,
) {
    if has_cid(m.clients, cid) {
        let made = create_step(m, name, ty);
        let i = index_of_cid(made.0.clients, cid);
        let c = made.0.clients[i].1;
        (
            NTServerModel {
                clients: made.0.clients.update(i, (cid, ClientModel { pubs: c.pubs.push(name), ..c })),
                ..made.0
            },
            made.1,
        )
    } else {
        (m, Seq::empty())
    }
}

/// A client stops publishing: the key leaves its list once, and the topic is let go of. A
/// request of an unknown connection does nothing.
pub open spec fn client_release_step(m: NTServerModel, cid: u32, name: Seq<char>) -> (
    NTServerModel,
    Seq<OutgoingModel>,
) {
    if has_cid(m.clients, cid) {
        let i = index_of_cid(m.clients, cid);
        let c = m.clients[i].1;
        release_step(
            NTServerModel {
                clients: m.clients.update(
                    i,
                    (cid, ClientModel { pubs: without_first(c.pubs, name), ..c }),
                ),
                ..m
            },
            name,
        )
    } else {
        (m, Seq::empty())
    }
}

/// A topic gets new flags and is announced again to every client.
pub open spec fn flags_step(m: NTServerModel, name: Seq<char>, flags: TopicFlags) -> (
    NTServerModel,
    Seq<OutgoingModel>,
) {
    if has_topic(m.topics, name) {
        let i = index_of_topic(m.topics, name);
        let t = TopicModel { flags, ..m.topics[i].0 };
        (
            NTServerModel {
                topics: m.topics.update(i, (t, m.topics[i].1)),
                clients: announced_clients(m.clients, name),
                ..m
            },
            announce_actions(m.clients, t),
        )
    } else {
        (m, Seq::empty())
    }
}

/// The flags after a request to add some and to remove some.
pub open spec fn flags_after(flags: TopicFlags, add: Seq<Seq<char>>, remove: Seq<Seq<char>>) -> TopicFlags {
    TopicFlags {
        persistent: (flags.persistent || add.contains(persistent_name())) && !remove.contains(
            persistent_name(),
        ),
    }
}

/// A client asks to add and to remove flags of a topic.
pub open spec fn set_flags_step(
    m: NTServerModel,
    name: Seq<char>,
    add: Seq<Seq<char>>,
    remove: Seq<Seq<char>>,
) -> (NTServerModel, Seq<OutgoingModel>) {
    if has_topic(m.topics, name) {
        flags_step(m, name, flags_after(m.topics[index_of_topic(m.topics, name)].0.flags, add, remove))
    } else {
        (m, Seq::empty())
    }
}

/// The update that tells a client of what a topic holds, if the topic was announced to it.
pub open spec fn update_for(c: ClientModel, t: TopicModel) -> Option<BinaryModel> {
    if announced(c.ids, t.name) {
        Some(
            BinaryModel {
                id: c.ids[index_of_announced(c.ids, t.name)].1,
                timestamp: t.timestamp,
                value: t.value,
            },
        )
    } else {
        None
    }
}

fn update_of(client: &ConnectedClient, name: &str, timestamp: u64, value: &NTValue) -> (r: Option<
    NTBinaryMessage,
>)
    ensures
        forall|t: TopicModel|
            t.name == name@ && t.timestamp == timestamp && t.value == value@ ==> (match r {
                Some(u) => #[trigger] update_for(client@, t) == Some(u@),
                None => update_for(client@, t) is None,
            }),
{
    match client.lookup_id(name) {
        Some(id) => Some(NTBinaryMessage { id, timestamp, value: value.duplicate() }),
        None => None,
    }
}

/// The updates that tell a client of the topics that a prefix covers, in the topics' order.
pub open spec fn covered_updates(c: ClientModel, topics: Seq<TopicModel>, prefix: Seq<char>) -> Seq<
    BinaryModel,
>
    decreases topics.len(),
{
    if topics.len() == 0 {
        Seq::empty()
    } else {
        let front = covered_updates(c, topics.drop_last(), prefix);
        let t = topics.last();
        match update_for(c, t) {
            Some(u) => if covers(prefix, t.name) {
                front.push(u)
            } else {
                front
            },
            None => front,
        }
    }
}

/// The updates that a new subscription gets at once: for every prefix in turn, the topics
/// that it covers.
pub open spec fn initial_updates(
    c: ClientModel,
    topics: Seq<TopicModel>,
    prefixes: Seq<Seq<char>>,
) -> Seq<BinaryModel>
    decreases prefixes.len(),
{
    if prefixes.len() == 0 {
        Seq::empty()
    } else {
        initial_updates(c, topics, prefixes.drop_last()) + covered_updates(
            c,
            topics,
            prefixes.last(),
        )
    }
}

fn push_covered(
    client: &ConnectedClient,
    topics: &Vec<Topic>,
    prefix: &str,
    updates: &mut Vec<NTBinaryMessage>,
)
    ensures
        views(final(updates)@) == views(old(updates)@) + covered_updates(
            client@,
            views(topics@),
            prefix@,
        ),
{
    let ghost start = views(updates@);
    let ghost all = views(topics@);
    let mut i: usize = 0;
    assert(start + covered_updates(client@, all.take(0), prefix@) =~= start);
    while i < topics.len()
        invariant
            i <= topics@.len(),
            all == views(topics@),
            views(updates@) == start + covered_updates(client@, all.take(i as int), prefix@),
        decreases topics@.len() - i,
    {
        let ghost front = covered_updates(client@, all.take(i as int), prefix@);
        assert(all.take(i + 1).drop_last() =~= all.take(i as int));
        assert(all.take(i + 1).last() == topics@[i as int]@);
        let topic = &topics[i];
        if starts_with(topic.name.as_str(), prefix) {
            match update_of(client, topic.name.as_str(), topic.timestamp, &topic.value) {
                Some(u) => {
                    let ghost before = views(updates@);
                    let ghost word = u@;
                    assert(update_for(client@, topic@) == Some(word));
                    updates.push(u);
                    assert(views(updates@) =~= before.push(word));
                    assert(start + front.push(word) =~= (start + front).push(word));
                },
                None => {
                    assert(update_for(client@, topic@) is None);
                },
            }
        }
        i += 1;
    }
    assert(all.take(i as int) =~= all);
}

/// A client subscribes: it gets at once what the topics hold that the prefixes cover, at
/// most five updates to a frame, and the subscription is noted. A request of an unknown
/// connection does nothing.
pub open spec fn client_subscribe_step(
    m: NTServerModel,
    cid: u32,
    subuid: u32,
    prefixes: Seq<Seq<char>>,
    options: Option<SubscriptionOptions>,
) -> (NTServerModel, Seq<OutgoingModel>) {
    if has_cid(m.clients, cid) {
        let i = index_of_cid(m.clients, cid);
        let c = m.clients[i].1;
        (
            NTServerModel {
                clients: m.clients.update(
                    i,
                    (cid, after_subscribe(c, subuid, subscription_of(prefixes, options))),
                ),
                ..m
            },
            update_frames(cid, initial_updates(c, only_topics(m.topics), prefixes)),
        )
    } else {
        (m, Seq::empty())
    }
}

/// A client ends a subscription.
pub open spec fn client_unsubscribe_step(m: NTServerModel, cid: u32, subuid: u32) -> NTServerModel {
    if has_cid(m.clients, cid) {
        let i = index_of_cid(m.clients, cid);
        NTServerModel {
            clients: m.clients.update(i, (cid, after_unsubscribe(m.clients[i].1, subuid))),
            ..m
        }
    } else {
        m
    }
}

/// What the topics hold that a client asks for by their ids, in the order of the ids. An id
/// that the client has for no topic is passed over.
pub open spec fn requested_updates(c: ClientModel, topics: TopicsModel, ids: Seq<i32>) -> Seq<
    BinaryModel,
>
    decreases ids.len(),
{
    if ids.len() == 0 {
        Seq::empty()
    } else {
        let front = requested_updates(c, topics, ids.drop_last());
        let id = ids.last();
        if has_pub_id(c.ids, id) && has_topic(topics, c.ids[index_of_pub_id(c.ids, id)].0) {
            let t = topics[index_of_topic(topics, c.ids[index_of_pub_id(c.ids, id)].0)].0;
            front.push(BinaryModel { id, timestamp: t.timestamp, value: t.value })
        } else {
            front
        }
    }
}

/// A client asks for values: it gets them at most five to a frame.
pub open spec fn get_values_step(m: NTServerModel, cid: u32, ids: Seq<i32>) -> Seq<OutgoingModel> {
    if has_cid(m.clients, cid) {
        update_frames(
            cid,
            requested_updates(m.clients[index_of_cid(m.clients, cid)].1, m.topics, ids),
        )
    } else {
        Seq::empty()
    }
}

/// A value goes out at once: one frame with one update for every client that subscribed to
/// the topic and knows it.
pub open spec fn value_actions(clients: Seq<ClientRow>, t: TopicModel) -> Seq<OutgoingModel>
    decreases clients.len(),
{
    if clients.len() == 0 {
        Seq::empty()
    } else {
        let front = value_actions(clients.drop_last(), t);
        let c = clients.last().1;
        match update_for(c, t) {
            Some(u) => if subscribed(c.subs, t.name) {
                front.push(OutgoingModel::Binary(clients.last().0, seq![u]))
            } else {
                front
            },
            None => front,
        }
    }
}

/// The topic takes a value of the server itself at the time `now`: it exists, holds
/// nothing newer, and the value is of its kind.
pub open spec fn accepts_value(
    topics: TopicsModel,
    name: Seq<char>,
    value: NTValueModel,
    now: u64,
) -> bool {
    has_topic(topics, name) && topics[index_of_topic(topics, name)].0.timestamp <= now
        && topics[index_of_topic(topics, name)].0.value.data_type() == value.data_type()
}

/// The server itself gives a topic a value: where the topic takes it, the subscribers get
/// it at once.
pub open spec fn update_step(m: NTServerModel, name: Seq<char>, value: NTValueModel, now: u64) -> (
    NTServerModel,
    Seq<OutgoingModel>,
) {
    if accepts_value(m.topics, name, value, now) {
        let i = index_of_topic(m.topics, name);
        let t = TopicModel { value, timestamp: now, ..m.topics[i].0 };
        (
            NTServerModel { topics: m.topics.update(i, (t, m.topics[i].1)), ..m },
            value_actions(m.clients, t),
        )
    } else {
        (m, Seq::empty())
    }
}

fn push_values(clients: &Vec<(u32, ConnectedClient)>, snapshot: &TopicSnapshot, out: &mut Vec<Outgoing>)
    ensures
        views(final(out)@) == views(old(out)@) + value_actions(clients_model(clients@), snapshot@),
{
    let ghost start = views(out@);
    let ghost all = clients_model(clients@);
    let ghost t = snapshot@;
    let mut i: usize = 0;
    assert(start + value_actions(all.take(0), t) =~= start);
    while i < clients.len()
        invariant
            i <= clients@.len(),
            all == clients_model(clients@),
            t == snapshot@,
            views(out@) == start + value_actions(all.take(i as int), t),
        decreases clients@.len() - i,
    {
        let ghost front = value_actions(all.take(i as int), t);
        assert(all.take(i + 1).drop_last() =~= all.take(i as int));
        assert(all.take(i + 1).last() == all[i as int]);
        assert(all[i as int] == (clients@[i as int].0, clients@[i as int].1@));
        let client = &clients[i].1;
        if client.subscribed_to(snapshot.name.as_str()) {
            match update_of(client, snapshot.name.as_str(), snapshot.timestamp, &snapshot.value) {
                Some(update) => {
                    let ghost before = views(out@);
                    let ghost u = update@;
                    assert(update_for(client@, t) == Some(u));
                    let mut frame: Vec<NTBinaryMessage> = Vec::new();
                    frame.push(update);
                    assert(views(frame@) =~= seq![u]);
                    out.push(Outgoing::Binary(clients[i].0, frame));
                    assert(views(out@) =~= before.push(
                        OutgoingModel::Binary(all[i as int].0, seq![u]),
                    ));
                    assert(start + front.push(OutgoingModel::Binary(all[i as int].0, seq![u]))
                        =~= (start + front).push(OutgoingModel::Binary(all[i as int].0, seq![u])));
                },
                None => {
                    assert(update_for(client@, t) is None);
                },
            }
        }
        i += 1;
    }
    assert(all.take(i as int) =~= all);
}

/// What the updates of a client did: the topics afterwards, the frames that go back to the
/// client, and what the topics took, in the order in which they took it.
pub struct Received {
    pub topics: TopicsModel,
    pub echoes: Seq<OutgoingModel>,
    pub taken: Seq<TopicModel>,
}

/// The updates of a client are taken one after the other. One with the id -1 asks for the
/// time: it goes back at once with the server's time. Any other names a topic by the id
/// that the client has for it; the topic takes the value unless it holds a newer one. An
/// id that the client has for no topic is passed over.
pub open spec fn receive_each(
    c: ClientModel,
    cid: u32,
    topics: TopicsModel,
    updates: Seq<BinaryModel>,
    now: u64,
) -> Received
    decreases updates.len(),
{
    if updates.len() == 0 {
        Received { topics, echoes: Seq::empty(), taken: Seq::empty() }
    } else {
        let front = receive_each(c, cid, topics, updates.drop_last(), now);
        let u = updates.last();
        if u.id == -1 {
            Received {
                echoes: front.echoes.push(
                    OutgoingModel::Binary(cid, seq![BinaryModel { timestamp: now, ..u }]),
                ),
                ..front
            }
        } else if has_pub_id(c.ids, u.id) && takes(
            front.topics,
            c.ids[index_of_pub_id(c.ids, u.id)].0,
            u.timestamp,
        ) {
            let name = c.ids[index_of_pub_id(c.ids, u.id)].0;
            let topics = taken(front.topics, name, u.value, u.timestamp);
            Received {
                topics,
                taken: front.taken.push(snapshot_of(topics[index_of_topic(front.topics, name)].0)),
                ..front
            }
        } else {
            front
        }
    }
}

/// What a list of new values does for one client: a value that none of its subscriptions
/// covers is passed over; one whose oldest covering subscription is immediate goes out at
/// once, in a frame of its own; any other waits in the client's queue.
pub open spec fn deliver_each(c: ClientModel, cid: u32, values: Seq<TopicModel>) -> (
    ClientModel,
    Seq<OutgoingModel>,
)
    decreases values.len(),
{
    if values.len() == 0 {
        (c, Seq::empty())
    } else {
        let front = deliver_each(c, cid, values.drop_last());
        let t = values.last();
        let now = front.0;
        if subscribed(now.subs, t.name) {
            if now.subs[index_of_subscribed(now.subs, t.name)].1.immediate {
                match update_for(now, t) {
                    Some(u) => (now, front.1.push(OutgoingModel::Binary(cid, seq![u]))),
                    None => front,
                }
            } else {
                (ClientModel { queued: now.queued.push(t), ..now }, front.1)
            }
        } else {
            front
        }
    }
}

/// What a list of new values does for the clients, one client after the other.
pub open spec fn deliver_all(clients: Seq<ClientRow>, values: Seq<TopicModel>) -> (
    Seq<ClientRow>,
    Seq<OutgoingModel>,
)
    decreases clients.len(),
{
    if clients.len() == 0 {
        (Seq::empty(), Seq::empty())
    } else {
        let front = deliver_all(clients.drop_last(), values);
        let last = deliver_each(clients.last().1, clients.last().0, values);
        (front.0.push((clients.last().0, last.0)), front.1 + last.1)
    }
}

/// A binary frame of a client came in at the time `now`: first what goes back to the
/// client, then what goes out to the subscribers. A frame of an unknown connection does
/// nothing.
pub open spec fn binary_step(m: NTServerModel, cid: u32, updates: Seq<BinaryModel>, now: u64) -> (
    NTServerModel,
    Seq<OutgoingModel>,
) {
    if has_cid(m.clients, cid) {
        let r = receive_each(m.clients[index_of_cid(m.clients, cid)].1, cid, m.topics, updates, now);
        let d = deliver_all(m.clients, r.taken);
        (NTServerModel { topics: r.topics, clients: d.0, ..m }, r.echoes + d.1)
    } else {
        (m, Seq::empty())
    }
}

fn deliver(
    client: &mut ConnectedClient,
    cid: u32,
    values: &Vec<TopicSnapshot>,
    out: &mut Vec<Outgoing>,
)
    ensures
        final(client)@ == deliver_each(old(client)@, cid, views(values@)).0,
        views(final(out)@) == views(old(out)@) + deliver_each(old(client)@, cid, views(values@)).1,
{
    let ghost start = views(out@);
    let ghost all = views(values@);
    let ghost c = client@;
    let mut i: usize = 0;
    assert(start + deliver_each(c, cid, all.take(0)).1 =~= start);
    while i < values.len()
        invariant
            i <= values@.len(),
            all == views(values@),
            client@ == deliver_each(c, cid, all.take(i as int)).0,
            views(out@) == start + deliver_each(c, cid, all.take(i as int)).1,
        decreases values@.len() - i,
    {
        let ghost front = deliver_each(c, cid, all.take(i as int));
        assert(all.take(i + 1).drop_last() =~= all.take(i as int));
        assert(all.take(i + 1).last() == values@[i as int]@);
        let value = &values[i];
        let immediate = match client.subscription(value.name.as_str()) {
            Some(sub) => Some(sub.immediate),
            None => None,
        };
        match immediate {
            Some(true) => {
                match update_of(client, value.name.as_str(), value.timestamp, &value.value) {
                    Some(update) => {
                        let ghost before = views(out@);
                        let ghost u = update@;
                        assert(update_for(client@, value@) == Some(u));
                        let mut frame: Vec<NTBinaryMessage> = Vec::new();
                        frame.push(update);
                        assert(views(frame@) =~= seq![u]);
                        out.push(Outgoing::Binary(cid, frame));
                        assert(views(out@) =~= before.push(OutgoingModel::Binary(cid, seq![u])));
                        assert(start + front.1.push(OutgoingModel::Binary(cid, seq![u])) =~= (start
                            + front.1).push(OutgoingModel::Binary(cid, seq![u])));
                    },
                    None => {
                        assert(update_for(client@, value@) is None);
                    },
                }
            },
            Some(false) => {
                let ghost queued = client@.queued;
                client.queued_updates.push(value.duplicate());
                assert(client@.queued =~= queued.push(value@));
            },
            None => {},
        }
        i += 1;
    }
    assert(all.take(i as int) =~= all);
}

fn deliver_to_all(
    clients: &mut Vec<(u32, ConnectedClient)>,
    values: &Vec<TopicSnapshot>,
    out: &mut Vec<Outgoing>,
)
    ensures
        clients_model(final(clients)@) == deliver_all(
            clients_model(old(clients)@),
            views(values@),
        ).0,
        views(final(out)@) == views(old(out)@) + deliver_all(
            clients_model(old(clients)@),
            views(values@),
        ).1,
        final(clients)@.len() == old(clients)@.len(),
        forall|j: int|
            0 <= j < old(clients)@.len() ==> (#[trigger] final(clients)@[j]).0 == old(clients)@[j].0,
{
    let ghost start = views(out@);
    let ghost all = clients_model(clients@);
    let ghost news = views(values@);
    let mut i: usize = 0;
    assert(start + deliver_all(all.take(0), news).1 =~= start);
    assert(deliver_all(all.take(0), news).0 + all.skip(0) =~= all);
    while i < clients.len()
        invariant
            i <= clients@.len(),
            clients@.len() == all.len(),
            clients@.len() == old(clients)@.len(),
            news == views(values@),
            deliver_all(all.take(i as int), news).0.len() == i,
            forall|j: int|
                0 <= j < clients@.len() ==> (#[trigger] clients@[j]).0 == old(clients)@[j].0,
            clients_model(clients@) == deliver_all(all.take(i as int), news).0 + all.skip(i as int),
            views(out@) == start + deliver_all(all.take(i as int), news).1,
        decreases clients@.len() - i,
    {
        let ghost front = deliver_all(all.take(i as int), news);
        assert(all.take(i + 1).drop_last() =~= all.take(i as int));
        assert(all.take(i + 1).last() == all[i as int]);
        let ghost now = clients_model(clients@);
        assert(now[i as int] == all[i as int]);
        let ghost rows = clients@;
        let ghost mid = views(out@);
        let cid = clients[i].0;
        deliver(&mut clients[i].1, cid, values, out);
        let ghost d = deliver_each(all[i as int].1, cid, news);
        assert(clients@.len() == rows.len());
        assert(forall|j: int| 0 <= j < rows.len() && j != i ==> clients@[j] == rows[j]);
        assert(clients@[i as int].0 == cid);
        assert(rows[i as int].1@ == all[i as int].1);
        assert(clients@[i as int].1@ == d.0);
        assert forall|j: int| 0 <= j < rows.len() implies clients_model(clients@)[j] == (front.0.push(
            (cid, d.0),
        ) + all.skip(i + 1))[j] by {
            if j != i {
                assert(clients_model(clients@)[j] == now[j]);
                assert(now[j] == (front.0 + all.skip(i as int))[j]);
            }
        }
        assert(clients_model(clients@) =~= front.0.push((cid, d.0)) + all.skip(i + 1));
        assert(views(out@) =~= start + (front.1 + d.1));
        i += 1;
    }
    assert(all.take(i as int) =~= all);
    assert(deliver_all(all, news).0 + all.skip(i as int) =~= deliver_all(all, news).0);
}

/// Some subscription has the default period.
pub open spec fn has_default_sub(subs: Seq<SubRow>) -> bool {
    exists|i: int| 0 <= i < subs.len() && (#[trigger] subs[i]).1.periodic == DEFAULT_PERIOD
}

/// Where the oldest subscription with the default period stands.
pub open spec fn index_of_default_sub(subs: Seq<SubRow>) -> int {
    choose|i: int|
        0 <= i < subs.len() && (#[trigger] subs[i]).1.periodic == DEFAULT_PERIOD && forall|j: int|
            0 <= j < i ==> (#[trigger] subs[j]).1.periodic != DEFAULT_PERIOD
}

/// Of every run of values of one topic that wait one behind the other, the newest; of
/// equally new ones the one that came last.
pub open spec fn group_latest(queued: Seq<TopicModel>) -> Seq<TopicModel>
    decreases queued.len(),
{
    if queued.len() == 0 {
        Seq::empty()
    } else {
        let front = group_latest(queued.drop_last());
        let t = queued.last();
        if front.len() > 0 && front.last().name == t.name {
            if front.last().timestamp <= t.timestamp {
                front.drop_last().push(t)
            } else {
                front
            }
        } else {
            front.push(t)
        }
    }
}

/// The updates that tell a client of a list of values. A value of a topic that the client
/// does not know is passed over.
pub open spec fn updates_for(c: ClientModel, values: Seq<TopicModel>) -> Seq<BinaryModel>
    decreases values.len(),
{
    if values.len() == 0 {
        Seq::empty()
    } else {
        let front = updates_for(c, values.drop_last());
        match update_for(c, values.last()) {
            Some(u) => front.push(u),
            None => front,
        }
    }
}

/// The period has passed for one client. A client without a subscription of the default
/// period is left alone. Any other gets what waits for it, at most five updates to a frame,
/// and its queue is empty afterwards: every value if the oldest such subscription logs,
/// else the newest of every run.
pub open spec fn tick_client(c: ClientModel, cid: u32) -> (ClientModel, Seq<OutgoingModel>) {
    if has_default_sub(c.subs) {
        let values = if c.subs[index_of_default_sub(c.subs)].1.logging {
            c.queued
        } else {
            group_latest(c.queued)
        };
        (ClientModel { queued: Seq::empty(), ..c }, update_frames(cid, updates_for(c, values)))
    } else {
        (c, Seq::empty())
    }
}

/// The period has passed for the clients, one client after the other.
pub open spec fn tick_all(clients: Seq<ClientRow>) -> (Seq<ClientRow>, Seq<OutgoingModel>)
    decreases clients.len(),
{
    if clients.len() == 0 {
        (Seq::empty(), Seq::empty())
    } else {
        let front = tick_all(clients.drop_last());
        let last = tick_client(clients.last().1, clients.last().0);
        (front.0.push((clients.last().0, last.0)), front.1 + last.1)
    }
}

/// The period has passed.
pub open spec fn tick_step(m: NTServerModel) -> (NTServerModel, Seq<OutgoingModel>) {
    let r = tick_all(m.clients);
    (NTServerModel { clients: r.0, ..m }, r.1)
}

fn default_sub_logs(client: &ConnectedClient) -> (r: Option<bool>)
    ensures
        match r {
            Some(logging) => has_default_sub(client@.subs) && logging
                == client@.subs[index_of_default_sub(client@.subs)].1.logging,
            None => !has_default_sub(client@.subs),
        },
{
    let ghost subs = client@.subs;
    let mut i: usize = 0;
    while i < client.subs.len()
        invariant
            i <= client.subs@.len(),
            subs == subs_model(client.subs@),
            forall|j: int| 0 <= j < i ==> (#[trigger] subs[j]).1.periodic != DEFAULT_PERIOD,
        decreases client.subs@.len() - i,
    {
        assert(subs[i as int].1 == client.subs@[i as int].1@);
        if client.subs[i].1.periodic == DEFAULT_PERIOD {
            proof {
                let k = index_of_default_sub(subs);
                if k < i {
                    assert(subs[k].1.periodic != DEFAULT_PERIOD);
                } else if i < k {
                    assert(subs[i as int].1.periodic != DEFAULT_PERIOD);
                }
            }
            return Some(client.subs[i].1.logging);
        }
        i += 1;
    }
    None
}

fn latest_of(queued: &Vec<TopicSnapshot>) -> (out: Vec<TopicSnapshot>)
    ensures
        views(out@) == group_latest(views(queued@)),
{
    let ghost all = views(queued@);
    let mut out: Vec<TopicSnapshot> = Vec::new();
    let mut i: usize = 0;
    assert(views(out@) =~= Seq::<TopicModel>::empty());
    while i < queued.len()
        invariant
            i <= queued@.len(),
            all == views(queued@),
            views(out@) == group_latest(all.take(i as int)),
        decreases queued@.len() - i,
    {
        assert(all.take(i + 1).drop_last() =~= all.take(i as int));
        assert(all.take(i + 1).last() == queued@[i as int]@);
        let ghost before = views(out@);
        let n = out.len();
        let value = &queued[i];
        assert(before.len() == n);
        if n > 0 && str_equal(out[n - 1].name.as_str(), value.name.as_str()) {
            assert(before.last() == out@[n - 1]@);
            if out[n - 1].timestamp <= value.timestamp {
                out.set(n - 1, value.duplicate());
                assert(views(out@) =~= before.drop_last().push(value@));
            }
        } else {
            if n > 0 {
                assert(before.last() == out@[n - 1]@);
            }
            out.push(value.duplicate());
            assert(views(out@) =~= before.push(value@));
        }
        i += 1;
    }
    assert(all.take(i as int) =~= all);
    out
}

fn updates_of(client: &ConnectedClient, values: &Vec<TopicSnapshot>) -> (out: Vec<NTBinaryMessage>)
    ensures
        views(out@) == updates_for(client@, views(values@)),
{
    let ghost all = views(values@);
    let mut out: Vec<NTBinaryMessage> = Vec::new();
    let mut i: usize = 0;
    assert(views(out@) =~= Seq::<BinaryModel>::empty());
    while i < values.len()
        invariant
            i <= values@.len(),
            all == views(values@),
            views(out@) == updates_for(client@, all.take(i as int)),
        decreases values@.len() - i,
    {
        assert(all.take(i + 1).drop_last() =~= all.take(i as int));
        assert(all.take(i + 1).last() == values@[i as int]@);
        let value = &values[i];
        match update_of(client, value.name.as_str(), value.timestamp, &value.value) {
            Some(update) => {
                let ghost before = views(out@);
                let ghost u = update@;
                assert(update_for(client@, value@) == Some(u));
                out.push(update);
                assert(views(out@) =~= before.push(u));
            },
            None => {
                assert(update_for(client@, value@) is None);
            },
        }
        i += 1;
    }
    assert(all.take(i as int) =~= all);
    out
}

fn tick_one(client: &mut ConnectedClient, cid: u32, out: &mut Vec<Outgoing>)
    ensures
        final(client)@ == tick_client(old(client)@, cid).0,
        views(final(out)@) == views(old(out)@) + tick_client(old(client)@, cid).1,
{
    let ghost start = views(out@);
    match default_sub_logs(client) {
        Some(logging) => {
            let updates = if logging {
                updates_of(client, &client.queued_updates)
            } else {
                let values = latest_of(&client.queued_updates);
                updates_of(client, &values)
            };
            client.queued_updates = Vec::new();
            assert(client@.queued =~= Seq::<TopicModel>::empty());
            push_binary_frames(cid, updates, out);
        },
        None => {
            assert(start + Seq::<OutgoingModel>::empty() =~= start);
        },
    }
}

/// The test that a value is of a topic that some prefix of the list covers.
pub open spec fn covered_value(prefixes: Seq<Seq<char>>) -> spec_fn(TopicModel) -> bool {
    |t: TopicModel| any_covers(prefixes, t.name)
}

/// The test that a value is of a topic that no prefix of the list covers.
pub open spec fn other_value(prefixes: Seq<Seq<char>>) -> spec_fn(TopicModel) -> bool {
    |t: TopicModel| !any_covers(prefixes, t.name)
}

/// The period of one subscription has passed for its client: the client gets what waits
/// for it under the subscription's prefixes, at most five updates to a frame, and those
/// values leave the queue; every one of them if the subscription logs, else the newest of
/// every run.
pub open spec fn flush_client(c: ClientModel, cid: u32, sub: SubscriptionModel) -> (
    ClientModel,
    Seq<OutgoingModel>,
) {
    let mine = c.queued.filter(covered_value(sub.prefixes));
    let values = if sub.logging {
        mine
    } else {
        group_latest(mine)
    };
    (
        ClientModel { queued: c.queued.filter(other_value(sub.prefixes)), ..c },
        update_frames(cid, updates_for(c, values)),
    )
}

/// The period of one subscription has passed. An unknown connection is passed over.
pub open spec fn flush_step(m: NTServerModel, cid: u32, sub: SubscriptionModel) -> (
    NTServerModel,
    Seq<OutgoingModel>,
) {
    if has_cid(m.clients, cid) {
        let i = index_of_cid(m.clients, cid);
        let r = flush_client(m.clients[i].1, cid, sub);
        (NTServerModel { clients: m.clients.update(i, (cid, r.0)), ..m }, r.1)
    } else {
        (m, Seq::empty())
    }
}

fn flush_one(client: &mut ConnectedClient, cid: u32, sub: &Subscription, out: &mut Vec<Outgoing>)
    ensures
        final(client)@ == flush_client(old(client)@, cid, sub@).0,
        views(final(out)@) == views(old(out)@) + flush_client(old(client)@, cid, sub@).1,
{
    let ghost c = client@;
    let ghost all = c.queued;
    let ghost mine_of = covered_value(sub@.prefixes);
    let ghost rest_of = other_value(sub@.prefixes);
    let mut mine: Vec<TopicSnapshot> = Vec::new();
    let mut rest: Vec<TopicSnapshot> = Vec::new();
    let mut i: usize = 0;
    assert(views(mine@) =~= all.take(0).filter(mine_of));
    assert(views(rest@) =~= all.take(0).filter(rest_of));
    while i < client.queued_updates.len()
        invariant
            i <= client.queued_updates@.len(),
            *client == *old(client),
            c == client@,
            all == c.queued,
            mine_of == covered_value(sub@.prefixes),
            rest_of == other_value(sub@.prefixes),
            views(mine@) == all.take(i as int).filter(mine_of),
            views(rest@) == all.take(i as int).filter(rest_of),
        decreases client.queued_updates@.len() - i,
    {
        let ghost k = i as int;
        let value = &client.queued_updates[i];
        assert(all[k] == value@);
        proof {
            assert(all.take(k + 1) =~= all.take(k).push(all[k]));
            all.take(k).lemma_filter_push(all[k], mine_of);
            all.take(k).lemma_filter_push(all[k], rest_of);
        }
        if sub.covers(value.name.as_str()) {
            let ghost before = views(mine@);
            mine.push(value.duplicate());
            assert(views(mine@) =~= before.push(all[k]));
        } else {
            let ghost before = views(rest@);
            rest.push(value.duplicate());
            assert(views(rest@) =~= before.push(all[k]));
        }
        i += 1;
    }
    assert(all.take(i as int) =~= all);
    let updates = if sub.logging {
        updates_of(client, &mine)
    } else {
        let values = latest_of(&mine);
        updates_of(client, &values)
    };
    client.queued_updates = rest;
    push_binary_frames(cid, updates, out);
}

/// What the server's channel brings.
#[derive(Clone, Copy, Debug, PartialEq, Eq, Structural)]
pub enum ServerMessage {
    /// The connection with this id is gone.
    ClientDisconnected(u32),
}

/// A text message of a client came in. Announcements are the server's own words: from a
/// client they do nothing.
pub open spec fn text_step(m: NTServerModel, cid: u32, message: MessageValue) -> (
    NTServerModel,
    Seq<OutgoingModel>,
) {
    match message {
        MessageValue::PublishReq(r) => client_publish_step(m, cid, r.name@, r._type),
        MessageValue::PublishRel(r) => client_release_step(m, cid, r.name@),
        MessageValue::SetFlags(r) => set_flags_step(m, r.name@, texts(r.add@), texts(r.remove@)),
        MessageValue::GetValues(r) => (m, get_values_step(m, cid, r.ids@)),
        MessageValue::Subscribe(r) => client_subscribe_step(
            m,
            cid,
            r.subuid,
            texts(r.prefixes@),
            r.options,
        ),
        MessageValue::Unsubscribe(r) => (client_unsubscribe_step(m, cid, r.subuid), Seq::empty()),
        MessageValue::Announce(_) => (m, Seq::empty()),
        MessageValue::Unannounce(_) => (m, Seq::empty()),
    }
}

impl View for NTServer {
    type V = NTServerModel;

    closed spec fn view(&self) -> NTServerModel {
        NTServerModel {
            topics: self.table@,
            clients: clients_model(self.clients@),
            pubs: texts(self.pubs@),
            subscriptions: subscriptions_model(self.subscriptions@),
            next_sub_id: self.next_sub_id,
        }
    }
}

/// The invariant of a server: that of its topics, and no two clients share an id.
pub open spec fn server_wf(m: NTServerModel) -> bool {
    topics_wf(m.topics) && cids_distinct(m.clients)
}

impl NTServer {
    /// The invariant of the server.
    pub open spec fn wf(&self) -> bool {
        server_wf(self@)
    }

    /// A server without topics, clients and subscriptions.
    pub fn new() -> (s: NTServer)
        ensures
            s.wf(),
            s@ == new_server(),
    {
        let s = NTServer {
            table: TopicTable::new(),
            clients: Vec::new(),
            pubs: Vec::new(),
            subscriptions: Vec::new(),
            next_sub_id: 1,
        };
        assert(s@.clients =~= Seq::<ClientRow>::empty());
        assert(s@.pubs =~= Seq::<Seq<char>>::empty());
        assert(s@.subscriptions =~= Seq::<(u32, Seq<char>)>::empty());
        s
    }

    /// A copy of the topic with the key `name`.
    pub fn topic(&self, name: &str) -> (r: Option<Topic>)
        requires
            self.wf(),
        ensures
            match r {
                Some(t) => has_topic(self@.topics, name@) && t@ == self@.topics[index_of_topic(
                    self@.topics,
                    name@,
                )].0,
                None => !has_topic(self@.topics, name@),
            },
    {
        self.table.topic(name)
    }

    /// What the server keeps for the connection `cid`.
    pub fn client(&self, cid: u32) -> (r: Option<&ConnectedClient>)
        requires
            self.wf(),
        ensures
            match r {
                Some(c) => has_cid(self@.clients, cid) && c@ == self@.clients[index_of_cid(
                    self@.clients,
                    cid,
                )].1,
                None => !has_cid(self@.clients, cid),
            },
    {
        match self.position_of_cid(cid) {
            Some(i) => Some(&self.clients[i].1),
            None => None,
        }
    }

    fn create_topic(&mut self, name: String, ty: DataType, out: &mut Vec<Outgoing>)
        requires
            old(self).wf(),
        ensures
            final(self).wf(),
            final(self)@ == create_step(old(self)@, name@, ty).0,
            views(final(out)@) == views(old(out)@) + create_step(old(self)@, name@, ty).1,
    {
        let ghost start = views(out@);
        let topic = Topic::new(name.clone(), ty);
        match self.table.create_topic(name, ty) {
            Published::Created => {
                push_notifications(&self.subscriptions, &topic, CallbackType::Create, out);
                announce_all(&mut self.clients, &topic, out);
                assert(views(out@) =~= start + create_step(old(self)@, name@, ty).1);
            },
            _ => {
                assert(start + Seq::<OutgoingModel>::empty() =~= start);
            },
        }
    }

    fn on_release(&mut self, name: &str, out: &mut Vec<Outgoing>)
        requires
            old(self).wf(),
        ensures
            final(self).wf(),
            final(self)@ == release_step(old(self)@, name@).0,
            views(final(out)@) == views(old(out)@) + release_step(old(self)@, name@).1,
    {
        let ghost start = views(out@);
        match self.table.on_release(name) {
            Some(topic) => {
                unannounce_all(&mut self.clients, &topic, out);
                push_notifications(&self.subscriptions, &topic, CallbackType::Delete, out);
                assert(views(out@) =~= start + release_step(old(self)@, name@).1);
            },
            None => {
                assert(start + Seq::<OutgoingModel>::empty() =~= start);
            },
        }
    }

    /// The server itself publishes the topic: the server remembers the key, and the topic
    /// is asked for as a client's would be.
    pub fn publish(&mut self, topic: Topic) -> (out: Vec<Outgoing>)
        requires
            old(self).wf(),
        ensures
            final(self).wf(),
            (final(self)@, views(out@)) == publish_step(old(self)@, topic@),
    {
        let mut out: Vec<Outgoing> = Vec::new();
        let ty = topic.entry_type();
        self.pubs.push(topic.name.clone());
        assert(texts(self.pubs@) =~= texts(old(self).pubs@).push(topic@.name));
        assert(views(out@) =~= Seq::<OutgoingModel>::empty());
        self.create_topic(topic.name, ty, &mut out);
        assert(Seq::<OutgoingModel>::empty() + publish_step(old(self)@, topic@).1
            =~= publish_step(old(self)@, topic@).1);
        out
    }

    /// The server itself lets go of the topic `name`, if it publishes it.
    pub fn release(&mut self, name: &str) -> (out: Vec<Outgoing>)
        requires
            old(self).wf(),
        ensures
            final(self).wf(),
            (final(self)@, views(out@)) == local_release_step(old(self)@, name@),
    {
        let mut out: Vec<Outgoing> = Vec::new();
        assert(views(out@) =~= Seq::<OutgoingModel>::empty());
        if remove_first(&mut self.pubs, name) {
            self.on_release(name, &mut out);
            assert(Seq::<OutgoingModel>::empty() + local_release_step(old(self)@, name@).1
                =~= local_release_step(old(self)@, name@).1);
        }
        out
    }

    /// The server itself subscribes to the keys that start with `prefix`. Returns the id of
    /// the subscription.
    pub fn subscribe(&mut self, prefix: String) -> (id: u32)
        requires
            old(self).wf(),
        ensures
            final(self).wf(),
            id == old(self)@.next_sub_id,
            final(self)@ == subscribe_step(old(self)@, prefix@),
    {
        let id = self.next_sub_id;
        drop_subscription(&mut self.subscriptions, id);
        let ghost kept = subscriptions_model(self.subscriptions@);
        self.subscriptions.push((id, prefix));
        assert(subscriptions_model(self.subscriptions@) =~= kept.push((id, prefix@)));
        self.next_sub_id = if id == u32::MAX {
            0
        } else {
            id + 1
        };
        id
    }

    /// Ends the subscription of the server itself with the id `subuid`.
    pub fn unsubscribe(&mut self, subuid: u32)
        requires
            old(self).wf(),
        ensures
            final(self).wf(),
            final(self)@ == unsubscribe_step(old(self)@, subuid),
    {
        drop_subscription(&mut self.subscriptions, subuid);
    }

    fn position_of_cid(&self, cid: u32) -> (r: Option<usize>)
        requires
            self.wf(),
        ensures
            match r {
                Some(i) => i < self@.clients.len() && has_cid(self@.clients, cid) && index_of_cid(
                    self@.clients,
                    cid,
                ) == i,
                None => !has_cid(self@.clients, cid),
            },
    {
        let ghost all = self@.clients;
        let mut i: usize = 0;
        while i < self.clients.len()
            invariant
                i <= self.clients@.len(),
                all == clients_model(self.clients@),
                cids_distinct(all),
                forall|j: int| 0 <= j < i ==> (#[trigger] all[j]).0 != cid,
            decreases self.clients@.len() - i,
        {
            if self.clients[i].0 == cid {
                proof {
                    assert(all[i as int].0 == cid);
                    let k = index_of_cid(all, cid);
                    if k < i {
                        assert(all[k].0 != all[i as int].0);
                    } else if i < k {
                        assert(all[i as int].0 != all[k].0);
                    }
                }
                return Some(i);
            }
            i += 1;
        }
        None
    }

    /// A connection with the id `cid` is there.
    pub fn accept(&mut self, cid: u32) -> (out: Vec<Outgoing>)
        requires
            old(self).wf(),
        ensures
            final(self).wf(),
            (final(self)@, views(out@)) == accept_step(old(self)@, cid),
    {
        let mut out: Vec<Outgoing> = Vec::new();
        assert(views(out@) =~= Seq::<OutgoingModel>::empty());
        let topics = self.table.snapshot();
        let mut client = ConnectedClient::new();
        let messages = announce_topics(&mut client, &topics);
        push_text_frames(cid, messages, &mut out);
        assert(Seq::<OutgoingModel>::empty() + accept_step(old(self)@, cid).1 =~= accept_step(
            old(self)@,
            cid,
        ).1);
        let ghost before = self@.clients;
        match self.position_of_cid(cid) {
            Some(i) => {
                self.clients[i].1 = client;
                assert(self@.clients =~= before.update(i as int, (cid, client@)));
            },
            None => {
                self.clients.push((cid, client));
                assert(self@.clients =~= before.push((cid, client@)));
            },
        }
        out
    }

    /// The connection with the id `cid` is gone.
    pub fn disconnect(&mut self, cid: u32) -> (out: Vec<Outgoing>)
        requires
            old(self).wf(),
        ensures
            final(self).wf(),
            (final(self)@, views(out@)) == disconnect_step(old(self)@, cid),
    {
        let mut out: Vec<Outgoing> = Vec::new();
        assert(views(out@) =~= Seq::<OutgoingModel>::empty());
        let ghost before = self@.clients;
        match self.position_of_cid(cid) {
            Some(i) => {
                let row = self.clients.remove(i);
                assert(self@.clients =~= before.remove(i as int));
                let ghost start = self@;
                let ghost names = texts(row.1.pubs@);
                assert(names == before[i as int].1.pubs);
                let mut k: usize = 0;
                while k < row.1.pubs.len()
                    invariant
                        k <= row.1.pubs@.len(),
                        names == texts(row.1.pubs@),
                        self.wf(),
                        (self@, views(out@)) == release_each(start, names.take(k as int)),
                    decreases row.1.pubs@.len() - k,
                {
                    assert(names.take(k + 1).drop_last() =~= names.take(k as int));
                    assert(names.take(k + 1).last() == row.1.pubs@[k as int]@);
                    self.on_release(row.1.pubs[k].as_str(), &mut out);
                    k += 1;
                }
                assert(names.take(k as int) =~= names);
            },
            None => {},
        }
        out
    }

    /// The client of the connection `cid` asks to publish under the key of the request.
    pub fn client_publish(&mut self, cid: u32, request: PublishReq) -> (out: Vec<Outgoing>)
        requires
            old(self).wf(),
        ensures
            final(self).wf(),
            (final(self)@, views(out@)) == client_publish_step(
                old(self)@,
                cid,
                request.name@,
                request._type,
            ),
    {
        let mut out: Vec<Outgoing> = Vec::new();
        assert(views(out@) =~= Seq::<OutgoingModel>::empty());
        match self.position_of_cid(cid) {
            Some(_) => {
                let ghost made = create_step(old(self)@, request.name@, request._type);
                self.create_topic(request.name.clone(), request._type, &mut out);
                assert(Seq::<OutgoingModel>::empty() + made.1 =~= made.1);
                match self.position_of_cid(cid) {
                    Some(i) => {
                        let ghost rows = self@.clients;
                        let ghost c = rows[i as int].1;
                        self.clients[i].1.pubs.push(request.name);
                        assert(self@.clients =~= rows.update(
                            i as int,
                            (cid, ClientModel { pubs: c.pubs.push(request.name@), ..c }),
                        )) by {
                            assert(texts(self.clients@[i as int].1.pubs@) =~= c.pubs.push(
                                request.name@,
                            ));
                        }
                    },
                    None => {
                        proof {
                            let k = index_of_cid(old(self)@.clients, cid);
                            assert(self@.clients[k].0 == cid);
                        }
                    },
                }
            },
            None => {},
        }
        out
    }

    /// The client of the connection `cid` stops publishing under the key of the request.
    pub fn client_release(&mut self, cid: u32, request: PublishRel) -> (out: Vec<Outgoing>)
        requires
            old(self).wf(),
        ensures
            final(self).wf(),
            (final(self)@, views(out@)) == client_release_step(old(self)@, cid, request.name@),
    {
        let mut out: Vec<Outgoing> = Vec::new();
        assert(views(out@) =~= Seq::<OutgoingModel>::empty());
        match self.position_of_cid(cid) {
            Some(i) => {
                let ghost rows = self@.clients;
                let ghost c = rows[i as int].1;
                remove_first(&mut self.clients[i].1.pubs, request.name.as_str());
                assert(self@.clients =~= rows.update(
                    i as int,
                    (cid, ClientModel { pubs: without_first(c.pubs, request.name@), ..c }),
                ));
                let ghost mid = self@;
                self.on_release(request.name.as_str(), &mut out);
                assert(Seq::<OutgoingModel>::empty() + release_step(mid, request.name@).1
                    =~= release_step(mid, request.name@).1);
            },
            None => {},
        }
        out
    }

    /// The server itself gives the topic `name` the flags `flags`.
    pub fn update_topic_flags(&mut self, name: &str, flags: TopicFlags) -> (out: Vec<Outgoing>)
        requires
            old(self).wf(),
        ensures
            final(self).wf(),
            (final(self)@, views(out@)) == flags_step(old(self)@, name@, flags),
    {
        let mut out: Vec<Outgoing> = Vec::new();
        assert(views(out@) =~= Seq::<OutgoingModel>::empty());
        match self.table.update_topic_flags(name, flags) {
            Some(topic) => {
                announce_all(&mut self.clients, &topic, &mut out);
                assert(Seq::<OutgoingModel>::empty() + flags_step(old(self)@, name@, flags).1
                    =~= flags_step(old(self)@, name@, flags).1);
            },
            None => {},
        }
        out
    }

    /// A client asks to add and to remove flags of a topic.
    pub fn client_set_flags(&mut self, request: &SetFlags) -> (out: Vec<Outgoing>)
        requires
            old(self).wf(),
        ensures
            final(self).wf(),
            (final(self)@, views(out@)) == set_flags_step(
                old(self)@,
                request.name@,
                texts(request.add@),
                texts(request.remove@),
            ),
    {
        match self.table.topic(request.name.as_str()) {
            Some(topic) => {
                let mut flags = topic.flags;
                flags.apply(&request.add, &request.remove);
                self.update_topic_flags(request.name.as_str(), flags)
            },
            None => {
                let out: Vec<Outgoing> = Vec::new();
                assert(views(out@) =~= Seq::<OutgoingModel>::empty());
                out
            },
        }
    }

    /// The server itself gives the topic `name` a value at the time `now`.
    pub fn update_topic(&mut self, name: &str, value: NTValue, now: u64) -> (out: Vec<Outgoing>)
        requires
            old(self).wf(),
        ensures
            final(self).wf(),
            (final(self)@, views(out@)) == update_step(old(self)@, name@, value@, now),
    {
        let mut out: Vec<Outgoing> = Vec::new();
        assert(views(out@) =~= Seq::<OutgoingModel>::empty());
        match self.table.update_value(name, value, now) {
            Some(snapshot) => {
                push_values(&self.clients, &snapshot, &mut out);
                proof {
                    let i = index_of_topic(old(self)@.topics, name@);
                    let t = TopicModel { value: value@, timestamp: now, ..old(self)@.topics[i].0 };
                    lemma_value_actions_of_snapshot(self@.clients, t);
                    assert(Seq::<OutgoingModel>::empty() + value_actions(self@.clients, t)
                        =~= value_actions(self@.clients, t));
                }
            },
            None => {},
        }
        out
    }

    /// The client of the connection `cid` subscribes.
    pub fn client_subscribe(&mut self, cid: u32, request: Subscribe) -> (out: Vec<Outgoing>)
        requires
            old(self).wf(),
        ensures
            final(self).wf(),
            (final(self)@, views(out@)) == client_subscribe_step(
                old(self)@,
                cid,
                request.subuid,
                texts(request.prefixes@),
                request.options,
            ),
    {
        let mut out: Vec<Outgoing> = Vec::new();
        assert(views(out@) =~= Seq::<OutgoingModel>::empty());
        match self.position_of_cid(cid) {
            Some(i) => {
                let ghost rows = self@.clients;
                let ghost c = rows[i as int].1;
                let ghost prefixes = texts(request.prefixes@);
                let topics = self.table.snapshot();
                let mut updates: Vec<NTBinaryMessage> = Vec::new();
                assert(views(updates@) =~= Seq::<BinaryModel>::empty());
                let mut k: usize = 0;
                while k < request.prefixes.len()
                    invariant
                        k <= request.prefixes@.len(),
                        i < self.clients@.len(),
                        self.clients@[i as int].1@ == c,
                        prefixes == texts(request.prefixes@),
                        views(updates@) == initial_updates(
                            c,
                            views(topics@),
                            prefixes.take(k as int),
                        ),
                    decreases request.prefixes@.len() - k,
                {
                    assert(prefixes.take(k + 1).drop_last() =~= prefixes.take(k as int));
                    assert(prefixes.take(k + 1).last() == request.prefixes@[k as int]@);
                    push_covered(
                        &self.clients[i].1,
                        &topics,
                        request.prefixes[k].as_str(),
                        &mut updates,
                    );
                    k += 1;
                }
                assert(prefixes.take(k as int) =~= prefixes);
                push_binary_frames(cid, updates, &mut out);
                assert(Seq::<OutgoingModel>::empty() + update_frames(
                    cid,
                    initial_updates(c, views(topics@), prefixes),
                ) =~= update_frames(cid, initial_updates(c, views(topics@), prefixes)));
                let subuid = request.subuid;
                let ghost options = request.options;
                let sub = self.clients[i].1.subscribe(request);
                assert(self@.clients =~= rows.update(
                    i as int,
                    (cid, after_subscribe(c, subuid, subscription_of(prefixes, options))),
                ));
            },
            None => {},
        }
        out
    }

    /// The client of the connection `cid` ends a subscription.
    pub fn client_unsubscribe(&mut self, cid: u32, request: Unsubscribe)
        requires
            old(self).wf(),
        ensures
            final(self).wf(),
            final(self)@ == client_unsubscribe_step(old(self)@, cid, request.subuid),
    {
        match self.position_of_cid(cid) {
            Some(i) => {
                let ghost rows = self@.clients;
                self.clients[i].1.unsubscribe(request);
                assert(self@.clients =~= rows.update(
                    i as int,
                    (cid, after_unsubscribe(rows[i as int].1, request.subuid)),
                ));
            },
            None => {},
        }
    }

    /// The client of the connection `cid` asks what the topics hold that go to it under the
    /// ids of the request.
    pub fn client_get_values(&self, cid: u32, request: &GetValues) -> (out: Vec<Outgoing>)
        requires
            self.wf(),
        ensures
            views(out@) == get_values_step(self@, cid, request.ids@),
    {
        let mut out: Vec<Outgoing> = Vec::new();
        assert(views(out@) =~= Seq::<OutgoingModel>::empty());
        match self.position_of_cid(cid) {
            Some(i) => {
                let client = &self.clients[i].1;
                let ghost c = self@.clients[i as int].1;
                let ghost ids = request.ids@;
                let mut updates: Vec<NTBinaryMessage> = Vec::new();
                assert(views(updates@) =~= Seq::<BinaryModel>::empty());
                let mut k: usize = 0;
                while k < request.ids.len()
                    invariant
                        k <= ids.len(),
                        ids == request.ids@,
                        self.wf(),
                        client@ == c,
                        views(updates@) == requested_updates(c, self@.topics, ids.take(k as int)),
                    decreases ids.len() - k,
                {
                    assert(ids.take(k + 1).drop_last() =~= ids.take(k as int));
                    assert(ids.take(k + 1).last() == ids[k as int]);
                    let id = request.ids[k];
                    match client.id_to_name(id) {
                        Some(name) => {
                            match self.table.topic(name.as_str()) {
                                Some(topic) => {
                                    let ghost before = views(updates@);
                                    updates.push(
                                        NTBinaryMessage {
                                            id,
                                            timestamp: topic.timestamp,
                                            value: topic.value,
                                        },
                                    );
                                    assert(views(updates@) =~= before.push(
                                        BinaryModel {
                                            id,
                                            timestamp: topic@.timestamp,
                                            value: topic@.value,
                                        },
                                    ));
                                },
                                None => {},
                            }
                        },
                        None => {},
                    }
                    k += 1;
                }
                assert(ids.take(k as int) =~= ids);
                push_binary_frames(cid, updates, &mut out);
                assert(Seq::<OutgoingModel>::empty() + get_values_step(self@, cid, ids)
                    =~= get_values_step(self@, cid, ids));
            },
            None => {},
        }
        out
    }

    /// A binary frame of the connection `cid` came in at the time `now`.
    pub fn client_updates(&mut self, cid: u32, updates: Vec<NTBinaryMessage>, now: u64) -> (out: Vec<
        Outgoing,
    >)
        requires
            old(self).wf(),
        ensures
            final(self).wf(),
            (final(self)@, views(out@)) == binary_step(old(self)@, cid, views(updates@), now),
    {
        let mut out: Vec<Outgoing> = Vec::new();
        assert(views(out@) =~= Seq::<OutgoingModel>::empty());
        match self.position_of_cid(cid) {
            Some(i) => {
                let ghost m = self@;
                let ghost c = m.clients[i as int].1;
                let ghost all = views(updates@);
                let mut taken: Vec<TopicSnapshot> = Vec::new();
                assert(views(taken@) =~= Seq::<TopicModel>::empty());
                for update in it: updates
                    invariant
                        views(it.seq()) == all,
                        self.table.wf(),
                        i < self.clients@.len(),
                        self.clients@ == old(self).clients@,
                        self.pubs@ == old(self).pubs@,
                        self.subscriptions@ == old(self).subscriptions@,
                        self.next_sub_id == old(self).next_sub_id,
                        self.clients@[i as int].1@ == c,
                        receive_each(c, cid, m.topics, all.take(it.index() as int), now) == (
                        Received {
                            topics: self.table@,
                            echoes: views(out@),
                            taken: views(taken@),
                        }),
                {
                    let ghost k = it.index() as int;
                    let ghost front = receive_each(c, cid, m.topics, all.take(k), now);
                    assert(all.take(k + 1).drop_last() =~= all.take(k));
                    assert(all.take(k + 1).last() == update@);
                    if update.id == -1 {
                        let ghost before = views(out@);
                        let echo = NTBinaryMessage {
                            id: update.id,
                            timestamp: now,
                            value: update.value,
                        };
                        let ghost word = echo@;
                        let mut frame: Vec<NTBinaryMessage> = Vec::new();
                        frame.push(echo);
                        assert(views(frame@) =~= seq![word]);
                        out.push(Outgoing::Binary(cid, frame));
                        assert(views(out@) =~= before.push(OutgoingModel::Binary(cid, seq![word])));
                    } else {
                        let name = match self.clients[i].1.id_to_name(update.id) {
                            Some(name) => Some(name.clone()),
                            None => None,
                        };
                        match name {
                            Some(name) => {
                                let ghost before = views(taken@);
                                match self.table.take_value(
                                    name.as_str(),
                                    update.value,
                                    update.timestamp,
                                ) {
                                    Some(snapshot) => {
                                        let ghost word = snapshot@;
                                        taken.push(snapshot);
                                        assert(views(taken@) =~= before.push(word));
                                    },
                                    None => {},
                                }
                            },
                            None => {},
                        }
                    }
                }
                assert(all.take(all.len() as int) =~= all);
                let ghost rows = self@.clients;
                deliver_to_all(&mut self.clients, &taken, &mut out);
                assert forall|a: int, b: int| 0 <= a < b < self@.clients.len() implies (
                #[trigger] self@.clients[a]).0 != (#[trigger] self@.clients[b]).0 by {
                    assert(self@.clients[a].0 == rows[a].0);
                    assert(self@.clients[b].0 == rows[b].0);
                }
            },
            None => {},
        }
        out
    }

    /// The period has passed: every client with a subscription of the default period
    /// gets what waits for it.
    pub fn tick(&mut self) -> (out: Vec<Outgoing>)
        requires
            old(self).wf(),
        ensures
            final(self).wf(),
            (final(self)@, views(out@)) == tick_step(old(self)@),
    {
        let mut out: Vec<Outgoing> = Vec::new();
        let ghost all = self@.clients;
        let mut i: usize = 0;
        assert(views(out@) =~= tick_all(all.take(0)).1);
        assert(tick_all(all.take(0)).0 + all.skip(0) =~= all);
        while i < self.clients.len()
            invariant
                i <= self.clients@.len(),
                self.clients@.len() == all.len(),
                self.table == old(self).table,
                self.pubs == old(self).pubs,
                self.subscriptions == old(self).subscriptions,
                self.next_sub_id == old(self).next_sub_id,
                all == old(self)@.clients,
                tick_all(all.take(i as int)).0.len() == i,
                forall|j: int| 0 <= j < all.len() ==> (#[trigger] self.clients@[j]).0 == all[j].0,
                clients_model(self.clients@) == tick_all(all.take(i as int)).0 + all.skip(i as int),
                views(out@) == tick_all(all.take(i as int)).1,
            decreases self.clients@.len() - i,
        {
            let ghost front = tick_all(all.take(i as int));
            assert(all.take(i + 1).drop_last() =~= all.take(i as int));
            assert(all.take(i + 1).last() == all[i as int]);
            let ghost now = clients_model(self.clients@);
            assert(now[i as int] == all[i as int]);
            let ghost rows = self.clients@;
            let cid = self.clients[i].0;
            tick_one(&mut self.clients[i].1, cid, &mut out);
            let ghost d = tick_client(all[i as int].1, cid);
            assert(self.clients@.len() == rows.len());
            assert(forall|j: int| 0 <= j < rows.len() && j != i ==> self.clients@[j] == rows[j]);
            assert(self.clients@[i as int].0 == cid);
            assert(rows[i as int].1@ == all[i as int].1);
            assert(self.clients@[i as int].1@ == d.0);
            assert forall|j: int| 0 <= j < rows.len() implies clients_model(self.clients@)[j] == (
            front.0.push((cid, d.0)) + all.skip(i + 1))[j] by {
                if j != i {
                    assert(clients_model(self.clients@)[j] == now[j]);
                    assert(now[j] == (front.0 + all.skip(i as int))[j]);
                }
            }
            assert(clients_model(self.clients@) =~= front.0.push((cid, d.0)) + all.skip(i + 1));
            i += 1;
        }
        assert(all.take(i as int) =~= all);
        assert(tick_all(all).0 + all.skip(i as int) =~= tick_all(all).0);
        out
    }

    /// The period of the subscription `sub` of the connection `cid` has passed.
    pub fn flush(&mut self, cid: u32, sub: &Subscription) -> (out: Vec<Outgoing>)
        requires
            old(self).wf(),
        ensures
            final(self).wf(),
            (final(self)@, views(out@)) == flush_step(old(self)@, cid, sub@),
    {
        let mut out: Vec<Outgoing> = Vec::new();
        assert(views(out@) =~= Seq::<OutgoingModel>::empty());
        match self.position_of_cid(cid) {
            Some(i) => {
                let ghost rows = self@.clients;
                let ghost r = flush_client(rows[i as int].1, cid, sub@);
                flush_one(&mut self.clients[i].1, cid, sub, &mut out);
                assert(self@.clients =~= rows.update(i as int, (cid, r.0)));
                assert(Seq::<OutgoingModel>::empty() + r.1 =~= r.1);
            },
            None => {},
        }
        out
    }

    /// The server's channel brought a message.
    pub fn on_message(&mut self, message: ServerMessage) -> (out: Vec<Outgoing>)
        requires
            old(self).wf(),
        ensures
            final(self).wf(),
            match message {
                ServerMessage::ClientDisconnected(cid) => (final(self)@, views(out@))
                    == disconnect_step(old(self)@, cid),
            },
    {
        match message {
            ServerMessage::ClientDisconnected(cid) => self.disconnect(cid),
        }
    }

    /// A text message of the connection `cid` came in.
    pub fn client_text(&mut self, cid: u32, message: MessageValue) -> (out: Vec<Outgoing>)
        requires
            old(self).wf(),
        ensures
            final(self).wf(),
            (final(self)@, views(out@)) == text_step(old(self)@, cid, message),
    {
        match message {
            MessageValue::PublishReq(r) => self.client_publish(cid, r),
            MessageValue::PublishRel(r) => self.client_release(cid, r),
            MessageValue::SetFlags(r) => self.client_set_flags(&r),
            MessageValue::GetValues(r) => self.client_get_values(cid, &r),
            MessageValue::Subscribe(r) => self.client_subscribe(cid, r),
            MessageValue::Unsubscribe(r) => {
                self.client_unsubscribe(cid, r);
                let out: Vec<Outgoing> = Vec::new();
                assert(views(out@) =~= Seq::<OutgoingModel>::empty());
                out
            },
            _ => {
                let out: Vec<Outgoing> = Vec::new();
                assert(views(out@) =~= Seq::<OutgoingModel>::empty());
                out
            },
        }
    }
}

/// Who gets a value does not depend on the topic's flags.
pub proof fn lemma_value_actions_of_snapshot(clients: Seq<ClientRow>, t: TopicModel)
    ensures
        value_actions(clients, snapshot_of(t)) == value_actions(clients, t),
    decreases clients.len(),
{
    if clients.len() > 0 {
        lemma_value_actions_of_snapshot(clients.drop_last(), t);
    }
}

} // verus!

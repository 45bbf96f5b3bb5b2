//! What a server of revision 4 keeps for each of its clients: the ids under which topics were
//! announced to it, its subscriptions, and the updates that wait for it.

use crate::backend::DEFAULT_PERIOD;
use crate::text::{Announce, Subscribe, SubscriptionOptions, TextModel, Unannounce, Unsubscribe};
use crate::topic::{Topic, TopicModel, TopicSnapshot};
use crate::wire::texts;
use vstd::prelude::*;
use vstd::utf8::encode_utf8;

verus! {

/// A subscription: the prefixes of the keys it covers and how its updates are to come. The
/// period is the bit pattern of a double, in seconds.
#[derive(Clone, Debug, PartialEq, Eq)]
pub struct Subscription {
    pub prefixes: Vec<String>,
    pub immediate: bool,
    pub periodic: u64,
    pub logging: bool,
}

/// What a subscription is, as mathematics.
pub struct SubscriptionModel {
    pub prefixes: Seq<Seq<char>>,
    pub immediate: bool,
    pub periodic: u64,
    pub logging: bool,
}

impl View for Subscription {
    type V = SubscriptionModel;

    open spec fn view(&self) -> SubscriptionModel {
        SubscriptionModel {
            prefixes: texts(self.prefixes@),
            immediate: self.immediate,
            periodic: self.periodic,
            logging: self.logging,
        }
    }
}

/// `a` is the start of `b`.
pub open spec fn starts(a: Seq<u8>, b: Seq<u8>) -> bool {
    a.len() <= b.len() && b.subrange(0, a.len() as int) == a
}

/// The name starts with the prefix, byte for byte.
pub open spec fn covers(prefix: Seq<char>, name: Seq<char>) -> bool {
    starts(encode_utf8(prefix), encode_utf8(name))
}

/// Some prefix of the list covers the name.
pub open spec fn any_covers(prefixes: Seq<Seq<char>>, name: Seq<char>) -> bool {
    exists|i: int| 0 <= i < prefixes.len() && covers(#[trigger] prefixes[i], name)
}

/// Whether `name` starts with `prefix`.
#[verifier::loop_isolation(false)]
pub fn starts_with(name: &str, prefix: &str) -> (b: bool)
    ensures
        b == covers(prefix@, name@),
{
    let whole = name.as_bytes();
    let start = prefix.as_bytes();
    if start.len() > whole.len() {
        return false;
    }
    let n: usize = start.len();
    let mut i: usize = 0;
    while i < n
        invariant
            i <= n,
            n == start@.len(),
            n <= whole@.len(),
            forall|j: int| 0 <= j < i ==> whole@[j] == start@[j],
        decreases n - i,
    {
        if whole[i] != start[i] {
            assert(whole@.subrange(0, n as int)[i as int] != start@[i as int]);
            return false;
        }
        i += 1;
    }
    assert(whole@.subrange(0, n as int) =~= start@);
    true
}

fn covered_by(prefixes: &Vec<String>, name: &str) -> (b: bool)
    ensures
        b == any_covers(texts(prefixes@), name@),
{
    let mut i: usize = 0;
    while i < prefixes.len()
        invariant
            i <= prefixes@.len(),
            forall|j: int| 0 <= j < i ==> !covers(#[trigger] texts(prefixes@)[j], name@),
        decreases prefixes@.len() - i,
    {
        if starts_with(name, prefixes[i].as_str()) {
            assert(covers(texts(prefixes@)[i as int], name@));
            return true;
        }
        i += 1;
    }
    false
}

impl Subscription {
    /// Whether the subscription covers the key `name`.
    pub fn covers(&self, name: &str) -> (b: bool)
        ensures
            b == any_covers(self@.prefixes, name@),
    {
        covered_by(&self.prefixes, name)
    }

    /// A copy of the subscription.
    pub fn duplicate(&self) -> (r: Subscription)
        ensures
            r@ == self@,
    {
        Subscription {
            prefixes: crate::types::copy_strings(&self.prefixes),
            immediate: self.immediate,
            periodic: self.periodic,
            logging: self.logging,
        }
    }
}

/// What the server keeps for one client.
pub struct ConnectedClient {
    /// The subscriptions, by their ids, oldest first.
    pub subs: Vec<(u32, Subscription)>,
    /// The id under which each announced topic goes to this client.
    pub pub_ids: Vec<(String, i32)>,
    /// The keys under which this client publishes.
    pub pubs: Vec<String>,
    /// The updates that wait for the next periodic frame.
    pub queued_updates: Vec<TopicSnapshot>,
    /// The id that the next announcement of a new topic gets.
    pub next_pub_id: i32,
}

/// The names and ids of a list of announcements.
pub open spec fn ids_model(ids: Seq<(String, i32)>) -> Seq<(Seq<char>, i32)> {
    ids.map_values(|p: (String, i32)| (p.0@, p.1))
}

/// Some announcement is for the name.
pub open spec fn announced(ids: Seq<(Seq<char>, i32)>, name: Seq<char>) -> bool {
    exists|i: int| 0 <= i < ids.len() && (#[trigger] ids[i]).0 == name
}

/// Where the first announcement for the name stands.
pub open spec fn index_of_announced(ids: Seq<(Seq<char>, i32)>, name: Seq<char>) -> int {
    choose|i: int|
        0 <= i < ids.len() && (#[trigger] ids[i]).0 == name && forall|j: int|
            0 <= j < i ==> (#[trigger] ids[j]).0 != name
}

/// Some announcement has the id.
pub open spec fn has_pub_id(ids: Seq<(Seq<char>, i32)>, id: i32) -> bool {
    exists|i: int| 0 <= i < ids.len() && (#[trigger] ids[i]).1 == id
}

/// Where the first announcement with the id stands.
pub open spec fn index_of_pub_id(ids: Seq<(Seq<char>, i32)>, id: i32) -> int {
    choose|i: int|
        0 <= i < ids.len() && (#[trigger] ids[i]).1 == id && forall|j: int|
            0 <= j < i ==> (#[trigger] ids[j]).1 != id
}

/// One row of the subscriptions: the id and the subscription.
pub type SubRow = (u32, SubscriptionModel);

/// The models of a list of subscriptions.
pub open spec fn subs_model(subs: Seq<(u32, Subscription)>) -> Seq<SubRow> {
    subs.map_values(|row: (u32, Subscription)| (row.0, row.1@))
}

/// Some subscription covers the name.
pub open spec fn subscribed(subs: Seq<SubRow>, name: Seq<char>) -> bool {
    exists|i: int| 0 <= i < subs.len() && any_covers((#[trigger] subs[i]).1.prefixes, name)
}

/// Where the oldest subscription stands that covers the name.
pub open spec fn index_of_subscribed(subs: Seq<SubRow>, name: Seq<char>) -> int {
    choose|i: int|
        0 <= i < subs.len() && any_covers((#[trigger] subs[i]).1.prefixes, name) && forall|j: int|
            0 <= j < i ==> !any_covers((#[trigger] subs[j]).1.prefixes, name)
}

/// What the server keeps for a client, as mathematics.
pub struct ClientModel {
    pub ids: Seq<(Seq<char>, i32)>,
    pub next_pub_id: i32,
    pub subs: Seq<SubRow>,
    pub pubs: Seq<Seq<char>>,
    pub queued: Seq<TopicModel>,
}

/// The models of a list of snapshots.
pub open spec fn snapshots_model(snapshots: Seq<TopicSnapshot>) -> Seq<TopicModel> {
    snapshots.map_values(|s: TopicSnapshot| s@)
}

impl View for ConnectedClient {
    type V = ClientModel;

    open spec fn view(&self) -> ClientModel {
        ClientModel {
            ids: ids_model(self.pub_ids@),
            next_pub_id: self.next_pub_id,
            subs: subs_model(self.subs@),
            pubs: texts(self.pubs@),
            queued: snapshots_model(self.queued_updates@),
        }
    }
}

/// A client without subscriptions and announcements, whose first announcement gets the id 1.
pub open spec fn new_client() -> ClientModel {
    ClientModel {
        ids: Seq::empty(),
        next_pub_id: 1,
        subs: Seq::empty(),
        pubs: Seq::empty(),
        queued: Seq::empty(),
    }
}

/// The id under which a topic is announced to a client: the one it has for the client, or
/// the client's next one; none where the ids have run out.
pub open spec fn announce_id(c: ClientModel, name: Seq<char>) -> Option<i32> {
    if announced(c.ids, name) {
        Some(c.ids[index_of_announced(c.ids, name)].1)
    } else if c.next_pub_id < i32::MAX {
        Some(c.next_pub_id)
    } else {
        None
    }
}

/// The announcement of a topic for a client.
pub open spec fn announcement(c: ClientModel, t: TopicModel) -> Option<TextModel> {
    match announce_id(c, t.name) {
        Some(id) => Some(
            TextModel::Announce { name: t.name, id, _type: t.value.data_type(), flags: t.flags },
        ),
        None => None,
    }
}

/// The client after a topic was announced to it.
pub open spec fn after_announce(c: ClientModel, name: Seq<char>) -> ClientModel {
    if announced(c.ids, name) || c.next_pub_id == i32::MAX {
        c
    } else {
        ClientModel { ids: c.ids.push((name, c.next_pub_id)), next_pub_id: (c.next_pub_id + 1) as i32, ..c }
    }
}

/// The word for a client that a topic is gone, if the topic was announced to it.
pub open spec fn unannouncement(c: ClientModel, name: Seq<char>) -> Option<TextModel> {
    if announced(c.ids, name) {
        Some(TextModel::Unannounce { name, id: c.ids[index_of_announced(c.ids, name)].1 })
    } else {
        None
    }
}

/// The client after it was told that a topic is gone.
pub open spec fn after_unannounce(c: ClientModel, name: Seq<char>) -> ClientModel {
    if announced(c.ids, name) {
        ClientModel { ids: c.ids.remove(index_of_announced(c.ids, name)), ..c }
    } else {
        c
    }
}

impl ConnectedClient {
    /// The announcements, as names and ids.
    pub open spec fn ids(&self) -> Seq<(Seq<char>, i32)> {
        ids_model(self.pub_ids@)
    }

    /// The id that the next announcement of a new topic gets.
    pub open spec fn next_pub_id(&self) -> i32 {
        self.next_pub_id
    }

    /// A client without subscriptions and announcements. Its first announcement gets the id 1.
    pub fn new() -> (c: ConnectedClient)
        ensures
            c@ == new_client(),
    {
        let c = ConnectedClient {
            subs: Vec::new(),
            pub_ids: Vec::new(),
            pubs: Vec::new(),
            queued_updates: Vec::new(),
            next_pub_id: 1,
        };
        assert(c@.ids =~= Seq::<(Seq<char>, i32)>::empty());
        assert(c@.subs =~= Seq::<SubRow>::empty());
        assert(c@.pubs =~= Seq::<Seq<char>>::empty());
        assert(c@.queued =~= Seq::<TopicModel>::empty());
        c
    }

    fn position_of_name(&self, name: &str) -> (r: Option<usize>)
        ensures
            match r {
                Some(i) => i < self.pub_ids@.len() && announced(self.ids(), name@)
                    && index_of_announced(self.ids(), name@) == i,
                None => !announced(self.ids(), name@),
            },
    {
        let mut i: usize = 0;
        while i < self.pub_ids.len()
            invariant
                i <= self.pub_ids@.len(),
                forall|j: int| 0 <= j < i ==> (#[trigger] self.ids()[j]).0 != name@,
            decreases self.pub_ids@.len() - i,
        {
            if str_equal(self.pub_ids[i].0.as_str(), name) {
                proof {
                    let ids = self.ids();
                    assert(ids[i as int].0 == name@);
                    let k = index_of_announced(ids, name@);
                    if k < i {
                        assert(ids[k].0 != name@);
                    } else if i < k {
                        assert(ids[i as int].0 != name@);
                    }
                }
                return Some(i);
            }
            i += 1;
        }
        None
    }

    /// Whether some subscription of the client covers the key `name`.
    pub fn subscribed_to(&self, name: &str) -> (b: bool)
        ensures
            b == subscribed(self@.subs, name@),
    {
        self.subscription(name).is_some()
    }

    /// The oldest subscription of the client that covers the key `name`.
    pub fn subscription(&self, name: &str) -> (r: Option<&Subscription>)
        ensures
            match r {
                Some(sub) => subscribed(self@.subs, name@) && sub@ == self@.subs[index_of_subscribed(
                    self@.subs,
                    name@,
                )].1,
                None => !subscribed(self@.subs, name@),
            },
    {
        let ghost subs = self@.subs;
        let mut i: usize = 0;
        while i < self.subs.len()
            invariant
                i <= self.subs@.len(),
                subs == subs_model(self.subs@),
                forall|j: int| 0 <= j < i ==> !any_covers((#[trigger] subs[j]).1.prefixes, name@),
            decreases self.subs@.len() - i,
        {
            assert(subs[i as int].1 == self.subs@[i as int].1@);
            if self.subs[i].1.covers(name) {
                proof {
                    assert(any_covers(subs[i as int].1.prefixes, name@));
                    let k = index_of_subscribed(subs, name@);
                    if k < i {
                        assert(!any_covers(subs[k].1.prefixes, name@));
                    } else if i < k {
                        assert(!any_covers(subs[i as int].1.prefixes, name@));
                    }
                }
                return Some(&self.subs[i].1);
            }
            i += 1;
        }
        None
    }

    /// The id under which the topic with the key `name` goes to this client.
    pub fn lookup_id(&self, name: &str) -> (r: Option<i32>)
        ensures
            match r {
                Some(id) => announced(self.ids(), name@) && id == self.ids()[index_of_announced(
                    self.ids(),
                    name@,
                )].1,
                None => !announced(self.ids(), name@),
            },
    {
        match self.position_of_name(name) {
            Some(i) => Some(self.pub_ids[i].1),
            None => None,
        }
    }

    /// The key of the topic that goes to this client under the id `id`.
    pub fn id_to_name(&self, id: i32) -> (r: Option<&String>)
        ensures
            match r {
                Some(name) => has_pub_id(self.ids(), id) && name@ == self.ids()[index_of_pub_id(
                    self.ids(),
                    id,
                )].0,
                None => !has_pub_id(self.ids(), id),
            },
    {
        let mut i: usize = 0;
        while i < self.pub_ids.len()
            invariant
                i <= self.pub_ids@.len(),
                forall|j: int| 0 <= j < i ==> (#[trigger] self.ids()[j]).1 != id,
            decreases self.pub_ids@.len() - i,
        {
            if self.pub_ids[i].1 == id {
                proof {
                    let ids = self.ids();
                    assert(ids[i as int].1 == id);
                    let k = index_of_pub_id(ids, id);
                    if k < i {
                        assert(ids[k].1 != id);
                    } else if i < k {
                        assert(ids[i as int].1 != id);
                    }
                }
                return Some(&self.pub_ids[i].0);
            }
            i += 1;
        }
        None
    }

    /// The announcement of a topic for this client.
    ///
    /// A topic that was announced to the client keeps its id. A new topic gets the next id,
    /// and the client remembers it. Where the ids have run out there is no announcement.
    pub fn announce(&mut self, entry: &Topic) -> (r: Option<Announce>)
        ensures
            final(self)@ == after_announce(old(self)@, entry@.name),
            match r {
                Some(a) => announcement(old(self)@, entry@) == Some(a@),
                None => announcement(old(self)@, entry@) is None,
            },
    {
        let id = match self.position_of_name(entry.name.as_str()) {
            Some(i) => self.pub_ids[i].1,
            None => {
                if self.next_pub_id == i32::MAX {
                    return None;
                }
                let id = self.next_pub_id;
                let ghost before = self.ids();
                self.next_pub_id = id + 1;
                self.pub_ids.push((entry.name.clone(), id));
                assert(self.ids() =~= before.push((entry@.name, id)));
                id
            },
        };
        Some(
            Announce {
                name: entry.name.clone(),
                id,
                _type: entry.entry_type(),
                flags: entry.flags,
            },
        )
    }

    /// The word that a topic is gone, for this client: the client forgets the id under which
    /// the topic went to it. A topic that was never announced to the client calls for no word.
    pub fn unannounce(&mut self, entry: &Topic) -> (r: Option<Unannounce>)
        ensures
            final(self)@ == after_unannounce(old(self)@, entry@.name),
            match r {
                Some(u) => unannouncement(old(self)@, entry@.name) == Some(u@),
                None => unannouncement(old(self)@, entry@.name) is None,
            },
    {
        match self.position_of_name(entry.name.as_str()) {
            Some(i) => {
                let ghost before = self.ids();
                let removed = self.pub_ids.remove(i);
                assert(self.ids() =~= before.remove(i as int));
                Some(Unannounce { name: entry.name.clone(), id: removed.1 })
            },
            None => None,
        }
    }

    /// Takes a subscription: it covers the prefixes of the request, with the options of the
    /// request or, where it has none, not immediate, not logging, with the default period. It
    /// takes the place of the first subscription with the same id, or goes behind the others
    /// where there is none. Returns a copy of the subscription.
    #[verifier::loop_isolation(false)]
    pub fn subscribe(&mut self, packet: Subscribe) -> (sub: Subscription)
        ensures
            sub@ == subscription_of(texts(packet.prefixes@), packet.options),
            final(self)@ == after_subscribe(old(self)@, packet.subuid, sub@),
    {
        let mut sub = Subscription {
            prefixes: packet.prefixes,
            immediate: false,
            periodic: DEFAULT_PERIOD,
            logging: false,
        };
        match packet.options {
            Some(opts) => {
                sub.immediate = opts.immediate;
                sub.logging = opts.logging;
                sub.periodic = opts.periodic;
            },
            None => {},
        }
        let copy = sub.duplicate();
        let ghost subs = self@.subs;
        let mut i: usize = 0;
        while i < self.subs.len()
            invariant
                i <= self.subs@.len(),
                *self == *old(self),
                forall|j: int| 0 <= j < i ==> (#[trigger] subs[j]).0 != packet.subuid,
            decreases self.subs@.len() - i,
        {
            assert(subs[i as int].0 == self.subs@[i as int].0);
            if self.subs[i].0 == packet.subuid {
                proof {
                    lemma_place_of_sub(subs, packet.subuid, i as int);
                }
                self.subs.set(i, (packet.subuid, sub));
                assert(self@.subs =~= subs.update(i as int, (packet.subuid, copy@)));
                return copy;
            }
            i += 1;
        }
        proof {
            lemma_place_of_sub(subs, packet.subuid, i as int);
        }
        self.subs.push((packet.subuid, sub));
        assert(self@.subs =~= subs.push((packet.subuid, copy@)));
        copy
    }

    /// Ends the subscriptions with the id of the request; the others stay, in their order.
    #[verifier::rlimit(50)]
    pub fn unsubscribe(&mut self, packet: Unsubscribe)
        ensures
            final(self)@ == after_unsubscribe(old(self)@, packet.subuid),
    {
        let ghost all = self@.subs;
        let ghost keep = other_sub(packet.subuid);
        let mut i: usize = 0;
        let ghost mut k: int = 0;
        assert(all.take(0).filter(keep) + all.skip(0) =~= all);
        while i < self.subs.len()
            invariant
                0 <= k <= all.len(),
                i == all.take(k).filter(keep).len(),
                self@.subs == all.take(k).filter(keep) + all.skip(k),
                keep == other_sub(packet.subuid),
                self.pub_ids == old(self).pub_ids,
                self.pubs == old(self).pubs,
                self.queued_updates == old(self).queued_updates,
                self.next_pub_id == old(self).next_pub_id,
            decreases all.len() - k,
        {
            let ghost kept = all.take(k).filter(keep);
            let ghost now = self@.subs;
            assert(now.len() == self.subs@.len());
            assert(k < all.len());
            assert(now[i as int] == all[k]);
            assert(now[i as int].0 == self.subs@[i as int].0);
            proof {
                assert(all.take(k + 1) =~= all.take(k).push(all[k]));
                all.take(k).lemma_filter_push(all[k], keep);
            }
            if self.subs[i].0 == packet.subuid {
                self.subs.remove(i);
                assert(self@.subs =~= now.remove(i as int));
                assert(now.remove(i as int) =~= kept + all.skip(k + 1));
            } else {
                assert(kept.push(all[k]) + all.skip(k + 1) =~= kept + all.skip(k));
                i += 1;
            }
            proof {
                k = k + 1;
            }
        }
        proof {
            assert(self@.subs.len() == self.subs@.len());
            assert(all.skip(k).len() == 0);
            assert(k == all.len());
            assert(all.take(k) =~= all);
            assert(all.filter(keep) + all.skip(k) =~= all.filter(keep));
        }
    }
}

/// The subscription that a request stands for: with the options of the request or, where it
/// has none, not immediate, not logging, with the default period.
pub open spec fn subscription_of(
    prefixes: Seq<Seq<char>>,
    options: Option<SubscriptionOptions>,
) -> SubscriptionModel {
    match options {
        Some(o) => SubscriptionModel {
            prefixes,
            immediate: o.immediate,
            periodic: o.periodic,
            logging: o.logging,
        },
        None => SubscriptionModel {
            prefixes,
            immediate: false,
            periodic: DEFAULT_PERIOD,
            logging: false,
        },
    }
}

/// The client after it subscribed: the subscription takes the place of the first one with
/// the same id, or goes behind the others where there is none.
pub open spec fn after_subscribe(c: ClientModel, subuid: u32, sub: SubscriptionModel) -> ClientModel {
    let i = place_of_sub(c.subs, subuid);
    ClientModel {
        subs: if i < c.subs.len() {
            c.subs.update(i, (subuid, sub))
        } else {
            c.subs.push((subuid, sub))
        },
        ..c
    }
}

/// The client after the subscriptions with the id ended.
pub open spec fn after_unsubscribe(c: ClientModel, subuid: u32) -> ClientModel {
    ClientModel { subs: c.subs.filter(other_sub(subuid)), ..c }
}

/// The test that a subscription has another id than `subuid`.
pub open spec fn other_sub(subuid: u32) -> spec_fn(SubRow) -> bool {
    |row: SubRow| row.0 != subuid
}

/// Where a subscription with the id `subuid` goes: to the place of the first subscription
/// with that id, or behind all where there is none.
pub open spec fn place_of_sub(subs: Seq<SubRow>, subuid: u32) -> int {
    if exists|i: int| 0 <= i < subs.len() && (#[trigger] subs[i]).0 == subuid {
        choose|i: int|
            0 <= i < subs.len() && (#[trigger] subs[i]).0 == subuid && forall|j: int|
                0 <= j < i ==> (#[trigger] subs[j]).0 != subuid
    } else {
        subs.len() as int
    }
}

/// The place of a subscription is where one finds the first with its id, or the end.
pub proof fn lemma_place_of_sub(subs: Seq<SubRow>, subuid: u32, i: int)
    requires
        0 <= i <= subs.len(),
        forall|j: int| 0 <= j < i ==> (#[trigger] subs[j]).0 != subuid,
        i < subs.len() ==> subs[i].0 == subuid,
    ensures
        place_of_sub(subs, subuid) == i,
{
    if i < subs.len() {
        let k = choose|k: int|
            0 <= k < subs.len() && (#[trigger] subs[k]).0 == subuid && forall|j: int|
                0 <= j < k ==> (#[trigger] subs[j]).0 != subuid;
        if k < i {
            assert(subs[k].0 != subuid);
        } else if i < k {
            assert(subs[i].0 != subuid);
        }
    }
}

/// Whether two texts are the same.
#[verifier::loop_isolation(false)]
pub fn str_equal(a: &str, b: &str) -> (r: bool)
    ensures
        r == (a@ == b@),
{
    let x = a.as_bytes();
    let y = b.as_bytes();
    proof {
        vstd::utf8::encode_utf8_decode_utf8(a@);
        vstd::utf8::encode_utf8_decode_utf8(b@);
    }
    if x.len() != y.len() {
        return false;
    }
    let n: usize = x.len();
    let mut i: usize = 0;
    while i < n
        invariant
            i <= n,
            n == x@.len(),
            n == y@.len(),
            forall|j: int| 0 <= j < i ==> x@[j] == y@[j],
        decreases n - i,
    {
        if x[i] != y[i] {
            return false;
        }
        i += 1;
    }
    assert(x@ =~= y@);
    true
}

} // verus!

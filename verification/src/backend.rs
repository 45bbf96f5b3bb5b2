//! The server of revision 4: its topics with their publishers, and how updates are cut into
//! frames.

use crate::bin::{BinaryModel, NTBinaryMessage, NTValue};
use crate::connected::str_equal;
use crate::text::DataType;
use crate::topic::{snapshot_of, Topic, TopicFlags, TopicModel, TopicSnapshot};
use vstd::prelude::*;

verus! {

/// Marks a handle as that of a client.
#[derive(Clone, Copy, Debug, PartialEq, Eq, Structural)]
pub struct Client;

/// Marks a handle as that of a server.
#[derive(Clone, Copy, Debug, PartialEq, Eq, Structural)]
pub struct Server;

/// The most updates that go into one frame.
pub const MAX_BATCHING_SIZE: usize = 5;

/// The period of a subscription that names none: the bit pattern of the double 0.1.
pub const DEFAULT_PERIOD: u64 = 0x3FB9_9999_9999_999A;

/// The models of a list of updates.
pub open spec fn updates_model(updates: Seq<NTBinaryMessage>) -> Seq<BinaryModel> {
    updates.map_values(|m: NTBinaryMessage| m@)
}

/// The models of a list of batches.
pub open spec fn batches_model(batches: Seq<Vec<NTBinaryMessage>>) -> Seq<Seq<BinaryModel>> {
    batches.map_values(|b: Vec<NTBinaryMessage>| updates_model(b@))
}

/// The views of a list of values.
pub open spec fn views<T: View>(s: Seq<T>) -> Seq<T::V> {
    s.map_values(|x: T| x@)
}

/// The views of a list of lists of values.
pub open spec fn nested_views<T: View>(s: Seq<Vec<T>>) -> Seq<Seq<T::V>> {
    s.map_values(|b: Vec<T>| views(b@))
}

/// A sequence cut into pieces of `n`, the last one shorter where the length is no multiple.
pub open spec fn chunks<T>(s: Seq<T>, n: nat) -> Seq<Seq<T>>
    decreases s.len(),
{
    if s.len() == 0 || n == 0 {
        Seq::empty()
    } else if s.len() <= n {
        seq![s]
    } else {
        seq![s.take(n as int)] + chunks(s.skip(n as int), n)
    }
}

/// Cuts a list into pieces of `size`, in order; only the last piece may be shorter.
#[verifier::rlimit(50)]
pub fn batch<T: View>(items: Vec<T>, size: usize) -> (out: Vec<Vec<T>>)
    requires
        size > 0,
    ensures
        nested_views(out@) == chunks(views(items@), size as nat),
{
    let ghost all = views(items@);
    let ghost n = size as nat;
    let mut out: Vec<Vec<T>> = Vec::new();
    let mut current: Vec<T> = Vec::new();
    assert(views(current@) + all.skip(0) =~= all);
    assert(nested_views(out@) + chunks(all, n) =~= chunks(all, n));
    for item in it: items
        invariant
            n == size,
            n > 0,
            views(it.seq()) == all,
            current@.len() < n,
            chunks(all, n) == nested_views(out@) + chunks(
                views(current@) + all.skip(it.index() as int),
                n,
            ),
    {
        let ghost k = it.index() as int;
        let ghost rest = all.skip(k + 1);
        let ghost part = views(current@);
        let ghost done = nested_views(out@);
        assert(part + all.skip(k) =~= part.push(all[k]) + rest);
        current.push(item);
        assert(views(current@) =~= part.push(all[k]));
        if current.len() == size {
            let ghost full = views(current@);
            proof {
                lemma_chunks_full(full, rest, n);
            }
            let mut piece: Vec<T> = Vec::new();
            core::mem::swap(&mut current, &mut piece);
            out.push(piece);
            assert(nested_views(out@) =~= done.push(full));
            assert(views(current@) + rest =~= rest);
            assert(done.push(full) + chunks(rest, n) =~= done + (seq![full] + chunks(rest, n)));
        }
    }
    let ghost part = views(current@);
    let ghost done = nested_views(out@);
    assert(part + all.skip(all.len() as int) =~= part);
    if current.len() > 0 {
        out.push(current);
        assert(nested_views(out@) =~= done.push(part));
        assert(done.push(part) =~= done + seq![part]);
    } else {
        assert(done + Seq::<Seq<T::V>>::empty() =~= done);
    }
    out
}

/// Cuts the updates into batches of `batch_size`, in order; only the last batch may be
/// shorter.
pub fn batch_messages(messages: Vec<NTBinaryMessage>, batch_size: usize) -> (out: Vec<
    Vec<NTBinaryMessage>,
>)
    requires
        batch_size > 0,
    ensures
        batches_model(out@) == chunks(updates_model(messages@), batch_size as nat),
{
    assert(updates_model(messages@) =~= views(messages@));
    let out = batch(messages, batch_size);
    assert(batches_model(out@) =~= nested_views(out@)) by {
        assert forall|i: int| 0 <= i < out@.len() implies batches_model(out@)[i] == nested_views(
            out@,
        )[i] by {
            assert(updates_model(out@[i]@) =~= views(out@[i]@));
        }
    }
    out
}

/// A full piece in front of a sequence is the first of its chunks.
pub proof fn lemma_chunks_full<T>(full: Seq<T>, rest: Seq<T>, n: nat)
    requires
        n > 0,
        full.len() == n,
    ensures
        chunks(full + rest, n) == seq![full] + chunks(rest, n),
{
    let s = full + rest;
    if rest.len() == 0 {
        assert(s =~= full);
        assert(seq![full] + chunks(rest, n) =~= seq![full]);
    } else {
        assert(s.take(n as int) =~= full);
        assert(s.skip(n as int) =~= rest);
    }
}

/// The topics of a server, each with the number of its publishers, oldest first.
pub struct TopicTable {
    topics: Vec<(Topic, usize)>,
}

/// What the topics of a server are, as mathematics.
pub type TopicsModel = Seq<(TopicModel, nat)>;

/// The models of a list of topics with their publishers.
pub open spec fn topics_model(topics: Seq<(Topic, usize)>) -> TopicsModel {
    topics.map_values(|row: (Topic, usize)| (row.0@, row.1 as nat))
}

/// Some topic has the name.
pub open spec fn has_topic(m: TopicsModel, name: Seq<char>) -> bool {
    exists|i: int| 0 <= i < m.len() && (#[trigger] m[i]).0.name == name
}

/// Where the topic with the name stands.
pub open spec fn index_of_topic(m: TopicsModel, name: Seq<char>) -> int {
    choose|i: int| 0 <= i < m.len() && (#[trigger] m[i]).0.name == name
}

/// No two topics share a name, and every topic has a publisher.
pub open spec fn topics_wf(m: TopicsModel) -> bool {
    &&& forall|i: int, j: int|
        0 <= i < j < m.len() ==> (#[trigger] m[i]).0.name != (#[trigger] m[j]).0.name
    &&& forall|i: int| 0 <= i < m.len() ==> (#[trigger] m[i]).1 > 0
}

/// A topic that was never written.
pub open spec fn fresh_topic(name: Seq<char>, ty: DataType) -> TopicModel {
    TopicModel {
        name,
        value: crate::bin::NTValueModel::default_of(ty),
        timestamp: 0,
        flags: TopicFlags { persistent: false },
    }
}

/// What a request to publish did.
#[derive(Clone, Copy, Debug, PartialEq, Eq, Structural)]
pub enum Published {
    /// The topic is new, or is new under its name with another kind: it is to be announced.
    Created,
    /// The topic existed with this kind and has one publisher more.
    Joined,
    /// The topic existed with this kind and cannot count one publisher more.
    Refused,
}

/// The topics after a request to publish `name` with the kind `ty`.
pub open spec fn published(m: TopicsModel, name: Seq<char>, ty: DataType) -> TopicsModel {
    if has_topic(m, name) {
        let i = index_of_topic(m, name);
        if m[i].0.value.data_type() == ty {
            if m[i].1 < usize::MAX {
                m.update(i, (m[i].0, m[i].1 + 1))
            } else {
                m
            }
        } else {
            m.update(i, (fresh_topic(name, ty), 1))
        }
    } else {
        m.push((fresh_topic(name, ty), 1))
    }
}

/// What a request to publish `name` with the kind `ty` does.
pub open spec fn publish_outcome(m: TopicsModel, name: Seq<char>, ty: DataType) -> Published {
    if has_topic(m, name) && m[index_of_topic(m, name)].0.value.data_type() == ty {
        if m[index_of_topic(m, name)].1 < usize::MAX {
            Published::Joined
        } else {
            Published::Refused
        }
    } else {
        Published::Created
    }
}

/// The topics after a publisher of `name` has gone: the topic has one publisher fewer, and is
/// gone with its last one.
pub open spec fn released(m: TopicsModel, name: Seq<char>) -> TopicsModel {
    if has_topic(m, name) {
        let i = index_of_topic(m, name);
        if m[i].1 > 1 {
            m.update(i, (m[i].0, (m[i].1 - 1) as nat))
        } else {
            m.remove(i)
        }
    } else {
        m
    }
}

impl TopicTable {
    pub closed spec fn view(&self) -> TopicsModel {
        topics_model(self.topics@)
    }

    /// The invariant of the topics.
    pub open spec fn wf(&self) -> bool {
        topics_wf(self@)
    }

    /// A table without topics.
    pub fn new() -> (s: TopicTable)
        ensures
            s.wf(),
            s@ == Seq::<(TopicModel, nat)>::empty(),
    {
        let s = TopicTable { topics: Vec::new() };
        assert(s@ =~= Seq::<(TopicModel, nat)>::empty());
        s
    }

    fn position_of(&self, name: &str) -> (r: Option<usize>)
        requires
            self.wf(),
        ensures
            match r {
                Some(i) => i < self@.len() && has_topic(self@, name@) && index_of_topic(
                    self@,
                    name@,
                ) == i,
                None => !has_topic(self@, name@),
            },
    {
        let mut i: usize = 0;
        while i < self.topics.len()
            invariant
                i <= self.topics@.len(),
                self.wf(),
                forall|j: int| 0 <= j < i ==> (#[trigger] self@[j]).0.name != name@,
            decreases self.topics@.len() - i,
        {
            if str_equal(self.topics[i].0.name.as_str(), name) {
                proof {
                    let m = self@;
                    assert(m[i as int].0.name == name@);
                    let k = index_of_topic(m, name@);
                    if k < i {
                        assert(m[k].0.name != m[i as int].0.name);
                    } else if i < k {
                        assert(m[i as int].0.name != m[k].0.name);
                    }
                }
                return Some(i);
            }
            i += 1;
        }
        None
    }

    /// A copy of the topic with the key `name`.
    pub fn topic(&self, name: &str) -> (r: Option<Topic>)
        requires
            self.wf(),
        ensures
            match r {
                Some(t) => has_topic(self@, name@) && t@ == self@[index_of_topic(self@, name@)].0,
                None => !has_topic(self@, name@),
            },
    {
        match self.position_of(name) {
            Some(i) => {
                Some(self.topics[i].0.duplicate())
            },
            None => None,
        }
    }

    /// A publisher asks for the topic `name` with the kind `_type`.
    ///
    /// A topic of that name and kind has one publisher more. Any other name is a new topic
    /// with one publisher, never written; it takes the place of a topic of the same name and
    /// another kind.
    pub fn create_topic(&mut self, name: String, _type: DataType) -> (outcome: Published)
        requires
            old(self).wf(),
        ensures
            final(self).wf(),
            final(self)@ == published(old(self)@, name@, _type),
            outcome == publish_outcome(old(self)@, name@, _type),
    {
        let ghost before = self@;
        match self.position_of(name.as_str()) {
            Some(i) => {
                if self.topics[i].0.entry_type() == _type {
                    if self.topics[i].1 < usize::MAX {
                        self.topics[i].1 = self.topics[i].1 + 1;
                        assert(self@ =~= published(before, name@, _type));
                        Published::Joined
                    } else {
                        Published::Refused
                    }
                } else {
                    self.topics[i].0 = Topic::new(name, _type);
                    self.topics[i].1 = 1;
                    assert(self@ =~= published(before, name@, _type));
                    Published::Created
                }
            },
            None => {
                self.topics.push((Topic::new(name, _type), 1));
                assert(self@ =~= published(before, name@, _type));
                Published::Created
            },
        }
    }

    /// A publisher of the topic `name` has gone. Returns the topic if that was its last
    /// publisher: it is gone and is to be unannounced.
    pub fn on_release(&mut self, name: &str) -> (gone: Option<Topic>)
        requires
            old(self).wf(),
        ensures
            final(self).wf(),
            final(self)@ == released(old(self)@, name@),
            match gone {
                Some(t) => has_topic(old(self)@, name@) && old(self)@[index_of_topic(
                    old(self)@,
                    name@,
                )].1 == 1 && t@ == old(self)@[index_of_topic(old(self)@, name@)].0,
                None => !has_topic(old(self)@, name@) || old(self)@[index_of_topic(
                    old(self)@,
                    name@,
                )].1 > 1,
            },
    {
        let ghost before = self@;
        match self.position_of(name) {
            Some(i) => {
                if self.topics[i].1 > 1 {
                    self.topics[i].1 = self.topics[i].1 - 1;
                    assert(self@ =~= released(before, name@));
                    None
                } else {
                    let row = self.topics.remove(i);
                    assert(self@ =~= before.remove(i as int));
                    Some(row.0)
                }
            },
            None => None,
        }
    }

    /// Takes a value for the topic `name` that was published at `timestamp`: the topic
    /// takes it if the value is of its kind and not older than what it holds. Returns what
    /// the topic holds afterwards if it took the value.
    pub fn update_value(&mut self, name: &str, value: NTValue, timestamp: u64) -> (r: Option<
        TopicSnapshot,
    >)
        requires
            old(self).wf(),
        ensures
            final(self).wf(),
            match r {
                Some(s) => {
                    let i = index_of_topic(old(self)@, name@);
                    let held = old(self)@[i];
                    &&& has_topic(old(self)@, name@)
                    &&& held.0.timestamp <= timestamp
                    &&& value@.data_type() == held.0.value.data_type()
                    &&& final(self)@ == old(self)@.update(
                        i,
                        (TopicModel { value: value@, timestamp, ..held.0 }, held.1),
                    )
                    &&& s@ == (TopicModel {
                        value: value@,
                        timestamp,
                        flags: TopicFlags { persistent: false },
                        ..held.0
                    })
                },
                None => {
                    &&& final(self)@ == old(self)@
                    &&& !has_topic(old(self)@, name@) || {
                        let held = old(self)@[index_of_topic(old(self)@, name@)];
                        !(held.0.timestamp <= timestamp && value@.data_type()
                            == held.0.value.data_type())
                    }
                },
            },
    {
        let ghost before = self@;
        match self.position_of(name) {
            Some(i) => {
                let r = self.topics[i].0.update_value(value, timestamp);
                proof {
                    if r is Some {
                        assert(self@ =~= before.update(
                            i as int,
                            (
                                TopicModel { value: value@, timestamp, ..before[i as int].0 },
                                before[i as int].1,
                            ),
                        ));
                    } else {
                        assert(self@ =~= before);
                    }
                }
                r
            },
            None => None,
        }
    }

    /// Gives the topic `name` the flags `flags`. Returns a copy of the topic, which is to be
    /// announced again, if there is such a topic.
    pub fn update_topic_flags(&mut self, name: &str, flags: TopicFlags) -> (r: Option<Topic>)
        requires
            old(self).wf(),
        ensures
            final(self).wf(),
            match r {
                Some(t) => {
                    let i = index_of_topic(old(self)@, name@);
                    &&& has_topic(old(self)@, name@)
                    &&& final(self)@ == old(self)@.update(
                        i,
                        (TopicModel { flags, ..old(self)@[i].0 }, old(self)@[i].1),
                    )
                    &&& t@ == (TopicModel { flags, ..old(self)@[i].0 })
                },
                None => !has_topic(old(self)@, name@) && final(self)@ == old(self)@,
            },
    {
        let ghost before = self@;
        match self.position_of(name) {
            Some(i) => {
                self.topics[i].0.flags = flags;
                assert(self@ =~= before.update(
                    i as int,
                    (TopicModel { flags, ..before[i as int].0 }, before[i as int].1),
                ));
                Some(self.topics[i].0.duplicate())
            },
            None => None,
        }
    }
}

/// The topics of a list of rows.
pub open spec fn only_topics(m: TopicsModel) -> Seq<TopicModel> {
    m.map_values(|row: (TopicModel, nat)| row.0)
}

impl TopicTable {
    /// A copy of the topics, oldest first.
    pub fn snapshot(&self) -> (out: Vec<Topic>)
        ensures
            views(out@) == only_topics(self@),
    {
        let mut out: Vec<Topic> = Vec::new();
        let mut i: usize = 0;
        while i < self.topics.len()
            invariant
                i <= self.topics@.len(),
                views(out@) == only_topics(self@).take(i as int),
            decreases self.topics@.len() - i,
        {
            let ghost before = views(out@);
            out.push(self.topics[i].0.duplicate());
            i += 1;
            assert(views(out@) =~= before.push(self@[i - 1].0));
            assert(only_topics(self@).take(i as int) =~= only_topics(self@).take(i - 1).push(
                self@[i - 1].0,
            ));
        }
        assert(only_topics(self@).take(i as int) =~= only_topics(self@));
        out
    }

    /// Takes a value for the topic `name` that a publisher sent: the topic takes it if it
    /// is not older than what the topic holds, whatever its kind. Returns what the topic
    /// holds afterwards if it took the value.
    pub fn take_value(&mut self, name: &str, value: NTValue, timestamp: u64) -> (r: Option<
        TopicSnapshot,
    >)
        requires
            old(self).wf(),
        ensures
            final(self).wf(),
            final(self)@ == taken(old(self)@, name@, value@, timestamp),
            match r {
                Some(s) => takes(old(self)@, name@, timestamp) && s@ == snapshot_of(
                    final(self)@[index_of_topic(old(self)@, name@)].0,
                ),
                None => !takes(old(self)@, name@, timestamp),
            },
    {
        let ghost before = self@;
        match self.position_of(name) {
            Some(i) => {
                if self.topics[i].0.timestamp <= timestamp {
                    self.topics[i].0.set_value(value, timestamp);
                    assert(self@ =~= taken(before, name@, value@, timestamp));
                    Some(self.topics[i].0.snapshot())
                } else {
                    None
                }
            },
            None => None,
        }
    }
}

/// The topic `name` takes a value of the time `timestamp`: it exists and holds nothing newer.
pub open spec fn takes(m: TopicsModel, name: Seq<char>, timestamp: u64) -> bool {
    has_topic(m, name) && m[index_of_topic(m, name)].0.timestamp <= timestamp
}

/// The topics after a publisher sent a value for `name`.
pub open spec fn taken(
    m: TopicsModel,
    name: Seq<char>,
    value: crate::bin::NTValueModel,
    timestamp: u64,
) -> TopicsModel {
    if takes(m, name, timestamp) {
        let i = index_of_topic(m, name);
        m.update(i, (TopicModel { value, timestamp, ..m[i].0 }, m[i].1))
    } else {
        m
    }
}

} // verus!

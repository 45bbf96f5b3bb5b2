//! Topics: the named values of revision 4, each with the time of its last change.

use crate::bin::{NTValue, NTValueModel};
use crate::text::DataType;
use crate::wire::texts;
use vstd::prelude::*;

verus! {

/// The flags of a topic.
#[derive(Clone, Copy, Debug, PartialEq, Eq, Structural)]
pub struct TopicFlags {
    pub persistent: bool,
}

/// The text `persistent`, as characters.
pub open spec fn persistent_name() -> Seq<char> {
    seq!['p', 'e', 'r', 's', 'i', 's', 't', 'e', 'n', 't']
}

fn persistent_text() -> (s: String)
    ensures
        s@ == persistent_name(),
{
    proof {
        reveal_strlit("persistent");
    }
    let s = String::from_str("persistent");
    assert(s@ =~= persistent_name());
    s
}

fn names_persistent(names: &Vec<String>) -> (b: bool)
    ensures
        b == texts(names@).contains(persistent_name()),
{
    let wanted = persistent_text();
    let mut i: usize = 0;
    while i < names.len()
        invariant
            i <= names@.len(),
            wanted@ == persistent_name(),
            forall|j: int| 0 <= j < i ==> (#[trigger] texts(names@)[j]) != persistent_name(),
        decreases names@.len() - i,
    {
        if names[i] == wanted {
            assert(texts(names@)[i as int] == persistent_name());
            return true;
        }
        i += 1;
    }
    false
}

impl TopicFlags {
    /// No flag is set.
    pub fn default() -> (f: TopicFlags)
        ensures
            !f.persistent,
    {
        TopicFlags { persistent: false }
    }

    /// The flags that a list of flag names stands for: persistent exactly where the list
    /// holds `persistent`.
    pub fn from_names(names: &Vec<String>) -> (f: TopicFlags)
        ensures
            f.persistent == texts(names@).contains(persistent_name()),
    {
        TopicFlags { persistent: names_persistent(names) }
    }

    /// The names of the flags that are set.
    pub fn names(&self) -> (out: Vec<String>)
        ensures
            texts(out@) == if self.persistent {
                seq![persistent_name()]
            } else {
                Seq::<Seq<char>>::empty()
            },
    {
        let mut out: Vec<String> = Vec::new();
        if self.persistent {
            out.push(persistent_text());
            assert(texts(out@) =~= seq![persistent_name()]);
        } else {
            assert(texts(out@) =~= Seq::<Seq<char>>::empty());
        }
        out
    }

    /// The flags after a request to add some and to remove some: a flag that is not set is
    /// set if it is to be added; then a flag that is set is cleared if it is to be removed.
    pub fn apply(&mut self, add: &Vec<String>, remove: &Vec<String>)
        ensures
            final(self).persistent == ((old(self).persistent || texts(add@).contains(
                persistent_name(),
            )) && !texts(remove@).contains(persistent_name())),
    {
        if !self.persistent && names_persistent(add) {
            self.persistent = true;
        }
        if self.persistent && names_persistent(remove) {
            self.persistent = false;
        }
    }
}

/// What a topic held at some time.
#[derive(Clone, Debug, PartialEq, Eq)]
pub struct TopicSnapshot {
    pub name: String,
    pub value: NTValue,
    pub timestamp: u64,
}

/// A topic: its name, its value, the time of its last change in microseconds, its flags.
#[derive(Clone, Debug, PartialEq, Eq)]
pub struct Topic {
    pub name: String,
    pub value: NTValue,
    pub timestamp: u64,
    pub flags: TopicFlags,
}

/// What a topic is, as mathematics.
pub struct TopicModel {
    pub name: Seq<char>,
    pub value: NTValueModel,
    pub timestamp: u64,
    pub flags: TopicFlags,
}

impl View for Topic {
    type V = TopicModel;

    open spec fn view(&self) -> TopicModel {
        TopicModel {
            name: self.name@,
            value: self.value@,
            timestamp: self.timestamp,
            flags: self.flags,
        }
    }
}

impl View for TopicSnapshot {
    type V = TopicModel;

    open spec fn view(&self) -> TopicModel {
        TopicModel {
            name: self.name@,
            value: self.value@,
            timestamp: self.timestamp,
            flags: TopicFlags { persistent: false },
        }
    }
}

/// What a topic held at some time, as mathematics: the topic without its flags.
pub open spec fn snapshot_of(t: TopicModel) -> TopicModel {
    TopicModel { flags: TopicFlags { persistent: false }, ..t }
}

impl TopicSnapshot {
    /// A copy of the snapshot.
    pub fn duplicate(&self) -> (s: TopicSnapshot)
        ensures
            s@ == self@,
    {
        TopicSnapshot {
            name: self.name.clone(),
            value: self.value.duplicate(),
            timestamp: self.timestamp,
        }
    }
}

impl Topic {
    /// A copy of the topic.
    pub fn duplicate(&self) -> (t: Topic)
        ensures
            t@ == self@,
    {
        Topic {
            name: self.name.clone(),
            value: self.value.duplicate(),
            timestamp: self.timestamp,
            flags: self.flags,
        }
    }

    /// A topic of the kind `_type` that was never written: it holds the kind's default
    /// value, at time 0, without flags.
    pub fn new(name: String, _type: DataType) -> (t: Topic)
        ensures
            t@ == (TopicModel {
                name: name@,
                value: NTValueModel::default_of(_type),
                timestamp: 0,
                flags: TopicFlags { persistent: false },
            }),
    {
        Topic { name, value: _type.default_value(), timestamp: 0, flags: TopicFlags::default() }
    }

    /// Gives the topic a value and the time of the change.
    pub fn set_value(&mut self, value: NTValue, timestamp: u64)
        ensures
            final(self)@ == (TopicModel { value: value@, timestamp, ..old(self)@ }),
    {
        self.value = value;
        self.timestamp = timestamp;
    }

    /// What the topic holds now.
    pub fn snapshot(&self) -> (s: TopicSnapshot)
        ensures
            s@ == snapshot_of(self@),
    {
        TopicSnapshot {
            name: self.name.clone(),
            value: self.value.duplicate(),
            timestamp: self.timestamp,
        }
    }

    /// The kind of the topic's value.
    pub fn entry_type(&self) -> (t: DataType)
        ensures
            t == self@.value.data_type(),
    {
        self.value.data_type()
    }

    /// Takes a value that was published at `timestamp`: the topic takes it if the value is
    /// of the topic's kind and not older than what the topic holds. Returns what the topic
    /// holds afterwards if it took the value.
    pub fn update_value(&mut self, value: NTValue, timestamp: u64) -> (r: Option<TopicSnapshot>)
        ensures
            match r {
                Some(s) => {
                    &&& old(self)@.timestamp <= timestamp
                    &&& value@.data_type() == old(self)@.value.data_type()
                    &&& final(self)@ == (TopicModel { value: value@, timestamp, ..old(self)@ })
                    &&& s@ == (TopicModel {
                        flags: TopicFlags { persistent: false },
                        ..final(self)@
                    })
                },
                None => {
                    &&& !(old(self)@.timestamp <= timestamp && value@.data_type()
                        == old(self)@.value.data_type())
                    &&& final(self)@ == old(self)@
                },
            },
    {
        if self.timestamp <= timestamp && value.data_type() == self.entry_type() {
            self.set_value(value, timestamp);
            Some(self.snapshot())
        } else {
            None
        }
    }
}

} // verus!

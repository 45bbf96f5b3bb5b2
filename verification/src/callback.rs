//! Local observers: who is told of what, and in which order.
//!
//! The registry holds handles, not functions. A handle is the number that a callback got when it
//! was registered; whoever runs the callbacks keeps them under their handles.

use multimap::MultiMap;
use std::collections::hash_map::RandomState;
use vstd::prelude::*;

verus! {

/// The events on entries that an observer can ask for.
#[derive(Clone, Copy, Debug, PartialEq, Eq, Hash, Structural)]
pub enum CallbackType {
    Add,
    Delete,
    Update,
}

/// The events on connections that an observer can ask for.
#[derive(Clone, Copy, Debug, PartialEq, Eq, Hash, Structural)]
pub enum ConnectionCallbackType {
    ClientConnected,
    ClientDisconnected,
}

impl CallbackType {
    /// The key under which callbacks of this kind are kept.
    pub open spec fn code(self) -> u8 {
        match self {
            CallbackType::Add => 0,
            CallbackType::Delete => 1,
            CallbackType::Update => 2,
        }
    }

    pub fn to_code(self) -> (c: u8)
        ensures
            c == self.code(),
    {
        match self {
            CallbackType::Add => 0,
            CallbackType::Delete => 1,
            CallbackType::Update => 2,
        }
    }
}

impl ConnectionCallbackType {
    /// The key under which callbacks of this kind are kept.
    pub open spec fn code(self) -> u8 {
        match self {
            ConnectionCallbackType::ClientConnected => 3,
            ConnectionCallbackType::ClientDisconnected => 4,
        }
    }

    pub fn to_code(self) -> (c: u8)
        ensures
            c == self.code(),
    {
        match self {
            ConnectionCallbackType::ClientConnected => 3,
            ConnectionCallbackType::ClientDisconnected => 4,
        }
    }
}

#[verifier::external_type_specification]
#[verifier::external_body]
#[verifier::reject_recursive_types(K)]
#[verifier::reject_recursive_types(V)]
#[verifier::reject_recursive_types(S)]
pub struct ExMultiMap<K, V, S>(MultiMap<K, V, S>);

/// The multimap that the registry keeps: handles under the codes of the kinds.
pub type HandleMap = MultiMap<u8, usize, RandomState>;

/// What a multimap of handles holds: for each key that has any, its handles in the order in
/// which they were inserted.
pub uninterp spec fn handles_by_key(m: HandleMap) -> Map<u8, Seq<usize>>;

/// No handles under any key.
pub open spec fn no_handles() -> Map<u8, Seq<usize>> {
    Map::empty()
}

/// The handles under `key`, none where the key is absent.
pub open spec fn handles_under(contents: Map<u8, Seq<usize>>, key: u8) -> Seq<usize> {
    if contents.dom().contains(key) {
        contents[key]
    } else {
        Seq::empty()
    }
}

/// `MultiMap::new`: a multimap without keys.
#[verifier::external_body]
fn multimap_new() -> (m: HandleMap)
    ensures
        handles_by_key(m) == no_handles(),
{
    MultiMap::new()
}

/// `MultiMap::insert`: the value goes to the end of the key's vector, which is created where the
/// key was absent.
#[verifier::external_body]
fn multimap_insert(m: &mut HandleMap, key: u8, handle: usize)
    ensures
        handles_by_key(*final(m)) == handles_by_key(*old(m)).insert(
            key,
            handles_under(handles_by_key(*old(m)), key).push(handle),
        ),
{
    m.insert(key, handle)
}

/// `MultiMap::get_vec`: the key's vector, none where the key is absent.
#[verifier::external_body]
fn multimap_get_vec(m: &HandleMap, key: u8) -> (r: Option<&Vec<usize>>)
    ensures
        match r {
            Some(v) => handles_by_key(*m).dom().contains(key) && v@ == handles_by_key(*m)[key],
            None => !handles_by_key(*m).dom().contains(key),
        },
{
    m.get_vec(&key)
}

/// The callbacks that were registered, by kind, each kind in the order of registration.
pub struct CallbackRegistry {
    by_kind: HandleMap,
    count: usize,
}

impl CallbackRegistry {
    /// The handles registered under the key `code`, oldest first.
    pub closed spec fn registered(&self, code: u8) -> Seq<usize> {
        handles_under(handles_by_key(self.by_kind), code)
    }

    /// How many callbacks were registered; the next handle.
    pub closed spec fn count(&self) -> usize {
        self.count
    }

    /// A registry without callbacks.
    pub fn new() -> (r: CallbackRegistry)
        ensures
            r.count() == 0,
            forall|code: u8| r.registered(code) == Seq::<usize>::empty(),
    {
        CallbackRegistry { by_kind: multimap_new(), count: 0 }
    }

    /// What a registration under `code` does: the callback gets the next handle and goes behind
    /// the others of its kind, and no other kind changes; where the handles have run out,
    /// nothing changes.
    pub open spec fn registration(
        before: CallbackRegistry,
        after: CallbackRegistry,
        code: u8,
        handle: Option<usize>,
    ) -> bool {
        match handle {
            Some(h) => {
                &&& h == before.count()
                &&& after.count() == h + 1
                &&& after.registered(code) == before.registered(code).push(h)
                &&& forall|other: u8|
                    other != code ==> after.registered(other) == before.registered(other)
            },
            None => {
                &&& before.count() == usize::MAX
                &&& after.count() == before.count()
                &&& forall|other: u8| after.registered(other) == before.registered(other)
            },
        }
    }

    fn register(&mut self, code: u8) -> (handle: Option<usize>)
        ensures
            Self::registration(*old(self), *final(self), code, handle),
    {
        if self.count == usize::MAX {
            return None;
        }
        let handle = self.count;
        multimap_insert(&mut self.by_kind, code, handle);
        self.count = handle + 1;
        Some(handle)
    }

    fn lookup(&self, code: u8) -> (handles: Vec<usize>)
        ensures
            handles@ == self.registered(code),
    {
        match multimap_get_vec(&self.by_kind, code) {
            Some(v) => vstd::slice::slice_to_vec(v.as_slice()),
            None => Vec::new(),
        }
    }

    /// Registers one more callback for entry events of the kind `kind` and returns its handle:
    /// the number of callbacks registered before it. Registration is additive; the only failure
    /// is that the handles have run out.
    pub fn add_callback(&mut self, kind: CallbackType) -> (handle: Option<usize>)
        ensures
            Self::registration(*old(self), *final(self), kind.code(), handle),
    {
        self.register(kind.to_code())
    }

    /// Registers one more callback for connection events of the kind `kind`.
    pub fn add_connection_callback(&mut self, kind: ConnectionCallbackType) -> (handle: Option<
        usize,
    >)
        ensures
            Self::registration(*old(self), *final(self), kind.code(), handle),
    {
        self.register(kind.to_code())
    }

    /// The callbacks to run for an entry event of the kind `kind`, in the order to run them.
    pub fn callbacks(&self, kind: CallbackType) -> (handles: Vec<usize>)
        ensures
            handles@ == self.registered(kind.code()),
    {
        self.lookup(kind.to_code())
    }

    /// The callbacks to run for a connection event of the kind `kind`, in the order to run them.
    pub fn connection_callbacks(&self, kind: ConnectionCallbackType) -> (handles: Vec<usize>)
        ensures
            handles@ == self.registered(kind.code()),
    {
        self.lookup(kind.to_code())
    }
}

} // verus!

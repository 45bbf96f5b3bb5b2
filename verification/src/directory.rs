//! The entry directory: the entries that a peer knows, by id and by name, in the order in which
//! they came.

use crate::entry::{is_newer, is_persistent, persistent, seq_newer, EntryData, EntryModel};
use crate::packets::{CLEAR_ALL_MAGIC, UNASSIGNED_ID};
use crate::types::{EntryType, EntryValue, ValueModel};
use vstd::prelude::*;
use vstd::set_lib::{lemma_int_range, lemma_len_subset, set_int_range};

verus! {

/// One row of the directory.
pub struct Slot {
    pub id: u16,
    pub data: EntryData,
}

/// The entries of a peer, oldest first, and the counter from which a server takes new ids.
pub struct Directory {
    slots: Vec<Slot>,
    next_id: u16,
}

/// What a directory is, as mathematics: its rows, oldest first.
pub type DirectoryModel = Seq<(u16, EntryModel)>;

impl View for Slot {
    type V = (u16, EntryModel);

    open spec fn view(&self) -> (u16, EntryModel) {
        (self.id, self.data@)
    }
}

/// The models of a sequence of rows.
pub open spec fn rows(slots: Seq<Slot>) -> DirectoryModel {
    slots.map_values(|slot: Slot| slot@)
}

/// Some row has the id `id`.
pub open spec fn has_id(m: DirectoryModel, id: u16) -> bool {
    exists|i: int| 0 <= i < m.len() && (#[trigger] m[i]).0 == id
}

/// Some row has the name `name`.
pub open spec fn has_name(m: DirectoryModel, name: Seq<char>) -> bool {
    exists|i: int| 0 <= i < m.len() && (#[trigger] m[i]).1.name == name
}

/// Where the row with the id `id` stands.
pub open spec fn index_of_id(m: DirectoryModel, id: u16) -> int {
    choose|i: int| 0 <= i < m.len() && (#[trigger] m[i]).0 == id
}

/// Where the row with the name `name` stands.
pub open spec fn index_of_name(m: DirectoryModel, name: Seq<char>) -> int {
    choose|i: int| 0 <= i < m.len() && (#[trigger] m[i]).1.name == name
}

/// The entry with the id `id`.
pub open spec fn entry_of(m: DirectoryModel, id: u16) -> EntryModel {
    m[index_of_id(m, id)].1
}

/// No two rows share an id, no two rows share a name, and the id that asks for an assignment
/// is the id of no row.
pub open spec fn model_wf(m: DirectoryModel) -> bool {
    &&& forall|i: int, j: int|
        0 <= i < j < m.len() ==> (#[trigger] m[i]).0 != (#[trigger] m[j]).0
    &&& forall|i: int, j: int|
        0 <= i < j < m.len() ==> (#[trigger] m[i]).1.name != (#[trigger] m[j]).1.name
    &&& forall|i: int| 0 <= i < m.len() ==> (#[trigger] m[i]).0 != UNASSIGNED_ID
}

/// An update with this sequence number, for this type, carrying `value`, is taken by the entry
/// `e`: the types are all the same and the number is strictly newer.
pub open spec fn accepts(e: EntryModel, seqnum: u16, ty: EntryType, value: ValueModel) -> bool {
    e.value.entry_type() == ty && value.entry_type() == ty && seq_newer(seqnum, e.seqnum)
}

/// The update is taken by the row with the id `id`.
pub open spec fn update_accepted(
    m: DirectoryModel,
    id: u16,
    seqnum: u16,
    ty: EntryType,
    value: ValueModel,
) -> bool {
    exists|i: int|
        0 <= i < m.len() && (#[trigger] m[i]).0 == id && accepts(m[i].1, seqnum, ty, value)
}

/// The directory after an update: the row with the id `id` has the new value and sequence
/// number if it takes the update; nothing else changes.
pub open spec fn updated(
    m: DirectoryModel,
    id: u16,
    seqnum: u16,
    ty: EntryType,
    value: ValueModel,
) -> DirectoryModel {
    m.map_values(
        |row: (u16, EntryModel)|
            if row.0 == id && accepts(row.1, seqnum, ty, value) {
                (row.0, EntryModel { value, seqnum, ..row.1 })
            } else {
                row
            },
    )
}

/// The directory after a flags update: the row with the id `id` has the new flags.
pub open spec fn with_flags(m: DirectoryModel, id: u16, flags: u8) -> DirectoryModel {
    m.map_values(
        |row: (u16, EntryModel)|
            if row.0 == id {
                (row.0, EntryModel { flags, ..row.1 })
            } else {
                row
            },
    )
}

/// The test that a row has another id than `id`.
pub open spec fn other_than(id: u16) -> spec_fn((u16, EntryModel)) -> bool {
    |row: (u16, EntryModel)| row.0 != id
}

/// The test that a row is persistent.
pub open spec fn persistent_row() -> spec_fn((u16, EntryModel)) -> bool {
    |row: (u16, EntryModel)| persistent(row.1.flags)
}

/// The directory without the row with the id `id`.
pub open spec fn without(m: DirectoryModel, id: u16) -> DirectoryModel {
    m.filter(other_than(id))
}

/// The directory after a clear directive: with the magic number only the persistent rows are
/// left, with any other number everything is.
pub open spec fn cleared(m: DirectoryModel, magic: u32) -> DirectoryModel {
    if magic == CLEAR_ALL_MAGIC {
        m.filter(persistent_row())
    } else {
        m
    }
}

/// What became of an assignment.
#[derive(Clone, Copy, Debug, PartialEq, Eq, Structural)]
pub enum Assigned {
    /// The directory is unchanged: the id asks for an assignment, or the name is known and its
    /// entry does not take the value.
    Ignored,
    /// The name was unknown; the entry is now in the directory under the given id.
    Added,
    /// The name was known; its entry took the value and the sequence number.
    Updated,
}

/// What became of an insertion.
#[derive(Clone, Copy, Debug, PartialEq, Eq, Structural)]
pub enum Inserted {
    /// The entry is new and has this id.
    Created(u16),
    /// The name was taken; this is the id of its entry.
    Existing(u16),
    /// Every id is in use.
    Full,
}

/// The entry that an assignment describes.
pub open spec fn assigned_entry(name: Seq<char>, seqnum: u16, flags: u8, value: ValueModel) -> EntryModel {
    EntryModel { name, flags, value, seqnum }
}

/// The directory after an assignment.
///
/// An assignment with the id that asks for one changes nothing. For a known name it is an
/// update of that name's entry. For an unknown name the entry goes under the given id: in the
/// place of the entry that had the id, or else at the end.
pub open spec fn assigned(
    m: DirectoryModel,
    name: Seq<char>,
    ty: EntryType,
    id: u16,
    seqnum: u16,
    flags: u8,
    value: ValueModel,
) -> DirectoryModel {
    if id == UNASSIGNED_ID {
        m
    } else if has_name(m, name) {
        m.map_values(
            |row: (u16, EntryModel)|
                if row.1.name == name && accepts(row.1, seqnum, ty, value) {
                    (row.0, EntryModel { value, seqnum, ..row.1 })
                } else {
                    row
                },
        )
    } else if has_id(m, id) {
        m.map_values(
            |row: (u16, EntryModel)|
                if row.0 == id {
                    (id, assigned_entry(name, seqnum, flags, value))
                } else {
                    row
                },
        )
    } else {
        m.push((id, assigned_entry(name, seqnum, flags, value)))
    }
}

/// What becomes of an assignment.
pub open spec fn assignment_outcome(
    m: DirectoryModel,
    name: Seq<char>,
    ty: EntryType,
    id: u16,
    seqnum: u16,
    value: ValueModel,
) -> Assigned {
    if id == UNASSIGNED_ID {
        Assigned::Ignored
    } else if has_name(m, name) {
        if accepts(m[index_of_name(m, name)].1, seqnum, ty, value) {
            Assigned::Updated
        } else {
            Assigned::Ignored
        }
    } else {
        Assigned::Added
    }
}

/// The id `k` steps after `start`, going round after `0xFFFF`.
pub open spec fn candidate(start: u16, k: int) -> u16 {
    ((start + k) % 0x1_0000) as u16
}

/// The id can be given to a new entry.
pub open spec fn is_free(m: DirectoryModel, id: u16) -> bool {
    id != UNASSIGNED_ID && !has_id(m, id)
}

/// `id` is the first free id at or after `start`, going round.
pub open spec fn allocated_from(m: DirectoryModel, start: u16, id: u16) -> bool {
    exists|k: int|
        0 <= k < 0x1_0000 && id == #[trigger] candidate(start, k) && is_free(m, id) && forall|
            j: int,
        |
            0 <= j < k ==> !is_free(m, #[trigger] candidate(start, j))
}

impl Directory {
    /// The rows, oldest first.
    pub closed spec fn view(&self) -> DirectoryModel {
        rows(self.slots@)
    }

    /// The id from which the search for a free id starts.
    pub closed spec fn next_id(&self) -> u16 {
        self.next_id
    }

    /// The directory's invariant.
    pub open spec fn wf(&self) -> bool {
        model_wf(self@)
    }

    /// An empty directory.
    pub fn new() -> (d: Directory)
        ensures
            d@ == Seq::<(u16, EntryModel)>::empty(),
            d.next_id() == 0,
            d.wf(),
    {
        let d = Directory { slots: Vec::new(), next_id: 0 };
        assert(d@ =~= Seq::<(u16, EntryModel)>::empty());
        d
    }

    /// How many entries there are.
    pub fn len(&self) -> (n: usize)
        ensures
            n == self@.len(),
    {
        self.slots.len()
    }

    fn position_of_id(&self, id: u16) -> (r: Option<usize>)
        ensures
            match r {
                Some(i) => i < self@.len() && self@[i as int].0 == id,
                None => !has_id(self@, id),
            },
    {
        let mut i: usize = 0;
        while i < self.slots.len()
            invariant
                i <= self.slots@.len(),
                forall|j: int| 0 <= j < i ==> (#[trigger] self@[j]).0 != id,
            decreases self.slots@.len() - i,
        {
            if self.slots[i].id == id {
                return Some(i);
            }
            i += 1;
        }
        None
    }

    fn position_of_name(&self, name: &String) -> (r: Option<usize>)
        ensures
            match r {
                Some(i) => i < self@.len() && self@[i as int].1.name == name@,
                None => !has_name(self@, name@),
            },
    {
        let mut i: usize = 0;
        while i < self.slots.len()
            invariant
                i <= self.slots@.len(),
                forall|j: int| 0 <= j < i ==> (#[trigger] self@[j]).1.name != name@,
            decreases self.slots@.len() - i,
        {
            if self.slots[i].data.name == *name {
                return Some(i);
            }
            i += 1;
        }
        None
    }

    /// Whether there is an entry with the id `id`.
    pub fn contains(&self, id: u16) -> (b: bool)
        ensures
            b == has_id(self@, id),
    {
        self.position_of_id(id).is_some()
    }

    /// The entry with the id `id`.
    pub fn get(&self, id: u16) -> (r: Option<&EntryData>)
        requires
            self.wf(),
        ensures
            match r {
                Some(e) => has_id(self@, id) && e@ == entry_of(self@, id),
                None => !has_id(self@, id),
            },
    {
        match self.position_of_id(id) {
            Some(i) => {
                proof {
                    lemma_index_of_id(self@, id, i as int);
                }
                Some(&self.slots[i].data)
            },
            None => None,
        }
    }

    /// The id and the entry with the name `name`.
    pub fn find(&self, name: &String) -> (r: Option<(u16, &EntryData)>)
        requires
            self.wf(),
        ensures
            match r {
                Some((id, e)) => has_name(self@, name@) && (id, e@) == self@[index_of_name(
                    self@,
                    name@,
                )],
                None => !has_name(self@, name@),
            },
    {
        match self.position_of_name(name) {
            Some(i) => {
                proof {
                    lemma_index_of_name(self@, name@, i as int);
                }
                Some((self.slots[i].id, &self.slots[i].data))
            },
            None => None,
        }
    }

    /// The id of the entry with the name `name`.
    pub fn id_of(&self, name: &String) -> (r: Option<u16>)
        requires
            self.wf(),
        ensures
            match r {
                Some(id) => has_name(self@, name@) && id == self@[index_of_name(self@, name@)].0,
                None => !has_name(self@, name@),
            },
    {
        match self.position_of_name(name) {
            Some(i) => {
                proof {
                    lemma_index_of_name(self@, name@, i as int);
                }
                Some(self.slots[i].id)
            },
            None => None,
        }
    }
}

impl Directory {
    /// Applies an update to the entry with the id `id`.
    ///
    /// The update is taken only if the entry exists, has the type `ty`, `value` has it too, and
    /// `seqnum` is strictly newer than the entry's sequence number. Otherwise nothing changes.
    /// Returns whether the update was taken.
    #[verifier::rlimit(50)]
    pub fn apply_update(&mut self, id: u16, seqnum: u16, ty: EntryType, value: EntryValue) -> (accepted:
        bool)
        requires
            old(self).wf(),
        ensures
            final(self).wf(),
            final(self)@ == updated(old(self)@, id, seqnum, ty, value@),
            accepted == update_accepted(old(self)@, id, seqnum, ty, value@),
            final(self).next_id() == old(self).next_id(),
    {
        let ghost before = self@;
        let ghost vm = value@;
        match self.position_of_id(id) {
            Some(i) => {
                let fits = self.slots[i].data.entry_type() == ty && value.entry_type() == ty
                    && is_newer(seqnum, self.slots[i].data.seqnum);
                if fits {
                    self.slots[i].data.value = value;
                    self.slots[i].data.seqnum = seqnum;
                    proof {
                        assert(before[i as int].0 == id && accepts(before[i as int].1, seqnum, ty, vm));
                        assert forall|j: int| 0 <= j < before.len() implies #[trigger] self@[j]
                            == updated(before, id, seqnum, ty, vm)[j] by {
                            if j != i {
                                if j < i {
                                    assert(before[j].0 != before[i as int].0);
                                } else {
                                    assert(before[i as int].0 != before[j].0);
                                }
                            }
                        }
                        assert(self@ =~= updated(before, id, seqnum, ty, vm));
                    }
                    true
                } else {
                    proof {
                        assert forall|j: int| 0 <= j < before.len() implies !((
                        #[trigger] before[j]).0 == id && accepts(before[j].1, seqnum, ty, vm)) by {
                            if j != i {
                                if j < i {
                                    assert(before[j].0 != before[i as int].0);
                                } else {
                                    assert(before[i as int].0 != before[j].0);
                                }
                            }
                        }
                        assert(self@ =~= updated(before, id, seqnum, ty, vm));
                    }
                    false
                }
            },
            None => {
                assert(self@ =~= updated(before, id, seqnum, ty, vm));
                false
            },
        }
    }

    /// Gives the entry with the id `id` the flags `flags`. Returns whether there is such an
    /// entry.
    pub fn apply_flags_update(&mut self, id: u16, flags: u8) -> (found: bool)
        requires
            old(self).wf(),
        ensures
            final(self).wf(),
            final(self)@ == with_flags(old(self)@, id, flags),
            found == has_id(old(self)@, id),
            final(self).next_id() == old(self).next_id(),
    {
        let ghost before = self@;
        match self.position_of_id(id) {
            Some(i) => {
                self.slots[i].data.flags = flags;
                proof {
                    assert forall|j: int| 0 <= j < before.len() implies #[trigger] self@[j]
                        == with_flags(before, id, flags)[j] by {
                        if j != i {
                            if j < i {
                                assert(before[j].0 != before[i as int].0);
                            } else {
                                assert(before[i as int].0 != before[j].0);
                            }
                        }
                    }
                    assert(self@ =~= with_flags(before, id, flags));
                }
                true
            },
            None => {
                assert(self@ =~= with_flags(before, id, flags));
                false
            },
        }
    }
}

impl Directory {
    /// Removes the entry with the id `id` and returns it, if there is one.
    pub fn apply_delete(&mut self, id: u16) -> (removed: Option<EntryData>)
        requires
            old(self).wf(),
        ensures
            final(self).wf(),
            final(self)@ == without(old(self)@, id),
            final(self).next_id() == old(self).next_id(),
            match removed {
                Some(e) => has_id(old(self)@, id) && e@ == entry_of(old(self)@, id),
                None => !has_id(old(self)@, id),
            },
    {
        let ghost before = self@;
        let ghost keep = other_than(id);
        match self.position_of_id(id) {
            Some(i) => {
                proof {
                    lemma_index_of_id(before, id, i as int);
                    assert forall|j: int| 0 <= j < before.len() && j != i implies keep(
                        #[trigger] before[j],
                    ) by {
                        if j < i {
                            assert(before[j].0 != before[i as int].0);
                        } else {
                            assert(before[i as int].0 != before[j].0);
                        }
                    }
                    lemma_filter_remove(before, i as int, keep);
                    lemma_filter_wf(before, keep);
                }
                let slot = self.slots.remove(i);
                assert(self@ =~= before.remove(i as int));
                Some(slot.data)
            },
            None => {
                proof {
                    lemma_filter_all(before, keep);
                }
                None
            },
        }
    }

    /// Applies a clear directive: with the magic number every entry that is not persistent
    /// goes, with any other number nothing happens. Returns whether the directive was honored.
    pub fn apply_clear(&mut self, magic: u32) -> (honored: bool)
        requires
            old(self).wf(),
        ensures
            final(self).wf(),
            final(self)@ == cleared(old(self)@, magic),
            final(self).next_id() == old(self).next_id(),
            honored == (magic == CLEAR_ALL_MAGIC),
    {
        if magic != CLEAR_ALL_MAGIC {
            return false;
        }
        let ghost before = self@;
        let ghost keep = persistent_row();
        let mut all: Vec<Slot> = Vec::new();
        core::mem::swap(&mut self.slots, &mut all);
        assert(rows(self.slots@) =~= before.take(0).filter(keep));
        for slot in it: all
            invariant
                rows(it.seq()) == before,
                keep == persistent_row(),
                rows(self.slots@) == before.take(it.index() as int).filter(keep),
                self.next_id == old(self).next_id,
        {
            proof {
                let k = it.index() as int;
                assert(before.take(k + 1) =~= before.take(k).push(before[k]));
                before.take(k).lemma_filter_push(before[k], keep);
            }
            let ghost kept = rows(self.slots@);
            if is_persistent(slot.data.flags) {
                self.slots.push(slot);
                assert(rows(self.slots@) =~= kept.push(slot@));
            }
        }
        proof {
            assert(before.take(before.len() as int) =~= before);
            lemma_filter_wf(before, keep);
        }
        true
    }

    /// Applies an assignment; see `assigned` for what it does to the directory.
    #[verifier::rlimit(50)]
    pub fn apply_assignment(
        &mut self,
        name: String,
        ty: EntryType,
        id: u16,
        seqnum: u16,
        flags: u8,
        value: EntryValue,
    ) -> (outcome: Assigned)
        requires
            old(self).wf(),
        ensures
            final(self).wf(),
            final(self)@ == assigned(old(self)@, name@, ty, id, seqnum, flags, value@),
            outcome == assignment_outcome(old(self)@, name@, ty, id, seqnum, value@),
            final(self).next_id() == old(self).next_id(),
    {
        let ghost before = self@;
        let ghost vm = value@;
        let ghost after = assigned(before, name@, ty, id, seqnum, flags, vm);
        if id == UNASSIGNED_ID {
            return Assigned::Ignored;
        }
        match self.position_of_name(&name) {
            Some(i) => {
                proof {
                    lemma_index_of_name(before, name@, i as int);
                }
                let fits = self.slots[i].data.entry_type() == ty && value.entry_type() == ty
                    && is_newer(seqnum, self.slots[i].data.seqnum);
                if fits {
                    self.slots[i].data.value = value;
                    self.slots[i].data.seqnum = seqnum;
                }
                proof {
                    assert forall|j: int| 0 <= j < before.len() implies #[trigger] self@[j]
                        == after[j] by {
                        if j != i {
                            if j < i {
                                assert(before[j].1.name != before[i as int].1.name);
                            } else {
                                assert(before[i as int].1.name != before[j].1.name);
                            }
                        }
                    }
                    assert(self@ =~= after);
                }
                if fits {
                    Assigned::Updated
                } else {
                    Assigned::Ignored
                }
            },
            None => {
                match self.position_of_id(id) {
                    Some(i) => {
                        self.slots[i].data = EntryData::new_with_seqnum(name, flags, value, seqnum);
                        proof {
                            assert forall|j: int| 0 <= j < before.len() implies #[trigger] self@[j]
                                == after[j] by {
                                if j != i {
                                    if j < i {
                                        assert(before[j].0 != before[i as int].0);
                                    } else {
                                        assert(before[i as int].0 != before[j].0);
                                    }
                                }
                            }
                            assert(self@ =~= after);
                            lemma_replaced_wf(before, i as int, after[i as int].1);
                        }
                    },
                    None => {
                        self.slots.push(
                            Slot { id, data: EntryData::new_with_seqnum(name, flags, value, seqnum) },
                        );
                        assert(self@ =~= after);
                    },
                }
                Assigned::Added
            },
        }
    }

    /// The first free id at or after the counter, if any id is free.
    fn allocate(&self) -> (r: Option<u16>)
        requires
            self.wf(),
        ensures
            match r {
                Some(id) => allocated_from(self@, self.next_id(), id),
                None => forall|c: u16| !is_free(self@, c),
            },
    {
        let mut k: u32 = 0;
        let mut c: u16 = self.next_id;
        while k < 0x1_0000
            invariant
                k <= 0x1_0000,
                c == candidate(self.next_id, k as int),
                forall|j: int| 0 <= j < k ==> !is_free(self@, #[trigger] candidate(self.next_id, j)),
            decreases 0x1_0000 - k,
        {
            if c != UNASSIGNED_ID && !self.contains(c) {
                return Some(c);
            }
            k += 1;
            c = c.wrapping_add(1);
        }
        proof {
            assert forall|id: u16| !is_free(self@, id) by {
                let j = (id - self.next_id) % 0x1_0000;
                assert(candidate(self.next_id, j) == id);
            }
        }
        None
    }

    /// Puts a new entry into the directory, as a server does: the entry gets the first free id
    /// at or after the counter and the sequence number 1, and the counter moves behind that id.
    /// The id that asks for an assignment is never given. A name that is taken keeps its entry.
    pub fn insert(&mut self, name: String, flags: u8, value: EntryValue) -> (outcome: Inserted)
        requires
            old(self).wf(),
        ensures
            final(self).wf(),
            match outcome {
                Inserted::Created(id) => {
                    &&& id != UNASSIGNED_ID
                    &&& !has_name(old(self)@, name@)
                    &&& allocated_from(old(self)@, old(self).next_id(), id)
                    &&& final(self)@ == old(self)@.push((id, assigned_entry(name@, 1, flags, value@)))
                    &&& final(self).next_id() == candidate(id, 1)
                },
                Inserted::Existing(id) => {
                    &&& has_name(old(self)@, name@)
                    &&& id == old(self)@[index_of_name(old(self)@, name@)].0
                    &&& final(self)@ == old(self)@
                    &&& final(self).next_id() == old(self).next_id()
                },
                Inserted::Full => {
                    &&& !has_name(old(self)@, name@)
                    &&& forall|c: u16| !is_free(old(self)@, c)
                    &&& final(self)@ == old(self)@
                    &&& final(self).next_id() == old(self).next_id()
                },
            },
    {
        let ghost before = self@;
        match self.position_of_name(&name) {
            Some(i) => {
                proof {
                    lemma_index_of_name(before, name@, i as int);
                }
                Inserted::Existing(self.slots[i].id)
            },
            None => match self.allocate() {
                Some(id) => {
                    self.slots.push(Slot { id, data: EntryData::new(name, flags, value) });
                    self.next_id = id.wrapping_add(1);
                    assert(self@ =~= before.push((id, assigned_entry(name@, 1, flags, value@))));
                    Inserted::Created(id)
                },
                None => Inserted::Full,
            },
        }
    }

    /// A copy of the rows, oldest first.
    pub fn snapshot(&self) -> (out: Vec<Slot>)
        ensures
            rows(out@) == self@,
    {
        let mut out: Vec<Slot> = Vec::new();
        let mut i: usize = 0;
        while i < self.slots.len()
            invariant
                i <= self.slots@.len(),
                rows(out@) == self@.take(i as int),
            decreases self.slots@.len() - i,
        {
            let ghost before = rows(out@);
            out.push(Slot { id: self.slots[i].id, data: self.slots[i].data.duplicate() });
            i += 1;
            assert(rows(out@) =~= before.push(self@[i - 1]));
            assert(self@.take(i as int) =~= self@.take(i - 1).push(self@[i - 1]));
        }
        assert(self@.take(i as int) =~= self@);
        out
    }
}

/// A filter that every row passes changes nothing.
pub proof fn lemma_filter_all(m: DirectoryModel, keep: spec_fn((u16, EntryModel)) -> bool)
    requires
        forall|i: int| 0 <= i < m.len() ==> keep(#[trigger] m[i]),
    ensures
        m.filter(keep) == m,
    decreases m.len(),
{
    reveal(Seq::filter);
    if m.len() > 0 {
        lemma_filter_all(m.drop_last(), keep);
        assert(m.drop_last().push(m.last()) =~= m);
    }
}

/// A filter that every row but one passes removes that row.
pub proof fn lemma_filter_remove(
    m: DirectoryModel,
    i: int,
    keep: spec_fn((u16, EntryModel)) -> bool,
)
    requires
        0 <= i < m.len(),
        !keep(m[i]),
        forall|j: int| 0 <= j < m.len() && j != i ==> keep(#[trigger] m[j]),
    ensures
        m.filter(keep) == m.remove(i),
    decreases m.len(),
{
    reveal(Seq::filter);
    if i == m.len() - 1 {
        lemma_filter_all(m.drop_last(), keep);
        assert(m.remove(i) =~= m.drop_last());
    } else {
        lemma_filter_remove(m.drop_last(), i, keep);
        assert(m.drop_last().remove(i).push(m.last()) =~= m.remove(i));
    }
}

/// Every row of a filtered directory is a row of the directory, and rows keep their order.
pub proof fn lemma_filter_rows(m: DirectoryModel, keep: spec_fn((u16, EntryModel)) -> bool)
    ensures
        forall|i: int|
            0 <= i < m.filter(keep).len() ==> exists|j: int|
                i <= j < m.len() && m[j] == #[trigger] m.filter(keep)[i],
        m.filter(keep).len() <= m.len(),
    decreases m.len(),
{
    reveal(Seq::filter);
    if m.len() > 0 {
        let front = m.drop_last();
        lemma_filter_rows(front, keep);
        let out = m.filter(keep);
        assert forall|i: int| 0 <= i < out.len() implies exists|j: int|
            i <= j < m.len() && m[j] == #[trigger] out[i] by {
            if i < front.filter(keep).len() {
                let j = choose|j: int| i <= j < front.len() && front[j] == front.filter(keep)[i];
                assert(m[j] == out[i]);
            } else {
                assert(m[m.len() - 1] == out[i]);
            }
        }
    }
}

/// A filtered directory keeps the invariant.
#[verifier::rlimit(50)]
pub proof fn lemma_filter_wf(m: DirectoryModel, keep: spec_fn((u16, EntryModel)) -> bool)
    requires
        model_wf(m),
    ensures
        model_wf(m.filter(keep)),
    decreases m.len(),
{
    reveal(Seq::filter);
    if m.len() > 0 {
        let front = m.drop_last();
        lemma_filter_wf(front, keep);
        lemma_filter_rows(front, keep);
        let out = m.filter(keep);
        let kept = front.filter(keep);
        if keep(m.last()) {
            assert forall|i: int| 0 <= i < kept.len() implies (#[trigger] kept[i]).0 != m.last().0
                && kept[i].1.name != m.last().1.name by {
                let j = choose|j: int| i <= j < front.len() && front[j] == kept[i];
                assert(m[j].0 != m[m.len() - 1].0);
                assert(m[j].1.name != m[m.len() - 1].1.name);
            }
            assert forall|i: int, j: int| 0 <= i < j < out.len() implies (#[trigger] out[i]).0 != (
            #[trigger] out[j]).0 && out[i].1.name != out[j].1.name by {
                if j < kept.len() {
                    assert(kept[i].0 != kept[j].0);
                    assert(kept[i].1.name != kept[j].1.name);
                } else {
                    assert(kept[i].0 != m.last().0);
                }
            }
            assert forall|i: int| 0 <= i < out.len() implies (#[trigger] out[i]).0
                != UNASSIGNED_ID by {
                if i < kept.len() {
                    assert(kept[i].0 != UNASSIGNED_ID);
                } else {
                    assert(m[m.len() - 1].0 != UNASSIGNED_ID);
                }
            }
        }
    }
}

/// Putting an entry with a new name in the place of a row keeps the invariant.
pub proof fn lemma_replaced_wf(m: DirectoryModel, i: int, e: EntryModel)
    requires
        model_wf(m),
        0 <= i < m.len(),
        !has_name(m, e.name),
    ensures
        model_wf(m.update(i, (m[i].0, e))),
{
    let out = m.update(i, (m[i].0, e));
    assert forall|a: int, b: int| 0 <= a < b < out.len() implies (#[trigger] out[a]).0 != (
    #[trigger] out[b]).0 && out[a].1.name != out[b].1.name by {
        assert(m[a].0 != m[b].0);
        assert(m[a].1.name != m[b].1.name);
        assert(m[a].1.name != e.name);
        assert(m[b].1.name != e.name);
    }
    assert forall|a: int| 0 <= a < out.len() implies (#[trigger] out[a]).0 != UNASSIGNED_ID by {
        assert(m[a].0 != UNASSIGNED_ID);
    }
}

/// In a directory without repeated ids, the row with a given id is where one finds it.
pub proof fn lemma_index_of_id(m: DirectoryModel, id: u16, i: int)
    requires
        0 <= i < m.len(),
        m[i].0 == id,
    ensures
        has_id(m, id),
        model_wf(m) ==> index_of_id(m, id) == i,
{
    let k = index_of_id(m, id);
    if model_wf(m) && k != i {
        if k < i {
            assert(m[k].0 != m[i].0);
        } else {
            assert(m[i].0 != m[k].0);
        }
    }
}

/// In a directory without repeated names, the row with a given name is where one finds it.
pub proof fn lemma_index_of_name(m: DirectoryModel, name: Seq<char>, i: int)
    requires
        0 <= i < m.len(),
        m[i].1.name == name,
    ensures
        has_name(m, name),
        model_wf(m) ==> index_of_name(m, name) == i,
{
    let k = index_of_name(m, name);
    if model_wf(m) && k != i {
        if k < i {
            assert(m[k].1.name != m[i].1.name);
        } else {
            assert(m[i].1.name != m[k].1.name);
        }
    }
}

/// The id that a new entry gets: the first free id at or after `start`, none where no id is
/// free.
pub open spec fn allocation(m: DirectoryModel, start: u16) -> Option<u16> {
    if exists|id: u16| allocated_from(m, start, id) {
        Some(choose|id: u16| allocated_from(m, start, id))
    } else {
        None
    }
}

/// There is at most one first free id.
pub proof fn lemma_allocation_unique(m: DirectoryModel, start: u16, a: u16, b: u16)
    requires
        allocated_from(m, start, a),
        allocated_from(m, start, b),
    ensures
        a == b,
{
    let ka = choose|k: int|
        0 <= k < 0x1_0000 && a == #[trigger] candidate(start, k) && is_free(m, a) && forall|j: int|
            0 <= j < k ==> !is_free(m, #[trigger] candidate(start, j));
    let kb = choose|k: int|
        0 <= k < 0x1_0000 && b == #[trigger] candidate(start, k) && is_free(m, b) && forall|j: int|
            0 <= j < k ==> !is_free(m, #[trigger] candidate(start, j));
    if ka < kb {
        assert(!is_free(m, candidate(start, ka)));
    } else if kb < ka {
        assert(!is_free(m, candidate(start, kb)));
    }
}

/// The first free id is the allocation.
pub proof fn lemma_allocation(m: DirectoryModel, start: u16, id: u16)
    requires
        allocated_from(m, start, id),
    ensures
        allocation(m, start) == Some(id),
{
    let chosen = choose|c: u16| allocated_from(m, start, c);
    lemma_allocation_unique(m, start, id, chosen);
}

/// Where no id is free there is no allocation.
pub proof fn lemma_no_allocation(m: DirectoryModel, start: u16)
    requires
        forall|c: u16| !is_free(m, c),
    ensures
        allocation(m, start) == None::<u16>,
{
}

/// The type of the entry with the name `name`.
pub open spec fn type_of_name(m: DirectoryModel, name: Seq<char>) -> EntryType {
    m[index_of_name(m, name)].1.value.entry_type()
}

/// Every name that both directories hold has the same type in both.
pub open spec fn keeps_types(before: DirectoryModel, after: DirectoryModel) -> bool {
    forall|name: Seq<char>|
        has_name(before, name) && #[trigger] has_name(after, name) ==> type_of_name(after, name)
            == type_of_name(before, name)
}

proof fn lemma_keeps_types(before: DirectoryModel, after: DirectoryModel)
    requires
        forall|i: int, j: int|
            0 <= i < after.len() && 0 <= j < before.len() && (#[trigger] after[i]).1.name == (
            #[trigger] before[j]).1.name ==> after[i].1.value.entry_type()
                == before[j].1.value.entry_type(),
    ensures
        keeps_types(before, after),
{
    assert forall|name: Seq<char>| has_name(before, name) && #[trigger] has_name(
        after,
        name,
    ) implies type_of_name(after, name) == type_of_name(before, name) by {
        let i = index_of_name(after, name);
        let j = index_of_name(before, name);
        assert(after[i].1.name == before[j].1.name);
    }
}

proof fn lemma_same_name_same_row(m: DirectoryModel, i: int, j: int)
    requires
        model_wf(m),
        0 <= i < m.len(),
        0 <= j < m.len(),
        m[i].1.name == m[j].1.name,
    ensures
        i == j,
{
    if i < j {
        assert(m[i].1.name != m[j].1.name);
    } else if j < i {
        assert(m[j].1.name != m[i].1.name);
    }
}

/// An update changes the type of no name.
pub proof fn lemma_update_keeps_types(
    m: DirectoryModel,
    id: u16,
    seqnum: u16,
    ty: EntryType,
    value: ValueModel,
)
    requires
        model_wf(m),
    ensures
        keeps_types(m, updated(m, id, seqnum, ty, value)),
{
    let after = updated(m, id, seqnum, ty, value);
    assert forall|i: int, j: int|
        0 <= i < after.len() && 0 <= j < m.len() && (#[trigger] after[i]).1.name == (
        #[trigger] m[j]).1.name implies after[i].1.value.entry_type()
        == m[j].1.value.entry_type() by {
        lemma_same_name_same_row(m, i, j);
    }
    lemma_keeps_types(m, after);
}

/// A flags update changes the type of no name.
pub proof fn lemma_flags_update_keeps_types(m: DirectoryModel, id: u16, flags: u8)
    requires
        model_wf(m),
    ensures
        keeps_types(m, with_flags(m, id, flags)),
{
    let after = with_flags(m, id, flags);
    assert forall|i: int, j: int|
        0 <= i < after.len() && 0 <= j < m.len() && (#[trigger] after[i]).1.name == (
        #[trigger] m[j]).1.name implies after[i].1.value.entry_type()
        == m[j].1.value.entry_type() by {
        lemma_same_name_same_row(m, i, j);
    }
    lemma_keeps_types(m, after);
}

proof fn lemma_filter_keeps_types(m: DirectoryModel, keep: spec_fn((u16, EntryModel)) -> bool)
    requires
        model_wf(m),
    ensures
        keeps_types(m, m.filter(keep)),
{
    let after = m.filter(keep);
    lemma_filter_rows(m, keep);
    assert forall|i: int, j: int|
        0 <= i < after.len() && 0 <= j < m.len() && (#[trigger] after[i]).1.name == (
        #[trigger] m[j]).1.name implies after[i].1.value.entry_type()
        == m[j].1.value.entry_type() by {
        let k = choose|k: int| i <= k < m.len() && m[k] == after[i];
        lemma_same_name_same_row(m, k, j);
    }
    lemma_keeps_types(m, after);
}

/// A delete changes the type of no name.
pub proof fn lemma_delete_keeps_types(m: DirectoryModel, id: u16)
    requires
        model_wf(m),
    ensures
        keeps_types(m, without(m, id)),
{
    lemma_filter_keeps_types(m, other_than(id));
}

/// A clear directive changes the type of no name.
pub proof fn lemma_clear_keeps_types(m: DirectoryModel, magic: u32)
    requires
        model_wf(m),
    ensures
        keeps_types(m, cleared(m, magic)),
{
    if magic == CLEAR_ALL_MAGIC {
        lemma_filter_keeps_types(m, persistent_row());
    } else {
        lemma_filter_all(m, |row: (u16, EntryModel)| true);
        lemma_filter_keeps_types(m, |row: (u16, EntryModel)| true);
    }
}

/// An assignment changes the type of no name.
pub proof fn lemma_assignment_keeps_types(
    m: DirectoryModel,
    name: Seq<char>,
    ty: EntryType,
    id: u16,
    seqnum: u16,
    flags: u8,
    value: ValueModel,
)
    requires
        model_wf(m),
    ensures
        keeps_types(m, assigned(m, name, ty, id, seqnum, flags, value)),
{
    let after = assigned(m, name, ty, id, seqnum, flags, value);
    assert forall|i: int, j: int|
        0 <= i < after.len() && 0 <= j < m.len() && (#[trigger] after[i]).1.name == (
        #[trigger] m[j]).1.name implies after[i].1.value.entry_type()
        == m[j].1.value.entry_type() by {
        if id == UNASSIGNED_ID || has_name(m, name) {
            lemma_same_name_same_row(m, i, j);
        } else if i < m.len() && after[i] == m[i] {
            lemma_same_name_same_row(m, i, j);
        } else {
            assert(after[i].1.name == name);
            assert(m[j].1.name == name);
        }
    }
    lemma_keeps_types(m, after);
}

/// A new entry at the end changes the type of no name.
pub proof fn lemma_insert_keeps_types(m: DirectoryModel, id: u16, e: EntryModel)
    requires
        model_wf(m),
        !has_name(m, e.name),
    ensures
        keeps_types(m, m.push((id, e))),
{
    let after = m.push((id, e));
    assert forall|i: int, j: int|
        0 <= i < after.len() && 0 <= j < m.len() && (#[trigger] after[i]).1.name == (
        #[trigger] m[j]).1.name implies after[i].1.value.entry_type()
        == m[j].1.value.entry_type() by {
        if i < m.len() {
            lemma_same_name_same_row(m, i, j);
        } else {
            assert(m[j].1.name == e.name);
        }
    }
    lemma_keeps_types(m, after);
}

/// An update that is not taken changes nothing.
pub proof fn lemma_rejected_update_changes_nothing(
    m: DirectoryModel,
    id: u16,
    seqnum: u16,
    ty: EntryType,
    value: ValueModel,
)
    requires
        !update_accepted(m, id, seqnum, ty, value),
    ensures
        updated(m, id, seqnum, ty, value) == m,
{
    assert(updated(m, id, seqnum, ty, value) =~= m);
}

/// An update of the right type, with another sequence number than the entry has, leaves the
/// entry with the update's sequence number exactly when that number is strictly newer; when it
/// is not, the directory is unchanged.
pub proof fn lemma_update_sets_seqnum_iff_newer(
    m: DirectoryModel,
    id: u16,
    seqnum: u16,
    ty: EntryType,
    value: ValueModel,
)
    requires
        model_wf(m),
        has_id(m, id),
        entry_of(m, id).value.entry_type() == ty,
        value.entry_type() == ty,
        seqnum != entry_of(m, id).seqnum,
    ensures
        has_id(updated(m, id, seqnum, ty, value), id),
        entry_of(updated(m, id, seqnum, ty, value), id).seqnum == seqnum <==> seq_newer(
            seqnum,
            entry_of(m, id).seqnum,
        ),
        seq_newer(seqnum, entry_of(m, id).seqnum) ==> entry_of(
            updated(m, id, seqnum, ty, value),
            id,
        ).value == value,
        !seq_newer(seqnum, entry_of(m, id).seqnum) ==> updated(m, id, seqnum, ty, value) == m,
{
    let after = updated(m, id, seqnum, ty, value);
    let i = index_of_id(m, id);
    assert(after[i].0 == id);
    assert(model_wf(after)) by {
        assert forall|a: int, b: int| 0 <= a < b < after.len() implies (#[trigger] after[a]).0 != (
        #[trigger] after[b]).0 && after[a].1.name != after[b].1.name by {
            assert(m[a].0 != m[b].0);
            assert(m[a].1.name != m[b].1.name);
        }
        assert forall|a: int| 0 <= a < after.len() implies (#[trigger] after[a]).0
            != UNASSIGNED_ID by {
            assert(m[a].0 != UNASSIGNED_ID);
        }
    }
    lemma_index_of_id(after, id, i);
    if !seq_newer(seqnum, entry_of(m, id).seqnum) {
        assert forall|j: int| 0 <= j < m.len() implies !((#[trigger] m[j]).0 == id && accepts(
            m[j].1,
            seqnum,
            ty,
            value,
        )) by {
            if m[j].0 == id {
                lemma_index_of_id(m, id, j);
            }
        }
        assert(after =~= m);
    }
}

/// A clear directive without the magic number changes nothing.
pub proof fn lemma_clear_without_magic(m: DirectoryModel, magic: u32)
    requires
        magic != CLEAR_ALL_MAGIC,
    ensures
        cleared(m, magic) == m,
{
}

/// A clear directive with the magic number leaves every persistent row in the directory, and
/// only persistent rows.
pub proof fn lemma_clear_keeps_persistent(m: DirectoryModel)
    ensures
        forall|i: int|
            0 <= i < m.len() && persistent((#[trigger] m[i]).1.flags) ==> cleared(
                m,
                CLEAR_ALL_MAGIC,
            ).contains(m[i]),
        forall|i: int|
            0 <= i < cleared(m, CLEAR_ALL_MAGIC).len() ==> persistent(
                (#[trigger] cleared(m, CLEAR_ALL_MAGIC)[i]).1.flags,
            ),
{
    let keep = persistent_row();
    assert forall|i: int| 0 <= i < m.len() && persistent((#[trigger] m[i]).1.flags) implies cleared(
        m,
        CLEAR_ALL_MAGIC,
    ).contains(m[i]) by {
        m.lemma_filter_contains(keep, i);
    }
    assert forall|i: int| 0 <= i < cleared(m, CLEAR_ALL_MAGIC).len() implies persistent(
        (#[trigger] cleared(m, CLEAR_ALL_MAGIC)[i]).1.flags,
    ) by {
        m.lemma_filter_pred(keep, i);
    }
}

/// Fewer than `n` numbers leave one of the first `n` numbers out.
pub proof fn lemma_one_left_out(taken: Seq<int>, n: nat)
    requires
        taken.len() < n,
    ensures
        exists|x: int| 0 <= x < n && !taken.contains(x),
{
    if forall|x: int| 0 <= x < n ==> taken.contains(x) {
        let all = set_int_range(0, n as int);
        lemma_int_range(0, n as int);
        taken.lemma_cardinality_of_set();
        assert forall|x: int| all.contains(x) implies taken.to_set().contains(x) by {
            assert(taken.contains(x));
        }
        lemma_len_subset(all, taken.to_set());
    }
}

/// Every id is a candidate of every start.
pub proof fn lemma_candidate_reaches(start: u16, id: u16) -> (k: int)
    ensures
        0 <= k < 0x1_0000,
        candidate(start, k) == id,
{
    if id >= start {
        id - start
    } else {
        id - start + 0x1_0000
    }
}

/// Where some candidate passes a test, there is a first one that does.
pub proof fn lemma_first_candidate(free: spec_fn(u16) -> bool, start: u16, k: int) -> (first: int)
    requires
        0 <= k < 0x1_0000,
        free(candidate(start, k)),
    ensures
        0 <= first <= k,
        free(candidate(start, first)),
        forall|j: int| 0 <= j < first ==> !free(#[trigger] candidate(start, j)),
    decreases k,
{
    if exists|j: int| 0 <= j < k && free(#[trigger] candidate(start, j)) {
        let j = choose|j: int| 0 <= j < k && free(#[trigger] candidate(start, j));
        lemma_first_candidate(free, start, j)
    } else {
        k
    }
}

/// A directory with fewer than 65535 entries has a free id, and the search finds one from
/// whatever start: an id is refused only where none is free, never for a count.
pub proof fn lemma_allocation_exists(m: DirectoryModel, start: u16)
    requires
        m.len() < 0xFFFF,
    ensures
        allocation(m, start) is Some,
        exists|id: u16| is_free(m, id),
{
    let ids = m.map_values(|row: (u16, EntryModel)| row.0 as int);
    lemma_one_left_out(ids, 0xFFFF);
    let x = choose|x: int| 0 <= x < 0xFFFF && !ids.contains(x);
    let id = x as u16;
    if has_id(m, id) {
        let i = choose|i: int| 0 <= i < m.len() && (#[trigger] m[i]).0 == id;
        assert(ids[i] == x);
    }
    assert(is_free(m, id));
    let k = lemma_candidate_reaches(start, id);
    let free = |c: u16| is_free(m, c);
    let first = lemma_first_candidate(free, start, k);
    assert(allocated_from(m, start, candidate(start, first)));
}

/// The id that an allocation gives is never the id that asks for an assignment, and never the
/// id of an entry that exists.
pub proof fn lemma_allocated_id_is_free(m: DirectoryModel, start: u16, id: u16)
    requires
        allocated_from(m, start, id),
    ensures
        id != UNASSIGNED_ID,
        !has_id(m, id),
{
}

} // verus!

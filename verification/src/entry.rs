//! Entries: named, typed, versioned values.

use crate::types::{EntryType, EntryValue, ValueModel};
use vstd::prelude::*;

verus! {

/// What the directory holds of an entry: its name, flags, value and sequence number.
#[derive(Clone, Debug, PartialEq, Eq)]
pub struct EntryData {
    pub name: String,
    pub flags: u8,
    pub value: EntryValue,
    pub seqnum: u16,
}

/// What an entry is, as mathematics.
pub struct EntryModel {
    pub name: Seq<char>,
    pub flags: u8,
    pub value: ValueModel,
    pub seqnum: u16,
}

impl View for EntryData {
    type V = EntryModel;

    open spec fn view(&self) -> EntryModel {
        EntryModel {
            name: self.name@,
            flags: self.flags,
            value: self.value@,
            seqnum: self.seqnum,
        }
    }
}

/// Bit 0 of the flags: the entry survives a clear.
pub open spec fn persistent(flags: u8) -> bool {
    flags % 2 == 1
}

/// `new` is newer than `old` on the circle of sequence numbers: going forward from `old`, `new`
/// comes after at least one step and fewer than half the circle.
pub open spec fn seq_newer(new: u16, old: u16) -> bool {
    0 < (new - old) % 0x1_0000 < 0x8000
}

/// The sequence number after `s`; after `0xFFFF` comes `0`.
pub open spec fn seq_successor(s: u16) -> u16 {
    if s == 0xFFFF {
        0
    } else {
        (s + 1) as u16
    }
}

/// Whether `new` is newer than `old`, wraparound included.
pub fn is_newer(new: u16, old: u16) -> (b: bool)
    ensures
        b == seq_newer(new, old),
{
    let distance: u16 = new.wrapping_sub(old);
    distance != 0 && distance < 0x8000
}

/// The sequence number after `s`.
pub fn next_seqnum(s: u16) -> (n: u16)
    ensures
        n == seq_successor(s),
        seq_newer(n, s),
{
    s.wrapping_add(1)
}

/// Whether the flags mark an entry as persistent.
pub fn is_persistent(flags: u8) -> (b: bool)
    ensures
        b == persistent(flags),
{
    assert(flags & 1 == flags % 2) by (bit_vector);
    flags & 1 == 1
}

/// One step forward is forward motion everywhere on the circle, also from `0xFFFF` to `0`.
pub proof fn lemma_successor_is_newer(s: u16)
    ensures
        seq_newer(seq_successor(s), s),
{
}

/// No number is newer than itself, and of two numbers at most one is newer than the other.
pub proof fn lemma_newer_is_strict(a: u16, b: u16)
    ensures
        !seq_newer(a, a),
        seq_newer(a, b) ==> !seq_newer(b, a),
{
}

impl EntryData {
    /// A fresh entry: its sequence number is 1.
    pub fn new(name: String, flags: u8, value: EntryValue) -> (r: EntryData)
        ensures
            r.name == name,
            r.flags == flags,
            r.value == value,
            r.seqnum == 1,
    {
        EntryData::new_with_seqnum(name, flags, value, 1)
    }

    pub fn new_with_seqnum(name: String, flags: u8, value: EntryValue, seqnum: u16) -> (r:
        EntryData)
        ensures
            r.name == name,
            r.flags == flags,
            r.value == value,
            r.seqnum == seqnum,
    {
        EntryData { name, flags, value, seqnum }
    }

    /// The type of the entry's value.
    pub fn entry_type(&self) -> (t: EntryType)
        ensures
            t == self@.value.entry_type(),
    {
        self.value.entry_type()
    }

    /// A copy of the entry.
    pub fn duplicate(&self) -> (r: EntryData)
        ensures
            r@ == self@,
            r.value.encodable() == self.value.encodable(),
    {
        EntryData {
            name: self.name.clone(),
            flags: self.flags,
            value: self.value.duplicate(),
            seqnum: self.seqnum,
        }
    }
}

} // verus!

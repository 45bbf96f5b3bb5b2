use nt::directory::{Assigned, Directory, Inserted, Slot};
use nt::entry::{is_newer, is_persistent, next_seqnum, EntryData};
use nt::types::{EntryType, EntryValue};

fn double(v: f64) -> EntryValue {
    EntryValue::Double(v.to_bits())
}

fn ids(directory: &Directory) -> Vec<u16> {
    directory.snapshot().iter().map(|slot| slot.id).collect()
}

fn filled() -> Directory {
    let mut directory = Directory::new();
    assert_eq!(
        directory.insert("/a".to_string(), 0, EntryValue::Boolean(true)),
        Inserted::Created(0)
    );
    assert_eq!(
        directory.insert("/b".to_string(), 1, double(1.0)),
        Inserted::Created(1)
    );
    assert_eq!(
        directory.insert("/c".to_string(), 0, EntryValue::String("x".to_string())),
        Inserted::Created(2)
    );
    directory
}

#[test]
fn a_new_entry_has_sequence_number_one() {
    let entry = EntryData::new("/a".to_string(), 3, EntryValue::Boolean(false));
    assert_eq!(entry.seqnum, 1);
    assert_eq!(entry.flags, 3);
    assert_eq!(entry.name, "/a");
    assert_eq!(entry.entry_type(), EntryType::Boolean);
    let entry = EntryData::new_with_seqnum("/a".to_string(), 3, double(0.5), 77);
    assert_eq!(entry.seqnum, 77);
    assert_eq!(entry.entry_type(), EntryType::Double);
    assert_eq!(entry.duplicate(), entry);
}

#[test]
fn sequence_numbers_wrap_around() {
    assert!(is_newer(0x0000, 0xFFFF));
    assert!(is_newer(0x0001, 0xFFFF));
    assert!(!is_newer(0xFFFF, 0x0000));
    assert!(is_newer(2, 1));
    assert!(!is_newer(1, 2));
    assert!(!is_newer(5, 5));
    assert!(is_newer(0x7FFF, 0));
    assert!(!is_newer(0x8000, 0));
    assert!(!is_newer(0x8001, 0));
    assert!(is_newer(10, 0xFFF0));
    assert_eq!(next_seqnum(0xFFFF), 0);
    assert_eq!(next_seqnum(1), 2);
}

#[test]
fn bit_zero_is_the_persistent_flag() {
    assert!(is_persistent(1));
    assert!(is_persistent(0xff));
    assert!(!is_persistent(0));
    assert!(!is_persistent(0xfe));
}

#[test]
fn insert_gives_ids_in_order() {
    let directory = filled();
    assert_eq!(directory.len(), 3);
    assert_eq!(ids(&directory), vec![0, 1, 2]);
    let entry = directory.get(1).unwrap();
    assert_eq!(entry.name, "/b");
    assert_eq!(entry.seqnum, 1);
    assert_eq!(entry.flags, 1);
    assert_eq!(entry.value, double(1.0));
    assert!(directory.contains(2));
    assert!(!directory.contains(3));
    assert_eq!(directory.get(3), None);
    assert_eq!(directory.id_of(&"/c".to_string()), Some(2));
    assert_eq!(directory.id_of(&"/d".to_string()), None);
}

#[test]
fn insert_keeps_the_entry_of_a_name_that_is_taken() {
    let mut directory = filled();
    assert_eq!(
        directory.insert("/b".to_string(), 0, EntryValue::Boolean(true)),
        Inserted::Existing(1)
    );
    assert_eq!(directory.len(), 3);
    assert_eq!(directory.get(1).unwrap().value, double(1.0));
    assert_eq!(
        directory.insert("/d".to_string(), 0, EntryValue::Boolean(true)),
        Inserted::Created(3)
    );
}

#[test]
fn ids_of_deleted_entries_are_taken_again_only_after_the_counter_wraps() {
    let mut directory = filled();
    assert!(directory.apply_delete(1).is_some());
    assert_eq!(
        directory.insert("/d".to_string(), 0, EntryValue::Boolean(true)),
        Inserted::Created(3)
    );
    assert_eq!(ids(&directory), vec![0, 2, 3]);
}

#[test]
fn the_allocator_never_gives_the_unassigned_id() {
    let mut directory = Directory::new();
    assert_eq!(
        directory.insert("/keep".to_string(), 0, EntryValue::Boolean(true)),
        Inserted::Created(0)
    );
    for expected in 1..0xFFFFu32 {
        assert_eq!(
            directory.insert("/t".to_string(), 0, EntryValue::Boolean(true)),
            Inserted::Created(expected as u16)
        );
        assert!(directory.apply_delete(expected as u16).is_some());
    }
    assert_eq!(
        directory.insert("/wrapped".to_string(), 0, EntryValue::Boolean(true)),
        Inserted::Created(1)
    );
    assert!(!directory.contains(0xFFFF));
    assert_eq!(ids(&directory), vec![0, 1]);
    assert_eq!(
        directory.insert("/next".to_string(), 0, EntryValue::Boolean(true)),
        Inserted::Created(2)
    );
}

#[test]
fn an_update_needs_the_type_and_a_newer_sequence_number() {
    let mut directory = filled();
    assert!(!directory.apply_update(1, 1, EntryType::Double, double(2.0)));
    assert_eq!(directory.get(1).unwrap().value, double(1.0));
    assert!(!directory.apply_update(1, 0, EntryType::Double, double(2.0)));
    assert!(!directory.apply_update(1, 2, EntryType::Boolean, EntryValue::Boolean(true)));
    assert!(!directory.apply_update(1, 2, EntryType::Double, EntryValue::Boolean(true)));
    assert!(!directory.apply_update(1, 2, EntryType::Boolean, double(2.0)));
    assert!(!directory.apply_update(9, 2, EntryType::Double, double(2.0)));
    assert_eq!(directory.get(1).unwrap().seqnum, 1);
    assert_eq!(directory.get(1).unwrap().value, double(1.0));
    assert!(directory.apply_update(1, 2, EntryType::Double, double(2.0)));
    assert_eq!(directory.get(1).unwrap().seqnum, 2);
    assert_eq!(directory.get(1).unwrap().value, double(2.0));
    assert_eq!(directory.get(1).unwrap().flags, 1);
    assert_eq!(directory.get(1).unwrap().name, "/b");
    assert_eq!(ids(&directory), vec![0, 1, 2]);
}

#[test]
fn a_stale_update_is_discarded() {
    let mut directory = Directory::new();
    assert_eq!(
        directory.apply_assignment(
            "/x".to_string(),
            EntryType::Double,
            4,
            10,
            0,
            double(3.5)
        ),
        Assigned::Added
    );
    assert!(!directory.apply_update(4, 9, EntryType::Double, double(1.0)));
    assert_eq!(directory.get(4).unwrap().seqnum, 10);
    assert_eq!(directory.get(4).unwrap().value, double(3.5));
}

#[test]
fn an_update_across_the_wrap_is_taken() {
    let mut directory = Directory::new();
    directory.apply_assignment(
        "/x".to_string(),
        EntryType::Boolean,
        4,
        0xFFFF,
        0,
        EntryValue::Boolean(false),
    );
    assert!(directory.apply_update(4, 0, EntryType::Boolean, EntryValue::Boolean(true)));
    assert_eq!(directory.get(4).unwrap().seqnum, 0);
    assert_eq!(directory.get(4).unwrap().value, EntryValue::Boolean(true));
}

#[test]
fn flags_are_replaced_whatever_they_were() {
    let mut directory = filled();
    assert!(directory.apply_flags_update(0, 0xff));
    assert_eq!(directory.get(0).unwrap().flags, 0xff);
    assert_eq!(directory.get(0).unwrap().seqnum, 1);
    assert!(directory.apply_flags_update(0, 0));
    assert_eq!(directory.get(0).unwrap().flags, 0);
    assert!(!directory.apply_flags_update(9, 1));
    assert_eq!(directory.len(), 3);
}

#[test]
fn delete_removes_the_entry_and_keeps_the_order() {
    let mut directory = filled();
    let removed = directory.apply_delete(1).unwrap();
    assert_eq!(removed.name, "/b");
    assert_eq!(ids(&directory), vec![0, 2]);
    assert_eq!(directory.apply_delete(1), None);
    assert_eq!(ids(&directory), vec![0, 2]);
}

#[test]
fn clear_with_the_magic_number_keeps_the_persistent_entries() {
    let mut directory = Directory::new();
    directory.insert("/e1".to_string(), 0, EntryValue::Boolean(true));
    directory.insert("/e2".to_string(), 1, EntryValue::Boolean(true));
    directory.insert("/e3".to_string(), 2, EntryValue::Boolean(true));
    directory.insert("/e4".to_string(), 3, EntryValue::Boolean(true));
    assert!(!directory.apply_clear(0));
    assert_eq!(ids(&directory), vec![0, 1, 2, 3]);
    assert!(!directory.apply_clear(0xD06CB27B));
    assert_eq!(ids(&directory), vec![0, 1, 2, 3]);
    assert!(directory.apply_clear(0xD06CB27A));
    assert_eq!(ids(&directory), vec![1, 3]);
    assert_eq!(directory.get(1).unwrap().name, "/e2");
    assert_eq!(directory.get(3).unwrap().name, "/e4");
}

#[test]
fn an_assignment_of_an_unknown_name_adds_the_entry() {
    let mut directory = Directory::new();
    assert_eq!(
        directory.apply_assignment("/x".to_string(), EntryType::Double, 4, 7, 1, double(3.5)),
        Assigned::Added
    );
    let entry = directory.get(4).unwrap();
    assert_eq!(entry.name, "/x");
    assert_eq!(entry.seqnum, 7);
    assert_eq!(entry.flags, 1);
    assert_eq!(entry.value, double(3.5));
}

#[test]
fn an_assignment_with_the_unassigned_id_is_ignored() {
    let mut directory = filled();
    assert_eq!(
        directory.apply_assignment(
            "/x".to_string(),
            EntryType::Double,
            0xFFFF,
            1,
            0,
            double(3.5)
        ),
        Assigned::Ignored
    );
    assert_eq!(directory.len(), 3);
    assert!(!directory.contains(0xFFFF));
}

#[test]
fn an_assignment_of_a_known_name_is_an_update() {
    let mut directory = filled();
    assert_eq!(
        directory.apply_assignment("/b".to_string(), EntryType::Double, 1, 2, 0, double(9.0)),
        Assigned::Updated
    );
    let entry = directory.get(1).unwrap();
    assert_eq!(entry.value, double(9.0));
    assert_eq!(entry.seqnum, 2);
    assert_eq!(entry.flags, 1);
    assert_eq!(
        directory.apply_assignment("/b".to_string(), EntryType::Double, 1, 2, 0, double(5.0)),
        Assigned::Ignored
    );
    assert_eq!(
        directory.apply_assignment(
            "/b".to_string(),
            EntryType::Boolean,
            1,
            3,
            0,
            EntryValue::Boolean(true)
        ),
        Assigned::Ignored
    );
    assert_eq!(directory.get(1).unwrap().value, double(9.0));
    assert_eq!(directory.get(1).unwrap().entry_type(), EntryType::Double);
    assert_eq!(directory.len(), 3);
}

#[test]
fn an_assignment_takes_the_place_of_the_entry_that_had_the_id() {
    let mut directory = filled();
    assert_eq!(
        directory.apply_assignment(
            "/new".to_string(),
            EntryType::Boolean,
            1,
            5,
            0,
            EntryValue::Boolean(true)
        ),
        Assigned::Added
    );
    assert_eq!(ids(&directory), vec![0, 1, 2]);
    assert_eq!(directory.get(1).unwrap().name, "/new");
    assert_eq!(directory.id_of(&"/b".to_string()), None);
    assert_eq!(directory.id_of(&"/new".to_string()), Some(1));
}

#[test]
fn the_type_of_a_name_never_changes() {
    let mut directory = filled();
    let before: Vec<(String, EntryType)> = directory
        .snapshot()
        .iter()
        .map(|slot| (slot.data.name.clone(), slot.data.entry_type()))
        .collect();
    directory.apply_update(0, 2, EntryType::Double, double(1.0));
    directory.apply_update(1, 2, EntryType::Double, EntryValue::Boolean(true));
    directory.apply_assignment(
        "/c".to_string(),
        EntryType::RawData,
        2,
        9,
        0,
        EntryValue::RawData(vec![1]),
    );
    directory.apply_flags_update(2, 1);
    directory.apply_clear(0xD06CB27A);
    directory.insert("/z".to_string(), 0, EntryValue::Boolean(true));
    for Slot { data, .. } in directory.snapshot() {
        for (name, ty) in &before {
            if *name == data.name {
                assert_eq!(*ty, data.entry_type());
            }
        }
    }
}

#[test]
fn a_snapshot_is_the_directory_oldest_first() {
    let directory = filled();
    let snapshot = directory.snapshot();
    assert_eq!(snapshot.len(), 3);
    assert_eq!(snapshot[0].id, 0);
    assert_eq!(snapshot[0].data.name, "/a");
    assert_eq!(snapshot[2].data.value, EntryValue::String("x".to_string()));
}

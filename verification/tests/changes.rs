use roaring::RoaringBitmap;
use stalwart_jmap::changes::{checked_section, frame_changes, Change, MergedChanges};
use stalwart_jmap::collection::Collection;
use stalwart_jmap::store::JMAPStore;

fn ids(bitmap: &RoaringBitmap) -> Vec<u32> {
    bitmap.iter().collect()
}

fn change(inserts: &[u32], updates: &[u32], deletes: &[u32]) -> Change {
    Change { inserts: inserts.to_vec(), updates: updates.to_vec(), deletes: deletes.to_vec() }
}

fn bitmap(values: &[u32]) -> RoaringBitmap {
    let mut bitmap = RoaringBitmap::new();
    for value in values {
        bitmap.insert(*value);
    }
    bitmap
}

#[test]
fn insert_then_delete_collapses() {
    let mut store = JMAPStore::new();
    store.set_change(1, Collection::Mail, 1, change(&[5], &[], &[]));
    store.set_change(1, Collection::Mail, 2, change(&[], &[], &[5]));
    let merged = store.merge_changes(1, Collection::Mail, 0, 2);
    assert_eq!(ids(&merged.inserts), Vec::<u32>::new());
    assert_eq!(ids(&merged.updates), Vec::<u32>::new());
    assert_eq!(ids(&merged.deletes), Vec::<u32>::new());
    assert!(merged.is_empty());
}

#[test]
fn update_after_insert_stays_an_insert() {
    let mut store = JMAPStore::new();
    store.set_change(1, Collection::Mail, 1, change(&[7], &[], &[]));
    store.set_change(1, Collection::Mail, 2, change(&[], &[7], &[]));
    let merged = store.merge_changes(1, Collection::Mail, 0, 2);
    assert_eq!(ids(&merged.inserts), vec![7]);
    assert_eq!(ids(&merged.updates), Vec::<u32>::new());
    assert_eq!(ids(&merged.deletes), Vec::<u32>::new());
}

#[test]
fn delete_without_insert_stays_a_delete() {
    let mut store = JMAPStore::new();
    store.set_change(1, Collection::Mail, 1, change(&[], &[3], &[]));
    store.set_change(1, Collection::Mail, 2, change(&[], &[], &[3]));
    let merged = store.merge_changes(1, Collection::Mail, 0, 2);
    assert_eq!(ids(&merged.inserts), Vec::<u32>::new());
    assert_eq!(ids(&merged.updates), Vec::<u32>::new());
    assert_eq!(ids(&merged.deletes), vec![3]);
}

#[test]
fn repeated_updates_collapse_to_one() {
    let mut store = JMAPStore::new();
    store.set_change(1, Collection::Mail, 1, change(&[], &[9], &[]));
    store.set_change(1, Collection::Mail, 2, change(&[], &[9], &[]));
    store.set_change(1, Collection::Mail, 3, change(&[], &[9, 4], &[]));
    let merged = store.merge_changes(1, Collection::Mail, 0, 3);
    assert_eq!(ids(&merged.updates), vec![4, 9]);
    assert_eq!(merged.updates.len(), 2);
}

#[test]
fn delete_then_insert_is_an_insert() {
    let mut store = JMAPStore::new();
    store.set_change(1, Collection::Mail, 1, change(&[], &[], &[8]));
    store.set_change(1, Collection::Mail, 2, change(&[8], &[], &[]));
    let merged = store.merge_changes(1, Collection::Mail, 0, 2);
    assert_eq!(ids(&merged.inserts), vec![8]);
    assert_eq!(ids(&merged.deletes), Vec::<u32>::new());
}

#[test]
fn update_of_a_deleted_document_is_ignored() {
    let mut merged = MergedChanges::new();
    merged.delete(2);
    merged.update(2);
    assert_eq!(ids(&merged.deletes), vec![2]);
    assert_eq!(ids(&merged.updates), Vec::<u32>::new());
}

#[test]
fn merged_sets_are_pairwise_disjoint() {
    let mut store = JMAPStore::new();
    store.set_change(3, Collection::Mailbox, 1, change(&[1, 2, 3], &[4, 5], &[6]));
    store.set_change(3, Collection::Mailbox, 2, change(&[6], &[1, 7], &[2, 4]));
    store.set_change(3, Collection::Mailbox, 3, change(&[4], &[6, 2], &[7, 5, 3]));
    let merged = store.merge_changes(3, Collection::Mailbox, 0, 3);
    assert!(merged.inserts.is_disjoint(&merged.updates));
    assert!(merged.inserts.is_disjoint(&merged.deletes));
    assert!(merged.updates.is_disjoint(&merged.deletes));
    assert_eq!(ids(&merged.inserts), vec![1, 4, 6]);
    assert_eq!(ids(&merged.updates), vec![2]);
    assert_eq!(ids(&merged.deletes), vec![5, 7]);
}

#[test]
fn thread_collection_merges_to_nothing() {
    let mut store = JMAPStore::new();
    store.set_change(1, Collection::Thread, 1, change(&[1, 2], &[3], &[4]));
    store.set_change(1, Collection::Thread, 2, change(&[5], &[1], &[2]));
    let merged = store.merge_changes(1, Collection::Thread, 0, 2);
    assert!(merged.is_empty());
    let between = store.merge_changes_between(1, Collection::Thread, 0, 2);
    assert!(between.is_empty());
}

#[test]
fn merge_range_excludes_its_start_and_includes_its_end() {
    let mut store = JMAPStore::new();
    store.set_change(1, Collection::Mail, 4, change(&[40], &[], &[]));
    store.set_change(1, Collection::Mail, 5, change(&[50], &[], &[]));
    store.set_change(1, Collection::Mail, 6, change(&[60], &[], &[]));
    store.set_change(1, Collection::Mail, 7, change(&[70], &[], &[]));
    let merged = store.merge_changes(1, Collection::Mail, 4, 6);
    assert_eq!(ids(&merged.inserts), vec![50, 60]);
    let between = store.merge_changes_between(1, Collection::Mail, 4, 6);
    assert_eq!(ids(&between.inserts), vec![40, 50, 60]);
}

#[test]
fn merge_from_the_largest_index_is_empty() {
    let mut store = JMAPStore::new();
    store.set_change(1, Collection::Mail, u64::MAX, change(&[1], &[], &[]));
    let merged = store.merge_changes(1, Collection::Mail, u64::MAX, u64::MAX);
    assert!(merged.is_empty());
    let between = store.merge_changes_between(1, Collection::Mail, 0, u64::MAX);
    assert_eq!(ids(&between.inserts), vec![1]);
}

#[test]
fn merge_keeps_to_its_account_and_collection() {
    let mut store = JMAPStore::new();
    store.set_change(1, Collection::Mail, 1, change(&[1], &[], &[]));
    store.set_change(2, Collection::Mail, 1, change(&[2], &[], &[]));
    store.set_change(1, Collection::Mailbox, 1, change(&[3], &[], &[]));
    let merged = store.merge_changes(1, Collection::Mail, 0, 10);
    assert_eq!(ids(&merged.inserts), vec![1]);
}

#[test]
fn a_change_record_is_replaced_by_one_with_its_key() {
    let mut store = JMAPStore::new();
    store.set_change(1, Collection::Mail, 1, change(&[1], &[], &[]));
    store.set_change(1, Collection::Mail, 1, change(&[2], &[], &[]));
    assert_eq!(store.changes.len(), 1);
    let merged = store.merge_changes(1, Collection::Mail, 0, 1);
    assert_eq!(ids(&merged.inserts), vec![2]);
}

#[test]
fn one_record_folds_inserts_then_updates_then_deletes() {
    let mut merged = MergedChanges::new();
    merged.apply(&change(&[1, 2], &[2, 3], &[1, 4]));
    assert_eq!(ids(&merged.inserts), vec![2]);
    assert_eq!(ids(&merged.updates), vec![3]);
    assert_eq!(ids(&merged.deletes), vec![4]);
}

#[test]
fn ids_come_in_increasing_order() {
    let set = bitmap(&[70000, 3, 900, 12]);
    assert_eq!(MergedChanges::ids(&set), vec![3, 12, 900, 70000]);
    assert_eq!(MergedChanges::ids(&RoaringBitmap::new()), Vec::<u32>::new());
}

#[test]
fn serialized_changes_read_back() {
    let changes = MergedChanges {
        inserts: bitmap(&[1, 2, 100000]),
        updates: RoaringBitmap::new(),
        deletes: bitmap(&[7]),
    };
    let bytes = changes.serialize().unwrap();
    let back = MergedChanges::deserialize(&bytes).unwrap();
    assert_eq!(back, changes);
    assert_eq!(ids(&back.inserts), vec![1, 2, 100000]);
    assert!(back.updates.is_empty());
    assert_eq!(ids(&back.deletes), vec![7]);
}

#[test]
fn serialized_changes_frame_three_sections() {
    let changes = MergedChanges {
        inserts: bitmap(&[5]),
        updates: RoaringBitmap::new(),
        deletes: RoaringBitmap::new(),
    };
    let bytes = changes.serialize().unwrap();
    let mut section = Vec::new();
    bitmap(&[5]).serialize_into(&mut section).unwrap();
    let len = section.len() as u32;
    let mut expected = vec![];
    expected.extend_from_slice(&len.to_be_bytes());
    expected.extend_from_slice(&0u32.to_be_bytes());
    expected.extend_from_slice(&0u32.to_be_bytes());
    expected.extend_from_slice(&section);
    assert_eq!(bytes, expected);
    assert_eq!(RoaringBitmap::deserialize_from(&bytes[12..]).unwrap(), bitmap(&[5]));
}

#[test]
fn empty_changes_serialize_to_a_bare_header() {
    let bytes = MergedChanges::new().serialize().unwrap();
    assert_eq!(bytes, vec![0u8; 12]);
    assert!(MergedChanges::deserialize(&bytes).unwrap().is_empty());
}

#[test]
fn broken_bytes_stand_for_no_changes() {
    assert!(MergedChanges::deserialize(&[]).is_none());
    assert!(MergedChanges::deserialize(&[0u8; 11]).is_none());
    assert!(MergedChanges::deserialize(&[0u8; 13]).is_none());
    let mut bytes = vec![0, 0, 0, 3, 0, 0, 0, 0, 0, 0, 0, 0];
    bytes.extend_from_slice(&[1, 2, 3]);
    assert!(MergedChanges::deserialize(&bytes).is_none());
    let mut short = vec![0, 0, 0, 9, 0, 0, 0, 0, 0, 0, 0, 0];
    short.extend_from_slice(&[1, 2, 3]);
    assert!(MergedChanges::deserialize(&short).is_none());
}

#[test]
fn clearing_and_copying_changes() {
    let mut changes = MergedChanges::new();
    changes.insert(1);
    changes.update(2);
    changes.delete(3);
    let copy = changes.duplicate();
    assert_eq!(copy, changes);
    changes.clear();
    assert!(changes.is_empty());
    assert!(!copy.is_empty());
    assert_eq!(ids(&copy.inserts), vec![1]);
    assert_eq!(ids(&copy.updates), vec![2]);
    assert_eq!(ids(&copy.deletes), vec![3]);
}

#[test]
fn sections_are_framed_behind_their_lengths() {
    let bytes = frame_changes(vec![1, 2, 3], vec![], vec![9; 258]).unwrap();
    assert_eq!(bytes.len(), 12 + 3 + 258);
    assert_eq!(&bytes[..12], &[0, 0, 0, 3, 0, 0, 0, 0, 0, 0, 1, 2]);
    assert_eq!(&bytes[12..15], &[1, 2, 3]);
    assert!(bytes[15..].iter().all(|byte| *byte == 9));
    assert_eq!(frame_changes(vec![], vec![], vec![]), Some(vec![0; 12]));
    let long = frame_changes(vec![7; 0x0102_0304], vec![], vec![]).unwrap();
    assert_eq!(&long[..4], &[1, 2, 3, 4]);
}

#[test]
fn a_section_is_the_serialized_form_unless_it_is_missing_or_empty() {
    assert_eq!(checked_section(Some(vec![1, 2, 3])), Some(vec![1, 2, 3]));
    assert_eq!(checked_section(Some(vec![0])), Some(vec![0]));
    assert_eq!(checked_section(Some(vec![])), None);
    assert_eq!(checked_section(None), None);
}

#[test]
fn changes_with_ids_serialize() {
    let mut changes = MergedChanges::new();
    for id in 0..70000 {
        changes.insert(id);
    }
    changes.update(1 << 20);
    changes.delete(u32::MAX);
    let bytes = changes.serialize().unwrap();
    assert_eq!(MergedChanges::deserialize(&bytes), Some(changes.clone()));
    let inserts_len = u32::from_be_bytes([bytes[0], bytes[1], bytes[2], bytes[3]]) as usize;
    assert_eq!(inserts_len, changes.inserts.serialized_size());
    let only_deletes = MergedChanges {
        inserts: RoaringBitmap::new(),
        updates: RoaringBitmap::new(),
        deletes: bitmap(&[7]),
    };
    let bytes = only_deletes.serialize().unwrap();
    assert_eq!(&bytes[..8], &[0, 0, 0, 0, 0, 0, 0, 0]);
    assert_eq!(bytes.len(), 12 + only_deletes.deletes.serialized_size());
}

#[test]
fn changes_tell_whether_their_sets_share_an_id() {
    assert!(MergedChanges::new().is_disjoint());
    let disjoint = MergedChanges {
        inserts: bitmap(&[1, 2]),
        updates: bitmap(&[3]),
        deletes: bitmap(&[4, 5]),
    };
    assert!(disjoint.is_disjoint());
    for (inserts, updates, deletes) in [
        (vec![1, 2], vec![2], vec![4]),
        (vec![1, 2], vec![3], vec![1]),
        (vec![1], vec![3, 9], vec![9]),
    ] {
        let shared = MergedChanges {
            inserts: bitmap(&inserts),
            updates: bitmap(&updates),
            deletes: bitmap(&deletes),
        };
        assert!(!shared.is_disjoint());
    }
}

use stalwart_jmap::collection::{Collection, Collections};
use stalwart_jmap::raft::RaftId;
use stalwart_jmap::table::{Key, KeyPart, Table};

#[test]
fn collection_numbers_read_back() {
    let all = [
        Collection::Principal,
        Collection::PushSubscription,
        Collection::Mail,
        Collection::Mailbox,
        Collection::Thread,
        Collection::Identity,
        Collection::EmailSubmission,
        Collection::VacationResponse,
        Collection::SieveScript,
    ];
    for (number, collection) in all.iter().enumerate() {
        assert_eq!(collection.id() as usize, number);
        assert_eq!(Collection::from_id(number as u8), Some(*collection));
    }
    assert_eq!(Collection::from_id(9), None);
    assert_eq!(Collection::from_id(255), None);
}

#[test]
fn collections_pop_the_highest_first() {
    let mut set = Collections::new();
    assert!(set.is_empty());
    set.insert(Collection::Mail);
    set.insert(Collection::SieveScript);
    set.insert(Collection::Principal);
    set.insert(Collection::Mail);
    assert!(set.contains(Collection::Mail));
    assert!(!set.contains(Collection::Thread));
    assert_eq!(set.bits, 0b1_0000_0101);
    assert_eq!(set.pop(), Some(Collection::SieveScript));
    assert_eq!(set.pop(), Some(Collection::Mail));
    assert_eq!(set.pop(), Some(Collection::Principal));
    assert_eq!(set.pop(), None);
    assert!(set.is_empty());
}

#[test]
fn collections_union_and_remove() {
    let mut a = Collections::new();
    a.insert(Collection::Mail);
    let mut b = Collections::new();
    b.insert(Collection::Mailbox);
    b.insert(Collection::Mail);
    a.union(&b);
    assert!(a.contains(Collection::Mail) && a.contains(Collection::Mailbox));
    a.remove(Collection::Mail);
    assert!(!a.contains(Collection::Mail));
    a.remove(Collection::Mail);
    assert_eq!(a, {
        let mut only = Collections::new();
        only.insert(Collection::Mailbox);
        only
    });
}

#[test]
fn raft_ids_order_by_term_then_index() {
    assert!(RaftId::new(1, 9).precedes(&RaftId::new(2, 0)));
    assert!(RaftId::new(1, 1).precedes(&RaftId::new(1, 2)));
    assert!(!RaftId::new(1, 2).precedes(&RaftId::new(1, 2)));
    assert!(!RaftId::new(2, 0).precedes(&RaftId::new(1, 9)));
    assert!(RaftId::new(u64::MAX, u64::MAX - 1).precedes(&RaftId::none()));
    assert!(RaftId::none().is_none());
    assert!(!RaftId::new(u64::MAX, 0).is_none());
    assert!(!RaftId::new(0, u64::MAX).is_none());
    assert_eq!(RaftId::from_key(RaftId::new(3, 4).key()), RaftId::new(3, 4));
    assert_eq!(RaftId::new(3, 4).key(), Key { major: 3, minor: 4, tail: 0 });
}

fn key(major: u64, minor: u64, tail: u64) -> Key {
    Key { major, minor, tail }
}

#[test]
fn table_keeps_rows_in_key_order() {
    let mut table: Table<u32> = Table::new();
    table.set(key(2, 0, 0), 20);
    table.set(key(1, 5, 0), 15);
    table.set(key(1, 5, 1), 16);
    table.set(key(0, 9, 9), 9);
    table.set(key(1, 5, 0), 17);
    assert_eq!(table.len(), 4);
    let keys: Vec<Key> = (0..table.len()).map(|i| table.row(i).key).collect();
    assert_eq!(keys, vec![key(0, 9, 9), key(1, 5, 0), key(1, 5, 1), key(2, 0, 0)]);
    assert_eq!(table.get(key(1, 5, 0)), Some(&17));
    assert_eq!(table.get(key(1, 5, 2)), None);
    assert_eq!(table.lower_bound(key(1, 5, 1)), 2);
    assert_eq!(table.lower_bound(key(1, 6, 0)), 3);
    assert_eq!(table.lower_bound(key(9, 0, 0)), 4);
    assert_eq!(table.find(key(2, 0, 0)), Some(3));
    assert_eq!(table.find(key(2, 0, 1)), None);
    assert_eq!(table.remove(key(1, 5, 1)), Some(16));
    assert_eq!(table.remove(key(1, 5, 1)), None);
    assert_eq!(table.len(), 3);
    assert!(key(1, 5, 0).precedes(&key(1, 5, 1)));
    assert!(!key(1, 5, 1).precedes(&key(1, 5, 1)));
}

#[test]
fn table_retains_rows_within_a_limit() {
    let mut table: Table<u32> = Table::new();
    table.set(key(1, 10, 3), 1);
    table.set(key(1, 20, 1), 2);
    table.set(key(2, 5, 2), 3);
    table.set(key(3, 30, 0), 4);
    let mut by_minor = table.clone();
    by_minor.retain_upto(KeyPart::Minor, 10);
    let kept: Vec<u32> = (0..by_minor.len()).map(|i| by_minor.row(i).value).collect();
    assert_eq!(kept, vec![1, 3]);
    let mut by_tail = table.clone();
    by_tail.retain_upto(KeyPart::Tail, 1);
    let kept: Vec<u32> = (0..by_tail.len()).map(|i| by_tail.row(i).value).collect();
    assert_eq!(kept, vec![2, 4]);
    table.truncate(1);
    assert_eq!(table.len(), 1);
    table.clear();
    assert!(table.is_empty());
    assert_eq!(key(1, 2, 3).part(KeyPart::Major), 1);
    assert_eq!(key(1, 2, 3).part(KeyPart::Minor), 2);
    assert_eq!(key(1, 2, 3).part(KeyPart::Tail), 3);
}

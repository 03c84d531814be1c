use stalwart_jmap::cluster::applier::{collect_document_updates, JMAPStoreRaftUpdates};
use stalwart_jmap::cluster::log::{DocumentUpdate, Update};
use stalwart_jmap::cluster::pending::{pending_key, PendingUpdate, PendingUpdates};
use stalwart_jmap::collection::{Collection, Collections};
use stalwart_jmap::document::{document_key, Document, Mailbox, Tag, WriteBatch};
use stalwart_jmap::raft::{Entry, RaftId, SnapshotGroup};
use stalwart_jmap::store::{JMAPStore, StoreError};
use stalwart_jmap::changes::Change;

fn insert_mail(account_id: u32, document_id: u32, raw: &[u8]) -> PendingUpdate {
    PendingUpdate::UpdateDocument {
        account_id,
        document_id,
        update: DocumentUpdate::InsertMail {
            thread_id: document_id + 100,
            keywords: vec![Tag::Static(1)],
            mailboxes: vec![Tag::Id(7)],
            received_at: 1234,
            body: lz4_flex::compress_prepend_size(raw),
        },
    }
}

fn update_mail(account_id: u32, document_id: u32, thread_id: u32) -> PendingUpdate {
    PendingUpdate::UpdateDocument {
        account_id,
        document_id,
        update: DocumentUpdate::UpdateMail {
            thread_id,
            keywords: vec![Tag::Text("later".to_string())],
            mailboxes: vec![Tag::Id(8), Tag::Id(9)],
        },
    }
}

fn delete(account_id: u32, ids: &[u32]) -> PendingUpdate {
    PendingUpdate::DeleteDocuments {
        account_id,
        collection: Collection::Mail,
        document_ids: ids.to_vec(),
    }
}

fn inserted(document_id: u32, raw: &[u8]) -> Document {
    Document::Mail {
        thread_id: document_id + 100,
        mailboxes: vec![Tag::Id(7)],
        keywords: vec![Tag::Static(1)],
        received_at: 1234,
        message: raw.to_vec(),
    }
}

fn item(account_id: u32) -> Entry {
    let mut changed_collections = Collections::new();
    changed_collections.insert(Collection::Mail);
    Entry::Item { account_id, changed_collections }
}

#[test]
fn pending_updates_hold_what_they_are_made_of() {
    let updates = vec![delete(1, &[1, 2]), update_mail(1, 3, 4)];
    let batch = PendingUpdates::new(updates.clone());
    assert_eq!(batch.updates, updates);
    assert_eq!(PendingUpdates::new(vec![]).updates, vec![]);
}

#[test]
fn a_document_update_becomes_one_operation_of_the_batch() {
    let store = JMAPStore::new();
    let mut batch = WriteBatch::new(3);
    let raw = b"From: a@b\r\n\r\nhello hello hello hello".to_vec();
    let update = DocumentUpdate::InsertMail {
        thread_id: 11,
        keywords: vec![Tag::Static(0)],
        mailboxes: vec![Tag::Id(2)],
        received_at: 99,
        body: lz4_flex::compress_prepend_size(&raw),
    };
    assert_eq!(store.apply_document_update(3, 5, update, &mut batch), Ok(()));
    let update =
        DocumentUpdate::UpdateMail { thread_id: 12, keywords: vec![], mailboxes: vec![Tag::Id(3)] };
    assert_eq!(store.apply_document_update(3, 6, update, &mut batch), Ok(()));
    let mailbox = Mailbox { name: "Archive".to_string(), parent_id: 1, sort_order: 4 };
    let update = DocumentUpdate::UpdateMailbox { mailbox: mailbox.clone() };
    assert_eq!(store.apply_document_update(3, 7, update, &mut batch), Ok(()));
    let mut expected = WriteBatch::new(3);
    expected.insert_document(
        Collection::Mail,
        5,
        Document::Mail {
            thread_id: 11,
            mailboxes: vec![Tag::Id(2)],
            keywords: vec![Tag::Static(0)],
            received_at: 99,
            message: raw,
        },
    );
    expected.tag_document(6, 12, vec![Tag::Id(3)], vec![]);
    expected.insert_document(Collection::Mailbox, 7, Document::Mailbox { mailbox });
    assert_eq!(batch, expected);
}

#[test]
fn a_body_that_does_not_decompress_is_an_error() {
    let store = JMAPStore::new();
    let mut batch = WriteBatch::new(3);
    let update = DocumentUpdate::InsertMail {
        thread_id: 11,
        keywords: vec![],
        mailboxes: vec![],
        received_at: 99,
        body: vec![200, 0, 0, 0, 1, 2, 3],
    };
    assert_eq!(
        store.apply_document_update(3, 5, update, &mut batch),
        Err(StoreError::Decompress)
    );
    assert!(batch.is_empty());
    let update = DocumentUpdate::InsertMail {
        thread_id: 11,
        keywords: vec![],
        mailboxes: vec![],
        received_at: 99,
        body: vec![1, 2],
    };
    assert_eq!(
        store.apply_document_update(3, 5, update, &mut batch),
        Err(StoreError::Decompress)
    );
}

#[test]
fn the_decompressed_body_is_not_the_compressed_one() {
    let mut store = JMAPStore::new();
    let raw = vec![b'a'; 500];
    let compressed = lz4_flex::compress_prepend_size(&raw);
    assert_ne!(compressed, raw);
    store.apply_updates(&vec![insert_mail(1, 1, &raw)]).unwrap();
    assert_eq!(
        store.documents.get(document_key(1, Collection::Mail, 1)),
        Some(&inserted(1, &raw))
    );
}

#[test]
fn updates_of_several_accounts_are_applied_in_order() {
    let mut store = JMAPStore::new();
    let updates = vec![
        insert_mail(1, 1, b"first"),
        insert_mail(1, 2, b"second"),
        insert_mail(2, 1, b"other account"),
        delete(1, &[1]),
        update_mail(1, 2, 77),
        update_mail(1, 1, 78),
        insert_mail(2, 1, b"other account, again"),
    ];
    assert_eq!(store.apply_updates(&updates), Ok(()));
    assert_eq!(store.documents.len(), 2);
    assert_eq!(
        store.documents.get(document_key(1, Collection::Mail, 2)),
        Some(&Document::Mail {
            thread_id: 77,
            mailboxes: vec![Tag::Id(8), Tag::Id(9)],
            keywords: vec![Tag::Text("later".to_string())],
            received_at: 1234,
            message: b"second".to_vec(),
        })
    );
    assert_eq!(
        store.documents.get(document_key(2, Collection::Mail, 1)),
        Some(&inserted(1, b"other account, again"))
    );
}

#[test]
fn applying_a_batch_twice_is_applying_it_once() {
    let batch = vec![
        insert_mail(1, 1, b"first"),
        update_mail(1, 1, 5),
        update_mail(1, 9, 5),
        insert_mail(1, 2, b"second"),
        delete(1, &[2, 3]),
        insert_mail(2, 3, b"third"),
        PendingUpdate::UpdateDocument {
            account_id: 2,
            document_id: 4,
            update: DocumentUpdate::UpdateMailbox {
                mailbox: Mailbox { name: "Sent".to_string(), parent_id: 0, sort_order: 2 },
            },
        },
    ];
    let mut start = JMAPStore::new();
    start.apply_updates(&vec![insert_mail(1, 3, b"there before"), insert_mail(1, 9, b"too")])
        .unwrap();
    let mut once = start.clone();
    once.apply_updates(&batch).unwrap();
    let mut twice = once.clone();
    twice.apply_updates(&batch).unwrap();
    assert_eq!(twice.documents, once.documents);
    assert_ne!(once.documents, start.documents);
    assert_eq!(once.documents.len(), 4);
}

#[test]
fn staged_updates_are_applied_up_to_an_index() {
    let mut store = JMAPStore::new();
    store.stage(1, vec![insert_mail(1, 1, b"one")]).unwrap();
    store.stage(2, vec![insert_mail(1, 2, b"two")]).unwrap();
    store.stage(2, vec![delete(1, &[1])]).unwrap();
    store.stage(3, vec![insert_mail(1, 3, b"three")]).unwrap();
    assert_eq!(store.apply_pending_updates(2, false), Ok(true));
    assert_eq!(store.last_applied, Some(2));
    assert_eq!(store.pending.len(), 1);
    assert_eq!(store.pending.row(0).key, pending_key(3, 3));
    assert_eq!(store.documents.len(), 1);
    assert_eq!(
        store.documents.get(document_key(1, Collection::Mail, 2)),
        Some(&inserted(2, b"two"))
    );
    assert_eq!(store.apply_pending_updates(u64::MAX, false), Ok(true));
    assert_eq!(store.pending.len(), 1);
    assert_eq!(store.apply_pending_updates(3, false), Ok(true));
    assert!(store.pending.is_empty());
    assert_eq!(store.documents.len(), 2);
    assert_eq!(store.last_applied, Some(3));
}

#[test]
fn nothing_is_applied_without_an_index_or_a_marker() {
    let mut store = JMAPStore::new();
    store.stage(1, vec![insert_mail(1, 1, b"one")]).unwrap();
    let before = store.clone();
    assert_eq!(store.apply_pending_updates(u64::MAX, false), Ok(false));
    assert_eq!(store, before);
    assert_eq!(store.apply_pending_updates(u64::MAX, true), Ok(false));
    assert_eq!(store, before);
}

#[test]
fn a_reset_discards_what_lies_beyond_the_marker() {
    let mut store = JMAPStore::new();
    for (term, index) in [(1, 1), (1, 2), (2, 3), (2, 4)] {
        store.set_log(RaftId::new(term, index), item(1));
        store.set_change(
            1,
            Collection::Mail,
            index,
            Change { inserts: vec![index as u32], updates: vec![], deletes: vec![] },
        );
    }
    store.stage(2, vec![insert_mail(1, 2, b"two")]).unwrap();
    store.stage(3, vec![insert_mail(1, 3, b"three")]).unwrap();
    store.stage(4, vec![insert_mail(1, 4, b"four")]).unwrap();
    store.last_applied = Some(2);
    assert_eq!(store.apply_pending_updates(u64::MAX, true), Ok(true));
    assert!(store.pending.is_empty());
    assert_eq!(store.last_applied, None);
    assert_eq!(store.documents.len(), 1);
    assert!(store.documents.get(document_key(1, Collection::Mail, 2)).is_some());
    assert_eq!(store.log.len(), 2);
    assert_eq!(store.get_last_log(), Some(RaftId::new(1, 2)));
    assert_eq!(store.changes.len(), 2);
}

#[test]
fn a_reset_without_an_applied_index_discards_everything_staged_and_logged() {
    let mut store = JMAPStore::new();
    store.set_log(RaftId::new(1, 1), item(1));
    store.set_change(
        1,
        Collection::Mail,
        1,
        Change { inserts: vec![1], updates: vec![], deletes: vec![] },
    );
    store.stage(1, vec![insert_mail(1, 1, b"one")]).unwrap();
    store.last_applied = Some(u64::MAX);
    assert_eq!(store.apply_pending_updates(u64::MAX, true), Ok(true));
    assert!(store.pending.is_empty());
    assert!(store.log.is_empty());
    assert!(store.changes.is_empty());
    assert!(store.documents.is_empty());
    assert_eq!(store.last_applied, None);
}

#[test]
fn a_staged_body_that_does_not_decompress_stops_the_apply() {
    let mut store = JMAPStore::new();
    store.stage(1, vec![insert_mail(1, 1, b"one")]).unwrap();
    store
        .stage(
            2,
            vec![PendingUpdate::UpdateDocument {
                account_id: 1,
                document_id: 2,
                update: DocumentUpdate::InsertMail {
                    thread_id: 1,
                    keywords: vec![],
                    mailboxes: vec![],
                    received_at: 0,
                    body: vec![9, 9, 9],
                },
            }],
        )
        .unwrap();
    store.stage(3, vec![insert_mail(1, 3, b"three")]).unwrap();
    assert_eq!(store.apply_pending_updates(3, false), Err(StoreError::Decompress));
    assert_eq!(store.last_applied, Some(3));
    assert_eq!(store.documents.len(), 1);
    assert_eq!(
        store.documents.get(document_key(1, Collection::Mail, 1)),
        Some(&inserted(1, b"one"))
    );
    assert_eq!(store.pending.len(), 2);
    assert_eq!(store.pending.row(0).key, pending_key(2, 1));
    assert_eq!(store.pending.row(1).key, pending_key(3, 2));
    assert!(store.check());
    assert_eq!(store.apply_pending_updates(3, false), Err(StoreError::Decompress));
    assert_eq!(store.pending.len(), 2);
    assert_eq!(store.apply_pending_updates(1, false), Ok(true));
    assert_eq!(store.pending.len(), 2);
}

#[test]
fn a_batch_with_a_broken_body_changes_nothing() {
    let mut store = JMAPStore::new();
    store.apply_updates(&vec![insert_mail(1, 1, b"one")]).unwrap();
    let before = store.clone();
    let broken = PendingUpdate::UpdateDocument {
        account_id: 2,
        document_id: 2,
        update: DocumentUpdate::InsertMail {
            thread_id: 1,
            keywords: vec![],
            mailboxes: vec![],
            received_at: 0,
            body: vec![0, 0],
        },
    };
    let batch = vec![insert_mail(1, 7, b"seven"), delete(1, &[1]), broken, delete(3, &[1])];
    assert_eq!(store.apply_updates(&batch), Err(StoreError::Decompress));
    assert_eq!(store, before);
}

#[test]
fn rollback_updates_are_applied_and_their_end_is_reported() {
    let raw = b"rolled back".to_vec();
    let document = |document_id: u32| Update::Document {
        account_id: 4,
        document_id,
        update: DocumentUpdate::InsertMail {
            thread_id: 1,
            keywords: vec![],
            mailboxes: vec![],
            received_at: 5,
            body: lz4_flex::compress_prepend_size(&raw),
        },
    };
    let mut store = JMAPStore::new();
    assert_eq!(store.apply_rollback_updates(vec![document(1), document(2)]), Ok(false));
    assert_eq!(store.documents.len(), 2);
    assert_eq!(store.apply_rollback_updates(vec![document(3), Update::Eof]), Ok(true));
    assert_eq!(store.documents.len(), 3);
    assert_eq!(store.apply_rollback_updates(vec![]), Ok(false));
    assert_eq!(store.apply_rollback_updates(vec![Update::Eof]), Ok(true));
    let log = Update::Log { raft_id: RaftId::new(1, 1), log: item(1) };
    assert_eq!(store.apply_rollback_updates(vec![log]), Ok(false));
    assert!(store.log.is_empty());
    assert_eq!(store.documents.len(), 3);
}

#[test]
fn documents_are_picked_out_of_a_stream() {
    let mailbox = Mailbox { name: "Inbox".to_string(), parent_id: 0, sort_order: 0 };
    let update = DocumentUpdate::UpdateMailbox { mailbox };
    let stream = vec![
        Update::Log { raft_id: RaftId::new(1, 1), log: item(1) },
        Update::Document { account_id: 1, document_id: 2, update: update.clone() },
        Update::Eof,
        Update::Document { account_id: 3, document_id: 4, update: update.clone() },
    ];
    let (documents, is_done) = collect_document_updates(stream);
    assert!(is_done);
    assert_eq!(
        documents,
        vec![
            PendingUpdate::UpdateDocument { account_id: 1, document_id: 2, update: update.clone() },
            PendingUpdate::UpdateDocument { account_id: 3, document_id: 4, update },
        ]
    );
    let (documents, is_done) = collect_document_updates(vec![]);
    assert!(!is_done);
    assert!(documents.is_empty());
}

#[test]
fn a_reset_drops_the_change_records_that_discarded_entries_list() {
    let record = |id: u32| Change { inserts: vec![id], updates: vec![], deletes: vec![] };
    let mut store = JMAPStore::new();
    store.set_log(RaftId::new(1, 1), item(1));
    store.set_log(RaftId::new(1, 2), item(1));
    let mut both = Collections::new();
    both.insert(Collection::Mail);
    both.insert(Collection::Mailbox);
    let mut threads = Collections::new();
    threads.insert(Collection::Thread);
    store.set_log(
        RaftId::new(2, 3),
        Entry::Snapshot {
            changed_accounts: vec![
                SnapshotGroup { collections: both, account_ids: vec![1, 2] },
                SnapshotGroup { collections: threads, account_ids: vec![3] },
            ],
        },
    );
    for (account_id, collection, index) in [
        (1, Collection::Mail, 1),
        (1, Collection::Mail, 2),
        (1, Collection::Mailbox, 2),
        (1, Collection::Mail, 3),
        (1, Collection::Mailbox, 3),
        (2, Collection::Mail, 3),
        (2, Collection::Thread, 3),
        (3, Collection::Thread, 3),
        (3, Collection::Mail, 3),
        (1, Collection::Mail, 4),
    ] {
        store.set_change(account_id, collection, index, record(index as u32));
    }
    store.last_applied = Some(1);
    assert_eq!(store.apply_pending_updates(u64::MAX, true), Ok(true));
    assert_eq!(store.log.len(), 1);
    let left: Vec<(u64, u64, u64)> = (0..store.changes.len())
        .map(|i| {
            let key = store.changes.row(i).key;
            (key.major, key.minor, key.tail)
        })
        .collect();
    assert_eq!(
        left,
        vec![
            (1, Collection::Mail.id() as u64, 1),
            (1, Collection::Mail.id() as u64, 4),
            (1, Collection::Mailbox.id() as u64, 2),
            (2, Collection::Thread.id() as u64, 3),
            (3, Collection::Mail.id() as u64, 3),
        ]
    );
}

#[test]
fn a_batch_staged_and_applied_again_changes_nothing() {
    let batch = vec![
        insert_mail(1, 1, b"first"),
        update_mail(1, 1, 5),
        insert_mail(1, 2, b"second"),
        delete(1, &[2, 3]),
    ];
    let mut store = JMAPStore::new();
    store.apply_updates(&vec![insert_mail(1, 3, b"there before")]).unwrap();
    store.stage(4, batch.clone()).unwrap();
    assert_eq!(store.apply_pending_updates(7, false), Ok(true));
    assert!(store.pending.is_empty());
    let once = store.clone();
    assert_eq!(once.documents.len(), 1);
    store.stage(4, batch).unwrap();
    assert_eq!(store.pending.len(), 1);
    assert_eq!(store.apply_pending_updates(7, false), Ok(true));
    assert!(store.pending.is_empty());
    assert_eq!(store.documents, once.documents);
    assert_eq!(store.last_applied, once.last_applied);
}

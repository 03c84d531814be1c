use roaring::{RoaringBitmap, RoaringTreemap};
use stalwart_jmap::changes::{Change, MergedChanges};
use stalwart_jmap::cluster::append::mark_changed;
use stalwart_jmap::cluster::follower::{
    is_defined, synchronize_reply, update_reply, FollowerError, JMAPServer, State,
};
use stalwart_jmap::cluster::log::{
    AppendEntriesRequest, AppendEntriesResponse, DocumentUpdate, Update,
};
use stalwart_jmap::collection::{Collection, Collections};
use stalwart_jmap::document::{document_key, Document, Tag, WriteBatch};
use stalwart_jmap::raft::{Entry, RaftId};
use stalwart_jmap::store::StoreError;

fn item(account_id: u32, collection: Collection) -> Entry {
    let mut changed_collections = Collections::new();
    changed_collections.insert(collection);
    Entry::Item { account_id, changed_collections }
}

fn log(term: u64, index: u64) -> Update {
    Update::Log { raft_id: RaftId::new(term, index), log: item(1, Collection::Mail) }
}

fn change(
    account_id: u32,
    collection: Collection,
    inserts: &[u32],
    updates: &[u32],
    deletes: &[u32],
) -> Update {
    Update::Change {
        account_id,
        collection,
        change: Change {
            inserts: inserts.to_vec(),
            updates: updates.to_vec(),
            deletes: deletes.to_vec(),
        },
    }
}

fn insert_mail(account_id: u32, document_id: u32, raw: &[u8]) -> Update {
    Update::Document {
        account_id,
        document_id,
        update: DocumentUpdate::InsertMail {
            thread_id: 1,
            keywords: vec![],
            mailboxes: vec![Tag::Id(1)],
            received_at: 10,
            body: lz4_flex::compress_prepend_size(raw),
        },
    }
}

fn mail(raw: &[u8]) -> Document {
    Document::Mail {
        thread_id: 1,
        mailboxes: vec![Tag::Id(1)],
        keywords: vec![],
        received_at: 10,
        message: raw.to_vec(),
    }
}

fn server_with_log(ids: &[(u64, u64)]) -> JMAPServer {
    let mut server = JMAPServer::new();
    for (term, index) in ids {
        server.store.set_log(RaftId::new(*term, *index), item(1, Collection::Mail));
    }
    server
}

fn server_with_documents(account_id: u32, ids: &[u32]) -> JMAPServer {
    let mut server = JMAPServer::new();
    let mut batch = WriteBatch::new(account_id);
    for id in ids {
        batch.insert_document(Collection::Mail, *id, mail(b"there"));
    }
    server.store.write(batch);
    server
}

fn bitmap(values: &[u32]) -> RoaringBitmap {
    let mut bitmap = RoaringBitmap::new();
    for value in values {
        bitmap.insert(*value);
    }
    bitmap
}

fn changes(inserts: &[u32], updates: &[u32], deletes: &[u32]) -> MergedChanges {
    MergedChanges { inserts: bitmap(inserts), updates: bitmap(updates), deletes: bitmap(deletes) }
}

fn update(commit_index: u64, updates: Vec<Update>) -> AppendEntriesRequest {
    AppendEntriesRequest::Update { commit_index, updates }
}

fn asked_changes(response: &AppendEntriesResponse) -> (u32, Collection, MergedChanges) {
    match response {
        AppendEntriesResponse::Update { account_id, collection, changes } => {
            (*account_id, *collection, MergedChanges::deserialize(changes).unwrap())
        }
        other => panic!("not a request for updates: {:?}", other),
    }
}

#[test]
fn match_replies_with_the_leaders_position_when_it_is_held() {
    let mut server = server_with_log(&[(1, 1), (1, 2), (2, 3)]);
    let response = server.handle_match_log(RaftId::new(1, 2));
    assert_eq!(response, AppendEntriesResponse::Match { match_log: RaftId::new(1, 2) });
    assert!(server.is_up_to_date());
}

#[test]
fn match_replies_with_the_newest_position_when_the_leader_is_ahead() {
    let mut server = server_with_log(&[(1, 1), (1, 2), (2, 3)]);
    server.set_up_to_date(true);
    let response = server.handle_match_log(RaftId::new(3, 9));
    assert_eq!(response, AppendEntriesResponse::Match { match_log: RaftId::new(2, 3) });
    assert!(!server.is_up_to_date());
}

#[test]
fn match_replies_with_the_position_before_one_that_is_not_held() {
    let mut server = server_with_log(&[(1, 1), (1, 2), (2, 3)]);
    let response = server.handle_match_log(RaftId::new(2, 1));
    assert_eq!(response, AppendEntriesResponse::Match { match_log: RaftId::new(1, 2) });
    assert!(!server.is_up_to_date());
}

#[test]
fn match_of_two_empty_logs_is_up_to_date() {
    let mut server = JMAPServer::new();
    assert!(!server.is_up_to_date());
    let response = server.handle_match_log(RaftId::none());
    assert_eq!(response, AppendEntriesResponse::Match { match_log: RaftId::none() });
    assert!(server.is_up_to_date());
}

#[test]
fn match_below_every_position_replies_none_and_leaves_the_flag() {
    let mut server = server_with_log(&[(2, 3)]);
    let response = server.handle_match_log(RaftId::new(1, 9));
    assert_eq!(response, AppendEntriesResponse::Match { match_log: RaftId::none() });
    assert!(!server.is_up_to_date());
    server.set_up_to_date(true);
    server.handle_match_log(RaftId::new(1, 9));
    assert!(server.is_up_to_date());
}

#[test]
fn match_through_a_step_stays_in_synchronize() {
    let mut server = server_with_log(&[(1, 1), (1, 2), (2, 3)]);
    let request = AppendEntriesRequest::Match { last_log: RaftId::new(3, 9) };
    let (state, response) = server.step(State::Synchronize, request).unwrap();
    assert_eq!(state, State::Synchronize);
    assert_eq!(response, AppendEntriesResponse::Match { match_log: RaftId::new(2, 3) });
}

#[test]
fn synchronize_with_an_empty_list_is_a_violation() {
    let server = server_with_log(&[(1, 1)]);
    assert_eq!(server.handle_synchronize_log(vec![]), Err(FollowerError::EmptyMatchTerms));
    let mut server = server;
    let request = AppendEntriesRequest::Synchronize { match_terms: vec![] };
    assert_eq!(server.step(State::Synchronize, request), Err(FollowerError::EmptyMatchTerms));
}

#[test]
fn synchronize_replies_with_the_indexes_of_the_last_agreed_term() {
    let server = server_with_log(&[(1, 1), (1, 2), (2, 3), (2, 4), (3, 5)]);
    let remote = vec![RaftId::new(1, 1), RaftId::new(2, 3), RaftId::new(4, 5)];
    match server.handle_synchronize_log(remote).unwrap() {
        AppendEntriesResponse::Synchronize { match_indexes } => {
            let indexes = RoaringTreemap::deserialize_from(&match_indexes[..]).unwrap();
            assert_eq!(indexes.iter().collect::<Vec<u64>>(), vec![3, 4]);
        }
        other => panic!("unexpected response {:?}", other),
    }
    let remote = vec![RaftId::new(1, 1)];
    match server.handle_synchronize_log(remote).unwrap() {
        AppendEntriesResponse::Synchronize { match_indexes } => {
            let indexes = RoaringTreemap::deserialize_from(&match_indexes[..]).unwrap();
            assert_eq!(indexes.iter().collect::<Vec<u64>>(), vec![1, 2]);
        }
        other => panic!("unexpected response {:?}", other),
    }
}

#[test]
fn synchronize_without_agreement_replies_with_no_bytes() {
    let server = server_with_log(&[(1, 1), (2, 3)]);
    let remote = vec![RaftId::new(1, 2), RaftId::new(2, 3)];
    assert_eq!(
        server.handle_synchronize_log(remote),
        Ok(AppendEntriesResponse::Synchronize { match_indexes: vec![] })
    );
    let empty = JMAPServer::new();
    assert_eq!(
        empty.handle_synchronize_log(vec![RaftId::new(1, 1)]),
        Ok(AppendEntriesResponse::Synchronize { match_indexes: vec![] })
    );
}

#[test]
fn replies_wrap_what_serializing_gave() {
    assert_eq!(
        synchronize_reply(Some(vec![1, 2])),
        Ok(AppendEntriesResponse::Synchronize { match_indexes: vec![1, 2] })
    );
    assert_eq!(synchronize_reply(None), Err(FollowerError::Serialize));
    assert_eq!(
        update_reply(3, Collection::Mailbox, Some(vec![9])),
        Ok(AppendEntriesResponse::Update {
            account_id: 3,
            collection: Collection::Mailbox,
            changes: vec![9]
        })
    );
    assert_eq!(update_reply(3, Collection::Mailbox, None), Err(FollowerError::Serialize));
}

#[test]
fn changed_collections_are_marked_per_account() {
    let mut changed = Vec::new();
    mark_changed(&mut changed, 5, Collection::Mail);
    mark_changed(&mut changed, 6, Collection::Mailbox);
    mark_changed(&mut changed, 5, Collection::Thread);
    mark_changed(&mut changed, 5, Collection::Mail);
    assert_eq!(changed.len(), 2);
    assert_eq!(changed[0].0, 5);
    assert!(changed[0].1.contains(Collection::Mail) && changed[0].1.contains(Collection::Thread));
    assert_eq!(changed[1].0, 6);
    assert!(changed[1].1.contains(Collection::Mailbox));
    assert!(!changed[1].1.contains(Collection::Mail));
}

#[test]
fn an_unfinished_stream_of_entries_waits_for_more() {
    let mut server = JMAPServer::new();
    server.set_up_to_date(true);
    let request = update(9, vec![log(1, 1), change(1, Collection::Mail, &[10], &[], &[])]);
    let (state, response) = server.step(State::Synchronize, request).unwrap();
    assert_eq!(response, AppendEntriesResponse::Continue);
    assert!(!server.is_up_to_date());
    let mut mail_only = Collections::new();
    mail_only.insert(Collection::Mail);
    assert_eq!(
        state,
        State::AppendEntries {
            first_id: RaftId::new(1, 1),
            last_id: RaftId::new(1, 1),
            changed_accounts: vec![(1, mail_only)],
        }
    );
    assert!(server.store.contains_raft_id(RaftId::new(1, 1)));
    let request = update(9, vec![log(1, 2), change(2, Collection::Mailbox, &[], &[], &[4])]);
    let (state, response) = server.step(state, request).unwrap();
    assert_eq!(response, AppendEntriesResponse::Continue);
    match state {
        State::AppendEntries { first_id, last_id, changed_accounts } => {
            assert_eq!(first_id, RaftId::new(1, 1));
            assert_eq!(last_id, RaftId::new(1, 2));
            assert_eq!(changed_accounts.len(), 2);
        }
        other => panic!("unexpected state {:?}", other),
    }
    assert_eq!(server.store.changes.len(), 2);
}

#[test]
fn inserts_are_asked_for_then_staged_and_committed() {
    let mut server = JMAPServer::new();
    let request =
        update(1, vec![log(1, 1), change(1, Collection::Mail, &[10, 11], &[], &[]), Update::Eof]);
    let (state, response) = server.step(State::Synchronize, request).unwrap();
    let (account_id, collection, asked) = asked_changes(&response);
    assert_eq!((account_id, collection), (1, Collection::Mail));
    assert_eq!(asked, changes(&[10, 11], &[], &[]));
    assert_eq!(
        state,
        State::AppendChanges {
            first_id: RaftId::new(1, 1),
            last_id: RaftId::new(1, 1),
            changed_accounts: vec![(1, Collections::new())],
        }
    );
    assert!(server.store.documents.is_empty());
    let request = update(1, vec![insert_mail(1, 10, b"ten")]);
    let (state, response) = server.step(state, request).unwrap();
    assert_eq!(response, AppendEntriesResponse::Continue);
    assert_eq!(server.store.pending.len(), 1);
    let request = update(1, vec![insert_mail(1, 11, b"eleven"), Update::Eof]);
    let (state, response) = server.step(state, request).unwrap();
    assert_eq!(response, AppendEntriesResponse::Commit { commit_index: 1 });
    assert_eq!(state, State::Synchronize);
    assert!(server.is_up_to_date());
    assert_eq!(server.raft_index, 1);
    assert!(server.store.pending.is_empty());
    assert_eq!(server.store.last_applied, Some(1));
    assert_eq!(
        server.store.documents.get(document_key(1, Collection::Mail, 10)),
        Some(&mail(b"ten"))
    );
    assert_eq!(
        server.store.documents.get(document_key(1, Collection::Mail, 11)),
        Some(&mail(b"eleven"))
    );
}

#[test]
fn the_first_entry_of_a_stream_counts_among_its_changes() {
    let mut server = JMAPServer::new();
    let request = update(
        9,
        vec![
            log(1, 0),
            change(1, Collection::Mail, &[1], &[], &[]),
            log(1, 1),
            change(1, Collection::Mail, &[2], &[], &[]),
            Update::Eof,
        ],
    );
    let (_, response) = server.step(State::Synchronize, request).unwrap();
    let (_, _, asked) = asked_changes(&response);
    assert_eq!(asked, changes(&[1, 2], &[], &[]));
}

#[test]
fn deletes_alone_need_no_round_trip() {
    let mut server = server_with_documents(1, &[5, 6]);
    let request =
        update(1, vec![log(1, 1), change(1, Collection::Mail, &[], &[], &[5]), Update::Eof]);
    let (state, response) = server.step(State::Synchronize, request).unwrap();
    assert_eq!(response, AppendEntriesResponse::Commit { commit_index: 1 });
    assert_eq!(state, State::Synchronize);
    assert!(server.store.documents.get(document_key(1, Collection::Mail, 5)).is_none());
    assert!(server.store.documents.get(document_key(1, Collection::Mail, 6)).is_some());
    assert!(server.is_up_to_date());
}

#[test]
fn deletes_are_staged_before_inserts_are_asked_for() {
    let mut server = server_with_documents(1, &[5]);
    let request = update(
        1,
        vec![log(1, 1), change(1, Collection::Mail, &[8], &[9], &[5]), Update::Eof],
    );
    let (_, response) = server.step(State::Synchronize, request).unwrap();
    let (_, _, asked) = asked_changes(&response);
    assert_eq!(asked, changes(&[8], &[9], &[]));
    assert_eq!(server.store.pending.len(), 1);
    assert!(server.store.documents.get(document_key(1, Collection::Mail, 5)).is_some());
}

#[test]
fn the_thread_collection_is_passed_over() {
    let mut server = JMAPServer::new();
    let request =
        update(1, vec![log(1, 1), change(1, Collection::Thread, &[1], &[2], &[3]), Update::Eof]);
    let (state, response) = server.step(State::Synchronize, request).unwrap();
    assert_eq!(response, AppendEntriesResponse::Commit { commit_index: 1 });
    assert_eq!(state, State::Synchronize);
    assert!(server.store.pending.is_empty());
}

#[test]
fn collections_are_served_last_account_first_and_highest_number_first() {
    let mut server = JMAPServer::new();
    let request = update(
        1,
        vec![
            log(1, 1),
            change(1, Collection::Mail, &[1], &[], &[]),
            change(2, Collection::Mail, &[2], &[], &[]),
            change(2, Collection::Mailbox, &[3], &[], &[]),
            Update::Eof,
        ],
    );
    let (state, response) = server.step(State::Synchronize, request).unwrap();
    let (account_id, collection, asked) = asked_changes(&response);
    assert_eq!((account_id, collection), (2, Collection::Mailbox));
    assert_eq!(asked, changes(&[3], &[], &[]));
    let (state, response) = server.step(state, update(1, vec![Update::Eof])).unwrap();
    let (account_id, collection, asked) = asked_changes(&response);
    assert_eq!((account_id, collection), (2, Collection::Mail));
    assert_eq!(asked, changes(&[2], &[], &[]));
    let (state, response) = server.step(state, update(1, vec![Update::Eof])).unwrap();
    let (account_id, collection, asked) = asked_changes(&response);
    assert_eq!((account_id, collection), (1, Collection::Mail));
    assert_eq!(asked, changes(&[1], &[], &[]));
    let (state, response) = server.step(state, update(1, vec![Update::Eof])).unwrap();
    assert_eq!(response, AppendEntriesResponse::Commit { commit_index: 1 });
    assert_eq!(state, State::Synchronize);
}

#[test]
fn nothing_is_applied_beyond_the_leaders_commit_index() {
    let mut server = server_with_documents(1, &[5]);
    let request =
        update(3, vec![log(1, 5), change(1, Collection::Mail, &[], &[], &[5]), Update::Eof]);
    let (state, response) = server.step(State::Synchronize, request).unwrap();
    assert_eq!(response, AppendEntriesResponse::Commit { commit_index: 5 });
    assert_eq!(state, State::Synchronize);
    assert!(!server.is_up_to_date());
    assert_eq!(server.raft_index, u64::MAX);
    assert_eq!(server.store.pending.len(), 1);
    assert!(server.store.documents.get(document_key(1, Collection::Mail, 5)).is_some());
}

#[test]
fn a_follower_behind_the_commit_index_applies_and_stays_behind() {
    let mut server = server_with_documents(1, &[5]);
    let request =
        update(8, vec![log(1, 5), change(1, Collection::Mail, &[], &[], &[5]), Update::Eof]);
    let (_, response) = server.step(State::Synchronize, request).unwrap();
    assert_eq!(response, AppendEntriesResponse::Commit { commit_index: 5 });
    assert!(!server.is_up_to_date());
    assert!(server.store.pending.is_empty());
    assert!(server.store.documents.is_empty());
    assert_eq!(server.store.last_applied, Some(5));
}

#[test]
fn an_empty_message_ends_the_batch() {
    let mut server = JMAPServer::new();
    let (state, response) = server.step(State::Synchronize, update(1, vec![])).unwrap();
    assert_eq!(response, AppendEntriesResponse::Commit { commit_index: u64::MAX });
    assert_eq!(state, State::Synchronize);
    assert!(!server.is_up_to_date());
}

#[test]
fn staging_fails_when_sequence_numbers_run_out_in_a_step() {
    let mut server = JMAPServer::new();
    server.store.next_sequence = u64::MAX;
    let request =
        update(1, vec![log(1, 1), change(1, Collection::Mail, &[], &[], &[5]), Update::Eof]);
    assert_eq!(
        server.step(State::Synchronize, request),
        Err(FollowerError::Store(StoreError::SequenceExhausted))
    );
    let state = State::AppendChanges {
        first_id: RaftId::new(1, 1),
        last_id: RaftId::new(1, 1),
        changed_accounts: vec![],
    };
    assert_eq!(
        server.step(state, update(1, vec![insert_mail(1, 1, b"x")])),
        Err(FollowerError::Store(StoreError::SequenceExhausted))
    );
}

#[test]
fn a_broken_body_stops_the_commit() {
    let mut server = JMAPServer::new();
    let state = State::AppendChanges {
        first_id: RaftId::new(1, 1),
        last_id: RaftId::new(1, 1),
        changed_accounts: vec![],
    };
    let broken = Update::Document {
        account_id: 1,
        document_id: 1,
        update: DocumentUpdate::InsertMail {
            thread_id: 1,
            keywords: vec![],
            mailboxes: vec![],
            received_at: 0,
            body: vec![1],
        },
    };
    assert_eq!(
        server.step(state, update(1, vec![broken, Update::Eof])),
        Err(FollowerError::Store(StoreError::Decompress))
    );
    assert_eq!(server.store.pending.len(), 1);
    assert_eq!(server.store.last_applied, Some(1));
    assert!(server.store.documents.is_empty());
    assert!(!server.is_up_to_date());
}

#[test]
fn rollback_deletes_speculative_inserts_first() {
    let mut server = server_with_documents(1, &[1, 2, 3, 4]);
    server.store.set_log(RaftId::new(1, 1), item(1, Collection::Mail));
    let state = State::Rollback {
        account_id: 1,
        collection: Collection::Mail,
        changes: changes(&[1, 2], &[3], &[9]),
    };
    let (state, response) = server.step(state, update(0, vec![])).unwrap();
    assert!(server.store.documents.get(document_key(1, Collection::Mail, 1)).is_none());
    assert!(server.store.documents.get(document_key(1, Collection::Mail, 2)).is_none());
    assert!(server.store.documents.get(document_key(1, Collection::Mail, 3)).is_some());
    assert!(server.store.documents.get(document_key(1, Collection::Mail, 4)).is_some());
    assert_eq!(
        state,
        State::Rollback {
            account_id: 1,
            collection: Collection::Mail,
            changes: changes(&[], &[3], &[9]),
        }
    );
    let (account_id, collection, asked) = asked_changes(&response);
    assert_eq!((account_id, collection), (1, Collection::Mail));
    assert_eq!(asked, changes(&[], &[3], &[9]));
}

#[test]
fn rollback_waits_for_the_end_of_the_leaders_documents() {
    let mut server = server_with_documents(1, &[3]);
    server.store.set_log(RaftId::new(1, 1), item(1, Collection::Mail));
    let state = State::Rollback {
        account_id: 1,
        collection: Collection::Mail,
        changes: changes(&[], &[3], &[9]),
    };
    let (state, response) = server.step(state, update(0, vec![insert_mail(1, 3, b"old")])).unwrap();
    assert_eq!(response, AppendEntriesResponse::Continue);
    assert_eq!(
        server.store.documents.get(document_key(1, Collection::Mail, 3)),
        Some(&mail(b"old"))
    );
    let (state, response) =
        server.step(state, update(0, vec![insert_mail(1, 9, b"back"), Update::Eof])).unwrap();
    assert_eq!(response, AppendEntriesResponse::Match { match_log: RaftId::new(1, 1) });
    assert_eq!(state, State::Synchronize);
    assert_eq!(
        server.store.documents.get(document_key(1, Collection::Mail, 9)),
        Some(&mail(b"back"))
    );
}

#[test]
fn rollback_of_the_thread_collection_deletes_nothing() {
    let mut server = JMAPServer::new();
    let mut batch = WriteBatch::new(1);
    batch.insert_document(Collection::Thread, 1, mail(b"odd"));
    server.store.write(batch);
    server.store.set_log(RaftId::new(1, 1), item(1, Collection::Thread));
    let state = State::Rollback {
        account_id: 1,
        collection: Collection::Thread,
        changes: changes(&[1], &[2], &[3]),
    };
    let (state, response) = server.step(state, update(0, vec![])).unwrap();
    assert_eq!(response, AppendEntriesResponse::Match { match_log: RaftId::new(1, 1) });
    assert_eq!(state, State::Synchronize);
    assert_eq!(server.store.documents.len(), 1);
}

#[test]
fn rollback_without_a_log_cannot_end() {
    let mut server = JMAPServer::new();
    let state = State::Rollback {
        account_id: 1,
        collection: Collection::Mail,
        changes: changes(&[1], &[], &[]),
    };
    assert_eq!(server.step(state, update(0, vec![])), Err(FollowerError::NoLastLog));
}

#[test]
fn rollback_is_resumed_by_any_request() {
    let mut server = server_with_documents(1, &[1]);
    server.store.set_log(RaftId::new(1, 1), item(1, Collection::Mail));
    let state = State::Rollback {
        account_id: 1,
        collection: Collection::Mail,
        changes: changes(&[1], &[], &[]),
    };
    let request = AppendEntriesRequest::Match { last_log: RaftId::new(9, 9) };
    let (state, response) = server.step(state, request).unwrap();
    assert_eq!(response, AppendEntriesResponse::Match { match_log: RaftId::new(1, 1) });
    assert_eq!(state, State::Synchronize);
    assert!(server.store.documents.is_empty());
}

#[test]
fn a_broken_rollback_document_is_an_error() {
    let mut server = JMAPServer::new();
    let state = State::Rollback {
        account_id: 1,
        collection: Collection::Mail,
        changes: changes(&[], &[1], &[]),
    };
    let broken = Update::Document {
        account_id: 1,
        document_id: 1,
        update: DocumentUpdate::InsertMail {
            thread_id: 1,
            keywords: vec![],
            mailboxes: vec![],
            received_at: 0,
            body: vec![],
        },
    };
    assert_eq!(
        server.step(state, update(0, vec![broken])),
        Err(FollowerError::Store(StoreError::Decompress))
    );
    assert!(server.store.documents.is_empty());
    let mut server = server_with_documents(1, &[1, 2]);
    let state = State::Rollback {
        account_id: 1,
        collection: Collection::Mail,
        changes: changes(&[1], &[2], &[]),
    };
    let broken = Update::Document {
        account_id: 1,
        document_id: 2,
        update: DocumentUpdate::InsertMail {
            thread_id: 1,
            keywords: vec![],
            mailboxes: vec![],
            received_at: 0,
            body: vec![],
        },
    };
    assert_eq!(
        server.step(state, update(0, vec![insert_mail(1, 5, b"five"), broken, Update::Eof])),
        Err(FollowerError::Store(StoreError::Decompress))
    );
    assert_eq!(server.store.documents.len(), 1);
    assert!(server.store.documents.get(document_key(1, Collection::Mail, 2)).is_some());
}

#[test]
fn merge_rolls_back_what_follows_the_matched_position() {
    let mut server = server_with_documents(1, &[1, 2, 3]);
    for (term, index) in [(1, 1), (1, 2), (2, 3), (2, 4)] {
        server.store.set_log(RaftId::new(term, index), item(1, Collection::Mail));
    }
    let record = |inserts: &[u32], updates: &[u32], deletes: &[u32]| Change {
        inserts: inserts.to_vec(),
        updates: updates.to_vec(),
        deletes: deletes.to_vec(),
    };
    server.store.set_change(1, Collection::Mail, 2, record(&[1], &[], &[]));
    server.store.set_change(1, Collection::Mail, 3, record(&[2], &[], &[]));
    server.store.set_change(1, Collection::Thread, 3, record(&[7], &[8], &[]));
    server.store.set_change(1, Collection::Mail, 4, record(&[3], &[], &[]));
    server.store.set_change(2, Collection::Mail, 4, record(&[], &[1], &[]));
    let request = AppendEntriesRequest::Merge { matched_log: RaftId::new(1, 2) };
    let (state, response) = server.step(State::Synchronize, request).unwrap();
    let (account_id, collection, asked) = asked_changes(&response);
    assert_eq!((account_id, collection), (2, Collection::Mail));
    assert_eq!(asked, changes(&[], &[1], &[]));
    assert_eq!(
        state,
        State::Rollback {
            account_id: 2,
            collection: Collection::Mail,
            changes: changes(&[], &[1], &[]),
        }
    );
    assert_eq!(server.store.documents.len(), 1);
    assert!(server.store.documents.get(document_key(1, Collection::Mail, 1)).is_some());
    assert_eq!(server.store.get_last_log(), Some(RaftId::new(1, 2)));
    assert_eq!(server.store.rollback.len(), 1);
    let resumed = server.initial_state();
    assert_eq!(
        resumed,
        State::Rollback {
            account_id: 2,
            collection: Collection::Mail,
            changes: changes(&[], &[1], &[]),
        }
    );
    let (state, response) = server.step(state, update(0, vec![Update::Eof])).unwrap();
    assert_eq!(response, AppendEntriesResponse::Match { match_log: RaftId::new(1, 2) });
    assert_eq!(state, State::Synchronize);
    assert!(server.store.rollback.is_empty());
    assert_eq!(server.initial_state(), State::Synchronize);
}

#[test]
fn merge_with_nothing_to_roll_back_is_an_error() {
    let mut server = server_with_log(&[(1, 1), (1, 2)]);
    let request = AppendEntriesRequest::Merge { matched_log: RaftId::new(1, 2) };
    assert_eq!(server.step(State::Synchronize, request), Err(FollowerError::NoRollbackChanges));
}

#[test]
fn every_pair_of_state_and_request_is_defined_or_told_apart() {
    let states = || {
        vec![
            State::Synchronize,
            State::AppendEntries {
                first_id: RaftId::none(),
                last_id: RaftId::none(),
                changed_accounts: vec![],
            },
            State::AppendChanges {
                first_id: RaftId::none(),
                last_id: RaftId::none(),
                changed_accounts: vec![],
            },
            State::Rollback {
                account_id: 1,
                collection: Collection::Mail,
                changes: MergedChanges::new(),
            },
        ]
    };
    let requests = || {
        vec![
            AppendEntriesRequest::Match { last_log: RaftId::none() },
            AppendEntriesRequest::Synchronize { match_terms: vec![RaftId::new(1, 1)] },
            AppendEntriesRequest::Merge { matched_log: RaftId::new(0, 0) },
            AppendEntriesRequest::Update { commit_index: 0, updates: vec![] },
        ]
    };
    let mut defined = 0;
    let mut undefined = 0;
    for state in states() {
        for request in requests() {
            let streaming =
                matches!(state, State::AppendEntries { .. } | State::AppendChanges { .. });
            let is_update = matches!(request, AppendEntriesRequest::Update { .. });
            let expected = !streaming || is_update;
            assert_eq!(is_defined(&state, &request), expected);
            if expected {
                defined += 1;
                let mut server = server_with_log(&[(0, 0), (1, 1)]);
                server.store.set_change(
                    1,
                    Collection::Mail,
                    1,
                    Change { inserts: vec![1], updates: vec![], deletes: vec![] },
                );
                let result = server.step(state.clone(), request);
                assert!(result.is_ok());
            } else {
                undefined += 1;
            }
        }
    }
    assert_eq!((defined, undefined), (10, 6));
}

#[test]
fn a_follower_starts_by_marking_its_newest_index_as_applied() {
    let mut server = server_with_log(&[(1, 1), (2, 7)]);
    server.init_last_applied_index();
    assert_eq!(server.store.last_applied, Some(7));
    let mut empty = JMAPServer::new();
    empty.init_last_applied_index();
    assert_eq!(empty.store.last_applied, Some(u64::MAX));
    assert_eq!(State::default(), State::Synchronize);
}

#[test]
fn committed_updates_are_applied_and_the_rest_discarded() {
    let mut server = server_with_log(&[(1, 1), (1, 2)]);
    assert_eq!(server.apply_committed_updates(), Ok(false));
    server.store.stage(1, vec![]).unwrap();
    server.store.stage(2, vec![]).unwrap();
    server.store.last_applied = Some(1);
    assert_eq!(server.apply_committed_updates(), Ok(true));
    assert!(server.store.pending.is_empty());
    assert_eq!(server.store.get_last_log(), Some(RaftId::new(1, 1)));
    assert_eq!(server.store.last_applied, None);
    server.update_raft_index(4);
    assert_eq!(server.raft_index, 4);
}

#[test]
fn only_thread_collections_changed_lead_straight_to_the_commit() {
    let mut server = JMAPServer::new();
    let request = update(
        2,
        vec![
            log(1, 1),
            change(1, Collection::Thread, &[1], &[2], &[3]),
            change(2, Collection::Thread, &[4], &[], &[5]),
            log(1, 2),
            change(1, Collection::Thread, &[], &[6], &[1]),
            Update::Eof,
        ],
    );
    let sequence = server.store.next_sequence;
    let (state, response) = server.step(State::Synchronize, request).unwrap();
    assert_eq!(response, AppendEntriesResponse::Commit { commit_index: 2 });
    assert_eq!(state, State::Synchronize);
    assert!(server.store.pending.is_empty());
    assert_eq!(server.store.next_sequence, sequence);
    assert!(server.is_up_to_date());
}

#[test]
fn a_merge_leaves_disjoint_changes_to_roll_back() {
    let mut server = server_with_documents(1, &[1, 2, 3]);
    for (term, index) in [(1, 1), (1, 2), (1, 3)] {
        server.store.set_log(RaftId::new(term, index), item(1, Collection::Mail));
    }
    let record = |inserts: &[u32], updates: &[u32], deletes: &[u32]| Change {
        inserts: inserts.to_vec(),
        updates: updates.to_vec(),
        deletes: deletes.to_vec(),
    };
    server.store.set_change(1, Collection::Mail, 2, record(&[1], &[2, 3], &[4]));
    server.store.set_change(1, Collection::Mail, 3, record(&[4], &[1], &[3, 5]));
    let request = AppendEntriesRequest::Merge { matched_log: RaftId::new(1, 1) };
    let (state, response) = server.step(State::Synchronize, request).unwrap();
    match &state {
        State::Rollback { account_id, collection, changes: left } => {
            assert_eq!((*account_id, *collection), (1, Collection::Mail));
            assert!(left.is_disjoint());
            assert_eq!(*left, changes(&[], &[2], &[3, 5]));
        }
        other => panic!("{:?}", other),
    }
    let (_, _, asked) = asked_changes(&response);
    assert_eq!(asked, changes(&[], &[2], &[3, 5]));
    assert!(server.store.documents.get(document_key(1, Collection::Mail, 1)).is_none());
    assert!(server.store.documents.get(document_key(1, Collection::Mail, 4)).is_none());
    assert!(server.store.check());
}

#[test]
fn a_rollback_with_more_to_undo_asks_the_leader_for_documents() {
    let mut server = server_with_documents(1, &[1, 2, 3]);
    server.store.set_log(RaftId::new(1, 1), item(1, Collection::Mail));
    let before = changes(&[1, 2], &[3], &[9]);
    let result = server.handle_rollback_updates(1, Collection::Mail, before, vec![]);
    let (state, response) = result.unwrap();
    assert_eq!(
        state,
        State::Rollback { account_id: 1, collection: Collection::Mail, changes: changes(&[], &[3], &[9]) }
    );
    assert_eq!(asked_changes(&response), (1, Collection::Mail, changes(&[], &[3], &[9])));
    assert_eq!(server.store.documents.len(), 1);
    assert!(server.store.documents.get(document_key(1, Collection::Mail, 3)).is_some());
}

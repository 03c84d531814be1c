//! Rolling back what a former leader never committed.

use crate::changes::{MergedChanges, MergedChangesView};
use crate::cluster::applier::{document_updates, has_eof, JMAPStoreRaftUpdates};
use crate::cluster::follower::{
    step_meets, update_reply, FollowerError, JMAPServer, Outcome, Reply, ServerView, State,
    StateView,
};
use crate::cluster::log::{AppendEntriesResponse, Update};
use crate::cluster::pending::apply_updates;
use crate::collection::{AccountId, Collection, DocumentId};
use crate::raft::RaftId;
use crate::document::spec_document_key;
use crate::store::{
    document_keys, last_log, lemma_prepared_disjoint, lemma_without_disjoint, names_pair,
    rollback_disjoint, rollback_prepared, spec_rollback_key, without_documents, StoreError,
    StoreView,
};
use crate::table::{
    kept, lemma_position_finds, lemma_row_position, lemma_view_keys, without, Key, KeyPart,
};
use vstd::prelude::*;

verus! {

/// The collection that a rollback key names.
pub open spec fn collection_of(key: Key) -> Collection {
    Collection::spec_from_id(key.minor as u8).unwrap()
}

/// The changes that count for a collection: the thread collection holds no
/// documents of its own, so none of its changes count.
pub open spec fn effective(collection: Collection, changes: MergedChangesView) -> MergedChangesView {
    if collection == Collection::Thread {
        MergedChangesView::empty()
    } else {
        changes
    }
}

/// Whether the leader has to send documents before the rollback of these
/// changes is complete.
pub open spec fn needs_reply(changes: MergedChangesView) -> bool {
    changes.deletes != Set::<DocumentId>::empty() || changes.updates != Set::<DocumentId>::empty()
}

/// The end of a rollback: the log is matched again from its newest
/// position on.
pub open spec fn rollback_finished(server: ServerView) -> Outcome {
    Outcome {
        server,
        result: match last_log(server.store.log) {
            Some(match_log) => Ok((StateView::Synchronize, Reply::Match { match_log })),
            None => Err(FollowerError::NoLastLog),
        },
    }
}

/// The rollback taken up from the bookkeeping: of each collection in turn
/// the documents that the former leader inserted are deleted; a collection
/// with nothing else to undo is struck off the bookkeeping, and the first
/// one with more to undo is put to the leader.
pub open spec fn rollback_resumed(server: ServerView) -> Outcome
    decreases server.store.rollback.len(),
{
    let rollback = server.store.rollback;
    if rollback.len() == 0 {
        rollback_finished(server)
    } else {
        let account_id = rollback[0].key.major as AccountId;
        let collection = collection_of(rollback[0].key);
        let changes = effective(collection, rollback[0].value);
        let documents = without_documents(
            server.store.documents,
            account_id,
            collection,
            changes.inserts,
        );
        let changes = MergedChangesView { inserts: Set::empty(), ..changes };
        if needs_reply(changes) {
            rollback_asks(
                ServerView { store: StoreView { documents, ..server.store }, ..server },
                account_id,
                collection,
                changes,
            )
        } else {
            rollback_resumed(
                ServerView {
                    store: StoreView { documents, rollback: rollback.drop_first(), ..server.store },
                    ..server
                },
            )
        }
    }
}

/// The leader is asked for the documents that undo `changes`.
pub open spec fn rollback_asks(
    server: ServerView,
    account_id: AccountId,
    collection: Collection,
    changes: MergedChangesView,
) -> Outcome {
    Outcome {
        server,
        result: Ok(
            (
                StateView::Rollback { account_id, collection, changes },
                Reply::Update { account_id, collection, changes },
            ),
        ),
    }
}

/// The rollback of one collection once its inserted documents are deleted:
/// with more to undo the leader is asked for the documents; otherwise the
/// collection is struck off the bookkeeping and the rollback taken up from
/// what is left there.
pub open spec fn rollback_settled(
    server: ServerView,
    account_id: AccountId,
    collection: Collection,
    changes: MergedChangesView,
) -> Outcome {
    if needs_reply(changes) {
        rollback_asks(server, account_id, collection, changes)
    } else {
        rollback_resumed(
            ServerView {
                store: StoreView {
                    rollback: without(
                        server.store.rollback,
                        spec_rollback_key(account_id, collection),
                    ),
                    ..server.store
                },
                ..server
            },
        )
    }
}

/// What a rollback step leads to, given the collection being rolled back,
/// what is left to undo in it, and what the leader sent: the documents that
/// the former leader inserted are deleted first; then the documents that the
/// leader sent are applied, all of them or, where one of them cannot be,
/// none, which ends the exchange; a stream that has not ended is waited
/// for; one that has ended completes the collection.
pub open spec fn rollback_outcome(
    server: ServerView,
    account_id: AccountId,
    collection: Collection,
    changes: MergedChangesView,
    updates: Seq<Update>,
) -> Outcome {
    let changes = effective(collection, changes);
    let documents = without_documents(
        server.store.documents,
        account_id,
        collection,
        changes.inserts,
    );
    let changes = MergedChangesView { inserts: Set::empty(), ..changes };
    if updates.len() > 0 {
        match apply_updates(document_updates(updates), documents) {
            None => Outcome {
                server: ServerView { store: StoreView { documents, ..server.store }, ..server },
                result: Err(FollowerError::Store(StoreError::Decompress)),
            },
            Some(documents) => {
                let server = ServerView { store: StoreView { documents, ..server.store }, ..server };
                if has_eof(updates) {
                    rollback_settled(server, account_id, collection, MergedChangesView::empty())
                } else {
                    Outcome {
                        server,
                        result: Ok(
                            (
                                StateView::Rollback { account_id, collection, changes },
                                Reply::Continue,
                            ),
                        ),
                    }
                }
            },
        }
    } else {
        rollback_settled(
            ServerView { store: StoreView { documents, ..server.store }, ..server },
            account_id,
            collection,
            changes,
        )
    }
}

/// Taking the rollback up from the bookkeeping stores no document, and the
/// collection it puts to the leader has no inserted documents left.
pub proof fn lemma_rollback_resumed_deletes(server: ServerView)
    ensures
        rollback_resumed(server).server.store.documents.dom().subset_of(
            server.store.documents.dom(),
        ),
        match rollback_resumed(server).result {
            Ok((StateView::Rollback { changes, .. }, _)) => changes.inserts == Set::<
                DocumentId,
            >::empty(),
            _ => true,
        },
    decreases server.store.rollback.len(),
{
    let rollback = server.store.rollback;
    if rollback.len() > 0 {
        let account_id = rollback[0].key.major as AccountId;
        let collection = collection_of(rollback[0].key);
        let changes = effective(collection, rollback[0].value);
        let documents = without_documents(
            server.store.documents,
            account_id,
            collection,
            changes.inserts,
        );
        let changes = MergedChangesView { inserts: Set::empty(), ..changes };
        if !needs_reply(changes) {
            lemma_rollback_resumed_deletes(
                ServerView {
                    store: StoreView { documents, rollback: rollback.drop_first(), ..server.store },
                    ..server
                },
            );
        }
    }
}

/// A rollback step that the leader sends nothing for deletes the documents
/// that the former leader inserted in the collection, before anything else
/// is undone: none of them is stored afterwards, and the state that the
/// follower is left in lists no inserted documents. The thread collection
/// holds no documents and is left out.
pub proof fn lemma_rollback_clears_inserts(
    server: ServerView,
    account_id: AccountId,
    collection: Collection,
    changes: MergedChangesView,
)
    requires
        collection != Collection::Thread,
    ensures
        forall|id: DocumentId|
            changes.inserts.contains(id) ==> !rollback_outcome(
                server,
                account_id,
                collection,
                changes,
                Seq::empty(),
            ).server.store.documents.dom().contains(
                spec_document_key(account_id, collection, id),
            ),
        match rollback_outcome(server, account_id, collection, changes, Seq::empty()).result {
            Ok((StateView::Rollback { changes: left, .. }, _)) => left.inserts == Set::<
                DocumentId,
            >::empty(),
            _ => true,
        },
{
    let documents = without_documents(
        server.store.documents,
        account_id,
        collection,
        changes.inserts,
    );
    let left = MergedChangesView { inserts: Set::empty(), ..changes };
    let cleared = ServerView { store: StoreView { documents, ..server.store }, ..server };
    assert forall|id: DocumentId| changes.inserts.contains(id) implies !documents.dom().contains(
        spec_document_key(account_id, collection, id),
    ) by {
        assert(document_keys(account_id, collection, changes.inserts).contains(
            spec_document_key(account_id, collection, id),
        ));
    }
    if !needs_reply(left) {
        lemma_rollback_resumed_deletes(
            ServerView {
                store: StoreView {
                    rollback: without(
                        cleared.store.rollback,
                        spec_rollback_key(account_id, collection),
                    ),
                    ..cleared.store
                },
                ..cleared
            },
        );
    }
}

/// Whether the changes that a step leaves the follower rolling back, if
/// it leaves it rolling back, are disjoint.
pub open spec fn leaves_disjoint(outcome: Outcome) -> bool {
    match outcome.result {
        Ok((StateView::Rollback { changes, .. }, _)) => changes.disjoint(),
        _ => true,
    }
}

/// Taking the rollback up from disjoint bookkeeping leaves the follower
/// with disjoint changes.
pub proof fn lemma_rollback_resumed_disjoint(server: ServerView)
    requires
        rollback_disjoint(server.store.rollback),
    ensures
        leaves_disjoint(rollback_resumed(server)),
    decreases server.store.rollback.len(),
{
    let rollback = server.store.rollback;
    if rollback.len() > 0 {
        let account_id = rollback[0].key.major as AccountId;
        let collection = collection_of(rollback[0].key);
        let changes = effective(collection, rollback[0].value);
        let documents = without_documents(
            server.store.documents,
            account_id,
            collection,
            changes.inserts,
        );
        let changes = MergedChangesView { inserts: Set::empty(), ..changes };
        assert(rollback[0].value.disjoint());
        if !needs_reply(changes) {
            let rest = rollback.drop_first();
            assert forall|k: int| 0 <= k < rest.len() implies (#[trigger] rest[k]).value.disjoint() by {
                assert(rest[k] == rollback[k + 1]);
            }
            lemma_rollback_resumed_disjoint(
                ServerView {
                    store: StoreView { documents, rollback: rest, ..server.store },
                    ..server
                },
            );
        }
    }
}

/// A rollback step on disjoint changes, with disjoint bookkeeping, leaves
/// the follower with disjoint changes.
pub proof fn lemma_rollback_disjoint(
    server: ServerView,
    account_id: AccountId,
    collection: Collection,
    changes: MergedChangesView,
    updates: Seq<Update>,
)
    requires
        changes.disjoint(),
        rollback_disjoint(server.store.rollback),
    ensures
        leaves_disjoint(rollback_outcome(server, account_id, collection, changes, updates)),
{
    let changes = effective(collection, changes);
    let documents = without_documents(
        server.store.documents,
        account_id,
        collection,
        changes.inserts,
    );
    let left = MergedChangesView { inserts: Set::empty(), ..changes };
    let rest = without(server.store.rollback, spec_rollback_key(account_id, collection));
    lemma_without_disjoint(server.store.rollback, spec_rollback_key(account_id, collection));
    if updates.len() > 0 {
        match apply_updates(document_updates(updates), documents) {
            None => {},
            Some(documents) => {
                if has_eof(updates) {
                    lemma_rollback_resumed_disjoint(
                        ServerView {
                            store: StoreView { documents, rollback: rest, ..server.store },
                            ..server
                        },
                    );
                }
            },
        }
    } else if !needs_reply(left) {
        lemma_rollback_resumed_disjoint(
            ServerView { store: StoreView { documents, rollback: rest, ..server.store }, ..server },
        );
    }
}

/// The changes that a merge leaves the follower rolling back are disjoint:
/// no id is in two of the sets of inserted, updated and deleted documents.
pub proof fn lemma_merge_disjoint(server: ServerView, matched_log: RaftId)
    requires
        rollback_disjoint(server.store.rollback),
    ensures
        leaves_disjoint(merge_outcome(server, matched_log)),
{
    let prepared = merge_prepared(server, matched_log);
    lemma_prepared_disjoint(server.store.changes, matched_log.index, server.store.rollback);
    if prepared.store.rollback.len() > 0 {
        let first = prepared.store.rollback[0];
        lemma_rollback_disjoint(
            prepared,
            first.key.major as AccountId,
            collection_of(first.key),
            first.value,
            Seq::empty(),
        );
    }
}

impl JMAPServer {
    /// Completes the rollback of one collection whose inserted documents
    /// are deleted already, and goes on with the collections that the
    /// bookkeeping lists until one needs documents from the leader or none
    /// is left.
    fn settle_rollback(
        &mut self,
        account_id: AccountId,
        collection: Collection,
        changes: MergedChanges,
    ) -> (result: Result<(State, AppendEntriesResponse), FollowerError>)
        requires
            old(self).wf(),
            changes@.inserts == Set::<DocumentId>::empty(),
        ensures
            final(self).wf(),
            step_meets(final(self)@,
                result,
                rollback_settled(old(self)@, account_id, collection, changes@),
            ),
    {
        let ghost start = self@;
        let ghost first = (account_id, collection, changes@);
        let ghost target = rollback_settled(self@, account_id, collection, changes@);
        let mut account = account_id;
        let mut current = collection;
        let mut left = changes;
        let ghost mut listed = false;
        loop
            invariant
                self.wf(),
                start == old(self)@,
                first == (account_id, collection, changes@),
                target == rollback_settled(start, first.0, first.1, first.2),
                left@.inserts == Set::<DocumentId>::empty(),
                target == rollback_settled(self@, account, current, left@),
                listed ==> self@.store.rollback.len() > 0 && self@.store.rollback[0].key
                    == spec_rollback_key(account, current),
            decreases
                    self@.store.rollback.len() + if listed {
                        0int
                    } else {
                        1int
                    },
        {
            if !left.deletes.is_empty() || !left.updates.is_empty() {
                let serialized = left.serialize();
                let result = match update_reply(account, current, serialized) {
                    Ok(response) => Ok(
                        (
                            State::Rollback { account_id: account, collection: current, changes: left },
                            response,
                        ),
                    ),
                    Err(error) => Err(error),
                };
                assert(step_meets(self@, result, target));
                return result;
            }
            let ghost before = self@;
            proof {
                lemma_position_finds(before.store.rollback, spec_rollback_key(account, current));
                if listed {
                    lemma_view_keys(
                        self.store.rollback@,
                        spec_rollback_key(account, current),
                    );
                    lemma_row_position(before.store.rollback, 0);
                }
            }
            self.store.remove_rollback_change(account, current);
            match self.store.next_rollback_change() {
                Some((next_account_id, next_collection, next_changes)) => {
                    account = next_account_id;
                    current = next_collection;
                    left = next_changes;
                    proof {
                        assert(names_pair(self.store.rollback@[0].key));
                        assert(self@.store.rollback[0].key == self.store.rollback@[0].key);
                        assert(collection_of(self@.store.rollback[0].key) == current);
                    }
                    if let Collection::Thread = current {
                        left.clear();
                    }
                    self.store.delete_documents(account, current, &left.inserts);
                    left.inserts.clear();
                    proof {
                        let rollback = self@.store.rollback;
                        lemma_view_keys(
                            self.store.rollback@,
                            spec_rollback_key(account, current),
                        );
                        lemma_row_position(rollback, 0);
                        assert(without(rollback, spec_rollback_key(account, current))
                            =~= rollback.drop_first());
                        listed = true;
                    }
                },
                None => {
                    let result = match self.store.get_last_log() {
                        Some(match_log) => Ok(
                            (State::Synchronize, AppendEntriesResponse::Match { match_log }),
                        ),
                        None => Err(FollowerError::NoLastLog),
                    };
                    assert(step_meets(self@, result, target));
                    return result;
                },
            }
        }
    }

    /// Takes a rollback step for one collection of one account: deletes the
    /// documents that the former leader inserted, applies the documents that
    /// the leader sent, and then either waits for more of them, asks for the
    /// documents of what is left to undo, goes on to the next collection, or
    /// ends the rollback.
    pub fn handle_rollback_updates(
        &mut self,
        account_id: AccountId,
        collection: Collection,
        changes: MergedChanges,
        updates: Vec<Update>,
    ) -> (result: Result<(State, AppendEntriesResponse), FollowerError>)
        requires
            old(self).wf(),
        ensures
            final(self).wf(),
            step_meets(final(self)@,
                result,
                rollback_outcome(old(self)@, account_id, collection, changes@, updates@),
            ),
    {
        let mut changes = changes;
        if let Collection::Thread = collection {
            changes.clear();
        }
        self.store.delete_documents(account_id, collection, &changes.inserts);
        changes.inserts.clear();
        if updates.len() > 0 {
            match self.store.apply_rollback_updates(updates) {
                Ok(is_done) => {
                    if is_done {
                        changes.updates.clear();
                        changes.deletes.clear();
                    } else {
                        return Ok(
                            (
                                State::Rollback { account_id, collection, changes },
                                AppendEntriesResponse::Continue,
                            ),
                        );
                    }
                },
                Err(error) => {
                    return Err(FollowerError::Store(error));
                },
            }
        }
        self.settle_rollback(account_id, collection, changes)
    }

    /// Answers a request to merge: prepares the rollback of everything after
    /// the matched position and takes it up. The changes that it leaves the
    /// follower rolling back are disjoint.
    pub fn handle_merge_log(&mut self, matched_log: RaftId) -> (result: Result<
        (State, AppendEntriesResponse),
        FollowerError,
    >)
        requires
            old(self).wf(),
        ensures
            final(self).wf(),
            step_meets(final(self)@, result, merge_outcome(old(self)@, matched_log)),
            match result {
                Ok((State::Rollback { changes, .. }, _)) => changes@.disjoint(),
                _ => true,
            },
    {
        proof {
            lemma_merge_disjoint(self@, matched_log);
        }
        self.store.prepare_rollback_changes(matched_log.index);
        match self.store.next_rollback_change() {
            Some((account_id, collection, changes)) => {
                proof {
                    assert(names_pair(self.store.rollback@[0].key));
                    assert(self@.store.rollback[0].key == self.store.rollback@[0].key);
                }
                self.handle_rollback_updates(account_id, collection, changes, Vec::new())
            },
            None => Err(FollowerError::NoRollbackChanges),
        }
    }
}

/// The node after the rollback of everything after `matched_log` was
/// prepared.
pub open spec fn merge_prepared(server: ServerView, matched_log: RaftId) -> ServerView {
    ServerView {
        store: StoreView {
            log: kept(
                server.store.log,
                KeyPart::Minor,
                matched_log.index,
            ),
            changes: kept(
                server.store.changes,
                KeyPart::Tail,
                matched_log.index,
            ),
            rollback: rollback_prepared(
                server.store.changes,
                matched_log.index,
                server.store.rollback,
            ),
            ..server.store
        },
        ..server
    }
}

/// What a request to merge leads to: the rollback is prepared and its first
/// collection taken up; with nothing to roll back the follower gives up.
pub open spec fn merge_outcome(server: ServerView, matched_log: RaftId) -> Outcome {
    let prepared = merge_prepared(server, matched_log);
    if prepared.store.rollback.len() == 0 {
        Outcome { server: prepared, result: Err(FollowerError::NoRollbackChanges) }
    } else {
        let first = prepared.store.rollback[0];
        rollback_outcome(
            prepared,
            first.key.major as AccountId,
            collection_of(first.key),
            first.value,
            Seq::empty(),
        )
    }
}

} // verus!

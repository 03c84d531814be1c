//! The transitions of the follower: which states and replies a request can
//! lead to from each state.

use crate::changes::{merged, sorted_ids, MergedChangesView};
use crate::cluster::append::{
    committed, staged, stream_taken, update_log_outcome, updates_requested, work_left, Stream,
};
use crate::cluster::applier::{document_updates, has_eof};
use crate::cluster::follower::{
    defined, step_outcome, FollowerError, Reply, ServerView, StateView,
};
use crate::cluster::log::{AppendEntriesRequest, Update};
use crate::cluster::pending::{apply_updates, PendingUpdateView};
use crate::cluster::rollback::{
    collection_of, effective, merge_prepared, needs_reply, rollback_outcome, rollback_resumed,
};
use crate::collection::{
    lemma_top_held, lemma_without_top, AccountId, Collection, Collections, DocumentId,
};
use crate::raft::{LogIndex, RaftId};
use crate::store::{spec_rollback_key, without_documents, StoreView};
use crate::table::without;
use vstd::prelude::*;

verus! {

/// Whether `result` is a way in which asking for updates can end: the
/// leader is asked for the documents of a collection while the follower
/// waits for them, or the follower commits and matches logs again, or the
/// store fails.
pub open spec fn forward_end(result: Result<(StateView, Reply), FollowerError>) -> bool {
    match result {
        Ok((StateView::AppendChanges { .. }, Reply::Update { .. })) => true,
        Ok((StateView::Synchronize, Reply::Commit { .. })) => true,
        Err(FollowerError::Store(_)) => true,
        _ => false,
    }
}

/// Whether `result` is a way in which a rollback step can end: the follower
/// stays in the rollback and waits for more documents or asks for the
/// documents of a collection, or the rollback is over and logs are matched
/// again, or the follower gives up because the log is empty or the store
/// fails.
pub open spec fn rollback_end(result: Result<(StateView, Reply), FollowerError>) -> bool {
    match result {
        Ok((StateView::Rollback { .. }, Reply::Continue)) => true,
        Ok((StateView::Rollback { .. }, Reply::Update { .. })) => true,
        Ok((StateView::Synchronize, Reply::Match { .. })) => true,
        Err(FollowerError::NoLastLog) => true,
        Err(FollowerError::Store(_)) => true,
        _ => false,
    }
}

/// Whether `result` is a way in which a request can end in a state in
/// which it is expected.
pub open spec fn transition_allowed(
    state: StateView,
    request: AppendEntriesRequest,
    result: Result<(StateView, Reply), FollowerError>,
) -> bool {
    match state {
        StateView::Synchronize => match request {
            AppendEntriesRequest::Match { .. } => result is Ok && result.unwrap().0
                is Synchronize && result.unwrap().1 is Match,
            AppendEntriesRequest::Synchronize { match_terms } => if match_terms@.len() == 0 {
                result == Err::<(StateView, Reply), FollowerError>(FollowerError::EmptyMatchTerms)
            } else {
                result is Ok && result.unwrap().0 is Synchronize && result.unwrap().1
                    is Synchronize
            },
            AppendEntriesRequest::Merge { .. } => rollback_end(result) || result == Err::<
                (StateView, Reply),
                FollowerError,
            >(FollowerError::NoRollbackChanges),
            AppendEntriesRequest::Update { .. } => forward_end(result) || (result is Ok
                && result.unwrap().0 is AppendEntries && result.unwrap().1 is Continue),
        },
        StateView::AppendEntries { .. } => forward_end(result) || (result is Ok
            && result.unwrap().0 is AppendEntries && result.unwrap().1 is Continue),
        StateView::AppendChanges { .. } => forward_end(result) || (result is Ok
            && result.unwrap().0 is AppendChanges && result.unwrap().1 is Continue),
        StateView::Rollback { .. } => rollback_end(result),
    }
}

/// Asking for updates ends with a request for documents, with a commit, or
/// with a failure of the store.
pub proof fn lemma_updates_requested_ends(
    server: ServerView,
    first_id: RaftId,
    last_id: RaftId,
    commit_index: LogIndex,
    changed: Seq<(AccountId, Collections)>,
)
    ensures
        forward_end(updates_requested(server, first_id, last_id, commit_index, changed).result),
    decreases changed.len(), work_left(changed),
{
    if changed.len() > 0 {
        let (account_id, collections) = changed.last();
        lemma_without_top(collections);
        match collections.top() {
            None => {
                lemma_updates_requested_ends(
                    server,
                    first_id,
                    last_id,
                    commit_index,
                    changed.drop_last(),
                );
            },
            Some(collection) => {
                let rest = changed.update(
                    changed.len() - 1,
                    (account_id, collections.without(collection)),
                );
                if collection == Collection::Thread {
                    lemma_updates_requested_ends(server, first_id, last_id, commit_index, rest);
                } else {
                    let changes = merged(
                        server.store.changes,
                        account_id,
                        collection,
                        first_id.index - 1,
                        last_id.index as int,
                    );
                    let after = if changes.deletes != Set::<DocumentId>::empty() {
                        staged(
                            server,
                            last_id.index,
                            seq![
                                PendingUpdateView::DeleteDocuments {
                                    account_id,
                                    collection,
                                    document_ids: sorted_ids(changes.deletes),
                                },
                            ],
                        )
                    } else {
                        server
                    };
                    lemma_updates_requested_ends(after, first_id, last_id, commit_index, rest);
                }
            },
        }
    }
}

/// Whether no collection but the thread collection is marked as changed.
pub open spec fn threads_only(changed: Seq<(AccountId, Collections)>) -> bool {
    forall|i: int|
        0 <= i < changed.len() ==> (#[trigger] changed[i]).1@.subset_of(set![Collection::Thread])
}

/// Where only thread collections have changed, asking for updates merges
/// nothing, stages nothing and asks the leader for nothing: the follower
/// goes straight to the commit.
pub proof fn lemma_threads_only_commit(
    server: ServerView,
    first_id: RaftId,
    last_id: RaftId,
    commit_index: LogIndex,
    changed: Seq<(AccountId, Collections)>,
)
    requires
        threads_only(changed),
    ensures
        updates_requested(server, first_id, last_id, commit_index, changed) == committed(
            server,
            last_id,
            commit_index,
        ),
    decreases changed.len(), work_left(changed),
{
    if changed.len() > 0 {
        let (account_id, collections) = changed.last();
        lemma_without_top(collections);
        lemma_top_held(collections);
        assert(changed[changed.len() - 1].1@.subset_of(set![Collection::Thread]));
        match collections.top() {
            None => {
                let rest = changed.drop_last();
                assert forall|i: int| 0 <= i < rest.len() implies (#[trigger] rest[i]).1@.subset_of(
                    set![Collection::Thread],
                ) by {
                    assert(rest[i] == changed[i]);
                }
                lemma_threads_only_commit(server, first_id, last_id, commit_index, rest);
            },
            Some(collection) => {
                assert(collection == Collection::Thread);
                let rest = changed.update(
                    changed.len() - 1,
                    (account_id, collections.without(collection)),
                );
                assert forall|i: int| 0 <= i < rest.len() implies (#[trigger] rest[i]).1@.subset_of(
                    set![Collection::Thread],
                ) by {
                    if i < changed.len() - 1 {
                        assert(rest[i] == changed[i]);
                    }
                }
                lemma_threads_only_commit(server, first_id, last_id, commit_index, rest);
            },
        }
    }
}

/// A rollback taken up from the bookkeeping ends with a request for
/// documents or with the end of the rollback.
pub proof fn lemma_rollback_resumed_ends(server: ServerView)
    ensures
        rollback_end(rollback_resumed(server).result),
    decreases server.store.rollback.len(),
{
    let rollback = server.store.rollback;
    if rollback.len() > 0 {
        let account_id = rollback[0].key.major as AccountId;
        let collection = collection_of(rollback[0].key);
        let changes = effective(collection, rollback[0].value);
        let documents = without_documents(
            server.store.documents,
            account_id,
            collection,
            changes.inserts,
        );
        let changes = MergedChangesView { inserts: Set::empty(), ..changes };
        if !needs_reply(changes) {
            lemma_rollback_resumed_ends(
                ServerView {
                    store: StoreView { documents, rollback: rollback.drop_first(), ..server.store },
                    ..server
                },
            );
        }
    }
}

/// A rollback step ends in one of the ways in which a rollback can end.
pub proof fn lemma_rollback_outcome_ends(
    server: ServerView,
    account_id: AccountId,
    collection: Collection,
    changes: MergedChangesView,
    updates: Seq<Update>,
)
    ensures
        rollback_end(rollback_outcome(server, account_id, collection, changes, updates).result),
{
    let effective_changes = effective(collection, changes);
    let documents = without_documents(
        server.store.documents,
        account_id,
        collection,
        effective_changes.inserts,
    );
    let left = MergedChangesView { inserts: Set::empty(), ..effective_changes };
    let cleared = ServerView { store: StoreView { documents, ..server.store }, ..server };
    if updates.len() > 0 {
        match apply_updates(document_updates(updates), documents) {
            None => {},
            Some(applied) => {
                let after = ServerView {
                    store: StoreView { documents: applied, ..server.store },
                    ..server
                };
                if has_eof(updates) {
                    lemma_rollback_resumed_ends(
                        ServerView {
                            store: StoreView {
                                rollback: without(
                                    after.store.rollback,
                                    spec_rollback_key(account_id, collection),
                                ),
                                ..after.store
                            },
                            ..after
                        },
                    );
                }
            },
        }
    } else if !needs_reply(left) {
        lemma_rollback_resumed_ends(
            ServerView {
                store: StoreView {
                    rollback: without(
                        cleared.store.rollback,
                        spec_rollback_key(account_id, collection),
                    ),
                    ..cleared.store
                },
                ..cleared
            },
        );
    }
}

/// Whether a state and a request are one of the pairs that cannot occur:
/// while entries or documents stream in, a request to match, to
/// synchronize or to merge.
pub open spec fn unreachable_pair(state: StateView, request: AppendEntriesRequest) -> bool {
    (state is AppendEntries || state is AppendChanges) && (request is Match || request
        is Synchronize || request is Merge)
}

/// Every pair of a state and a request is either expected or one of the
/// pairs that cannot occur, never both; and every request that is expected
/// in a state leads to one of the states and replies that are laid down
/// for that state and request, or to one of the failures that end the
/// exchange.
pub proof fn lemma_transitions(server: ServerView, state: StateView, request: AppendEntriesRequest)
    ensures
        defined(state, request) != unreachable_pair(state, request),
        defined(state, request) ==> transition_allowed(
            state,
            request,
            step_outcome(server, state, request).result,
        ),
{
    if defined(state, request) {
    match state {
        StateView::Synchronize => match request {
            AppendEntriesRequest::Match { last_log } => {},
            AppendEntriesRequest::Synchronize { match_terms } => {},
            AppendEntriesRequest::Merge { matched_log } => {
                let prepared = merge_prepared(server, matched_log);
                if prepared.store.rollback.len() > 0 {
                    let first = prepared.store.rollback[0];
                    lemma_rollback_outcome_ends(
                        prepared,
                        first.key.major as AccountId,
                        collection_of(first.key),
                        first.value,
                        Seq::empty(),
                    );
                }
            },
            AppendEntriesRequest::Update { commit_index, updates } => {
                lemma_update_log_ends(
                    ServerView { up_to_date: false, ..server },
                    RaftId::spec_none(),
                    RaftId::spec_none(),
                    commit_index,
                    Seq::empty(),
                    updates@,
                );
            },
        },
        StateView::AppendEntries { first_id, last_id, changed_accounts } => match request {
            AppendEntriesRequest::Update { commit_index, updates } => {
                lemma_update_log_ends(
                    ServerView { up_to_date: false, ..server },
                    first_id,
                    last_id,
                    commit_index,
                    changed_accounts,
                    updates@,
                );
            },
            _ => {},
        },
        StateView::AppendChanges { first_id, last_id, changed_accounts } => match request {
            AppendEntriesRequest::Update { commit_index, updates } => {
                let documents = document_updates(updates@);
                let after = if documents.len() > 0 {
                    staged(server, last_id.index, documents)
                } else {
                    server
                };
                lemma_updates_requested_ends(
                    after,
                    first_id,
                    last_id,
                    commit_index,
                    changed_accounts,
                );
            },
            _ => {},
        },
        StateView::Rollback { account_id, collection, changes } => match request {
            AppendEntriesRequest::Update { updates, .. } => {
                lemma_rollback_outcome_ends(server, account_id, collection, changes, updates@);
            },
            _ => {
                lemma_rollback_outcome_ends(server, account_id, collection, changes, Seq::empty());
            },
        },
    }
    }
}

/// A message of log entries and change records ends with the follower
/// waiting for more of them or in one of the ways in which asking for
/// updates ends.
proof fn lemma_update_log_ends(
    server: ServerView,
    first_id: RaftId,
    last_id: RaftId,
    commit_index: LogIndex,
    changed: Seq<(AccountId, Collections)>,
    updates: Seq<Update>,
)
    ensures
        forward_end(
            update_log_outcome(server, first_id, last_id, commit_index, changed, updates).result,
        ) || (update_log_outcome(
            server,
            first_id,
            last_id,
            commit_index,
            changed,
            updates,
        ).result is Ok && update_log_outcome(
            server,
            first_id,
            last_id,
            commit_index,
            changed,
            updates,
        ).result.unwrap().0 is AppendEntries && update_log_outcome(
            server,
            first_id,
            last_id,
            commit_index,
            changed,
            updates,
        ).result.unwrap().1 is Continue),
{
    let taken = stream_taken(
        Stream { store: server.store, first_id, last_id, changed_accounts: changed },
        updates,
    );
    lemma_updates_requested_ends(
        ServerView { store: taken.store, ..server },
        taken.first_id,
        taken.last_id,
        commit_index,
        taken.changed_accounts,
    );
}

} // verus!

//! The forward path of the follower: taking in log entries and change
//! records, asking the leader for the documents that changed, and
//! committing.

use crate::changes::{merged, sorted_ids, MergedChanges, MergedChangesView};
use crate::cluster::applier::{
    apply_target, collect_document_updates, document_updates, has_eof, pending_applied,
    pending_left, JMAPStoreRaftUpdates,
};
use crate::cluster::follower::{
    update_reply, FollowerError, JMAPServer, Outcome, Reply, ServerView, State, StateView,
    step_meets,
};
use crate::cluster::log::{AppendEntriesResponse, Update};
use crate::cluster::pending::{spec_pending_key, updates_view, PendingUpdate, PendingUpdateView};
use crate::collection::{
    lemma_without_top, AccountId, Collection, Collections, DocumentId,
};
use crate::changes::spec_change_key;
use crate::raft::{LogIndex, RaftId};
use crate::store::{StoreError, StoreView};
use crate::table::put;
use vstd::prelude::*;

verus! {

/// The place of an account in a list of changed accounts.
pub open spec fn account_slot(changed: Seq<(AccountId, Collections)>, account_id: AccountId) -> Option<
    int,
>
    decreases changed.len(),
{
    if changed.len() == 0 {
        None
    } else {
        match account_slot(changed.drop_last(), account_id) {
            Some(slot) => Some(slot),
            None => if changed.last().0 == account_id {
                Some(changed.len() - 1)
            } else {
                None
            },
        }
    }
}

/// The list of changed accounts after a collection of an account was marked
/// as changed: the collection joins those of the account, and an account not
/// yet listed joins the list at its end.
pub open spec fn marked(
    changed: Seq<(AccountId, Collections)>,
    account_id: AccountId,
    collection: Collection,
) -> Seq<(AccountId, Collections)> {
    match account_slot(changed, account_id) {
        Some(slot) => changed.update(slot, (account_id, changed[slot].1.with(collection))),
        None => changed.push((account_id, Collections::spec_new().with(collection))),
    }
}

proof fn lemma_account_slot(changed: Seq<(AccountId, Collections)>, account_id: AccountId)
    ensures
        match account_slot(changed, account_id) {
            Some(slot) => 0 <= slot < changed.len() && changed[slot].0 == account_id && forall|
                k: int,
            |
                0 <= k < slot ==> (#[trigger] changed[k]).0 != account_id,
            None => forall|k: int| 0 <= k < changed.len() ==> (#[trigger] changed[k]).0 != account_id,
        },
    decreases changed.len(),
{
    if changed.len() > 0 {
        lemma_account_slot(changed.drop_last(), account_id);
        let front = changed.drop_last();
        match account_slot(front, account_id) {
            Some(slot) => {
                assert(front[slot] == changed[slot]);
                assert forall|k: int| 0 <= k < slot implies (#[trigger] changed[k]).0
                    != account_id by {
                    assert(front[k] == changed[k]);
                }
            },
            None => {
                assert forall|k: int| 0 <= k < changed.len() - 1 implies (#[trigger] changed[k]).0
                    != account_id by {
                    assert(front[k] == changed[k]);
                }
            },
        }
    }
}

/// Marks a collection of an account as changed.
pub fn mark_changed(
    changed_accounts: &mut Vec<(AccountId, Collections)>,
    account_id: AccountId,
    collection: Collection,
)
    ensures
        final(changed_accounts)@ == marked(old(changed_accounts)@, account_id, collection),
{
    let mut i: usize = 0;
    while i < changed_accounts.len()
        invariant
            i <= changed_accounts@.len(),
            changed_accounts@ == old(changed_accounts)@,
            forall|k: int| 0 <= k < i ==> (#[trigger] changed_accounts@[k]).0 != account_id,
        decreases changed_accounts@.len() - i,
    {
        if changed_accounts[i].0 == account_id {
            proof {
                lemma_account_slot(changed_accounts@, account_id);
            }
            let mut collections = changed_accounts[i].1;
            collections.insert(collection);
            changed_accounts.set(i, (account_id, collections));
            return ;
        }
        i += 1;
    }
    proof {
        lemma_account_slot(changed_accounts@, account_id);
    }
    let mut collections = Collections::new();
    collections.insert(collection);
    changed_accounts.push((account_id, collections));
}

/// What a follower holds of a stream of log entries and change records: its
/// store, the first and the last position received, and the collections
/// that changed.
pub ghost struct Stream {
    pub store: StoreView,
    pub first_id: RaftId,
    pub last_id: RaftId,
    pub changed_accounts: Seq<(AccountId, Collections)>,
}

/// The stream after the items of a message were taken in, in order. A log
/// entry is stored at its position, which becomes the last position, and the
/// first where there was none. A change record is stored under the index of
/// the last position, and its collection marked as changed. Other items are
/// not expected here and are passed over.
pub open spec fn stream_taken(start: Stream, updates: Seq<Update>) -> Stream
    decreases updates.len(),
{
    if updates.len() == 0 {
        start
    } else {
        let before = stream_taken(start, updates.drop_last());
        match updates.last() {
            Update::Change { account_id, collection, change } => Stream {
                store: StoreView {
                    changes: put(
                        before.store.changes,
                        spec_change_key(account_id, collection, before.last_id.index),
                        change,
                    ),
                    ..before.store
                },
                changed_accounts: marked(before.changed_accounts, account_id, collection),
                ..before
            },
            Update::Log { raft_id, log } => Stream {
                store: StoreView {
                    log: put(before.store.log, raft_id.spec_key(), log),
                    ..before.store
                },
                first_id: if before.first_id == RaftId::spec_none() {
                    raft_id
                } else {
                    before.first_id
                },
                last_id: raft_id,
                ..before
            },
            _ => before,
        }
    }
}

/// The node after a batch of updates was staged for a log index.
pub open spec fn staged(server: ServerView, index: LogIndex, updates: Seq<PendingUpdateView>) -> ServerView {
    ServerView {
        store: StoreView {
            pending: put(
                server.store.pending,
                spec_pending_key(index, server.store.next_sequence),
                updates,
            ),
            next_sequence: (server.store.next_sequence + 1) as u64,
            ..server.store
        },
        ..server
    }
}

/// The end of the forward path: where the last position received is
/// committed by the leader, the staged updates up to it are applied; where
/// it is the very position that the leader has committed, the node has
/// caught up. The follower reports the index it holds. A staged batch that
/// cannot be applied stops the follower there.
pub open spec fn committed(server: ServerView, last_id: RaftId, commit_index: LogIndex) -> Outcome {
    let reply = Ok((StateView::Synchronize, Reply::Commit { commit_index: last_id.index }));
    if last_id.index <= commit_index {
        match pending_applied(server.store, last_id.index, false) {
            Some(store) => Outcome {
                server: if last_id.index == commit_index {
                    ServerView { store, up_to_date: true, raft_index: last_id.index }
                } else {
                    ServerView { store, ..server }
                },
                result: reply,
            },
            None => Outcome {
                server: ServerView {
                    store: pending_left(
                        server.store,
                        apply_target(last_id.index, server.store.last_applied).unwrap(),
                    ),
                    ..server
                },
                result: Err(FollowerError::Store(StoreError::Decompress)),
            },
        }
    } else {
        Outcome { server, result: reply }
    }
}

/// The measure by which the list of changed collections shrinks.
pub open spec fn work_left(changed: Seq<(AccountId, Collections)>) -> nat {
    if changed.len() == 0 {
        0
    } else {
        changed.last().1.height() as nat
    }
}

/// What asking for updates leads to. The changed collections are served
/// one at a time: of the last account of the list, the collection with the
/// highest number; an account with no collection left leaves the list. The
/// thread collection is passed over. Of any other the net changes between
/// the first and the last position received are merged: its deletes are
/// staged at once, and where inserts or updates remain the leader is asked
/// for the documents. With no collection left the follower commits.
pub open spec fn updates_requested(
    server: ServerView,
    first_id: RaftId,
    last_id: RaftId,
    commit_index: LogIndex,
    changed: Seq<(AccountId, Collections)>,
) -> Outcome
    decreases changed.len(), work_left(changed),
    via updates_requested_terminates
{
    if changed.len() == 0 {
        committed(server, last_id, commit_index)
    } else {
        let (account_id, collections) = changed.last();
        match collections.top() {
            None => updates_requested(server, first_id, last_id, commit_index, changed.drop_last()),
            Some(collection) => {
                let rest = changed.update(
                    changed.len() - 1,
                    (account_id, collections.without(collection)),
                );
                if collection == Collection::Thread {
                    updates_requested(server, first_id, last_id, commit_index, rest)
                } else {
                    let changes = merged(
                        server.store.changes,
                        account_id,
                        collection,
                        first_id.index - 1,
                        last_id.index as int,
                    );
                    if changes.deletes != Set::<DocumentId>::empty() && server.store.next_sequence
                        == u64::MAX {
                        Outcome {
                            server,
                            result: Err(FollowerError::Store(StoreError::SequenceExhausted)),
                        }
                    } else {
                        let server = if changes.deletes != Set::<DocumentId>::empty() {
                            staged(
                                server,
                                last_id.index,
                                seq![
                                    PendingUpdateView::DeleteDocuments {
                                        account_id,
                                        collection,
                                        document_ids: sorted_ids(changes.deletes),
                                    },
                                ],
                            )
                        } else {
                            server
                        };
                        if changes.inserts != Set::<DocumentId>::empty() || changes.updates
                            != Set::<DocumentId>::empty() {
                            Outcome {
                                server,
                                result: Ok(
                                    (
                                        StateView::AppendChanges {
                                            first_id,
                                            last_id,
                                            changed_accounts: rest,
                                        },
                                        Reply::Update {
                                            account_id,
                                            collection,
                                            changes: MergedChangesView {
                                                deletes: Set::empty(),
                                                ..changes
                                            },
                                        },
                                    ),
                                ),
                            }
                        } else {
                            updates_requested(server, first_id, last_id, commit_index, rest)
                        }
                    }
                }
            },
        }
    }
}

#[via_fn]
proof fn updates_requested_terminates(
    server: ServerView,
    first_id: RaftId,
    last_id: RaftId,
    commit_index: LogIndex,
    changed: Seq<(AccountId, Collections)>,
) {
    if changed.len() > 0 {
        lemma_without_top(changed.last().1);
    }
}

/// What a message of log entries and change records leads to: its items
/// are taken in; a message that ends the batch, by its mark or by being
/// empty, leads on to asking for updates, any other to waiting for more.
pub open spec fn update_log_outcome(
    server: ServerView,
    first_id: RaftId,
    last_id: RaftId,
    commit_index: LogIndex,
    changed: Seq<(AccountId, Collections)>,
    updates: Seq<Update>,
) -> Outcome {
    let taken = stream_taken(
        Stream { store: server.store, first_id, last_id, changed_accounts: changed },
        updates,
    );
    let server = ServerView { store: taken.store, ..server };
    if updates.len() == 0 || has_eof(updates) {
        updates_requested(
            server,
            taken.first_id,
            taken.last_id,
            commit_index,
            taken.changed_accounts,
        )
    } else {
        Outcome {
            server,
            result: Ok(
                (
                    StateView::AppendEntries {
                        first_id: taken.first_id,
                        last_id: taken.last_id,
                        changed_accounts: taken.changed_accounts,
                    },
                    Reply::Continue,
                ),
            ),
        }
    }
}

/// What a message of documents leads to: the documents are staged for the
/// index of the last position received; a message that ends the batch leads
/// on to asking for updates, any other to waiting for more.
pub open spec fn pending_outcome(
    server: ServerView,
    first_id: RaftId,
    last_id: RaftId,
    commit_index: LogIndex,
    changed: Seq<(AccountId, Collections)>,
    updates: Seq<Update>,
) -> Outcome {
    let documents = document_updates(updates);
    if documents.len() > 0 && server.store.next_sequence == u64::MAX {
        Outcome { server, result: Err(FollowerError::Store(StoreError::SequenceExhausted)) }
    } else {
        let server = if documents.len() > 0 {
            staged(server, last_id.index, documents)
        } else {
            server
        };
        if has_eof(updates) {
            updates_requested(server, first_id, last_id, commit_index, changed)
        } else {
            Outcome {
                server,
                result: Ok(
                    (
                        StateView::AppendChanges { first_id, last_id, changed_accounts: changed },
                        Reply::Continue,
                    ),
                ),
            }
        }
    }
}

impl JMAPServer {
    /// Commits at the end of the forward path.
    fn commit_updates(&mut self, last_id: RaftId, leader_commit_index: LogIndex) -> (result: Result<
        (State, AppendEntriesResponse),
        FollowerError,
    >)
        requires
            old(self).wf(),
        ensures
            final(self).wf(),
            step_meets(final(self)@,
                result,
                committed(old(self)@, last_id, leader_commit_index),
            ),
    {
        if last_id.index <= leader_commit_index {
            match self.store.apply_pending_updates(last_id.index, false) {
                Ok(_) => {},
                Err(error) => {
                    return Err(FollowerError::Store(error));
                },
            }
            if last_id.index == leader_commit_index {
                self.set_up_to_date(true);
                self.update_raft_index(last_id.index);
            }
        }
        Ok((State::Synchronize, AppendEntriesResponse::Commit { commit_index: last_id.index }))
    }

    /// Asks the leader for the documents of the collections that changed,
    /// one collection at a time, and commits once none is left. The net
    /// changes of a collection are those of its records from the first
    /// position received to the last, both included: the records that came
    /// with the first entry are kept under its index.
    pub fn request_updates(
        &mut self,
        first_id: RaftId,
        last_id: RaftId,
        leader_commit_index: LogIndex,
        changed_accounts: Vec<(AccountId, Collections)>,
    ) -> (result: Result<(State, AppendEntriesResponse), FollowerError>)
        requires
            old(self).wf(),
        ensures
            final(self).wf(),
            step_meets(final(self)@,
                result,
                updates_requested(
                    old(self)@,
                    first_id,
                    last_id,
                    leader_commit_index,
                    changed_accounts@,
                ),
            ),
    {
        let ghost start = self@;
        let ghost given = changed_accounts@;
        let ghost target = updates_requested(
            self@,
            first_id,
            last_id,
            leader_commit_index,
            changed_accounts@,
        );
        let mut changed = changed_accounts;
        loop
            invariant
                self.wf(),
                start == old(self)@,
                given == changed_accounts@,
                target == updates_requested(start, first_id, last_id, leader_commit_index, given),
                target == updates_requested(
                    self@,
                    first_id,
                    last_id,
                    leader_commit_index,
                    changed@,
                ),
            decreases changed@.len(), work_left(changed@),
        {
            let len = changed.len();
            if len == 0 {
                let result = self.commit_updates(last_id, leader_commit_index);
                assert(step_meets(self@, result, target));
                return result;
            }
            let (account_id, mut collections) = changed[len - 1];
            let ghost before = changed@;
            let collection = match collections.pop() {
                Some(collection) => collection,
                None => {
                    changed.pop();
                    assert(changed@ =~= before.drop_last());
                    continue ;
                },
            };
            changed.set(len - 1, (account_id, collections));
            if let Collection::Thread = collection {
                continue ;
            }
            let mut changes = self.store.merge_changes_between(
                account_id,
                collection,
                first_id.index,
                last_id.index,
            );
            if !changes.deletes.is_empty() {
                let document_ids = MergedChanges::ids(&changes.deletes);
                let mut updates: Vec<PendingUpdate> = Vec::new();
                updates.push(PendingUpdate::DeleteDocuments { account_id, collection, document_ids });
                proof {
                    assert(updates_view(updates@) =~= seq![
                        PendingUpdateView::DeleteDocuments {
                            account_id,
                            collection,
                            document_ids: sorted_ids(changes@.deletes),
                        },
                    ]);
                }
                match self.store.stage(last_id.index, updates) {
                    Ok(_) => {},
                    Err(error) => {
                        let result = Err(FollowerError::Store(error));
                        assert(step_meets(self@, result, target));
                        return result;
                    },
                }
                changes.deletes.clear();
            }
            if !changes.inserts.is_empty() || !changes.updates.is_empty() {
                let serialized = changes.serialize();
                let result = match update_reply(account_id, collection, serialized) {
                    Ok(response) => Ok(
                        (
                            State::AppendChanges { first_id, last_id, changed_accounts: changed },
                            response,
                        ),
                    ),
                    Err(error) => Err(error),
                };
                assert(step_meets(self@, result, target));
                return result;
            }
        }
    }

    /// Takes in a message of log entries and change records.
    pub fn handle_update_log(
        &mut self,
        first_id: RaftId,
        last_id: RaftId,
        leader_commit_index: LogIndex,
        changed_accounts: Vec<(AccountId, Collections)>,
        updates: Vec<Update>,
    ) -> (result: Result<(State, AppendEntriesResponse), FollowerError>)
        requires
            old(self).wf(),
        ensures
            final(self).wf(),
            step_meets(final(self)@,
                result,
                update_log_outcome(
                    old(self)@,
                    first_id,
                    last_id,
                    leader_commit_index,
                    changed_accounts@,
                    updates@,
                ),
            ),
    {
        let mut first = first_id;
        let mut last = last_id;
        let mut changed = changed_accounts;
        let mut is_done = updates.len() == 0;
        let ghost all = updates@;
        let ghost start = Stream {
            store: self@.store,
            first_id,
            last_id,
            changed_accounts: changed_accounts@,
        };
        for update in it: updates
            invariant
                self.wf(),
                it.seq() == all,
                all == updates@,
                start == (Stream {
                    store: old(self)@.store,
                    first_id,
                    last_id,
                    changed_accounts: changed_accounts@,
                }),
                self@ == (ServerView { store: self@.store, ..old(self)@ }),
                stream_taken(start, all.take(it.index() as int)) == (Stream {
                    store: self@.store,
                    first_id: first,
                    last_id: last,
                    changed_accounts: changed@,
                }),
                is_done == (all.len() == 0 || has_eof(all.take(it.index() as int))),
        {
            let ghost index = it.index() as int;
            let ghost before = all.take(index);
            let ghost prefix = all.take(index + 1);
            proof {
                assert(prefix.drop_last() =~= before);
                assert(prefix.last() == all[index]);
                if has_eof(before) {
                    let k = choose|k: int| 0 <= k < before.len() && (#[trigger] before[k]) is Eof;
                    assert(prefix[k] is Eof);
                }
                if has_eof(prefix) {
                    let k = choose|k: int| 0 <= k < prefix.len() && (#[trigger] prefix[k]) is Eof;
                    if k < index {
                        assert(before[k] is Eof);
                    }
                }
            }
            match update {
                Update::Change { account_id, collection, change } => {
                    self.store.set_change(account_id, collection, last.index, change);
                    mark_changed(&mut changed, account_id, collection);
                },
                Update::Log { raft_id, log } => {
                    if first.is_none() {
                        first = raft_id;
                    }
                    last = raft_id;
                    self.store.set_log(raft_id, log);
                },
                Update::Eof => {
                    is_done = true;
                    assert(prefix[index] is Eof);
                },
                _ => {},
            }
        }
        assert(all.take(all.len() as int) =~= all);
        if is_done {
            self.request_updates(first, last, leader_commit_index, changed)
        } else {
            Ok(
                (
                    State::AppendEntries { first_id: first, last_id: last, changed_accounts: changed },
                    AppendEntriesResponse::Continue,
                ),
            )
        }
    }

    /// Takes in a message of documents that the follower asked for.
    pub fn handle_pending_updates(
        &mut self,
        first_id: RaftId,
        last_id: RaftId,
        leader_commit_index: LogIndex,
        changed_accounts: Vec<(AccountId, Collections)>,
        updates: Vec<Update>,
    ) -> (result: Result<(State, AppendEntriesResponse), FollowerError>)
        requires
            old(self).wf(),
        ensures
            final(self).wf(),
            step_meets(final(self)@,
                result,
                pending_outcome(
                    old(self)@,
                    first_id,
                    last_id,
                    leader_commit_index,
                    changed_accounts@,
                    updates@,
                ),
            ),
    {
        let (pending_updates, is_done) = collect_document_updates(updates);
        if pending_updates.len() > 0 {
            match self.store.stage(last_id.index, pending_updates) {
                Ok(_) => {},
                Err(error) => {
                    return Err(FollowerError::Store(error));
                },
            }
        }
        if !is_done {
            Ok(
                (
                    State::AppendChanges { first_id, last_id, changed_accounts },
                    AppendEntriesResponse::Continue,
                ),
            )
        } else {
            self.request_updates(first_id, last_id, leader_commit_index, changed_accounts)
        }
    }
}

} // verus!

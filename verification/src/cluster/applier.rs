//! Applying updates received from the leader to the documents of a
//! follower.

use crate::cluster::log::{DocumentUpdate, Update};
use crate::cluster::pending::{
    apply_staged, apply_updates, delete_operations, pending_key, updates_view, PendingUpdate,
    PendingUpdateView,
};
use crate::codec::lz4_decompress;
use crate::collection::{AccountId, Collection, Collections, DocumentId};
use crate::document::{
    apply_batches, apply_operations, batches_view, clone_tags, Document, Documents, Mailbox, Tag,
    WriteBatch, WriteBatchView, WriteOperation, WriteOperationView,
};
use crate::changes::{change_key, Change};
use crate::raft::{groups_touch, Entry, LogIndex, SnapshotGroup};
use crate::store::{names_pair, pair_keys_valid, JMAPStore, StoreError, StoreView};
use crate::table::{
    above, filtered, kept, lemma_above_is_tail, lemma_filtered_agree, lemma_filtered_rows,
    lemma_filtered_twice, lemma_kept_rows, lemma_rank_is_split, lemma_view_keys,
    lemma_without_is_filtered, put, rows_view, sorted, Key, KeyPart, Row, Table,
};
use vstd::prelude::*;

verus! {

/// Running operations one list after another is running their
/// concatenation.
pub proof fn lemma_apply_operations_concat(
    account_id: AccountId,
    first: Seq<WriteOperationView>,
    second: Seq<WriteOperationView>,
    documents: Documents,
)
    ensures
        apply_operations(account_id, first + second, documents) == apply_operations(
            account_id,
            second,
            apply_operations(account_id, first, documents),
        ),
    decreases second.len(),
{
    if second.len() == 0 {
        assert(first + second =~= first);
    } else {
        lemma_apply_operations_concat(account_id, first, second.drop_last(), documents);
        assert((first + second).drop_last() =~= first + second.drop_last());
    }
}

/// Once a prefix of a list of updates cannot be applied, the list cannot.
pub proof fn lemma_apply_updates_fails(
    updates: Seq<PendingUpdateView>,
    len: int,
    documents: Documents,
)
    requires
        0 <= len <= updates.len(),
        apply_updates(updates.take(len), documents) is None,
    ensures
        apply_updates(updates, documents) is None,
    decreases updates.len() - len,
{
    if len == updates.len() {
        assert(updates.take(len) =~= updates);
    } else {
        assert(updates.take(len + 1).drop_last() =~= updates.take(len));
        lemma_apply_updates_fails(updates, len + 1, documents);
    }
}

/// The updates of documents among the items of a stream, as updates to
/// stage, in order.
pub open spec fn document_updates(updates: Seq<Update>) -> Seq<PendingUpdateView>
    decreases updates.len(),
{
    if updates.len() == 0 {
        Seq::empty()
    } else {
        let before = document_updates(updates.drop_last());
        match updates.last() {
            Update::Document { account_id, document_id, update } => before.push(
                PendingUpdateView::UpdateDocument { account_id, document_id, update: update@ },
            ),
            _ => before,
        }
    }
}

/// Whether the stream holds the mark of the end of a batch.
pub open spec fn has_eof(updates: Seq<Update>) -> bool {
    exists|i: int| 0 <= i < updates.len() && (#[trigger] updates[i]) is Eof
}

/// Picks the updates of documents out of a stream, and tells whether the
/// stream holds the mark of the end of a batch. Other items are not expected
/// here and are passed over.
pub fn collect_document_updates(updates: Vec<Update>) -> (collected: (Vec<PendingUpdate>, bool))
    ensures
        updates_view(collected.0@) == document_updates(updates@),
        collected.1 == has_eof(updates@),
{
    let mut pending: Vec<PendingUpdate> = Vec::new();
    let mut is_done = false;
    let ghost all = updates@;
    for update in it: updates
        invariant
            it.seq() == all,
            updates_view(pending@) == document_updates(all.take(it.index() as int)),
            is_done == has_eof(all.take(it.index() as int)),
    {
        let ghost index = it.index() as int;
        let ghost before = all.take(index);
        let ghost prefix = all.take(index + 1);
        proof {
            assert(prefix.drop_last() =~= before);
            assert(prefix.last() == all[index]);
            if has_eof(before) {
                let k = choose|k: int| 0 <= k < before.len() && (#[trigger] before[k]) is Eof;
                assert(prefix[k] is Eof);
            }
            if has_eof(prefix) {
                let k = choose|k: int| 0 <= k < prefix.len() && (#[trigger] prefix[k]) is Eof;
                if k < index {
                    assert(before[k] is Eof);
                }
            }
        }
        match update {
            Update::Document { account_id, document_id, update } => {
                let ghost old_pending = pending@;
                pending.push(PendingUpdate::UpdateDocument { account_id, document_id, update });
                assert(updates_view(pending@) =~= updates_view(old_pending).push(
                    PendingUpdateView::UpdateDocument { account_id, document_id, update: update@ },
                ));
            },
            Update::Eof => {
                is_done = true;
                assert(prefix[index] is Eof);
            },
            _ => {},
        }
    }
    assert(all.take(all.len() as int) =~= all);
    (pending, is_done)
}

/// What a store does with the updates that replication hands it.
pub trait JMAPStoreRaftUpdates {
    /// Whether the store is in a state in which updates can be applied.
    spec fn valid(&self) -> bool;

    fn apply_pending_updates(&mut self, apply_up_to: LogIndex, do_reset: bool) -> Result<
        bool,
        StoreError,
    >
        requires
            old(self).valid(),
    ;

    fn apply_rollback_updates(&mut self, changes: Vec<Update>) -> Result<bool, StoreError>
        requires
            old(self).valid(),
    ;

    fn apply_document_update(
        &self,
        account_id: AccountId,
        document_id: DocumentId,
        update: DocumentUpdate,
        document_batch: &mut WriteBatch,
    ) -> Result<(), StoreError>
        requires
            old(document_batch).account_id == account_id,
    ;
}

/// The log index up to which staged updates are applied, given the index
/// asked for and the marker that the store holds. `LogIndex::MAX` asks for
/// the marker.
pub open spec fn apply_target(apply_up_to: LogIndex, last_applied: Option<LogIndex>) -> Option<
    LogIndex,
> {
    if apply_up_to != LogIndex::MAX {
        Some(apply_up_to)
    } else {
        last_applied
    }
}

/// The documents after the staged batches up to `target` were applied. A
/// target of `LogIndex::MAX` stands for no index: nothing is applied.
pub open spec fn documents_applied(
    staged: Seq<Row<Seq<PendingUpdateView>>>,
    target: LogIndex,
    documents: Documents,
) -> Option<Documents> {
    if target == LogIndex::MAX {
        Some(documents)
    } else {
        apply_staged(staged, target, documents)
    }
}

/// The collection that the key of a change record names.
pub open spec fn key_collection(key: Key) -> Collection {
    Collection::spec_from_id(key.minor as u8).unwrap()
}

/// Whether the change record under `key` belongs to the log entry at
/// `index`: it is a record of that index for a collection of an account
/// that the entry lists as changed.
pub open spec fn entry_dooms(entry: Entry, index: LogIndex, key: Key) -> bool {
    key.tail == index && names_pair(key) && entry.touches(
        key.major as AccountId,
        key_collection(key),
    )
}

/// Whether a reset for `target` discards the log entry at `index`: every
/// entry beyond the target, and every entry where the target is no index.
pub open spec fn discarded(target: LogIndex, index: LogIndex) -> bool {
    target == LogIndex::MAX || index > target
}

/// Whether a reset for `target` discards the change record under `key`: it
/// does where the record belongs to a log entry that it discards.
pub open spec fn reset_dooms(log: Seq<Row<Entry>>, target: LogIndex, key: Key) -> bool {
    exists|i: int|
        0 <= i < log.len() && discarded(target, (#[trigger] log[i]).key.minor) && entry_dooms(
            log[i].value,
            log[i].key.minor,
            key,
        )
}

/// Whether a change record under `key` is one of index `index` for
/// `collection` of one of the accounts.
pub open spec fn names_one_of(
    key: Key,
    account_ids: Seq<AccountId>,
    collection: Collection,
    index: LogIndex,
) -> bool {
    key.tail == index && key.minor == collection.spec_id() as u64 && key.major <= AccountId::MAX
        && account_ids.contains(key.major as AccountId)
}

/// Whether a change record under `key` is one of index `index` for one of
/// the collections of one of the accounts.
pub open spec fn names_some_of(
    key: Key,
    account_ids: Seq<AccountId>,
    collections: Set<Collection>,
    index: LogIndex,
) -> bool {
    key.tail == index && names_pair(key) && collections.contains(key_collection(key))
        && account_ids.contains(key.major as AccountId)
}

/// Drops the change records of index `index` for `collection` of the
/// accounts.
fn purge_accounts(
    changes: &mut Table<Change>,
    account_ids: &Vec<AccountId>,
    collection: Collection,
    index: LogIndex,
)
    requires
        old(changes).wf(),
        pair_keys_valid(old(changes)@),
    ensures
        final(changes).wf(),
        pair_keys_valid(final(changes)@),
        final(changes)@ == filtered(
            old(changes)@,
            |key: Key| !names_one_of(key, account_ids@, collection, index),
        ),
{
    let ghost start = changes@;
    let mut j: usize = 0;
    proof {
        lemma_filtered_agree(
            start,
            |key: Key| !names_one_of(key, account_ids@.take(0), collection, index),
            |key: Key| true,
        );
        lemma_filtered_all(start);
    }
    while j < account_ids.len()
        invariant
            j <= account_ids@.len(),
            changes.wf(),
            start == old(changes)@,
            pair_keys_valid(start),
            changes@ == filtered(
                start,
                |key: Key| !names_one_of(key, account_ids@.take(j as int), collection, index),
            ),
        decreases account_ids@.len() - j,
    {
        let doomed = change_key(account_ids[j], collection, index);
        proof {
            let before = |key: Key|
                !names_one_of(key, account_ids@.take(j as int), collection, index);
            let other = |key: Key| key != doomed;
            let after = |key: Key|
                !names_one_of(key, account_ids@.take(j + 1), collection, index);
            lemma_without_is_filtered(changes@, doomed);
            lemma_filtered_twice(start, before, other);
            assert forall|i: int| 0 <= i < start.len() implies (before((#[trigger] start[i]).key)
                && other(start[i].key)) == after(start[i].key) by {
                let key = start[i].key;
                let ids = account_ids@;
                let shorter = ids.take(j as int);
                let longer = ids.take(j + 1);
                if key.major <= AccountId::MAX {
                    let account = key.major as AccountId;
                    if longer.contains(account) {
                        let k = choose|k: int| 0 <= k < longer.len() && longer[k] == account;
                        if k < j {
                            assert(shorter[k] == account);
                        }
                    }
                    if shorter.contains(account) {
                        let k = choose|k: int| 0 <= k < shorter.len() && shorter[k] == account;
                        assert(longer[k] == account);
                    }
                    if account == ids[j as int] {
                        assert(longer[j as int] == account);
                    }
                }
            }
            lemma_filtered_agree(start, |key: Key| before(key) && other(key), after);
        }
        changes.remove(doomed);
        j += 1;
    }
    proof {
        assert(account_ids@.take(j as int) =~= account_ids@);
        lemma_filtered_rows(
            start,
            |key: Key| !names_one_of(key, account_ids@, collection, index),
        );
    }
}

/// Keeping the rows of every key keeps the rows as they are.
proof fn lemma_filtered_all<V>(rows: Seq<Row<V>>)
    ensures
        filtered(rows, |key: Key| true) == rows,
    decreases rows.len(),
{
    if rows.len() > 0 {
        lemma_filtered_all(rows.drop_last());
        assert(rows.drop_last().push(rows.last()) =~= rows);
    }
}

/// Drops the change records of index `index` for the collections of the
/// accounts.
fn purge_collections(
    changes: &mut Table<Change>,
    account_ids: &Vec<AccountId>,
    collections: Collections,
    index: LogIndex,
)
    requires
        old(changes).wf(),
        pair_keys_valid(old(changes)@),
    ensures
        final(changes).wf(),
        pair_keys_valid(final(changes)@),
        final(changes)@ == filtered(
            old(changes)@,
            |key: Key| !names_some_of(key, account_ids@, collections@, index),
        ),
{
    let ghost start = changes@;
    let mut rest = collections;
    proof {
        lemma_filtered_agree(
            start,
            |key: Key|
                !names_some_of(key, account_ids@, collections@.difference(rest@), index),
            |key: Key| true,
        );
        lemma_filtered_all(start);
    }
    loop
        invariant
            changes.wf(),
            start == old(changes)@,
            pair_keys_valid(start),
            rest@.subset_of(collections@),
            changes@ == filtered(
                start,
                |key: Key|
                    !names_some_of(key, account_ids@, collections@.difference(rest@), index),
            ),
        decreases rest.height(),
    {
        let ghost left = rest@;
        let collection = match rest.pop() {
            Some(collection) => collection,
            None => {
                proof {
                    assert(collections@.difference(rest@) =~= collections@);
                    lemma_filtered_rows(
                        start,
                        |key: Key| !names_some_of(key, account_ids@, collections@, index),
                    );
                }
                return ;
            },
        };
        proof {
            let before = |key: Key|
                !names_some_of(key, account_ids@, collections@.difference(left), index);
            let other = |key: Key| !names_one_of(key, account_ids@, collection, index);
            let after = |key: Key|
                !names_some_of(key, account_ids@, collections@.difference(rest@), index);
            lemma_filtered_twice(start, before, other);
            assert forall|i: int| 0 <= i < start.len() implies (before((#[trigger] start[i]).key)
                && other(start[i].key)) == after(start[i].key) by {
                let key = start[i].key;
                assert(names_pair(key));
                assert(key_collection(key).spec_id() == key.minor);
                assert(Collection::spec_from_id(collection.spec_id()) == Some(collection));
            }
            lemma_filtered_agree(start, |key: Key| before(key) && other(key), after);
            lemma_filtered_rows(start, before);
        }
        purge_accounts(changes, account_ids, collection, index);
    }
}

/// Drops the change records that belong to a log entry at `index`.
fn purge_entry(changes: &mut Table<Change>, entry: &Entry, index: LogIndex)
    requires
        old(changes).wf(),
        pair_keys_valid(old(changes)@),
    ensures
        final(changes).wf(),
        pair_keys_valid(final(changes)@),
        final(changes)@ == filtered(old(changes)@, |key: Key| !entry_dooms(*entry, index, key)),
{
    let ghost start = changes@;
    match entry {
        Entry::Item { account_id, changed_collections } => {
            let mut account_ids: Vec<AccountId> = Vec::new();
            account_ids.push(*account_id);
            purge_collections(changes, &account_ids, *changed_collections, index);
            proof {
                assert(account_ids@[0] == *account_id);
                lemma_filtered_agree(
                    start,
                    |key: Key|
                        !names_some_of(key, account_ids@, changed_collections@, index),
                    |key: Key| !entry_dooms(*entry, index, key),
                );
            }
        },
        Entry::Snapshot { changed_accounts } => {
            let ghost groups = changed_accounts@;
            let mut g: usize = 0;
            proof {
                lemma_filtered_agree(
                    start,
                    |key: Key| !snapshot_dooms(groups.take(0), index, key),
                    |key: Key| true,
                );
                lemma_filtered_all(start);
            }
            while g < changed_accounts.len()
                invariant
                    g <= groups.len(),
                    groups == changed_accounts@,
                    changes.wf(),
                    pair_keys_valid(changes@),
                    pair_keys_valid(start),
                    start == old(changes)@,
                    changes@ == filtered(
                        start,
                        |key: Key| !snapshot_dooms(groups.take(g as int), index, key),
                    ),
                decreases groups.len() - g,
            {
                let group = &changed_accounts[g];
                proof {
                    let before = |key: Key| !snapshot_dooms(groups.take(g as int), index, key);
                    let other = |key: Key|
                        !names_some_of(key, group.account_ids@, group.collections@, index);
                    let after = |key: Key| !snapshot_dooms(groups.take(g + 1), index, key);
                    lemma_filtered_twice(start, before, other);
                    assert forall|i: int| 0 <= i < start.len() implies (before(
                        (#[trigger] start[i]).key,
                    ) && other(start[i].key)) == after(start[i].key) by {
                        let key = start[i].key;
                        let account = key.major as AccountId;
                        let collection = key_collection(key);
                        let shorter = groups.take(g as int);
                        let longer = groups.take(g + 1);
                        if groups_touch(shorter, account, collection) {
                            let k = choose|k: int|
                                0 <= k < shorter.len() && (#[trigger] shorter[k]).collections@.contains(
                                    collection,
                                ) && shorter[k].account_ids@.contains(account);
                            assert(longer[k] == shorter[k]);
                        }
                        if groups_touch(longer, account, collection) {
                            let k = choose|k: int|
                                0 <= k < longer.len() && (#[trigger] longer[k]).collections@.contains(
                                    collection,
                                ) && longer[k].account_ids@.contains(account);
                            if k < g {
                                assert(shorter[k] == longer[k]);
                            } else {
                                assert(longer[k] == *group);
                            }
                        }
                        if group.collections@.contains(collection) && group.account_ids@.contains(
                            account,
                        ) {
                            assert(longer[g as int] == *group);
                        }
                    }
                    lemma_filtered_agree(start, |key: Key| before(key) && other(key), after);
                }
                purge_collections(changes, &group.account_ids, group.collections, index);
                g += 1;
            }
            proof {
                assert(groups.take(g as int) =~= groups);
                lemma_filtered_agree(
                    start,
                    |key: Key| !snapshot_dooms(groups, index, key),
                    |key: Key| !entry_dooms(*entry, index, key),
                );
            }
        },
    }
}

/// Whether the change record under `key` is one of index `index` for a
/// collection of an account that one of the groups lists.
pub open spec fn snapshot_dooms(groups: Seq<SnapshotGroup>, index: LogIndex, key: Key) -> bool {
    key.tail == index && names_pair(key) && groups_touch(
        groups,
        key.major as AccountId,
        key_collection(key),
    )
}

/// Drops the change records that belong to the log entries that a reset
/// for `target` discards.
fn purge_discarded(changes: &mut Table<Change>, log: &Table<Entry>, target: LogIndex)
    requires
        old(changes).wf(),
        pair_keys_valid(old(changes)@),
    ensures
        final(changes).wf(),
        pair_keys_valid(final(changes)@),
        final(changes)@ == filtered(old(changes)@, |key: Key| !reset_dooms(log@, target, key)),
{
    let ghost start = changes@;
    let ghost entries = log@;
    let mut i: usize = 0;
    proof {
        lemma_filtered_agree(
            start,
            |key: Key| !reset_dooms(entries.take(0), target, key),
            |key: Key| true,
        );
        lemma_filtered_all(start);
    }
    while i < log.len()
        invariant
            i <= entries.len(),
            entries == log@,
            changes.wf(),
            pair_keys_valid(changes@),
            start == old(changes)@,
            changes@ == filtered(
                start,
                |key: Key| !reset_dooms(entries.take(i as int), target, key),
            ),
        decreases entries.len() - i,
    {
        let row = log.row(i);
        let index = row.key.minor;
        proof {
            let shorter = entries.take(i as int);
            let longer = entries.take(i + 1);
            let before = |key: Key| !reset_dooms(shorter, target, key);
            let other = |key: Key| !entry_dooms(row.value, index, key);
            let after = |key: Key| !reset_dooms(longer, target, key);
            let dooms = target == LogIndex::MAX || index > target;
            assert forall|key: Key|
                reset_dooms(longer, target, key) == (reset_dooms(shorter, target, key) || (dooms
                    && entry_dooms(row.value, index, key))) by {
                if reset_dooms(shorter, target, key) {
                    let k = choose|k: int|
                        0 <= k < shorter.len() && discarded(target, (#[trigger] shorter[k]).key.minor)
                            && entry_dooms(shorter[k].value, shorter[k].key.minor, key);
                    assert(longer[k] == shorter[k]);
                }
                if reset_dooms(longer, target, key) {
                    let k = choose|k: int|
                        0 <= k < longer.len() && discarded(target, (#[trigger] longer[k]).key.minor)
                            && entry_dooms(longer[k].value, longer[k].key.minor, key);
                    if k < i {
                        assert(shorter[k] == longer[k]);
                    }
                }
                if dooms && entry_dooms(row.value, index, key) {
                    assert(longer[i as int] == *row);
                }
            }
            if dooms {
                lemma_filtered_twice(start, before, other);
                lemma_filtered_agree(start, |key: Key| before(key) && other(key), after);
            } else {
                lemma_filtered_agree(start, before, after);
            }
        }
        if target == LogIndex::MAX || index > target {
            purge_entry(changes, &row.value, index);
        }
        i += 1;
    }
    assert(entries.take(i as int) =~= entries);
}

/// The store after `apply_pending_updates` has run to the end for `target`.
pub open spec fn store_applied(
    store: StoreView,
    target: LogIndex,
    do_reset: bool,
    documents: Documents,
) -> StoreView {
    if do_reset {
        StoreView {
            log: if target == LogIndex::MAX {
                Seq::empty()
            } else {
                kept(store.log, KeyPart::Minor, target)
            },
            changes: filtered(store.changes, |key: Key| !reset_dooms(store.log, target, key)),
            pending: Seq::empty(),
            documents,
            last_applied: None,
            ..store
        }
    } else {
        StoreView {
            pending: if target == LogIndex::MAX {
                store.pending
            } else {
                above(store.pending, KeyPart::Major, target)
            },
            documents,
            last_applied: Some(target),
            ..store
        }
    }
}

/// The store after `apply_pending_updates` has run, or `None` where a staged
/// update cannot be carried out.
pub open spec fn pending_applied(store: StoreView, apply_up_to: LogIndex, do_reset: bool) -> Option<
    StoreView,
> {
    match apply_target(apply_up_to, store.last_applied) {
        None => Some(store),
        Some(target) => match documents_applied(store.pending, target, store.documents) {
            Some(documents) => Some(store_applied(store, target, do_reset, documents)),
            None => None,
        },
    }
}

impl JMAPStore {
    /// Adds to `batch` what sets the tags of message `document_id`, and with
    /// `insert` the message itself: its raw form and the time it was
    /// received.
    pub fn raft_update_mail(
        &self,
        batch: &mut WriteBatch,
        document_id: DocumentId,
        thread_id: DocumentId,
        mailboxes: Vec<Tag>,
        keywords: Vec<Tag>,
        insert: Option<(Vec<u8>, i64)>,
    )
        ensures
            final(batch)@ == (WriteBatchView {
                operations: old(batch)@.operations.push(
                    match insert {
                        Some((message, received_at)) => WriteOperationView::Insert {
                            collection: Collection::Mail,
                            document_id,
                            document: (Document::Mail {
                                thread_id,
                                mailboxes,
                                keywords,
                                received_at,
                                message,
                            })@,
                        },
                        None => (WriteOperation::Tag {
                            document_id,
                            thread_id,
                            mailboxes,
                            keywords,
                        })@,
                    },
                ),
                ..old(batch)@
            }),
    {
        match insert {
            Some((message, received_at)) => {
                batch.insert_document(
                    Collection::Mail,
                    document_id,
                    Document::Mail { thread_id, mailboxes, keywords, received_at, message },
                );
            },
            None => {
                batch.tag_document(document_id, thread_id, mailboxes, keywords);
            },
        }
    }

    /// Adds to `batch` what sets the properties of mailbox `document_id`.
    pub fn raft_update_mailbox(&self, batch: &mut WriteBatch, document_id: DocumentId, mailbox: Mailbox)
        ensures
            final(batch)@ == (WriteBatchView {
                operations: old(batch)@.operations.push(
                    WriteOperationView::Insert {
                        collection: Collection::Mailbox,
                        document_id,
                        document: (Document::Mailbox { mailbox })@,
                    },
                ),
                ..old(batch)@
            }),
    {
        batch.insert_document(Collection::Mailbox, document_id, Document::Mailbox { mailbox });
    }

    /// Adds to `batch` the operation that carries out `update` on document
    /// `document_id`. The body of a new message is decompressed first;
    /// where that fails the batch stays as it is.
    pub fn stage_document_update(
        &self,
        document_id: DocumentId,
        update: &DocumentUpdate,
        batch: &mut WriteBatch,
    ) -> (applied: Result<(), StoreError>)
        ensures
            match applied {
                Ok(()) => update@.operation(document_id) is Some && final(batch)@ == (
                WriteBatchView {
                    operations: old(batch)@.operations.push(
                        update@.operation(document_id).unwrap(),
                    ),
                    ..old(batch)@
                }),
                Err(error) => error == StoreError::Decompress && update@.operation(document_id)
                    is None && final(batch)@ == old(batch)@,
            },
    {
        match update {
            DocumentUpdate::InsertMail { thread_id, keywords, mailboxes, received_at, body } => {
                match lz4_decompress(body.as_slice()) {
                    Some(message) => {
                        self.raft_update_mail(
                            batch,
                            document_id,
                            *thread_id,
                            clone_tags(mailboxes),
                            clone_tags(keywords),
                            Some((message, *received_at)),
                        );
                        Ok(())
                    },
                    None => Err(StoreError::Decompress),
                }
            },
            DocumentUpdate::UpdateMail { thread_id, keywords, mailboxes } => {
                self.raft_update_mail(
                    batch,
                    document_id,
                    *thread_id,
                    clone_tags(mailboxes),
                    clone_tags(keywords),
                    None,
                );
                Ok(())
            },
            DocumentUpdate::UpdateMailbox { mailbox } => {
                self.raft_update_mailbox(batch, document_id, mailbox.duplicate());
                Ok(())
            },
        }
    }

    /// Applies updates in order, all of them or, where one of them cannot
    /// be carried out, none. Operations that follow one another for one
    /// account are gathered and written together.
    pub fn apply_updates(&mut self, updates: &Vec<PendingUpdate>) -> (applied: Result<
        (),
        StoreError,
    >)
        requires
            old(self).wf(),
        ensures
            final(self).wf(),
            match applied {
                Ok(()) => apply_updates(updates_view(updates@), old(self)@.documents) is Some
                    && final(self)@ == (StoreView {
                    documents: apply_updates(
                        updates_view(updates@),
                        old(self)@.documents,
                    ).unwrap(),
                    ..old(self)@
                }),
                Err(error) => error == StoreError::Decompress && apply_updates(
                    updates_view(updates@),
                    old(self)@.documents,
                ) is None && *final(self) == *old(self),
            },
    {
        let mut batches: Vec<WriteBatch> = Vec::new();
        let mut batch = WriteBatch::new(AccountId::MAX);
        let ghost views = updates_view(updates@);
        let ghost start = self@.documents;
        let mut i: usize = 0;
        assert(batches_view(batches@) =~= Seq::<WriteBatchView>::empty());
        while i < updates.len()
            invariant
                i <= updates@.len(),
                views == updates_view(updates@),
                start == self@.documents,
                *self == *old(self),
                self.wf(),
                apply_updates(views.take(i as int), start) == Some(
                    apply_operations(
                        batch@.account_id,
                        batch@.operations,
                        apply_batches(batches_view(batches@), start),
                    ),
                ),
            decreases updates@.len() - i,
        {
            let ghost index = i as int;
            proof {
                assert(views.take(index + 1).drop_last() =~= views.take(index));
                assert(views.take(index + 1).last() == updates@[index]@);
                assert(views[index] == updates@[index]@);
            }
            match &updates[i] {
                PendingUpdate::UpdateDocument { account_id, document_id, update } => {
                    batch = switch_batch(batch, *account_id, &mut batches, Ghost(start));
                    let ghost operations = batch@.operations;
                    let ghost written = apply_batches(batches_view(batches@), start);
                    match self.stage_document_update(*document_id, update, &mut batch) {
                        Ok(()) => {
                            proof {
                                let operation = update@.operation(*document_id).unwrap();
                                let before = apply_operations(*account_id, operations, written);
                                assert(batch@.operations.drop_last() =~= operations);
                                assert(batch@.operations.last() == operation);
                                assert(apply_operations(*account_id, batch@.operations, written)
                                    == operation.apply(*account_id, before));
                                assert(seq![operation].drop_last() =~= Seq::<
                                    WriteOperationView,
                                >::empty());
                                assert(seq![operation].last() == operation);
                                assert(apply_operations(
                                    *account_id,
                                    Seq::<WriteOperationView>::empty(),
                                    before,
                                ) == before);
                                assert(apply_operations(*account_id, seq![operation], before)
                                    == operation.apply(*account_id, before));
                                assert(views[index].apply(before) == Some(
                                    operation.apply(*account_id, before),
                                ));
                            }
                        },
                        Err(error) => {
                            proof {
                                lemma_apply_updates_fails(views, index + 1, start);
                            }
                            return Err(error);
                        },
                    }
                },
                PendingUpdate::DeleteDocuments { account_id, collection, document_ids } => {
                    batch = switch_batch(batch, *account_id, &mut batches, Ghost(start));
                    let ghost operations = batch@.operations;
                    let ghost written = apply_batches(batches_view(batches@), start);
                    let mut j: usize = 0;
                    while j < document_ids.len()
                        invariant
                            j <= document_ids@.len(),
                            batch@ == (WriteBatchView {
                                account_id: *account_id,
                                operations: operations + delete_operations(
                                    *collection,
                                    document_ids@.take(j as int),
                                ),
                            }),
                        decreases document_ids@.len() - j,
                    {
                        batch.delete_document(*collection, document_ids[j]);
                        assert(operations + delete_operations(
                            *collection,
                            document_ids@.take(j + 1),
                        ) =~= (operations + delete_operations(
                            *collection,
                            document_ids@.take(j as int),
                        )).push(
                            WriteOperationView::Delete {
                                collection: *collection,
                                document_id: document_ids@[j as int],
                            },
                        ));
                        j += 1;
                    }
                    proof {
                        assert(document_ids@.take(j as int) =~= document_ids@);
                        lemma_apply_operations_concat(
                            *account_id,
                            operations,
                            delete_operations(*collection, document_ids@),
                            written,
                        );
                        let before = apply_operations(*account_id, operations, written);
                        assert(views[index].apply(before) == Some(
                            apply_operations(
                                *account_id,
                                delete_operations(*collection, document_ids@),
                                before,
                            ),
                        ));
                    }
                },
            }
            i += 1;
        }
        assert(views.take(views.len() as int) =~= views);
        if !batch.is_empty() {
            let ghost before = batches_view(batches@);
            batches.push(batch);
            assert(batches_view(batches@).drop_last() =~= before);
        }
        self.write_all(batches);
        Ok(())
    }
}

/// Makes `batch` a batch for `account_id`: a batch for another account
/// joins the batches to be written, if it holds anything.
fn switch_batch(
    batch: WriteBatch,
    account_id: AccountId,
    batches: &mut Vec<WriteBatch>,
    Ghost(documents): Ghost<Documents>,
) -> (next: WriteBatch)
    ensures
        next@.account_id == account_id,
        apply_operations(
            account_id,
            next@.operations,
            apply_batches(batches_view(final(batches)@), documents),
        ) == apply_operations(
            batch@.account_id,
            batch@.operations,
            apply_batches(batches_view(old(batches)@), documents),
        ),
{
    if account_id != batch.account_id {
        if !batch.is_empty() {
            let ghost before = batches_view(batches@);
            batches.push(batch);
            assert(batches_view(batches@).drop_last() =~= before);
            WriteBatch::new(account_id)
        } else {
            let mut batch = batch;
            batch.account_id = account_id;
            batch
        }
    } else {
        batch
    }
}

/// Whether every update of a batch can be carried out.
pub open spec fn applies(updates: Seq<PendingUpdateView>) -> bool {
    forall|i: int| 0 <= i < updates.len() ==> (#[trigger] updates[i]).operations() is Some
}

/// A batch can be applied exactly where each of its updates can be carried
/// out, whatever the documents.
pub proof fn lemma_applies(updates: Seq<PendingUpdateView>, documents: Documents)
    ensures
        apply_updates(updates, documents) is Some <==> applies(updates),
    decreases updates.len(),
{
    if updates.len() > 0 {
        let front = updates.drop_last();
        lemma_applies(front, documents);
        if applies(updates) {
            assert forall|i: int| 0 <= i < front.len() implies (#[trigger] front[i]).operations()
                is Some by {
                assert(front[i] == updates[i]);
            }
            assert(updates[updates.len() - 1].operations() is Some);
        }
        if apply_updates(updates, documents) is Some {
            assert forall|i: int| 0 <= i < updates.len() implies (
            #[trigger] updates[i]).operations() is Some by {
                if i < front.len() {
                    assert(front[i] == updates[i]);
                }
            }
        }
    }
}

/// How many staged batches, from the first on, have a log index up to
/// `target` and can be applied.
pub open spec fn applicable(staged: Seq<Row<Seq<PendingUpdateView>>>, target: LogIndex) -> nat
    decreases staged.len(),
{
    if staged.len() == 0 || staged[0].key.major > target || !applies(staged[0].value) {
        0
    } else {
        1 + applicable(staged.drop_first(), target)
    }
}

/// The batches before the first one that is beyond the index or cannot be
/// applied are the applicable ones.
pub proof fn lemma_applicable(
    staged: Seq<Row<Seq<PendingUpdateView>>>,
    target: LogIndex,
    done: int,
)
    requires
        0 <= done <= staged.len(),
        forall|i: int|
            0 <= i < done ==> (#[trigger] staged[i]).key.major <= target && applies(
                staged[i].value,
            ),
        done == staged.len() || staged[done].key.major > target || !applies(staged[done].value),
    ensures
        applicable(staged, target) == done,
    decreases done,
{
    if done > 0 {
        let rest = staged.drop_first();
        assert forall|i: int| 0 <= i < done - 1 implies (#[trigger] rest[i]).key.major <= target
            && applies(rest[i].value) by {
            assert(rest[i] == staged[i + 1]);
        }
        if done < staged.len() {
            assert(rest[done - 1] == staged[done]);
        }
        lemma_applicable(rest, target, done - 1);
    }
}

/// The store as a failed apply leaves it: the staged batches before the
/// one that cannot be applied are applied and dropped; that one and those
/// after it stay staged.
pub open spec fn pending_left(store: StoreView, target: LogIndex) -> StoreView {
    let done = applicable(store.pending, target) as int;
    StoreView {
        pending: store.pending.skip(done),
        documents: apply_staged(store.pending.take(done), target, store.documents).unwrap(),
        last_applied: Some(target),
        ..store
    }
}

impl JMAPStoreRaftUpdates for JMAPStore {
    open spec fn valid(&self) -> bool {
        self.wf()
    }

    /// Applies the staged batches with a log index up to `apply_up_to`, in
    /// key order, and drops each once applied; `LogIndex::MAX` stands for
    /// the index that the store has marked as applied last. Batches beyond
    /// stay staged, unless `do_reset` asks to discard them, together with
    /// the marker, the log entries beyond and their change records. Returns
    /// `false` only where there is nothing to go by: no index asked for and
    /// no marker.
    fn apply_pending_updates(&mut self, apply_up_to: LogIndex, do_reset: bool) -> (applied: Result<
        bool,
        StoreError,
    >)
        ensures
            final(self).wf(),
            applied is Ok <==> pending_applied(old(self)@, apply_up_to, do_reset) is Some,
            applied is Ok ==> final(self)@ == pending_applied(
                old(self)@,
                apply_up_to,
                do_reset,
            ).unwrap(),
            applied is Err ==> apply_target(apply_up_to, old(self)@.last_applied) is Some
                && final(self)@ == pending_left(
                old(self)@,
                apply_target(apply_up_to, old(self)@.last_applied).unwrap(),
            ),
            match apply_target(apply_up_to, old(self)@.last_applied) {
                None => applied == Ok::<bool, StoreError>(false) && final(self)@ == old(self)@,
                Some(target) => match documents_applied(
                    old(self)@.pending,
                    target,
                    old(self)@.documents,
                ) {
                    Some(documents) => applied == Ok::<bool, StoreError>(true) && final(self)@
                        == store_applied(old(self)@, target, do_reset, documents),
                    None => applied == Err::<bool, StoreError>(StoreError::Decompress),
                },
            },
    {
        let target: LogIndex = if apply_up_to != LogIndex::MAX {
            self.last_applied = Some(apply_up_to);
            apply_up_to
        } else {
            match self.last_applied {
                Some(target) => target,
                None => {
                    return Ok(false);
                },
            }
        };
        let ghost views = old(self)@.pending;
        let ghost start = old(self)@.documents;
        let ghost mut done: int = 0;
        proof {
            assert(views.take(0) =~= Seq::<Row<Seq<PendingUpdateView>>>::empty());
            assert(views.skip(0) =~= views);
            lemma_view_keys(self.pending@, pending_key(0, 0));
        }
        while self.pending.len() > 0 && target != LogIndex::MAX && self.pending.row(0).key.major
            <= target
            invariant
                self.wf(),
                0 <= done <= views.len(),
                views == old(self)@.pending,
                start == old(self)@.documents,
                sorted(views),
                self@.pending == views.skip(done),
                target == LogIndex::MAX ==> done == 0,
                apply_target(apply_up_to, old(self)@.last_applied) == Some(target),
                forall|i: int|
                    0 <= i < done ==> (#[trigger] views[i]).key.major <= target && applies(
                        views[i].value,
                    ),
                self@ == (StoreView {
                    pending: self@.pending,
                    documents: self@.documents,
                    last_applied: Some(target),
                    ..old(self)@
                }),
                apply_staged(views.take(done), target, start) == Some(self@.documents),
            decreases views.len() - done,
        {
            let ghost before = self.pending@;
            let ghost held = self@;
            assert(rows_view(before)[0] == views.skip(done)[0]);
            let row = self.pending.remove_at(0);
            proof {
                assert(rows_view(before.remove(0)) =~= rows_view(before).remove(0));
                assert(views.skip(done).remove(0) =~= views.skip(done + 1));
                assert(views.take(done + 1).drop_last() =~= views.take(done));
                assert(views.take(done + 1).last() == views[done]);
                assert(views[done].value == row.value@);
                assert(views[done].key.major <= target);
                lemma_applies(views[done].value, self@.documents);
            }
            match self.apply_updates(&row.value.updates) {
                Ok(()) => {},
                Err(error) => {
                    proof {
                        assert(apply_staged(views.take(done + 1), target, start) is None);
                        lemma_apply_staged_fails(views, done + 1, target, start);
                        lemma_applicable(views, target, done);
                        let rest = self.pending@;
                        assert forall|i: int| 0 <= i < rest.len() implies !(
                        #[trigger] rest[i]).key.lt(row.key) by {
                            assert(rest[i] == before[i + 1]);
                            assert(before[0].key.lt(before[i + 1].key));
                        }
                        lemma_rank_is_split(rest, row.key, 0);
                        if rest.len() > 0 {
                            assert(rest[0] == before[1]);
                            assert(before[0].key.lt(before[1].key));
                        }
                        assert(put(rest, row.key, row.value) =~= before);
                    }
                    self.pending.set(row.key, row.value);
                    assert(self@ == held);
                    return Err(error);
                },
            }
            proof {
                done = done + 1;
            }
        }
        proof {
            if target != LogIndex::MAX {
                assert forall|i: int| done <= i < views.len() implies (
                #[trigger] views[i]).key.spec_part(KeyPart::Major) > target by {
                    assert(rows_view(self.pending@)[0] == views.skip(done)[0]);
                    assert(views[done].key.major > target);
                    if i > done {
                        assert(views[done].key.lt(views[i].key));
                    }
                }
                assert forall|i: int| 0 <= i < done implies (
                #[trigger] views[i]).key.spec_part(KeyPart::Major) <= target by {
                    assert(views[i].key.major <= target);
                }
                lemma_above_is_tail(views, KeyPart::Major, target, done);
                lemma_apply_staged_skips(views, done, target, start);
            }
        }
        if do_reset {
            self.pending.clear();
            self.last_applied = None;
            purge_discarded(&mut self.changes, &self.log, target);
            if target == LogIndex::MAX {
                self.log.clear();
            } else {
                proof {
                    lemma_kept_rows(self.log@, KeyPart::Minor, target);
                }
                self.log.retain_upto(KeyPart::Minor, target);
            }
            assert(self@.pending =~= Seq::empty());
        }
        Ok(true)
    }

    /// Applies the documents that the leader sent for a rollback. Returns
    /// whether the stream held the mark of the end of the batch.
    fn apply_rollback_updates(&mut self, changes: Vec<Update>) -> (applied: Result<bool, StoreError>)
        ensures
            final(self).wf(),
            match applied {
                Ok(is_done) => is_done == has_eof(changes@) && apply_updates(
                    document_updates(changes@),
                    old(self)@.documents,
                ) is Some && final(self)@ == (StoreView {
                    documents: apply_updates(
                        document_updates(changes@),
                        old(self)@.documents,
                    ).unwrap(),
                    ..old(self)@
                }),
                Err(error) => error == StoreError::Decompress && apply_updates(
                    document_updates(changes@),
                    old(self)@.documents,
                ) is None && final(self)@ == old(self)@,
            },
    {
        let (updates, is_done) = collect_document_updates(changes);
        match self.apply_updates(&updates) {
            Ok(()) => Ok(is_done),
            Err(error) => Err(error),
        }
    }

    /// Adds to `document_batch`, which is a batch for `account_id`, the
    /// operation that carries out `update` on document `document_id` of the
    /// account. The body of a new message is decompressed first; where that
    /// fails the batch stays as it is.
    fn apply_document_update(
        &self,
        account_id: AccountId,
        document_id: DocumentId,
        update: DocumentUpdate,
        document_batch: &mut WriteBatch,
    ) -> (applied: Result<(), StoreError>)
        ensures
            match applied {
                Ok(()) => update@.operation(document_id) is Some && final(document_batch)@ == (
                WriteBatchView {
                    operations: old(document_batch)@.operations.push(
                        update@.operation(document_id).unwrap(),
                    ),
                    ..old(document_batch)@
                }),
                Err(error) => error == StoreError::Decompress && update@.operation(document_id)
                    is None && final(document_batch)@ == old(document_batch)@,
            },
    {
        self.stage_document_update(document_id, &update, document_batch)
    }
}

/// Once the staged batches up to some row cannot be applied, the staged
/// batches cannot.
pub proof fn lemma_apply_staged_fails(
    staged: Seq<Row<Seq<PendingUpdateView>>>,
    len: int,
    up_to: LogIndex,
    documents: Documents,
)
    requires
        0 <= len <= staged.len(),
        apply_staged(staged.take(len), up_to, documents) is None,
    ensures
        apply_staged(staged, up_to, documents) is None,
    decreases staged.len() - len,
{
    if len == staged.len() {
        assert(staged.take(len) =~= staged);
    } else {
        assert(staged.take(len + 1).drop_last() =~= staged.take(len));
        lemma_apply_staged_fails(staged, len + 1, up_to, documents);
    }
}

/// Staged batches beyond the index change nothing.
pub proof fn lemma_apply_staged_skips(
    staged: Seq<Row<Seq<PendingUpdateView>>>,
    len: int,
    up_to: LogIndex,
    documents: Documents,
)
    requires
        0 <= len <= staged.len(),
        forall|i: int| len <= i < staged.len() ==> (#[trigger] staged[i]).key.major > up_to,
    ensures
        apply_staged(staged, up_to, documents) == apply_staged(staged.take(len), up_to, documents),
    decreases staged.len() - len,
{
    if len == staged.len() {
        assert(staged.take(len) =~= staged);
    } else {
        let front = staged.drop_last();
        lemma_apply_staged_skips(front, len, up_to, documents);
        assert(front.take(len) =~= staged.take(len));
    }
}

} // verus!

//! The state that a node keeps: the replicated log, the change records, the
//! staged updates, the rollback bookkeeping and the live documents.

use crate::bitmap::{bitmap_ids, bitmap_to_vec, treemap_ids};
use crate::changes::{
    change_key, in_range, lemma_apply_disjoint, lemma_merged_disjoint, lemma_merged_skip, merged,
    spec_change_key,
    Change, ChangeView, MergedChanges, MergedChangesView,
};
use crate::cluster::pending::{
    pending_key, spec_pending_key, updates_view, PendingUpdate, PendingUpdateView, PendingUpdates,
};
use crate::collection::{AccountId, Collection, DocumentId, COLLECTION_COUNT};
use crate::cluster::pending::delete_operations;
use crate::document::{
    apply_batches, apply_operations, batches_view, document_key, operations_view,
    spec_document_key, Document, Documents, WriteBatch, WriteBatchView, WriteOperation,
    WriteOperationView,
};
use roaring::RoaringBitmap;
use crate::raft::{lemma_key_order, Entry, LogIndex, RaftId, TermId};
use crate::table::{
    kept, lemma_kept_rows, lemma_position_finds, lemma_put_after_without, lemma_put_lookup,
    lemma_rank_splits, lemma_view_keys, lemma_view_put, lemma_view_without, lemma_without_lookup,
    position, put, rank, rows_view, without, Key, KeyPart, Row, Table,
};
use roaring::RoaringTreemap;
use vstd::prelude::*;

verus! {

/// What each document key holds, given the rows of the document table.
pub open spec fn documents_of(rows: Seq<Row<Document>>) -> Documents {
    Map::new(
        |key: Key| position(rows, key) is Some,
        |key: Key| rows[position(rows, key).unwrap()].value@,
    )
}

/// Whether the log holds an entry at position `id`.
pub open spec fn log_holds(log: Seq<Row<Entry>>, id: RaftId) -> bool {
    exists|i: int| 0 <= i < log.len() && (#[trigger] log[i]).key == id.spec_key()
}

/// The first position of each term, in log order.
pub open spec fn term_starts(log: Seq<Row<Entry>>) -> Seq<RaftId>
    decreases log.len(),
{
    if log.len() == 0 {
        Seq::empty()
    } else {
        let before = term_starts(log.drop_last());
        if log.len() == 1 || log[log.len() - 2].key.major != log.last().key.major {
            before.push(RaftId::spec_from_key(log.last().key))
        } else {
            before
        }
    }
}

/// The term of the first entry, in log order, whose index is `index` or
/// more.
pub open spec fn match_term(log: Seq<Row<Entry>>, index: LogIndex) -> Option<TermId>
    decreases log.len(),
{
    if log.len() == 0 {
        None
    } else {
        match match_term(log.drop_last(), index) {
            Some(term) => Some(term),
            None => if log.last().key.minor >= index {
                Some(log.last().key.major)
            } else {
                None
            },
        }
    }
}

/// The indexes from `index` on that the log holds in the term of the first
/// entry whose index is `index` or more.
pub open spec fn match_indexes(log: Seq<Row<Entry>>, index: LogIndex) -> Set<LogIndex> {
    match match_term(log, index) {
        Some(term) => Set::new(
            |i: LogIndex| i >= index && log_holds(log, RaftId { term, index: i }),
        ),
        None => Set::empty(),
    }
}

/// The newest position of the log that lies strictly before `id`: the one
/// just before the place that `id` has or would have in the log.
pub open spec fn prev_raft_id(log: Seq<Row<Entry>>, id: RaftId) -> Option<RaftId> {
    let place = rank(log, id.spec_key()) as int;
    if place == 0 {
        None
    } else {
        Some(RaftId::spec_from_key(log[place - 1].key))
    }
}

/// The newest position of the log.
pub open spec fn last_log(log: Seq<Row<Entry>>) -> Option<RaftId> {
    if log.len() == 0 {
        None
    } else {
        Some(RaftId::spec_from_key(log.last().key))
    }
}

/// The keys of the documents `ids` of a collection of an account.
pub open spec fn document_keys(
    account_id: AccountId,
    collection: Collection,
    ids: Set<DocumentId>,
) -> Set<Key> {
    Set::new(
        |key: Key|
            exists|id: DocumentId|
                ids.contains(id) && key == spec_document_key(account_id, collection, id),
    )
}

/// The documents without the documents `ids` of a collection of an account.
pub open spec fn without_documents(
    documents: Documents,
    account_id: AccountId,
    collection: Collection,
    ids: Set<DocumentId>,
) -> Documents {
    documents.remove_keys(document_keys(account_id, collection, ids))
}

/// Deleting documents one by one leaves the documents without them.
pub proof fn lemma_delete_operations(
    documents: Documents,
    account_id: AccountId,
    collection: Collection,
    ids: Seq<DocumentId>,
)
    ensures
        apply_operations(account_id, delete_operations(collection, ids), documents)
            == without_documents(documents, account_id, collection, ids.to_set()),
    decreases ids.len(),
{
    let operations = delete_operations(collection, ids);
    if ids.len() == 0 {
        assert(document_keys(account_id, collection, ids.to_set()) =~= Set::<Key>::empty());
        assert(without_documents(documents, account_id, collection, ids.to_set()) =~= documents);
    } else {
        let front = ids.drop_last();
        lemma_delete_operations(documents, account_id, collection, front);
        assert(operations.drop_last() =~= delete_operations(collection, front));
        let before = without_documents(documents, account_id, collection, front.to_set());
        let key = spec_document_key(account_id, collection, ids.last());
        assert forall|other: Key|
            document_keys(account_id, collection, ids.to_set()).contains(other) == (
            document_keys(account_id, collection, front.to_set()).contains(other) || other
                == key) by {
            if document_keys(account_id, collection, ids.to_set()).contains(other) {
                let id = choose|id: DocumentId|
                    ids.to_set().contains(id) && other == spec_document_key(
                        account_id,
                        collection,
                        id,
                    );
                let k = choose|k: int| 0 <= k < ids.len() && ids[k] == id;
                if k < front.len() {
                    assert(front[k] == id);
                    assert(front.to_set().contains(id));
                }
            }
            if document_keys(account_id, collection, front.to_set()).contains(other) {
                let id = choose|id: DocumentId|
                    front.to_set().contains(id) && other == spec_document_key(
                        account_id,
                        collection,
                        id,
                    );
                let k = choose|k: int| 0 <= k < front.len() && front[k] == id;
                assert(ids[k] == id);
                assert(ids.to_set().contains(id));
            }
            if other == key {
                assert(ids[ids.len() - 1] == ids.last());
                assert(ids.to_set().contains(ids.last()));
            }
        }
        assert(before.remove(key) =~= without_documents(
            documents,
            account_id,
            collection,
            ids.to_set(),
        ));
    }
}

/// Every log key stands for a position.
pub open spec fn log_keys_valid(log: Seq<Row<Entry>>) -> bool {
    forall|i: int| 0 <= i < log.len() ==> (#[trigger] log[i]).key.tail == 0
}

/// Whether a key names a collection of an account in its first two parts.
pub open spec fn names_pair(key: Key) -> bool {
    key.major <= AccountId::MAX && key.minor < COLLECTION_COUNT
}

pub open spec fn pair_keys_valid<V>(rows: Seq<Row<V>>) -> bool {
    forall|i: int| 0 <= i < rows.len() ==> names_pair((#[trigger] rows[i]).key)
}

/// Every rollback key names a collection of an account and nothing more.
pub open spec fn rollback_keys_valid<V>(rows: Seq<Row<V>>) -> bool {
    forall|i: int|
        0 <= i < rows.len() ==> names_pair((#[trigger] rows[i]).key) && rows[i].key.tail == 0
}

/// Whether the net changes that the rollback bookkeeping holds are
/// disjoint: of no collection is an id in two of the three sets.
pub open spec fn rollback_disjoint(rollback: Seq<Row<MergedChangesView>>) -> bool {
    forall|k: int| 0 <= k < rollback.len() ==> (#[trigger] rollback[k]).value.disjoint()
}

proof fn lemma_rank_within<V>(rows: Seq<Row<V>>, key: Key)
    ensures
        rank(rows, key) <= rows.len(),
    decreases rows.len(),
{
    if rows.len() > 0 {
        lemma_rank_within(rows.drop_last(), key);
    }
}

/// Setting a key to disjoint changes leaves the bookkeeping disjoint.
pub proof fn lemma_put_disjoint(
    rollback: Seq<Row<MergedChangesView>>,
    key: Key,
    value: MergedChangesView,
)
    requires
        rollback_disjoint(rollback),
        value.disjoint(),
    ensures
        rollback_disjoint(put(rollback, key, value)),
{
    let pos = rank(rollback, key) as int;
    let after = put(rollback, key, value);
    lemma_rank_within(rollback, key);
    assert forall|k: int| 0 <= k < after.len() implies (#[trigger] after[k]).value.disjoint() by {
        if pos < rollback.len() && rollback[pos].key == key {
            if k != pos {
                assert(after[k] == rollback[k]);
            }
        } else if k < pos {
            assert(after[k] == rollback[k]);
        } else if k > pos {
            assert(after[k] == rollback[k - 1]);
        }
    }
}

/// Striking a key off leaves the bookkeeping disjoint.
pub proof fn lemma_without_disjoint(rollback: Seq<Row<MergedChangesView>>, key: Key)
    requires
        rollback_disjoint(rollback),
    ensures
        rollback_disjoint(without(rollback, key)),
{
    let after = without(rollback, key);
    match position(rollback, key) {
        Some(pos) => {
            assert forall|k: int| 0 <= k < after.len() implies (#[trigger] after[k]).value.disjoint() by {
                if k < pos {
                    assert(after[k] == rollback[k]);
                } else {
                    assert(after[k] == rollback[k + 1]);
                }
            }
        },
        None => {},
    }
}

/// The rollback bookkeeping after every change record with a log index above
/// `after_index` was folded, in key order, into the net changes of its
/// collection of its account.
pub open spec fn rollback_prepared(
    records: Seq<Row<Change>>,
    after_index: LogIndex,
    rollback: Seq<Row<MergedChangesView>>,
) -> Seq<Row<MergedChangesView>>
    decreases records.len(),
{
    if records.len() == 0 {
        rollback
    } else {
        let before = rollback_prepared(records.drop_last(), after_index, rollback);
        let record = records.last();
        if record.key.tail > after_index {
            let key = Key { tail: 0, ..record.key };
            put(before, key, rollback_changes(before, key).apply(record.value@))
        } else {
            before
        }
    }
}

/// The net changes that a key of the rollback bookkeeping holds; nothing
/// where the key is not held.
pub open spec fn rollback_changes(rollback: Seq<Row<MergedChangesView>>, key: Key) -> MergedChangesView {
    match position(rollback, key) {
        Some(pos) => rollback[pos].value,
        None => MergedChangesView::empty(),
    }
}

/// Preparing a rollback leaves the bookkeeping disjoint: every change
/// record is folded into disjoint changes, which stay disjoint.
pub proof fn lemma_prepared_disjoint(
    records: Seq<Row<Change>>,
    after_index: LogIndex,
    rollback: Seq<Row<MergedChangesView>>,
)
    requires
        rollback_disjoint(rollback),
    ensures
        rollback_disjoint(rollback_prepared(records, after_index, rollback)),
    decreases records.len(),
{
    if records.len() > 0 {
        lemma_prepared_disjoint(records.drop_last(), after_index, rollback);
        let before = rollback_prepared(records.drop_last(), after_index, rollback);
        let record = records.last();
        if record.key.tail > after_index {
            lemma_fold_disjoint(before, Key { tail: 0, ..record.key }, record.value@);
        }
    }
}

/// Folding a change record into the net changes that a key holds leaves
/// the bookkeeping disjoint.
pub proof fn lemma_fold_disjoint(rollback: Seq<Row<MergedChangesView>>, key: Key, change: ChangeView)
    requires
        rollback_disjoint(rollback),
    ensures
        rollback_disjoint(put(rollback, key, rollback_changes(rollback, key).apply(change))),
{
    lemma_apply_disjoint(rollback_changes(rollback, key), change);
    lemma_put_disjoint(rollback, key, rollback_changes(rollback, key).apply(change));
}

/// Folds a change record into the net changes that `key` holds.
fn fold_change(rollback: &mut Table<MergedChanges>, key: Key, change: &Change)
    requires
        old(rollback).wf(),
        rollback_keys_valid(old(rollback)@),
        rollback_disjoint(rows_view(old(rollback)@)),
        names_pair(key),
        key.tail == 0,
    ensures
        final(rollback).wf(),
        rollback_keys_valid(final(rollback)@),
        rollback_disjoint(rows_view(final(rollback)@)),
        rows_view(final(rollback)@) == put(
            rows_view(old(rollback)@),
            key,
            rollback_changes(rows_view(old(rollback)@), key).apply(change@),
        ),
{
    let ghost before = rollback@;
    proof {
        lemma_view_keys(before, key);
        lemma_view_without(before, key);
        lemma_position_finds(before, key);
    }
    let mut current = match rollback.remove(key) {
        Some(current) => current,
        None => MergedChanges::new(),
    };
    current.apply(change);
    let ghost rest = rollback@;
    proof {
        lemma_view_put(rest, key, current);
        lemma_put_after_without(rows_view(before), key, current@);
        lemma_rank_splits(rest, key);
        lemma_fold_disjoint(rows_view(before), key, change@);
    }
    rollback.set(key, current);
}

/// Failures of the store.
#[derive(Clone, Copy, Debug, PartialEq, Eq, Structural)]
pub enum StoreError {
    /// The body of a staged message does not decompress.
    Decompress,
    /// Every sequence number for staged updates has been used.
    SequenceExhausted,
}

/// The key of the rollback bookkeeping of a collection of an account.
pub open spec fn spec_rollback_key(account_id: AccountId, collection: Collection) -> Key {
    Key { major: account_id as u64, minor: collection.spec_id() as u64, tail: 0 }
}

#[verifier::when_used_as_spec(spec_rollback_key)]
pub fn rollback_key(account_id: AccountId, collection: Collection) -> (key: Key)
    ensures
        key == spec_rollback_key(account_id, collection),
        names_pair(key),
{
    Key { major: account_id as u64, minor: collection.id() as u64, tail: 0 }
}

#[derive(Debug, Clone, PartialEq)]
pub struct JMAPStore {
    /// Log entries by position.
    pub log: Table<Entry>,
    /// Change records by account, collection and log index.
    pub changes: Table<Change>,
    /// Staged updates by log index and sequence number.
    pub pending: Table<PendingUpdates>,
    /// Net changes still to be rolled back, by account and collection.
    pub rollback: Table<MergedChanges>,
    /// The live documents by account, collection and document id.
    pub documents: Table<Document>,
    /// The log index up to which staged updates were applied.
    pub last_applied: Option<LogIndex>,
    /// The sequence number that the next staged batch gets.
    pub next_sequence: u64,
}

pub ghost struct StoreView {
    pub log: Seq<Row<Entry>>,
    pub changes: Seq<Row<Change>>,
    pub pending: Seq<Row<Seq<PendingUpdateView>>>,
    pub rollback: Seq<Row<MergedChangesView>>,
    pub documents: Documents,
    pub last_applied: Option<LogIndex>,
    pub next_sequence: u64,
}

impl StoreView {
    /// A store that holds nothing.
    pub open spec fn empty() -> StoreView {
        StoreView {
            log: Seq::empty(),
            changes: Seq::empty(),
            pending: Seq::empty(),
            rollback: Seq::empty(),
            documents: Map::empty(),
            last_applied: None,
            next_sequence: 0,
        }
    }
}

impl View for JMAPStore {
    type V = StoreView;

    open spec fn view(&self) -> StoreView {
        StoreView {
            log: self.log@,
            changes: self.changes@,
            pending: rows_view(self.pending@),
            rollback: rows_view(self.rollback@),
            documents: documents_of(self.documents@),
            last_applied: self.last_applied,
            next_sequence: self.next_sequence,
        }
    }
}

impl JMAPStore {
    /// Every table is in key order, every key has the shape of its table,
    /// and the net changes of the rollback bookkeeping are disjoint.
    pub open spec fn wf(&self) -> bool {
        &&& self.log.wf()
        &&& self.changes.wf()
        &&& self.pending.wf()
        &&& self.rollback.wf()
        &&& self.documents.wf()
        &&& log_keys_valid(self.log@)
        &&& pair_keys_valid(self.changes@)
        &&& rollback_keys_valid(self.rollback@)
        &&& rollback_disjoint(rows_view(self.rollback@))
    }

    /// Tells whether every table is in key order, every key has the shape
    /// of its table, and the net changes of the rollback bookkeeping are
    /// disjoint.
    pub fn check(&self) -> (ok: bool)
        ensures
            ok == self.wf(),
    {
        if !(self.log.check() && self.changes.check() && self.pending.check()
            && self.rollback.check() && self.documents.check()) {
            return false;
        }
        let mut i: usize = 0;
        while i < self.log.len()
            invariant
                forall|k: int| 0 <= k < i && k < self.log@.len() ==> (#[trigger] self.log@[k]).key.tail
                    == 0,
            decreases self.log@.len() - i,
        {
            if self.log.row(i).key.tail != 0 {
                return false;
            }
            i += 1;
        }
        let mut i: usize = 0;
        while i < self.changes.len()
            invariant
                forall|k: int|
                    0 <= k < i && k < self.changes@.len() ==> names_pair(
                        (#[trigger] self.changes@[k]).key,
                    ),
            decreases self.changes@.len() - i,
        {
            let key = self.changes.row(i).key;
            if key.major > AccountId::MAX as u64 || key.minor >= COLLECTION_COUNT as u64 {
                return false;
            }
            i += 1;
        }
        let mut i: usize = 0;
        while i < self.rollback.len()
            invariant
                forall|k: int|
                    0 <= k < i && k < self.rollback@.len() ==> names_pair(
                        (#[trigger] self.rollback@[k]).key,
                    ) && self.rollback@[k].key.tail == 0,
                forall|k: int|
                    0 <= k < i && k < self.rollback@.len() ==> (#[trigger] rows_view(
                        self.rollback@,
                    )[k]).value.disjoint(),
            decreases self.rollback@.len() - i,
        {
            let row = self.rollback.row(i);
            let key = row.key;
            if key.major > AccountId::MAX as u64 || key.minor >= COLLECTION_COUNT as u64 || key.tail
                != 0 {
                return false;
            }
            if !row.value.is_disjoint() {
                assert(!rows_view(self.rollback@)[i as int].value.disjoint());
                return false;
            }
            i += 1;
        }
        true
    }

    /// A store that holds nothing.
    pub fn new() -> (store: JMAPStore)
        ensures
            store.wf(),
            store@ == StoreView::empty(),
    {
        let store = JMAPStore {
            log: Table::new(),
            changes: Table::new(),
            pending: Table::new(),
            rollback: Table::new(),
            documents: Table::new(),
            last_applied: None,
            next_sequence: 0,
        };
        assert(store@.pending =~= Seq::empty());
        assert(store@.rollback =~= Seq::empty());
        assert(store@.documents =~= Map::empty());
        store
    }

    /// Carries out one operation of a batch.
    fn write_operation(&mut self, account_id: AccountId, operation: WriteOperation)
        requires
            old(self).wf(),
        ensures
            final(self).wf(),
            final(self)@ == (StoreView {
                documents: operation@.apply(account_id, old(self)@.documents),
                ..old(self)@
            }),
    {
        let ghost rows = self.documents@;
        match operation {
            WriteOperation::Insert { collection, document_id, document } => {
                let key = document_key(account_id, collection, document_id);
                proof {
                    assert forall|other: Key|
                        (#[trigger] documents_of(put(rows, key, document)).dom().contains(other))
                            == documents_of(rows).insert(key, document@).dom().contains(other)
                            && (documents_of(put(rows, key, document)).dom().contains(other)
                            ==> documents_of(put(rows, key, document))[other] == documents_of(
                            rows,
                        ).insert(key, document@)[other]) by {
                        lemma_put_lookup(rows, key, document, other);
                    }
                    assert(documents_of(put(rows, key, document)) =~= documents_of(rows).insert(
                        key,
                        document@,
                    ));
                }
                self.documents.set(key, document);
            },
            WriteOperation::Tag { document_id, thread_id, mailboxes, keywords } => {
                let key = document_key(account_id, Collection::Mail, document_id);
                proof {
                    lemma_position_finds(rows, key);
                }
                match self.documents.remove(key) {
                    Some(Document::Mail { received_at, message, .. }) => {
                        let document = Document::Mail {
                            thread_id,
                            mailboxes,
                            keywords,
                            received_at,
                            message,
                        };
                        let ghost rest = self.documents@;
                        proof {
                            assert forall|other: Key|
                                (#[trigger] documents_of(put(rest, key, document)).dom().contains(
                                    other,
                                )) == documents_of(rows).insert(key, document@).dom().contains(
                                    other,
                                ) && (documents_of(put(rest, key, document)).dom().contains(other)
                                    ==> documents_of(put(rest, key, document))[other]
                                    == documents_of(rows).insert(key, document@)[other]) by {
                                lemma_without_lookup(rows, key, other);
                                lemma_put_lookup(rest, key, document, other);
                            }
                            assert(documents_of(put(rest, key, document)) =~= documents_of(
                                rows,
                            ).insert(key, document@));
                        }
                        self.documents.set(key, document);
                    },
                    Some(other_document) => {
                        let ghost rest = self.documents@;
                        proof {
                            assert forall|other: Key|
                                (#[trigger] documents_of(put(rest, key, other_document)).dom().contains(
                                    other,
                                )) == documents_of(rows).dom().contains(other) && (documents_of(
                                    put(rest, key, other_document),
                                ).dom().contains(other) ==> documents_of(
                                    put(rest, key, other_document),
                                )[other] == documents_of(rows)[other]) by {
                                lemma_without_lookup(rows, key, other);
                                lemma_put_lookup(rest, key, other_document, other);
                            }
                            assert(documents_of(put(rest, key, other_document)) =~= documents_of(
                                rows,
                            ));
                            assert(documents_of(rows).insert(key, documents_of(rows)[key])
                                =~= documents_of(rows));
                        }
                        self.documents.set(key, other_document);
                    },
                    None => {},
                }
            },
            WriteOperation::Delete { collection, document_id } => {
                let key = document_key(account_id, collection, document_id);
                proof {
                    assert forall|other: Key|
                        (#[trigger] documents_of(without(rows, key)).dom().contains(other))
                            == documents_of(rows).remove(key).dom().contains(other) && (
                        documents_of(without(rows, key)).dom().contains(other) ==> documents_of(
                            without(rows, key),
                        )[other] == documents_of(rows).remove(key)[other]) by {
                        lemma_without_lookup(rows, key, other);
                    }
                    assert(documents_of(without(rows, key)) =~= documents_of(rows).remove(key));
                }
                self.documents.remove(key);
            },
        }
    }

    /// Writes a batch: its operations are carried out in order, for the
    /// account of the batch.
    pub fn write(&mut self, batch: WriteBatch)
        requires
            old(self).wf(),
        ensures
            final(self).wf(),
            final(self)@ == (StoreView {
                documents: apply_operations(
                    batch@.account_id,
                    batch@.operations,
                    old(self)@.documents,
                ),
                ..old(self)@
            }),
    {
        let account_id = batch.account_id;
        let ghost operations = operations_view(batch.operations@);
        for operation in it: batch.operations
            invariant
                self.wf(),
                operations == operations_view(it.seq()),
                self@ == (StoreView {
                    documents: apply_operations(
                        account_id,
                        operations.take(it.index() as int),
                        old(self)@.documents,
                    ),
                    ..old(self)@
                }),
        {
            assert(operations.take(it.index() + 1).drop_last() =~= operations.take(
                it.index() as int,
            ));
            self.write_operation(account_id, operation);
        }
        assert(operations.take(operations.len() as int) =~= operations);
    }

    /// Writes batches one after another.
    pub fn write_all(&mut self, batches: Vec<WriteBatch>)
        requires
            old(self).wf(),
        ensures
            final(self).wf(),
            final(self)@ == (StoreView {
                documents: apply_batches(batches_view(batches@), old(self)@.documents),
                ..old(self)@
            }),
    {
        let ghost views = batches_view(batches@);
        for batch in it: batches
            invariant
                self.wf(),
                views == batches_view(it.seq()),
                self@ == (StoreView {
                    documents: apply_batches(views.take(it.index() as int), old(self)@.documents),
                    ..old(self)@
                }),
        {
            proof {
                let index = it.index() as int;
                assert(views.take(index + 1).drop_last() =~= views.take(index));
                assert(views.take(index + 1).last() == batch@);
            }
            self.write(batch);
        }
        assert(views.take(views.len() as int) =~= views);
    }

    /// Deletes the documents `ids` of a collection of an account.
    pub fn delete_documents(
        &mut self,
        account_id: AccountId,
        collection: Collection,
        ids: &RoaringBitmap,
    )
        requires
            old(self).wf(),
        ensures
            final(self).wf(),
            final(self)@ == (StoreView {
                documents: without_documents(
                    old(self)@.documents,
                    account_id,
                    collection,
                    bitmap_ids(*ids),
                ),
                ..old(self)@
            }),
    {
        let document_ids = bitmap_to_vec(ids);
        let mut batch = WriteBatch::new(account_id);
        let mut i: usize = 0;
        assert(delete_operations(collection, document_ids@.take(0)) =~= Seq::empty());
        while i < document_ids.len()
            invariant
                i <= document_ids@.len(),
                batch@ == (WriteBatchView {
                    account_id,
                    operations: delete_operations(collection, document_ids@.take(i as int)),
                }),
            decreases document_ids@.len() - i,
        {
            batch.delete_document(collection, document_ids[i]);
            assert(delete_operations(collection, document_ids@.take(i + 1))
                =~= delete_operations(collection, document_ids@.take(i as int)).push(
                WriteOperationView::Delete { collection, document_id: document_ids@[i as int] },
            ));
            i += 1;
        }
        proof {
            assert(document_ids@.take(i as int) =~= document_ids@);
            lemma_delete_operations(self@.documents, account_id, collection, document_ids@);
            assert(document_ids@.to_set() =~= bitmap_ids(*ids));
        }
        self.write(batch);
    }

    /// Stores a log entry at a position, replacing one stored there.
    pub fn set_log(&mut self, raft_id: RaftId, entry: Entry)
        requires
            old(self).wf(),
        ensures
            final(self).wf(),
            final(self)@ == (StoreView {
                log: put(old(self)@.log, raft_id.spec_key(), entry),
                ..old(self)@
            }),
    {
        proof {
            lemma_rank_splits(self.log@, raft_id.spec_key());
        }
        self.log.set(raft_id.key(), entry);
    }

    /// Stores the change record of a collection of an account at a log index,
    /// replacing one stored there.
    pub fn set_change(
        &mut self,
        account_id: AccountId,
        collection: Collection,
        index: LogIndex,
        change: Change,
    )
        requires
            old(self).wf(),
        ensures
            final(self).wf(),
            final(self)@ == (StoreView {
                changes: put(
                    old(self)@.changes,
                    spec_change_key(account_id, collection, index),
                    change,
                ),
                ..old(self)@
            }),
    {
        proof {
            lemma_rank_splits(self.changes@, spec_change_key(account_id, collection, index));
        }
        self.changes.set(change_key(account_id, collection, index), change);
    }

    /// Whether the log holds an entry at `id`.
    pub fn contains_raft_id(&self, id: RaftId) -> (held: bool)
        requires
            self.wf(),
        ensures
            held == log_holds(self@.log, id),
    {
        self.log.find(id.key()).is_some()
    }

    /// The newest position of the log that lies strictly before `id`.
    pub fn get_prev_raft_id(&self, id: RaftId) -> (prev: Option<RaftId>)
        requires
            self.wf(),
        ensures
            prev == prev_raft_id(self@.log, id),
            match prev {
                Some(p) => log_holds(self@.log, p) && p.lt(id) && forall|q: RaftId|
                    #[trigger] log_holds(self@.log, q) && q.lt(id) ==> q.le(p),
                None => forall|q: RaftId| #[trigger] log_holds(self@.log, q) ==> !q.lt(id),
            },
    {
        let pos = self.log.lower_bound(id.key());
        let ghost log = self.log@;
        if pos == 0 {
            proof {
                assert forall|q: RaftId| #[trigger] log_holds(log, q) implies !q.lt(id) by {
                    let i = choose|i: int| 0 <= i < log.len() && (#[trigger] log[i]).key == q.spec_key();
                    assert(!log[i].key.lt(id.spec_key()));
                    lemma_key_order(q, id);
                }
            }
            None
        } else {
            let prev = RaftId::from_key(self.log.row(pos - 1).key);
            proof {
                assert(log[pos - 1].key == prev.spec_key());
                lemma_key_order(prev, id);
                assert forall|q: RaftId| #[trigger] log_holds(log, q) && q.lt(id) implies q.le(
                    prev,
                ) by {
                    let i = choose|i: int| 0 <= i < log.len() && (#[trigger] log[i]).key == q.spec_key();
                    lemma_key_order(q, id);
                    lemma_key_order(q, prev);
                    if i >= pos {
                        assert(!log[i].key.lt(id.spec_key()));
                    } else if i < pos - 1 {
                        assert(log[i].key.lt(log[pos - 1].key));
                    }
                }
            }
            Some(prev)
        }
    }

    /// The newest position of the log.
    pub fn get_last_log(&self) -> (last: Option<RaftId>)
        requires
            self.wf(),
        ensures
            last == last_log(self@.log),
            match last {
                Some(p) => log_holds(self@.log, p) && forall|q: RaftId| #[trigger]
                    log_holds(self@.log, q) ==> q.le(p),
                None => self@.log.len() == 0,
            },
    {
        let len = self.log.len();
        let ghost log = self.log@;
        if len == 0 {
            None
        } else {
            let last = RaftId::from_key(self.log.row(len - 1).key);
            proof {
                assert(log[len - 1].key == last.spec_key());
                assert forall|q: RaftId| #[trigger] log_holds(log, q) implies q.le(last) by {
                    let i = choose|i: int| 0 <= i < log.len() && (#[trigger] log[i]).key == q.spec_key();
                    lemma_key_order(q, last);
                    if i < len - 1 {
                        assert(log[i].key.lt(log[len - 1].key));
                    }
                }
            }
            Some(last)
        }
    }

    /// The first position of each term, in log order.
    pub fn get_raft_match_terms(&self) -> (terms: Vec<RaftId>)
        requires
            self.wf(),
        ensures
            terms@ == term_starts(self@.log),
    {
        let mut terms: Vec<RaftId> = Vec::new();
        let ghost log = self.log@;
        let mut i: usize = 0;
        while i < self.log.len()
            invariant
                i <= log.len(),
                log == self.log@,
                terms@ == term_starts(log.take(i as int)),
            decreases log.len() - i,
        {
            let id = RaftId::from_key(self.log.row(i).key);
            proof {
                let prefix = log.take(i + 1);
                assert(prefix.drop_last() =~= log.take(i as int));
                assert(prefix.last() == log[i as int]);
                if i > 0 {
                    assert(prefix[prefix.len() - 2] == log[i - 1]);
                }
            }
            if i == 0 || self.log.row(i - 1).key.major != id.term {
                terms.push(id);
            }
            i += 1;
        }
        assert(log.take(log.len() as int) =~= log);
        terms
    }

    /// The term of the first entry whose index is `index` or more, and the
    /// indexes from `index` on that the log holds in that term. Without such
    /// an entry the term is `TermId::MAX` and the set is empty.
    pub fn get_raft_match_indexes(&self, index: LogIndex) -> (found: (TermId, RoaringTreemap))
        requires
            self.wf(),
        ensures
            treemap_ids(found.1) == match_indexes(self@.log, index),
            found.0 == match match_term(self@.log, index) {
                Some(term) => term,
                None => TermId::MAX,
            },
    {
        let mut list = RoaringTreemap::new();
        let mut term: Option<TermId> = None;
        let ghost log = self.log@;
        let mut i: usize = 0;
        while i < self.log.len()
            invariant
                i <= log.len(),
                log == self.log@,
                self.wf(),
                term == match_term(log.take(i as int), index),
                treemap_ids(list) == match_indexes(log.take(i as int), index),
            decreases log.len() - i,
        {
            let key = self.log.row(i).key;
            let ghost before = log.take(i as int);
            let ghost prefix = log.take(i + 1);
            proof {
                assert(prefix.drop_last() =~= before);
                assert(prefix.last() == log[i as int]);
            }
            if key.minor >= index {
                let matches = match term {
                    Some(t) => t == key.major,
                    None => {
                        term = Some(key.major);
                        true
                    },
                };
                if matches {
                    list.insert(key.minor);
                }
            }
            proof {
                let t = term;
                assert(t == match_term(prefix, index));
                match t {
                    Some(term) => {
                        assert forall|x: LogIndex|
                            treemap_ids(list).contains(x) == match_indexes(prefix, index).contains(
                                x,
                            ) by {
                            let id = RaftId { term, index: x };
                            if x >= index && log_holds(prefix, id) {
                                let k = choose|k: int|
                                    0 <= k < prefix.len() && (#[trigger] prefix[k]).key
                                        == id.spec_key();
                                if k < i {
                                    assert(before[k].key == id.spec_key());
                                    assert(log_holds(before, id));
                                }
                            }
                            if x >= index && log_holds(before, id) {
                                let k = choose|k: int|
                                    0 <= k < before.len() && (#[trigger] before[k]).key
                                        == id.spec_key();
                                assert(prefix[k].key == id.spec_key());
                            }
                            if key.minor >= index && key.major == term && x == key.minor {
                                assert(prefix[i as int].key == id.spec_key());
                            }
                        }
                        assert(treemap_ids(list) =~= match_indexes(prefix, index));
                    },
                    None => {},
                }
            }
            i += 1;
        }
        assert(log.take(log.len() as int) =~= log);
        match term {
            Some(term) => (term, list),
            None => (TermId::MAX, list),
        }
    }

    /// Folds the change records of a collection of an account with a log
    /// index from `first_index` to `last_index`, both included.
    pub fn merge_changes_between(
        &self,
        account_id: AccountId,
        collection: Collection,
        first_index: LogIndex,
        last_index: LogIndex,
    ) -> (changes: MergedChanges)
        requires
            self.wf(),
        ensures
            changes@ == merged(
                self@.changes,
                account_id,
                collection,
                first_index - 1,
                last_index as int,
            ),
    {
        let mut changes = MergedChanges::new();
        if let Collection::Thread = collection {
            return changes;
        }
        let ghost records = self.changes@;
        let ghost from = first_index - 1;
        let ghost to = last_index as int;
        let start = change_key(account_id, collection, first_index);
        let end = change_key(account_id, collection, last_index);
        let mut i = self.changes.lower_bound(start);
        proof {
            let prefix = records.take(i as int);
            assert forall|k: int| 0 <= k < prefix.len() implies !in_range(
                (#[trigger] prefix[k]).key,
                account_id,
                collection,
                from,
                to,
            ) by {
                assert(records[k].key.lt(start));
            }
            lemma_merged_skip(prefix, account_id, collection, from, to, 0);
            assert(prefix.take(0) =~= Seq::<Row<Change>>::empty());
        }
        while i < self.changes.len() && !end.precedes(&self.changes.row(i).key)
            invariant
                i <= records.len(),
                records == self.changes@,
                self.wf(),
                collection != Collection::Thread,
                start == spec_change_key(account_id, collection, first_index),
                end == spec_change_key(account_id, collection, last_index),
                from == first_index - 1,
                to == last_index as int,
                forall|k: int| i <= k < records.len() ==> !(#[trigger] records[k]).key.lt(start),
                changes@ == merged(records.take(i as int), account_id, collection, from, to),
            decreases records.len() - i,
        {
            let row = self.changes.row(i);
            proof {
                let prefix = records.take(i + 1);
                assert(prefix.drop_last() =~= records.take(i as int));
                assert(prefix.last() == records[i as int]);
                assert(!records[i as int].key.lt(start));
                assert(in_range(row.key, account_id, collection, from, to));
            }
            changes.apply(&row.value);
            i += 1;
        }
        proof {
            assert forall|k: int| i <= k < records.len() implies !in_range(
                (#[trigger] records[k]).key,
                account_id,
                collection,
                from,
                to,
            ) by {
                if k > i {
                    assert(records[i as int].key.lt(records[k].key));
                }
            }
            lemma_merged_skip(records, account_id, collection, from, to, i as int);
        }
        changes
    }

    /// Folds the change records of a collection of an account with a log
    /// index in `(from_index, to_index]`.
    pub fn merge_changes(
        &self,
        account_id: AccountId,
        collection: Collection,
        from_index: LogIndex,
        to_index: LogIndex,
    ) -> (changes: MergedChanges)
        requires
            self.wf(),
        ensures
            changes@ == merged(
                self@.changes,
                account_id,
                collection,
                from_index as int,
                to_index as int,
            ),
            changes@.disjoint(),
            collection == Collection::Thread ==> changes@ == MergedChangesView::empty(),
    {
        proof {
            lemma_merged_disjoint(
                self@.changes,
                account_id,
                collection,
                from_index as int,
                to_index as int,
            );
        }
        if from_index == LogIndex::MAX {
            proof {
                lemma_merged_skip(
                    self@.changes,
                    account_id,
                    collection,
                    from_index as int,
                    to_index as int,
                    0,
                );
                assert(self@.changes.take(0) =~= Seq::<Row<Change>>::empty());
            }
            MergedChanges::new()
        } else {
            self.merge_changes_between(account_id, collection, from_index + 1, to_index)
        }
    }

    /// Stages a batch of updates for log index `commit_index`, under the next
    /// sequence number, which it returns.
    pub fn stage(&mut self, commit_index: LogIndex, updates: Vec<PendingUpdate>) -> (staged: Result<
        u64,
        StoreError,
    >)
        requires
            old(self).wf(),
        ensures
            final(self).wf(),
            match staged {
                Ok(sequence) => sequence == old(self)@.next_sequence && sequence < u64::MAX
                    && final(self)@ == (StoreView {
                    pending: put(
                        old(self)@.pending,
                        spec_pending_key(commit_index, sequence),
                        updates_view(updates@),
                    ),
                    next_sequence: (sequence + 1) as u64,
                    ..old(self)@
                }),
                Err(error) => error == StoreError::SequenceExhausted && old(self)@.next_sequence
                    == u64::MAX && final(self)@ == old(self)@,
            },
    {
        let sequence = self.next_sequence;
        if sequence == u64::MAX {
            return Err(StoreError::SequenceExhausted);
        }
        let batch = PendingUpdates::new(updates);
        proof {
            lemma_view_put(self.pending@, spec_pending_key(commit_index, sequence), batch);
        }
        self.pending.set(pending_key(commit_index, sequence), batch);
        self.next_sequence = sequence + 1;
        Ok(sequence)
    }

    /// Prepares the rollback of everything after log index `after_index`:
    /// folds each change record after it into the rollback bookkeeping of its
    /// collection of its account, then drops those records and the log
    /// entries after the index.
    pub fn prepare_rollback_changes(&mut self, after_index: LogIndex)
        requires
            old(self).wf(),
        ensures
            final(self).wf(),
            final(self)@ == (StoreView {
                log: kept(old(self)@.log, KeyPart::Minor, after_index),
                changes: kept(old(self)@.changes, KeyPart::Tail, after_index),
                rollback: rollback_prepared(old(self)@.changes, after_index, old(self)@.rollback),
                ..old(self)@
            }),
    {
        let ghost records = self.changes@;
        let ghost start = rows_view(self.rollback@);
        let mut i: usize = 0;
        while i < self.changes.len()
            invariant
                i <= records.len(),
                records == self.changes@,
                self.wf(),
                self@ == (StoreView { rollback: self@.rollback, ..old(self)@ }),
                self@.rollback == rollback_prepared(records.take(i as int), after_index, start),
            decreases records.len() - i,
        {
            let row = self.changes.row(i);
            proof {
                let prefix = records.take(i + 1);
                assert(prefix.drop_last() =~= records.take(i as int));
                assert(prefix.last() == records[i as int]);
            }
            if row.key.tail > after_index {
                let key = Key { major: row.key.major, minor: row.key.minor, tail: 0 };
                assert(names_pair(records[i as int].key));
                fold_change(&mut self.rollback, key, &row.value);
            }
            i += 1;
        }
        assert(records.take(records.len() as int) =~= records);
        proof {
            lemma_kept_rows(self.changes@, KeyPart::Tail, after_index);
            lemma_kept_rows(self.log@, KeyPart::Minor, after_index);
        }
        self.changes.retain_upto(KeyPart::Tail, after_index);
        self.log.retain_upto(KeyPart::Minor, after_index);
    }

    /// The first collection of an account that still has changes to roll
    /// back, with a copy of those changes.
    pub fn next_rollback_change(&self) -> (next: Option<(AccountId, Collection, MergedChanges)>)
        requires
            self.wf(),
        ensures
            match next {
                Some((account_id, collection, changes)) => self@.rollback.len() > 0
                    && self@.rollback[0].key == spec_rollback_key(account_id, collection)
                    && changes@ == self@.rollback[0].value,
                None => self@.rollback.len() == 0,
            },
    {
        if self.rollback.len() == 0 {
            return None;
        }
        let row = self.rollback.row(0);
        assert(names_pair(self.rollback@[0].key));
        match Collection::from_id(row.key.minor as u8) {
            Some(collection) => Some((row.key.major as u32, collection, row.value.duplicate())),
            None => None,
        }
    }

    /// Forgets the rollback bookkeeping of a collection of an account.
    pub fn remove_rollback_change(&mut self, account_id: AccountId, collection: Collection)
        requires
            old(self).wf(),
        ensures
            final(self).wf(),
            final(self)@ == (StoreView {
                rollback: without(
                    old(self)@.rollback,
                    spec_rollback_key(account_id, collection),
                ),
                ..old(self)@
            }),
    {
        let key = rollback_key(account_id, collection);
        proof {
            lemma_view_without(self.rollback@, key);
            lemma_position_finds(self.rollback@, key);
            lemma_without_disjoint(rows_view(self.rollback@), key);
        }
        self.rollback.remove(key);
    }
}

} // verus!

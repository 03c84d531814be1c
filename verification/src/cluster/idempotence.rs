//! Applying a batch of updates a second time changes nothing.
//!
//! Every operation sets what it names: it stores a document, sets the tags
//! of one, or removes one. What a batch does to one key is therefore of one
//! of three shapes, and each shape gives the same result when it acts twice.

use crate::cluster::applier::{apply_target, pending_applied};
use crate::cluster::pending::{apply_staged, apply_updates, spec_pending_key, PendingUpdateView};
use crate::collection::{AccountId, Collection, DocumentId};
use crate::document::{
    apply_operations, retagged, spec_document_key, DocumentView, Documents, TagView,
    WriteOperationView,
};
use crate::raft::LogIndex;
use crate::store::{document_keys, lemma_delete_operations, StoreView};
use crate::table::{above, put, Key, KeyPart, Row};
use vstd::prelude::*;

verus! {

/// What a key holds.
pub open spec fn slot(documents: Documents, key: Key) -> Option<DocumentView> {
    if documents.dom().contains(key) {
        Some(documents[key])
    } else {
        None
    }
}

/// What a run of operations does to one key.
pub ghost enum Shape {
    /// The key keeps what it holds.
    Keep,
    /// The key holds this, whatever it held.
    Put(Option<DocumentView>),
    /// A message that the key holds gets these tags.
    Retag(DocumentId, Seq<TagView>, Seq<TagView>),
}

impl Shape {
    /// What the key holds afterwards.
    pub open spec fn act(self, held: Option<DocumentView>) -> Option<DocumentView> {
        match self {
            Shape::Keep => held,
            Shape::Put(document) => document,
            Shape::Retag(thread_id, mailboxes, keywords) => match held {
                Some(document) => Some(retagged(document, thread_id, mailboxes, keywords)),
                None => None,
            },
        }
    }

    /// The shape of this run followed by one operation on the key.
    pub open spec fn followed_by(self, operation: WriteOperationView) -> Shape {
        match operation {
            WriteOperationView::Insert { document, .. } => Shape::Put(Some(document)),
            WriteOperationView::Delete { .. } => Shape::Put(None),
            WriteOperationView::Tag { thread_id, mailboxes, keywords, .. } => match self {
                Shape::Put(held) => Shape::Put(
                    Shape::Retag(thread_id, mailboxes, keywords).act(held),
                ),
                _ => Shape::Retag(thread_id, mailboxes, keywords),
            },
        }
    }
}

/// The key that an operation for an account acts on.
pub open spec fn operation_key(account_id: AccountId, operation: WriteOperationView) -> Key {
    match operation {
        WriteOperationView::Insert { collection, document_id, .. } => spec_document_key(
            account_id,
            collection,
            document_id,
        ),
        WriteOperationView::Tag { document_id, .. } => spec_document_key(
            account_id,
            Collection::Mail,
            document_id,
        ),
        WriteOperationView::Delete { collection, document_id } => spec_document_key(
            account_id,
            collection,
            document_id,
        ),
    }
}

/// The shape of a run followed by one update, as far as `key` goes.
pub open spec fn shape_after(shape: Shape, update: PendingUpdateView, key: Key) -> Shape {
    match update {
        PendingUpdateView::UpdateDocument { account_id, document_id, update } => {
            let operation = update.operation(document_id).unwrap();
            if operation_key(account_id, operation) == key {
                shape.followed_by(operation)
            } else {
                shape
            }
        },
        PendingUpdateView::DeleteDocuments { account_id, collection, document_ids } => {
            if document_keys(account_id, collection, document_ids.to_set()).contains(key) {
                Shape::Put(None)
            } else {
                shape
            }
        },
    }
}

/// The shape of what a batch of updates does to `key`.
pub open spec fn batch_shape(updates: Seq<PendingUpdateView>, key: Key) -> Shape
    decreases updates.len(),
{
    if updates.len() == 0 {
        Shape::Keep
    } else {
        shape_after(batch_shape(updates.drop_last(), key), updates.last(), key)
    }
}

/// A shape that acts twice gives what it gives when it acts once.
pub proof fn lemma_shape_settles(shape: Shape, held: Option<DocumentView>)
    ensures
        shape.act(shape.act(held)) == shape.act(held),
{
}

/// A shape followed by an operation acts as the shape and then the
/// operation.
proof fn lemma_followed_acts(
    shape: Shape,
    account_id: AccountId,
    operation: WriteOperationView,
    documents: Documents,
    held: Option<DocumentView>,
)
    requires
        slot(documents, operation_key(account_id, operation)) == shape.act(held),
    ensures
        slot(operation.apply(account_id, documents), operation_key(account_id, operation))
            == shape.followed_by(operation).act(held),
{
}

/// One update changes, of the key it looks at, what its shape says, and
/// nothing of any other key.
proof fn lemma_update_acts(
    shape: Shape,
    update: PendingUpdateView,
    documents: Documents,
    key: Key,
    held: Option<DocumentView>,
)
    requires
        update.operations() is Some,
        slot(documents, key) == shape.act(held),
    ensures
        slot(update.apply(documents).unwrap(), key) == shape_after(shape, update, key).act(held),
{
    match update {
        PendingUpdateView::UpdateDocument { account_id, document_id, update: document_update } => {
            let operation = document_update.operation(document_id).unwrap();
            let operations = seq![operation];
            assert(operations.drop_last() =~= Seq::<WriteOperationView>::empty());
            assert(operations.last() == operation);
            assert(apply_operations(account_id, operations.drop_last(), documents) == documents);
            assert(apply_operations(account_id, operations, documents) == operation.apply(
                account_id,
                documents,
            ));
            if operation_key(account_id, operation) == key {
                lemma_followed_acts(shape, account_id, operation, documents, held);
            }
        },
        PendingUpdateView::DeleteDocuments { account_id, collection, document_ids } => {
            lemma_delete_operations(documents, account_id, collection, document_ids);
        },
    }
}

/// Whether a batch can be applied does not depend on the documents, and a
/// batch that can be applied changes of each key what its shape says.
pub proof fn lemma_batch_acts(
    updates: Seq<PendingUpdateView>,
    documents: Documents,
    other: Documents,
    key: Key,
)
    ensures
        apply_updates(updates, documents) is Some <==> apply_updates(updates, other) is Some,
        apply_updates(updates, documents) is Some ==> slot(
            apply_updates(updates, documents).unwrap(),
            key,
        ) == batch_shape(updates, key).act(slot(documents, key)),
    decreases updates.len(),
{
    if updates.len() > 0 {
        lemma_batch_acts(updates.drop_last(), documents, other, key);
        if apply_updates(updates, documents) is Some {
            let before = apply_updates(updates.drop_last(), documents).unwrap();
            lemma_update_acts(
                batch_shape(updates.drop_last(), key),
                updates.last(),
                before,
                key,
                slot(documents, key),
            );
        }
    }
}

/// Applying a batch of pending updates to the documents it was already
/// applied to leaves them as they are: a batch applied twice yields the
/// documents that it yields applied once.
pub proof fn lemma_apply_updates_idempotent(updates: Seq<PendingUpdateView>, documents: Documents)
    requires
        apply_updates(updates, documents) is Some,
    ensures
        apply_updates(updates, apply_updates(updates, documents).unwrap()) == apply_updates(
            updates,
            documents,
        ),
{
    let once = apply_updates(updates, documents).unwrap();
    lemma_batch_acts(updates, documents, once, spec_document_key(0, Collection::Mail, 0));
    let twice = apply_updates(updates, once).unwrap();
    assert forall|key: Key| slot(twice, key) == slot(once, key) by {
        lemma_batch_acts(updates, documents, once, key);
        lemma_batch_acts(updates, once, documents, key);
        lemma_shape_settles(batch_shape(updates, key), slot(documents, key));
    }
    assert forall|key: Key| twice.dom().contains(key) == once.dom().contains(key) by {
        assert(slot(twice, key) == slot(once, key));
    }
    assert forall|key: Key| twice.dom().contains(key) implies twice[key] == once[key] by {
        assert(slot(twice, key) == slot(once, key));
    }
    assert(twice =~= once);
}

/// A store applies its one staged batch; the batch is staged again, under
/// any sequence number, and applied again. The second application leaves
/// the store as the first one left it: the same documents, and nothing
/// staged. A batch that cannot be applied is not applied the first time
/// either. An index of `LogIndex::MAX` to apply up to is no index, and
/// nothing is applied then.
pub proof fn lemma_staged_again_settles(
    store: StoreView,
    index: LogIndex,
    sequence: u64,
    again: u64,
    batch: Seq<PendingUpdateView>,
    apply_up_to: LogIndex,
)
    requires
        store.pending == seq![Row { key: spec_pending_key(index, sequence), value: batch }],
        apply_target(apply_up_to, store.last_applied) is Some,
        apply_target(apply_up_to, store.last_applied).unwrap() != LogIndex::MAX,
        index <= apply_target(apply_up_to, store.last_applied).unwrap(),
    ensures
        match pending_applied(store, apply_up_to, false) {
            Some(once) => once.pending == Seq::<Row<Seq<PendingUpdateView>>>::empty()
                && once.documents == apply_updates(batch, store.documents).unwrap()
                && pending_applied(
                StoreView {
                    pending: put(once.pending, spec_pending_key(index, again), batch),
                    ..once
                },
                apply_up_to,
                false,
            ) == Some(once),
            None => apply_updates(batch, store.documents) is None,
        },
{
    let target = apply_target(apply_up_to, store.last_applied).unwrap();
    let row = Row { key: spec_pending_key(index, sequence), value: batch };
    let staged = seq![row];
    assert(staged.drop_last() =~= Seq::<Row<Seq<PendingUpdateView>>>::empty());
    assert(staged.last() == row);
    assert(apply_staged(staged.drop_last(), target, store.documents) == Some(store.documents));
    assert(apply_staged(staged, target, store.documents) == apply_updates(batch, store.documents));
    assert(above(staged.drop_last(), KeyPart::Major, target) =~= staged.drop_last());
    assert(above(staged, KeyPart::Major, target) =~= Seq::<
        Row<Seq<PendingUpdateView>>,
    >::empty());
    if apply_updates(batch, store.documents) is Some {
        let once = pending_applied(store, apply_up_to, false).unwrap();
        let row_again = Row { key: spec_pending_key(index, again), value: batch };
        let restaged = put(once.pending, spec_pending_key(index, again), batch);
        assert(restaged =~= seq![row_again]);
        assert(restaged.drop_last() =~= Seq::<Row<Seq<PendingUpdateView>>>::empty());
        assert(restaged.last() == row_again);
        lemma_apply_updates_idempotent(batch, store.documents);
        assert(apply_staged(restaged.drop_last(), target, once.documents) == Some(once.documents));
        assert(apply_staged(restaged, target, once.documents) == Some(once.documents));
        assert(above(restaged.drop_last(), KeyPart::Major, target) =~= restaged.drop_last());
        assert(above(restaged, KeyPart::Major, target) =~= Seq::<
            Row<Seq<PendingUpdateView>>,
        >::empty());
        assert(apply_target(apply_up_to, once.last_applied) == Some(target));
    }
}

} // verus!

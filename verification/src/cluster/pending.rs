//! Updates that a follower has received from the leader and not yet applied
//! to its documents.

use crate::cluster::log::{DocumentUpdate, DocumentUpdateView};
use crate::codec::lz4_decompressed;
use crate::collection::{AccountId, Collection, DocumentId};
use crate::document::{apply_operations, DocumentView, Documents, WriteOperationView};
use crate::raft::LogIndex;
use crate::table::{Key, Row};
use vstd::prelude::*;

verus! {

/// One staged mutation.
#[derive(Debug, Clone, PartialEq, Eq)]
pub enum PendingUpdate {
    UpdateDocument { account_id: AccountId, document_id: DocumentId, update: DocumentUpdate },
    DeleteDocuments { account_id: AccountId, collection: Collection, document_ids: Vec<DocumentId> },
}

pub ghost enum PendingUpdateView {
    UpdateDocument { account_id: AccountId, document_id: DocumentId, update: DocumentUpdateView },
    DeleteDocuments { account_id: AccountId, collection: Collection, document_ids: Seq<DocumentId> },
}

impl View for PendingUpdate {
    type V = PendingUpdateView;

    open spec fn view(&self) -> PendingUpdateView {
        match self {
            PendingUpdate::UpdateDocument { account_id, document_id, update } => {
                PendingUpdateView::UpdateDocument {
                    account_id: *account_id,
                    document_id: *document_id,
                    update: update@,
                }
            },
            PendingUpdate::DeleteDocuments { account_id, collection, document_ids } => {
                PendingUpdateView::DeleteDocuments {
                    account_id: *account_id,
                    collection: *collection,
                    document_ids: document_ids@,
                }
            },
        }
    }
}

impl DocumentUpdateView {
    /// The operation that writes this update to document `document_id`, or
    /// `None` where the body of a new message does not decompress.
    pub open spec fn operation(self, document_id: DocumentId) -> Option<WriteOperationView> {
        match self {
            DocumentUpdateView::InsertMail { thread_id, keywords, mailboxes, received_at, body } => {
                match lz4_decompressed(body) {
                    Some(message) => Some(
                        WriteOperationView::Insert {
                            collection: Collection::Mail,
                            document_id,
                            document: DocumentView::Mail {
                                thread_id,
                                mailboxes,
                                keywords,
                                received_at,
                                message,
                            },
                        },
                    ),
                    None => None,
                }
            },
            DocumentUpdateView::UpdateMail { thread_id, keywords, mailboxes } => Some(
                WriteOperationView::Tag { document_id, thread_id, mailboxes, keywords },
            ),
            DocumentUpdateView::UpdateMailbox { mailbox } => Some(
                WriteOperationView::Insert {
                    collection: Collection::Mailbox,
                    document_id,
                    document: DocumentView::Mailbox { mailbox },
                },
            ),
        }
    }
}

/// The operations that delete the documents `document_ids` of `collection`,
/// in order.
pub open spec fn delete_operations(collection: Collection, document_ids: Seq<DocumentId>) -> Seq<
    WriteOperationView,
> {
    Seq::new(
        document_ids.len(),
        |i: int| WriteOperationView::Delete { collection, document_id: document_ids[i] },
    )
}

impl PendingUpdateView {
    pub open spec fn account_id(self) -> AccountId {
        match self {
            PendingUpdateView::UpdateDocument { account_id, .. } => account_id,
            PendingUpdateView::DeleteDocuments { account_id, .. } => account_id,
        }
    }

    /// The operations that carry this update out, or `None` where it cannot
    /// be carried out.
    pub open spec fn operations(self) -> Option<Seq<WriteOperationView>> {
        match self {
            PendingUpdateView::UpdateDocument { document_id, update, .. } => {
                match update.operation(document_id) {
                    Some(operation) => Some(seq![operation]),
                    None => None,
                }
            },
            PendingUpdateView::DeleteDocuments { collection, document_ids, .. } => Some(
                delete_operations(collection, document_ids),
            ),
        }
    }

    /// The documents after this update was applied.
    pub open spec fn apply(self, documents: Documents) -> Option<Documents> {
        match self.operations() {
            Some(operations) => Some(apply_operations(self.account_id(), operations, documents)),
            None => None,
        }
    }
}

/// The documents after the updates were applied in order, or `None` where
/// one of them cannot be carried out.
pub open spec fn apply_updates(updates: Seq<PendingUpdateView>, documents: Documents) -> Option<
    Documents,
>
    decreases updates.len(),
{
    if updates.len() == 0 {
        Some(documents)
    } else {
        match apply_updates(updates.drop_last(), documents) {
            Some(before) => updates.last().apply(before),
            None => None,
        }
    }
}

/// The views of a list of updates, in order.
pub open spec fn updates_view(updates: Seq<PendingUpdate>) -> Seq<PendingUpdateView> {
    Seq::new(updates.len(), |i: int| updates[i]@)
}

/// A batch of staged updates, stored and applied together.
#[derive(Debug, Clone, PartialEq, Eq)]
pub struct PendingUpdates {
    pub updates: Vec<PendingUpdate>,
}

impl View for PendingUpdates {
    type V = Seq<PendingUpdateView>;

    open spec fn view(&self) -> Seq<PendingUpdateView> {
        updates_view(self.updates@)
    }
}

impl PendingUpdates {
    pub fn new(updates: Vec<PendingUpdate>) -> (batch: PendingUpdates)
        ensures
            batch@ == updates_view(updates@),
            batch.updates == updates,
    {
        PendingUpdates { updates }
    }
}

/// The key of the batch staged as number `sequence` for log index `index`.
pub open spec fn spec_pending_key(index: LogIndex, sequence: u64) -> Key {
    Key { major: index, minor: sequence, tail: 0 }
}

#[verifier::when_used_as_spec(spec_pending_key)]
pub fn pending_key(index: LogIndex, sequence: u64) -> (key: Key)
    ensures
        key == spec_pending_key(index, sequence),
{
    Key { major: index, minor: sequence, tail: 0 }
}

/// The documents after every staged batch with a log index up to `up_to` was
/// applied, in key order; `None` where an update of such a batch cannot be
/// carried out.
pub open spec fn apply_staged(
    staged: Seq<Row<Seq<PendingUpdateView>>>,
    up_to: LogIndex,
    documents: Documents,
) -> Option<Documents>
    decreases staged.len(),
{
    if staged.len() == 0 {
        Some(documents)
    } else {
        match apply_staged(staged.drop_last(), up_to, documents) {
            Some(before) => if staged.last().key.major <= up_to {
                apply_updates(staged.last().value, before)
            } else {
                Some(before)
            },
            None => None,
        }
    }
}

} // verus!

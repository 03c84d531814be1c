//! Documents of the live store and the batches of operations written to it.

use crate::collection::{AccountId, Collection, DocumentId};
use crate::table::Key;
use vstd::prelude::*;

verus! {

/// A label attached to a document: a well-known keyword, the id of another
/// document, or free text.
#[derive(Debug, Clone, PartialEq, Eq, Hash)]
pub enum Tag {
    Static(u8),
    Id(DocumentId),
    Text(String),
}

pub ghost enum TagView {
    Static(u8),
    Id(DocumentId),
    Text(Seq<char>),
}

impl View for Tag {
    type V = TagView;

    open spec fn view(&self) -> TagView {
        match self {
            Tag::Static(id) => TagView::Static(*id),
            Tag::Id(id) => TagView::Id(*id),
            Tag::Text(text) => TagView::Text(text@),
        }
    }
}

/// The views of a list of tags, in order.
pub open spec fn tags_view(tags: Seq<Tag>) -> Seq<TagView> {
    Seq::new(tags.len(), |i: int| tags[i]@)
}

impl Tag {
    /// A copy of the tag.
    pub fn duplicate(&self) -> (copy: Tag)
        ensures
            copy@ == self@,
    {
        match self {
            Tag::Static(id) => Tag::Static(*id),
            Tag::Id(id) => Tag::Id(*id),
            Tag::Text(text) => Tag::Text(text.clone()),
        }
    }
}

/// A copy of a list of tags.
pub fn clone_tags(tags: &Vec<Tag>) -> (copy: Vec<Tag>)
    ensures
        tags_view(copy@) == tags_view(tags@),
{
    let mut copy: Vec<Tag> = Vec::new();
    let mut i: usize = 0;
    while i < tags.len()
        invariant
            i <= tags@.len(),
            copy@.len() == i,
            forall|k: int| 0 <= k < i ==> (#[trigger] copy@[k])@ == tags@[k]@,
        decreases tags@.len() - i,
    {
        copy.push(tags[i].duplicate());
        i += 1;
    }
    assert(tags_view(copy@) =~= tags_view(tags@));
    copy
}

/// The properties of a mailbox that replication carries.
#[derive(Debug, Clone, PartialEq, Eq)]
pub struct Mailbox {
    pub name: String,
    pub parent_id: DocumentId,
    pub sort_order: u32,
}

pub ghost struct MailboxView {
    pub name: Seq<char>,
    pub parent_id: DocumentId,
    pub sort_order: u32,
}

impl View for Mailbox {
    type V = MailboxView;

    open spec fn view(&self) -> MailboxView {
        MailboxView { name: self.name@, parent_id: self.parent_id, sort_order: self.sort_order }
    }
}

impl Mailbox {
    /// A copy of the mailbox.
    pub fn duplicate(&self) -> (copy: Mailbox)
        ensures
            copy@ == self@,
    {
        Mailbox { name: self.name.clone(), parent_id: self.parent_id, sort_order: self.sort_order }
    }
}

/// A document as the live store holds it.
#[derive(Debug, Clone, PartialEq, Eq)]
pub enum Document {
    Mail {
        thread_id: DocumentId,
        mailboxes: Vec<Tag>,
        keywords: Vec<Tag>,
        received_at: i64,
        message: Vec<u8>,
    },
    Mailbox { mailbox: Mailbox },
}

pub ghost enum DocumentView {
    Mail {
        thread_id: DocumentId,
        mailboxes: Seq<TagView>,
        keywords: Seq<TagView>,
        received_at: i64,
        message: Seq<u8>,
    },
    Mailbox { mailbox: MailboxView },
}

impl View for Document {
    type V = DocumentView;

    open spec fn view(&self) -> DocumentView {
        match self {
            Document::Mail { thread_id, mailboxes, keywords, received_at, message } => {
                DocumentView::Mail {
                    thread_id: *thread_id,
                    mailboxes: tags_view(mailboxes@),
                    keywords: tags_view(keywords@),
                    received_at: *received_at,
                    message: message@,
                }
            },
            Document::Mailbox { mailbox } => DocumentView::Mailbox { mailbox: mailbox@ },
        }
    }
}

/// The key of a document of a collection of an account.
pub open spec fn spec_document_key(
    account_id: AccountId,
    collection: Collection,
    document_id: DocumentId,
) -> Key {
    Key {
        major: account_id as u64,
        minor: collection.spec_id() as u64,
        tail: document_id as u64,
    }
}

#[verifier::when_used_as_spec(spec_document_key)]
pub fn document_key(account_id: AccountId, collection: Collection, document_id: DocumentId) -> (key:
    Key)
    ensures
        key == spec_document_key(account_id, collection, document_id),
{
    Key { major: account_id as u64, minor: collection.id() as u64, tail: document_id as u64 }
}

/// One operation of a batch. Each sets what it names and leaves no trace of
/// how often it ran.
#[derive(Debug, Clone, PartialEq, Eq)]
pub enum WriteOperation {
    /// Stores the document, replacing one with the same id.
    Insert { collection: Collection, document_id: DocumentId, document: Document },
    /// Sets thread, mailboxes and keywords of a stored message; a message
    /// that is not stored stays absent.
    Tag { document_id: DocumentId, thread_id: DocumentId, mailboxes: Vec<Tag>, keywords: Vec<Tag> },
    /// Removes the document.
    Delete { collection: Collection, document_id: DocumentId },
}

pub ghost enum WriteOperationView {
    Insert { collection: Collection, document_id: DocumentId, document: DocumentView },
    Tag {
        document_id: DocumentId,
        thread_id: DocumentId,
        mailboxes: Seq<TagView>,
        keywords: Seq<TagView>,
    },
    Delete { collection: Collection, document_id: DocumentId },
}

impl View for WriteOperation {
    type V = WriteOperationView;

    open spec fn view(&self) -> WriteOperationView {
        match self {
            WriteOperation::Insert { collection, document_id, document } => {
                WriteOperationView::Insert {
                    collection: *collection,
                    document_id: *document_id,
                    document: document@,
                }
            },
            WriteOperation::Tag { document_id, thread_id, mailboxes, keywords } => {
                WriteOperationView::Tag {
                    document_id: *document_id,
                    thread_id: *thread_id,
                    mailboxes: tags_view(mailboxes@),
                    keywords: tags_view(keywords@),
                }
            },
            WriteOperation::Delete { collection, document_id } => WriteOperationView::Delete {
                collection: *collection,
                document_id: *document_id,
            },
        }
    }
}

/// The documents of a store: what each key holds.
pub type Documents = Map<Key, DocumentView>;

/// A message with its thread, mailboxes and keywords set anew; any other
/// document unchanged.
pub open spec fn retagged(
    document: DocumentView,
    thread_id: DocumentId,
    mailboxes: Seq<TagView>,
    keywords: Seq<TagView>,
) -> DocumentView {
    match document {
        DocumentView::Mail { received_at, message, .. } => DocumentView::Mail {
            thread_id,
            mailboxes,
            keywords,
            received_at,
            message,
        },
        other => other,
    }
}

impl WriteOperationView {
    /// The documents after this operation ran for `account_id`.
    pub open spec fn apply(self, account_id: AccountId, documents: Documents) -> Documents {
        match self {
            WriteOperationView::Insert { collection, document_id, document } => documents.insert(
                spec_document_key(account_id, collection, document_id),
                document,
            ),
            WriteOperationView::Tag { document_id, thread_id, mailboxes, keywords } => {
                let key = spec_document_key(account_id, Collection::Mail, document_id);
                if documents.dom().contains(key) {
                    documents.insert(key, retagged(documents[key], thread_id, mailboxes, keywords))
                } else {
                    documents
                }
            },
            WriteOperationView::Delete { collection, document_id } => documents.remove(
                spec_document_key(account_id, collection, document_id),
            ),
        }
    }
}

/// The documents after the operations ran in order for `account_id`.
pub open spec fn apply_operations(
    account_id: AccountId,
    operations: Seq<WriteOperationView>,
    documents: Documents,
) -> Documents
    decreases operations.len(),
{
    if operations.len() == 0 {
        documents
    } else {
        operations.last().apply(
            account_id,
            apply_operations(account_id, operations.drop_last(), documents),
        )
    }
}

/// The views of a list of operations, in order.
pub open spec fn operations_view(operations: Seq<WriteOperation>) -> Seq<WriteOperationView> {
    Seq::new(operations.len(), |i: int| operations[i]@)
}

/// The documents after the batches were written in order.
pub open spec fn apply_batches(batches: Seq<WriteBatchView>, documents: Documents) -> Documents
    decreases batches.len(),
{
    if batches.len() == 0 {
        documents
    } else {
        apply_operations(
            batches.last().account_id,
            batches.last().operations,
            apply_batches(batches.drop_last(), documents),
        )
    }
}

/// The views of a list of batches, in order.
pub open spec fn batches_view(batches: Seq<WriteBatch>) -> Seq<WriteBatchView> {
    Seq::new(batches.len(), |i: int| batches[i]@)
}

/// Operations gathered for one account, to be written together.
#[derive(Debug, Clone, PartialEq, Eq)]
pub struct WriteBatch {
    pub account_id: AccountId,
    pub operations: Vec<WriteOperation>,
}

pub ghost struct WriteBatchView {
    pub account_id: AccountId,
    pub operations: Seq<WriteOperationView>,
}

impl View for WriteBatch {
    type V = WriteBatchView;

    open spec fn view(&self) -> WriteBatchView {
        WriteBatchView {
            account_id: self.account_id,
            operations: operations_view(self.operations@),
        }
    }
}

impl WriteBatch {
    pub fn new(account_id: AccountId) -> (batch: WriteBatch)
        ensures
            batch@ == (WriteBatchView { account_id, operations: Seq::empty() }),
    {
        let batch = WriteBatch { account_id, operations: Vec::new() };
        assert(batch@.operations =~= Seq::empty());
        batch
    }

    pub fn is_empty(&self) -> (empty: bool)
        ensures
            empty == (self@.operations.len() == 0),
    {
        self.operations.len() == 0
    }

    fn push(&mut self, operation: WriteOperation)
        ensures
            final(self)@ == (WriteBatchView {
                account_id: old(self)@.account_id,
                operations: old(self)@.operations.push(operation@),
            }),
    {
        self.operations.push(operation);
        assert(self@.operations =~= old(self)@.operations.push(operation@));
    }

    pub fn insert_document(
        &mut self,
        collection: Collection,
        document_id: DocumentId,
        document: Document,
    )
        ensures
            final(self)@ == (WriteBatchView {
                account_id: old(self)@.account_id,
                operations: old(self)@.operations.push(
                    WriteOperationView::Insert { collection, document_id, document: document@ },
                ),
            }),
    {
        self.push(WriteOperation::Insert { collection, document_id, document });
    }

    pub fn tag_document(
        &mut self,
        document_id: DocumentId,
        thread_id: DocumentId,
        mailboxes: Vec<Tag>,
        keywords: Vec<Tag>,
    )
        ensures
            final(self)@ == (WriteBatchView {
                account_id: old(self)@.account_id,
                operations: old(self)@.operations.push(
                    WriteOperationView::Tag {
                        document_id,
                        thread_id,
                        mailboxes: tags_view(mailboxes@),
                        keywords: tags_view(keywords@),
                    },
                ),
            }),
    {
        self.push(WriteOperation::Tag { document_id, thread_id, mailboxes, keywords });
    }

    pub fn delete_document(&mut self, collection: Collection, document_id: DocumentId)
        ensures
            final(self)@ == (WriteBatchView {
                account_id: old(self)@.account_id,
                operations: old(self)@.operations.push(
                    WriteOperationView::Delete { collection, document_id },
                ),
            }),
    {
        self.push(WriteOperation::Delete { collection, document_id });
    }
}

} // verus!

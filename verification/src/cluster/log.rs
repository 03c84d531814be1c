//! Messages that a leader and a follower exchange while appending entries.

use crate::changes::Change;
use crate::collection::{AccountId, Collection, DocumentId};
use crate::document::{tags_view, Mailbox, MailboxView, Tag, TagView};
use crate::raft::{Entry, LogIndex, RaftId};
use vstd::prelude::*;

verus! {

/// What changed in one document, as the leader materialized it for a
/// follower.
#[derive(Debug, Clone, PartialEq, Eq)]
pub enum DocumentUpdate {
    /// A new message: its tags and its raw body, compressed.
    InsertMail {
        thread_id: DocumentId,
        keywords: Vec<Tag>,
        mailboxes: Vec<Tag>,
        received_at: i64,
        body: Vec<u8>,
    },
    /// New tags for a message that the follower already holds.
    UpdateMail { thread_id: DocumentId, keywords: Vec<Tag>, mailboxes: Vec<Tag> },
    /// The properties of a mailbox.
    UpdateMailbox { mailbox: Mailbox },
}

pub ghost enum DocumentUpdateView {
    InsertMail {
        thread_id: DocumentId,
        keywords: Seq<TagView>,
        mailboxes: Seq<TagView>,
        received_at: i64,
        body: Seq<u8>,
    },
    UpdateMail { thread_id: DocumentId, keywords: Seq<TagView>, mailboxes: Seq<TagView> },
    UpdateMailbox { mailbox: MailboxView },
}

impl View for DocumentUpdate {
    type V = DocumentUpdateView;

    open spec fn view(&self) -> DocumentUpdateView {
        match self {
            DocumentUpdate::InsertMail { thread_id, keywords, mailboxes, received_at, body } => {
                DocumentUpdateView::InsertMail {
                    thread_id: *thread_id,
                    keywords: tags_view(keywords@),
                    mailboxes: tags_view(mailboxes@),
                    received_at: *received_at,
                    body: body@,
                }
            },
            DocumentUpdate::UpdateMail { thread_id, keywords, mailboxes } => {
                DocumentUpdateView::UpdateMail {
                    thread_id: *thread_id,
                    keywords: tags_view(keywords@),
                    mailboxes: tags_view(mailboxes@),
                }
            },
            DocumentUpdate::UpdateMailbox { mailbox } => DocumentUpdateView::UpdateMailbox {
                mailbox: mailbox@,
            },
        }
    }
}

/// One item of the stream that a leader sends to a follower.
#[derive(Debug, Clone, PartialEq, Eq)]
pub enum Update {
    /// A change record; it belongs to the log entry sent last before it.
    Change { account_id: AccountId, collection: Collection, change: Change },
    /// A log entry and its position.
    Log { raft_id: RaftId, log: Entry },
    /// A document that the follower asked for.
    Document { account_id: AccountId, document_id: DocumentId, update: DocumentUpdate },
    /// The end of a batch.
    Eof,
}

#[derive(Debug, Clone, PartialEq, Eq)]
pub enum AppendEntriesRequest {
    Match { last_log: RaftId },
    Synchronize { match_terms: Vec<RaftId> },
    Merge { matched_log: RaftId },
    Update { commit_index: LogIndex, updates: Vec<Update> },
}

#[derive(Debug, Clone, PartialEq, Eq)]
pub enum AppendEntriesResponse {
    Match { match_log: RaftId },
    /// The serialized set of the log indexes that the follower holds in the
    /// term on which both logs agree.
    Synchronize { match_indexes: Vec<u8> },
    Continue,
    /// The serialized net changes of one collection of one account, for which
    /// the follower asks the documents.
    Update { account_id: AccountId, collection: Collection, changes: Vec<u8> },
    Commit { commit_index: LogIndex },
}

} // verus!

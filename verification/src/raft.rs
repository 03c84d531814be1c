//! Positions in the replicated log and the entries stored at them.

use crate::collection::{AccountId, Collection, Collections};
use crate::table::Key;
use vstd::prelude::*;

verus! {

pub type TermId = u64;

pub type LogIndex = u64;

/// A position in the replicated log.
#[derive(Clone, Copy, Debug, PartialEq, Eq, Hash, Structural)]
pub struct RaftId {
    pub term: TermId,
    pub index: LogIndex,
}

impl RaftId {
    /// The value that stands for "no position yet". It sorts after every
    /// position.
    pub open spec fn spec_none() -> RaftId {
        RaftId { term: TermId::MAX, index: LogIndex::MAX }
    }

    /// Strict order: by term, then by index.
    pub open spec fn lt(self, other: RaftId) -> bool {
        self.term < other.term || (self.term == other.term && self.index < other.index)
    }

    pub open spec fn le(self, other: RaftId) -> bool {
        self.lt(other) || self == other
    }

    /// The key under which the log holds the entry at this position.
    pub open spec fn spec_key(self) -> Key {
        Key { major: self.term, minor: self.index, tail: 0 }
    }

    pub fn new(term: TermId, index: LogIndex) -> (id: RaftId)
        ensures
            id == (RaftId { term, index }),
    {
        RaftId { term, index }
    }

    #[verifier::when_used_as_spec(spec_none)]
    pub fn none() -> (id: RaftId)
        ensures
            id == RaftId::spec_none(),
    {
        RaftId { term: TermId::MAX, index: LogIndex::MAX }
    }

    pub fn is_none(&self) -> (none: bool)
        ensures
            none == (*self == RaftId::spec_none()),
    {
        self.term == TermId::MAX && self.index == LogIndex::MAX
    }

    pub fn precedes(&self, other: &RaftId) -> (before: bool)
        ensures
            before == self.lt(*other),
    {
        self.term < other.term || (self.term == other.term && self.index < other.index)
    }

    #[verifier::when_used_as_spec(spec_key)]
    pub fn key(self) -> (key: Key)
        ensures
            key == self.spec_key(),
    {
        Key { major: self.term, minor: self.index, tail: 0 }
    }

    /// The position that a log key stands for.
    pub open spec fn spec_from_key(key: Key) -> RaftId {
        RaftId { term: key.major, index: key.minor }
    }

    #[verifier::when_used_as_spec(spec_from_key)]
    pub fn from_key(key: Key) -> (id: RaftId)
        ensures
            id == RaftId::spec_from_key(key),
    {
        RaftId { term: key.major, index: key.minor }
    }
}

/// The order of positions is the order of their keys.
pub proof fn lemma_key_order(a: RaftId, b: RaftId)
    ensures
        a.lt(b) == a.spec_key().lt(b.spec_key()),
        (a == b) == (a.spec_key() == b.spec_key()),
        RaftId::spec_from_key(a.spec_key()) == a,
{
}

/// Accounts that share one set of changed collections in a snapshot.
#[derive(Debug, Clone, PartialEq, Eq)]
pub struct SnapshotGroup {
    pub collections: Collections,
    pub account_ids: Vec<AccountId>,
}

/// What one log entry records.
#[derive(Debug, Clone, PartialEq, Eq)]
pub enum Entry {
    /// The footprint of a single committed operation.
    Item { account_id: AccountId, changed_collections: Collections },
    /// A compacted marker that covers many accounts at once.
    Snapshot { changed_accounts: Vec<SnapshotGroup> },
}

/// Whether some group names both the account and the collection.
pub open spec fn groups_touch(
    groups: Seq<SnapshotGroup>,
    account_id: AccountId,
    collection: Collection,
) -> bool {
    exists|g: int|
        0 <= g < groups.len() && (#[trigger] groups[g]).collections@.contains(collection)
            && groups[g].account_ids@.contains(account_id)
}

impl Entry {
    /// Whether the entry records a change to `collection` of `account_id`.
    pub open spec fn touches(self, account_id: AccountId, collection: Collection) -> bool {
        match self {
            Entry::Item { account_id: owner, changed_collections } => owner == account_id
                && changed_collections@.contains(collection),
            Entry::Snapshot { changed_accounts } => groups_touch(
                changed_accounts@,
                account_id,
                collection,
            ),
        }
    }
}

} // verus!

//! The follower of the replicated log: it matches its log with the leader's,
//! takes in entries and changes, asks for the documents that changed, and
//! rolls back what a former leader never committed.

use crate::bitmap::{treemap_decoded, treemap_serialize};
use crate::changes::{decoded_changes, MergedChanges, MergedChangesView};
use crate::cluster::append::{pending_outcome, update_log_outcome};
use crate::cluster::applier::{pending_applied, JMAPStoreRaftUpdates};
use crate::cluster::log::{AppendEntriesRequest, AppendEntriesResponse};
use crate::cluster::rollback::{collection_of, merge_outcome, rollback_outcome};
use crate::collection::{AccountId, Collection, Collections};
use crate::raft::{Entry, LogIndex, RaftId, TermId};
use crate::store::{
    log_holds, match_indexes, names_pair, prev_raft_id, term_starts, JMAPStore, StoreError,
    StoreView,
};
use crate::table::Row;
use vstd::prelude::*;

verus! {

/// Where a follower stands in its exchange with the leader.
#[derive(Debug, Clone, PartialEq)]
pub enum State {
    /// Logs are being matched; nothing is in flight.
    Synchronize,
    /// Log entries and change records are streaming in.
    AppendEntries {
        first_id: RaftId,
        last_id: RaftId,
        changed_accounts: Vec<(AccountId, Collections)>,
    },
    /// The documents of one collection are streaming in. `changed_accounts`
    /// is the work still to do: the last account is served first, and of its
    /// collections the one with the highest number.
    AppendChanges {
        first_id: RaftId,
        last_id: RaftId,
        changed_accounts: Vec<(AccountId, Collections)>,
    },
    /// One collection of one account is being rolled back.
    Rollback { account_id: AccountId, collection: Collection, changes: MergedChanges },
}

pub ghost enum StateView {
    Synchronize,
    AppendEntries {
        first_id: RaftId,
        last_id: RaftId,
        changed_accounts: Seq<(AccountId, Collections)>,
    },
    AppendChanges {
        first_id: RaftId,
        last_id: RaftId,
        changed_accounts: Seq<(AccountId, Collections)>,
    },
    Rollback { account_id: AccountId, collection: Collection, changes: MergedChangesView },
}

impl View for State {
    type V = StateView;

    open spec fn view(&self) -> StateView {
        match self {
            State::Synchronize => StateView::Synchronize,
            State::AppendEntries { first_id, last_id, changed_accounts } => {
                StateView::AppendEntries {
                    first_id: *first_id,
                    last_id: *last_id,
                    changed_accounts: changed_accounts@,
                }
            },
            State::AppendChanges { first_id, last_id, changed_accounts } => {
                StateView::AppendChanges {
                    first_id: *first_id,
                    last_id: *last_id,
                    changed_accounts: changed_accounts@,
                }
            },
            State::Rollback { account_id, collection, changes } => StateView::Rollback {
                account_id: *account_id,
                collection: *collection,
                changes: changes@,
            },
        }
    }
}

impl Default for State {
    fn default() -> (state: State)
        ensures
            state@ == StateView::Synchronize,
    {
        State::Synchronize
    }
}

/// Why a follower gives up the exchange with the leader.
#[derive(Clone, Copy, Debug, PartialEq, Eq, Structural)]
pub enum FollowerError {
    /// The leader sent an empty list of term boundaries.
    EmptyMatchTerms,
    /// A merge was asked for and nothing is left to roll back.
    NoRollbackChanges,
    /// The rollback ended and the log holds no entry.
    NoLastLog,
    /// The changes to ask the leader for have no serialized form: one of
    /// their sets is too large for its length to be written.
    Serialize,
    /// The store failed.
    Store(StoreError),
}

/// What a response says, with serialized sets read back.
pub ghost enum Reply {
    Match { match_log: RaftId },
    /// The log indexes held in the matched term; `None` where no term
    /// matched.
    Synchronize { match_indexes: Option<Set<LogIndex>> },
    Continue,
    Update { account_id: AccountId, collection: Collection, changes: MergedChangesView },
    Commit { commit_index: LogIndex },
}

/// Whether a response says what `reply` says.
pub open spec fn response_matches(response: AppendEntriesResponse, reply: Reply) -> bool {
    match reply {
        Reply::Match { match_log } => response == (AppendEntriesResponse::Match { match_log }),
        Reply::Synchronize { match_indexes } => match response {
            AppendEntriesResponse::Synchronize { match_indexes: bytes } => match match_indexes {
                Some(indexes) => treemap_decoded(bytes@) == Some(indexes),
                None => bytes@.len() == 0,
            },
            _ => false,
        },
        Reply::Continue => response is Continue,
        Reply::Update { account_id, collection, changes } => match response {
            AppendEntriesResponse::Update {
                account_id: response_account,
                collection: response_collection,
                changes: bytes,
            } => response_account == account_id && response_collection == collection
                && decoded_changes(bytes@) == Some(changes),
            _ => false,
        },
        Reply::Commit { commit_index } => response == (AppendEntriesResponse::Commit {
            commit_index,
        }),
    }
}

/// A node as the follower sees it: its store, whether it has caught up with
/// the leader, and the log index it has committed.
#[derive(Debug, Clone, PartialEq)]
pub struct JMAPServer {
    pub store: JMAPStore,
    pub up_to_date: bool,
    pub raft_index: LogIndex,
}

pub ghost struct ServerView {
    pub store: StoreView,
    pub up_to_date: bool,
    pub raft_index: LogIndex,
}

impl View for JMAPServer {
    type V = ServerView;

    open spec fn view(&self) -> ServerView {
        ServerView { store: self.store@, up_to_date: self.up_to_date, raft_index: self.raft_index }
    }
}

/// What a step of the follower leads to: the node after it, and the next
/// state with the reply, or the reason to give up.
pub ghost struct Outcome {
    pub server: ServerView,
    pub result: Result<(StateView, Reply), FollowerError>,
}

/// Whether `floor` is the newest position of the log at or before `id`.
pub open spec fn is_floor(log: Seq<Row<Entry>>, id: RaftId, floor: RaftId) -> bool {
    log_holds(log, floor) && floor.le(id) && forall|q: RaftId|
        #[trigger] log_holds(log, q) && q.le(id) ==> q.le(floor)
}

/// Whether the log holds a position at or before `id`.
pub open spec fn has_floor(log: Seq<Row<Entry>>, id: RaftId) -> bool {
    exists|q: RaftId| #[trigger] log_holds(log, q) && q.le(id)
}

/// How many leading positions two lists of term boundaries share.
pub open spec fn agreed(local: Seq<RaftId>, remote: Seq<RaftId>) -> nat
    decreases local.len(),
{
    if local.len() == 0 || remote.len() == 0 || local[0] != remote[0] {
        0
    } else {
        1 + agreed(local.drop_first(), remote.drop_first())
    }
}

/// The last position on which two lists of term boundaries agree, pair by
/// pair from the start; none where the first pair differs.
pub open spec fn matched_id(local: Seq<RaftId>, remote: Seq<RaftId>) -> RaftId {
    let shared = agreed(local, remote);
    if shared == 0 {
        RaftId::spec_none()
    } else {
        local[shared - 1]
    }
}

proof fn lemma_agreed_skip(local: Seq<RaftId>, remote: Seq<RaftId>, len: int)
    requires
        0 <= len <= local.len(),
        len <= remote.len(),
        forall|k: int| 0 <= k < len ==> local[k] == remote[k],
    ensures
        agreed(local, remote) == len + agreed(local.skip(len), remote.skip(len)),
    decreases len,
{
    if len == 0 {
        assert(local.skip(0) =~= local);
        assert(remote.skip(0) =~= remote);
    } else {
        assert(local[0] == remote[0]);
        let local_rest = local.drop_first();
        let remote_rest = remote.drop_first();
        assert forall|k: int| 0 <= k < len - 1 implies local_rest[k] == remote_rest[k] by {
            assert(local[k + 1] == remote[k + 1]);
        }
        lemma_agreed_skip(local_rest, remote_rest, len - 1);
        assert(local_rest.skip(len - 1) =~= local.skip(len));
        assert(remote_rest.skip(len - 1) =~= remote.skip(len));
    }
}

/// The reply to a request to synchronize, given what serializing the
/// matching indexes gave.
pub fn synchronize_reply(serialized: Option<Vec<u8>>) -> (reply: Result<
    AppendEntriesResponse,
    FollowerError,
>)
    ensures
        match serialized {
            Some(bytes) => reply == Ok::<AppendEntriesResponse, FollowerError>(
                AppendEntriesResponse::Synchronize { match_indexes: bytes },
            ),
            None => reply == Err::<AppendEntriesResponse, FollowerError>(FollowerError::Serialize),
        },
{
    match serialized {
        Some(bytes) => Ok(AppendEntriesResponse::Synchronize { match_indexes: bytes }),
        None => Err(FollowerError::Serialize),
    }
}

/// The reply that asks the leader for the documents of net changes, given
/// what serializing the changes gave.
pub fn update_reply(account_id: AccountId, collection: Collection, serialized: Option<Vec<u8>>) -> (reply:
    Result<AppendEntriesResponse, FollowerError>)
    ensures
        match serialized {
            Some(bytes) => reply == Ok::<AppendEntriesResponse, FollowerError>(
                AppendEntriesResponse::Update { account_id, collection, changes: bytes },
            ),
            None => reply == Err::<AppendEntriesResponse, FollowerError>(FollowerError::Serialize),
        },
{
    match serialized {
        Some(bytes) => Ok(AppendEntriesResponse::Update { account_id, collection, changes: bytes }),
        None => Err(FollowerError::Serialize),
    }
}

/// Whether changes are held by bitmaps that have no serialized form. The
/// form depends on how a bitmap holds its ids, so the sets alone do not
/// tell.
pub open spec fn held_unserialized(changes: MergedChangesView) -> bool {
    exists|held: MergedChanges| #[trigger] held.serialized_form() is None && held@ == changes
}

/// Whether what a step returned, and the node it left, are what `outcome`
/// says. A step that owes the leader a request for documents gives up
/// only where the changes to ask for, as the node holds them, have no
/// serialized form; it then leaves the node as it would have otherwise.
pub open spec fn step_meets(
    after: ServerView,
    result: Result<(State, AppendEntriesResponse), FollowerError>,
    outcome: Outcome,
) -> bool {
    after == outcome.server && match result {
        Ok((state, response)) => match outcome.result {
            Ok((next, reply)) => state@ == next && response_matches(response, reply),
            Err(_) => false,
        },
        Err(error) => match outcome.result {
            Ok((_, reply)) => error == FollowerError::Serialize && match reply {
                Reply::Update { changes, .. } => held_unserialized(changes),
                _ => false,
            },
            Err(expected) => error == expected,
        },
    }
}

impl JMAPServer {
    pub open spec fn wf(&self) -> bool {
        self.store.wf()
    }

    /// Tells whether the store of the node is in order.
    pub fn check(&self) -> (ok: bool)
        ensures
            ok == self.wf(),
    {
        self.store.check()
    }

    /// A node with an empty store.
    pub fn new() -> (server: JMAPServer)
        ensures
            server.wf(),
            server.store@ == StoreView::empty(),
            !server.up_to_date,
            server.raft_index == LogIndex::MAX,
    {
        JMAPServer { store: JMAPStore::new(), up_to_date: false, raft_index: LogIndex::MAX }
    }

    pub fn set_up_to_date(&mut self, up_to_date: bool)
        ensures
            final(self)@ == (ServerView { up_to_date, ..old(self)@ }),
            final(self).store == old(self).store,
    {
        self.up_to_date = up_to_date;
    }

    pub fn is_up_to_date(&self) -> (up_to_date: bool)
        ensures
            up_to_date == self@.up_to_date,
    {
        self.up_to_date
    }

    pub fn update_raft_index(&mut self, index: LogIndex)
        ensures
            final(self)@ == (ServerView { raft_index: index, ..old(self)@ }),
            final(self).store == old(self).store,
    {
        self.raft_index = index;
    }

    /// Answers a request to match logs with the newest local position at or
    /// before the leader's last position, or with none where there is no
    /// such position. The node has caught up where that position is the
    /// leader's, and where both logs are empty.
    pub fn handle_match_log(&mut self, last_log: RaftId) -> (response: AppendEntriesResponse)
        requires
            old(self).wf(),
        ensures
            final(self).wf(),
            final(self)@.store == old(self)@.store,
            final(self)@.raft_index == old(self)@.raft_index,
            response is Match,
            has_floor(old(self)@.store.log, last_log) ==> is_floor(
                old(self)@.store.log,
                last_log,
                response->match_log,
            ) && final(self)@.up_to_date == (response->match_log == last_log),
            !has_floor(old(self)@.store.log, last_log) ==> response->match_log
                == RaftId::spec_none() && final(self)@.up_to_date == (last_log
                == RaftId::spec_none() || old(self)@.up_to_date),
    {
        let ghost log = self.store@.log;
        let matched = if self.store.contains_raft_id(last_log) {
            Some(last_log)
        } else {
            self.store.get_prev_raft_id(last_log)
        };
        match matched {
            Some(matched) => {
                proof {
                    assert(log_holds(log, matched) && matched.le(last_log));
                    assert forall|q: RaftId| #[trigger]
                        log_holds(log, q) && q.le(last_log) implies q.le(matched) by {
                        if q != last_log {
                            assert(q.lt(last_log));
                        }
                    }
                }
                self.set_up_to_date(matched == last_log);
                AppendEntriesResponse::Match { match_log: matched }
            },
            None => {
                proof {
                    if has_floor(log, last_log) {
                        let q = choose|q: RaftId| #[trigger] log_holds(log, q) && q.le(last_log);
                        assert(q.lt(last_log));
                    }
                }
                if last_log.is_none() {
                    self.set_up_to_date(true);
                }
                AppendEntriesResponse::Match { match_log: RaftId::none() }
            },
        }
    }

    /// Answers a request to synchronize: finds the last term boundary on
    /// which this log and the leader's agree and replies with the indexes
    /// that this log holds in that term, serialized; with no bytes where the
    /// logs agree on nothing. An empty list from the leader is a violation
    /// of the protocol.
    pub fn handle_synchronize_log(&self, match_terms: Vec<RaftId>) -> (reply: Result<
        AppendEntriesResponse,
        FollowerError,
    >)
        requires
            self.wf(),
        ensures
            match_terms@.len() == 0 ==> reply == Err::<AppendEntriesResponse, FollowerError>(
                FollowerError::EmptyMatchTerms,
            ),
            match_terms@.len() > 0 ==> reply is Ok && response_matches(
                reply->Ok_0,
                Reply::Synchronize {
                    match_indexes: if matched_id(term_starts(self@.store.log), match_terms@)
                        == RaftId::spec_none() {
                        None
                    } else {
                        Some(
                            match_indexes(
                                self@.store.log,
                                matched_id(term_starts(self@.store.log), match_terms@).index,
                            ),
                        )
                    },
                },
            ),
    {
        if match_terms.len() == 0 {
            return Err(FollowerError::EmptyMatchTerms);
        }
        let local_match_terms = self.store.get_raft_match_terms();
        let ghost local = local_match_terms@;
        let ghost remote = match_terms@;
        let mut matched = RaftId::none();
        let mut agree = true;
        let mut i: usize = 0;
        while agree && i < local_match_terms.len() && i < match_terms.len()
            invariant
                i <= local.len(),
                i <= remote.len(),
                local == local_match_terms@,
                remote == match_terms@,
                forall|k: int| 0 <= k < i ==> local[k] == remote[k],
                !agree ==> i < local.len() && i < remote.len() && local[i as int] != remote[i as int],
                matched == if i == 0 {
                    RaftId::spec_none()
                } else {
                    local[i - 1]
                },
            decreases local.len() - i + if agree { 1int } else { 0int },
        {
            if local_match_terms[i] == match_terms[i] {
                matched = local_match_terms[i];
                i += 1;
            } else {
                agree = false;
            }
        }
        proof {
            lemma_agreed_skip(local, remote, i as int);
            let local_rest = local.skip(i as int);
            let remote_rest = remote.skip(i as int);
            if local_rest.len() > 0 && remote_rest.len() > 0 {
                assert(local_rest[0] == local[i as int]);
                assert(remote_rest[0] == remote[i as int]);
            }
            assert(agreed(local_rest, remote_rest) == 0);
        }
        if matched.is_none() {
            Ok(AppendEntriesResponse::Synchronize { match_indexes: Vec::new() })
        } else {
            let (_, indexes) = self.store.get_raft_match_indexes(matched.index);
            synchronize_reply(treemap_serialize(&indexes))
        }
    }

}

/// The newest position of the log at or before `id`, if there is one.
pub open spec fn floor(log: Seq<Row<Entry>>, id: RaftId) -> Option<RaftId> {
    if has_floor(log, id) {
        Some(choose|floor: RaftId| is_floor(log, id, floor))
    } else {
        None
    }
}

/// At most one position is the newest at or before another.
pub proof fn lemma_floor_unique(log: Seq<Row<Entry>>, id: RaftId, found: RaftId)
    requires
        is_floor(log, id, found),
    ensures
        floor(log, id) == Some(found),
{
    assert(log_holds(log, found) && found.le(id));
    let chosen = choose|floor: RaftId| is_floor(log, id, floor);
    assert(is_floor(log, id, chosen));
    assert(found.le(chosen));
    assert(chosen.le(found));
}

/// What a request to match logs leads to.
pub open spec fn match_outcome(server: ServerView, last_log: RaftId) -> Outcome {
    match floor(server.store.log, last_log) {
        Some(match_log) => Outcome {
            server: ServerView { up_to_date: match_log == last_log, ..server },
            result: Ok((StateView::Synchronize, Reply::Match { match_log })),
        },
        None => Outcome {
            server: ServerView {
                up_to_date: last_log == RaftId::spec_none() || server.up_to_date,
                ..server
            },
            result: Ok((StateView::Synchronize, Reply::Match { match_log: RaftId::spec_none() })),
        },
    }
}

/// What a request to synchronize leads to.
pub open spec fn synchronize_outcome(server: ServerView, match_terms: Seq<RaftId>) -> Outcome {
    let matched = matched_id(term_starts(server.store.log), match_terms);
    Outcome {
        server,
        result: if match_terms.len() == 0 {
            Err(FollowerError::EmptyMatchTerms)
        } else {
            Ok(
                (
                    StateView::Synchronize,
                    Reply::Synchronize {
                        match_indexes: if matched == RaftId::spec_none() {
                            None
                        } else {
                            Some(match_indexes(server.store.log, matched.index))
                        },
                    },
                ),
            )
        },
    }
}

/// Whether a request is one that the follower expects in a state. While
/// entries or documents stream in, only more of the stream is expected.
pub open spec fn defined(state: StateView, request: AppendEntriesRequest) -> bool {
    match state {
        StateView::Synchronize => true,
        StateView::Rollback { .. } => true,
        StateView::AppendEntries { .. } => request is Update,
        StateView::AppendChanges { .. } => request is Update,
    }
}

/// What a request leads to in a state in which it is expected.
pub open spec fn step_outcome(
    server: ServerView,
    state: StateView,
    request: AppendEntriesRequest,
) -> Outcome {
    match state {
        StateView::Synchronize => match request {
            AppendEntriesRequest::Match { last_log } => match_outcome(server, last_log),
            AppendEntriesRequest::Synchronize { match_terms } => synchronize_outcome(
                server,
                match_terms@,
            ),
            AppendEntriesRequest::Merge { matched_log } => merge_outcome(server, matched_log),
            AppendEntriesRequest::Update { commit_index, updates } => update_log_outcome(
                ServerView { up_to_date: false, ..server },
                RaftId::spec_none(),
                RaftId::spec_none(),
                commit_index,
                Seq::empty(),
                updates@,
            ),
        },
        StateView::AppendEntries { first_id, last_id, changed_accounts } => match request {
            AppendEntriesRequest::Update { commit_index, updates } => update_log_outcome(
                ServerView { up_to_date: false, ..server },
                first_id,
                last_id,
                commit_index,
                changed_accounts,
                updates@,
            ),
            _ => arbitrary(),
        },
        StateView::AppendChanges { first_id, last_id, changed_accounts } => match request {
            AppendEntriesRequest::Update { commit_index, updates } => pending_outcome(
                server,
                first_id,
                last_id,
                commit_index,
                changed_accounts,
                updates@,
            ),
            _ => arbitrary(),
        },
        StateView::Rollback { account_id, collection, changes } => match request {
            AppendEntriesRequest::Update { updates, .. } => rollback_outcome(
                server,
                account_id,
                collection,
                changes,
                updates@,
            ),
            _ => rollback_outcome(server, account_id, collection, changes, Seq::empty()),
        },
    }
}

/// Tells whether a request is one that the follower expects in a state.
pub fn is_defined(state: &State, request: &AppendEntriesRequest) -> (expected: bool)
    ensures
        expected == defined(state@, *request),
{
    match state {
        State::Synchronize => true,
        State::Rollback { .. } => true,
        _ => match request {
            AppendEntriesRequest::Update { .. } => true,
            _ => false,
        },
    }
}

impl JMAPServer {
    /// The state in which a follower starts: it takes up a rollback that
    /// was under way, and matches logs otherwise.
    pub fn initial_state(&self) -> (state: State)
        requires
            self.wf(),
        ensures
            state@ == if self@.store.rollback.len() == 0 {
                StateView::Synchronize
            } else {
                StateView::Rollback {
                    account_id: self@.store.rollback[0].key.major as AccountId,
                    collection: collection_of(self@.store.rollback[0].key),
                    changes: self@.store.rollback[0].value,
                }
            },
    {
        match self.store.next_rollback_change() {
            Some((account_id, collection, changes)) => {
                proof {
                    assert(names_pair(self.store.rollback@[0].key));
                    assert(self@.store.rollback[0].key == self.store.rollback@[0].key);
                }
                State::Rollback { account_id, collection, changes }
            },
            None => State::default(),
        }
    }

    /// Marks as applied the index of the newest position of the log, or no
    /// index where the log holds no position.
    pub fn init_last_applied_index(&mut self)
        requires
            old(self).wf(),
        ensures
            final(self).wf(),
            final(self)@ == (ServerView {
                store: StoreView {
                    last_applied: Some(
                        match prev_raft_id(old(self)@.store.log, RaftId::spec_none()) {
                            Some(last) => last.index,
                            None => LogIndex::MAX,
                        },
                    ),
                    ..old(self)@.store
                },
                ..old(self)@
            }),
    {
        let index = match self.store.get_prev_raft_id(RaftId::new(TermId::MAX, LogIndex::MAX)) {
            Some(last) => last.index,
            None => LogIndex::MAX,
        };
        self.store.last_applied = Some(index);
    }

    /// Applies the staged updates up to the index marked as applied and
    /// discards what lies beyond: staged updates, log entries, change
    /// records and the marker.
    pub fn apply_committed_updates(&mut self) -> (applied: Result<bool, StoreError>)
        requires
            old(self).wf(),
        ensures
            final(self).wf(),
            final(self)@.up_to_date == old(self)@.up_to_date,
            final(self)@.raft_index == old(self)@.raft_index,
            applied is Ok <==> pending_applied(old(self)@.store, LogIndex::MAX, true) is Some,
            applied is Ok ==> final(self)@.store == pending_applied(
                old(self)@.store,
                LogIndex::MAX,
                true,
            ).unwrap() && applied == Ok::<bool, StoreError>(old(self)@.store.last_applied is Some),
            applied is Err ==> applied == Err::<bool, StoreError>(StoreError::Decompress),
    {
        self.store.apply_pending_updates(LogIndex::MAX, true)
    }

    /// Takes one step: handles a request in a state and returns the next
    /// state and the response to the leader, or the reason to give up the
    /// exchange.
    pub fn step(&mut self, state: State, request: AppendEntriesRequest) -> (result: Result<
        (State, AppendEntriesResponse),
        FollowerError,
    >)
        requires
            old(self).wf(),
            defined(state@, request),
        ensures
            final(self).wf(),
            step_meets(final(self)@,
                result,
                step_outcome(old(self)@, state@, request),
            ),
    {
        match state {
            State::Synchronize => match request {
                AppendEntriesRequest::Match { last_log } => {
                    let response = self.handle_match_log(last_log);
                    proof {
                        let log = old(self)@.store.log;
                        if has_floor(log, last_log) {
                            lemma_floor_unique(log, last_log, response->match_log);
                        }
                    }
                    Ok((State::Synchronize, response))
                },
                AppendEntriesRequest::Synchronize { match_terms } => {
                    match self.handle_synchronize_log(match_terms) {
                        Ok(response) => Ok((State::Synchronize, response)),
                        Err(error) => Err(error),
                    }
                },
                AppendEntriesRequest::Merge { matched_log } => self.handle_merge_log(matched_log),
                AppendEntriesRequest::Update { commit_index, updates } => {
                    self.set_up_to_date(false);
                    self.handle_update_log(
                        RaftId::none(),
                        RaftId::none(),
                        commit_index,
                        Vec::new(),
                        updates,
                    )
                },
            },
            State::AppendEntries { first_id, last_id, changed_accounts } => match request {
                AppendEntriesRequest::Update { commit_index, updates } => {
                    self.set_up_to_date(false);
                    self.handle_update_log(
                        first_id,
                        last_id,
                        commit_index,
                        changed_accounts,
                        updates,
                    )
                },
                _ => vstd::pervasive::unreached(),
            },
            State::AppendChanges { first_id, last_id, changed_accounts } => match request {
                AppendEntriesRequest::Update { commit_index, updates } => {
                    self.handle_pending_updates(
                        first_id,
                        last_id,
                        commit_index,
                        changed_accounts,
                        updates,
                    )
                },
                _ => vstd::pervasive::unreached(),
            },
            State::Rollback { account_id, collection, changes } => match request {
                AppendEntriesRequest::Update { updates, .. } => {
                    self.handle_rollback_updates(account_id, collection, changes, updates)
                },
                _ => self.handle_rollback_updates(account_id, collection, changes, Vec::new()),
            },
        }
    }
}

} // verus!

//! What a node decides when a peer claims to lead it.

use crate::cluster::gossip::{find_peer, peer_slot, Cluster, ClusterView, PeerId};
use crate::cluster::log::AppendEntriesRequest;
use crate::raft::{LogIndex, RaftId, TermId};
use vstd::prelude::*;

verus! {

/// What a node answers to a peer over the channel between them.
#[derive(Debug, Clone, PartialEq, Eq)]
pub enum Response {
    /// The peer is to give up its claim: the node is in term `term`.
    StepDown { term: TermId },
    /// The node does not know the peer.
    UnregisteredPeer,
}

/// What a node does with a request of a peer that leads or claims to.
#[derive(Debug, Clone, PartialEq, Eq)]
pub enum Decision {
    /// The request goes to the follower, which answers it.
    Forward { request: AppendEntriesRequest },
    /// The node answers at once.
    Reply { response: Response },
}

impl ClusterView {
    /// Whether the node knows a peer.
    pub open spec fn knows(self, peer_id: PeerId) -> bool {
        peer_slot(self.peers, peer_id) is Some
    }

    /// Whether the log of the node ends before or at the position that a
    /// log with last term `term` and last index `index` ends at: the other
    /// log is in a later term, or in the same term and as long or longer.
    pub open spec fn behind_or_eq(self, term: TermId, index: LogIndex) -> bool {
        term > self.last_log_term || (term == self.last_log_term && index >= self.last_log_index)
    }
}

impl Cluster {
    pub fn is_known_peer(&self, peer_id: PeerId) -> (known: bool)
        ensures
            known == self@.knows(peer_id),
    {
        find_peer(&self.peers, peer_id).is_some()
    }

    pub fn log_is_behind_or_eq(&self, last_log_term: TermId, last_log_index: LogIndex) -> (behind:
        bool)
        ensures
            behind == self@.behind_or_eq(last_log_term, last_log_index),
    {
        last_log_term > self.last_log_term || (last_log_term == self.last_log_term
            && last_log_index >= self.last_log_index)
    }

    pub fn is_following_peer(&self, peer_id: PeerId) -> (following: bool)
        ensures
            following == (self@.following == Some(peer_id)),
    {
        match self.following {
            Some(leader) => leader == peer_id,
            None => false,
        }
    }

    /// Answers a peer that has become leader in `term` with its log ending
    /// at `last_log`. A peer that the node does not know is told so. The
    /// node moves on to the term of the peer where that is later than its
    /// own. It follows the peer, and has its follower match logs with it,
    /// where both are then in the same term and the log of the node does
    /// not go beyond that of the peer; else it tells the peer to step down.
    pub fn handle_become_follower(&mut self, peer_id: PeerId, term: TermId, last_log: RaftId) -> (decision:
        Decision)
        ensures
            !old(self)@.knows(peer_id) ==> final(self)@ == old(self)@ && decision == (
            Decision::Reply { response: Response::UnregisteredPeer }),
            old(self)@.knows(peer_id) ==> ({
                let current = if old(self).term < term {
                    term
                } else {
                    old(self).term
                };
                if current == term && old(self)@.behind_or_eq(last_log.term, last_log.index) {
                    final(self)@ == (ClusterView {
                        term: current,
                        following: Some(peer_id),
                        ..old(self)@
                    }) && decision == (Decision::Forward {
                        request: AppendEntriesRequest::Match { last_log },
                    })
                } else {
                    final(self)@ == (ClusterView { term: current, ..old(self)@ }) && decision == (
                    Decision::Reply { response: Response::StepDown { term: current } })
                }
            }),
    {
        if self.is_known_peer(peer_id) {
            if self.term < term {
                self.term = term;
            }
            if self.term == term && self.log_is_behind_or_eq(last_log.term, last_log.index) {
                self.following = Some(peer_id);
                Decision::Forward { request: AppendEntriesRequest::Match { last_log } }
            } else {
                Decision::Reply { response: Response::StepDown { term: self.term } }
            }
        } else {
            Decision::Reply { response: Response::UnregisteredPeer }
        }
    }

    /// Takes a request that a peer sends as leader in `term`. The node
    /// moves on to that term where it is later than its own. The request
    /// goes to the follower where the node follows the peer; any other peer
    /// is told to step down.
    pub fn handle_append_entries(
        &mut self,
        peer_id: PeerId,
        term: TermId,
        request: AppendEntriesRequest,
    ) -> (decision: Decision)
        ensures
            final(self)@ == (ClusterView {
                term: if term > old(self).term {
                    term
                } else {
                    old(self).term
                },
                ..old(self)@
            }),
            decision == if old(self)@.following == Some(peer_id) {
                Decision::Forward { request }
            } else {
                Decision::Reply { response: Response::StepDown { term: final(self).term } }
            },
    {
        if term > self.term {
            self.term = term;
        }
        if self.is_following_peer(peer_id) {
            Decision::Forward { request }
        } else {
            Decision::Reply { response: Response::StepDown { term: self.term } }
        }
    }
}

} // verus!

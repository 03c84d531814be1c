//! Peers of the cluster and the detection of their failure from the
//! intervals between their heartbeats.

use crate::raft::{LogIndex, TermId};
use vstd::prelude::*;
use vstd::std_specs::convert::FromSpecImpl;
use vstd::string::StringExecFns;

verus! {

pub type PeerId = u64;

pub type ShardId = u32;

pub type EpochId = u64;

pub type GenerationId = u64;

/// Number of heartbeat intervals that a peer's window holds.
pub const HEARTBEAT_WINDOW: usize = 1024;

/// The liveness of a peer.
#[derive(Debug, Copy, Clone, PartialEq, Eq, Structural)]
pub enum State {
    Seed,
    Alive,
    Suspected,
    Leaving,
    Offline,
}

/// What a node tells of a peer in a ping.
#[derive(Debug, Copy, Clone, PartialEq, Eq, Structural)]
pub struct PeerStatus {
    pub peer_id: PeerId,
    pub epoch: EpochId,
    pub generation: GenerationId,
    pub last_log_term: TermId,
    pub last_log_index: LogIndex,
}

/// A member of the cluster as this node knows it.
#[derive(Debug, Clone, PartialEq, Eq)]
pub struct Peer {
    pub peer_id: PeerId,
    pub shard_id: ShardId,
    pub epoch: EpochId,
    pub generation: GenerationId,
    pub gossip_addr: String,
    pub rpc_url: String,
    pub jmap_url: String,
    pub state: State,
    /// When the last heartbeat came, in milliseconds of the node's clock.
    pub last_heartbeat: u64,
    /// The last intervals between heartbeats, in milliseconds, as a ring.
    pub hb_window: Vec<u32>,
    /// The place in the ring of the interval taken last.
    pub hb_window_pos: usize,
    /// The sum of the intervals in the ring.
    pub hb_sum: u64,
    /// The sum of the squares of the intervals in the ring.
    pub hb_sq_sum: u128,
    /// Whether the ring has gone round once.
    pub hb_is_full: bool,
    pub last_log_term: TermId,
    pub last_log_index: LogIndex,
}

/// This node and the peers it knows.
#[derive(Debug, Clone, PartialEq, Eq)]
pub struct Cluster {
    pub peer_id: PeerId,
    pub shard_id: ShardId,
    pub epoch: EpochId,
    pub generation: GenerationId,
    pub gossip_addr: String,
    pub rpc_url: String,
    pub jmap_url: String,
    pub last_log_term: TermId,
    pub last_log_index: LogIndex,
    /// The term that the node is in.
    pub term: TermId,
    /// The peer that the node follows as its leader, if it follows one.
    pub following: Option<PeerId>,
    pub peers: Vec<Peer>,
}

impl PeerStatus {
    /// What a node tells of a peer.
    pub open spec fn of_peer(peer: PeerView) -> PeerStatus {
        PeerStatus {
            peer_id: peer.peer_id,
            epoch: peer.epoch,
            generation: peer.generation,
            last_log_term: peer.last_log_term,
            last_log_index: peer.last_log_index,
        }
    }

    /// What a node tells of itself.
    pub open spec fn of_cluster(cluster: ClusterView) -> PeerStatus {
        PeerStatus {
            peer_id: cluster.peer_id,
            epoch: cluster.epoch,
            generation: cluster.generation,
            last_log_term: cluster.last_log_term,
            last_log_index: cluster.last_log_index,
        }
    }
}

impl<'a> From<&'a Peer> for PeerStatus {
    fn from(peer: &'a Peer) -> (status: PeerStatus) {
        PeerStatus {
            peer_id: peer.peer_id,
            epoch: peer.epoch,
            generation: peer.generation,
            last_log_term: peer.last_log_term,
            last_log_index: peer.last_log_index,
        }
    }
}

impl<'a> FromSpecImpl<&'a Peer> for PeerStatus {
    open spec fn obeys_from_spec() -> bool {
        true
    }

    open spec fn from_spec(peer: &'a Peer) -> PeerStatus {
        PeerStatus::of_peer(peer@)
    }
}

impl<'a> From<&'a Cluster> for PeerStatus {
    fn from(cluster: &'a Cluster) -> (status: PeerStatus) {
        PeerStatus {
            peer_id: cluster.peer_id,
            epoch: cluster.epoch,
            generation: cluster.generation,
            last_log_term: cluster.last_log_term,
            last_log_index: cluster.last_log_index,
        }
    }
}

impl<'a> FromSpecImpl<&'a Cluster> for PeerStatus {
    open spec fn obeys_from_spec() -> bool {
        true
    }

    open spec fn from_spec(cluster: &'a Cluster) -> PeerStatus {
        PeerStatus::of_cluster(cluster@)
    }
}

/// The sum of the intervals.
pub open spec fn total(window: Seq<u32>) -> int
    decreases window.len(),
{
    if window.len() == 0 {
        0
    } else {
        total(window.drop_last()) + window.last()
    }
}

/// The sum of the squares of the intervals.
pub open spec fn total_squares(window: Seq<u32>) -> int
    decreases window.len(),
{
    if window.len() == 0 {
        0
    } else {
        total_squares(window.drop_last()) + window.last() * window.last()
    }
}

/// Replacing one interval changes the sums by the difference.
pub proof fn lemma_total_update(window: Seq<u32>, pos: int, sample: u32)
    requires
        0 <= pos < window.len(),
    ensures
        total(window.update(pos, sample)) == total(window) - window[pos] + sample,
        total_squares(window.update(pos, sample)) == total_squares(window) - window[pos]
            * window[pos] + sample * sample,
    decreases window.len(),
{
    let after = window.update(pos, sample);
    if pos == window.len() - 1 {
        assert(after.drop_last() =~= window.drop_last());
    } else {
        lemma_total_update(window.drop_last(), pos, sample);
        assert(after.drop_last() =~= window.drop_last().update(pos, sample));
    }
}

/// The sums are bounded by the number of intervals, and each interval by
/// the sum.
pub proof fn lemma_total_bounds(window: Seq<u32>)
    ensures
        0 <= total(window) <= window.len() * 0xffff_ffff,
        0 <= total_squares(window) <= window.len() * 0xffff_fffe_0000_0001,
        forall|i: int| 0 <= i < window.len() ==> window[i] <= total(window),
    decreases window.len(),
{
    if window.len() > 0 {
        let front = window.drop_last();
        lemma_total_bounds(front);
        let last = window.last() as int;
        assert(0 <= last * last <= 0xffff_fffe_0000_0001) by (nonlinear_arith)
            requires
                0 <= last <= 0xffff_ffff,
        ;
        assert forall|i: int| 0 <= i < window.len() implies window[i] <= total(window) by {
            if i < front.len() {
                assert(front[i] == window[i]);
            }
        }
    }
}

pub ghost struct PeerView {
    pub peer_id: PeerId,
    pub shard_id: ShardId,
    pub epoch: EpochId,
    pub generation: GenerationId,
    pub gossip_addr: Seq<char>,
    pub rpc_url: Seq<char>,
    pub jmap_url: Seq<char>,
    pub state: State,
    pub last_heartbeat: u64,
    pub hb_window: Seq<u32>,
    pub hb_window_pos: usize,
    pub hb_sum: u64,
    pub hb_sq_sum: u128,
    pub hb_is_full: bool,
    pub last_log_term: TermId,
    pub last_log_index: LogIndex,
}

impl View for Peer {
    type V = PeerView;

    open spec fn view(&self) -> PeerView {
        PeerView {
            peer_id: self.peer_id,
            shard_id: self.shard_id,
            epoch: self.epoch,
            generation: self.generation,
            gossip_addr: self.gossip_addr@,
            rpc_url: self.rpc_url@,
            jmap_url: self.jmap_url@,
            state: self.state,
            last_heartbeat: self.last_heartbeat,
            hb_window: self.hb_window@,
            hb_window_pos: self.hb_window_pos,
            hb_sum: self.hb_sum,
            hb_sq_sum: self.hb_sq_sum,
            hb_is_full: self.hb_is_full,
            last_log_term: self.last_log_term,
            last_log_index: self.last_log_index,
        }
    }
}

impl PeerView {
    /// The ring has its full size, the place in it is within it, the sums
    /// are those of the ring, and a ring that has not gone round holds
    /// nothing beyond the place of the interval taken last.
    pub open spec fn wf(self) -> bool {
        &&& self.hb_window.len() == HEARTBEAT_WINDOW
        &&& self.hb_window_pos < HEARTBEAT_WINDOW
        &&& self.hb_sum == total(self.hb_window)
        &&& self.hb_sq_sum == total_squares(self.hb_window)
        &&& !self.hb_is_full ==> forall|i: int|
            self.hb_window_pos < i < HEARTBEAT_WINDOW ==> self.hb_window[i] == 0
    }

    /// The peer after a heartbeat of it came at `now`: it is alive, and the
    /// interval since its last heartbeat takes the next place in the ring,
    /// where it replaces the oldest once the ring has gone round. The ring
    /// has gone round when it comes back to its first place with intervals
    /// in it.
    pub open spec fn heartbeat_taken(self, now: u64) -> PeerView {
        let pos = next_pos(self.hb_window_pos);
        let sample = spec_interval(self.last_heartbeat, now);
        let window = self.hb_window.update(pos as int, sample);
        PeerView {
            state: State::Alive,
            last_heartbeat: now,
            hb_window: window,
            hb_window_pos: pos,
            hb_sum: total(window) as u64,
            hb_sq_sum: total_squares(window) as u128,
            hb_is_full: self.hb_is_full || (pos == 0 && self.hb_sum > 0),
            ..self
        }
    }
}

impl Peer {
    pub open spec fn wf(&self) -> bool {
        self@.wf()
    }

    /// Tells whether the window of the peer is in order.
    pub fn check(&self) -> (ok: bool)
        ensures
            ok == self.wf(),
    {
        if self.hb_window.len() != HEARTBEAT_WINDOW || self.hb_window_pos >= HEARTBEAT_WINDOW {
            return false;
        }
        let ghost window = self.hb_window@;
        let mut sum: u64 = 0;
        let mut square_sum: u128 = 0;
        let mut empty_beyond = true;
        let mut i: usize = 0;
        while i < HEARTBEAT_WINDOW
            invariant
                i <= HEARTBEAT_WINDOW,
                window == self.hb_window@,
                window.len() == HEARTBEAT_WINDOW,
                sum == total(window.take(i as int)),
                square_sum == total_squares(window.take(i as int)),
                empty_beyond == forall|k: int|
                    self.hb_window_pos < k < i ==> #[trigger] window[k] == 0,
            decreases HEARTBEAT_WINDOW - i,
        {
            let sample = self.hb_window[i];
            proof {
                let prefix = window.take(i + 1);
                assert(prefix.drop_last() =~= window.take(i as int));
                assert(prefix.last() == sample);
                lemma_total_bounds(prefix);
                lemma_total_bounds(window.take(i as int));
                lemma_square_within(prefix, i as int);
            }
            sum = sum + sample as u64;
            square_sum = square_sum + (sample as u128) * (sample as u128);
            if i > self.hb_window_pos && sample != 0 {
                empty_beyond = false;
            }
            i += 1;
        }
        assert(window.take(i as int) =~= window);
        self.hb_sum == sum && self.hb_sq_sum == square_sum && (self.hb_is_full || empty_beyond)
    }

    /// The number of intervals that the ring holds: one in each place once
    /// it has come back to its first place, and before that one in each
    /// place from the second to the one taken last.
    pub open spec fn spec_sample_size(&self) -> usize {
        if self.hb_is_full || self.hb_window_pos == 0 {
            HEARTBEAT_WINDOW
        } else {
            self.hb_window_pos
        }
    }

    #[verifier::when_used_as_spec(spec_sample_size)]
    pub fn sample_size(&self) -> (size: usize)
        requires
            self.wf(),
        ensures
            size == self.spec_sample_size(),
            0 < size <= HEARTBEAT_WINDOW,
    {
        if self.hb_is_full || self.hb_window_pos == 0 {
            HEARTBEAT_WINDOW
        } else {
            self.hb_window_pos
        }
    }
}

/// The place in the ring after `pos`.
pub open spec fn next_pos(pos: usize) -> usize {
    if pos + 1 == HEARTBEAT_WINDOW {
        0
    } else {
        (pos + 1) as usize
    }
}

/// The time between two readings of the clock in milliseconds, cut to 32
/// bits; nothing where the clock went back.
pub open spec fn spec_interval(last: u64, now: u64) -> u32 {
    if now >= last {
        ((now - last) % 0x1_0000_0000) as u32
    } else {
        0
    }
}

#[verifier::when_used_as_spec(spec_interval)]
pub fn interval(last: u64, now: u64) -> (elapsed: u32)
    ensures
        elapsed == spec_interval(last, now),
{
    if now >= last {
        ((now - last) % 0x1_0000_0000) as u32
    } else {
        0
    }
}

/// Takes in a heartbeat of a peer that came at `now`: the peer is alive,
/// and the interval since its last heartbeat takes the next place in the
/// ring, where it replaces the oldest once the ring has gone round. The ring
/// has gone round when it comes back to its first place with intervals in
/// it.
pub fn update_heartbeat(peer: &mut Peer, now: u64)
    requires
        old(peer).wf(),
    ensures
        final(peer).wf(),
        final(peer)@ == old(peer)@.heartbeat_taken(now),
{
    peer.state = State::Alive;
    let hb_diff = interval(peer.last_heartbeat, now);
    let pos = if peer.hb_window_pos + 1 == HEARTBEAT_WINDOW {
        0
    } else {
        peer.hb_window_pos + 1
    };
    peer.hb_window_pos = pos;
    if !peer.hb_is_full && pos == 0 && peer.hb_sum > 0 {
        peer.hb_is_full = true;
    }
    let ghost window = peer.hb_window@;
    proof {
        lemma_total_bounds(window);
        lemma_total_update(window, pos as int, hb_diff);
        lemma_total_bounds(window.update(pos as int, hb_diff));
        let replaced = window[pos as int] as int;
        assert(0 <= replaced * replaced <= total_squares(window)) by {
            lemma_square_within(window, pos as int);
        }
    }
    let replaced = peer.hb_window[pos];
    if peer.hb_is_full {
        peer.hb_sum = peer.hb_sum - replaced as u64;
        peer.hb_sq_sum = peer.hb_sq_sum - (replaced as u128) * (replaced as u128);
    } else {
        assert(replaced == 0);
    }
    peer.hb_window.set(pos, hb_diff);
    peer.hb_sum = peer.hb_sum + hb_diff as u64;
    peer.hb_sq_sum = peer.hb_sq_sum + (hb_diff as u128) * (hb_diff as u128);
    peer.last_heartbeat = now;
}

/// The square of each interval is at most the sum of the squares.
pub proof fn lemma_square_within(window: Seq<u32>, pos: int)
    requires
        0 <= pos < window.len(),
    ensures
        0 <= window[pos] * window[pos] <= total_squares(window),
    decreases window.len(),
{
    lemma_total_bounds(window.drop_last());
    let last = window.last() as int;
    assert(0 <= last * last) by (nonlinear_arith);
    if pos < window.len() - 1 {
        lemma_square_within(window.drop_last(), pos);
        assert(window.drop_last()[pos] == window[pos]);
    }
}

/// The peer after `beats` heartbeats that came one `interval` after
/// another, the first one `interval` after its last heartbeat.
pub open spec fn steady(peer: PeerView, interval: u32, beats: nat) -> PeerView
    decreases beats,
{
    if beats == 0 {
        peer
    } else {
        let before = steady(peer, interval, (beats - 1) as nat);
        before.heartbeat_taken((before.last_heartbeat + interval) as u64)
    }
}

/// How many places the ring moves on from `from` until it comes to `to`:
/// between one and the size of the ring.
pub open spec fn ring_distance(from: usize, to: usize) -> int {
    if to > from {
        to - from
    } else {
        to + HEARTBEAT_WINDOW - from
    }
}

/// A window of the same interval in every place sums to as many intervals
/// as it has places.
proof fn lemma_total_constant(window: Seq<u32>, interval: u32)
    requires
        forall|i: int| 0 <= i < window.len() ==> window[i] == interval,
    ensures
        total(window) == window.len() * interval,
        total_squares(window) == window.len() * (interval * interval),
    decreases window.len(),
{
    let n = window.len() as int;
    let v = interval as int;
    if window.len() > 0 {
        let front = window.drop_last();
        assert forall|i: int| 0 <= i < front.len() implies front[i] == interval by {
            assert(front[i] == window[i]);
        }
        lemma_total_constant(front, interval);
        assert(front.len() == n - 1);
        assert(window.last() == interval);
        assert((n - 1) * v + v == n * v) by (nonlinear_arith);
        assert((n - 1) * (v * v) + v * v == n * (v * v)) by (nonlinear_arith);
    } else {
        assert(0 * v == 0) by (nonlinear_arith);
        assert(0 * (v * v) == 0) by (nonlinear_arith);
    }
}

/// While steady heartbeats go round the ring for the first time, every
/// place that the ring has come to holds the interval.
proof fn lemma_steady_round(peer: PeerView, interval: u32, beats: nat)
    requires
        peer.wf(),
        1 <= beats <= HEARTBEAT_WINDOW,
        peer.last_heartbeat + beats * interval <= u64::MAX,
    ensures
        steady(peer, interval, beats).wf(),
        steady(peer, interval, beats).last_heartbeat == peer.last_heartbeat + beats * interval,
        ring_distance(peer.hb_window_pos, steady(peer, interval, beats).hb_window_pos) == beats,
        forall|i: int|
            0 <= i < HEARTBEAT_WINDOW && ring_distance(peer.hb_window_pos, i as usize) <= beats
                ==> #[trigger] steady(peer, interval, beats).hb_window[i] == interval,
    decreases beats,
{
    let v = interval as int;
    if beats == 1 {
        assert(steady(peer, interval, 0) == peer);
        assert(1 * v == v) by (nonlinear_arith);
        lemma_heartbeat_wf(peer, (peer.last_heartbeat + interval) as u64);
    } else {
        let before = steady(peer, interval, (beats - 1) as nat);
        assert((beats - 1) * v + v == beats * v) by (nonlinear_arith);
        assert((beats - 1) * v >= 0) by (nonlinear_arith)
            requires
                beats >= 1,
                v >= 0,
        ;
        lemma_steady_round(peer, interval, (beats - 1) as nat);
        lemma_heartbeat_wf(before, (before.last_heartbeat + interval) as u64);
    }
}

/// Once steady heartbeats have gone round the ring, every place of the
/// window holds the interval: the sum of the window is the size of the ring
/// times the interval, and the sum of the squares the size of the ring
/// times the square of the interval.
pub proof fn lemma_steady_heartbeats(peer: PeerView, interval: u32, beats: nat)
    requires
        peer.wf(),
        beats >= HEARTBEAT_WINDOW,
        peer.last_heartbeat + beats * interval <= u64::MAX,
    ensures
        steady(peer, interval, beats).wf(),
        steady(peer, interval, beats).state == State::Alive,
        steady(peer, interval, beats).last_heartbeat == peer.last_heartbeat + beats * interval,
        forall|i: int|
            0 <= i < HEARTBEAT_WINDOW ==> #[trigger] steady(peer, interval, beats).hb_window[i]
                == interval,
        steady(peer, interval, beats).hb_sum == HEARTBEAT_WINDOW * interval,
        steady(peer, interval, beats).hb_sq_sum == HEARTBEAT_WINDOW * (interval * interval),
    decreases beats,
{
    let v = interval as int;
    let after = steady(peer, interval, beats);
    if beats == HEARTBEAT_WINDOW {
        lemma_steady_round(peer, interval, beats);
    } else {
        let before = steady(peer, interval, (beats - 1) as nat);
        assert((beats - 1) * v + v == beats * v) by (nonlinear_arith);
        assert((beats - 1) * v >= 0) by (nonlinear_arith)
            requires
                beats >= 1,
                v >= 0,
        ;
        lemma_steady_heartbeats(peer, interval, (beats - 1) as nat);
        lemma_heartbeat_wf(before, (before.last_heartbeat + interval) as u64);
    }
    lemma_total_constant(after.hb_window, interval);
}

/// Steady heartbeats after steady heartbeats are steady heartbeats.
proof fn lemma_steady_adds(peer: PeerView, interval: u32, first: nat, more: nat)
    ensures
        steady(steady(peer, interval, first), interval, more) == steady(
            peer,
            interval,
            first + more,
        ),
    decreases more,
{
    if more > 0 {
        lemma_steady_adds(peer, interval, first, (more - 1) as nat);
        assert(first + more - 1 == first + (more - 1) as nat);
    }
}

/// A ring that counts as gone round still does after more heartbeats.
proof fn lemma_steady_stays_full(peer: PeerView, interval: u32, beats: nat)
    requires
        peer.hb_is_full,
    ensures
        steady(peer, interval, beats).hb_is_full,
    decreases beats,
{
    if beats > 0 {
        lemma_steady_stays_full(peer, interval, (beats - 1) as nat);
    }
}

/// Once steady heartbeats with some time between them have gone round the
/// ring twice, the ring counts as gone round, so that every one of its
/// places counts as a sample: with the sums of a steady window, the mean
/// of the samples is the interval itself.
pub proof fn lemma_steady_window_full(peer: PeerView, interval: u32, beats: nat)
    requires
        peer.wf(),
        interval > 0,
        beats >= 2 * HEARTBEAT_WINDOW,
        peer.last_heartbeat + beats * interval <= u64::MAX,
    ensures
        steady(peer, interval, beats).hb_is_full,
{
    let v = interval as int;
    let window = HEARTBEAT_WINDOW as nat;
    assert(window * v <= beats * v) by (nonlinear_arith)
        requires
            window <= beats,
            v >= 0,
    ;
    assert(2 * window * v <= beats * v) by (nonlinear_arith)
        requires
            2 * window <= beats,
            v >= 0,
    ;
    lemma_steady_heartbeats(peer, interval, window);
    let round = steady(peer, interval, window);
    let wrap = ring_distance(round.hb_window_pos, 0) as nat;
    assert(1 <= wrap <= window);
    assert(wrap * v <= window * v) by (nonlinear_arith)
        requires
            wrap <= window,
            v >= 0,
    ;
    assert(window * v + window * v == 2 * window * v) by (nonlinear_arith);
    lemma_steady_round(round, interval, wrap);
    let at_wrap = steady(round, interval, wrap);
    let before = steady(round, interval, (wrap - 1) as nat);
    assert(at_wrap.hb_window_pos == 0);
    lemma_steady_adds(peer, interval, window, (wrap - 1) as nat);
    assert((window + wrap - 1) * v <= beats * v) by (nonlinear_arith)
        requires
            window + wrap - 1 <= beats,
            v >= 0,
    ;
    lemma_steady_heartbeats(peer, interval, (window + wrap - 1) as nat);
    assert(before.hb_sum == HEARTBEAT_WINDOW * interval);
    assert(HEARTBEAT_WINDOW * interval > 0) by (nonlinear_arith)
        requires
            interval > 0,
    ;
    assert(at_wrap.hb_is_full);
    lemma_steady_adds(peer, interval, window, wrap);
    lemma_steady_stays_full(at_wrap, interval, (beats - window - wrap) as nat);
    lemma_steady_adds(peer, interval, window + wrap, (beats - window - wrap) as nat);
    assert(window + wrap + (beats - window - wrap) as nat == beats);
}

/// The figures from which the suspicion that a peer has failed is worked
/// out.
#[derive(Debug, Copy, Clone, PartialEq, Eq, Structural)]
pub struct HeartbeatSample {
    /// Milliseconds since the last heartbeat.
    pub elapsed: u32,
    /// The sum of the intervals in the window.
    pub sum: u64,
    /// The sum of their squares.
    pub square_sum: u128,
    /// The number of intervals that count.
    pub size: usize,
}

/// The figures for a check of `peer` at `now`; `None` while no interval has
/// been taken.
pub fn heartbeat_sample(peer: &Peer, now: u64) -> (sample: Option<HeartbeatSample>)
    requires
        peer.wf(),
    ensures
        sample == if peer.hb_sum == 0 {
            None
        } else {
            Some(
                HeartbeatSample {
                    elapsed: spec_interval(peer.last_heartbeat, now),
                    sum: peer.hb_sum,
                    square_sum: peer.hb_sq_sum,
                    size: peer.spec_sample_size(),
                },
            )
        },
{
    if peer.hb_sum == 0 {
        None
    } else {
        Some(
            HeartbeatSample {
                elapsed: interval(peer.last_heartbeat, now),
                sum: peer.hb_sum,
                square_sum: peer.hb_sq_sum,
                size: peer.sample_size(),
            },
        )
    }
}

/// How far the suspicion that a peer has failed has risen.
#[derive(Debug, Copy, Clone, PartialEq, Eq, Structural)]
pub enum Suspicion {
    /// Below the threshold of suspicion.
    Trusted,
    /// Above the threshold of suspicion.
    Suspected,
    /// Above the threshold of conviction.
    Convicted,
}

/// Sets the liveness of a peer by the suspicion that a check gave, and
/// tells whether the peer still counts as alive. A peer of which no
/// interval has been taken is not checked and does not count as alive.
pub fn check_heartbeat(peer: &mut Peer, suspicion: Suspicion) -> (is_alive: bool)
    ensures
        is_alive == (old(peer).hb_sum != 0 && suspicion != Suspicion::Convicted),
        final(peer).state == if old(peer).hb_sum == 0 {
            old(peer).state
        } else {
            match suspicion {
                Suspicion::Convicted => State::Offline,
                Suspicion::Suspected => State::Suspected,
                Suspicion::Trusted => old(peer).state,
            }
        },
        final(peer)@ == (PeerView { state: final(peer).state, ..old(peer)@ }),
{
    if peer.hb_sum == 0 {
        return false;
    }
    match suspicion {
        Suspicion::Convicted => {
            peer.state = State::Offline;
            false
        },
        Suspicion::Suspected => {
            peer.state = State::Suspected;
            true
        },
        Suspicion::Trusted => true,
    }
}

/// The views of a list of peers, in order.
pub open spec fn peers_view(peers: Seq<Peer>) -> Seq<PeerView> {
    Seq::new(peers.len(), |i: int| peers[i]@)
}

pub ghost struct ClusterView {
    pub peer_id: PeerId,
    pub shard_id: ShardId,
    pub epoch: EpochId,
    pub generation: GenerationId,
    pub gossip_addr: Seq<char>,
    pub rpc_url: Seq<char>,
    pub jmap_url: Seq<char>,
    pub last_log_term: TermId,
    pub last_log_index: LogIndex,
    pub term: TermId,
    pub following: Option<PeerId>,
    pub peers: Seq<PeerView>,
}

impl View for Cluster {
    type V = ClusterView;

    open spec fn view(&self) -> ClusterView {
        ClusterView {
            peer_id: self.peer_id,
            shard_id: self.shard_id,
            epoch: self.epoch,
            generation: self.generation,
            gossip_addr: self.gossip_addr@,
            rpc_url: self.rpc_url@,
            jmap_url: self.jmap_url@,
            last_log_term: self.last_log_term,
            last_log_index: self.last_log_index,
            term: self.term,
            following: self.following,
            peers: peers_view(self.peers@),
        }
    }
}

/// Whether the windows of all peers are in order.
pub open spec fn peers_wf(peers: Seq<PeerView>) -> bool {
    forall|i: int| 0 <= i < peers.len() ==> (#[trigger] peers[i]).wf()
}

impl Cluster {
    pub open spec fn wf(&self) -> bool {
        peers_wf(self@.peers)
    }

    /// Tells whether the windows of all peers are in order.
    pub fn check(&self) -> (ok: bool)
        ensures
            ok == self.wf(),
    {
        let mut i: usize = 0;
        while i < self.peers.len()
            invariant
                forall|k: int| 0 <= k < i && k < self.peers@.len() ==> (#[trigger] self@.peers[k]).wf(),
            decreases self.peers@.len() - i,
        {
            assert(self@.peers[i as int] == self.peers@[i as int]@);
            if !self.peers[i].check() {
                return false;
            }
            i += 1;
        }
        true
    }
}

/// The status of the node, then that of each peer in order.
pub open spec fn cluster_statuses(cluster: ClusterView) -> Seq<PeerStatus> {
    Seq::new(
        cluster.peers.len() + 1,
        |i: int|
            if i == 0 {
                PeerStatus::of_cluster(cluster)
            } else {
                PeerStatus::of_peer(cluster.peers[i - 1])
            },
    )
}

/// The status of this node, then that of each peer in order.
pub fn build_peer_status(cluster: &Cluster) -> (result: Vec<PeerStatus>)
    ensures
        result@ == cluster_statuses(cluster@),
{
    let mut result: Vec<PeerStatus> = Vec::new();
    result.push(PeerStatus::from(cluster));
    let mut i: usize = 0;
    while i < cluster.peers.len()
        invariant
            i <= cluster.peers@.len(),
            result@.len() == i + 1,
            result@[0] == PeerStatus::of_cluster(cluster@),
            forall|k: int| 0 <= k < i ==> result@[k + 1] == PeerStatus::of_peer(cluster.peers@[k]@),
        decreases cluster.peers@.len() - i,
    {
        result.push(PeerStatus::from(&cluster.peers[i]));
        i += 1;
    }
    assert(result@ =~= cluster_statuses(cluster@));
    result
}

/// What a node tells of a peer when the peers are synchronized in full.
#[derive(Debug, Clone, PartialEq, Eq)]
pub struct PeerInfo {
    pub peer_id: PeerId,
    pub shard_id: ShardId,
    pub epoch: EpochId,
    pub last_log_term: TermId,
    pub last_log_index: LogIndex,
    pub generation: GenerationId,
    pub gossip_addr: String,
    pub rpc_url: String,
    pub jmap_url: String,
}

pub ghost struct PeerInfoView {
    pub peer_id: PeerId,
    pub shard_id: ShardId,
    pub epoch: EpochId,
    pub last_log_term: TermId,
    pub last_log_index: LogIndex,
    pub generation: GenerationId,
    pub gossip_addr: Seq<char>,
    pub rpc_url: Seq<char>,
    pub jmap_url: Seq<char>,
}

impl View for PeerInfo {
    type V = PeerInfoView;

    open spec fn view(&self) -> PeerInfoView {
        PeerInfoView {
            peer_id: self.peer_id,
            shard_id: self.shard_id,
            epoch: self.epoch,
            last_log_term: self.last_log_term,
            last_log_index: self.last_log_index,
            generation: self.generation,
            gossip_addr: self.gossip_addr@,
            rpc_url: self.rpc_url@,
            jmap_url: self.jmap_url@,
        }
    }
}

impl PeerInfoView {
    /// What a node tells of a peer.
    pub open spec fn of_peer(peer: PeerView) -> PeerInfoView {
        PeerInfoView {
            peer_id: peer.peer_id,
            shard_id: peer.shard_id,
            epoch: peer.epoch,
            last_log_term: peer.last_log_term,
            last_log_index: peer.last_log_index,
            generation: peer.generation,
            gossip_addr: peer.gossip_addr,
            rpc_url: peer.rpc_url,
            jmap_url: peer.jmap_url,
        }
    }

    /// What a node tells of itself.
    pub open spec fn of_cluster(cluster: ClusterView) -> PeerInfoView {
        PeerInfoView {
            peer_id: cluster.peer_id,
            shard_id: cluster.shard_id,
            epoch: cluster.epoch,
            last_log_term: cluster.last_log_term,
            last_log_index: cluster.last_log_index,
            generation: cluster.generation,
            gossip_addr: cluster.gossip_addr,
            rpc_url: cluster.rpc_url,
            jmap_url: cluster.jmap_url,
        }
    }

    /// The peer that a node takes in when it first hears of it at `now`:
    /// alive, with an empty window and an empty log.
    pub open spec fn joined(self, now: u64) -> PeerView {
        PeerView {
            peer_id: self.peer_id,
            shard_id: self.shard_id,
            epoch: self.epoch,
            generation: self.generation,
            gossip_addr: self.gossip_addr,
            rpc_url: self.rpc_url,
            jmap_url: self.jmap_url,
            state: State::Alive,
            last_heartbeat: now,
            hb_window: Seq::new(HEARTBEAT_WINDOW as nat, |i: int| 0u32),
            hb_window_pos: 0,
            hb_sum: 0,
            hb_sq_sum: 0,
            hb_is_full: false,
            last_log_term: 0,
            last_log_index: 0,
        }
    }
}

/// The views of a list of peer infos, in order.
pub open spec fn infos_view(infos: Seq<PeerInfo>) -> Seq<PeerInfoView> {
    Seq::new(infos.len(), |i: int| infos[i]@)
}

/// A window of empty intervals sums to nothing.
proof fn lemma_total_zeros(window: Seq<u32>)
    requires
        forall|i: int| 0 <= i < window.len() ==> window[i] == 0,
    ensures
        total(window) == 0,
        total_squares(window) == 0,
    decreases window.len(),
{
    if window.len() > 0 {
        lemma_total_zeros(window.drop_last());
    }
}

impl PeerInfo {
    pub fn from_peer(peer: &Peer) -> (info: PeerInfo)
        ensures
            info@ == PeerInfoView::of_peer(peer@),
    {
        PeerInfo {
            peer_id: peer.peer_id,
            shard_id: peer.shard_id,
            epoch: peer.epoch,
            generation: peer.generation,
            gossip_addr: peer.gossip_addr.clone(),
            last_log_index: peer.last_log_index,
            last_log_term: peer.last_log_term,
            rpc_url: peer.rpc_url.clone(),
            jmap_url: peer.jmap_url.clone(),
        }
    }

    pub fn from_cluster(cluster: &Cluster) -> (info: PeerInfo)
        ensures
            info@ == PeerInfoView::of_cluster(cluster@),
    {
        PeerInfo {
            peer_id: cluster.peer_id,
            shard_id: cluster.shard_id,
            epoch: cluster.epoch,
            last_log_index: cluster.last_log_index,
            last_log_term: cluster.last_log_term,
            generation: cluster.generation,
            gossip_addr: cluster.gossip_addr.clone(),
            rpc_url: cluster.rpc_url.clone(),
            jmap_url: cluster.jmap_url.clone(),
        }
    }
}

impl Peer {
    /// The peer that a node takes in when it first hears of it at `now`.
    pub fn from_info(info: PeerInfo, now: u64) -> (peer: Peer)
        ensures
            peer.wf(),
            peer@ == info@.joined(now),
    {
        let hb_window = vec![0u32; HEARTBEAT_WINDOW];
        proof {
            lemma_total_zeros(hb_window@);
            assert(hb_window@ =~= Seq::new(HEARTBEAT_WINDOW as nat, |i: int| 0u32));
        }
        Peer {
            peer_id: info.peer_id,
            shard_id: info.shard_id,
            epoch: info.epoch,
            generation: info.generation,
            gossip_addr: info.gossip_addr,
            rpc_url: info.rpc_url,
            jmap_url: info.jmap_url,
            state: State::Alive,
            last_heartbeat: now,
            hb_window,
            hb_window_pos: 0,
            hb_sum: 0,
            hb_sq_sum: 0,
            hb_is_full: false,
            last_log_index: 0,
            last_log_term: 0,
        }
    }
}

/// What a node tells of the peers that are no seeds, in order.
pub open spec fn peer_infos(peers: Seq<PeerView>) -> Seq<PeerInfoView>
    decreases peers.len(),
{
    if peers.len() == 0 {
        Seq::empty()
    } else {
        let before = peer_infos(peers.drop_last());
        if peers.last().state is Seed {
            before
        } else {
            before.push(PeerInfoView::of_peer(peers.last()))
        }
    }
}

/// What a node tells of itself, then of each peer that is no seed.
pub open spec fn cluster_infos(cluster: ClusterView) -> Seq<PeerInfoView> {
    seq![PeerInfoView::of_cluster(cluster)] + peer_infos(cluster.peers)
}

/// What this node tells of itself, then of each peer that is no seed.
pub fn build_peer_info(cluster: &Cluster) -> (result: Vec<PeerInfo>)
    ensures
        infos_view(result@) == cluster_infos(cluster@),
{
    let mut result: Vec<PeerInfo> = Vec::new();
    result.push(PeerInfo::from_cluster(cluster));
    let ghost peers = cluster@.peers;
    let mut i: usize = 0;
    assert(infos_view(result@) =~= seq![PeerInfoView::of_cluster(cluster@)] + peer_infos(
        peers.take(0),
    ));
    while i < cluster.peers.len()
        invariant
            i <= peers.len(),
            peers == cluster@.peers,
            infos_view(result@) == seq![PeerInfoView::of_cluster(cluster@)] + peer_infos(
                peers.take(i as int),
            ),
        decreases peers.len() - i,
    {
        let peer = &cluster.peers[i];
        let ghost before = infos_view(result@);
        proof {
            assert(peers.take(i + 1).drop_last() =~= peers.take(i as int));
            assert(peers.take(i + 1).last() == peer@);
        }
        match peer.state {
            State::Seed => {},
            _ => {
                result.push(PeerInfo::from_peer(peer));
                assert(infos_view(result@) =~= before.push(PeerInfoView::of_peer(peer@)));
                assert(before.push(PeerInfoView::of_peer(peer@)) =~= seq![
                    PeerInfoView::of_cluster(cluster@),
                ] + peer_infos(peers.take(i + 1)));
            },
        }
        i += 1;
    }
    assert(peers.take(i as int) =~= peers);
    result
}

/// The place of the first peer with an id.
pub open spec fn peer_slot(peers: Seq<PeerView>, peer_id: PeerId) -> Option<int>
    decreases peers.len(),
{
    if peers.len() == 0 {
        None
    } else {
        match peer_slot(peers.drop_last(), peer_id) {
            Some(slot) => Some(slot),
            None => if peers.last().peer_id == peer_id {
                Some(peers.len() - 1)
            } else {
                None
            },
        }
    }
}

pub proof fn lemma_peer_slot(peers: Seq<PeerView>, peer_id: PeerId)
    ensures
        match peer_slot(peers, peer_id) {
            Some(slot) => 0 <= slot < peers.len() && peers[slot].peer_id == peer_id && forall|
                k: int,
            |
                0 <= k < slot ==> (#[trigger] peers[k]).peer_id != peer_id,
            None => forall|k: int| 0 <= k < peers.len() ==> (#[trigger] peers[k]).peer_id != peer_id,
        },
    decreases peers.len(),
{
    if peers.len() > 0 {
        let front = peers.drop_last();
        lemma_peer_slot(front, peer_id);
        match peer_slot(front, peer_id) {
            Some(slot) => {
                assert(front[slot] == peers[slot]);
                assert forall|k: int| 0 <= k < slot implies (#[trigger] peers[k]).peer_id
                    != peer_id by {
                    assert(front[k] == peers[k]);
                }
            },
            None => {
                assert forall|k: int| 0 <= k < peers.len() - 1 implies (#[trigger] peers[k]).peer_id
                    != peer_id by {
                    assert(front[k] == peers[k]);
                }
            },
        }
    }
}

/// Finds the first peer with an id.
pub fn find_peer(peers: &Vec<Peer>, peer_id: PeerId) -> (found: Option<usize>)
    ensures
        match found {
            Some(slot) => peer_slot(peers_view(peers@), peer_id) == Some(slot as int) && slot
                < peers@.len(),
            None => peer_slot(peers_view(peers@), peer_id) is None,
        },
{
    let ghost views = peers_view(peers@);
    proof {
        lemma_peer_slot(views, peer_id);
    }
    let mut i: usize = 0;
    while i < peers.len()
        invariant
            i <= peers@.len(),
            views == peers_view(peers@),
            forall|k: int| 0 <= k < i ==> (#[trigger] views[k]).peer_id != peer_id,
        decreases peers@.len() - i,
    {
        if peers[i].peer_id == peer_id {
            proof {
                lemma_peer_slot(views, peer_id);
                assert(views[i as int].peer_id == peer_id);
            }
            return Some(i);
        }
        assert(views[i as int].peer_id == peers@[i as int].peer_id);
        i += 1;
    }
    proof {
        lemma_peer_slot(views, peer_id);
    }
    None
}

/// What a node holds while it takes in the statuses of a ping: its peers,
/// and whether it has found that the peers are to be synchronized in full.
pub ghost struct Membership {
    pub peers: Seq<PeerView>,
    pub full_sync: bool,
}

/// The membership after one status of a ping was taken in. The status of
/// the node itself is passed over. A peer that is known and has moved on
/// to a later epoch gets that epoch and a heartbeat, and where its
/// generation has changed the peers are to be synchronized in full, as they
/// are where the peer is not known.
pub open spec fn status_taken(
    before: Membership,
    self_id: PeerId,
    status: PeerStatus,
    now: u64,
) -> Membership {
    if status.peer_id == self_id {
        before
    } else {
        match peer_slot(before.peers, status.peer_id) {
            Some(slot) => {
                let peer = before.peers[slot];
                if status.epoch > peer.epoch {
                    Membership {
                        peers: before.peers.update(
                            slot,
                            (PeerView { epoch: status.epoch, ..peer }).heartbeat_taken(now),
                        ),
                        full_sync: before.full_sync || peer.generation != status.generation,
                    }
                } else {
                    before
                }
            },
            None => Membership { full_sync: true, ..before },
        }
    }
}

/// The membership after the statuses of a ping were taken in, in order.
pub open spec fn statuses_taken(
    start: Membership,
    self_id: PeerId,
    statuses: Seq<PeerStatus>,
    now: u64,
) -> Membership
    decreases statuses.len(),
{
    if statuses.len() == 0 {
        start
    } else {
        status_taken(
            statuses_taken(start, self_id, statuses.drop_last(), now),
            self_id,
            statuses.last(),
            now,
        )
    }
}

/// The place of the peer that sent a ping: that of its first status, which
/// must not be the status of the node itself.
pub open spec fn ping_source(peers: Seq<PeerView>, self_id: PeerId, statuses: Seq<PeerStatus>) -> Option<
    int,
> {
    if statuses.len() > 0 && statuses[0].peer_id != self_id {
        peer_slot(peers, statuses[0].peer_id)
    } else {
        None
    }
}

/// What the gossip of a node sends or hands on.
#[derive(Debug, Clone, PartialEq, Eq)]
pub enum Message {
    SyncRequest { addr: String, url: String },
    SyncResponse { url: String, peers: Vec<PeerInfo> },
    Ping { addr: String, peers: Vec<PeerStatus> },
    Pong { addr: String, peers: Vec<PeerStatus> },
    Join { addr: String, port: u16 },
    /// Nothing is to be sent.
    Idle,
}

pub ghost enum MessageView {
    SyncRequest { addr: Seq<char>, url: Seq<char> },
    SyncResponse { url: Seq<char>, peers: Seq<PeerInfoView> },
    Ping { addr: Seq<char>, peers: Seq<PeerStatus> },
    Pong { addr: Seq<char>, peers: Seq<PeerStatus> },
    Join { addr: Seq<char>, port: u16 },
    Idle,
}

impl View for Message {
    type V = MessageView;

    open spec fn view(&self) -> MessageView {
        match self {
            Message::SyncRequest { addr, url } => MessageView::SyncRequest {
                addr: addr@,
                url: url@,
            },
            Message::SyncResponse { url, peers } => MessageView::SyncResponse {
                url: url@,
                peers: infos_view(peers@),
            },
            Message::Ping { addr, peers } => MessageView::Ping { addr: addr@, peers: peers@ },
            Message::Pong { addr, peers } => MessageView::Pong { addr: addr@, peers: peers@ },
            Message::Join { addr, port } => MessageView::Join { addr: addr@, port: *port },
            Message::Idle => MessageView::Idle,
        }
    }
}

/// What is sent over the wire between the gossips of two nodes.
#[derive(Debug, Clone, PartialEq, Eq)]
pub enum Request {
    Join(u16),
    Synchronize(String),
    Ping(Vec<PeerStatus>),
    Pong(Vec<PeerStatus>),
}

/// The address that a message goes to and what goes over the wire for it;
/// `None` for a message that is not sent to a peer's gossip.
pub fn into_request(message: Message) -> (request: Option<(String, Request)>)
    ensures
        request == match message {
            Message::SyncRequest { addr, url } => Some((addr, Request::Synchronize(url))),
            Message::Pong { addr, peers } => Some((addr, Request::Pong(peers))),
            Message::Ping { addr, peers } => Some((addr, Request::Ping(peers))),
            Message::Join { addr, port } => Some((addr, Request::Join(port))),
            _ => None,
        },
{
    match message {
        Message::SyncRequest { addr, url } => Some((addr, Request::Synchronize(url))),
        Message::Pong { addr, peers } => Some((addr, Request::Pong(peers))),
        Message::Ping { addr, peers } => Some((addr, Request::Ping(peers))),
        Message::Join { addr, port } => Some((addr, Request::Join(port))),
        _ => None,
    }
}

/// The answer to a ping or a pong: to a sender that is known, the peers in
/// full where they are to be synchronized, else a pong to a ping, else
/// nothing; and nothing to a sender that is not known.
pub open spec fn ping_reply(
    cluster: ClusterView,
    source: Option<int>,
    full_sync: bool,
    is_ping: bool,
) -> MessageView {
    match source {
        Some(source) => if full_sync {
            MessageView::SyncResponse {
                url: cluster.peers[source].rpc_url,
                peers: cluster_infos(cluster),
            }
        } else if is_ping {
            MessageView::Pong {
                addr: cluster.peers[source].gossip_addr,
                peers: cluster_statuses(cluster),
            }
        } else {
            MessageView::Idle
        },
        None => MessageView::Idle,
    }
}

/// Taking a status in keeps the number of peers, their ids and the order
/// of their windows.
proof fn lemma_status_taken(before: Membership, self_id: PeerId, status: PeerStatus, now: u64)
    requires
        peers_wf(before.peers),
    ensures
        status_taken(before, self_id, status, now).peers.len() == before.peers.len(),
        forall|k: int|
            0 <= k < before.peers.len() ==> (#[trigger] status_taken(
                before,
                self_id,
                status,
                now,
            ).peers[k]).peer_id == before.peers[k].peer_id,
        forall|id: PeerId|
            peer_slot(status_taken(before, self_id, status, now).peers, id) == peer_slot(
                before.peers,
                id,
            ),
{
    let after = status_taken(before, self_id, status, now);
    lemma_peer_slot(before.peers, status.peer_id);
    assert forall|id: PeerId| peer_slot(after.peers, id) == peer_slot(before.peers, id) by {
        lemma_same_ids(before.peers, after.peers, id);
    }
}

/// Peers with the same ids in the same places are found in the same place.
proof fn lemma_same_ids(first: Seq<PeerView>, second: Seq<PeerView>, id: PeerId)
    requires
        first.len() == second.len(),
        forall|k: int| 0 <= k < first.len() ==> first[k].peer_id == second[k].peer_id,
    ensures
        peer_slot(first, id) == peer_slot(second, id),
    decreases first.len(),
{
    if first.len() > 0 {
        lemma_same_ids(first.drop_last(), second.drop_last(), id);
    }
}

proof fn lemma_statuses_taken(start: Membership, self_id: PeerId, statuses: Seq<PeerStatus>, now: u64)
    requires
        peers_wf(start.peers),
    ensures
        statuses_taken(start, self_id, statuses, now).peers.len() == start.peers.len(),
        forall|id: PeerId|
            peer_slot(statuses_taken(start, self_id, statuses, now).peers, id) == peer_slot(
                start.peers,
                id,
            ),
    decreases statuses.len(),
{
    if statuses.len() > 0 {
        let before = statuses_taken(start, self_id, statuses.drop_last(), now);
        lemma_statuses_taken(start, self_id, statuses.drop_last(), now);
        lemma_statuses_wf(start, self_id, statuses.drop_last(), now);
        lemma_status_taken(before, self_id, statuses.last(), now);
    }
}

/// Taking statuses in leaves the windows of the peers in order.
proof fn lemma_statuses_wf(start: Membership, self_id: PeerId, statuses: Seq<PeerStatus>, now: u64)
    requires
        peers_wf(start.peers),
    ensures
        peers_wf(statuses_taken(start, self_id, statuses, now).peers),
    decreases statuses.len(),
{
    if statuses.len() > 0 {
        let before = statuses_taken(start, self_id, statuses.drop_last(), now);
        lemma_statuses_wf(start, self_id, statuses.drop_last(), now);
        let status = statuses.last();
        lemma_peer_slot(before.peers, status.peer_id);
        if status.peer_id != self_id {
            match peer_slot(before.peers, status.peer_id) {
                Some(slot) => {
                    let peer = before.peers[slot];
                    if status.epoch > peer.epoch {
                        lemma_heartbeat_wf(PeerView { epoch: status.epoch, ..peer }, now);
                    }
                },
                None => {},
            }
        }
    }
}

/// A heartbeat leaves the window of a peer in order.
pub proof fn lemma_heartbeat_wf(peer: PeerView, now: u64)
    requires
        peer.wf(),
    ensures
        peer.heartbeat_taken(now).wf(),
{
    let pos = next_pos(peer.hb_window_pos);
    let sample = spec_interval(peer.last_heartbeat, now);
    let window = peer.hb_window.update(pos as int, sample);
    lemma_total_bounds(window);
    lemma_total_bounds(peer.hb_window);
}

/// Takes in the statuses that a peer sent with a ping or a pong, at
/// `now`, and says what to send back. A new epoch of the node begins with
/// each ping or pong that holds a status at all.
pub fn handle_ping(cluster: &mut Cluster, peers: Vec<PeerStatus>, is_ping: bool, now: u64) -> (message:
    Message)
    requires
        old(cluster).wf(),
        old(cluster).epoch < EpochId::MAX,
    ensures
        final(cluster).wf(),
        peers@.len() == 0 ==> message@ == MessageView::Idle && final(cluster)@ == old(cluster)@,
        peers@.len() > 0 ==> ({
            let taken = statuses_taken(
                Membership {
                    peers: old(cluster)@.peers,
                    full_sync: old(cluster)@.peers.len() + 1 != peers@.len(),
                },
                old(cluster).peer_id,
                peers@,
                now,
            );
            &&& final(cluster)@ == (ClusterView {
                epoch: (old(cluster).epoch + 1) as u64,
                peers: taken.peers,
                ..old(cluster)@
            })
            &&& message@ == ping_reply(
                final(cluster)@,
                ping_source(old(cluster)@.peers, old(cluster).peer_id, peers@),
                taken.full_sync,
                is_ping,
            )
        }),
{
    if peers.len() == 0 {
        return Message::Idle;
    }
    cluster.epoch = cluster.epoch + 1;
    let self_id = cluster.peer_id;
    let ghost start = Membership {
        peers: old(cluster)@.peers,
        full_sync: old(cluster)@.peers.len() + 1 != peers@.len(),
    };
    let mut do_full_sync = cluster.peers.len() != peers.len() - 1;
    let mut source_peer_idx: Option<usize> = None;
    let mut pos: usize = 0;
    while pos < peers.len()
        invariant
            pos <= peers@.len(),
            peers@.len() > 0,
            cluster.wf(),
            self_id == old(cluster).peer_id,
            start == (Membership {
                peers: old(cluster)@.peers,
                full_sync: old(cluster)@.peers.len() + 1 != peers@.len(),
            }),
            peers_wf(start.peers),
            cluster@ == (ClusterView {
                epoch: (old(cluster).epoch + 1) as u64,
                peers: cluster@.peers,
                ..old(cluster)@
            }),
            statuses_taken(start, self_id, peers@.take(pos as int), now) == (Membership {
                peers: cluster@.peers,
                full_sync: do_full_sync,
            }),
            pos == 0 ==> source_peer_idx is None,
            pos > 0 ==> match source_peer_idx {
                Some(slot) => ping_source(start.peers, self_id, peers@) == Some(slot as int),
                None => ping_source(start.peers, self_id, peers@) is None,
            },
            source_peer_idx is Some ==> source_peer_idx.unwrap() < cluster.peers@.len(),
        decreases peers@.len() - pos,
    {
        let status = peers[pos];
        proof {
            assert(peers@.take(pos + 1).drop_last() =~= peers@.take(pos as int));
            assert(peers@.take(pos + 1).last() == status);
            lemma_statuses_taken(start, self_id, peers@.take(pos as int), now);
            lemma_peer_slot(cluster@.peers, status.peer_id);
        }
        if self_id != status.peer_id {
            match find_peer(&cluster.peers, status.peer_id) {
                Some(idx) => {
                    let ghost before = cluster@.peers;
                    if status.epoch > cluster.peers[idx].epoch {
                        let generation = cluster.peers[idx].generation;
                        let mut local_peer = cluster.peers.remove(idx);
                        local_peer.epoch = status.epoch;
                        update_heartbeat(&mut local_peer, now);
                        cluster.peers.insert(idx, local_peer);
                        if generation != status.generation {
                            do_full_sync = true;
                        }
                        proof {
                            let peer = before[idx as int];
                            assert(cluster@.peers =~= before.update(
                                idx as int,
                                (PeerView { epoch: status.epoch, ..peer }).heartbeat_taken(now),
                            ));
                        }
                    }
                    if pos == 0 {
                        source_peer_idx = Some(idx);
                    }
                },
                None => {
                    do_full_sync = true;
                },
            }
        }
        pos += 1;
    }
    proof {
        assert(peers@.take(pos as int) =~= peers@);
        lemma_statuses_taken(start, self_id, peers@, now);
    }
    match source_peer_idx {
        Some(source) => {
            if do_full_sync {
                Message::SyncResponse {
                    url: cluster.peers[source].rpc_url.clone(),
                    peers: build_peer_info(cluster),
                }
            } else if is_ping {
                Message::Pong {
                    addr: cluster.peers[source].gossip_addr.clone(),
                    peers: build_peer_status(cluster),
                }
            } else {
                Message::Idle
            }
        },
        None => Message::Idle,
    }
}

/// The place of the first peer with an id that is no seed.
pub open spec fn known_slot(peers: Seq<PeerView>, peer_id: PeerId) -> Option<int>
    decreases peers.len(),
{
    if peers.len() == 0 {
        None
    } else {
        match known_slot(peers.drop_last(), peer_id) {
            Some(slot) => Some(slot),
            None => if peers.last().peer_id == peer_id && !(peers.last().state is Seed) {
                Some(peers.len() - 1)
            } else {
                None
            },
        }
    }
}

/// Whether one of the first `len` peers is a seed.
pub open spec fn seed_before(peers: Seq<PeerView>, len: int) -> bool {
    exists|k: int| 0 <= k < len && k < peers.len() && (#[trigger] peers[k]).state is Seed
}

pub proof fn lemma_known_slot(peers: Seq<PeerView>, peer_id: PeerId)
    ensures
        match known_slot(peers, peer_id) {
            Some(slot) => 0 <= slot < peers.len() && peers[slot].peer_id == peer_id && !(
            peers[slot].state is Seed) && forall|k: int|
                0 <= k < slot ==> (#[trigger] peers[k]).peer_id != peer_id || peers[k].state is Seed,
            None => forall|k: int|
                0 <= k < peers.len() ==> (#[trigger] peers[k]).peer_id != peer_id
                    || peers[k].state is Seed,
        },
    decreases peers.len(),
{
    if peers.len() > 0 {
        let front = peers.drop_last();
        lemma_known_slot(front, peer_id);
        match known_slot(front, peer_id) {
            Some(slot) => {
                assert(front[slot] == peers[slot]);
                assert forall|k: int| 0 <= k < slot implies (#[trigger] peers[k]).peer_id != peer_id
                    || peers[k].state is Seed by {
                    assert(front[k] == peers[k]);
                }
            },
            None => {
                assert forall|k: int| 0 <= k < peers.len() - 1 implies (#[trigger] peers[k]).peer_id
                    != peer_id || peers[k].state is Seed by {
                    assert(front[k] == peers[k]);
                }
            },
        }
    }
}

/// A peer after what another node tells of it was taken in at `now`. A
/// peer that has moved on to a later epoch gets that epoch and a
/// heartbeat. Its addresses are taken over where its generation has
/// changed and either it has moved on or it tells of itself, as the first
/// of the list does.
pub open spec fn peer_synced(peer: PeerView, first: bool, info: PeerInfoView, now: u64) -> PeerView {
    let newer = info.epoch > peer.epoch;
    let changed = peer.generation != info.generation;
    let beaten = if newer {
        (PeerView { epoch: info.epoch, ..peer }).heartbeat_taken(now)
    } else {
        peer
    };
    if changed && (first || newer) {
        PeerView {
            generation: info.generation,
            gossip_addr: info.gossip_addr,
            shard_id: info.shard_id,
            rpc_url: info.rpc_url + "/rpc"@,
            jmap_url: info.jmap_url + "/jmap"@,
            ..beaten
        }
    } else {
        beaten
    }
}

/// What a node holds while it takes in what a peer tells of all peers:
/// itself and its peers, and whether it has come across a seed.
pub ghost struct Synced {
    pub cluster: ClusterView,
    pub remove_seeds: bool,
}

/// The node after what a peer tells of one peer was taken in. Of the node
/// itself only a later epoch is taken over, which the node then moves
/// past. A peer that is known is brought up to date; one that is not
/// becomes a new peer. Seeds that come before the peer in the list, or
/// anywhere where the peer is not known, are marked for removal.
pub open spec fn info_taken(before: Synced, first: bool, info: PeerInfoView, now: u64) -> Synced {
    let cluster = before.cluster;
    if info.peer_id != cluster.peer_id {
        match known_slot(cluster.peers, info.peer_id) {
            Some(slot) => Synced {
                cluster: ClusterView {
                    peers: cluster.peers.update(
                        slot,
                        peer_synced(cluster.peers[slot], first, info, now),
                    ),
                    ..cluster
                },
                remove_seeds: before.remove_seeds || seed_before(cluster.peers, slot),
            },
            None => Synced {
                cluster: ClusterView { peers: cluster.peers.push(info.joined(now)), ..cluster },
                remove_seeds: before.remove_seeds || seed_before(
                    cluster.peers,
                    cluster.peers.len() as int,
                ),
            },
        }
    } else if info.epoch > cluster.epoch {
        Synced { cluster: ClusterView { epoch: (info.epoch + 1) as u64, ..cluster }, ..before }
    } else {
        before
    }
}

/// The node after what a peer tells of all peers was taken in, in order.
pub open spec fn infos_taken(start: Synced, infos: Seq<PeerInfoView>, now: u64) -> Synced
    decreases infos.len(),
{
    if infos.len() == 0 {
        start
    } else {
        info_taken(infos_taken(start, infos.drop_last(), now), infos.len() == 1, infos.last(), now)
    }
}

/// The peers that are no seeds, in order.
pub open spec fn without_seeds(peers: Seq<PeerView>) -> Seq<PeerView>
    decreases peers.len(),
{
    if peers.len() == 0 {
        peers
    } else {
        let before = without_seeds(peers.drop_last());
        if peers.last().state is Seed {
            before
        } else {
            before.push(peers.last())
        }
    }
}

/// The node after a full synchronization: what the peer told is taken in,
/// and the seeds leave the list once one of them was come across.
pub open spec fn peers_synced(cluster: ClusterView, infos: Seq<PeerInfoView>, now: u64) -> ClusterView {
    let taken = infos_taken(Synced { cluster, remove_seeds: false }, infos, now);
    if taken.remove_seeds {
        ClusterView { peers: without_seeds(taken.cluster.peers), ..taken.cluster }
    } else {
        taken.cluster
    }
}

/// Drops the seeds from a list of peers.
fn remove_seeds(peers: &mut Vec<Peer>)
    requires
        peers_wf(peers_view(old(peers)@)),
    ensures
        peers_view(final(peers)@) == without_seeds(peers_view(old(peers)@)),
        peers_wf(peers_view(final(peers)@)),
{
    let mut all: Vec<Peer> = Vec::new();
    core::mem::swap(peers, &mut all);
    let ghost views = peers_view(all@);
    assert(peers_view(peers@) =~= without_seeds(views.take(0)));
    for peer in it: all
        invariant
            views == peers_view(it.seq()),
            peers_wf(views),
            peers_wf(peers_view(peers@)),
            peers_view(peers@) == without_seeds(views.take(it.index() as int)),
    {
        let ghost index = it.index() as int;
        let ghost before = peers_view(peers@);
        proof {
            assert(views.take(index + 1).drop_last() =~= views.take(index));
            assert(views.take(index + 1).last() == peer@);
            assert(views[index].wf());
        }
        match peer.state {
            State::Seed => {},
            _ => {
                peers.push(peer);
                proof {
                    let after = peers_view(peers@);
                    assert(after =~= before.push(views[index]));
                    assert forall|k: int| 0 <= k < after.len() implies (#[trigger] after[k]).wf() by {
                        if k < before.len() {
                            assert(after[k] == before[k]);
                        }
                    }
                }
            },
        }
    }
    assert(views.take(views.len() as int) =~= views);
}

/// Finds the first peer with an id that is no seed, and tells whether a
/// seed comes before it, or anywhere where there is no such peer.
fn find_known_peer(peers: &Vec<Peer>, peer_id: PeerId) -> (found: (Option<usize>, bool))
    ensures
        match found.0 {
            Some(slot) => known_slot(peers_view(peers@), peer_id) == Some(slot as int) && slot
                < peers@.len() && found.1 == seed_before(peers_view(peers@), slot as int),
            None => known_slot(peers_view(peers@), peer_id) is None && found.1 == seed_before(
                peers_view(peers@),
                peers@.len() as int,
            ),
        },
{
    let ghost views = peers_view(peers@);
    let mut seeds = false;
    let mut i: usize = 0;
    while i < peers.len()
        invariant
            i <= peers@.len(),
            views == peers_view(peers@),
            seeds == seed_before(views, i as int),
            forall|k: int|
                0 <= k < i ==> (#[trigger] views[k]).peer_id != peer_id || views[k].state is Seed,
        decreases peers@.len() - i,
    {
        assert(views[i as int] == peers@[i as int]@);
        match peers[i].state {
            State::Seed => {
                seeds = true;
            },
            _ => {
                if peers[i].peer_id == peer_id {
                    proof {
                        lemma_known_slot(views, peer_id);
                    }
                    return (Some(i), seeds);
                }
            },
        }
        proof {
            if seed_before(views, i + 1) && !seeds {
                let k = choose|k: int|
                    0 <= k < i + 1 && k < views.len() && (#[trigger] views[k]).state is Seed;
                assert(k < i);
            }
        }
        i += 1;
    }
    proof {
        lemma_known_slot(views, peer_id);
    }
    (None, seeds)
}

/// Brings a peer up to date with what another node tells of it.
fn sync_peer(peer: &mut Peer, first: bool, info: PeerInfo, now: u64)
    requires
        old(peer).wf(),
    ensures
        final(peer).wf(),
        final(peer)@ == peer_synced(old(peer)@, first, info@, now),
{
    let changed = peer.generation != info.generation;
    let newer = info.epoch > peer.epoch;
    if newer {
        peer.epoch = info.epoch;
        update_heartbeat(peer, now);
    }
    if changed && (first || newer) {
        peer.generation = info.generation;
        peer.gossip_addr = info.gossip_addr;
        peer.shard_id = info.shard_id;
        peer.rpc_url = info.rpc_url.concat("/rpc");
        peer.jmap_url = info.jmap_url.concat("/jmap");
    }
}

/// Takes in what a peer tells of all peers when the peers are synchronized
/// in full, at `now`.
pub fn sync_peer_info(cluster: &mut Cluster, peers: Vec<PeerInfo>, now: u64)
    requires
        old(cluster).wf(),
        forall|i: int|
            0 <= i < peers@.len() && (#[trigger] peers@[i]).peer_id == old(cluster).peer_id
                ==> peers@[i].epoch < EpochId::MAX,
    ensures
        final(cluster).wf(),
        final(cluster)@ == peers_synced(old(cluster)@, infos_view(peers@), now),
{
    let mut seeds = false;
    let ghost infos = infos_view(peers@);
    let ghost start = Synced { cluster: cluster@, remove_seeds: false };
    let ghost all = peers@;
    let count = peers.len();
    let mut pos: usize = 0;
    for info in it: peers
        invariant
            all == it.seq(),
            all == peers@,
            all.len() == count,
            pos == it.index(),
            infos == infos_view(all),
            start == (Synced { cluster: old(cluster)@, remove_seeds: false }),
            cluster.wf(),
            cluster.peer_id == old(cluster).peer_id,
            forall|i: int|
                0 <= i < all.len() && (#[trigger] all[i]).peer_id == old(cluster).peer_id
                    ==> all[i].epoch < EpochId::MAX,
            infos_taken(start, infos.take(it.index() as int), now) == (Synced {
                cluster: cluster@,
                remove_seeds: seeds,
            }),
    {
        let ghost index = it.index() as int;
        let ghost before = cluster@;
        proof {
            assert(infos.take(index + 1).drop_last() =~= infos.take(index));
            assert(infos.take(index + 1).last() == info@);
            assert(all[index] == info);
            lemma_known_slot(before.peers, info.peer_id);
        }
        let first = pos == 0;
        assert(index < all.len());
        pos = pos + 1;
        if info.peer_id != cluster.peer_id {
            let (found, seeds_met) = find_known_peer(&cluster.peers, info.peer_id);
            if seeds_met {
                seeds = true;
            }
            match found {
                Some(slot) => {
                    let mut local_peer = cluster.peers.remove(slot);
                    assert(local_peer@ == before.peers[slot as int]);
                    sync_peer(&mut local_peer, first, info, now);
                    cluster.peers.insert(slot, local_peer);
                    proof {
                        let after = cluster@.peers;
                        assert(after =~= before.peers.update(
                            slot as int,
                            peer_synced(before.peers[slot as int], first, info@, now),
                        ));
                        assert forall|k: int| 0 <= k < after.len() implies (#[trigger] after[k]).wf() by {
                            if k != slot {
                                assert(after[k] == before.peers[k]);
                            }
                        }
                    }
                },
                None => {
                    let peer = Peer::from_info(info, now);
                    cluster.peers.push(peer);
                    proof {
                        let after = cluster@.peers;
                        assert(after =~= before.peers.push(info@.joined(now)));
                        assert forall|k: int| 0 <= k < after.len() implies (#[trigger] after[k]).wf() by {
                            if k < before.peers.len() {
                                assert(after[k] == before.peers[k]);
                            }
                        }
                    }
                },
            }
        } else if info.epoch > cluster.epoch {
            cluster.epoch = info.epoch + 1;
            assert(cluster@.peers =~= before.peers);
        }
    }
    assert(infos.take(infos.len() as int) =~= infos);
    if seeds {
        remove_seeds(&mut cluster.peers);
    }
}

} // verus!

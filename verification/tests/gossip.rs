use stalwart_jmap::cluster::election::{Decision, Response};
use stalwart_jmap::cluster::gossip::{
    build_peer_info, build_peer_status, check_heartbeat, find_peer, handle_ping, heartbeat_sample,
    interval, into_request, sync_peer_info, update_heartbeat, Cluster, HeartbeatSample, Message,
    Peer, PeerInfo, PeerStatus, Request, State, Suspicion, HEARTBEAT_WINDOW,
};
use stalwart_jmap::cluster::log::AppendEntriesRequest;
use stalwart_jmap::raft::RaftId;

fn peer(peer_id: u64) -> Peer {
    Peer {
        peer_id,
        shard_id: 0,
        epoch: 3,
        generation: 4,
        gossip_addr: "127.0.0.1:7911".to_string(),
        rpc_url: "https://127.0.0.1/rpc".to_string(),
        jmap_url: "https://127.0.0.1/jmap".to_string(),
        state: State::Seed,
        last_heartbeat: 0,
        hb_window: vec![0; HEARTBEAT_WINDOW],
        hb_window_pos: 0,
        hb_sum: 0,
        hb_sq_sum: 0,
        hb_is_full: false,
        last_log_term: 5,
        last_log_index: 6,
    }
}

const SUSPECT_THRESHOLD: f64 = 5.0;
const CONVICT_THRESHOLD: f64 = 9.0;
const MIN_STD_DEV: f64 = 300.0;

fn phi(sample: &HeartbeatSample) -> f64 {
    let size = sample.size as f64;
    let elapsed = sample.elapsed as f64;
    let mean = sample.sum as f64 / size;
    let variance = (sample.square_sum as f64 / size) - (mean * mean);
    let std_dev = variance.sqrt();
    let y = (elapsed - mean) / std_dev.max(MIN_STD_DEV);
    let e = (-y * (1.5976 + 0.070566 * y * y)).exp();
    if elapsed > mean {
        -(e / (1.0 + e)).log10()
    } else {
        -(1.0 - 1.0 / (1.0 + e)).log10()
    }
}

fn suspicion(sample: &HeartbeatSample) -> Suspicion {
    let phi = phi(sample);
    if phi > CONVICT_THRESHOLD {
        Suspicion::Convicted
    } else if phi > SUSPECT_THRESHOLD {
        Suspicion::Suspected
    } else {
        Suspicion::Trusted
    }
}

#[test]
fn the_first_heartbeat_takes_the_second_place_of_the_ring() {
    let mut peer = peer(1);
    peer.last_heartbeat = 1000;
    update_heartbeat(&mut peer, 1250);
    assert_eq!(peer.state, State::Alive);
    assert_eq!(peer.hb_window_pos, 1);
    assert_eq!(peer.hb_window[1], 250);
    assert_eq!(peer.hb_sum, 250);
    assert_eq!(peer.hb_sq_sum, 62500);
    assert_eq!(peer.last_heartbeat, 1250);
    assert!(!peer.hb_is_full);
    assert_eq!(peer.sample_size(), 1);
    update_heartbeat(&mut peer, 1350);
    assert_eq!(peer.hb_sum, 350);
    assert_eq!(peer.hb_sq_sum, 62500 + 10000);
    assert_eq!(peer.sample_size(), 2);
}

#[test]
fn the_ring_replaces_the_oldest_interval_once_it_has_gone_round() {
    let mut peer = peer(1);
    let mut now = 0;
    for _ in 0..HEARTBEAT_WINDOW - 1 {
        now += 100;
        update_heartbeat(&mut peer, now);
    }
    assert!(!peer.hb_is_full);
    assert_eq!(peer.hb_window_pos, HEARTBEAT_WINDOW - 1);
    assert_eq!(peer.hb_sum, 100 * (HEARTBEAT_WINDOW as u64 - 1));
    now += 100;
    update_heartbeat(&mut peer, now);
    assert!(peer.hb_is_full);
    assert_eq!(peer.hb_window_pos, 0);
    assert_eq!(peer.hb_sum, 100 * HEARTBEAT_WINDOW as u64);
    assert_eq!(peer.hb_sq_sum, 10000 * HEARTBEAT_WINDOW as u128);
    assert_eq!(peer.sample_size(), HEARTBEAT_WINDOW);
    now += 500;
    update_heartbeat(&mut peer, now);
    assert_eq!(peer.hb_window_pos, 1);
    assert_eq!(peer.hb_sum, 100 * (HEARTBEAT_WINDOW as u64 - 1) + 500);
    assert_eq!(peer.hb_sq_sum, 10000 * (HEARTBEAT_WINDOW as u128 - 1) + 250000);
    assert_eq!(peer.hb_sum, peer.hb_window.iter().map(|v| *v as u64).sum::<u64>());
}

#[test]
fn a_ring_of_empty_intervals_does_not_count_as_gone_round() {
    let mut peer = peer(1);
    for _ in 0..HEARTBEAT_WINDOW {
        update_heartbeat(&mut peer, 0);
    }
    assert!(!peer.hb_is_full);
    assert_eq!(peer.hb_window_pos, 0);
    assert_eq!(peer.hb_sum, 0);
    assert_eq!(heartbeat_sample(&peer, 10), None);
    assert!(!check_heartbeat(&mut peer, Suspicion::Trusted));
    assert_eq!(peer.state, State::Alive);
}

#[test]
fn a_ring_back_at_its_first_place_holds_an_interval_in_every_place() {
    let mut peer = peer(1);
    for _ in 0..HEARTBEAT_WINDOW - 1 {
        update_heartbeat(&mut peer, 0);
    }
    assert_eq!(peer.sample_size(), HEARTBEAT_WINDOW - 1);
    update_heartbeat(&mut peer, 500);
    assert!(!peer.hb_is_full);
    assert_eq!(peer.hb_window_pos, 0);
    assert_eq!(peer.hb_sum, 500);
    assert_eq!(peer.sample_size(), HEARTBEAT_WINDOW);
    assert_eq!(
        heartbeat_sample(&peer, 600),
        Some(HeartbeatSample { elapsed: 100, sum: 500, square_sum: 250000, size: HEARTBEAT_WINDOW })
    );
}

#[test]
fn intervals_are_cut_to_32_bits_and_never_negative() {
    assert_eq!(interval(100, 350), 250);
    assert_eq!(interval(350, 100), 0);
    assert_eq!(interval(0, u32::MAX as u64), u32::MAX);
    assert_eq!(interval(0, u32::MAX as u64 + 1), 0);
    assert_eq!(interval(7, u64::MAX), ((u64::MAX - 7) % (1 << 32)) as u32);
    let mut peer = peer(1);
    update_heartbeat(&mut peer, u32::MAX as u64);
    assert_eq!(peer.hb_sum, u32::MAX as u64);
    assert_eq!(peer.hb_sq_sum, (u32::MAX as u128) * (u32::MAX as u128));
}

#[test]
fn a_check_sets_the_state_by_the_suspicion() {
    let mut peer = peer(1);
    update_heartbeat(&mut peer, 1000);
    assert!(check_heartbeat(&mut peer, Suspicion::Trusted));
    assert_eq!(peer.state, State::Alive);
    assert!(check_heartbeat(&mut peer, Suspicion::Suspected));
    assert_eq!(peer.state, State::Suspected);
    assert!(check_heartbeat(&mut peer, Suspicion::Trusted));
    assert_eq!(peer.state, State::Suspected);
    assert!(!check_heartbeat(&mut peer, Suspicion::Convicted));
    assert_eq!(peer.state, State::Offline);
    let mut silent = self::peer(2);
    assert!(!check_heartbeat(&mut silent, Suspicion::Convicted));
    assert_eq!(silent.state, State::Seed);
}

#[test]
fn steady_heartbeats_keep_a_peer_alive_and_silence_convicts_it() {
    let interval_ms = 1000;
    let mut peer = peer(1);
    let mut now = 0;
    for _ in 0..HEARTBEAT_WINDOW + 10 {
        now += interval_ms;
        update_heartbeat(&mut peer, now);
    }
    let sample = heartbeat_sample(&peer, now + interval_ms).unwrap();
    assert_eq!(
        sample,
        HeartbeatSample {
            elapsed: 1000,
            sum: 1000 * HEARTBEAT_WINDOW as u64,
            square_sum: 1_000_000 * HEARTBEAT_WINDOW as u128,
            size: HEARTBEAT_WINDOW,
        }
    );
    assert!(phi(&sample) < SUSPECT_THRESHOLD);
    assert!(check_heartbeat(&mut peer, suspicion(&sample)));
    assert_eq!(peer.state, State::Alive);
    let sample = heartbeat_sample(&peer, now + 10 * interval_ms).unwrap();
    assert_eq!(sample.elapsed, 10000);
    assert!(phi(&sample) > CONVICT_THRESHOLD);
    assert!(!check_heartbeat(&mut peer, suspicion(&sample)));
    assert_eq!(peer.state, State::Offline);
    update_heartbeat(&mut peer, now + 10 * interval_ms);
    assert_eq!(peer.state, State::Alive);
}

fn cluster(peers: Vec<Peer>) -> Cluster {
    Cluster {
        peer_id: 10,
        shard_id: 1,
        epoch: 20,
        generation: 30,
        gossip_addr: "10.0.0.1:7911".to_string(),
        rpc_url: "https://10.0.0.1/rpc".to_string(),
        jmap_url: "https://10.0.0.1/jmap".to_string(),
        last_log_term: 40,
        last_log_index: 50,
        term: 41,
        following: None,
        peers,
    }
}

fn alive(peer_id: u64) -> Peer {
    let mut peer = peer(peer_id);
    peer.state = State::Alive;
    peer.gossip_addr = format!("10.0.0.{}:7911", peer_id);
    peer.rpc_url = format!("https://10.0.0.{}/rpc", peer_id);
    peer
}

fn status(peer_id: u64, epoch: u64, generation: u64) -> PeerStatus {
    PeerStatus { peer_id, epoch, generation, last_log_term: 0, last_log_index: 0 }
}

fn info(peer_id: u64, epoch: u64, generation: u64) -> PeerInfo {
    PeerInfo {
        peer_id,
        shard_id: 9,
        epoch,
        last_log_term: 1,
        last_log_index: 2,
        generation,
        gossip_addr: format!("192.168.0.{}:7911", peer_id),
        rpc_url: format!("https://192.168.0.{}", peer_id),
        jmap_url: format!("https://jmap.192.168.0.{}", peer_id),
    }
}

#[test]
fn peer_status_lists_the_node_first() {
    let cluster = cluster(vec![peer(1), peer(2)]);
    let status = build_peer_status(&cluster);
    assert_eq!(
        status,
        vec![
            PeerStatus {
                peer_id: 10,
                epoch: 20,
                generation: 30,
                last_log_term: 40,
                last_log_index: 50
            },
            PeerStatus { peer_id: 1, epoch: 3, generation: 4, last_log_term: 5, last_log_index: 6 },
            PeerStatus { peer_id: 2, epoch: 3, generation: 4, last_log_term: 5, last_log_index: 6 },
        ]
    );
    assert_eq!(PeerStatus::from(&cluster), status[0]);
    assert_eq!(PeerStatus::from(&cluster.peers[1]), status[2]);
}

#[test]
fn peer_info_leaves_the_seeds_out() {
    let cluster = cluster(vec![alive(1), peer(2), alive(3)]);
    let infos = build_peer_info(&cluster);
    assert_eq!(infos.len(), 3);
    assert_eq!(
        infos[0],
        PeerInfo {
            peer_id: 10,
            shard_id: 1,
            epoch: 20,
            last_log_term: 40,
            last_log_index: 50,
            generation: 30,
            gossip_addr: "10.0.0.1:7911".to_string(),
            rpc_url: "https://10.0.0.1/rpc".to_string(),
            jmap_url: "https://10.0.0.1/jmap".to_string(),
        }
    );
    assert_eq!(infos[1], PeerInfo::from_peer(&cluster.peers[0]));
    assert_eq!(infos[2].peer_id, 3);
    assert_eq!(infos[2].rpc_url, "https://10.0.0.3/rpc");
    assert_eq!(PeerInfo::from_cluster(&cluster), infos[0]);
    assert_eq!(find_peer(&cluster.peers, 2), Some(1));
    assert_eq!(find_peer(&cluster.peers, 4), None);
}

#[test]
fn an_empty_ping_changes_nothing() {
    let mut node = cluster(vec![alive(1)]);
    let before = node.clone();
    assert_eq!(handle_ping(&mut node, vec![], true, 100), Message::Idle);
    assert_eq!(node, before);
}

#[test]
fn a_ping_of_a_known_peer_is_answered_with_a_pong() {
    let mut node = cluster(vec![alive(1), alive(2)]);
    let statuses = vec![status(1, 5, 4), status(2, 3, 4), status(10, 99, 99)];
    let message = handle_ping(&mut node, statuses.clone(), true, 700);
    assert_eq!(node.epoch, 21);
    assert_eq!(
        message,
        Message::Pong { addr: "10.0.0.1:7911".to_string(), peers: build_peer_status(&node) }
    );
    assert_eq!(node.peers[0].epoch, 5);
    assert_eq!(node.peers[0].last_heartbeat, 700);
    assert_eq!(node.peers[0].hb_sum, 700);
    assert_eq!(node.peers[1].epoch, 3);
    assert_eq!(node.peers[1].last_heartbeat, 0);
    let message = handle_ping(&mut node, statuses, false, 900);
    assert_eq!(message, Message::Idle);
    assert_eq!(node.epoch, 22);
    assert_eq!(node.peers[0].last_heartbeat, 700);
}

#[test]
fn a_ping_asks_for_a_full_sync_when_the_peers_differ() {
    let mut node = cluster(vec![alive(1), alive(2)]);
    let message = handle_ping(&mut node, vec![status(1, 1, 4), status(10, 0, 0)], true, 1);
    assert_eq!(
        message,
        Message::SyncResponse {
            url: "https://10.0.0.1/rpc".to_string(),
            peers: build_peer_info(&node)
        }
    );
    let mut node = cluster(vec![alive(1), alive(2)]);
    let statuses = vec![status(1, 1, 4), status(7, 0, 0), status(10, 0, 0)];
    assert!(matches!(
        handle_ping(&mut node, statuses, false, 1),
        Message::SyncResponse { .. }
    ));
    let mut node = cluster(vec![alive(1), alive(2)]);
    let statuses = vec![status(1, 9, 5), status(2, 0, 0), status(10, 0, 0)];
    assert!(matches!(handle_ping(&mut node, statuses, true, 1), Message::SyncResponse { .. }));
    assert_eq!(node.peers[0].generation, 4);
    let mut node = cluster(vec![alive(1), alive(2)]);
    let statuses = vec![status(1, 2, 5), status(2, 0, 0), status(10, 0, 0)];
    assert!(matches!(handle_ping(&mut node, statuses, true, 1), Message::Pong { .. }));
}

#[test]
fn a_ping_of_an_unknown_sender_gets_no_answer() {
    let mut node = cluster(vec![alive(1), alive(2)]);
    let statuses = vec![status(7, 9, 9), status(1, 9, 4), status(2, 0, 0)];
    assert_eq!(handle_ping(&mut node, statuses, true, 50), Message::Idle);
    assert_eq!(node.peers[0].epoch, 9);
    assert_eq!(node.epoch, 21);
    let mut node = cluster(vec![alive(1), alive(2)]);
    let statuses = vec![status(10, 9, 9), status(1, 9, 4), status(2, 0, 0)];
    assert_eq!(handle_ping(&mut node, statuses, true, 50), Message::Idle);
}

#[test]
fn a_status_that_comes_twice_beats_once() {
    let mut node = cluster(vec![alive(1)]);
    let statuses = vec![status(1, 7, 4), status(1, 7, 4)];
    handle_ping(&mut node, statuses, true, 300);
    assert_eq!(node.peers[0].epoch, 7);
    assert_eq!(node.peers[0].hb_window_pos, 1);
    let statuses = vec![status(1, 8, 4), status(1, 9, 4)];
    handle_ping(&mut node, statuses, true, 400);
    assert_eq!(node.peers[0].epoch, 9);
    assert_eq!(node.peers[0].hb_window_pos, 3);
    assert_eq!(node.peers[0].hb_sum, 400);
}

#[test]
fn a_full_sync_takes_in_new_peers_and_drops_seeds() {
    let mut node = cluster(vec![peer(1), alive(2)]);
    let infos = vec![info(2, 3, 4), info(5, 1, 1), info(10, 30, 30)];
    sync_peer_info(&mut node, infos, 1000);
    assert_eq!(node.epoch, 31);
    let ids: Vec<u64> = node.peers.iter().map(|peer| peer.peer_id).collect();
    assert_eq!(ids, vec![2, 5]);
    assert_eq!(node.peers[0].epoch, 3);
    assert_eq!(node.peers[0].rpc_url, "https://10.0.0.2/rpc");
    let joined = &node.peers[1];
    assert_eq!(joined.state, State::Alive);
    assert_eq!(joined.shard_id, 9);
    assert_eq!(joined.rpc_url, "https://192.168.0.5");
    assert_eq!(joined.jmap_url, "https://jmap.192.168.0.5");
    assert_eq!(joined.gossip_addr, "192.168.0.5:7911");
    assert_eq!(joined.last_heartbeat, 1000);
    assert_eq!(joined.hb_window, vec![0; HEARTBEAT_WINDOW]);
    assert_eq!((joined.last_log_term, joined.last_log_index), (0, 0));
    assert_eq!(*joined, Peer::from_info(info(5, 1, 1), 1000));
}

#[test]
fn a_full_sync_takes_over_addresses_when_the_generation_changed() {
    let mut node = cluster(vec![alive(1), alive(2), alive(3)]);
    node.peers[2].epoch = 8;
    let infos = vec![info(1, 4, 77), info(2, 4, 78), info(3, 4, 79), info(10, 5, 5)];
    sync_peer_info(&mut node, infos, 500);
    assert_eq!(node.epoch, 20);
    assert_eq!(node.peers[0].generation, 77);
    assert_eq!(node.peers[0].rpc_url, "https://192.168.0.1/rpc");
    assert_eq!(node.peers[0].jmap_url, "https://jmap.192.168.0.1/jmap");
    assert_eq!(node.peers[0].gossip_addr, "192.168.0.1:7911");
    assert_eq!(node.peers[0].shard_id, 9);
    assert_eq!(node.peers[0].epoch, 4);
    assert_eq!(node.peers[0].last_heartbeat, 500);
    assert_eq!(node.peers[1].generation, 78);
    assert_eq!(node.peers[1].epoch, 4);
    assert_eq!(node.peers[2].generation, 4);
    assert_eq!(node.peers[2].epoch, 8);
    assert_eq!(node.peers[2].rpc_url, "https://10.0.0.3/rpc");
    let mut node = cluster(vec![alive(1)]);
    node.peers[0].epoch = 8;
    sync_peer_info(&mut node, vec![info(1, 3, 77)], 500);
    assert_eq!(node.peers[0].generation, 77);
    assert_eq!(node.peers[0].epoch, 8);
    assert_eq!(node.peers[0].last_heartbeat, 0);
}

#[test]
fn seeds_behind_a_known_peer_stay() {
    let mut node = cluster(vec![alive(1), peer(2)]);
    sync_peer_info(&mut node, vec![info(1, 3, 4)], 500);
    assert_eq!(node.peers.len(), 2);
    sync_peer_info(&mut node, vec![info(2, 3, 4)], 500);
    let ids: Vec<u64> = node.peers.iter().map(|peer| peer.peer_id).collect();
    assert_eq!(ids, vec![1, 2]);
    assert_eq!(node.peers[1].state, State::Alive);
}

#[test]
fn messages_for_the_wire_have_an_address() {
    let peers = vec![status(1, 2, 3)];
    assert_eq!(
        into_request(Message::Ping { addr: "a".to_string(), peers: peers.clone() }),
        Some(("a".to_string(), Request::Ping(peers.clone())))
    );
    assert_eq!(
        into_request(Message::Pong { addr: "b".to_string(), peers: peers.clone() }),
        Some(("b".to_string(), Request::Pong(peers)))
    );
    assert_eq!(
        into_request(Message::Join { addr: "c".to_string(), port: 7 }),
        Some(("c".to_string(), Request::Join(7)))
    );
    assert_eq!(
        into_request(Message::SyncRequest { addr: "d".to_string(), url: "u".to_string() }),
        Some(("d".to_string(), Request::Synchronize("u".to_string())))
    );
    assert_eq!(into_request(Message::SyncResponse { url: "u".to_string(), peers: vec![] }), None);
    assert_eq!(into_request(Message::Idle), None);
}

#[test]
fn a_node_follows_a_known_leader_that_is_not_behind() {
    let mut node = cluster(vec![alive(1), alive(2)]);
    let decision = node.handle_become_follower(1, 45, RaftId::new(40, 50));
    assert_eq!(
        decision,
        Decision::Forward {
            request: AppendEntriesRequest::Match { last_log: RaftId::new(40, 50) }
        }
    );
    assert_eq!(node.term, 45);
    assert_eq!(node.following, Some(1));
    assert!(node.is_following_peer(1) && !node.is_following_peer(2));
    assert!(node.is_known_peer(2) && !node.is_known_peer(3));
    let decision = node.handle_become_follower(2, 46, RaftId::new(41, 0));
    assert!(matches!(decision, Decision::Forward { .. }));
    assert_eq!(node.following, Some(2));
}

#[test]
fn a_node_tells_a_stale_leader_to_step_down() {
    let mut node = cluster(vec![alive(1)]);
    let decision = node.handle_become_follower(1, 40, RaftId::new(40, 50));
    assert_eq!(decision, Decision::Reply { response: Response::StepDown { term: 41 } });
    assert_eq!(node.term, 41);
    assert_eq!(node.following, None);
    let decision = node.handle_become_follower(1, 50, RaftId::new(40, 49));
    assert_eq!(decision, Decision::Reply { response: Response::StepDown { term: 50 } });
    assert_eq!(node.term, 50);
    let decision = node.handle_become_follower(1, 50, RaftId::new(39, 900));
    assert_eq!(decision, Decision::Reply { response: Response::StepDown { term: 50 } });
    let decision = node.handle_become_follower(9, 60, RaftId::new(60, 60));
    assert_eq!(decision, Decision::Reply { response: Response::UnregisteredPeer });
    assert_eq!(node.term, 50);
    assert!(node.log_is_behind_or_eq(40, 50));
    assert!(node.log_is_behind_or_eq(41, 0));
    assert!(!node.log_is_behind_or_eq(40, 49));
}

#[test]
fn requests_go_to_the_follower_of_the_leader_only() {
    let mut node = cluster(vec![alive(1), alive(2)]);
    node.following = Some(1);
    let request = AppendEntriesRequest::Merge { matched_log: RaftId::new(1, 1) };
    let decision = node.handle_append_entries(1, 50, request.clone());
    assert_eq!(decision, Decision::Forward { request: request.clone() });
    assert_eq!(node.term, 50);
    let decision = node.handle_append_entries(2, 49, request.clone());
    assert_eq!(decision, Decision::Reply { response: Response::StepDown { term: 50 } });
    assert_eq!(node.term, 50);
    node.following = None;
    let decision = node.handle_append_entries(1, 51, request);
    assert_eq!(decision, Decision::Reply { response: Response::StepDown { term: 51 } });
}

#[test]
fn peers_are_checked_for_the_order_of_their_windows() {
    let mut peer = alive(1);
    assert!(peer.check());
    for now in [100, 250, 900] {
        update_heartbeat(&mut peer, now);
        assert!(peer.check());
    }
    let mut broken = peer.clone();
    broken.hb_sum += 1;
    assert!(!broken.check());
    let mut broken = peer.clone();
    broken.hb_sq_sum -= 1;
    assert!(!broken.check());
    let mut broken = peer.clone();
    broken.hb_window.pop();
    assert!(!broken.check());
    let mut broken = peer.clone();
    broken.hb_window_pos = HEARTBEAT_WINDOW;
    assert!(!broken.check());
    let mut broken = peer.clone();
    broken.hb_window[500] = 0;
    broken.hb_window[2] += 7;
    broken.hb_sum += 7;
    broken.hb_sq_sum = broken.hb_window.iter().map(|v| (*v as u128) * (*v as u128)).sum();
    assert!(broken.check());
    broken.hb_window[500] = 1;
    broken.hb_sum += 1;
    broken.hb_sq_sum += 1;
    assert!(!broken.check());
    broken.hb_is_full = true;
    assert!(broken.check());
    let mut node = cluster(vec![alive(1), peer.clone()]);
    assert!(node.check());
    node.peers[1].hb_sum += 1;
    assert!(!node.check());
}

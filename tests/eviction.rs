use ckb_sync::peer::{
    PeerAction, CHAIN_SYNC_TIMEOUT, EVICTION_TEST_RESPONSE_TIME, MAX_TIP_AGE,
};
use ckb_sync::registry::SessionInfo;
use ckb_sync::sync::{SyncProtocol, Synchronizer};
use ckb_sync::types::{Byte32, Difficulty, Header, HeaderView, PeerId};

fn mock_header_view(total_difficulty: u64) -> HeaderView {
    HeaderView {
        header: Header { number: 0, hash: Byte32::zero(), parent_hash: Byte32::zero() },
        total_difficulty: Difficulty::from_u64(total_difficulty),
    }
}

fn mock_sessions(peer_num: usize) -> Vec<SessionInfo> {
    (0..peer_num).map(|peer| SessionInfo { peer, outbound: true }).collect()
}

fn evicted(actions: &[(PeerId, PeerAction)]) -> Vec<PeerId> {
    let mut v: Vec<PeerId> = actions
        .iter()
        .filter(|(_, a)| *a == PeerAction::Evict)
        .map(|(p, _)| *p)
        .collect();
    v.sort();
    v
}

fn probed(actions: &[(PeerId, PeerAction)]) -> Vec<PeerId> {
    let mut v: Vec<PeerId> = actions
        .iter()
        .filter(|(_, a)| matches!(a, PeerAction::SendGetHeaders(_)))
        .map(|(p, _)| *p)
        .collect();
    v.sort();
    v
}

#[test]
fn test_header_sync_timeout() {
    let mut protocol = SyncProtocol::new(Synchronizer::new());
    let sessions = mock_sessions(5);
    let now = MAX_TIP_AGE * 2;
    let ibd = true;
    let tip = mock_header_view(0);

    // protect should not affect headers_timeout
    protocol.synchronizer.peers.on_connected(0, 0, true);
    protocol.synchronizer.peers.on_connected(1, 0, false);
    protocol.synchronizer.peers.on_connected(2, MAX_TIP_AGE * 2, false);

    let actions = protocol.eviction(now, ibd, tip, &sessions);
    assert_eq!(evicted(&actions), vec![0, 1]);
}

#[test]
fn test_chain_sync_timeout() {
    let tip = mock_header_view(2);
    let mut protocol = SyncProtocol::new(Synchronizer::new());
    let sessions = mock_sessions(6);
    let ibd = false;

    // 6 peers do not trigger header sync timeout
    {
        let peers = &mut protocol.synchronizer.peers;
        peers.on_connected(0, MAX_TIP_AGE * 2, true);
        peers.on_connected(1, MAX_TIP_AGE * 2, true);
        peers.on_connected(2, MAX_TIP_AGE * 2, true);
        peers.on_connected(3, MAX_TIP_AGE * 2, false);
        peers.on_connected(4, MAX_TIP_AGE * 2, false);
        peers.on_connected(5, MAX_TIP_AGE * 2, false);

        peers.new_header_received(0, mock_header_view(1));
        peers.new_header_received(2, mock_header_view(3));
        peers.new_header_received(3, mock_header_view(1));
        peers.new_header_received(5, mock_header_view(3));
    }

    let mut now: u64 = 0;
    let actions = protocol.eviction(now, ibd, tip, &sessions);
    {
        assert!(evicted(&actions).is_empty());
        let peers = &protocol.synchronizer.peers;
        assert_eq!(peers.state(0).unwrap().chain_sync.protect, true);
        assert_eq!(peers.state(1).unwrap().chain_sync.protect, true);
        assert_eq!(peers.state(2).unwrap().chain_sync.protect, true);
        // protect peer is protected from disconnection
        assert!(peers.state(2).unwrap().chain_sync.work_header.is_none());

        assert_eq!(peers.state(3).unwrap().chain_sync.protect, false);
        assert_eq!(peers.state(4).unwrap().chain_sync.protect, false);
        assert_eq!(peers.state(5).unwrap().chain_sync.protect, false);

        // Behind our tip, noticed for the first time: watch against the tip.
        assert_eq!(peers.state(3).unwrap().chain_sync.work_header, Some(tip));
        assert_eq!(peers.state(4).unwrap().chain_sync.work_header, Some(tip));
        assert_eq!(peers.state(3).unwrap().chain_sync.timeout, CHAIN_SYNC_TIMEOUT);
        assert_eq!(peers.state(4).unwrap().chain_sync.timeout, CHAIN_SYNC_TIMEOUT);
    }

    now = CHAIN_SYNC_TIMEOUT + 1;
    let actions = protocol.eviction(now, ibd, tip, &sessions);
    {
        // No evidence yet that the peer caught up: one getheaders each.
        assert!(evicted(&actions).is_empty());
        assert_eq!(probed(&actions), vec![3, 4]);
        let peers = &protocol.synchronizer.peers;
        assert_eq!(
            peers.state(3).unwrap().chain_sync.timeout,
            now + EVICTION_TEST_RESPONSE_TIME
        );
        assert_eq!(
            peers.state(4).unwrap().chain_sync.timeout,
            now + EVICTION_TEST_RESPONSE_TIME
        );
    }

    now = now + EVICTION_TEST_RESPONSE_TIME + 1;
    let actions = protocol.eviction(now, ibd, tip, &sessions);
    // Peers 3 and 4 ran out of time to catch up.
    assert_eq!(evicted(&actions), vec![3, 4]);
}

#[test]
fn header_sync_eviction_reports_once() {
    let mut protocol = SyncProtocol::new(Synchronizer::new());
    let sessions = mock_sessions(2);
    protocol.synchronizer.peers.on_connected(0, 10, true);
    protocol.synchronizer.peers.on_connected(1, 100, false);
    let tip = mock_header_view(5);
    let first = protocol.eviction(50, true, tip, &sessions);
    assert_eq!(evicted(&first), vec![0]);
    assert!(protocol.synchronizer.peers.state(0).unwrap().disconnect);
    let second = protocol.eviction(200, true, tip, &sessions);
    assert_eq!(evicted(&second), vec![1]);
    let third = protocol.eviction(300, true, tip, &sessions);
    assert!(evicted(&third).is_empty());
}

#[test]
fn chain_sync_skips_inbound_and_ibd() {
    let mut protocol = SyncProtocol::new(Synchronizer::new());
    let sessions = vec![
        SessionInfo { peer: 0, outbound: false },
        SessionInfo { peer: 1, outbound: true },
    ];
    protocol.synchronizer.peers.on_connected(0, u64::MAX, false);
    protocol.synchronizer.peers.on_connected(1, u64::MAX, false);
    protocol.synchronizer.peers.on_connected(2, u64::MAX, false);
    let tip = mock_header_view(9);
    protocol.eviction(0, true, tip, &sessions);
    assert_eq!(protocol.synchronizer.peers.state(1).unwrap().chain_sync.timeout, 0);
    protocol.eviction(0, false, tip, &sessions);
    assert_eq!(protocol.synchronizer.peers.state(0).unwrap().chain_sync.timeout, 0);
    assert_eq!(
        protocol.synchronizer.peers.state(1).unwrap().chain_sync.timeout,
        CHAIN_SYNC_TIMEOUT
    );
    // peer 2 has no session
    assert_eq!(protocol.synchronizer.peers.state(2).unwrap().chain_sync.timeout, 0);
}

#[test]
fn caught_up_peer_returns_to_inactive() {
    let mut protocol = SyncProtocol::new(Synchronizer::new());
    let sessions = mock_sessions(1);
    protocol.synchronizer.peers.on_connected(0, u64::MAX, false);
    let tip = mock_header_view(4);
    protocol.eviction(10, false, tip, &sessions);
    assert_eq!(
        protocol.synchronizer.peers.state(0).unwrap().chain_sync.timeout,
        10 + CHAIN_SYNC_TIMEOUT
    );
    protocol.synchronizer.peers.new_header_received(0, mock_header_view(4));
    let actions = protocol.eviction(20, false, tip, &sessions);
    assert_eq!(actions, vec![(0, PeerAction::Nothing)]);
    let cs = protocol.synchronizer.peers.state(0).unwrap().chain_sync;
    assert_eq!(cs.timeout, 0);
    assert!(cs.work_header.is_none());
    assert!(!cs.sent_getheaders);
}

#[test]
fn chain_sync_leaves_caught_up_and_protected_alone() {
    let tip = mock_header_view(2);
    let mut protocol = SyncProtocol::new(Synchronizer::new());
    let sessions = mock_sessions(6);
    {
        let peers = &mut protocol.synchronizer.peers;
        for (peer, protect) in [(0, true), (1, true), (2, true), (3, false), (4, false), (5, false)] {
            peers.on_connected(peer, MAX_TIP_AGE * 2, protect);
        }
        peers.new_header_received(0, mock_header_view(1));
        peers.new_header_received(2, mock_header_view(3));
        peers.new_header_received(3, mock_header_view(1));
        peers.new_header_received(5, mock_header_view(3));
    }
    let mut now = 0;
    for _ in 0..3 {
        let actions = protocol.eviction(now, false, tip, &sessions);
        for (peer, action) in actions {
            if [0, 1, 2, 5].contains(&peer) {
                assert_eq!(action, PeerAction::Nothing);
            }
        }
        now += CHAIN_SYNC_TIMEOUT + EVICTION_TEST_RESPONSE_TIME;
    }
    for peer in [0, 1, 2, 5] {
        let st = protocol.synchronizer.peers.state(peer).unwrap();
        assert!(!st.disconnect);
        assert_eq!(st.chain_sync.timeout, 0);
        assert!(st.chain_sync.work_header.is_none());
        assert!(!st.chain_sync.sent_getheaders);
    }
    assert!(protocol.synchronizer.peers.state(3).unwrap().disconnect);
}

#[test]
fn marked_peer_is_not_reported_again() {
    let mut protocol = SyncProtocol::new(Synchronizer::new());
    let sessions = mock_sessions(1);
    protocol.synchronizer.peers.on_connected(0, u64::MAX, false);
    let tip = mock_header_view(4);
    protocol.eviction(0, false, tip, &sessions);
    let probe = protocol.eviction(CHAIN_SYNC_TIMEOUT + 1, false, tip, &sessions);
    assert_eq!(probed(&probe), vec![0]);
    let later = CHAIN_SYNC_TIMEOUT + EVICTION_TEST_RESPONSE_TIME + 2;
    let evict = protocol.eviction(later, false, tip, &sessions);
    assert_eq!(evicted(&evict), vec![0]);
    for step in 1..4 {
        let again = protocol.eviction(later + step * CHAIN_SYNC_TIMEOUT, false, tip, &sessions);
        assert_eq!(again, vec![(0, PeerAction::Nothing)]);
    }
    assert!(protocol.synchronizer.peers.state(0).unwrap().disconnect);
}

#[test]
fn header_sync_evicted_peer_not_reported_after_download() {
    let mut protocol = SyncProtocol::new(Synchronizer::new());
    let sessions = mock_sessions(1);
    protocol.synchronizer.peers.on_connected(0, 0, false);
    let tip = mock_header_view(4);
    assert_eq!(evicted(&protocol.eviction(10, true, tip, &sessions)), vec![0]);
    for now in [20, 10 + CHAIN_SYNC_TIMEOUT * 2, u64::MAX] {
        assert!(evicted(&protocol.eviction(now, false, tip, &sessions)).is_empty());
    }
}

#[test]
fn deadlines_saturate_at_end_of_clock() {
    let mut protocol = SyncProtocol::new(Synchronizer::new());
    let sessions = mock_sessions(1);
    protocol.synchronizer.peers.on_connected(0, u64::MAX, false);
    protocol.eviction(u64::MAX - 1, false, mock_header_view(4), &sessions);
    assert_eq!(protocol.synchronizer.peers.state(0).unwrap().chain_sync.timeout, u64::MAX);
}

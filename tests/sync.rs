use ckb_sync::fetch::{BlocksInFlight, MAX_BLOCKS_IN_TRANSIT_PER_PEER};
use ckb_sync::locator::locator_heights;
use ckb_sync::process::headers_contiguous;
use ckb_sync::peer::MAX_OUTBOUND_PEERS_TO_PROTECT_FROM_DISCONNECT;
use ckb_sync::sync::{
    block_getdata, get_headers_sync_timeout, getheaders_message, task_for_connection,
    task_for_message, task_for_timer, GetData, Headers, HeadersError, Inventory, InventoryType,
    SyncMessage, SyncProtocol, Synchronizer, Task, BLOCK_FETCH_TOKEN, SEND_GET_HEADERS_TOKEN,
};
use ckb_sync::types::{Byte32, Difficulty, Header, HeaderView};

#[test]
fn locator_is_dense_then_geometric() {
    let heights = locator_heights(100);
    assert_eq!(
        heights,
        vec![100, 99, 98, 97, 96, 95, 94, 93, 92, 91, 90, 89, 87, 83, 75, 59, 27, 0]
    );
    assert_eq!(locator_heights(0), vec![0]);
    assert_eq!(locator_heights(3), vec![3, 2, 1, 0]);
}

#[test]
fn locator_strictly_decreasing_to_genesis() {
    let heights = locator_heights(1_000_000);
    assert_eq!(heights[0], 1_000_000);
    assert_eq!(*heights.last().unwrap(), 0);
    for w in heights.windows(2) {
        assert!(w[0] > w[1]);
    }
}

#[test]
fn outbound_protection_is_bounded() {
    let mut s = Synchronizer::new();
    let mut protected = 0;
    for peer in 0..6usize {
        if s.on_connected(peer, Some(true), 1000) {
            protected += 1;
        }
    }
    assert_eq!(protected, MAX_OUTBOUND_PEERS_TO_PROTECT_FROM_DISCONNECT);
    assert!(!s.on_connected(10, Some(false), 1000));
    assert_eq!(s.n_sync, 7);
    assert_eq!(s.peers.state(10).unwrap().headers_sync_timeout, Some(1000));
}

#[test]
fn disconnect_forgets_peer() {
    let mut s = Synchronizer::new();
    s.on_connected(1, Some(true), 5);
    let hv = HeaderView {
        header: Header { number: 3, hash: Byte32::from_u64(3), parent_hash: Byte32::zero() },
        total_difficulty: Difficulty::from_u64(3),
    };
    s.peers.new_header_received(1, hv);
    assert_eq!(s.peers.best_known_header(1), Some(hv));
    s.peers.disconnected(1);
    assert!(s.peers.state(1).is_none());
    assert!(s.peers.best_known_header(1).is_none());
    assert!(s.peers.is_empty());
}

#[test]
fn best_known_header_only_rises() {
    let mut s = Synchronizer::new();
    let view = |d: u64| HeaderView {
        header: Header { number: d, hash: Byte32::from_u64(d), parent_hash: Byte32::zero() },
        total_difficulty: Difficulty::from_u64(d),
    };
    s.peers.new_header_received(4, view(5));
    s.peers.new_header_received(4, view(3));
    assert_eq!(s.peers.best_known_header(4), Some(view(5)));
    s.peers.new_header_received(4, view(8));
    assert_eq!(s.peers.best_known_header(4), Some(view(8)));
}

#[test]
fn difficulty_compares_high_words_first() {
    let big = Difficulty { hi: 1, lo: 0 };
    let small = Difficulty { hi: 0, lo: u128::MAX };
    assert!(big.ge(&small));
    assert!(!small.ge(&big));
    assert!(small.ge(&small));
}

#[test]
fn timers_and_connections_become_tasks() {
    assert!(task_for_timer(SEND_GET_HEADERS_TOKEN, false, 0, true).is_none());
    assert!(matches!(
        task_for_timer(SEND_GET_HEADERS_TOKEN, true, 0, true),
        Some(Task::SendGetHeadersToAll)
    ));
    assert!(task_for_timer(SEND_GET_HEADERS_TOKEN, true, 2, true).is_none());
    assert!(matches!(
        task_for_timer(SEND_GET_HEADERS_TOKEN, true, 2, false),
        Some(Task::SendGetHeadersToAll)
    ));
    assert!(matches!(
        task_for_timer(BLOCK_FETCH_TOKEN, true, 2, true),
        Some(Task::FetchBlock)
    ));
    // every connection is set up, also while another peer is syncing
    assert!(matches!(task_for_connection(3), Task::OnConnected(3)));
}

#[test]
fn messages_become_tasks() {
    let t = task_for_message(4, SyncMessage::Headers(Headers { headers: vec![] }));
    assert!(matches!(t, Some(Task::HandleHeaders(4, _))));
    assert!(task_for_message(4, SyncMessage::Other).is_none());
}

#[test]
fn getheaders_and_getdata_messages() {
    let m = getheaders_message(vec![Byte32::from_u64(1), Byte32::from_u64(0)]);
    assert_eq!(m.version, 0);
    assert_eq!(m.hash_stop, Byte32::zero());
    assert_eq!(m.block_locator_hashes.len(), 2);
    let g = block_getdata(&vec![Byte32::from_u64(5), Byte32::from_u64(6)]);
    assert_eq!(g.inventory.len(), 2);
    assert_eq!(g.inventory[1].inv_type, InventoryType::MsgBlock);
    assert_eq!(g.inventory[1].hash, Byte32::from_u64(6));
}

#[test]
fn fetch_requests_skip_peers_without_blocks() {
    let plan = vec![
        (1usize, Some(vec![Byte32::from_u64(7)])),
        (2usize, None),
        (3usize, Some(vec![])),
    ];
    let r = SyncProtocol::find_blocks_to_fetch(&plan);
    assert_eq!(r.len(), 2);
    assert_eq!(r[0].0, 1);
    assert_eq!(r[0].1.inventory[0].hash, Byte32::from_u64(7));
    assert_eq!(r[1].0, 3);
}

#[test]
fn headers_sync_deadline_grows_with_tip_age() {
    assert_eq!(get_headers_sync_timeout(1_000, 1_000), 361_000);
    assert_eq!(get_headers_sync_timeout(1_000_000, 0), 1_000_000 + 360_000 + 100);
    assert_eq!(get_headers_sync_timeout(u64::MAX, 0), u64::MAX);
}

fn chain_of(len: u64) -> Vec<Header> {
    (0..len)
        .map(|n| Header {
            number: n,
            hash: Byte32::from_u64(100 + n),
            parent_hash: if n == 0 { Byte32::zero() } else { Byte32::from_u64(99 + n) },
        })
        .collect()
}

#[test]
fn getheaders_replies_after_common_ancestor() {
    let chain = chain_of(10);
    let msg = getheaders_message(vec![Byte32::from_u64(999), Byte32::from_u64(104)]);
    let reply = SyncProtocol::handle_getheaders(&chain, &msg);
    let numbers: Vec<u64> = reply.headers.iter().map(|h| h.number).collect();
    assert_eq!(numbers, vec![5, 6, 7, 8, 9]);
}

#[test]
fn getheaders_stops_at_hash_stop() {
    let chain = chain_of(10);
    let mut msg = getheaders_message(vec![Byte32::from_u64(101)]);
    msg.hash_stop = Byte32::from_u64(104);
    let reply = SyncProtocol::handle_getheaders(&chain, &msg);
    let numbers: Vec<u64> = reply.headers.iter().map(|h| h.number).collect();
    assert_eq!(numbers, vec![2, 3, 4]);
}

#[test]
fn getheaders_without_common_ancestor_is_empty() {
    let chain = chain_of(4);
    let msg = getheaders_message(vec![Byte32::from_u64(5000)]);
    assert!(SyncProtocol::handle_getheaders(&chain, &msg).headers.is_empty());
}

#[test]
fn getheaders_reply_is_capped() {
    let chain = chain_of(2500);
    let msg = getheaders_message(vec![Byte32::from_u64(100)]);
    let reply = SyncProtocol::handle_getheaders(&chain, &msg);
    assert_eq!(reply.headers.len(), 2000);
    assert_eq!(reply.headers[0].number, 1);
    assert_eq!(reply.headers[1999].number, 2000);
}

#[test]
fn headers_update_best_known_and_clear_deadline() {
    let mut protocol = SyncProtocol::new(Synchronizer::new());
    protocol.synchronizer.on_connected(1, Some(true), 500);
    let chain = chain_of(4);
    let batch = Headers { headers: chain[1..].to_vec() };
    let tip = HeaderView { header: chain[0], total_difficulty: Difficulty::from_u64(3) };
    let low = HeaderView { header: chain[3], total_difficulty: Difficulty::from_u64(2) };
    assert_eq!(protocol.handle_headers(1, &batch, Some(low), tip), Ok(()));
    assert_eq!(protocol.synchronizer.peers.best_known_header(1), Some(low));
    assert_eq!(
        protocol.synchronizer.peers.state(1).unwrap().headers_sync_timeout,
        Some(500)
    );
    let high = HeaderView { header: chain[3], total_difficulty: Difficulty::from_u64(4) };
    assert_eq!(protocol.handle_headers(1, &batch, Some(high), tip), Ok(()));
    assert_eq!(protocol.synchronizer.peers.best_known_header(1), Some(high));
    assert_eq!(protocol.synchronizer.peers.state(1).unwrap().headers_sync_timeout, None);
}

#[test]
fn headers_errors() {
    let mut protocol = SyncProtocol::new(Synchronizer::new());
    protocol.synchronizer.on_connected(1, Some(true), 500);
    let chain = chain_of(4);
    let tip = HeaderView { header: chain[0], total_difficulty: Difficulty::from_u64(3) };
    let gap = Headers { headers: vec![chain[1], chain[3]] };
    assert_eq!(
        protocol.handle_headers(1, &gap, None, tip),
        Err(HeadersError::NonContiguous)
    );
    let batch = Headers { headers: chain[1..].to_vec() };
    assert_eq!(protocol.handle_headers(1, &batch, None, tip), Err(HeadersError::Rejected));
    assert!(protocol.synchronizer.peers.best_known_header(1).is_none());
    assert!(headers_contiguous(&batch.headers));
}

#[test]
fn block_fetch_window_and_in_flight() {
    let mut flight = BlocksInFlight::new();
    let candidates: Vec<Byte32> = (0..20u64).map(Byte32::from_u64).collect();
    let first = flight.blocks_to_fetch(1, &candidates);
    assert_eq!(first.len(), MAX_BLOCKS_IN_TRANSIT_PER_PEER);
    assert_eq!(first[0], Byte32::from_u64(0));
    assert_eq!(flight.in_flight_for(1), MAX_BLOCKS_IN_TRANSIT_PER_PEER);
    // a hash is asked of one peer at a time
    let second = flight.blocks_to_fetch(2, &candidates);
    assert_eq!(second, (16..20u64).map(Byte32::from_u64).collect::<Vec<_>>());
    // the window of peer 1 is full until a block arrives
    assert!(flight.blocks_to_fetch(1, &vec![Byte32::from_u64(99)]).is_empty());
    flight.received(&Byte32::from_u64(3));
    assert_eq!(flight.blocks_to_fetch(1, &vec![Byte32::from_u64(99)]), vec![Byte32::from_u64(99)]);
    // duplicates among candidates are asked once
    assert_eq!(
        flight.blocks_to_fetch(3, &vec![Byte32::from_u64(50), Byte32::from_u64(50)]),
        vec![Byte32::from_u64(50)]
    );
}

#[test]
fn getdata_asks_for_blocks_only() {
    let msg = GetData {
        inventory: vec![
            Inventory { inv_type: InventoryType::MsgBlock, hash: Byte32::from_u64(1) },
            Inventory { inv_type: InventoryType::MsgTx, hash: Byte32::from_u64(2) },
            Inventory { inv_type: InventoryType::MsgBlock, hash: Byte32::from_u64(3) },
        ],
    };
    assert_eq!(
        SyncProtocol::handle_getdata(&msg),
        vec![Byte32::from_u64(1), Byte32::from_u64(3)]
    );
}

#[test]
fn disconnect_releases_blocks_in_flight() {
    let mut s = Synchronizer::new();
    s.on_connected(1, Some(true), 5);
    s.on_connected(2, Some(true), 5);
    let a = s.blocks_in_flight.blocks_to_fetch(1, &vec![Byte32::from_u64(1), Byte32::from_u64(2)]);
    let b = s.blocks_in_flight.blocks_to_fetch(2, &vec![Byte32::from_u64(3)]);
    assert_eq!((a.len(), b.len()), (2, 1));
    s.disconnected(1);
    assert_eq!(s.blocks_in_flight.in_flight_for(1), 0);
    assert_eq!(s.blocks_in_flight.in_flight_for(2), 1);
    // the blocks peer 1 owed can now be asked of peer 2
    assert_eq!(
        s.blocks_in_flight.blocks_to_fetch(2, &vec![Byte32::from_u64(1)]),
        vec![Byte32::from_u64(1)]
    );
    assert!(s.peers.state(1).is_none());
}

#[test]
fn connection_without_session_is_not_protected() {
    let mut s = Synchronizer::new();
    assert!(!s.on_connected(1, None, 5));
    assert_eq!(s.outbound_peers_with_protect, 0);
    assert_eq!(s.n_sync, 1);
    assert_eq!(s.peers.state(1).unwrap().headers_sync_timeout, Some(5));
}

#[test]
fn repeated_connection_changes_nothing() {
    let mut s = Synchronizer::new();
    assert!(s.on_connected(1, Some(true), 5));
    assert!(s.on_connected(1, Some(true), 9));
    assert_eq!(s.n_sync, 1);
    assert_eq!(s.outbound_peers_with_protect, 1);
    assert_eq!(s.peers.state(1).unwrap().headers_sync_timeout, Some(5));
}

#[test]
fn disconnecting_protected_peer_frees_its_slot() {
    let mut s = Synchronizer::new();
    for peer in 0..4usize {
        assert!(s.on_connected(peer, Some(true), 5));
    }
    assert!(!s.on_connected(4, Some(true), 5));
    s.disconnected(0);
    assert_eq!(s.outbound_peers_with_protect, 3);
    assert_eq!(s.n_sync, 4);
    assert!(s.on_connected(5, Some(true), 5));
    s.disconnected(4);
    assert_eq!(s.outbound_peers_with_protect, 4);
    s.disconnected(77);
    assert_eq!(s.n_sync, 4);
}

#[test]
fn fetch_for_peers_is_disjoint_and_windowed() {
    let mut flight = BlocksInFlight::new();
    let first = flight.blocks_to_fetch(9, &vec![Byte32::from_u64(0)]);
    assert_eq!(first, vec![Byte32::from_u64(0)]);
    let all: Vec<Byte32> = (0..40u64).map(Byte32::from_u64).collect();
    let plan = vec![(1usize, all.clone()), (2usize, all.clone()), (3usize, vec![Byte32::from_u64(5)])];
    let r = flight.fetch_for_peers(&plan);
    assert_eq!(r.len(), 3);
    assert_eq!(r[0].1, (1..17u64).map(Byte32::from_u64).collect::<Vec<_>>());
    assert_eq!(r[1].1, (17..33u64).map(Byte32::from_u64).collect::<Vec<_>>());
    assert!(r[2].1.is_empty());
    assert_eq!(flight.in_flight_for(2), MAX_BLOCKS_IN_TRANSIT_PER_PEER);
}

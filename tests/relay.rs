use ckb_sync::compact::{
    reconstruct_block, reconstruct_with_ids, short_transaction_id, short_transaction_id_keys,
    CompactBlock, PrefilledTransaction,
};
use ckb_sync::relay::{
    relay_targets, respond_block_transactions, BlockTransactions, BlockTransactionsRequest,
    CompactOutcome, ReceivedSet, RelayProtocol, MAX_PENDING_COMPACT_BLOCKS,
    PENDING_COMPACT_BLOCK_TTL,
};
use ckb_sync::types::{Block, Byte32, Header, Transaction};

fn tx(n: u64) -> Transaction {
    Transaction { hash: Byte32::from_u64(n), payload: vec![n as u8, 1, 2] }
}

fn header(n: u64) -> Header {
    Header { number: n, hash: Byte32::from_u64(1000 + n), parent_hash: Byte32::zero() }
}

fn compact_of(header: Header, nonce: u64, txs: &[Transaction]) -> CompactBlock {
    let (k0, k1) = short_transaction_id_keys(nonce, &header);
    CompactBlock {
        header,
        nonce,
        short_ids: txs.iter().map(|t| short_transaction_id(k0, k1, &t.hash)).collect(),
        prefilled: vec![],
        uncles: vec![],
    }
}

fn hashes(txs: &[Transaction]) -> Vec<Byte32> {
    txs.iter().map(|t| t.hash).collect()
}

#[test]
fn short_id_matches_siphash_vector() {
    let h = Byte32 {
        w0: 0x0706050403020100,
        w1: 0x0f0e0d0c0b0a0908,
        w2: 0x1716151413121110,
        w3: 0x1f1e1d1c1b1a1918,
    };
    let id = short_transaction_id(0x0706050403020100, 0x0f0e0d0c0b0a0908, &h);
    assert_eq!(id, 0x512f72f27cce);
}

#[test]
fn short_id_keys_come_from_sha256() {
    let h = Header {
        number: 1,
        hash: Byte32 {
            w0: 0x0706050403020100,
            w1: 0x0f0e0d0c0b0a0908,
            w2: 0x1716151413121110,
            w3: 0x1f1e1d1c1b1a1918,
        },
        parent_hash: Byte32::zero(),
    };
    let keys = short_transaction_id_keys(7, &h);
    assert_eq!(keys, (0x327b99ca195fbf4a, 0x220993ac1491a225));
}

#[test]
fn compact_block_full_hit() {
    let pool = vec![tx(1), tx(2), tx(3)];
    let cb = compact_of(header(5), 42, &pool);
    let mut relay = RelayProtocol::new();
    match relay.on_compact_block(cb.clone(), 0, &pool, &vec![]) {
        CompactOutcome::Reconstructed(b) => {
            assert_eq!(b.header, header(5));
            assert_eq!(hashes(&b.transactions), hashes(&pool));
            assert_eq!(b.transactions[1].payload, vec![2, 1, 2]);
        }
        other => panic!("unexpected {:?}", other),
    }
    // submitted once: the same compact block again is a duplicate
    assert!(matches!(
        relay.on_compact_block(cb, 0, &pool, &vec![]),
        CompactOutcome::Duplicate
    ));
}

#[test]
fn compact_block_partial_miss() {
    let txs = vec![tx(1), tx(2), tx(3)];
    let cb = compact_of(header(6), 9, &txs);
    let pool = vec![tx(1)];
    let orphan = vec![tx(3)];
    let mut relay = RelayProtocol::new();
    let request = match relay.on_compact_block(cb, 0, &pool, &orphan) {
        CompactOutcome::Requested(req) => req,
        other => panic!("unexpected {:?}", other),
    };
    assert_eq!(request.hash, header(6).hash);
    assert_eq!(request.indexes, vec![1]);
    assert_eq!(relay.pending_compact_blocks.len(), 1);
    assert_eq!(relay.pending_compact_blocks[0].0, header(6).hash);

    let response = BlockTransactions { hash: header(6).hash, transactions: vec![tx(2)] };
    let block = relay.on_block_transactions(&response, &pool, &orphan).unwrap();
    assert_eq!(block.header, header(6));
    assert_eq!(hashes(&block.transactions), hashes(&txs));
    assert!(relay.pending_compact_blocks.is_empty());
    // a duplicate answer is ignored
    assert!(relay.on_block_transactions(&response, &pool, &orphan).is_none());
}

#[test]
fn reconstruct_reports_every_missing_position() {
    let header = header(1);
    let ids = vec![10, 11, 12, 13];
    let candidates = vec![tx(1), tx(2)];
    let candidate_ids = vec![12, 10];
    match reconstruct_with_ids(&header, &ids, &vec![], &candidates, &candidate_ids) {
        Err(missing) => assert_eq!(missing, vec![1, 3]),
        Ok(_) => panic!("should miss"),
    }
}

#[test]
fn reconstruct_with_ids_picks_matching_candidates() {
    let header = header(2);
    let ids = vec![7, 5];
    let candidates = vec![tx(1), tx(2), tx(3)];
    let candidate_ids = vec![5, 6, 7];
    let b = reconstruct_with_ids(&header, &ids, &vec![header], &candidates, &candidate_ids)
        .unwrap();
    assert_eq!(hashes(&b.transactions), vec![Byte32::from_u64(3), Byte32::from_u64(1)]);
    assert_eq!(b.uncles, vec![header]);
}

#[test]
fn repeated_short_id_is_filled_once() {
    let header = header(3);
    let ids = vec![5, 5];
    let candidates = vec![tx(1)];
    let candidate_ids = vec![5];
    match reconstruct_with_ids(&header, &ids, &vec![], &candidates, &candidate_ids) {
        Err(missing) => assert_eq!(missing, vec![1]),
        Ok(_) => panic!("second position has no candidate left"),
    }
}

#[test]
fn reconstruct_block_uses_carried_transactions() {
    let txs = vec![tx(8), tx(9)];
    let cb = compact_of(header(4), 3, &txs);
    let b = reconstruct_block(&cb, &vec![tx(9)], &vec![tx(8)], &vec![]).unwrap();
    assert_eq!(hashes(&b.transactions), hashes(&txs));
    let missing = reconstruct_block(&cb, &vec![], &vec![tx(8)], &vec![]).unwrap_err();
    assert_eq!(missing, vec![1]);
}

#[test]
fn duplicate_transaction_not_relayed_twice() {
    let mut relay = RelayProtocol::new();
    let h = Byte32::from_u64(77);
    assert!(relay.on_transaction(h));
    assert!(!relay.on_transaction(h));
    assert!(relay.on_block(h));
    assert!(!relay.on_block(h));
}

#[test]
fn received_set_is_bounded() {
    let mut set = ReceivedSet::new(2);
    assert!(set.insert(Byte32::from_u64(1)));
    assert!(set.insert(Byte32::from_u64(2)));
    assert!(set.insert(Byte32::from_u64(3)));
    assert_eq!(set.entries, vec![Byte32::from_u64(2), Byte32::from_u64(3)]);
    assert!(!set.contains(&Byte32::from_u64(1)));
    assert!(!set.insert(Byte32::from_u64(3)));
}

#[test]
fn relay_skips_source() {
    assert_eq!(relay_targets(&vec![0, 1, 2, 3], 2), vec![0, 1, 3]);
    let relay = RelayProtocol::new();
    assert_eq!(relay.relay(&vec![5, 6], 9), vec![5, 6]);
}

#[test]
fn block_transactions_request_skips_out_of_range() {
    let block = Block { header: header(1), transactions: vec![tx(1), tx(2)], uncles: vec![] };
    let req = BlockTransactionsRequest { hash: header(1).hash, indexes: vec![1, 5, 0] };
    let resp = respond_block_transactions(&block, &req);
    assert_eq!(resp.hash, header(1).hash);
    assert_eq!(hashes(&resp.transactions), vec![Byte32::from_u64(2), Byte32::from_u64(1)]);
}

#[test]
fn parked_compact_block_expires() {
    let txs = vec![tx(1), tx(2)];
    let mut relay = RelayProtocol::new();
    let first = compact_of(header(7), 1, &txs);
    let second = compact_of(header(8), 1, &txs);
    assert!(matches!(
        relay.on_compact_block(first, 100, &vec![], &vec![]),
        CompactOutcome::Requested(_)
    ));
    assert!(matches!(
        relay.on_compact_block(second, 5_000, &vec![], &vec![]),
        CompactOutcome::Requested(_)
    ));
    relay.expire_pending(100 + PENDING_COMPACT_BLOCK_TTL);
    assert_eq!(relay.pending_compact_blocks.len(), 2);
    relay.expire_pending(101 + PENDING_COMPACT_BLOCK_TTL);
    assert_eq!(relay.pending_compact_blocks.len(), 1);
    assert_eq!(relay.pending_compact_blocks[0].0, header(8).hash);
    assert_eq!(relay.pending_compact_blocks[0].2, 5_000);
    let response = BlockTransactions { hash: header(7).hash, transactions: txs.clone() };
    assert!(relay.on_block_transactions(&response, &vec![], &vec![]).is_none());
}

#[test]
fn prefilled_transactions_fill_positions() {
    let txs = vec![tx(1), tx(2), tx(3)];
    let mut cb = compact_of(header(9), 5, &txs);
    cb.prefilled = vec![PrefilledTransaction { index: 1, transaction: tx(2) }];
    let mut relay = RelayProtocol::new();
    match relay.on_compact_block(cb, 0, &vec![tx(1)], &vec![tx(3)]) {
        CompactOutcome::Reconstructed(b) => assert_eq!(hashes(&b.transactions), hashes(&txs)),
        other => panic!("unexpected {:?}", other),
    }
}

#[test]
fn empty_compact_block_rebuilds_empty_block() {
    let cb = compact_of(header(11), 0, &[]);
    let b = reconstruct_block(&cb, &vec![], &vec![], &vec![]).unwrap();
    assert_eq!(b.header, header(11));
    assert!(b.transactions.is_empty());
}

#[test]
fn pending_compact_blocks_are_bounded() {
    let mut relay = RelayProtocol::new();
    for n in 0..(MAX_PENDING_COMPACT_BLOCKS as u64 + 1) {
        let cb = compact_of(header(100 + n), 0, &[tx(n)]);
        assert!(matches!(
            relay.on_compact_block(cb, 0, &vec![], &vec![]),
            CompactOutcome::Requested(_)
        ));
    }
    assert_eq!(relay.pending_compact_blocks.len(), MAX_PENDING_COMPACT_BLOCKS);
    assert_eq!(relay.pending_compact_blocks[0].0, header(101).hash);
}

#[test]
fn colliding_short_id_is_missing() {
    let header = header(12);
    let ids = vec![5, 6];
    let candidates = vec![tx(1), tx(2), tx(3)];
    // tx(1) and tx(3) share id 5 with different hashes
    let candidate_ids = vec![5, 6, 5];
    match reconstruct_with_ids(&header, &ids, &vec![], &candidates, &candidate_ids) {
        Err(missing) => assert_eq!(missing, vec![0]),
        Ok(_) => panic!("a collision must not yield a block"),
    }
    // the same transaction seen twice is no collision
    let candidates = vec![tx(1), tx(2), tx(1)];
    let b = reconstruct_with_ids(&header, &ids, &vec![], &candidates, &candidate_ids).unwrap();
    assert_eq!(hashes(&b.transactions), vec![Byte32::from_u64(1), Byte32::from_u64(2)]);
}

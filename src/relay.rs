use vstd::prelude::*;
use crate::types::{tx_models, Block, Byte32, PeerId, Transaction};
use crate::compact::{
    all_resolved, ambiguous_ids, candidate_short_ids, prefilled_models, index_by_id, missing_upto, reconstruct_block, reconstructs,
    short_id_keys, CompactBlock,
};

verus! {

/// How many hashes each received-set remembers.
pub const MAX_RECEIVED_ITEMS: usize = 65536;

/// How many compact blocks may wait for their missing transactions.
pub const MAX_PENDING_COMPACT_BLOCKS: usize = 256;

/// How long (ms) a compact block may wait for its missing transactions.
pub const PENDING_COMPACT_BLOCK_TTL: u64 = 60_000;

/// The state of a received-set after `h` is offered to it, and whether `h`
/// was new. New hashes are appended; past `cap` the oldest is forgotten.
pub open spec fn received_insert(s: Seq<Byte32>, cap: nat, h: Byte32) -> (Seq<Byte32>, bool) {
    if s.contains(h) {
        (s, false)
    } else {
        let t = s.push(h);
        if t.len() > cap {
            (t.subrange(1, t.len() as int), true)
        } else {
            (t, true)
        }
    }
}

/// A bounded set of recently seen hashes, oldest first.
pub struct ReceivedSet {
    pub entries: Vec<Byte32>,
    pub capacity: usize,
}

impl ReceivedSet {
    pub open spec fn wf(&self) -> bool {
        &&& 0 < self.capacity
        &&& self.entries@.len() <= self.capacity
        &&& self.entries@.no_duplicates()
    }

    pub fn new(capacity: usize) -> (r: ReceivedSet)
        requires
            capacity > 0,
        ensures
            r.wf(),
            r.entries@.len() == 0,
            r.capacity == capacity,
    {
        ReceivedSet { entries: Vec::new(), capacity }
    }

    pub fn contains(&self, h: &Byte32) -> (r: bool)
        ensures
            r == self.entries@.contains(*h),
    {
        let mut i: usize = 0;
        while i < self.entries.len()
            invariant
                i <= self.entries@.len(),
                forall|k: int| 0 <= k < i ==> self.entries@[k] != *h,
            decreases self.entries@.len() - i,
        {
            if self.entries[i] == *h {
                return true;
            }
            i = i + 1;
        }
        false
    }

    /// Offers `h`; true when it had not been seen.
    pub fn insert(&mut self, h: Byte32) -> (r: bool)
        requires
            old(self).wf(),
        ensures
            final(self).wf(),
            final(self).capacity == old(self).capacity,
            (final(self).entries@, r) == received_insert(
                old(self).entries@,
                old(self).capacity as nat,
                h,
            ),
    {
        if self.contains(&h) {
            return false;
        }
        let ghost t = self.entries@.push(h);
        self.entries.push(h);
        if self.entries.len() > self.capacity {
            self.entries.remove(0);
            assert(self.entries@ =~= t.subrange(1, t.len() as int));
        }
        true
    }
}

/// Asks a peer for the transactions of a compact block that could not be
/// filled locally.
#[derive(Clone, Debug)]
pub struct BlockTransactionsRequest {
    pub hash: Byte32,
    pub indexes: Vec<u32>,
}

/// Answer to a `BlockTransactionsRequest`.
#[derive(Clone, Debug)]
pub struct BlockTransactions {
    pub hash: Byte32,
    pub transactions: Vec<Transaction>,
}

/// What happens to a received compact block.
#[derive(Debug)]
pub enum CompactOutcome {
    /// Already seen: nothing to do.
    Duplicate,
    /// Rebuilt: hand the block to the chain and relay the compact block.
    Reconstructed(Block),
    /// Parked: send this request back to the peer.
    Requested(BlockTransactionsRequest),
}

/// The positions of a request, as they travel on the wire.
pub open spec fn wire_indexes(missing: Seq<usize>) -> Seq<u32> {
    missing.map_values(|v: usize| v as u32)
}

/// The candidates `cb` is rebuilt from: the transactions it carries, those
/// sent on request, then the main pool, then the orphan pool.
pub open spec fn candidates_of(
    cb: CompactBlock,
    sent: Seq<Transaction>,
    pool: Seq<Transaction>,
    orphan: Seq<Transaction>,
) -> Seq<(Byte32, Seq<u8>)> {
    prefilled_models(cb.prefilled@) + tx_models(sent) + tx_models(pool) + tx_models(orphan)
}

/// Whether `r` is what rebuilding `cb` from `cands` gives.
pub open spec fn rebuilt(cb: CompactBlock, cands: Seq<(Byte32, Seq<u8>)>, r: Result<Block, Vec<usize>>) -> bool {
    reconstructs(
        cb.header,
        cb.short_ids@,
        cb.uncles@,
        cands,
        candidate_short_ids(short_id_keys(cb.header.hash, cb.nonce), cands),
        r,
    )
}

/// The keys of the parked compact blocks.
pub open spec fn pending_keys(s: Seq<(Byte32, CompactBlock, u64)>) -> Seq<Byte32> {
    s.map_values(|e: (Byte32, CompactBlock, u64)| e.0)
}

/// The transactions of `txs` at the requested positions, in request order,
/// skipping positions out of range.
pub open spec fn pick(txs: Seq<Transaction>, indexes: Seq<u32>) -> Seq<(Byte32, Seq<u8>)>
    decreases indexes.len(),
{
    if indexes.len() == 0 {
        Seq::empty()
    } else {
        let rest = pick(txs, indexes.drop_last());
        let i = indexes.last() as int;
        if i < txs.len() {
            rest.push(txs[i].model())
        } else {
            rest
        }
    }
}

/// Dedup state of the relay protocol, and the compact blocks waiting for
/// transactions, each with its hash and the time it was parked.
pub struct RelayProtocol {
    pub received_blocks: ReceivedSet,
    pub received_transactions: ReceivedSet,
    pub pending_compact_blocks: Vec<(Byte32, CompactBlock, u64)>,
}

impl RelayProtocol {
    pub open spec fn wf(&self) -> bool {
        &&& self.received_blocks.wf()
        &&& self.received_transactions.wf()
        &&& self.pending_compact_blocks@.len() <= MAX_PENDING_COMPACT_BLOCKS
        &&& pending_keys(self.pending_compact_blocks@).no_duplicates()
    }

    pub fn new() -> (r: RelayProtocol)
        ensures
            r.wf(),
            r.received_blocks.entries@.len() == 0,
            r.received_transactions.entries@.len() == 0,
            r.pending_compact_blocks@.len() == 0,
            r.received_blocks.capacity == MAX_RECEIVED_ITEMS,
            r.received_transactions.capacity == MAX_RECEIVED_ITEMS,
    {
        let r = RelayProtocol {
            received_blocks: ReceivedSet::new(MAX_RECEIVED_ITEMS),
            received_transactions: ReceivedSet::new(MAX_RECEIVED_ITEMS),
            pending_compact_blocks: Vec::new(),
        };
        assert(pending_keys(r.pending_compact_blocks@) =~= Seq::empty());
        r
    }

    /// A transaction arrived: true when it is new, and is then to be offered
    /// to the pool and relayed.
    pub fn on_transaction(&mut self, hash: Byte32) -> (r: bool)
        requires
            old(self).wf(),
        ensures
            final(self).wf(),
            final(self).received_blocks == old(self).received_blocks,
            final(self).pending_compact_blocks@ == old(self).pending_compact_blocks@,
            final(self).received_transactions.capacity == old(self).received_transactions.capacity,
            (final(self).received_transactions.entries@, r) == received_insert(
                old(self).received_transactions.entries@,
                old(self).received_transactions.capacity as nat,
                hash,
            ),
    {
        self.received_transactions.insert(hash)
    }

    /// A full block arrived: true when it is new, and is then to be handed to
    /// the chain and relayed.
    pub fn on_block(&mut self, hash: Byte32) -> (r: bool)
        requires
            old(self).wf(),
        ensures
            final(self).wf(),
            final(self).received_transactions == old(self).received_transactions,
            final(self).pending_compact_blocks@ == old(self).pending_compact_blocks@,
            final(self).received_blocks.capacity == old(self).received_blocks.capacity,
            (final(self).received_blocks.entries@, r) == received_insert(
                old(self).received_blocks.entries@,
                old(self).received_blocks.capacity as nat,
                hash,
            ),
    {
        self.received_blocks.insert(hash)
    }

    /// The index of the parked compact block with hash `hash`.
    fn find_pending(&self, hash: &Byte32) -> (r: Option<usize>)
        ensures
            match r {
                Some(i) => i < self.pending_compact_blocks@.len()
                    && self.pending_compact_blocks@[i as int].0 == *hash,
                None => !pending_keys(self.pending_compact_blocks@).contains(*hash),
            },
    {
        let mut i: usize = 0;
        while i < self.pending_compact_blocks.len()
            invariant
                i <= self.pending_compact_blocks@.len(),
                forall|k: int| 0 <= k < i ==> self.pending_compact_blocks@[k].0 != *hash,
            decreases self.pending_compact_blocks@.len() - i,
        {
            if self.pending_compact_blocks[i].0 == *hash {
                return Some(i);
            }
            i = i + 1;
        }
        None
    }
}


/// Keeps at most `MAX_PENDING_COMPACT_BLOCKS` parked blocks, dropping the
/// oldest.
pub open spec fn trim_pending(t: Seq<(Byte32, CompactBlock, u64)>) -> Seq<(Byte32, CompactBlock, u64)> {
    if t.len() > MAX_PENDING_COMPACT_BLOCKS {
        t.subrange(1, t.len() as int)
    } else {
        t
    }
}

/// The short-id index of the candidates for `cb`.
pub open spec fn compact_index(cb: CompactBlock, cands: Seq<(Byte32, Seq<u8>)>) -> Map<u64, usize> {
    index_by_id(candidate_short_ids(short_id_keys(cb.header.hash, cb.nonce), cands))
}

/// The short ids of `cb`'s candidates that collide.
pub open spec fn compact_ambiguous(cb: CompactBlock, cands: Seq<(Byte32, Seq<u8>)>) -> Set<u64> {
    ambiguous_ids(cands, candidate_short_ids(short_id_keys(cb.header.hash, cb.nonce), cands))
}

/// Whether every short id of `cb` resolves among the candidates.
pub open spec fn compact_resolves(cb: CompactBlock, cands: Seq<(Byte32, Seq<u8>)>) -> bool {
    all_resolved(compact_index(cb, cands), compact_ambiguous(cb, cands), cb.short_ids@)
}

/// The positions of `cb` that do not resolve among the candidates.
pub open spec fn compact_missing(cb: CompactBlock, cands: Seq<(Byte32, Seq<u8>)>) -> Seq<usize> {
    missing_upto(
        compact_index(cb, cands),
        compact_ambiguous(cb, cands),
        cb.short_ids@,
        cb.short_ids@.len() as int,
    )
}

/// The peers other than `source`, in order.
pub open spec fn others(peers: Seq<PeerId>, source: PeerId) -> Seq<PeerId>
    decreases peers.len(),
{
    if peers.len() == 0 {
        Seq::empty()
    } else if peers.last() == source {
        others(peers.drop_last(), source)
    } else {
        others(peers.drop_last(), source).push(peers.last())
    }
}

/// The peers a message from `source` is relayed to: every peer with a
/// session but the source.
pub fn relay_targets(peers: &Vec<PeerId>, source: PeerId) -> (r: Vec<PeerId>)
    ensures
        r@ == others(peers@, source),
{
    let mut r: Vec<PeerId> = Vec::new();
    let mut i: usize = 0;
    while i < peers.len()
        invariant
            i <= peers@.len(),
            r@ == others(peers@.subrange(0, i as int), source),
        decreases peers@.len() - i,
    {
        assert(peers@.subrange(0, i + 1).drop_last() =~= peers@.subrange(0, i as int));
        if peers[i] != source {
            r.push(peers[i]);
        }
        i = i + 1;
    }
    assert(peers@.subrange(0, peers@.len() as int) =~= peers@);
    r
}

/// Answers a request for some transactions of `block`: those at the requested
/// positions, in request order; positions out of range are skipped.
pub fn respond_block_transactions(block: &Block, request: &BlockTransactionsRequest) -> (r:
    BlockTransactions)
    ensures
        r.hash == request.hash,
        tx_models(r.transactions@) == pick(block.transactions@, request.indexes@),
{
    let mut txs: Vec<Transaction> = Vec::new();
    let mut i: usize = 0;
    while i < request.indexes.len()
        invariant
            i <= request.indexes@.len(),
            tx_models(txs@) == pick(block.transactions@, request.indexes@.subrange(0, i as int)),
        decreases request.indexes@.len() - i,
    {
        assert(request.indexes@.subrange(0, i + 1).drop_last() =~= request.indexes@.subrange(
            0,
            i as int,
        ));
        let k = request.indexes[i] as usize;
        if k < block.transactions.len() {
            let ghost before = txs@;
            txs.push(block.transactions[k].clone());
            assert(tx_models(txs@) =~= tx_models(before).push(block.transactions@[k as int].model()));
        }
        i = i + 1;
    }
    assert(request.indexes@.subrange(0, request.indexes@.len() as int) =~= request.indexes@);
    BlockTransactions { hash: request.hash, transactions: txs }
}

/// The request positions as they go on the wire.
fn to_wire(missing: &Vec<usize>) -> (r: Vec<u32>)
    ensures
        r@ == wire_indexes(missing@),
{
    let mut r: Vec<u32> = Vec::new();
    let mut i: usize = 0;
    while i < missing.len()
        invariant
            i <= missing@.len(),
            r@ == wire_indexes(missing@.subrange(0, i as int)),
        decreases missing@.len() - i,
    {
        #[verifier::truncate]
        let v = missing[i] as u32;
        r.push(v);
        assert(wire_indexes(missing@.subrange(0, i + 1)) =~= wire_indexes(
            missing@.subrange(0, i as int),
        ).push(v));
        i = i + 1;
    }
    assert(missing@.subrange(0, missing@.len() as int) =~= missing@);
    r
}

impl RelayProtocol {
    /// Parks a compact block under `hash`, replacing one parked under the same
    /// hash, and forgetting the oldest when over the bound.
    fn park(&mut self, hash: Byte32, cb: CompactBlock, now: u64)
        requires
            old(self).wf(),
        ensures
            final(self).wf(),
            final(self).received_blocks == old(self).received_blocks,
            final(self).received_transactions == old(self).received_transactions,
            !pending_keys(old(self).pending_compact_blocks@).contains(hash)
                ==> final(self).pending_compact_blocks@ == trim_pending(
                old(self).pending_compact_blocks@.push((hash, cb, now)),
            ),
            forall|i: int|
                0 <= i < old(self).pending_compact_blocks@.len() && (#[trigger] old(
                    self,
                ).pending_compact_blocks@[i]).0 == hash ==> final(self).pending_compact_blocks@
                    == trim_pending(old(self).pending_compact_blocks@.remove(i).push((hash, cb, now))),
    {
        let ghost s0 = self.pending_compact_blocks@;
        let found = self.find_pending(&hash);
        match found {
            Some(i) => {
                self.pending_compact_blocks.remove(i);
                assert(pending_keys(self.pending_compact_blocks@) =~= pending_keys(s0).remove(
                    i as int,
                ));
                proof {
                    assert forall|a: int, b: int|
                        0 <= a < b < self.pending_compact_blocks@.len() implies pending_keys(
                        self.pending_compact_blocks@,
                    )[a] != pending_keys(self.pending_compact_blocks@)[b] by {
                        let ka = if a < i { a } else { a + 1 };
                        let kb = if b < i { b } else { b + 1 };
                        assert(pending_keys(s0)[ka] != pending_keys(s0)[kb]);
                    }
                    assert forall|a: int|
                        0 <= a < self.pending_compact_blocks@.len() implies pending_keys(
                        self.pending_compact_blocks@,
                    )[a] != hash by {
                        let ka = if a < i { a } else { a + 1 };
                        assert(pending_keys(s0)[ka] != pending_keys(s0)[i as int]);
                    }
                }
            },
            None => {},
        }
        let ghost s1 = self.pending_compact_blocks@;
        proof {
            assert forall|j: int|
                0 <= j < s0.len() && (#[trigger] s0[j]).0 == hash implies s1 == s0.remove(j) by {
                assert(pending_keys(s0)[j] == hash);
                match found {
                    Some(i) => {
                        assert(pending_keys(s0)[i as int] == hash);
                    },
                    None => {},
                }
            }
            if !pending_keys(s0).contains(hash) {
                match found {
                    Some(i) => {
                        assert(pending_keys(s0)[i as int] == hash);
                    },
                    None => {},
                }
            }
        }
        assert(!pending_keys(s1).contains(hash));
        let ghost entry = (hash, cb, now);
        self.pending_compact_blocks.push((hash, cb, now));
        assert(self.pending_compact_blocks@ == s1.push(entry));
        assert(pending_keys(self.pending_compact_blocks@) =~= pending_keys(s1).push(hash));
        if self.pending_compact_blocks.len() > MAX_PENDING_COMPACT_BLOCKS {
            let ghost t = self.pending_compact_blocks@;
            self.pending_compact_blocks.remove(0);
            assert(self.pending_compact_blocks@ =~= t.subrange(1, t.len() as int));
            assert(self.pending_compact_blocks@ == trim_pending(s1.push(entry)));
            assert(pending_keys(self.pending_compact_blocks@) =~= pending_keys(t).subrange(
                1,
                t.len() as int,
            ));
        }
    }
}


impl RelayProtocol {
    /// The peers a message from `source` is forwarded to, out of those with a
    /// live session: all but the source.
    pub fn relay(&self, peers_with_session: &Vec<PeerId>, source: PeerId) -> (r: Vec<PeerId>)
        ensures
            r@ == others(peers_with_session@, source),
    {
        relay_targets(peers_with_session, source)
    }

    /// A compact block arrived at time `now`. A new one is rebuilt from the
    /// main and orphan pools; if some transactions are missing it is parked,
    /// stamped with `now`, and a request for exactly those positions is
    /// returned.
    pub fn on_compact_block(
        &mut self,
        compact_block: CompactBlock,
        now: u64,
        pool: &Vec<Transaction>,
        orphan: &Vec<Transaction>,
    ) -> (r: CompactOutcome)
        requires
            old(self).wf(),
        ensures
            final(self).wf(),
            final(self).received_transactions == old(self).received_transactions,
            final(self).received_blocks.capacity == old(self).received_blocks.capacity,
            ({
                let hash = compact_block.header.hash;
                let cands = candidates_of(compact_block, Seq::empty(), pool@, orphan@);
                let (seen, new) = received_insert(
                    old(self).received_blocks.entries@,
                    old(self).received_blocks.capacity as nat,
                    hash,
                );
                &&& final(self).received_blocks.entries@ == seen
                &&& (r is Duplicate) == !new
                &&& (r is Reconstructed) == (new && compact_resolves(compact_block, cands))
                &&& (r is Requested) == (new && !compact_resolves(compact_block, cands))
                &&& !(r is Requested) ==> final(self).pending_compact_blocks@ == old(
                    self,
                ).pending_compact_blocks@
                &&& match r {
                    CompactOutcome::Reconstructed(b) => rebuilt(compact_block, cands, Ok(b)),
                    CompactOutcome::Requested(req) => {
                        &&& req.hash == hash
                        &&& req.indexes@ == wire_indexes(compact_missing(compact_block, cands))
                        &&& !pending_keys(old(self).pending_compact_blocks@).contains(hash)
                            ==> final(self).pending_compact_blocks@ == trim_pending(
                            old(self).pending_compact_blocks@.push((hash, compact_block, now)),
                        )
                        &&& forall|i: int|
                            0 <= i < old(self).pending_compact_blocks@.len() && (#[trigger] old(
                                self,
                            ).pending_compact_blocks@[i]).0 == hash
                                ==> final(self).pending_compact_blocks@ == trim_pending(
                                old(self).pending_compact_blocks@.remove(i).push(
                                    (hash, compact_block, now),
                                ),
                            )
                    },
                    CompactOutcome::Duplicate => true,
                }
            }),
    {
        let hash = compact_block.header.hash;
        if !self.received_blocks.insert(hash) {
            return CompactOutcome::Duplicate;
        }
        let sent: Vec<Transaction> = Vec::new();
        let result = reconstruct_block(&compact_block, &sent, pool, orphan);
        assert(tx_models(sent@) =~= Seq::empty());
        match result {
            Ok(block) => CompactOutcome::Reconstructed(block),
            Err(missing) => {
                let indexes = to_wire(&missing);
                self.park(hash, compact_block, now);
                CompactOutcome::Requested(BlockTransactionsRequest { hash, indexes })
            },
        }
    }

    /// The transactions asked for a parked compact block arrived. The parked
    /// block is taken out and rebuilt from them and the pools; the block comes
    /// back when that succeeds. An answer for a hash not parked is ignored.
    pub fn on_block_transactions(
        &mut self,
        response: &BlockTransactions,
        pool: &Vec<Transaction>,
        orphan: &Vec<Transaction>,
    ) -> (r: Option<Block>)
        requires
            old(self).wf(),
        ensures
            final(self).wf(),
            final(self).received_blocks == old(self).received_blocks,
            final(self).received_transactions == old(self).received_transactions,
            !pending_keys(old(self).pending_compact_blocks@).contains(response.hash) ==> {
                &&& r is None
                &&& final(self).pending_compact_blocks@ == old(self).pending_compact_blocks@
            },
            forall|i: int|
                0 <= i < old(self).pending_compact_blocks@.len() && (#[trigger] old(
                    self,
                ).pending_compact_blocks@[i]).0 == response.hash ==> {
                    let cb = old(self).pending_compact_blocks@[i].1;
                    let cands = candidates_of(cb, response.transactions@, pool@, orphan@);
                    &&& final(self).pending_compact_blocks@ == old(
                        self,
                    ).pending_compact_blocks@.remove(i)
                    &&& (r is Some) == compact_resolves(cb, cands)
                    &&& r matches Some(b) ==> rebuilt(cb, cands, Ok(b))
                },
    {
        let ghost s0 = self.pending_compact_blocks@;
        match self.find_pending(&response.hash) {
            None => {
                assert(forall|j: int|
                    0 <= j < s0.len() ==> pending_keys(s0)[j] == (#[trigger] s0[j]).0);
                None
            },
            Some(i) => {
                let (_, cb, _) = self.pending_compact_blocks.remove(i);
                proof {
                    assert(pending_keys(self.pending_compact_blocks@) =~= pending_keys(s0).remove(
                        i as int,
                    ));
                    assert forall|a: int, b: int|
                        0 <= a < b < self.pending_compact_blocks@.len() implies pending_keys(
                        self.pending_compact_blocks@,
                    )[a] != pending_keys(self.pending_compact_blocks@)[b] by {
                        let ka = if a < i { a } else { a + 1 };
                        let kb = if b < i { b } else { b + 1 };
                        assert(pending_keys(s0)[ka] != pending_keys(s0)[kb]);
                    }
                    assert(pending_keys(s0)[i as int] == response.hash);
                    assert forall|j: int|
                        0 <= j < s0.len() && (#[trigger] s0[j]).0 == response.hash implies j
                        == i by {
                        assert(pending_keys(s0)[j] == pending_keys(s0)[i as int]);
                    }
                }
                let result = reconstruct_block(&cb, &response.transactions, pool, orphan);
                assert(cb == s0[i as int].1);
                match result {
                    Ok(block) => Some(block),
                    Err(_) => None,
                }
            },
        }
    }
}


/// Offering the same hash twice in a row: the second offer reports it as
/// already seen and leaves the set unchanged, so nothing is admitted or
/// relayed twice.
pub proof fn lemma_received_idempotent(s: Seq<Byte32>, cap: nat, h: Byte32)
    requires
        cap > 0,
    ensures
        ({
            let (s1, _) = received_insert(s, cap, h);
            let (s2, again) = received_insert(s1, cap, h);
            &&& !again
            &&& s2 == s1
        }),
{
    let (s1, _) = received_insert(s, cap, h);
    if !s.contains(h) {
        let t = s.push(h);
        assert(t[t.len() - 1] == h);
        if t.len() > cap {
            assert(s1[s1.len() - 1] == h);
        }
        assert(s1.contains(h));
    }
}


/// Whether a block parked at `parked_at` has waited too long at `now`.
pub open spec fn expired(parked_at: u64, now: u64) -> bool {
    now > parked_at && now - parked_at > PENDING_COMPACT_BLOCK_TTL
}

/// The parked blocks that have not waited too long at `now`, in order.
pub open spec fn fresh(s: Seq<(Byte32, CompactBlock, u64)>, now: u64) -> Seq<
    (Byte32, CompactBlock, u64),
>
    decreases s.len(),
{
    if s.len() == 0 {
        Seq::empty()
    } else if expired(s.last().2, now) {
        fresh(s.drop_last(), now)
    } else {
        fresh(s.drop_last(), now).push(s.last())
    }
}

proof fn lemma_fresh_keeps_keys_distinct(s: Seq<(Byte32, CompactBlock, u64)>, now: u64)
    requires
        pending_keys(s).no_duplicates(),
    ensures
        pending_keys(fresh(s, now)).no_duplicates(),
        fresh(s, now).len() <= s.len(),
        forall|h: Byte32| #[trigger]
            pending_keys(fresh(s, now)).contains(h) ==> pending_keys(s).contains(h),
    decreases s.len(),
{
    if s.len() > 0 {
        let t = s.drop_last();
        assert(pending_keys(t) =~= pending_keys(s).drop_last());
        assert forall|a: int, b: int|
            0 <= a < b < pending_keys(t).len() implies pending_keys(t)[a] != pending_keys(t)[b] by {
            assert(pending_keys(s)[a] != pending_keys(s)[b]);
        }
        lemma_fresh_keeps_keys_distinct(t, now);
        let f = fresh(t, now);
        assert forall|h: Byte32| #[trigger]
            pending_keys(fresh(s, now)).contains(h) implies pending_keys(s).contains(h) by {
            if pending_keys(f).contains(h) {
                let w = choose|w: int| 0 <= w < pending_keys(t).len() && pending_keys(t)[w] == h;
                assert(pending_keys(s)[w] == h);
            } else {
                assert(pending_keys(s)[s.len() - 1] == h) by {
                    if !expired(s.last().2, now) {
                        assert(pending_keys(fresh(s, now)) =~= pending_keys(f).push(s.last().0));
                        let w = choose|w: int|
                            0 <= w < pending_keys(fresh(s, now)).len() && pending_keys(
                                fresh(s, now),
                            )[w] == h;
                        if w < pending_keys(f).len() {
                            assert(pending_keys(f)[w] == h);
                        }
                    }
                }
            }
        }
        if !expired(s.last().2, now) {
            let last = s.last().0;
            assert(!pending_keys(t).contains(last)) by {
                if pending_keys(t).contains(last) {
                    let w = choose|w: int| 0 <= w < pending_keys(t).len() && pending_keys(t)[w] == last;
                    assert(pending_keys(s)[w] == pending_keys(s)[s.len() - 1]);
                }
            }
            assert(!pending_keys(f).contains(last));
            assert(pending_keys(fresh(s, now)) =~= pending_keys(f).push(last));
            assert forall|a: int, b: int|
                0 <= a < b < pending_keys(fresh(s, now)).len() implies pending_keys(
                fresh(s, now),
            )[a] != pending_keys(fresh(s, now))[b] by {
                if b == pending_keys(f).len() {
                    assert(pending_keys(f)[a] != last);
                } else {
                    assert(pending_keys(f)[a] != pending_keys(f)[b]);
                }
            }
        }
    }
}

impl RelayProtocol {
    /// Drops the parked compact blocks that have waited longer than
    /// `PENDING_COMPACT_BLOCK_TTL` at `now`, keeping the others in order.
    pub fn expire_pending(&mut self, now: u64)
        requires
            old(self).wf(),
        ensures
            final(self).wf(),
            final(self).received_blocks == old(self).received_blocks,
            final(self).received_transactions == old(self).received_transactions,
            final(self).pending_compact_blocks@ == fresh(old(self).pending_compact_blocks@, now),
    {
        let ghost s0 = self.pending_compact_blocks@;
        let ghost mut k: int = 0;
        let mut i: usize = 0;
        while i < self.pending_compact_blocks.len()
            invariant
                0 <= k <= s0.len(),
                i == fresh(s0.subrange(0, k), now).len(),
                self.pending_compact_blocks@ == fresh(s0.subrange(0, k), now) + s0.subrange(
                    k,
                    s0.len() as int,
                ),
                self.received_blocks == old(self).received_blocks,
                self.received_transactions == old(self).received_transactions,
            decreases s0.len() - k,
        {
            let ghost cur = self.pending_compact_blocks@;
            assert(cur[i as int] == s0[k]);
            assert(s0.subrange(0, k + 1).drop_last() =~= s0.subrange(0, k));
            let parked_at = self.pending_compact_blocks[i].2;
            if now > parked_at && now - parked_at > PENDING_COMPACT_BLOCK_TTL {
                self.pending_compact_blocks.remove(i);
                assert(self.pending_compact_blocks@ =~= fresh(s0.subrange(0, k + 1), now)
                    + s0.subrange(k + 1, s0.len() as int));
            } else {
                assert(self.pending_compact_blocks@ =~= fresh(s0.subrange(0, k + 1), now)
                    + s0.subrange(k + 1, s0.len() as int));
                i = i + 1;
            }
            proof {
                k = k + 1;
            }
        }
        assert(s0.subrange(0, k) =~= s0);
        assert(self.pending_compact_blocks@ =~= fresh(s0, now));
        proof {
            lemma_fresh_keeps_keys_distinct(s0, now);
        }
    }
}

} // verus!

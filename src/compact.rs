use vstd::prelude::*;
use vstd::bytes::{spec_u64_from_le_bytes, spec_u64_to_le_bytes, u64_from_le_bytes, u64_to_le_bytes};
use vstd::slice::slice_subrange;
use std::collections::{HashMap, HashSet};
use crate::types::{tx_models, Block, Byte32, Header, Transaction};

verus! {

broadcast use vstd::std_specs::hash::group_hash_axioms;

/// Short ids keep the low 48 bits of the keyed hash.
pub const SHORT_ID_MASK: u64 = 0xffff_ffff_ffff;

/// A transaction carried in full inside a compact block, with the position
/// its sender gives it in the block.
#[derive(Clone, Debug)]
pub struct PrefilledTransaction {
    pub index: u32,
    pub transaction: Transaction,
}

/// The models of the carried transactions.
pub open spec fn prefilled_models(s: Seq<PrefilledTransaction>) -> Seq<(Byte32, Seq<u8>)> {
    s.map_values(|p: PrefilledTransaction| p.transaction.model())
}

/// A block announced by header and short transaction ids, with the
/// transactions its sender expects us to lack carried in full. Carried
/// transactions take part in reconstruction as candidates, like those of the
/// pools.
#[derive(Clone, Debug)]
pub struct CompactBlock {
    pub header: Header,
    pub nonce: u64,
    pub short_ids: Vec<u64>,
    pub prefilled: Vec<PrefilledTransaction>,
    pub uncles: Vec<Header>,
}

/// SipHash-2-4 of `data` under the keys `k0`, `k1`.
pub uninterp spec fn siphash24_of(k0: u64, k1: u64, data: Seq<u8>) -> u64;

/// SHA-256 digest of `data`.
pub uninterp spec fn sha256_of(data: Seq<u8>) -> Seq<u8>;

/// Relies on `siphasher::sip::SipHasher24::new_with_keys` and its `hash`:
/// SipHash-2-4 of the bytes, a function of the keys and the bytes alone.
#[verifier::external_body]
fn siphash24(k0: u64, k1: u64, data: &[u8]) -> (r: u64)
    ensures
        r == siphash24_of(k0, k1, data@),
{
    siphasher::sip::SipHasher24::new_with_keys(k0, k1).hash(data)
}

/// Relies on `sha2::Sha256::digest`: the 32-byte SHA-256 digest of the bytes.
#[verifier::external_body]
fn sha256(data: &[u8]) -> (r: Vec<u8>)
    ensures
        r@ == sha256_of(data@),
        r@.len() == 32,
{
    <sha2::Sha256 as sha2::Digest>::digest(data).to_vec()
}

/// The 32 bytes of a hash, word by word, little-endian.
pub open spec fn hash_bytes(h: Byte32) -> Seq<u8> {
    spec_u64_to_le_bytes(h.w0) + spec_u64_to_le_bytes(h.w1) + spec_u64_to_le_bytes(h.w2)
        + spec_u64_to_le_bytes(h.w3)
}

/// The bytes of a hash.
pub fn byte32_to_bytes(h: &Byte32) -> (r: Vec<u8>)
    ensures
        r@ == hash_bytes(*h),
{
    let mut r = u64_to_le_bytes(h.w0);
    let mut b1 = u64_to_le_bytes(h.w1);
    let mut b2 = u64_to_le_bytes(h.w2);
    let mut b3 = u64_to_le_bytes(h.w3);
    r.append(&mut b1);
    r.append(&mut b2);
    r.append(&mut b3);
    r
}

/// The digest the short-id keys of a compact block are read from: SHA-256
/// over the header hash followed by the little-endian nonce.
pub open spec fn key_digest(header_hash: Byte32, nonce: u64) -> Seq<u8> {
    sha256_of(hash_bytes(header_hash) + spec_u64_to_le_bytes(nonce))
}

/// The two short-id keys of a compact block.
pub open spec fn short_id_keys(header_hash: Byte32, nonce: u64) -> (u64, u64) {
    let d = key_digest(header_hash, nonce);
    (spec_u64_from_le_bytes(d.subrange(0, 8)), spec_u64_from_le_bytes(d.subrange(8, 16)))
}

/// The short id of a transaction hash under the given keys.
pub open spec fn short_id(k0: u64, k1: u64, tx_hash: Byte32) -> u64 {
    siphash24_of(k0, k1, hash_bytes(tx_hash)) & SHORT_ID_MASK
}

/// Derives the short-id keys of a compact block from its header and nonce.
pub fn short_transaction_id_keys(nonce: u64, header: &Header) -> (r: (u64, u64))
    ensures
        r == short_id_keys(header.hash, nonce),
{
    let mut data = byte32_to_bytes(&header.hash);
    let mut n = u64_to_le_bytes(nonce);
    data.append(&mut n);
    let d = sha256(data.as_slice());
    let k0 = u64_from_le_bytes(slice_subrange(d.as_slice(), 0, 8));
    let k1 = u64_from_le_bytes(slice_subrange(d.as_slice(), 8, 16));
    (k0, k1)
}

/// The short id of a transaction hash.
pub fn short_transaction_id(k0: u64, k1: u64, tx_hash: &Byte32) -> (r: u64)
    ensures
        r == short_id(k0, k1, *tx_hash),
{
    let b = byte32_to_bytes(tx_hash);
    siphash24(k0, k1, b.as_slice()) & SHORT_ID_MASK
}

/// Indexes candidates by short id: each id maps to the last candidate that
/// has it.
pub open spec fn index_by_id(ids: Seq<u64>) -> Map<u64, usize>
    decreases ids.len(),
{
    if ids.len() == 0 {
        Map::empty()
    } else {
        index_by_id(ids.drop_last()).insert(ids.last(), (ids.len() - 1) as usize)
    }
}

/// Whether two candidates with different hashes share the short id `id`
/// (one of them then differs from the one `index_by_id` keeps).
pub open spec fn ambiguous(cands: Seq<(Byte32, Seq<u8>)>, ids: Seq<u64>, id: u64) -> bool {
    exists|j: int|
        0 <= j < ids.len() && #[trigger] ids[j] == id && cands[j].0 != cands[index_by_id(
            ids,
        )[id] as int].0
}

/// The short ids that collide among the candidates.
pub open spec fn ambiguous_ids(cands: Seq<(Byte32, Seq<u8>)>, ids: Seq<u64>) -> Set<u64> {
    Set::new(|id: u64| ambiguous(cands, ids, id))
}

/// The candidate that fills position `i` of a block with short ids `sids`:
/// each indexed candidate is used once, by the first position that names it,
/// and an id that collides (in `amb`) fills nothing.
pub open spec fn resolve(index: Map<u64, usize>, amb: Set<u64>, sids: Seq<u64>, i: int) -> Option<
    usize,
> {
    if index.contains_key(sids[i]) && !amb.contains(sids[i]) && !sids.subrange(0, i).contains(
        sids[i],
    ) {
        Some(index[sids[i]])
    } else {
        None
    }
}

/// The positions among the first `n` that no candidate fills, ascending.
pub open spec fn missing_upto(index: Map<u64, usize>, amb: Set<u64>, sids: Seq<u64>, n: int) -> Seq<usize>
    decreases n,
{
    if n <= 0 {
        Seq::empty()
    } else if resolve(index, amb, sids, n - 1).is_none() {
        missing_upto(index, amb, sids, n - 1).push((n - 1) as usize)
    } else {
        missing_upto(index, amb, sids, n - 1)
    }
}

/// Whether every position of the block is filled.
pub open spec fn all_resolved(index: Map<u64, usize>, amb: Set<u64>, sids: Seq<u64>) -> bool {
    forall|i: int| 0 <= i < sids.len() ==> (#[trigger] resolve(index, amb, sids, i)).is_some()
}

/// What rebuilding a block from short ids `sids` yields, given the candidate
/// transactions (as models) and their short ids: the block, with each position
/// filled by the candidate `resolve` picks, when all are filled; else exactly
/// the unfilled positions, ascending.
pub open spec fn reconstructs(
    header: Header,
    sids: Seq<u64>,
    uncles: Seq<Header>,
    candidates: Seq<(Byte32, Seq<u8>)>,
    ids: Seq<u64>,
    r: Result<Block, Vec<usize>>,
) -> bool {
    let index = index_by_id(ids);
    let amb = ambiguous_ids(candidates, ids);
    match r {
        Ok(b) => {
            &&& all_resolved(index, amb, sids)
            &&& b.header == header
            &&& b.uncles@ == uncles
            &&& b.transactions@.len() == sids.len()
            &&& forall|i: int|
                0 <= i < sids.len() ==> (#[trigger] b.transactions@[i]).model()
                    == candidates[resolve(index, amb, sids, i).unwrap() as int]
        },
        Err(missing) => {
            &&& !all_resolved(index, amb, sids)
            &&& missing@ == missing_upto(index, amb, sids, sids.len() as int)
        },
    }
}

/// The short ids of the candidates under the given keys.
pub open spec fn candidate_short_ids(keys: (u64, u64), candidates: Seq<(Byte32, Seq<u8>)>) -> Seq<
    u64,
> {
    candidates.map_values(|t: (Byte32, Seq<u8>)| short_id(keys.0, keys.1, t.0))
}

proof fn lemma_index_keys(ids: Seq<u64>, j: int)
    requires
        0 <= j < ids.len(),
    ensures
        index_by_id(ids).contains_key(ids[j]),
    decreases ids.len(),
{
    if j < ids.len() - 1 {
        lemma_index_keys(ids.drop_last(), j);
    }
}

proof fn lemma_index_bound(ids: Seq<u64>)
    ensures
        forall|id: u64| #[trigger]
            index_by_id(ids).contains_key(id) ==> index_by_id(ids)[id] < ids.len(),
    decreases ids.len(),
{
    if ids.len() > 0 {
        lemma_index_bound(ids.drop_last());
        assert forall|id: u64| #[trigger]
            index_by_id(ids).contains_key(id) implies index_by_id(ids)[id] < ids.len() by {
            if id != ids.last() {
                assert(index_by_id(ids.drop_last()).contains_key(id));
            }
        }
    }
}

proof fn lemma_missing_empty(index: Map<u64, usize>, amb: Set<u64>, sids: Seq<u64>, n: int)
    requires
        0 <= n <= sids.len(),
    ensures
        (missing_upto(index, amb, sids, n).len() == 0) == (forall|i: int|
            0 <= i < n ==> (#[trigger] resolve(index, amb, sids, i)).is_some()),
    decreases n,
{
    if n > 0 {
        lemma_missing_empty(index, amb, sids, n - 1);
    }
}

/// Rebuilds a block from its short ids, given the candidate transactions and
/// the short id of each candidate.
///
/// Returns the block when every position is filled, else the positions that
/// are not, ascending.
pub fn reconstruct_with_ids(
    header: &Header,
    short_ids: &Vec<u64>,
    uncles: &Vec<Header>,
    candidates: &Vec<Transaction>,
    candidate_ids: &Vec<u64>,
) -> (r: Result<Block, Vec<usize>>)
    requires
        candidates@.len() == candidate_ids@.len(),
    ensures
        reconstructs(*header, short_ids@, uncles@, tx_models(candidates@), candidate_ids@, r),
{
    let ghost ids = candidate_ids@;
    let mut index: HashMap<u64, usize> = HashMap::new();
    let mut k: usize = 0;
    while k < candidate_ids.len()
        invariant
            k <= ids.len(),
            ids == candidate_ids@,
            index@ == index_by_id(ids.subrange(0, k as int)),
        decreases ids.len() - k,
    {
        assert(ids.subrange(0, k + 1).drop_last() =~= ids.subrange(0, k as int));
        index.insert(candidate_ids[k], k);
        k = k + 1;
    }
    assert(ids.subrange(0, ids.len() as int) =~= ids);
    proof {
        lemma_index_bound(ids);
    }
    let ghost full = index@;
    let ghost sids = short_ids@;
    let ghost cands = tx_models(candidates@);
    let ghost amb_s = ambiguous_ids(cands, ids);

    // the ids that two candidates with different hashes share
    let mut amb: HashSet<u64> = HashSet::new();
    let mut j: usize = 0;
    while j < candidate_ids.len()
        invariant
            j <= ids.len(),
            ids == candidate_ids@,
            candidates@.len() == ids.len(),
            cands == tx_models(candidates@),
            full == index_by_id(ids),
            index@ == full,
            forall|id: u64| #[trigger] full.contains_key(id) ==> full[id] < ids.len(),
            forall|id: u64|
                #[trigger] amb@.contains(id) == exists|w: int|
                    0 <= w < j && #[trigger] ids[w] == id && cands[w].0 != cands[full[id] as int].0,
        decreases ids.len() - j,
    {
        let id = candidate_ids[j];
        proof {
            lemma_index_keys(ids, j as int);
        }
        let last = *index.get(&id).unwrap();
        let ghost before = amb@;
        if candidates[j].hash != candidates[last].hash {
            amb.insert(id);
        }
        proof {
            assert forall|x: u64| #[trigger] amb@.contains(x) == exists|w: int|
                0 <= w < j + 1 && #[trigger] ids[w] == x && cands[w].0 != cands[full[x] as int].0 by {
                if exists|w: int| 0 <= w < j + 1 && #[trigger] ids[w] == x && cands[w].0 != cands[full[x] as int].0 {
                    let w = choose|w: int| 0 <= w < j + 1 && #[trigger] ids[w] == x && cands[w].0 != cands[full[x] as int].0;
                    if w < j {
                        assert(before.contains(x));
                    }
                }
                if before.contains(x) {
                    let w = choose|w: int| 0 <= w < j && #[trigger] ids[w] == x && cands[w].0 != cands[full[x] as int].0;
                    assert(0 <= w < j + 1);
                }
                if x == id && candidates@[j as int].hash != candidates@[last as int].hash {
                    assert(ids[j as int] == x && cands[j as int].0 != cands[full[x] as int].0);
                }
            }
        }
        j = j + 1;
    }
    assert(amb@ =~= amb_s);

    let mut chosen: Vec<usize> = Vec::new();
    let mut missing: Vec<usize> = Vec::new();
    let mut i: usize = 0;
    while i < short_ids.len()
        invariant
            i <= sids.len(),
            sids == short_ids@,
            full == index_by_id(ids),
            forall|id: u64|
                #![trigger index@.contains_key(id)]
                index@.contains_key(id) == (full.contains_key(id) && !sids.subrange(
                    0,
                    i as int,
                ).contains(id)),
            forall|id: u64| #[trigger] index@.contains_key(id) ==> index@[id] == full[id],
            chosen@.len() == i,
            forall|j: int|
                0 <= j < i && #[trigger] resolve(full, amb_s, sids, j).is_some() ==> chosen@[j]
                    == resolve(full, amb_s, sids, j).unwrap(),
            missing@ == missing_upto(full, amb_s, sids, i as int),
            amb@ == amb_s,
            forall|id: u64| #[trigger] full.contains_key(id) ==> full[id] < ids.len(),
        decreases sids.len() - i,
    {
        let sid = short_ids[i];
        assert(sids.subrange(0, i + 1) =~= sids.subrange(0, i as int).push(sid));
        let removed = index.remove(&sid);
        let collides = amb.contains(&sid);
        proof {
            assert forall|id: u64| #[trigger] index@.contains_key(id) == (full.contains_key(id)
                && !sids.subrange(0, i + 1).contains(id)) by {
                if id == sid {
                    assert(sids.subrange(0, i + 1)[i as int] == id);
                } else {
                    if sids.subrange(0, i + 1).contains(id) {
                        let w = choose|w: int|
                            0 <= w < i + 1 && #[trigger] sids.subrange(0, i + 1)[w] == id;
                        assert(sids.subrange(0, i as int)[w] == id);
                    }
                    if sids.subrange(0, i as int).contains(id) {
                        let w = choose|w: int| 0 <= w < i && #[trigger] sids.subrange(0, i as int)[w] == id;
                        assert(sids.subrange(0, i + 1)[w] == id);
                    }
                }
            }
        }
        match removed {
            Some(c) if !collides => {
                chosen.push(c);
            },
            _ => {
                // a filler: no block is assembled once a position is missing
                chosen.push(0);
                missing.push(i);
            },
        }
        i = i + 1;
    }
    proof {
        lemma_missing_empty(full, amb_s, sids, sids.len() as int);
    }
    if missing.len() > 0 {
        return Err(missing);
    }
    let mut txs: Vec<Transaction> = Vec::new();
    let mut j: usize = 0;
    while j < chosen.len()
        invariant
            j <= chosen@.len(),
            chosen@.len() == sids.len(),
            all_resolved(full, amb_s, sids),
            candidates@.len() == ids.len(),
            forall|t: int|
                0 <= t < sids.len() ==> chosen@[t] == resolve(full, amb_s, sids, t).unwrap(),
            forall|id: u64| #[trigger] full.contains_key(id) ==> full[id] < ids.len(),
            txs@.len() == j,
            forall|t: int|
                0 <= t < j ==> (#[trigger] txs@[t]).model() == candidates@[chosen@[t] as int].model(),
        decreases chosen@.len() - j,
    {
        assert(resolve(full, amb_s, sids, j as int).is_some());
        let c = chosen[j];
        txs.push(candidates[c].clone());
        j = j + 1;
    }
    let mut us: Vec<Header> = Vec::new();
    let mut u: usize = 0;
    while u < uncles.len()
        invariant
            u <= uncles@.len(),
            us@ == uncles@.subrange(0, u as int),
        decreases uncles@.len() - u,
    {
        us.push(uncles[u]);
        u = u + 1;
    }
    assert(us@ =~= uncles@);
    Ok(Block { header: *header, transactions: txs, uncles: us })
}


/// Appends copies of `src` to the candidates, with their short ids.
fn append_candidates(
    candidates: &mut Vec<Transaction>,
    ids: &mut Vec<u64>,
    src: &Vec<Transaction>,
    k0: u64,
    k1: u64,
)
    requires
        old(ids)@ == candidate_short_ids((k0, k1), tx_models(old(candidates)@)),
    ensures
        tx_models(final(candidates)@) == tx_models(old(candidates)@) + tx_models(src@),
        final(ids)@ == candidate_short_ids((k0, k1), tx_models(final(candidates)@)),
{
    let ghost c0 = tx_models(candidates@);
    let mut i: usize = 0;
    while i < src.len()
        invariant
            i <= src@.len(),
            tx_models(candidates@) == c0 + tx_models(src@.subrange(0, i as int)),
            ids@ == candidate_short_ids((k0, k1), tx_models(candidates@)),
        decreases src@.len() - i,
    {
        let ghost before = candidates@;
        ids.push(short_transaction_id(k0, k1, &src[i].hash));
        candidates.push(src[i].clone());
        assert(tx_models(candidates@) =~= tx_models(before).push(src@[i as int].model()));
        assert(tx_models(src@.subrange(0, i + 1)) =~= tx_models(src@.subrange(0, i as int)).push(
            src@[i as int].model(),
        ));
        assert(ids@ =~= candidate_short_ids((k0, k1), tx_models(candidates@)));
        i = i + 1;
    }
    assert(src@.subrange(0, src@.len() as int) =~= src@);
}

/// Appends copies of the carried transactions to the candidates, with their
/// short ids.
fn append_prefilled(
    candidates: &mut Vec<Transaction>,
    ids: &mut Vec<u64>,
    src: &Vec<PrefilledTransaction>,
    k0: u64,
    k1: u64,
)
    requires
        old(ids)@ == candidate_short_ids((k0, k1), tx_models(old(candidates)@)),
    ensures
        tx_models(final(candidates)@) == tx_models(old(candidates)@) + prefilled_models(src@),
        final(ids)@ == candidate_short_ids((k0, k1), tx_models(final(candidates)@)),
{
    let ghost c0 = tx_models(candidates@);
    let mut i: usize = 0;
    while i < src.len()
        invariant
            i <= src@.len(),
            tx_models(candidates@) == c0 + prefilled_models(src@.subrange(0, i as int)),
            ids@ == candidate_short_ids((k0, k1), tx_models(candidates@)),
        decreases src@.len() - i,
    {
        let ghost before = candidates@;
        let tx = &src[i].transaction;
        ids.push(short_transaction_id(k0, k1, &tx.hash));
        candidates.push(tx.clone());
        assert(tx_models(candidates@) =~= tx_models(before).push(src@[i as int].transaction.model()));
        assert(prefilled_models(src@.subrange(0, i + 1)) =~= prefilled_models(
            src@.subrange(0, i as int),
        ).push(src@[i as int].transaction.model()));
        assert(ids@ =~= candidate_short_ids((k0, k1), tx_models(candidates@)));
        i = i + 1;
    }
    assert(src@.subrange(0, src@.len() as int) =~= src@);
}

/// Rebuilds a compact block. The candidates are, in this order, the
/// transactions it carries, `transactions` (sent on request), those of the
/// main pool and those of the orphan pool.
pub fn reconstruct_block(
    compact_block: &CompactBlock,
    transactions: &Vec<Transaction>,
    pool: &Vec<Transaction>,
    orphan: &Vec<Transaction>,
) -> (r: Result<Block, Vec<usize>>)
    ensures
        ({
            let cands = prefilled_models(compact_block.prefilled@) + tx_models(transactions@) + tx_models(
                pool@,
            ) + tx_models(orphan@);
            reconstructs(
                compact_block.header,
                compact_block.short_ids@,
                compact_block.uncles@,
                cands,
                candidate_short_ids(
                    short_id_keys(compact_block.header.hash, compact_block.nonce),
                    cands,
                ),
                r,
            )
        }),
{
    let (k0, k1) = short_transaction_id_keys(compact_block.nonce, &compact_block.header);
    let mut candidates: Vec<Transaction> = Vec::new();
    let mut ids: Vec<u64> = Vec::new();
    assert(tx_models(candidates@) =~= Seq::empty());
    assert(ids@ =~= candidate_short_ids((k0, k1), tx_models(candidates@)));
    append_prefilled(&mut candidates, &mut ids, &compact_block.prefilled, k0, k1);
    append_candidates(&mut candidates, &mut ids, transactions, k0, k1);
    append_candidates(&mut candidates, &mut ids, pool, k0, k1);
    append_candidates(&mut candidates, &mut ids, orphan, k0, k1);
    assert(tx_models(candidates@) =~= prefilled_models(compact_block.prefilled@) + tx_models(
        transactions@,
    ) + tx_models(pool@) + tx_models(orphan@));
    reconstruct_with_ids(
        &compact_block.header,
        &compact_block.short_ids,
        &compact_block.uncles,
        &candidates,
        &ids,
    )
}


proof fn lemma_missing_members(index: Map<u64, usize>, amb: Set<u64>, sids: Seq<u64>, n: int)
    requires
        0 <= n <= sids.len(),
        sids.len() <= usize::MAX,
    ensures
        forall|x: int|
            0 <= x < sids.len() ==> (missing_upto(index, amb, sids, n).contains(x as usize) <==> (x
                < n && #[trigger] resolve(index, amb, sids, x).is_none())),
    decreases n,
{
    if n > 0 {
        lemma_missing_members(index, amb, sids, n - 1);
        let prev = missing_upto(index, amb, sids, n - 1);
        assert forall|x: int| 0 <= x < sids.len() implies (missing_upto(
            index,
            amb,
            sids,
            n,
        ).contains(x as usize) <==> (x < n && #[trigger] resolve(index, amb, sids, x).is_none())) by {
            if resolve(index, amb, sids, n - 1).is_none() {
                let cur = prev.push((n - 1) as usize);
                if cur.contains(x as usize) {
                    let w = choose|w: int| 0 <= w < cur.len() && #[trigger] cur[w] == x as usize;
                    if w < prev.len() {
                        assert(prev[w] == x as usize);
                    }
                }
                if prev.contains(x as usize) {
                    let w = choose|w: int| 0 <= w < prev.len() && #[trigger] prev[w] == x as usize;
                    assert(cur[w] == x as usize);
                }
                if x == n - 1 {
                    assert(cur[prev.len() as int] == x as usize);
                }
            }
        }
    }
}

/// Rebuilding a compact block is faithful: when every short id resolves
/// among the candidates, the block carries the compact block's own header,
/// hence its hash; when some do not, the positions reported missing are
/// exactly those that do not resolve; and a short id that two candidates with
/// different hashes share always ends up among the missing positions.
pub proof fn lemma_reconstruction_round_trip(
    header: Header,
    sids: Seq<u64>,
    uncles: Seq<Header>,
    candidates: Seq<(Byte32, Seq<u8>)>,
    ids: Seq<u64>,
    r: Result<Block, Vec<usize>>,
)
    requires
        sids.len() <= usize::MAX,
        reconstructs(header, sids, uncles, candidates, ids, r),
    ensures
        all_resolved(index_by_id(ids), ambiguous_ids(candidates, ids), sids) ==> (r is Ok && (r->Ok_0).header.hash
            == header.hash && (r->Ok_0).transactions@.len() == sids.len()),
        !all_resolved(index_by_id(ids), ambiguous_ids(candidates, ids), sids) ==> (r is Err && forall|x: int|
            0 <= x < sids.len() ==> ((r->Err_0)@.contains(x as usize) <==> #[trigger] resolve(
                index_by_id(ids),
                ambiguous_ids(candidates, ids),
                sids,
                x,
            ).is_none())),
        forall|x: int|
            0 <= x < sids.len() && ambiguous(candidates, ids, #[trigger] sids[x]) ==> (r is Err
                && (r->Err_0)@.contains(x as usize)),
{
    lemma_missing_members(index_by_id(ids), ambiguous_ids(candidates, ids), sids, sids.len() as int);
    assert forall|x: int|
        0 <= x < sids.len() && ambiguous(candidates, ids, #[trigger] sids[x]) implies (r is Err
            && (r->Err_0)@.contains(x as usize)) by {
        assert(ambiguous_ids(candidates, ids).contains(sids[x]));
        assert(resolve(index_by_id(ids), ambiguous_ids(candidates, ids), sids, x).is_none());
    }
}

} // verus!

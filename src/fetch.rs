use vstd::prelude::*;
use crate::types::{Byte32, PeerId};

verus! {

/// Most blocks one peer may be asked for at a time.
pub const MAX_BLOCKS_IN_TRANSIT_PER_PEER: usize = 16;

/// A block requested from a peer and not yet received.
#[derive(Clone, Copy, Debug, PartialEq, Eq, Structural)]
pub struct InFlight {
    pub hash: Byte32,
    pub peer: PeerId,
}

/// Whether the block `h` has been requested.
pub open spec fn requested(s: Seq<InFlight>, h: Byte32) -> bool {
    exists|i: int| 0 <= i < s.len() && (#[trigger] s[i]).hash == h
}

/// How many blocks are requested from `peer`.
pub open spec fn count_for(s: Seq<InFlight>, peer: PeerId) -> nat
    decreases s.len(),
{
    if s.len() == 0 {
        0
    } else {
        count_for(s.drop_last(), peer) + if s.last().peer == peer {
            1nat
        } else {
            0nat
        }
    }
}

/// The blocks to ask of a peer, out of `candidates` (the hashes on its best
/// chain, lowest first): in order, each one nobody has been asked for yet,
/// as long as the peer has fewer than `room` new requests.
pub open spec fn selection(candidates: Seq<Byte32>, flight: Seq<InFlight>, room: nat) -> Seq<Byte32>
    decreases candidates.len(),
{
    if candidates.len() == 0 {
        Seq::empty()
    } else {
        let sel = selection(candidates.drop_last(), flight, room);
        let h = candidates.last();
        if sel.len() < room && !requested(flight, h) && !sel.contains(h) {
            sel.push(h)
        } else {
            sel
        }
    }
}

/// The in-flight entries for `hashes` asked of `peer`.
pub open spec fn entries_for(hashes: Seq<Byte32>, peer: PeerId) -> Seq<InFlight> {
    hashes.map_values(|h: Byte32| InFlight { hash: h, peer })
}

/// The requested blocks, each asked of exactly one peer.
pub struct BlocksInFlight {
    pub entries: Vec<InFlight>,
}

impl BlocksInFlight {
    pub open spec fn wf(&self) -> bool {
        forall|i: int, j: int|
            0 <= i < j < self.entries@.len() ==> #[trigger] self.entries@[i].hash
                != #[trigger] self.entries@[j].hash
    }

    pub fn new() -> (r: BlocksInFlight)
        ensures
            r.wf(),
            r.entries@.len() == 0,
    {
        BlocksInFlight { entries: Vec::new() }
    }

    fn is_requested(&self, h: &Byte32) -> (r: bool)
        ensures
            r == requested(self.entries@, *h),
    {
        let mut i: usize = 0;
        while i < self.entries.len()
            invariant
                i <= self.entries@.len(),
                forall|k: int| 0 <= k < i ==> (#[trigger] self.entries@[k]).hash != *h,
            decreases self.entries@.len() - i,
        {
            if self.entries[i].hash == *h {
                return true;
            }
            i = i + 1;
        }
        false
    }

    /// How many blocks are requested from `peer`.
    pub fn in_flight_for(&self, peer: PeerId) -> (r: usize)
        ensures
            r == count_for(self.entries@, peer),
    {
        let mut n: usize = 0;
        let mut i: usize = 0;
        while i < self.entries.len()
            invariant
                i <= self.entries@.len(),
                n == count_for(self.entries@.subrange(0, i as int), peer),
                n <= i,
            decreases self.entries@.len() - i,
        {
            assert(self.entries@.subrange(0, i + 1).drop_last() =~= self.entries@.subrange(
                0,
                i as int,
            ));
            if self.entries[i].peer == peer {
                n = n + 1;
            }
            i = i + 1;
        }
        assert(self.entries@.subrange(0, self.entries@.len() as int) =~= self.entries@);
        n
    }

    /// Picks the blocks to ask `peer` for, out of `candidates`, and records
    /// them as requested from it: at most the room its window has left, none
    /// already requested from anyone, in candidate order.
    pub fn blocks_to_fetch(&mut self, peer: PeerId, candidates: &Vec<Byte32>) -> (r: Vec<Byte32>)
        requires
            old(self).wf(),
        ensures
            final(self).wf(),
            ({
                let used = count_for(old(self).entries@, peer);
                let room: nat = if used < MAX_BLOCKS_IN_TRANSIT_PER_PEER {
                    (MAX_BLOCKS_IN_TRANSIT_PER_PEER - used) as nat
                } else {
                    0
                };
                &&& r@ == selection(candidates@, old(self).entries@, room)
                &&& final(self).entries@ == old(self).entries@ + entries_for(r@, peer)
            }),
    {
        let used = self.in_flight_for(peer);
        let room: usize = if used < MAX_BLOCKS_IN_TRANSIT_PER_PEER {
            MAX_BLOCKS_IN_TRANSIT_PER_PEER - used
        } else {
            0
        };
        let ghost flight0 = self.entries@;
        let mut r: Vec<Byte32> = Vec::new();
        let mut i: usize = 0;
        while i < candidates.len()
            invariant
                i <= candidates@.len(),
                r@ == selection(candidates@.subrange(0, i as int), flight0, room as nat),
                self.entries@ == flight0 + entries_for(r@, peer),
                self.wf(),
            decreases candidates@.len() - i,
        {
            assert(candidates@.subrange(0, i + 1).drop_last() =~= candidates@.subrange(0, i as int));
            let h = candidates[i];
            if r.len() < room && !self.is_requested(&h) {
                proof {
                    assert(!requested(flight0, h)) by {
                        if requested(flight0, h) {
                            let w = choose|w: int| 0 <= w < flight0.len() && (#[trigger] flight0[w]).hash == h;
                            assert(self.entries@[w] == flight0[w]);
                        }
                    }
                    assert(!r@.contains(h)) by {
                        if r@.contains(h) {
                            let w = choose|w: int| 0 <= w < r@.len() && r@[w] == h;
                            assert(self.entries@[flight0.len() + w] == InFlight { hash: h, peer });
                        }
                    }
                }
                let ghost before = self.entries@;
                r.push(h);
                self.entries.push(InFlight { hash: h, peer });
                assert(self.entries@ =~= flight0 + entries_for(r@, peer));
                assert forall|a: int, b: int|
                    0 <= a < b < self.entries@.len() implies #[trigger] self.entries@[a].hash
                        != #[trigger] self.entries@[b].hash by {
                    if b == before.len() {
                        assert(before[a].hash != h);
                    } else {
                        assert(before[a] == self.entries@[a] && before[b] == self.entries@[b]);
                    }
                }
            } else {
                proof {
                    if r.len() < room {
                        assert(requested(flight0, h) || r@.contains(h)) by {
                            let w = choose|w: int| 0 <= w < self.entries@.len() && (#[trigger] self.entries@[w]).hash == h;
                            if w < flight0.len() {
                                assert(flight0[w].hash == h);
                            } else {
                                assert(r@[w - flight0.len()] == h);
                            }
                        }
                    }
                }
            }
            i = i + 1;
        }
        assert(candidates@.subrange(0, candidates@.len() as int) =~= candidates@);
        r
    }

    /// A requested block arrived: it is no longer in flight.
    pub fn received(&mut self, h: &Byte32)
        requires
            old(self).wf(),
        ensures
            final(self).wf(),
            !requested(final(self).entries@, *h),
            !requested(old(self).entries@, *h) ==> final(self).entries@ == old(self).entries@,
            forall|i: int|
                0 <= i < old(self).entries@.len() && (#[trigger] old(self).entries@[i]).hash == *h
                    ==> final(self).entries@ == old(self).entries@.remove(i),
    {
        let mut i: usize = 0;
        while i < self.entries.len()
            invariant
                i <= self.entries@.len(),
                self.entries@ == old(self).entries@,
                old(self).wf(),
                forall|k: int| 0 <= k < i ==> (#[trigger] self.entries@[k]).hash != *h,
            decreases self.entries@.len() - i,
        {
            if self.entries[i].hash == *h {
                let ghost s0 = self.entries@;
                self.entries.remove(i);
                assert forall|a: int, b: int|
                    0 <= a < b < self.entries@.len() implies #[trigger] self.entries@[a].hash
                        != #[trigger] self.entries@[b].hash by {
                    let ka = if a < i { a } else { a + 1 };
                    let kb = if b < i { b } else { b + 1 };
                    assert(s0[ka].hash != s0[kb].hash);
                }
                assert forall|a: int| 0 <= a < self.entries@.len() implies (#[trigger] self.entries@[a]).hash != *h by {
                    let ka = if a < i { a } else { a + 1 };
                    assert(s0[ka].hash != s0[i as int].hash);
                }
                assert forall|j: int|
                    0 <= j < s0.len() && (#[trigger] s0[j]).hash == *h implies j == i by {
                    if j != i as int {
                        if j < i {
                            assert(s0[j].hash != s0[i as int].hash);
                        } else {
                            assert(s0[i as int].hash != s0[j].hash);
                        }
                    }
                }
                return;
            }
            i = i + 1;
        }
    }
}


/// The in-flight entries of peers other than `peer`, in order.
pub open spec fn without_peer(s: Seq<InFlight>, peer: PeerId) -> Seq<InFlight>
    decreases s.len(),
{
    if s.len() == 0 {
        Seq::empty()
    } else if s.last().peer == peer {
        without_peer(s.drop_last(), peer)
    } else {
        without_peer(s.drop_last(), peer).push(s.last())
    }
}

proof fn lemma_without_peer_distinct(s: Seq<InFlight>, peer: PeerId)
    requires
        forall|i: int, j: int| 0 <= i < j < s.len() ==> #[trigger] s[i].hash != #[trigger] s[j].hash,
    ensures
        forall|i: int, j: int|
            0 <= i < j < without_peer(s, peer).len() ==> #[trigger] without_peer(s, peer)[i].hash
                != #[trigger] without_peer(s, peer)[j].hash,
        forall|i: int|
            0 <= i < without_peer(s, peer).len() ==> requested(s, #[trigger] without_peer(s, peer)[i].hash),
    decreases s.len(),
{
    if s.len() > 0 {
        let t = s.drop_last();
        lemma_without_peer_distinct(t, peer);
        let f = without_peer(t, peer);
        assert forall|i: int| 0 <= i < f.len() implies requested(s, #[trigger] f[i].hash) by {
            let w = choose|w: int| 0 <= w < t.len() && (#[trigger] t[w]).hash == f[i].hash;
            assert(s[w] == t[w]);
        }
        if s.last().peer != peer {
            let g = f.push(s.last());
            assert forall|i: int| 0 <= i < f.len() implies (#[trigger] f[i]).hash != s.last().hash by {
                let w = choose|w: int| 0 <= w < t.len() && (#[trigger] t[w]).hash == f[i].hash;
                assert(s[w].hash != s[s.len() - 1].hash);
            }
            assert forall|i: int| 0 <= i < g.len() implies requested(s, #[trigger] g[i].hash) by {
                if i == f.len() {
                    assert(s[s.len() - 1].hash == g[i].hash);
                }
            }
        }
    }
}

impl BlocksInFlight {
    /// Forgets every block requested from `peer`, so others can be asked.
    pub fn release_peer(&mut self, peer: PeerId)
        requires
            old(self).wf(),
        ensures
            final(self).wf(),
            final(self).entries@ == without_peer(old(self).entries@, peer),
    {
        let ghost s0 = self.entries@;
        let ghost mut k: int = 0;
        let mut i: usize = 0;
        while i < self.entries.len()
            invariant
                0 <= k <= s0.len(),
                i == without_peer(s0.subrange(0, k), peer).len(),
                self.entries@ == without_peer(s0.subrange(0, k), peer) + s0.subrange(
                    k,
                    s0.len() as int,
                ),
            decreases s0.len() - k,
        {
            let ghost cur = self.entries@;
            assert(cur[i as int] == s0[k]);
            assert(s0.subrange(0, k + 1).drop_last() =~= s0.subrange(0, k));
            if self.entries[i].peer == peer {
                self.entries.remove(i);
                assert(self.entries@ =~= without_peer(s0.subrange(0, k + 1), peer) + s0.subrange(
                    k + 1,
                    s0.len() as int,
                ));
            } else {
                assert(self.entries@ =~= without_peer(s0.subrange(0, k + 1), peer) + s0.subrange(
                    k + 1,
                    s0.len() as int,
                ));
                i = i + 1;
            }
            proof {
                k = k + 1;
            }
        }
        assert(s0.subrange(0, k) =~= s0);
        assert(self.entries@ =~= without_peer(s0, peer));
        proof {
            lemma_without_peer_distinct(s0, peer);
        }
    }
}


/// The room `peer`'s window has left.
pub open spec fn room_of(s: Seq<InFlight>, peer: PeerId) -> nat {
    if count_for(s, peer) < MAX_BLOCKS_IN_TRANSIT_PER_PEER {
        (MAX_BLOCKS_IN_TRANSIT_PER_PEER - count_for(s, peer)) as nat
    } else {
        0
    }
}

/// The in-flight entries a list of per-peer requests adds, in order.
pub open spec fn flat(r: Seq<(PeerId, Vec<Byte32>)>) -> Seq<InFlight>
    decreases r.len(),
{
    if r.len() == 0 {
        Seq::empty()
    } else {
        flat(r.drop_last()) + entries_for(r.last().1@, r.last().0)
    }
}

proof fn lemma_selection_props(candidates: Seq<Byte32>, flight: Seq<InFlight>, room: nat)
    ensures
        selection(candidates, flight, room).len() <= room,
        selection(candidates, flight, room).no_duplicates(),
        forall|x: int|
            0 <= x < selection(candidates, flight, room).len() ==> !requested(
                flight,
                #[trigger] selection(candidates, flight, room)[x],
            ),
    decreases candidates.len(),
{
    if candidates.len() > 0 {
        lemma_selection_props(candidates.drop_last(), flight, room);
        let sel = selection(candidates.drop_last(), flight, room);
        let h = candidates.last();
        if sel.len() < room && !requested(flight, h) && !sel.contains(h) {
            let t = sel.push(h);
            assert forall|a: int, b: int| 0 <= a < b < t.len() implies t[a] != t[b] by {
                if b == sel.len() {
                    assert(sel[a] != h);
                }
            }
            assert forall|x: int| 0 <= x < t.len() implies !requested(flight, #[trigger] t[x]) by {
                if x < sel.len() {
                    assert(t[x] == sel[x]);
                }
            }
        }
    }
}

impl BlocksInFlight {
    /// Picks the blocks to ask of each peer of `plan`, in order, each from its
    /// candidates (the hashes on its best chain that we lack, lowest first);
    /// see `blocks_to_fetch`. No hash is asked of two peers, none already in
    /// flight is asked again, and no peer gets more than its window.
    pub fn fetch_for_peers(&mut self, plan: &Vec<(PeerId, Vec<Byte32>)>) -> (r: Vec<
        (PeerId, Vec<Byte32>),
    >)
        requires
            old(self).wf(),
        ensures
            final(self).wf(),
            final(self).entries@ == old(self).entries@ + flat(r@),
            r@.len() == plan@.len(),
            forall|i: int|
                0 <= i < r@.len() ==> {
                    let before = old(self).entries@ + flat(r@.subrange(0, i));
                    &&& (#[trigger] r@[i]).0 == plan@[i].0
                    &&& r@[i].1@ == selection(plan@[i].1@, before, room_of(before, plan@[i].0))
                    &&& r@[i].1@.len() <= MAX_BLOCKS_IN_TRANSIT_PER_PEER
                    &&& r@[i].1@.no_duplicates()
                },
            forall|i: int, x: int|
                0 <= i < r@.len() && 0 <= x < r@[i].1@.len() ==> !requested(
                    old(self).entries@,
                    #[trigger] r@[i].1@[x],
                ),
            forall|i: int, j: int, x: int, y: int|
                0 <= i < j < r@.len() && 0 <= x < r@[i].1@.len() && 0 <= y < r@[j].1@.len()
                    ==> #[trigger] r@[i].1@[x] != #[trigger] r@[j].1@[y],
    {
        let ghost e0 = self.entries@;
        let mut r: Vec<(PeerId, Vec<Byte32>)> = Vec::new();
        let mut i: usize = 0;
        while i < plan.len()
            invariant
                i <= plan@.len(),
                r@.len() == i,
                self.wf(),
                self.entries@ == e0 + flat(r@),
                forall|k: int|
                    0 <= k < i ==> {
                        let before = e0 + flat(r@.subrange(0, k));
                        &&& (#[trigger] r@[k]).0 == plan@[k].0
                        &&& r@[k].1@ == selection(plan@[k].1@, before, room_of(before, plan@[k].0))
                        &&& r@[k].1@.len() <= MAX_BLOCKS_IN_TRANSIT_PER_PEER
                        &&& r@[k].1@.no_duplicates()
                    },
                forall|k: int, x: int|
                    0 <= k < i && 0 <= x < r@[k].1@.len() ==> !requested(
                        e0,
                        #[trigger] r@[k].1@[x],
                    ) && requested(self.entries@, r@[k].1@[x]),
                forall|k: int, j: int, x: int, y: int|
                    0 <= k < j < i && 0 <= x < r@[k].1@.len() && 0 <= y < r@[j].1@.len()
                        ==> #[trigger] r@[k].1@[x] != #[trigger] r@[j].1@[y],
            decreases plan@.len() - i,
        {
            let peer = plan[i].0;
            let ghost prev = self.entries@;
            let ghost r0 = r@;
            let picked = self.blocks_to_fetch(peer, &plan[i].1);
            proof {
                lemma_selection_props(plan@[i as int].1@, prev, room_of(prev, peer));
                assert(r0.subrange(0, i as int) =~= r0);
            }
            r.push((peer, picked));
            proof {
                let sel = r@[i as int].1@;
                assert(r@.drop_last() =~= r0);
                assert(flat(r@) == flat(r0) + entries_for(sel, peer));
                assert(self.entries@ =~= e0 + flat(r@));
                assert forall|k: int| 0 <= k < i implies r@.subrange(0, k) =~= r0.subrange(0, k) by {}
                assert(r@.subrange(0, i as int) =~= r0);
                assert forall|x: int| 0 <= x < sel.len() implies requested(
                    self.entries@,
                    #[trigger] sel[x],
                ) by {
                    assert(self.entries@[prev.len() + x].hash == sel[x]);
                }
                assert forall|x: int| 0 <= x < sel.len() implies !requested(e0, #[trigger] sel[x]) by {
                    if requested(e0, sel[x]) {
                        let w = choose|w: int| 0 <= w < e0.len() && (#[trigger] e0[w]).hash == sel[x];
                        assert(prev[w] == e0[w]);
                    }
                }
                assert forall|k: int, x: int|
                    0 <= k < i && 0 <= x < r@[k].1@.len() implies requested(
                        self.entries@,
                        #[trigger] r@[k].1@[x],
                    ) by {
                    assert(r@[k] == r0[k]);
                    let w = choose|w: int| 0 <= w < prev.len() && (#[trigger] prev[w]).hash == r0[k].1@[x];
                    assert(self.entries@[w] == prev[w]);
                }
                assert forall|k: int, x: int, y: int|
                    0 <= k < i && 0 <= x < r@[k].1@.len() && 0 <= y < sel.len() implies r@[k].1@[x]
                        != sel[y] by {
                    assert(r@[k] == r0[k]);
                    assert(requested(prev, r0[k].1@[x]));
                    assert(!requested(prev, sel[y]));
                }
            }
            i = i + 1;
        }
        r
    }
}

} // verus!

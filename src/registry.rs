use vstd::prelude::*;
use crate::types::{Difficulty, HeaderView, PeerId};
use crate::peer::{tick, tick_peer, ChainSyncState, PeerAction, PeerState};

verus! {

/// A connected peer and its state.
#[derive(Clone, Copy, Debug, PartialEq, Eq, Structural)]
pub struct PeerEntry {
    pub peer: PeerId,
    pub state: PeerState,
}

/// The best header a peer has announced.
#[derive(Clone, Copy, Debug, PartialEq, Eq, Structural)]
pub struct BestKnown {
    pub peer: PeerId,
    pub header: HeaderView,
}

/// What the transport reports of a peer's session: whether we dialled it.
#[derive(Clone, Copy, Debug, PartialEq, Eq, Structural)]
pub struct SessionInfo {
    pub peer: PeerId,
    pub outbound: bool,
}

/// The state of the peer `peer` in `s`, the last entry that names it.
pub open spec fn state_of(s: Seq<PeerEntry>, peer: PeerId) -> Option<PeerState>
    decreases s.len(),
{
    if s.len() == 0 {
        None
    } else if s.last().peer == peer {
        Some(s.last().state)
    } else {
        state_of(s.drop_last(), peer)
    }
}

/// The best header of `peer` in `s`, the last entry that names it.
pub open spec fn best_of(s: Seq<BestKnown>, peer: PeerId) -> Option<HeaderView>
    decreases s.len(),
{
    if s.len() == 0 {
        None
    } else if s.last().peer == peer {
        Some(s.last().header)
    } else {
        best_of(s.drop_last(), peer)
    }
}

/// Whether the session of `peer` is outbound, `None` when there is none.
pub open spec fn outbound_of(s: Seq<SessionInfo>, peer: PeerId) -> Option<bool>
    decreases s.len(),
{
    if s.len() == 0 {
        None
    } else if s.last().peer == peer {
        Some(s.last().outbound)
    } else {
        outbound_of(s.drop_last(), peer)
    }
}

/// The difficulty of the best header of `peer` in `s`.
pub open spec fn best_difficulty_of(s: Seq<BestKnown>, peer: PeerId) -> Option<Difficulty> {
    match best_of(s, peer) {
        Some(h) => Some(h.total_difficulty),
        None => None,
    }
}

pub open spec fn contains_peer(s: Seq<PeerEntry>, peer: PeerId) -> bool {
    exists|i: int| 0 <= i < s.len() && (#[trigger] s[i]).peer == peer
}

pub open spec fn contains_best(s: Seq<BestKnown>, peer: PeerId) -> bool {
    exists|i: int| 0 <= i < s.len() && (#[trigger] s[i]).peer == peer
}

/// The peers' states and best headers, each peer at most once in each list.
pub struct PeerRegistry {
    pub states: Vec<PeerEntry>,
    pub best_known_headers: Vec<BestKnown>,
}

impl PeerRegistry {
    pub open spec fn wf(&self) -> bool {
        &&& forall|i: int, j: int|
            0 <= i < j < self.states@.len() ==> #[trigger] self.states@[i].peer
                != #[trigger] self.states@[j].peer
        &&& forall|i: int, j: int|
            0 <= i < j < self.best_known_headers@.len()
                ==> #[trigger] self.best_known_headers@[i].peer
                != #[trigger] self.best_known_headers@[j].peer
        &&& forall|i: int|
            0 <= i < self.states@.len() ==> (#[trigger] self.states@[i]).state.wf()
    }

    pub fn new() -> (r: PeerRegistry)
        ensures
            r.wf(),
            r.states@.len() == 0,
            r.best_known_headers@.len() == 0,
    {
        PeerRegistry { states: Vec::new(), best_known_headers: Vec::new() }
    }

    /// The index of `peer` among the states.
    fn find_state(&self, peer: PeerId) -> (r: Option<usize>)
        ensures
            match r {
                Some(i) => i < self.states@.len() && self.states@[i as int].peer == peer,
                None => !contains_peer(self.states@, peer),
            },
    {
        let mut i: usize = 0;
        while i < self.states.len()
            invariant
                i <= self.states@.len(),
                forall|k: int| 0 <= k < i ==> (#[trigger] self.states@[k]).peer != peer,
            decreases self.states@.len() - i,
        {
            if self.states[i].peer == peer {
                return Some(i);
            }
            i = i + 1;
        }
        None
    }

    /// The index of `peer` among the best headers.
    fn find_best(&self, peer: PeerId) -> (r: Option<usize>)
        ensures
            match r {
                Some(i) => i < self.best_known_headers@.len()
                    && self.best_known_headers@[i as int].peer == peer,
                None => !contains_best(self.best_known_headers@, peer),
            },
    {
        let mut i: usize = 0;
        while i < self.best_known_headers.len()
            invariant
                i <= self.best_known_headers@.len(),
                forall|k: int|
                    0 <= k < i ==> (#[trigger] self.best_known_headers@[k]).peer != peer,
            decreases self.best_known_headers@.len() - i,
        {
            if self.best_known_headers[i].peer == peer {
                return Some(i);
            }
            i = i + 1;
        }
        None
    }
}


/// The best header `peer` announced, by a scan of `s`.
pub fn lookup_best(s: &Vec<BestKnown>, peer: PeerId) -> (r: Option<HeaderView>)
    ensures
        r == best_of(s@, peer),
{
    let mut found: Option<HeaderView> = None;
    let mut i: usize = 0;
    while i < s.len()
        invariant
            i <= s@.len(),
            found == best_of(s@.subrange(0, i as int), peer),
        decreases s@.len() - i,
    {
        assert(s@.subrange(0, i + 1).drop_last() =~= s@.subrange(0, i as int));
        if s[i].peer == peer {
            found = Some(s[i].header);
        }
        i = i + 1;
    }
    assert(s@.subrange(0, s@.len() as int) =~= s@);
    found
}

/// Whether the session of `peer` is outbound, by a scan of `s`.
pub fn lookup_outbound(s: &Vec<SessionInfo>, peer: PeerId) -> (r: Option<bool>)
    ensures
        r == outbound_of(s@, peer),
{
    let mut found: Option<bool> = None;
    let mut i: usize = 0;
    while i < s.len()
        invariant
            i <= s@.len(),
            found == outbound_of(s@.subrange(0, i as int), peer),
        decreases s@.len() - i,
    {
        assert(s@.subrange(0, i + 1).drop_last() =~= s@.subrange(0, i as int));
        if s[i].peer == peer {
            found = Some(s[i].outbound);
        }
        i = i + 1;
    }
    assert(s@.subrange(0, s@.len() as int) =~= s@);
    found
}

impl PeerRegistry {
    /// One eviction tick over every peer, in registry order.
    ///
    /// Each peer's state moves as `tick` says, given its session in
    /// `sessions`, its best known header and our `tip`; the result pairs each
    /// peer with the action it calls for.
    pub fn eviction(
        &mut self,
        now: u64,
        ibd: bool,
        tip: HeaderView,
        sessions: &Vec<SessionInfo>,
    ) -> (r: Vec<(PeerId, PeerAction)>)
        requires
            old(self).wf(),
        ensures
            final(self).wf(),
            final(self).best_known_headers@ == old(self).best_known_headers@,
            final(self).states@.len() == old(self).states@.len(),
            r@.len() == old(self).states@.len(),
            forall|i: int|
                #![trigger final(self).states@[i]]
                #![trigger r@[i]]
                0 <= i < r@.len() ==> {
                    let e = old(self).states@[i];
                    let t = tick(
                        e.state,
                        now,
                        ibd,
                        outbound_of(sessions@, e.peer),
                        best_difficulty_of(old(self).best_known_headers@, e.peer),
                        tip,
                    );
                    &&& final(self).states@[i].peer == e.peer
                    &&& final(self).states@[i].state == t.0
                    &&& r@[i] == (e.peer, t.1)
                    &&& e.state.disconnect ==> r@[i].1 == PeerAction::Nothing && final(self).states@[i].state
                        == e.state
                },
    {
        let mut actions: Vec<(PeerId, PeerAction)> = Vec::new();
        let mut i: usize = 0;
        let n = self.states.len();
        while i < n
            invariant
                n == old(self).states@.len(),
                i <= n,
                self.wf(),
                self.best_known_headers@ == old(self).best_known_headers@,
                self.states@.len() == n,
                actions@.len() == i,
                forall|k: int| i <= k < n ==> #[trigger] self.states@[k] == old(self).states@[k],
                forall|k: int|
                    #![trigger self.states@[k]]
                    #![trigger actions@[k]]
                    0 <= k < i ==> {
                        let e = old(self).states@[k];
                        let t = tick(
                            e.state,
                            now,
                            ibd,
                            outbound_of(sessions@, e.peer),
                            best_difficulty_of(old(self).best_known_headers@, e.peer),
                            tip,
                        );
                        &&& self.states@[k].peer == e.peer
                        &&& self.states@[k].state == t.0
                        &&& actions@[k] == (e.peer, t.1)
                    },
            decreases n - i,
        {
            let peer = self.states[i].peer;
            let mut st = self.states[i].state;
            let outbound = lookup_outbound(sessions, peer);
            let best = match lookup_best(&self.best_known_headers, peer) {
                Some(h) => Some(h.total_difficulty),
                None => None,
            };
            let action = tick_peer(&mut st, now, ibd, outbound, best, tip);
            self.states.set(i, PeerEntry { peer, state: st });
            actions.push((peer, action));
            i = i + 1;
        }
        actions
    }
}


/// With each peer named once, the state of the peer at position `i` is the
/// one `state_of` finds.
pub proof fn lemma_state_of_unique(s: Seq<PeerEntry>, i: int)
    requires
        0 <= i < s.len(),
        forall|a: int, b: int| 0 <= a < b < s.len() ==> #[trigger] s[a].peer != #[trigger] s[b].peer,
    ensures
        state_of(s, s[i].peer) == Some(s[i].state),
    decreases s.len(),
{
    if i != s.len() - 1 {
        let t = s.drop_last();
        assert(s.last().peer != s[i].peer);
        assert(t[i] == s[i]);
        lemma_state_of_unique(t, i);
    }
}

/// A peer that no entry names has no state.
pub proof fn lemma_state_of_absent(s: Seq<PeerEntry>, peer: PeerId)
    requires
        !contains_peer(s, peer),
    ensures
        state_of(s, peer).is_none(),
    decreases s.len(),
{
    if s.len() > 0 {
        let t = s.drop_last();
        assert(s[s.len() - 1].peer != peer);
        assert forall|i: int| 0 <= i < t.len() implies (#[trigger] t[i]).peer != peer by {
            assert(t[i] == s[i]);
        }
        lemma_state_of_absent(t, peer);
    }
}

/// A peer has a state exactly when some entry names it.
pub proof fn lemma_state_of_present(s: Seq<PeerEntry>, peer: PeerId)
    ensures
        state_of(s, peer).is_some() == contains_peer(s, peer),
    decreases s.len(),
{
    if s.len() > 0 {
        let t = s.drop_last();
        lemma_state_of_present(t, peer);
        if contains_peer(t, peer) {
            let w = choose|w: int| 0 <= w < t.len() && (#[trigger] t[w]).peer == peer;
            assert(s[w] == t[w]);
        }
        if contains_peer(s, peer) && s.last().peer != peer {
            let w = choose|w: int| 0 <= w < s.len() && (#[trigger] s[w]).peer == peer;
            assert(t[w] == s[w]);
        }
        if s.last().peer == peer {
            assert(s[s.len() - 1].peer == peer);
        }
    }
}

impl PeerRegistry {
    /// Registers a newly connected peer; a peer already known is left as it is.
    pub fn on_connected(&mut self, peer: PeerId, headers_sync_timeout: u64, protect: bool)
        requires
            old(self).wf(),
        ensures
            final(self).wf(),
            final(self).best_known_headers@ == old(self).best_known_headers@,
            contains_peer(old(self).states@, peer) ==> final(self).states@ == old(
                self,
            ).states@,
            !contains_peer(old(self).states@, peer) ==> final(self).states@ == old(
                self,
            ).states@.push(
                PeerEntry {
                    peer,
                    state: PeerState {
                        headers_sync_timeout: Some(headers_sync_timeout),
                        disconnect: false,
                        chain_sync: ChainSyncState {
                            protect,
                            timeout: 0,
                            work_header: None,
                            sent_getheaders: false,
                        },
                    },
                },
            ),
    {
        match self.find_state(peer) {
            Some(_) => {},
            None => {
                let state = PeerState::new(headers_sync_timeout, protect);
                self.states.push(PeerEntry { peer, state });
                assert(forall|i: int|
                    0 <= i < old(self).states@.len() ==> self.states@[i] == old(
                        self,
                    ).states@[i]);
            },
        }
    }

    /// Forgets a peer: its state and its best known header.
    pub fn disconnected(&mut self, peer: PeerId)
        requires
            old(self).wf(),
        ensures
            final(self).wf(),
            !contains_peer(final(self).states@, peer),
            !contains_best(final(self).best_known_headers@, peer),
            !contains_peer(old(self).states@, peer) ==> final(self).states@ == old(
                self,
            ).states@,
            forall|i: int|
                0 <= i < old(self).states@.len() && (#[trigger] old(self).states@[i]).peer == peer
                    ==> final(self).states@ == old(self).states@.remove(i),
            !contains_best(old(self).best_known_headers@, peer)
                ==> final(self).best_known_headers@ == old(self).best_known_headers@,
            forall|i: int|
                0 <= i < old(self).best_known_headers@.len() && (#[trigger] old(
                    self,
                ).best_known_headers@[i]).peer == peer ==> final(self).best_known_headers@
                    == old(self).best_known_headers@.remove(i),
    {
        match self.find_state(peer) {
            Some(i) => {
                let ghost s0 = self.states@;
                self.states.remove(i);
                assert(forall|k: int|
                    0 <= k < self.states@.len() ==> #[trigger] self.states@[k] == if k < i {
                        s0[k]
                    } else {
                        s0[k + 1]
                    });
            },
            None => {},
        }
        match self.find_best(peer) {
            Some(i) => {
                let ghost s0 = self.best_known_headers@;
                self.best_known_headers.remove(i);
                assert(forall|k: int|
                    0 <= k < self.best_known_headers@.len()
                        ==> #[trigger] self.best_known_headers@[k] == if k < i {
                        s0[k]
                    } else {
                        s0[k + 1]
                    });
            },
            None => {},
        }
    }

    /// Records a header announced by `peer` when it beats the peer's best known
    /// one in cumulative difficulty, or when the peer has none.
    pub fn new_header_received(&mut self, peer: PeerId, header: HeaderView)
        requires
            old(self).wf(),
        ensures
            final(self).wf(),
            final(self).states@ == old(self).states@,
            !contains_best(old(self).best_known_headers@, peer)
                ==> final(self).best_known_headers@ == old(self).best_known_headers@.push(
                BestKnown { peer, header },
            ),
            forall|i: int|
                0 <= i < old(self).best_known_headers@.len() && (#[trigger] old(
                    self,
                ).best_known_headers@[i]).peer == peer ==> final(self).best_known_headers@
                    == if header.total_difficulty.value() > old(
                    self,
                ).best_known_headers@[i].header.total_difficulty.value() {
                    old(self).best_known_headers@.update(i, BestKnown { peer, header })
                } else {
                    old(self).best_known_headers@
                },
    {
        match self.find_best(peer) {
            Some(i) => {
                let current = self.best_known_headers[i].header;
                if !current.total_difficulty.ge(&header.total_difficulty) {
                    self.best_known_headers.set(i, BestKnown { peer, header });
                }
            },
            None => {
                self.best_known_headers.push(BestKnown { peer, header });
                assert(forall|k: int|
                    0 <= k < old(self).best_known_headers@.len()
                        ==> self.best_known_headers@[k] == old(self).best_known_headers@[k]);
            },
        }
    }

    /// Drops the header-sync deadline of `peer`: it has delivered.
    pub fn clear_headers_sync_timeout(&mut self, peer: PeerId)
        requires
            old(self).wf(),
        ensures
            final(self).wf(),
            final(self).best_known_headers@ == old(self).best_known_headers@,
            !contains_peer(old(self).states@, peer) ==> final(self).states@ == old(
                self,
            ).states@,
            forall|i: int|
                0 <= i < old(self).states@.len() && (#[trigger] old(self).states@[i]).peer == peer
                    ==> final(self).states@ == old(self).states@.update(
                    i,
                    PeerEntry {
                        peer,
                        state: PeerState { headers_sync_timeout: None, ..old(self).states@[i].state },
                    },
                ),
    {
        match self.find_state(peer) {
            Some(i) => {
                let st = self.states[i].state;
                self.states.set(
                    i,
                    PeerEntry { peer, state: PeerState { headers_sync_timeout: None, ..st } },
                );
                assert forall|j: int|
                    0 <= j < old(self).states@.len() && (#[trigger] old(self).states@[j]).peer
                        == peer implies j == i by {
                    if j != i {
                        if j < i {
                            assert(old(self).states@[j].peer != old(self).states@[i as int].peer);
                        } else {
                            assert(old(self).states@[i as int].peer != old(self).states@[j].peer);
                        }
                    }
                }
            },
            None => {},
        }
    }

    /// The state of `peer`, if it is connected.
    pub fn state(&self, peer: PeerId) -> (r: Option<PeerState>)
        requires
            self.wf(),
        ensures
            r == state_of(self.states@, peer),
    {
        match self.find_state(peer) {
            Some(i) => {
                proof {
                    lemma_state_of_unique(self.states@, i as int);
                }
                Some(self.states[i].state)
            },
            None => {
                proof {
                    lemma_state_of_absent(self.states@, peer);
                }
                None
            },
        }
    }

    /// The best header `peer` announced, if any.
    pub fn best_known_header(&self, peer: PeerId) -> (r: Option<HeaderView>)
        ensures
            r == best_of(self.best_known_headers@, peer),
    {
        lookup_best(&self.best_known_headers, peer)
    }

    /// The connected peers, in registry order.
    pub fn peer_ids(&self) -> (r: Vec<PeerId>)
        ensures
            r@.len() == self.states@.len(),
            forall|i: int| 0 <= i < r@.len() ==> r@[i] == #[trigger] self.states@[i].peer,
    {
        let mut r: Vec<PeerId> = Vec::new();
        let mut i: usize = 0;
        while i < self.states.len()
            invariant
                i <= self.states@.len(),
                r@.len() == i,
                forall|k: int| 0 <= k < i ==> r@[k] == #[trigger] self.states@[k].peer,
            decreases self.states@.len() - i,
        {
            r.push(self.states[i].peer);
            i = i + 1;
        }
        r
    }

    pub fn is_empty(&self) -> (r: bool)
        ensures
            r == (self.states@.len() == 0),
    {
        self.states.len() == 0
    }
}

} // verus!

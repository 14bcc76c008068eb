use vstd::prelude::*;
use crate::types::{Block, Byte32, Header, HeaderView, PeerId};
use crate::peer::{
    tick, ChainSyncState, PeerAction, PeerState,
    MAX_OUTBOUND_PEERS_TO_PROTECT_FROM_DISCONNECT,
};
use crate::registry::{
    best_difficulty_of, contains_best, contains_peer, lemma_state_of_present, outbound_of,
    state_of, BestKnown, PeerEntry, PeerRegistry, SessionInfo,
};
use crate::fetch::{without_peer, BlocksInFlight};
use crate::process::{contiguous, getheaders_reply, headers_after_locator, headers_contiguous};

verus! {

/// Timer that broadcasts header requests.
pub const SEND_GET_HEADERS_TOKEN: usize = 1;

/// Timer that selects blocks to fetch.
pub const BLOCK_FETCH_TOKEN: usize = 2;

/// Period (ms) of both timers.
pub const TIMER_PERIOD_MS: u64 = 100;

/// Capacity of the work queue between the transport and the workers.
pub const TASK_QUEUE_CAPACITY: usize = 65535;

/// Base time (ms) a peer has to deliver headers.
pub const HEADERS_DOWNLOAD_TIMEOUT_BASE: u64 = 360_000;

/// Extra time (ms) granted per header we expect to receive.
pub const HEADERS_DOWNLOAD_TIMEOUT_PER_HEADER: u64 = 1;

/// Expected time (ms) between blocks.
pub const POW_SPACE: u64 = 10_000;

/// Kind of an inventory item.
#[derive(Clone, Copy, Debug, PartialEq, Eq, Structural)]
pub enum InventoryType {
    MsgTx,
    MsgBlock,
}

/// One item of a GetData request.
#[derive(Clone, Copy, Debug, PartialEq, Eq, Structural)]
pub struct Inventory {
    pub inv_type: InventoryType,
    pub hash: Byte32,
}

/// Asks a peer for headers following the first locator hash it knows.
#[derive(Clone, Debug)]
pub struct GetHeaders {
    pub version: u32,
    pub block_locator_hashes: Vec<Byte32>,
    pub hash_stop: Byte32,
}

/// A batch of headers.
#[derive(Clone, Debug)]
pub struct Headers {
    pub headers: Vec<Header>,
}

/// Asks a peer for the listed items.
#[derive(Clone, Debug)]
pub struct GetData {
    pub inventory: Vec<Inventory>,
}

/// A decoded message of the sync protocol.
#[derive(Debug)]
pub enum SyncMessage {
    GetHeaders(GetHeaders),
    Headers(Headers),
    GetData(GetData),
    Block(Block),
    /// A kind the sync protocol does not handle.
    Other,
}

/// One unit of work for the sync workers.
#[derive(Debug)]
pub enum Task {
    OnConnected(PeerId),
    SendGetHeadersToAll,
    FetchBlock,
    HandleGetheaders(PeerId, GetHeaders),
    HandleHeaders(PeerId, Headers),
    HandleGetdata(PeerId, GetData),
    HandleBlock(PeerId, Block),
}

/// The work a message from `peer` becomes, if any.
pub fn task_for_message(peer: PeerId, message: SyncMessage) -> (r: Option<Task>)
    ensures
        match message {
            SyncMessage::GetHeaders(m) => r == Some(Task::HandleGetheaders(peer, m)),
            SyncMessage::Headers(m) => r == Some(Task::HandleHeaders(peer, m)),
            SyncMessage::GetData(m) => r == Some(Task::HandleGetdata(peer, m)),
            SyncMessage::Block(m) => r == Some(Task::HandleBlock(peer, m)),
            SyncMessage::Other => r is None,
        },
{
    match message {
        SyncMessage::GetHeaders(m) => Some(Task::HandleGetheaders(peer, m)),
        SyncMessage::Headers(m) => Some(Task::HandleHeaders(peer, m)),
        SyncMessage::GetData(m) => Some(Task::HandleGetdata(peer, m)),
        SyncMessage::Block(m) => Some(Task::HandleBlock(peer, m)),
        SyncMessage::Other => None,
    }
}

/// Whether header requests go out: when no peer is syncing yet, or once the
/// initial block download is over.
pub open spec fn header_requests_due(n_sync: u64, ibd: bool) -> bool {
    n_sync == 0 || !ibd
}

/// The work a timer tick becomes, if any. Nothing happens without peers.
pub fn task_for_timer(token: usize, has_peers: bool, n_sync: u64, ibd: bool) -> (r: Option<Task>)
    requires
        token == SEND_GET_HEADERS_TOKEN || token == BLOCK_FETCH_TOKEN,
    ensures
        !has_peers ==> r is None,
        has_peers && token == SEND_GET_HEADERS_TOKEN ==> (if header_requests_due(n_sync, ibd) {
            r matches Some(Task::SendGetHeadersToAll)
        } else {
            r is None
        }),
        has_peers && token == BLOCK_FETCH_TOKEN ==> r matches Some(Task::FetchBlock),
{
    if !has_peers {
        None
    } else if token == SEND_GET_HEADERS_TOKEN {
        if n_sync == 0 || !ibd {
            Some(Task::SendGetHeadersToAll)
        } else {
            None
        }
    } else {
        Some(Task::FetchBlock)
    }
}

/// The work a new connection becomes: every connection is set up.
pub fn task_for_connection(peer: PeerId) -> (r: Task)
    ensures
        r matches Task::OnConnected(p) && p == peer,
{
    Task::OnConnected(peer)
}

/// A header request whose locator is `locator`, open-ended.
pub fn getheaders_message(locator: Vec<Byte32>) -> (r: GetHeaders)
    ensures
        r.version == 0,
        r.block_locator_hashes@ == locator@,
        r.hash_stop == (Byte32 { w0: 0, w1: 0, w2: 0, w3: 0 }),
{
    GetHeaders { version: 0, block_locator_hashes: locator, hash_stop: Byte32::zero() }
}

/// A GetData asking for each of `hashes` as a block, in order.
pub fn block_getdata(hashes: &Vec<Byte32>) -> (r: GetData)
    ensures
        r.inventory@ == block_inventory(hashes@),
{
    let mut inventory: Vec<Inventory> = Vec::new();
    let mut i: usize = 0;
    while i < hashes.len()
        invariant
            i <= hashes@.len(),
            inventory@ == block_inventory(hashes@.subrange(0, i as int)),
        decreases hashes@.len() - i,
    {
        inventory.push(Inventory { inv_type: InventoryType::MsgBlock, hash: hashes[i] });
        assert(block_inventory(hashes@.subrange(0, i + 1)) =~= block_inventory(
            hashes@.subrange(0, i as int),
        ).push(Inventory { inv_type: InventoryType::MsgBlock, hash: hashes@[i as int] }));
        i = i + 1;
    }
    assert(hashes@.subrange(0, hashes@.len() as int) =~= hashes@);
    GetData { inventory }
}

/// The inventory asking for each hash as a block.
pub open spec fn block_inventory(hashes: Seq<Byte32>) -> Seq<Inventory> {
    hashes.map_values(|h: Byte32| Inventory { inv_type: InventoryType::MsgBlock, hash: h })
}

/// The GetData inventories to send, per peer, for the blocks each peer can
/// supply: peers with nothing to fetch are skipped.
pub open spec fn fetch_plan(s: Seq<(PeerId, Option<Vec<Byte32>>)>) -> Seq<(PeerId, Seq<Inventory>)>
    decreases s.len(),
{
    if s.len() == 0 {
        Seq::empty()
    } else {
        let rest = fetch_plan(s.drop_last());
        match s.last().1 {
            Some(hashes) => rest.push((s.last().0, block_inventory(hashes@))),
            None => rest,
        }
    }
}

/// The hashes of the block items of an inventory, in order.
pub open spec fn block_hashes(inv: Seq<Inventory>) -> Seq<Byte32>
    decreases inv.len(),
{
    if inv.len() == 0 {
        Seq::empty()
    } else if inv.last().inv_type == InventoryType::MsgBlock {
        block_hashes(inv.drop_last()).push(inv.last().hash)
    } else {
        block_hashes(inv.drop_last())
    }
}

/// The per-peer inventories of a list of requests.
pub open spec fn requests_view(r: Seq<(PeerId, GetData)>) -> Seq<(PeerId, Seq<Inventory>)> {
    r.map_values(|x: (PeerId, GetData)| (x.0, x.1.inventory@))
}

/// `x` capped at the largest `u64`.
pub open spec fn saturate(x: int) -> u64 {
    if x > u64::MAX {
        u64::MAX
    } else {
        x as u64
    }
}

/// The header-sync deadline of a peer connecting at `now` while our tip was
/// made at `tip_timestamp`: a base allowance plus a little time for each
/// header expected since the tip.
pub open spec fn headers_sync_deadline_spec(now: u64, tip_timestamp: u64) -> u64 {
    let behind: int = if now > tip_timestamp {
        now - tip_timestamp
    } else {
        0
    };
    saturate(
        now + HEADERS_DOWNLOAD_TIMEOUT_BASE + HEADERS_DOWNLOAD_TIMEOUT_PER_HEADER * (behind
            / POW_SPACE as int),
    )
}

/// Computes the header-sync deadline; it saturates at the largest `u64`.
pub fn get_headers_sync_timeout(now: u64, tip_timestamp: u64) -> (r: u64)
    ensures
        r == headers_sync_deadline_spec(now, tip_timestamp),
{
    let behind = if now > tip_timestamp {
        now - tip_timestamp
    } else {
        0
    };
    let headers = behind / POW_SPACE;
    now.saturating_add(HEADERS_DOWNLOAD_TIMEOUT_BASE).saturating_add(
        HEADERS_DOWNLOAD_TIMEOUT_PER_HEADER * headers,
    )
}

/// The shared synchronisation state: the registry and its counters.
pub struct Synchronizer {
    pub peers: PeerRegistry,
    /// Peers that have been set up for syncing.
    pub n_sync: u64,
    /// Outbound peers exempt from the chain-sync timeout.
    pub outbound_peers_with_protect: u64,
    /// Blocks requested and not yet received.
    pub blocks_in_flight: BlocksInFlight,
}

impl Synchronizer {
    pub open spec fn wf(&self) -> bool {
        &&& self.peers.wf()
        &&& self.blocks_in_flight.wf()
        &&& self.outbound_peers_with_protect <= MAX_OUTBOUND_PEERS_TO_PROTECT_FROM_DISCONNECT
    }

    pub fn new() -> (r: Synchronizer)
        ensures
            r.wf(),
            r.peers.states@.len() == 0,
            r.peers.best_known_headers@.len() == 0,
            r.n_sync == 0,
            r.outbound_peers_with_protect == 0,
            r.blocks_in_flight.entries@.len() == 0,
    {
        Synchronizer {
            peers: PeerRegistry::new(),
            n_sync: 0,
            outbound_peers_with_protect: 0,
            blocks_in_flight: BlocksInFlight::new(),
        }
    }

    /// Sets up a newly connected peer for syncing: an outbound peer is
    /// protected while fewer than the maximum are (a peer whose session is
    /// already gone, `outbound == None`, is not); the peer is registered with
    /// the deadline and protection; and it counts as syncing. Returns whether
    /// it is protected. A peer already registered is left as it is, and its
    /// protection is returned. The caller then sends it a header request from
    /// our tip.
    pub fn on_connected(
        &mut self,
        peer: PeerId,
        outbound: Option<bool>,
        headers_sync_deadline: u64,
    ) -> (r: bool)
        requires
            old(self).wf(),
            old(self).n_sync < u64::MAX,
        ensures
            final(self).wf(),
            final(self).blocks_in_flight == old(self).blocks_in_flight,
            final(self).peers.best_known_headers@ == old(self).peers.best_known_headers@,
            contains_peer(old(self).peers.states@, peer) ==> {
                &&& final(self).peers.states@ == old(self).peers.states@
                &&& final(self).n_sync == old(self).n_sync
                &&& final(self).outbound_peers_with_protect == old(
                    self,
                ).outbound_peers_with_protect
                &&& r == state_of(old(self).peers.states@, peer)->0.chain_sync.protect
            },
            !contains_peer(old(self).peers.states@, peer) ==> {
                &&& r == (outbound == Some(true) && old(self).outbound_peers_with_protect
                    < MAX_OUTBOUND_PEERS_TO_PROTECT_FROM_DISCONNECT)
                &&& final(self).outbound_peers_with_protect == old(
                    self,
                ).outbound_peers_with_protect + (if r {
                    1int
                } else {
                    0int
                })
                &&& final(self).n_sync == old(self).n_sync + 1
                &&& final(self).peers.states@ == old(self).peers.states@.push(
                    PeerEntry {
                        peer,
                        state: PeerState {
                            headers_sync_timeout: Some(headers_sync_deadline),
                            disconnect: false,
                            chain_sync: ChainSyncState {
                                protect: r,
                                timeout: 0,
                                work_header: None,
                                sent_getheaders: false,
                            },
                        },
                    },
                )
            },
    {
        match self.peers.state(peer) {
            Some(st) => {
                proof {
                    lemma_state_of_present(self.peers.states@, peer);
                }
                return st.chain_sync.protect;
            },
            None => {
                proof {
                    lemma_state_of_present(self.peers.states@, peer);
                }
            },
        }
        let protect = outbound == Some(true) && self.outbound_peers_with_protect
            < MAX_OUTBOUND_PEERS_TO_PROTECT_FROM_DISCONNECT;
        if protect {
            self.outbound_peers_with_protect = self.outbound_peers_with_protect + 1;
        }
        self.peers.on_connected(peer, headers_sync_deadline, protect);
        self.n_sync = self.n_sync + 1;
        protect
    }

    /// Forgets a disconnected peer: its state, its best known header and the
    /// blocks requested from it.
    pub fn disconnected(&mut self, peer: PeerId)
        requires
            old(self).wf(),
        ensures
            final(self).wf(),
            final(self).n_sync == old(self).n_sync - (if contains_peer(old(self).peers.states@, peer)
                && old(self).n_sync > 0 {
                1int
            } else {
                0int
            }),
            final(self).outbound_peers_with_protect == old(self).outbound_peers_with_protect - (
            if state_of(old(self).peers.states@, peer) matches Some(st) && st.chain_sync.protect
                && old(self).outbound_peers_with_protect > 0 {
                1int
            } else {
                0int
            }),
            !contains_peer(final(self).peers.states@, peer),
            !contains_best(final(self).peers.best_known_headers@, peer),
            !contains_peer(old(self).peers.states@, peer) ==> final(self).peers.states@ == old(
                self,
            ).peers.states@,
            forall|i: int|
                0 <= i < old(self).peers.states@.len() && (#[trigger] old(
                    self,
                ).peers.states@[i]).peer == peer ==> final(self).peers.states@ == old(
                    self,
                ).peers.states@.remove(i),
            !contains_best(old(self).peers.best_known_headers@, peer)
                ==> final(self).peers.best_known_headers@ == old(self).peers.best_known_headers@,
            forall|i: int|
                0 <= i < old(self).peers.best_known_headers@.len() && (#[trigger] old(
                    self,
                ).peers.best_known_headers@[i]).peer == peer
                    ==> final(self).peers.best_known_headers@ == old(
                    self,
                ).peers.best_known_headers@.remove(i),
            final(self).blocks_in_flight.entries@ == without_peer(
                old(self).blocks_in_flight.entries@,
                peer,
            ),
    {
        let known = self.peers.state(peer);
        proof {
            lemma_state_of_present(self.peers.states@, peer);
        }
        if let Some(st) = known {
            if self.n_sync > 0 {
                self.n_sync = self.n_sync - 1;
            }
            if st.chain_sync.protect && self.outbound_peers_with_protect > 0 {
                self.outbound_peers_with_protect = self.outbound_peers_with_protect - 1;
            }
        }
        self.peers.disconnected(peer);
        self.blocks_in_flight.release_peer(peer);
    }
}


/// The sync protocol: the synchronizer and the decisions taken on its behalf.
pub struct SyncProtocol {
    pub synchronizer: Synchronizer,
}

impl SyncProtocol {
    pub fn new(synchronizer: Synchronizer) -> (r: SyncProtocol)
        ensures
            r.synchronizer == synchronizer,
    {
        SyncProtocol { synchronizer }
    }

    /// One eviction tick over all peers at time `now`; see
    /// `PeerRegistry::eviction`.
    pub fn eviction(&mut self, now: u64, ibd: bool, tip: HeaderView, sessions: &Vec<SessionInfo>) -> (r:
        Vec<(PeerId, PeerAction)>)
        requires
            old(self).synchronizer.wf(),
        ensures
            final(self).synchronizer.wf(),
            final(self).synchronizer.n_sync == old(self).synchronizer.n_sync,
            final(self).synchronizer.outbound_peers_with_protect == old(
                self,
            ).synchronizer.outbound_peers_with_protect,
            final(self).synchronizer.blocks_in_flight == old(self).synchronizer.blocks_in_flight,
            final(self).synchronizer.peers.best_known_headers@ == old(
                self,
            ).synchronizer.peers.best_known_headers@,
            final(self).synchronizer.peers.states@.len() == old(self).synchronizer.peers.states@.len(),
            r@.len() == old(self).synchronizer.peers.states@.len(),
            forall|i: int|
                #![trigger final(self).synchronizer.peers.states@[i]]
                #![trigger r@[i]]
                0 <= i < r@.len() ==> {
                    let e = old(self).synchronizer.peers.states@[i];
                    let t = tick(
                        e.state,
                        now,
                        ibd,
                        outbound_of(sessions@, e.peer),
                        best_difficulty_of(old(self).synchronizer.peers.best_known_headers@, e.peer),
                        tip,
                    );
                    &&& final(self).synchronizer.peers.states@[i].peer == e.peer
                    &&& final(self).synchronizer.peers.states@[i].state == t.0
                    &&& r@[i] == (e.peer, t.1)
                    &&& e.state.disconnect ==> r@[i].1 == PeerAction::Nothing && final(self).synchronizer.peers.states@[i].state
                        == e.state
                },
    {
        self.synchronizer.peers.eviction(now, ibd, tip, sessions)
    }

    /// The block requests to send: one GetData for each peer that has blocks
    /// to fetch, in the given order.
    pub fn find_blocks_to_fetch(to_fetch: &Vec<(PeerId, Option<Vec<Byte32>>)>) -> (r: Vec<
        (PeerId, GetData),
    >)
        ensures
            requests_view(r@) == fetch_plan(to_fetch@),
    {
        let mut r: Vec<(PeerId, GetData)> = Vec::new();
        let mut i: usize = 0;
        while i < to_fetch.len()
            invariant
                i <= to_fetch@.len(),
                requests_view(r@) == fetch_plan(to_fetch@.subrange(0, i as int)),
            decreases to_fetch@.len() - i,
        {
            assert(to_fetch@.subrange(0, i + 1).drop_last() =~= to_fetch@.subrange(0, i as int));
            let peer = to_fetch[i].0;
            match &to_fetch[i].1 {
                Some(hashes) => {
                    let getdata = block_getdata(hashes);
                    let ghost before = r@;
                    r.push((peer, getdata));
                    assert(requests_view(r@) =~= requests_view(before).push(
                        (peer, block_inventory(hashes@)),
                    ));
                },
                None => {},
            }
            i = i + 1;
        }
        assert(to_fetch@.subrange(0, to_fetch@.len() as int) =~= to_fetch@);
        r
    }
}


/// Why a batch of headers was refused.
#[derive(Clone, Copy, Debug, PartialEq, Eq, Structural)]
pub enum HeadersError {
    /// A header does not extend the one before it.
    NonContiguous,
    /// The chain did not accept the batch.
    Rejected,
}

impl SyncProtocol {
    /// Answers a GetHeaders from our main chain `chain` (position = height);
    /// see `getheaders_reply`.
    pub fn handle_getheaders(chain: &Vec<Header>, message: &GetHeaders) -> (r: Headers)
        ensures
            getheaders_reply(chain@, message.block_locator_hashes@, message.hash_stop, r.headers@),
    {
        Headers {
            headers: headers_after_locator(chain, &message.block_locator_hashes, &message.hash_stop),
        }
    }

    /// The blocks a GetData asks for, in order; other items are skipped. The
    /// caller sends those it has.
    pub fn handle_getdata(message: &GetData) -> (r: Vec<Byte32>)
        ensures
            r@ == block_hashes(message.inventory@),
    {
        let inv = &message.inventory;
        let mut r: Vec<Byte32> = Vec::new();
        let mut i: usize = 0;
        while i < inv.len()
            invariant
                i <= inv@.len(),
                r@ == block_hashes(inv@.subrange(0, i as int)),
            decreases inv@.len() - i,
        {
            assert(inv@.subrange(0, i + 1).drop_last() =~= inv@.subrange(0, i as int));
            if inv[i].inv_type == InventoryType::MsgBlock {
                r.push(inv[i].hash);
            }
            i = i + 1;
        }
        assert(inv@.subrange(0, inv@.len() as int) =~= inv@);
        r
    }

    /// Records a batch of headers from `peer`. A batch that is not contiguous
    /// is refused. Otherwise `accepted` is what the chain made of its last
    /// header (`None` when it refused the batch): it becomes the peer's best
    /// known header if it beats the one recorded, and when it reaches our tip
    /// the peer's header-sync deadline is dropped. An empty batch changes
    /// nothing.
    pub fn handle_headers(
        &mut self,
        peer: PeerId,
        message: &Headers,
        accepted: Option<HeaderView>,
        tip: HeaderView,
    ) -> (r: Result<(), HeadersError>)
        requires
            old(self).synchronizer.wf(),
        ensures
            final(self).synchronizer.wf(),
            final(self).synchronizer.n_sync == old(self).synchronizer.n_sync,
            final(self).synchronizer.outbound_peers_with_protect == old(
                self,
            ).synchronizer.outbound_peers_with_protect,
            final(self).synchronizer.blocks_in_flight == old(self).synchronizer.blocks_in_flight,
            !contiguous(message.headers@) ==> r == Err::<(), HeadersError>(
                HeadersError::NonContiguous,
            ),
            contiguous(message.headers@) && message.headers@.len() == 0 ==> r is Ok,
            contiguous(message.headers@) && message.headers@.len() > 0 && accepted is None ==> r
                == Err::<(), HeadersError>(HeadersError::Rejected),
            r is Err || message.headers@.len() == 0 ==> final(self).synchronizer.peers.states@
                == old(self).synchronizer.peers.states@
                && final(self).synchronizer.peers.best_known_headers@ == old(
                self,
            ).synchronizer.peers.best_known_headers@,
            contiguous(message.headers@) && message.headers@.len() > 0 && accepted is Some ==> {
                let v = accepted->0;
                let olds = old(self).synchronizer.peers;
                let news = final(self).synchronizer.peers;
                &&& r is Ok
                &&& (!contains_best(olds.best_known_headers@, peer)
                    ==> news.best_known_headers@ == olds.best_known_headers@.push(
                    BestKnown { peer, header: v },
                ))
                &&& (forall|i: int|
                    0 <= i < olds.best_known_headers@.len() && (#[trigger] olds.best_known_headers@[i]).peer
                        == peer ==> news.best_known_headers@ == if v.total_difficulty.value()
                        > olds.best_known_headers@[i].header.total_difficulty.value() {
                        olds.best_known_headers@.update(i, BestKnown { peer, header: v })
                    } else {
                        olds.best_known_headers@
                    })
                &&& (v.total_difficulty.value() < tip.total_difficulty.value() ==> news.states@
                    == olds.states@)
                &&& (v.total_difficulty.value() >= tip.total_difficulty.value() ==> {
                    &&& (!contains_peer(olds.states@, peer) ==> news.states@ == olds.states@)
                    &&& forall|i: int|
                        0 <= i < olds.states@.len() && (#[trigger] olds.states@[i]).peer == peer
                            ==> news.states@ == olds.states@.update(
                            i,
                            PeerEntry {
                                peer,
                                state: PeerState {
                                    headers_sync_timeout: None,
                                    ..olds.states@[i].state
                                },
                            },
                        )
                })
            },
    {
        if !headers_contiguous(&message.headers) {
            return Err(HeadersError::NonContiguous);
        }
        if message.headers.len() == 0 {
            return Ok(());
        }
        match accepted {
            None => Err(HeadersError::Rejected),
            Some(v) => {
                self.synchronizer.peers.new_header_received(peer, v);
                if v.total_difficulty.ge(&tip.total_difficulty) {
                    self.synchronizer.peers.clear_headers_sync_timeout(peer);
                }
                Ok(())
            },
        }
    }
}

} // verus!

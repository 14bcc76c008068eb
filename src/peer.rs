use vstd::prelude::*;
use crate::types::{Difficulty, HeaderView};

verus! {

/// How long (ms) an outbound peer may stay behind our tip before it is probed.
pub const CHAIN_SYNC_TIMEOUT: u64 = 720_000;

/// How long (ms) a probed peer has to answer before it is evicted.
pub const EVICTION_TEST_RESPONSE_TIME: u64 = 120_000;

/// How many outbound peers are protected from the chain-sync timeout.
pub const MAX_OUTBOUND_PEERS_TO_PROTECT_FROM_DISCONNECT: u64 = 4;

/// Age (ms) of the tip past which the node is in initial block download.
pub const MAX_TIP_AGE: u64 = 86_400_000;

/// Chain-sync bookkeeping of one peer.
#[derive(Clone, Copy, Debug, PartialEq, Eq, Structural)]
pub struct ChainSyncState {
    /// Exempt from the chain-sync timeout.
    pub protect: bool,
    /// Deadline of the current phase; 0 when the peer is not watched.
    pub timeout: u64,
    /// Our tip when the peer was last noticed to be behind.
    pub work_header: Option<HeaderView>,
    /// Whether the single probe of this phase has been sent.
    pub sent_getheaders: bool,
}

/// State of one connected peer.
#[derive(Clone, Copy, Debug, PartialEq, Eq, Structural)]
pub struct PeerState {
    /// Deadline for the peer to deliver headers, if still pending.
    pub headers_sync_timeout: Option<u64>,
    /// Sticky mark: the peer is to be disconnected.
    pub disconnect: bool,
    pub chain_sync: ChainSyncState,
}

/// What one eviction tick asks the transport to do about a peer.
#[derive(Clone, Copy, Debug, PartialEq, Eq, Structural)]
pub enum PeerAction {
    Nothing,
    /// Report the peer with a timeout severity.
    Evict,
    /// Send one GetHeaders whose locator starts at the given header.
    SendGetHeaders(HeaderView),
}

impl ChainSyncState {
    /// A watched peer has a recorded header, an unwatched one has none, and a
    /// probe is only ever sent while watching.
    pub open spec fn wf(self) -> bool {
        &&& (self.timeout != 0) == self.work_header.is_some()
        &&& self.sent_getheaders ==> self.work_header.is_some()
    }

    /// Not watching the peer at all.
    pub open spec fn is_inactive(self) -> bool {
        self.timeout == 0 && self.work_header.is_none() && !self.sent_getheaders
    }
}

impl PeerState {
    pub open spec fn wf(self) -> bool {
        self.chain_sync.wf()
    }

    /// The state of a peer right after it connected.
    pub fn new(headers_sync_timeout: u64, protect: bool) -> (r: PeerState)
        ensures
            r.headers_sync_timeout == Some(headers_sync_timeout),
            !r.disconnect,
            r.chain_sync.protect == protect,
            r.chain_sync.is_inactive(),
            r.wf(),
    {
        PeerState {
            headers_sync_timeout: Some(headers_sync_timeout),
            disconnect: false,
            chain_sync: ChainSyncState {
                protect,
                timeout: 0,
                work_header: None,
                sent_getheaders: false,
            },
        }
    }
}

/// The instant `d` ms after `now`, capped at the largest `u64`.
pub open spec fn later(now: u64, d: u64) -> u64 {
    if now as int + d as int > u64::MAX as int {
        u64::MAX
    } else {
        (now + d) as u64
    }
}

/// Whether a peer whose best known header has difficulty `best` has caught up
/// with `target`.
pub open spec fn reaches(best: Option<Difficulty>, target: Difficulty) -> bool {
    best.is_some() && best.unwrap().value() >= target.value()
}

/// Whether the header-sync deadline of `s` has passed during initial block
/// download while the peer is not yet marked.
pub open spec fn headers_sync_expired(s: PeerState, now: u64, ibd: bool) -> bool {
    s.headers_sync_timeout.is_some() && now > s.headers_sync_timeout.unwrap() && ibd
        && !s.disconnect
}

/// One eviction tick on one peer: the new state and the action.
///
/// `outbound` is what the transport knows of the session (`None` when it has
/// none), `best` the difficulty of the best header the peer announced, `tip`
/// our current tip.
pub open spec fn tick(
    s: PeerState,
    now: u64,
    ibd: bool,
    outbound: Option<bool>,
    best: Option<Difficulty>,
    tip: HeaderView,
) -> (PeerState, PeerAction) {
    let cs = s.chain_sync;
    if s.disconnect {
        // already reported: never reported again
        (s, PeerAction::Nothing)
    } else if headers_sync_expired(s, now, ibd) {
        (PeerState { disconnect: true, ..s }, PeerAction::Evict)
    } else if ibd || outbound != Some(true) || cs.protect {
        // chain sync watches unprotected outbound peers once the initial
        // block download is over
        (s, PeerAction::Nothing)
    } else if reaches(best, tip.total_difficulty) {
        // caught up: back to inactive
        let cs2 = if cs.timeout != 0 {
            ChainSyncState { timeout: 0, work_header: None, sent_getheaders: false, ..cs }
        } else {
            cs
        };
        (PeerState { chain_sync: cs2, ..s }, PeerAction::Nothing)
    } else if cs.timeout == 0 || (cs.work_header.is_some() && reaches(
        best,
        cs.work_header.unwrap().total_difficulty,
    )) {
        // behind: start watching against the current tip
        let cs2 = ChainSyncState {
            timeout: later(now, CHAIN_SYNC_TIMEOUT),
            work_header: Some(tip),
            sent_getheaders: false,
            ..cs
        };
        (PeerState { chain_sync: cs2, ..s }, PeerAction::Nothing)
    } else if now > cs.timeout {
        if cs.sent_getheaders {
            (PeerState { disconnect: true, ..s }, PeerAction::Evict)
        } else {
            let cs2 = ChainSyncState {
                timeout: later(now, EVICTION_TEST_RESPONSE_TIME),
                sent_getheaders: true,
                ..cs
            };
            (PeerState { chain_sync: cs2, ..s }, PeerAction::SendGetHeaders(
                cs.work_header.unwrap(),
            ))
        }
    } else {
        (s, PeerAction::Nothing)
    }
}

/// Runs one eviction tick on `state` and returns what to do about the peer.
pub fn tick_peer(
    state: &mut PeerState,
    now: u64,
    ibd: bool,
    outbound: Option<bool>,
    best: Option<Difficulty>,
    tip: HeaderView,
) -> (r: PeerAction)
    requires
        old(state).wf(),
    ensures
        (*final(state), r) == tick(*old(state), now, ibd, outbound, best, tip),
        final(state).wf(),
        old(state).disconnect ==> r == PeerAction::Nothing && *final(state) == *old(state),
{
    if state.disconnect {
        return PeerAction::Nothing;
    }
    if let Some(deadline) = state.headers_sync_timeout {
        if now > deadline && ibd {
            state.disconnect = true;
            return PeerAction::Evict;
        }
    }
    let is_outbound = match outbound {
        Some(b) => b,
        None => false,
    };
    if ibd || !is_outbound || state.chain_sync.protect {
        return PeerAction::Nothing;
    }
    let caught_up = match best {
        Some(d) => d.ge(&tip.total_difficulty),
        None => false,
    };
    if caught_up {
        if state.chain_sync.timeout != 0 {
            state.chain_sync.timeout = 0;
            state.chain_sync.work_header = None;
            state.chain_sync.sent_getheaders = false;
        }
        return PeerAction::Nothing;
    }
    let reached_work = match (best, state.chain_sync.work_header) {
        (Some(d), Some(w)) => d.ge(&w.total_difficulty),
        _ => false,
    };
    if state.chain_sync.timeout == 0 || reached_work {
        state.chain_sync.timeout = now.saturating_add(CHAIN_SYNC_TIMEOUT);
        state.chain_sync.work_header = Some(tip);
        state.chain_sync.sent_getheaders = false;
        PeerAction::Nothing
    } else if now > state.chain_sync.timeout {
        if state.chain_sync.sent_getheaders {
            state.disconnect = true;
            PeerAction::Evict
        } else {
            // a watched peer always has a recorded header (see `wf`)
            let work = match state.chain_sync.work_header {
                Some(w) => w,
                None => tip,
            };
            state.chain_sync.sent_getheaders = true;
            state.chain_sync.timeout = now.saturating_add(EVICTION_TEST_RESPONSE_TIME);
            PeerAction::SendGetHeaders(work)
        }
    } else {
        PeerAction::Nothing
    }
}


/// Header-sync eviction: a peer whose header-sync deadline has passed during
/// initial block download is evicted on the next tick, protected or not, and
/// no later tick, during initial block download or after it, reports it
/// again or changes its state.
pub proof fn lemma_header_sync_eviction(
    s: PeerState,
    now: u64,
    outbound: Option<bool>,
    best: Option<Difficulty>,
    tip: HeaderView,
    at: u64,
    ibd2: bool,
    outbound2: Option<bool>,
    best2: Option<Difficulty>,
    tip2: HeaderView,
)
    requires
        s.headers_sync_timeout is Some,
        now > s.headers_sync_timeout->0,
        !s.disconnect,
    ensures
        ({
            let (s1, a1) = tick(s, now, true, outbound, best, tip);
            &&& a1 == PeerAction::Evict
            &&& s1.disconnect
            &&& tick(s1, at, ibd2, outbound2, best2, tip2) == (s1, PeerAction::Nothing)
        }),
{
}

/// A peer marked for disconnection is left exactly as it is and never
/// reported again; an eviction marks the peer; and every tick keeps a
/// well-formed state well-formed and leaves the protection flag alone.
pub proof fn lemma_tick_preserves(
    s: PeerState,
    now: u64,
    ibd: bool,
    outbound: Option<bool>,
    best: Option<Difficulty>,
    tip: HeaderView,
)
    requires
        s.wf(),
    ensures
        ({
            let (s1, a) = tick(s, now, ibd, outbound, best, tip);
            &&& s.disconnect ==> s1 == s && a == PeerAction::Nothing
            &&& a == PeerAction::Evict ==> s1.disconnect
            &&& s1.wf()
            &&& s1.chain_sync.protect == s.chain_sync.protect
        }),
{
}

/// Chain-sync protection: a protected peer's chain-sync state never moves
/// and it is never probed; it is evicted only by the header-sync deadline.
pub proof fn lemma_chain_sync_protection(
    s: PeerState,
    now: u64,
    ibd: bool,
    outbound: Option<bool>,
    best: Option<Difficulty>,
    tip: HeaderView,
)
    requires
        s.chain_sync.protect,
    ensures
        ({
            let (s1, a) = tick(s, now, ibd, outbound, best, tip);
            &&& s1.chain_sync == s.chain_sync
            &&& !(a is SendGetHeaders)
            &&& a == PeerAction::Evict ==> headers_sync_expired(s, now, ibd)
        }),
{
}

/// One chain-sync tick on an unmarked, unprotected outbound peer that is
/// behind our tip, after initial block download: a peer not yet watched, or
/// one that caught up with the recorded header, is watched against the
/// current tip; a watched peer whose deadline passed without a probe is
/// probed once from the recorded header; and it is evicted exactly when the
/// probe was sent and its deadline has passed too.
pub proof fn lemma_chain_sync_step(
    s: PeerState,
    now: u64,
    best: Option<Difficulty>,
    tip: HeaderView,
)
    requires
        s.wf(),
        !s.chain_sync.protect,
        !s.disconnect,
        !reaches(best, tip.total_difficulty),
    ensures
        ({
            let cs = s.chain_sync;
            let (s1, a) = tick(s, now, false, Some(true), best, tip);
            let rewatch = cs.timeout == 0 || (cs.work_header is Some && reaches(
                best,
                cs.work_header->0.total_difficulty,
            ));
            &&& rewatch ==> {
                &&& a == PeerAction::Nothing
                &&& s1 == PeerState {
                    chain_sync: ChainSyncState {
                        protect: false,
                        timeout: later(now, CHAIN_SYNC_TIMEOUT),
                        work_header: Some(tip),
                        sent_getheaders: false,
                    },
                    ..s
                }
            }
            &&& !rewatch && now > cs.timeout && !cs.sent_getheaders ==> {
                &&& a == PeerAction::SendGetHeaders(cs.work_header->0)
                &&& s1 == PeerState {
                    chain_sync: ChainSyncState {
                        timeout: later(now, EVICTION_TEST_RESPONSE_TIME),
                        sent_getheaders: true,
                        ..cs
                    },
                    ..s
                }
            }
            &&& !rewatch ==> ((a == PeerAction::Evict) == (cs.sent_getheaders && now
                > cs.timeout))
            &&& a == PeerAction::Evict ==> s1 == PeerState { disconnect: true, ..s }
        }),
{
}

/// Chain-sync two-phase eviction: an unprotected outbound peer that stays
/// behind our tip is first watched, then probed with a single GetHeaders
/// once the watch expires, and evicted only when the probe's own deadline
/// has passed too; before either deadline it is left alone.
pub proof fn lemma_chain_sync_two_phase(
    s: PeerState,
    best: Option<Difficulty>,
    tip: HeaderView,
    t0: u64,
    t1: u64,
    t2: u64,
)
    requires
        s.wf(),
        s.chain_sync.is_inactive(),
        !s.chain_sync.protect,
        !s.disconnect,
        !reaches(best, tip.total_difficulty),
        t1 > later(t0, CHAIN_SYNC_TIMEOUT),
        t2 > later(t1, EVICTION_TEST_RESPONSE_TIME),
    ensures
        ({
            let (s1, a1) = tick(s, t0, false, Some(true), best, tip);
            let (s2, a2) = tick(s1, t1, false, Some(true), best, tip);
            let (s3, a3) = tick(s2, t2, false, Some(true), best, tip);
            &&& a1 == PeerAction::Nothing
            &&& s1.chain_sync.timeout == later(t0, CHAIN_SYNC_TIMEOUT)
            &&& s1.chain_sync.work_header == Some(tip)
            &&& forall|t: u64|
                t <= later(t0, CHAIN_SYNC_TIMEOUT) ==> #[trigger] tick(
                    s1,
                    t,
                    false,
                    Some(true),
                    best,
                    tip,
                ).1 == PeerAction::Nothing
            &&& a2 == PeerAction::SendGetHeaders(tip)
            &&& s2.chain_sync.timeout == later(t1, EVICTION_TEST_RESPONSE_TIME)
            &&& !s2.disconnect
            &&& forall|t: u64|
                t <= later(t1, EVICTION_TEST_RESPONSE_TIME) ==> #[trigger] tick(
                    s2,
                    t,
                    false,
                    Some(true),
                    best,
                    tip,
                ).1 == PeerAction::Nothing
            &&& a3 == PeerAction::Evict
            &&& s3.disconnect
        }),
{
}

} // verus!

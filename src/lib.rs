//! Peer synchronisation and block relay for a blockchain node: per-peer
//! timeout state machines, the peer registry, block locators, work dispatch,
//! and compact-block reconstruction.

pub mod types;
pub mod peer;
pub mod registry;
pub mod compact;
pub mod relay;
pub mod locator;
pub mod sync;
pub mod process;
pub mod fetch;

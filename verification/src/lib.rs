//! A local-network gossip core for a peer-to-peer wallet application:
//! peer discovery feeds per-topic membership, and a flooding publish/subscribe
//! engine disseminates wallet events with per-message deduplication.

pub mod blockchain;
pub mod codec;
pub mod defi;
pub mod engine;
pub mod membership;
pub mod seen;
pub mod state;
pub mod wallet;

use vstd::prelude::*;

verus! {

/// A stable per-process network identity, compared by equality only.
#[derive(Clone, Copy, PartialEq, Eq, Structural, Debug, Hash)]
pub struct PeerId {
    pub id: u64,
}

impl PeerId {
    pub fn new(id: u64) -> (r: PeerId)
        ensures
            r.id == id,
    {
        PeerId { id }
    }
}

} // verus!

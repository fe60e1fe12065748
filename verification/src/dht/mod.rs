//! The distributed hash table: peers and their scores, the routing table, lookups,
//! bootstrap, storage, and the tiers of well-behaved peers.
pub mod bootstrap;
pub mod course;
pub mod operations;
pub mod peer_info;
pub mod routing;
pub mod storage;
pub mod supernode;

use vstd::prelude::*;

verus! {

/// Errors of the hash table.
#[derive(Debug)]
#[allow(inconsistent_fields)]
pub enum DhtError {
    BucketFull { bucket: usize },
    PeerNotFound { peer_id: String },
    LookupFailed { reason: String },
    StoreFailed { reason: String },
    InvalidKey { reason: String },
}

} // verus!

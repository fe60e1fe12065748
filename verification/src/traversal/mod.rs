//! Getting through network address translators: finding the own outer address, the kind
//! of translator, punching holes, and relaying where that is impossible.
pub mod detection;
pub mod hole_punch;
pub mod relay;
pub mod stun;

use vstd::prelude::*;

verus! {

/// Errors of address translator traversal.
#[derive(Debug)]
#[allow(inconsistent_fields)]
pub enum NatError {
    StunFailed { reason: String },
    StunTimeout { timeout_ms: u64 },
    HolePunchFailed { reason: String },
    RelayRefused { reason: String },
    SymmetricNat,
    NoStunServers,
    /// The text of an I/O error.
    Io(String),
}

impl NatError {
    pub open spec fn is_stun_failed(self, text: Seq<char>) -> bool {
        self matches NatError::StunFailed { reason } && reason@ == text
    }

    pub open spec fn is_relay_refused(self, text: Seq<char>) -> bool {
        self matches NatError::RelayRefused { reason } && reason@ == text
    }
}

} // verus!

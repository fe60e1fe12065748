//! What can go wrong with keys, handshakes and sessions.
use vstd::prelude::*;
use vstd::string::*;

verus! {

/// Errors of the cryptographic parts.
#[derive(Debug)]
#[allow(inconsistent_fields)]
pub enum CryptoError {
    HandshakeFailed { reason: String },
    InvalidHandshakeState { expected: String, got: String },
    DecryptionFailed,
    InvalidSignature,
    InvalidPeerId { reason: String },
    NonceOverflow,
    ReplayDetected { nonce: u64 },
    KeyGenerationFailed { reason: String },
    Serialization(String),
    /// The text of an I/O error.
    Io(String),
}

impl CryptoError {
    /// This is a failed handshake, for the given reason.
    pub open spec fn is_handshake_failed(self, text: Seq<char>) -> bool {
        self matches CryptoError::HandshakeFailed { reason } && reason@ == text
    }

    /// This is a step of a handshake out of turn.
    pub open spec fn is_invalid_state(self, e: Seq<char>, g: Seq<char>) -> bool {
        self matches CryptoError::InvalidHandshakeState { expected, got } && expected@ == e && got@ == g
    }

    /// This is a malformed peer identifier.
    pub open spec fn is_invalid_peer_id(self, text: Seq<char>) -> bool {
        self matches CryptoError::InvalidPeerId { reason } && reason@ == text
    }

    pub fn handshake_failed(text: &str) -> (r: Self)
        ensures
            r.is_handshake_failed(text@),
    {
        CryptoError::HandshakeFailed { reason: String::from_str(text) }
    }

    pub fn invalid_state(expected: &str, got: &str) -> (r: Self)
        ensures
            r.is_invalid_state(expected@, got@),
    {
        CryptoError::InvalidHandshakeState { expected: String::from_str(expected), got: String::from_str(got) }
    }
}

} // verus!

//! What can be wrong with a frame.
use vstd::prelude::*;

verus! {

/// Errors of encoding and decoding frames.
#[derive(Debug)]
#[allow(inconsistent_fields)]
pub enum ProtocolError {
    InvalidMagic { got: u16 },
    UnsupportedVersion { version: u8 },
    UnknownMessageType { code: u8 },
    PayloadTooLarge { size: u32 },
    ChecksumMismatch { expected: u32, got: u32 },
    Incomplete { needed: usize },
    /// The text of an I/O error.
    Io(String),
}

} // verus!

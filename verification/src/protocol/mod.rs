//! The binary wire protocol: frames, and the messages that they carry.
pub mod codec;
pub mod dht;
pub mod error;
pub mod transfer;
pub mod types;

use vstd::prelude::*;

verus! {

/// The two bytes that every frame begins with.
pub const MAGIC: u16 = 0xCE4B;

/// The protocol version.
pub const VERSION: u8 = 1;

/// magic(2) + version(1) + type(1) + flags(1) + length(4) + request id(8) + checksum(4).
pub const HEADER_SIZE: usize = 21;

/// The largest payload of a frame: 16 MiB.
pub const MAX_PAYLOAD_SIZE: u32 = 16_777_216;

} // verus!

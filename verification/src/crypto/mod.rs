//! Identities, the handshake, and encrypted sessions.
pub mod error;
pub mod identity;
pub mod noise;
pub mod primitives;
pub mod session;

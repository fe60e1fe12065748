//! The core of a peer-to-peer node: everything that it decides and computes.
pub mod buffer;
pub mod counter;
pub mod crypto;
pub mod dht;
pub mod net;
pub mod node;
pub mod protocol;
pub mod table;
pub mod telemetry;
pub mod text;
pub mod time;
pub mod transfer;
pub mod transport;
pub mod traversal;
pub mod wire;

//! The transport: connections and their pool, and what is done about the frames that
//! arrive and leave over TCP and UDP.
pub mod connection;
pub mod pool;
pub mod tcp;
pub mod udp;

use vstd::prelude::*;
use crate::net::SocketAddr;
use crate::protocol::error::ProtocolError;
use crate::protocol::types::Frame;

verus! {

/// What the transport tells the layer above.
#[derive(Debug, Clone)]
#[allow(inconsistent_fields)]
pub enum TransportEvent {
    Connected { peer_addr: SocketAddr },
    Disconnected { peer_addr: SocketAddr, reason: String },
    FrameReceived { peer_addr: SocketAddr, frame: Frame },
    Error { peer_addr: Option<SocketAddr>, error: String },
}

/// Errors of the transport.
#[derive(Debug)]
#[allow(inconsistent_fields)]
pub enum TransportError {
    /// The text of an I/O error.
    Io(String),
    Protocol(ProtocolError),
    ConnectionClosed { addr: SocketAddr },
    PoolFull { max: usize },
    PeerNotFound { addr: SocketAddr },
    SendFailed,
    Timeout { addr: SocketAddr },
}

} // verus!

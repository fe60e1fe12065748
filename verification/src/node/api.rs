//! The control interface: who may use it, and what can be asked.
use vstd::prelude::*;
use vstd::string::*;
use crate::crypto::identity::PeerId;
use crate::net::SocketAddr;
use crate::telemetry::logger::same_text;
use crate::telemetry::metrics::{GlobalMetrics, TransferProgress};

verus! {

/// What can be asked of the node.
#[derive(Debug)]
#[allow(inconsistent_fields)]
pub enum ApiCommand {
    Connect(SocketAddr),
    SendFile { target: SocketAddr, file_path: String },
    SendMessage { target: SocketAddr, message: String },
}

/// What the node tells those who listen.
#[derive(Debug)]
#[allow(inconsistent_fields)]
pub enum ApiEvent {
    PeerConnected { peer: SocketAddr },
    PeerDisconnected { peer: SocketAddr, reason: String },
    FileOfferReceived { peer: SocketAddr, file_name: String, total_size: u64 },
    MessageReceived { peer: SocketAddr, message: String },
}

/// The answer to a request, as a status code.
pub const ACCEPTED: u16 = 202;

pub const BAD_REQUEST: u16 = 400;

/// Whether a request is let in: if there is a key, its authorization header must be the
/// word `Bearer`, a space and the key.
pub fn is_authorized(api_key: &Option<String>, header: Option<&str>) -> (r: bool)
    ensures
        r == (match *api_key {
            None => true,
            Some(key) => header is Some && header->0@ == "Bearer "@ + key@,
        }),
{
    match api_key {
        None => true,
        Some(key) => match header {
            None => false,
            Some(h) => {
                let mut expected: String = String::new();
                expected.append("Bearer ");
                expected.append(key.as_str());
                assert(expected@ =~= "Bearer "@ + key@);
                same_text(h, expected.as_str())
            },
        },
    }
}

/// A request for a connection.
#[derive(Debug)]
pub struct ConnectRequest {
    pub peer_addr: String,
}

/// A request to send a file.
#[derive(Debug)]
pub struct TransferRequest {
    pub target_peer: String,
    pub file_path: String,
}

/// A request for a connection, with the address that it names, if that could be read.
pub fn connect_peer(request: ConnectRequest, addr: Option<SocketAddr>) -> (r: (u16, Option<ApiCommand>))
    ensures
        r == (match addr {
            Some(a) => (ACCEPTED, Some(ApiCommand::Connect(a))),
            None => (BAD_REQUEST, None),
        }),
{
    match addr {
        Some(a) => (ACCEPTED, Some(ApiCommand::Connect(a))),
        None => (BAD_REQUEST, None),
    }
}

/// A request to send a file, with the address that it names, if that could be read.
pub fn send_file(request: TransferRequest, target: Option<SocketAddr>) -> (r: (u16, Option<ApiCommand>))
    ensures
        r == (match target {
            Some(a) => (ACCEPTED, Some(ApiCommand::SendFile { target: a, file_path: request.file_path })),
            None => (BAD_REQUEST, None),
        }),
{
    match target {
        Some(a) => (ACCEPTED, Some(ApiCommand::SendFile { target: a, file_path: request.file_path })),
        None => (BAD_REQUEST, None),
    }
}

/// What is told of the node.
#[derive(Debug)]
pub struct StatusResponse {
    pub peer_id: String,
    pub tcp_addr: String,
    pub udp_addr: String,
    pub active_connections: usize,
    pub dht_active_peers: usize,
    pub dht_total_peers: usize,
}

/// What is told of the node, whose addresses are given in words.
pub fn get_status(peer_id: &PeerId, tcp_addr: String, udp_addr: String, metrics: &GlobalMetrics) -> (r: StatusResponse)
    ensures
        r.peer_id@ == peer_id.short_form(),
        r.tcp_addr == tcp_addr,
        r.udp_addr == udp_addr,
        r.active_connections == metrics.active_tcp_connections,
        r.dht_active_peers == metrics.dht_active_peers,
        r.dht_total_peers == metrics.dht_total_peers,
{
    StatusResponse {
        peer_id: peer_id.to_string(),
        tcp_addr,
        udp_addr,
        active_connections: metrics.active_tcp_connections,
        dht_active_peers: metrics.dht_active_peers,
        dht_total_peers: metrics.dht_total_peers,
    }
}

/// What is told of the traffic and the transfers.
#[derive(Debug)]
pub struct MetricsResponse {
    pub tx_bytes: usize,
    pub rx_bytes: usize,
    pub tx_rate: usize,
    pub rx_rate: usize,
    pub transfers: Vec<TransferProgress>,
}

/// What is told of the traffic and the transfers.
pub fn get_metrics(metrics: &GlobalMetrics) -> (r: MetricsResponse)
    ensures
        r.tx_bytes == metrics.tx_bytes,
        r.rx_bytes == metrics.rx_bytes,
        r.tx_rate == metrics.tx_rate,
        r.rx_rate == metrics.rx_rate,
        r.transfers@.len() == metrics.transfers@.len(),
        forall|i: int| 0 <= i < r.transfers@.len() ==> (#[trigger] r.transfers@[i]).same(metrics.transfers@[i]),
{
    let mut transfers: Vec<TransferProgress> = Vec::new();
    let mut i: usize = 0;
    while i < metrics.transfers.len()
        invariant
            i <= metrics.transfers@.len(),
            transfers@.len() == i,
            forall|j: int| 0 <= j < i ==> (#[trigger] transfers@[j]).same(metrics.transfers@[j]),
        decreases metrics.transfers@.len() - i,
    {
        transfers.push(metrics.transfers[i].clone());
        i += 1;
    }
    MetricsResponse {
        tx_bytes: metrics.tx_bytes,
        rx_bytes: metrics.rx_bytes,
        tx_rate: metrics.tx_rate,
        rx_rate: metrics.rx_rate,
        transfers,
    }
}

/// A request with an address is accepted and becomes a command for it; one without is refused and
/// becomes none.
pub proof fn law_requests_become_commands(
    request: ConnectRequest,
    transfer: TransferRequest,
    addr: Option<SocketAddr>,
    r: (u16, Option<ApiCommand>),
    s: (u16, Option<ApiCommand>),
)
    requires
        call_ensures(connect_peer, (request, addr), r),
        call_ensures(send_file, (transfer, addr), s),
    ensures
        addr is None ==> r.0 == 400 && r.1 is None && s.0 == 400 && s.1 is None,
        addr is Some ==> r.0 == 202 && s.0 == 202,
        addr is Some ==> r.1 == Some(ApiCommand::Connect(addr->0)),
        addr is Some ==> s.1 == Some(ApiCommand::SendFile { target: addr->0, file_path: transfer.file_path }),
{
}

/// Where a key is set, only who presents it is let in; where none is, everybody is.
pub proof fn law_key_lets_in(key: Option<String>, header: Option<&str>, r: bool)
    requires
        call_ensures(is_authorized, (&key, header), r),
    ensures
        key is None ==> r,
        key is Some && header is None ==> !r,
        key is Some && header is Some ==> (r <==> header->0@ == "Bearer "@ + key->0@),
{
}

/// What is told of the node is what it is and what was measured.
pub proof fn law_status_is_what_was_measured(
    peer_id: PeerId,
    tcp: String,
    udp: String,
    m: GlobalMetrics,
    s: StatusResponse,
    r: MetricsResponse,
    i: int,
)
    requires
        call_ensures(get_status, (&peer_id, tcp, udp, &m), s),
        call_ensures(get_metrics, (&m,), r),
    ensures
        s.peer_id@ == peer_id.short_form() && s.tcp_addr == tcp && s.udp_addr == udp,
        s.active_connections == m.active_tcp_connections && s.dht_active_peers == m.dht_active_peers && s.dht_total_peers
            == m.dht_total_peers,
        r.tx_bytes == m.tx_bytes && r.rx_bytes == m.rx_bytes && r.tx_rate == m.tx_rate && r.rx_rate == m.rx_rate,
        r.transfers@.len() == m.transfers@.len(),
        0 <= i < r.transfers@.len() ==> r.transfers@[i].transfer_id@ == m.transfers@[i].transfer_id@ && r.transfers@[i].completed_chunks
            == m.transfers@[i].completed_chunks && r.transfers@[i].total_chunks == m.transfers@[i].total_chunks,
{
    if 0 <= i < r.transfers@.len() {
        assert(r.transfers@[i].same(m.transfers@[i]));
    }
}

} // verus!

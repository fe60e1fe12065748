//! What is done about connections over TCP and the frames on them.
use vstd::prelude::*;
use vstd::string::*;
use crate::buffer::bytes_as_slice;
use crate::counter::{count, counted};
use crate::net::SocketAddr;
use crate::protocol::types::{Flags, Frame, MessageType};
use crate::time::Instant;
use crate::transport::connection::{ConnectionInfo, ConnectionState};
use crate::transport::pool::{ConnectionPool, Pooled};
use crate::transport::{TransportError, TransportEvent};

verus! {

/// What is done about a frame that has arrived.
#[derive(Debug)]
pub enum FrameAction {
    /// A frame is sent back.
    Reply(Frame),
    /// Nothing more.
    Done,
    /// The layer above is told.
    Emit(TransportEvent),
}

/// The bytes that a frame takes on the wire.
pub open spec fn wire_bytes(f: Frame) -> u64 {
    counted(21, (f.data().len() % 0x1_0000_0000_0000_0000) as u64)
}

fn wire_bytes_of(f: &Frame) -> (r: u64)
    ensures
        r == wire_bytes(*f),
{
    let n: usize = bytes_as_slice(&f.payload).len();
    count(21, (n as u128 % 0x1_0000_0000_0000_0000u128) as u64)
}

/// A connection was accepted or made: it goes into the pool and is established at once,
/// and the layer above is told. Where the pool is full, it is refused.
pub fn on_connected(pool: &mut ConnectionPool, peer_addr: SocketAddr, now: Instant) -> (r: Result<TransportEvent, TransportError>)
    requires
        old(pool).wf(),
    ensures
        final(pool).wf(),
        final(pool).capacity() == old(pool).capacity(),
        final(pool).defaults() == old(pool).defaults(),
        final(pool).removed() == old(pool).removed(),
        match r {
            Ok(e) => {
                &&& old(pool)@.len() < old(pool).capacity()
                &&& e == (TransportEvent::Connected { peer_addr })
                &&& final(pool)@ == old(pool)@.insert(
                    peer_addr.spec_key(),
                    if old(pool)@.contains_key(peer_addr.spec_key()) {
                        Pooled {
                            addr: old(pool)@[peer_addr.spec_key()].addr,
                            info: old(pool)@[peer_addr.spec_key()].info.in_state(ConnectionState::Established),
                        }
                    } else {
                        Pooled {
                            addr: peer_addr,
                            info: ConnectionInfo::spec_new(peer_addr, old(pool).defaults(), now).in_state(
                                ConnectionState::Established,
                            ),
                        }
                    },
                )
            },
            Err(e) => {
                &&& old(pool)@.len() >= old(pool).capacity()
                &&& e == (TransportError::PoolFull { max: old(pool).capacity() })
                &&& final(pool)@ == old(pool)@
            },
        },
{
    match pool.insert(peer_addr, now) {
        Ok(_) => {},
        Err(e) => return Err(e),
    }
    if let Some(info) = pool.get(&peer_addr) {
        let mut info = info;
        info.set_established();
        pool.update(&peer_addr, info);
    }
    assert(pool@ =~= old(pool)@.insert(peer_addr.spec_key(), pool@[peer_addr.spec_key()]));
    Ok(TransportEvent::Connected { peer_addr })
}

/// The connection after a frame, from the transport's point of view.
pub open spec fn after_frame(info: ConnectionInfo, f: Frame, now: Instant) -> ConnectionInfo {
    let seen = info.after_recv(wire_bytes(f), now);
    if f.header.msg_type is Pong {
        seen.after_pong(now)
    } else {
        seen
    }
}

/// A frame has arrived. It is counted. A ping is answered by a pong with the same request
/// number, a pong ends the wait for it, and any other frame goes to the layer above.
pub fn on_frame(pool: &mut ConnectionPool, peer_addr: SocketAddr, frame: Frame, now: Instant) -> (r: FrameAction)
    requires
        old(pool).wf(),
    ensures
        final(pool).wf(),
        final(pool).same_books(*old(pool)),
        final(pool)@ == old(pool).updated(
            peer_addr,
            after_frame(old(pool)@[peer_addr.spec_key()].info, frame, now),
        ),
        match frame.header.msg_type {
            MessageType::Ping => {
                &&& r matches FrameAction::Reply(p) && p.data() == Seq::<u8>::empty() && p.header == Frame::new_header(
                    MessageType::Pong,
                    Flags(0),
                    frame.header.request_id,
                    0,
                )
            },
            MessageType::Pong => r is Done,
            _ => r == FrameAction::Emit(TransportEvent::FrameReceived { peer_addr, frame }),
        },
{
    let size: u64 = wire_bytes_of(&frame);
    let is_pong = matches!(frame.header.msg_type, MessageType::Pong);
    if let Some(info) = pool.get(&peer_addr) {
        let mut info = info;
        info.record_recv(size, now);
        if is_pong {
            info.record_pong_received(now);
        }
        pool.update(&peer_addr, info);
    }
    match frame.header.msg_type {
        MessageType::Ping => FrameAction::Reply(Frame::simple(MessageType::Pong, frame.header.request_id)),
        MessageType::Pong => FrameAction::Done,
        _ => FrameAction::Emit(TransportEvent::FrameReceived { peer_addr, frame }),
    }
}

/// A frame was handed to the connection to be sent. It is counted once it is written.
pub fn on_queued(pool: &mut ConnectionPool, peer_addr: SocketAddr, now: Instant)
    requires
        old(pool).wf(),
    ensures
        final(pool).wf(),
        final(pool).same_books(*old(pool)),
        final(pool)@ == old(pool).updated(peer_addr, old(pool)@[peer_addr.spec_key()].info.after_queueing(now)),
{
    if let Some(info) = pool.get(&peer_addr) {
        let mut info = info;
        info.record_queued(now);
        pool.update(&peer_addr, info);
    }
}

/// A frame of so many bytes was written to the connection.
pub fn on_written(pool: &mut ConnectionPool, peer_addr: SocketAddr, bytes: u64, now: Instant)
    requires
        old(pool).wf(),
    ensures
        final(pool).wf(),
        final(pool).same_books(*old(pool)),
        final(pool)@ == old(pool).updated(peer_addr, old(pool)@[peer_addr.spec_key()].info.after_send(bytes, now)),
{
    if let Some(info) = pool.get(&peer_addr) {
        let mut info = info;
        info.record_send(bytes, now);
        pool.update(&peer_addr, info);
    }
}

/// We hang up.
pub fn on_disconnect(pool: &mut ConnectionPool, peer_addr: SocketAddr)
    requires
        old(pool).wf(),
    ensures
        final(pool).wf(),
        final(pool).same_books(*old(pool)),
        final(pool)@ == old(pool).updated(
            peer_addr,
            old(pool)@[peer_addr.spec_key()].info.in_state(ConnectionState::Closing),
        ),
{
    if let Some(info) = pool.get(&peer_addr) {
        let mut info = info;
        info.set_closing();
        pool.update(&peer_addr, info);
    }
}

/// Reading has failed.
pub fn on_read_error(peer_addr: SocketAddr, text: &str) -> (r: TransportEvent)
    ensures
        r matches TransportEvent::Error { peer_addr: p, error } && p == Some(peer_addr) && error@ == text@,
{
    TransportEvent::Error { peer_addr: Some(peer_addr), error: String::from_str(text) }
}

/// The connection is at its end: it leaves the pool, and the layer above is told.
pub fn on_closed(pool: &mut ConnectionPool, peer_addr: SocketAddr) -> (r: TransportEvent)
    requires
        old(pool).wf(),
    ensures
        final(pool).wf(),
        final(pool)@ == old(pool)@.remove(peer_addr.spec_key()),
        final(pool).capacity() == old(pool).capacity(),
        final(pool).defaults() == old(pool).defaults(),
        final(pool).created() == old(pool).created(),
        r matches TransportEvent::Disconnected { peer_addr: p, reason } && p == peer_addr && reason@ == "connection closed"@,
{
    let _ = pool.remove(&peer_addr);
    TransportEvent::Disconnected { peer_addr, reason: String::from_str("connection closed") }
}

/// Every frame that arrives is counted with its 21 bytes of header, and is a sign of life. A pong
/// ends the wait for it; no other frame does.
pub proof fn law_every_frame_is_counted(info: ConnectionInfo, f: Frame, now: Instant)
    requires
        info.bytes_recv + 21 + f.data().len() <= u64::MAX,
        info.frames_recv < u64::MAX,
    ensures
        after_frame(info, f, now).bytes_recv == info.bytes_recv + 21 + f.data().len(),
        after_frame(info, f, now).frames_recv == info.frames_recv + 1,
        after_frame(info, f, now).last_recv == now,
        after_frame(info, f, now).bytes_sent == info.bytes_sent && after_frame(info, f, now).frames_sent == info.frames_sent,
        after_frame(info, f, now).state == info.state,
        after_frame(info, f, now).peer_addr == info.peer_addr && after_frame(info, f, now).config == info.config,
        after_frame(info, f, now).last_send == info.last_send && after_frame(info, f, now).connected_at == info.connected_at,
        f.header.msg_type == MessageType::Pong ==> after_frame(info, f, now).last_ping_sent is None && after_frame(
            info,
            f,
            now,
        ).missed_heartbeats == 0,
        f.header.msg_type != MessageType::Pong ==> after_frame(info, f, now).last_ping_sent == info.last_ping_sent && after_frame(
            info,
            f,
            now,
        ).missed_heartbeats == info.missed_heartbeats,
{
}

/// A ping is answered by a pong with its number; a pong is taken note of; any other frame is handed on.
pub proof fn law_what_becomes_of_a_frame(addr: SocketAddr, frame: Frame, now: Instant, r: FrameAction)
    ensures
        forall|p: &mut ConnectionPool| #[trigger]
            call_ensures(on_frame, (p, addr, frame, now), r) && frame.header.msg_type == MessageType::Ping ==> (
            r matches FrameAction::Reply(f) && f.header.msg_type == MessageType::Pong && f.header.request_id == frame.header.request_id
                && f.data().len() == 0),
        forall|p: &mut ConnectionPool| #[trigger]
            call_ensures(on_frame, (p, addr, frame, now), r) && frame.header.msg_type == MessageType::Pong ==> r is Done && (
            p@.contains_key(addr.spec_key()) ==> final(p)@[addr.spec_key()].info.last_ping_sent is None),
        forall|p: &mut ConnectionPool| #[trigger]
            call_ensures(on_frame, (p, addr, frame, now), r) && frame.header.msg_type != MessageType::Ping && frame.header.msg_type
                != MessageType::Pong ==> r == FrameAction::Emit(TransportEvent::FrameReceived { peer_addr: addr, frame }),
        forall|p: &mut ConnectionPool| #[trigger]
            call_ensures(on_frame, (p, addr, frame, now), r) && p@.contains_key(addr.spec_key()) ==> final(p)@[addr.spec_key()].info
                == after_frame(p@[addr.spec_key()].info, frame, now),
{
}

/// A connection that is made is established, what is written to it is counted, one that ends is
/// closing, and one that has ended is gone.
pub proof fn law_course_of_a_connection(
    addr: SocketAddr,
    bytes: u64,
    now: Instant,
    r: Result<TransportEvent, TransportError>,
    e: TransportEvent,
)
    ensures
        forall|p: &mut ConnectionPool| #[trigger]
            call_ensures(on_connected, (p, addr, now), r) ==> (r is Ok <==> p@.len() < p.capacity()) && (r is Ok
                ==> final(p)@[addr.spec_key()].info.state == ConnectionState::Established && r->Ok_0
                == (TransportEvent::Connected { peer_addr: addr })),
        forall|p: &mut ConnectionPool| #[trigger]
            call_ensures(on_written, (p, addr, bytes, now), ()) && p@.contains_key(addr.spec_key()) && p@[addr.spec_key()].info.bytes_sent
                + bytes <= u64::MAX ==> final(p)@[addr.spec_key()].info.bytes_sent == p@[addr.spec_key()].info.bytes_sent + bytes,
        forall|p: &mut ConnectionPool| #[trigger]
            call_ensures(on_disconnect, (p, addr), ()) && p@.contains_key(addr.spec_key()) ==> final(p)@[addr.spec_key()].info.state
                == ConnectionState::Closing,
        forall|p: &mut ConnectionPool| #[trigger]
            call_ensures(on_closed, (p, addr), e) ==> !final(p)@.contains_key(addr.spec_key()) && (
            e matches TransportEvent::Disconnected { peer_addr, reason } && peer_addr == addr && reason@ == "connection closed"@),
{
}

/// A frame that is queued is not counted as sent yet; a read that fails is told with the peer.
pub proof fn law_queued_and_failed(addr: SocketAddr, now: Instant, text: &str, e: TransportEvent)
    requires
        call_ensures(on_read_error, (addr, text), e),
    ensures
        forall|p: &mut ConnectionPool| #[trigger]
            call_ensures(on_queued, (p, addr, now), ()) && p@.contains_key(addr.spec_key()) ==> final(p)@[addr.spec_key()].info == (
            ConnectionInfo { last_send: now, ..p@[addr.spec_key()].info }),
        e matches TransportEvent::Error { peer_addr, error } && peer_addr == Some(addr) && error@ == text@,
{
}

} // verus!

//! Frames in datagrams: one whole frame in each.
use vstd::prelude::*;
use crate::buffer::{buf_as_slice, buf_from_slice};
use crate::net::SocketAddr;
use crate::protocol::codec::{consistent, found, frame_wire, law_decoding_is_a_function, law_encode_decode, received_header, Decoded, FrameCodec};
use crate::protocol::error::ProtocolError;
use crate::protocol::types::{len_field, Frame};
use crate::protocol::MAX_PAYLOAD_SIZE;
use crate::transport::{TransportError, TransportEvent};
use crate::wire::copy_range;

verus! {

/// The largest datagram.
pub const MAX_DATAGRAM_SIZE: usize = 65535;

/// The frame in a datagram; nothing in one that is cut off.
pub fn decode_datagram(data: &[u8]) -> (r: Result<Option<Frame>, ProtocolError>)
    ensures
        match r {
            Ok(Some(f)) => found(None, data@, Decoded::Complete(f.header, f.data())),
            Ok(None) => found(None, data@, Decoded::Incomplete),
            Err(e) => found(None, data@, Decoded::Fault(e)),
        },
{
    let mut buf = buf_from_slice(data);
    let mut codec = FrameCodec::new();
    codec.decode(&mut buf)
}

/// What a datagram tells the layer above: the frame in it, or nothing.
pub fn on_datagram(peer_addr: SocketAddr, data: &[u8]) -> (r: Option<TransportEvent>)
    ensures
        match r {
            Some(e) => e matches TransportEvent::FrameReceived { peer_addr: p, frame } && p == peer_addr && found(
                None,
                data@,
                Decoded::Complete(frame.header, frame.data()),
            ),
            None => found(None, data@, Decoded::Incomplete) || exists|e: ProtocolError| found(None, data@, Decoded::Fault(e)),
        },
{
    match decode_datagram(data) {
        Ok(Some(frame)) => Some(TransportEvent::FrameReceived { peer_addr, frame }),
        Ok(None) => None,
        Err(e) => {
            assert(found(None, data@, Decoded::Fault(e)));
            None
        },
    }
}

/// A frame as a datagram.
pub fn encode_datagram(frame: Frame) -> (r: Result<Vec<u8>, TransportError>)
    ensures
        match r {
            Ok(d) => len_field(frame.data().len()) <= MAX_PAYLOAD_SIZE && d@ == frame_wire(frame.header, frame.data()),
            Err(e) => {
                &&& len_field(frame.data().len()) > MAX_PAYLOAD_SIZE
                &&& e == TransportError::Protocol(
                    ProtocolError::PayloadTooLarge { size: len_field(frame.data().len()) },
                )
            },
        },
{
    let empty: [u8; 0] = [];
    let mut buf = buf_from_slice(empty.as_slice());
    let ghost wire = frame_wire(frame.header, frame.data());
    let mut codec = FrameCodec::new();
    match codec.encode(frame, &mut buf) {
        Ok(_) => {
            let s = buf_as_slice(&buf);
            let out = copy_range(s, 0, s.len());
            assert(out@ =~= wire);
            Ok(out)
        },
        Err(e) => Err(TransportError::Protocol(e)),
    }
}

/// What is found in the datagram of a frame is that frame.
pub proof fn law_datagram_roundtrip(f: Frame, d: Decoded)
    requires
        consistent(f.header, f.data()),
        found(None, frame_wire(f.header, f.data()), d),
    ensures
        d == Decoded::Complete(received_header(f.header, f.data()), f.data()),
{
    let w = frame_wire(f.header, f.data());
    law_encode_decode(f.header, f.data(), Seq::empty());
    assert(w + Seq::<u8>::empty() =~= w);
    law_decoding_is_a_function(None, w, d, Decoded::Complete(received_header(f.header, f.data()), f.data()));
}

/// A frame comes out of its datagram as it went in; what is no frame is passed over.
pub proof fn law_datagrams_are_read_back(
    f: Frame,
    d: Result<Vec<u8>, TransportError>,
    data: &[u8],
    r: Result<Option<Frame>, ProtocolError>,
    peer: SocketAddr,
    e: Option<TransportEvent>,
)
    requires
        consistent(f.header, f.data()),
        call_ensures(encode_datagram, (f,), d),
        d is Ok ==> data@ == d->Ok_0@,
        call_ensures(decode_datagram, (data,), r),
        call_ensures(on_datagram, (peer, data), e),
    ensures
        d is Ok,
        r is Ok && r->Ok_0 is Some && r->Ok_0->0.data() == f.data() && r->Ok_0->0.header == received_header(f.header, f.data()),
        e is Some && (e->0 matches TransportEvent::FrameReceived { peer_addr, frame } && peer_addr == peer && frame.data() == f.data()),
{
    assert(found(
        None,
        data@,
        match r {
            Ok(Some(g)) => Decoded::Complete(g.header, g.data()),
            Ok(None) => Decoded::Incomplete,
            Err(x) => Decoded::Fault(x),
        },
    ));
    law_datagram_roundtrip(
        f,
        match r {
            Ok(Some(g)) => Decoded::Complete(g.header, g.data()),
            Ok(None) => Decoded::Incomplete,
            Err(x) => Decoded::Fault(x),
        },
    );
    match e {
        Some(TransportEvent::FrameReceived { peer_addr, frame }) => {
            law_datagram_roundtrip(f, Decoded::Complete(frame.header, frame.data()));
        },
        Some(_) => {},
        None => {
            if found(None, data@, Decoded::Incomplete) {
                law_datagram_roundtrip(f, Decoded::Incomplete);
            } else {
                let x = choose|x: ProtocolError| found(None, data@, Decoded::Fault(x));
                law_datagram_roundtrip(f, Decoded::Fault(x));
            }
        },
    }
}

} // verus!

//! The frame codec: frames to bytes, and a stream of bytes back to frames.
use bytes::BytesMut;
use vstd::prelude::*;
use vstd::slice::slice_subrange;
use crate::buffer::{buf_advance, buf_as_slice, buf_contents, buf_extend, buf_freeze, buf_split_to, bytes_as_slice, bytes_contents};
use crate::protocol::error::ProtocolError;
use crate::protocol::types::{len_field, payload_len_field, Flags, Frame, FrameHeader, MessageType};
use crate::protocol::{HEADER_SIZE, MAGIC, MAX_PAYLOAD_SIZE, VERSION};
use crate::wire::{
    be, be_at, be_val, get_be, lemma_be_len, lemma_be_of_val, lemma_be_one, lemma_be_roundtrip, lemma_be_val_bound,
    lemma_pow256_values, put_be,
};

verus! {

/// The CRC-32C of a byte string, as `crc32c::crc32c` computes it.
pub uninterp spec fn crc32c_of(data: Seq<u8>) -> u32;

/// A CRC-32C continued over more bytes, as `crc32c::crc32c_append` computes it.
pub uninterp spec fn crc32c_extended(crc: u32, data: Seq<u8>) -> u32;

/// `crc32c::crc32c`: its result depends on the bytes alone, and is 0 continued over them.
#[verifier::external_body]
fn crc32c_start(data: &[u8]) -> (r: u32)
    ensures
        r == crc32c_of(data@),
        r == crc32c_extended(0, data@),
{
    crc32c::crc32c(data)
}

/// `crc32c::crc32c_append`: its result depends on the CRC so far and the bytes alone.
#[verifier::external_body]
fn crc32c_append(crc: u32, data: &[u8]) -> (r: u32)
    ensures
        r == crc32c_extended(crc, data@),
{
    crc32c::crc32c_append(crc, data)
}

/// The header fields that the checksum covers, in wire order.
pub open spec fn covered_fields(h: FrameHeader) -> Seq<u8> {
    be(h.magic as nat, 2) + be(h.version as nat, 1) + be(h.msg_type.code() as nat, 1) + be(
        h.flags.0 as nat,
        1,
    ) + be(h.payload_len as nat, 4) + be(h.request_id as nat, 8)
}

/// The checksum of a frame: over the header fields without the checksum, then over
/// the payload.
pub open spec fn checksum_of(h: FrameHeader, payload: Seq<u8>) -> u32 {
    crc32c_extended(crc32c_of(covered_fields(h)), payload)
}

/// The header of a frame on the wire.
pub open spec fn header_wire(msg_type: MessageType, flags: Flags, payload_len: u32, request_id: u64, checksum: u32) -> Seq<u8> {
    be(MAGIC as nat, 2) + be(VERSION as nat, 1) + be(msg_type.code() as nat, 1) + be(flags.0 as nat, 1) + be(
        payload_len as nat,
        4,
    ) + be(request_id as nat, 8) + be(checksum as nat, 4)
}

/// A frame on the wire.
pub open spec fn frame_wire(h: FrameHeader, payload: Seq<u8>) -> Seq<u8> {
    header_wire(h.msg_type, h.flags, len_field(payload.len()), h.request_id, checksum_of(h, payload)) + payload
}

/// The frames that the protocol knows: right magic and version, and a length field that
/// is the length of the payload, within the limit.
pub open spec fn consistent(h: FrameHeader, payload: Seq<u8>) -> bool {
    &&& h.magic == MAGIC
    &&& h.version == VERSION
    &&& h.payload_len == payload.len()
    &&& payload.len() <= MAX_PAYLOAD_SIZE
}

/// What is wrong with the header at the start of `s`, looked at field by field; nothing
/// if it can be read.
pub open spec fn header_fault(s: Seq<u8>) -> Option<ProtocolError> {
    if be_at(s, 0, 2) != MAGIC {
        Some(ProtocolError::InvalidMagic { got: be_at(s, 0, 2) as u16 })
    } else if s[2] != VERSION {
        Some(ProtocolError::UnsupportedVersion { version: s[2] })
    } else if forall|t: MessageType| #[trigger] t.code() != s[3] {
        Some(ProtocolError::UnknownMessageType { code: s[3] })
    } else if be_at(s, 5, 4) > MAX_PAYLOAD_SIZE {
        Some(ProtocolError::PayloadTooLarge { size: be_at(s, 5, 4) as u32 })
    } else {
        None
    }
}

/// `h` is the header that stands at the start of `s`.
pub open spec fn header_at_start(s: Seq<u8>, h: FrameHeader) -> bool {
    &&& h.magic == be_at(s, 0, 2)
    &&& h.version == s[2]
    &&& h.msg_type.code() == s[3]
    &&& h.flags.0 == s[4]
    &&& h.payload_len == be_at(s, 5, 4)
    &&& h.request_id == be_at(s, 9, 8)
    &&& h.checksum == be_at(s, 17, 4)
}

/// What one attempt to decode finds at the start of a buffer.
pub enum Decoded {
    /// The frame is not complete yet.
    Incomplete,
    /// There is no valid frame.
    Fault(ProtocolError),
    /// A frame with this header and payload.
    Complete(FrameHeader, Seq<u8>),
}

/// The header to go by: the one that is remembered, or else the one at the start of
/// the buffer.
pub open spec fn is_current_header(pending: Option<FrameHeader>, s: Seq<u8>, h: FrameHeader) -> bool {
    match pending {
        Some(p) => h == p,
        None => s.len() >= HEADER_SIZE && header_fault(s) is None && header_at_start(s, h),
    }
}

/// What decoding finds once the header is known.
pub open spec fn found_with_header(h: FrameHeader, s: Seq<u8>) -> Decoded {
    let end = HEADER_SIZE + h.payload_len;
    if s.len() < end {
        Decoded::Incomplete
    } else {
        let payload = s.subrange(HEADER_SIZE as int, end as int);
        if checksum_of(h, payload) != h.checksum {
            Decoded::Fault(
                ProtocolError::ChecksumMismatch { expected: h.checksum, got: checksum_of(h, payload) },
            )
        } else {
            Decoded::Complete(h, payload)
        }
    }
}

/// What an attempt to decode finds: `pending` is the header that an earlier attempt has
/// read already.
pub open spec fn found(pending: Option<FrameHeader>, s: Seq<u8>, d: Decoded) -> bool {
    if pending is None && s.len() < HEADER_SIZE {
        d == Decoded::Incomplete
    } else if pending is None && header_fault(s) is Some {
        d == Decoded::Fault(header_fault(s)->0)
    } else {
        exists|h: FrameHeader| #[trigger] is_current_header(pending, s, h) && d == found_with_header(h, s)
    }
}

/// The header that is remembered after an attempt to decode: one whose payload is still
/// to come, or has a wrong checksum.
pub open spec fn remembered(pending: Option<FrameHeader>, s: Seq<u8>, d: Decoded, after: Option<FrameHeader>) -> bool {
    if d is Complete {
        after is None
    } else {
        match after {
            Some(h) => is_current_header(pending, s, h) && h.payload_len > 0,
            None => forall|h: FrameHeader| #[trigger] is_current_header(pending, s, h) ==> h.payload_len == 0,
        }
    }
}

/// Appends the wire form of a header.
pub fn put_header(out: &mut Vec<u8>, msg_type: MessageType, flags: Flags, payload_len: u32, request_id: u64, checksum: u32)
    ensures
        final(out)@ == old(out)@ + header_wire(msg_type, flags, payload_len, request_id, checksum),
{
    put_be(out, MAGIC as u128, 2);
    put_be(out, VERSION as u128, 1);
    put_be(out, msg_type.as_byte() as u128, 1);
    put_be(out, flags.bits() as u128, 1);
    put_be(out, payload_len as u128, 4);
    put_be(out, request_id as u128, 8);
    put_be(out, checksum as u128, 4);
    assert(out@ =~= old(out)@ + header_wire(msg_type, flags, payload_len, request_id, checksum));
}

/// Holds the checksum that was computed against the one that the header carries.
pub fn check_checksum(header: &FrameHeader, computed: u32) -> (r: Result<(), ProtocolError>)
    ensures
        r == (if computed != header.checksum {
            Err(ProtocolError::ChecksumMismatch { expected: header.checksum, got: computed })
        } else {
            Ok(())
        }),
{
    if computed != header.checksum {
        Err(ProtocolError::ChecksumMismatch { expected: header.checksum, got: computed })
    } else {
        Ok(())
    }
}

/// A codec for one stream of frames. It remembers a header whose payload has not
/// arrived yet.
#[derive(Debug)]
pub struct FrameCodec {
    pending: Option<FrameHeader>,
}

impl Default for FrameCodec {
    fn default() -> (r: Self)
        ensures
            r.wf(),
            r@ is None,
    {
        FrameCodec { pending: None }
    }
}

impl FrameCodec {
    /// The header that is remembered.
    pub closed spec fn view(self) -> Option<FrameHeader> {
        self.pending
    }

    /// A remembered header waits for a payload within the limit.
    pub open spec fn wf(self) -> bool {
        self@ matches Some(h) ==> 0 < h.payload_len <= MAX_PAYLOAD_SIZE
    }

    pub fn new() -> (r: Self)
        ensures
            r.wf(),
            r@ is None,
    {
        FrameCodec { pending: None }
    }

    /// The checksum of a frame.
    pub fn compute_checksum(header: &FrameHeader, payload: &[u8]) -> (r: u32)
        ensures
            r == checksum_of(*header, payload@),
    {
        let mut buf: Vec<u8> = Vec::new();
        put_be(&mut buf, header.magic as u128, 2);
        put_be(&mut buf, header.version as u128, 1);
        put_be(&mut buf, header.msg_type.as_byte() as u128, 1);
        put_be(&mut buf, header.flags.bits() as u128, 1);
        put_be(&mut buf, header.payload_len as u128, 4);
        put_be(&mut buf, header.request_id as u128, 8);
        assert(buf@ =~= covered_fields(*header));
        let header_crc: u32 = crc32c_start(buf.as_slice());
        crc32c_append(header_crc, payload)
    }

    /// Reads the header at the start of `src`.
    pub fn decode_header(src: &[u8]) -> (r: Result<FrameHeader, ProtocolError>)
        requires
            src@.len() >= HEADER_SIZE,
        ensures
            match r {
                Ok(h) => header_fault(src@) is None && header_at_start(src@, h),
                Err(e) => header_fault(src@) == Some(e),
            },
    {
        proof {
            lemma_pow256_values();
        }
        let magic: u16 = get_be(src, 0, 2) as u16;
        if magic != MAGIC {
            return Err(ProtocolError::InvalidMagic { got: magic });
        }
        let version: u8 = src[2];
        if version != VERSION {
            return Err(ProtocolError::UnsupportedVersion { version });
        }
        let msg_type = match MessageType::from_byte(src[3]) {
            Some(t) => t,
            None => return Err(ProtocolError::UnknownMessageType { code: src[3] }),
        };
        let flags = Flags::new(src[4]);
        let payload_len: u32 = get_be(src, 5, 4) as u32;
        if payload_len > MAX_PAYLOAD_SIZE {
            return Err(ProtocolError::PayloadTooLarge { size: payload_len });
        }
        let request_id: u64 = get_be(src, 9, 8) as u64;
        let checksum: u32 = get_be(src, 17, 4) as u32;
        Ok(FrameHeader { magic, version, msg_type, flags, payload_len, request_id, checksum })
    }

    /// Takes the next frame out of the buffer. Without a complete frame, or where there
    /// is an error, the buffer is left as it was.
    pub fn decode(&mut self, src: &mut BytesMut) -> (r: Result<Option<Frame>, ProtocolError>)
        requires
            old(self).wf(),
        ensures
            final(self).wf(),
            match r {
                Ok(None) => {
                    &&& found(old(self)@, buf_contents(*old(src)), Decoded::Incomplete)
                    &&& remembered(old(self)@, buf_contents(*old(src)), Decoded::Incomplete, final(self)@)
                    &&& buf_contents(*final(src)) == buf_contents(*old(src))
                },
                Err(e) => {
                    &&& found(old(self)@, buf_contents(*old(src)), Decoded::Fault(e))
                    &&& remembered(old(self)@, buf_contents(*old(src)), Decoded::Fault(e), final(self)@)
                    &&& buf_contents(*final(src)) == buf_contents(*old(src))
                },
                Ok(Some(f)) => {
                    &&& found(old(self)@, buf_contents(*old(src)), Decoded::Complete(f.header, f.data()))
                    &&& final(self)@ is None
                    &&& buf_contents(*final(src)) == buf_contents(*old(src)).subrange(
                        HEADER_SIZE + f.data().len(),
                        buf_contents(*old(src)).len() as int,
                    )
                },
            },
            r matches Ok(Some(f)) ==> f.header.checksum == crc32c_extended(crc32c_of(covered_fields(f.header)), f.data())
                && f.header.payload_len == f.data().len() && f.data() == buf_contents(*old(src)).subrange(21, 21int + f.data().len()),
    {
        let ghost before = self@;
        let ghost s = buf_contents(*src);
        let header = match self.pending {
            Some(h) => h,
            None => {
                if buf_as_slice(src).len() < HEADER_SIZE {
                    return Ok(None);
                }
                match Self::decode_header(buf_as_slice(src)) {
                    Ok(h) => h,
                    Err(e) => {
                        assert(!is_current_header(before, s, arbitrary()));
                        return Err(e);
                    },
                }
            },
        };
        assert(is_current_header(before, s, header));
        proof {
            lemma_current_header_unique(before, s);
        }
        let total: usize = HEADER_SIZE + header.payload_len as usize;
        if buf_as_slice(src).len() < total {
            assert(header.payload_len > 0);
            self.pending = Some(header);
            return Ok(None);
        }
        let computed: u32 = Self::compute_checksum(
            &header,
            slice_subrange(buf_as_slice(src), HEADER_SIZE, total),
        );
        match check_checksum(&header, computed) {
            Ok(_) => {},
            Err(e) => {
                if header.payload_len > 0 {
                    self.pending = Some(header);
                }
                return Err(e);
            },
        }
        let mut frame_buf = buf_split_to(src, total);
        buf_advance(&mut frame_buf, HEADER_SIZE);
        let payload = buf_freeze(frame_buf);
        self.pending = None;
        assert(bytes_contents(payload) =~= s.subrange(HEADER_SIZE as int, total as int));
        Ok(Some(Frame { header, payload }))
    }

    /// Appends a frame to the buffer.
    pub fn encode(&mut self, frame: Frame, dst: &mut BytesMut) -> (r: Result<(), ProtocolError>)
        ensures
            *final(self) == *old(self),
            r == (if len_field(frame.data().len()) > MAX_PAYLOAD_SIZE {
                Err(ProtocolError::PayloadTooLarge { size: len_field(frame.data().len()) })
            } else {
                Ok(())
            }),
            buf_contents(*final(dst)) == (if r is Ok {
                buf_contents(*old(dst)) + frame_wire(frame.header, frame.data())
            } else {
                buf_contents(*old(dst))
            }),
    {
        let payload = bytes_as_slice(&frame.payload);
        let payload_len: u32 = payload_len_field(payload.len());
        if payload_len > MAX_PAYLOAD_SIZE {
            return Err(ProtocolError::PayloadTooLarge { size: payload_len });
        }
        let checksum: u32 = Self::compute_checksum(&frame.header, payload);
        let mut head: Vec<u8> = Vec::new();
        put_header(&mut head, frame.header.msg_type, frame.header.flags, payload_len, frame.header.request_id, checksum);
        buf_extend(dst, head.as_slice());
        buf_extend(dst, payload);
        assert(buf_contents(*dst) =~= buf_contents(*old(dst)) + frame_wire(frame.header, frame.data()));
        Ok(())
    }
}

/// There is at most one header to go by.
pub proof fn lemma_current_header_unique(pending: Option<FrameHeader>, s: Seq<u8>)
    ensures
        forall|a: FrameHeader, b: FrameHeader| #[trigger]
            is_current_header(pending, s, a) && #[trigger] is_current_header(pending, s, b) ==> a == b,
{
    assert forall|a: FrameHeader, b: FrameHeader| #[trigger]
        is_current_header(pending, s, a) && #[trigger] is_current_header(pending, s, b) implies a == b by {
        if pending is None {
            assert(a.msg_type.code() == b.msg_type.code());
            crate::protocol::types::law_codes_are_distinct(a.msg_type, b.msg_type);
            assert(a.flags == b.flags);
        }
    }
}

/// An attempt to decode finds one thing.
pub proof fn law_decoding_is_a_function(pending: Option<FrameHeader>, s: Seq<u8>, a: Decoded, b: Decoded)
    requires
        found(pending, s, a),
        found(pending, s, b),
    ensures
        a == b,
{
    lemma_current_header_unique(pending, s);
}

/// The header as decoded from the wire form of a frame.
pub open spec fn received_header(h: FrameHeader, payload: Seq<u8>) -> FrameHeader {
    FrameHeader { checksum: checksum_of(h, payload), ..h }
}

proof fn lemma_header_fields(h: FrameHeader, payload: Seq<u8>, rest: Seq<u8>)
    requires
        consistent(h, payload),
    ensures
        ({
            let s = frame_wire(h, payload) + rest;
            &&& header_fault(s) is None
            &&& header_at_start(s, received_header(h, payload))
            &&& frame_wire(h, payload).len() == HEADER_SIZE + payload.len()
            &&& s.subrange(HEADER_SIZE as int, HEADER_SIZE + payload.len()) == payload
        }),
{
    broadcast use lemma_be_len;

    lemma_pow256_values();
    let s = frame_wire(h, payload) + rest;
    let c = checksum_of(h, payload);
    assert(s.subrange(0, 2) =~= be(MAGIC as nat, 2));
    assert(s.subrange(2, 3) =~= be(VERSION as nat, 1));
    assert(s.subrange(3, 4) =~= be(h.msg_type.code() as nat, 1));
    assert(s.subrange(4, 5) =~= be(h.flags.0 as nat, 1));
    assert(s.subrange(5, 9) =~= be(h.payload_len as nat, 4));
    assert(s.subrange(9, 17) =~= be(h.request_id as nat, 8));
    assert(s.subrange(17, 21) =~= be(c as nat, 4));
    assert(s.subrange(HEADER_SIZE as int, HEADER_SIZE + payload.len()) =~= payload);
    lemma_be_roundtrip(MAGIC as nat, 2);
    lemma_be_roundtrip(VERSION as nat, 1);
    lemma_be_roundtrip(h.msg_type.code() as nat, 1);
    lemma_be_roundtrip(h.flags.0 as nat, 1);
    lemma_be_roundtrip(h.payload_len as nat, 4);
    lemma_be_roundtrip(h.request_id as nat, 8);
    lemma_be_roundtrip(c as nat, 4);
    lemma_be_one(s.subrange(2, 3));
    lemma_be_one(s.subrange(3, 4));
    lemma_be_one(s.subrange(4, 5));
}

/// A frame that was encoded is decoded again, whatever follows it in the buffer: the
/// same header, now with its checksum, and the same payload.
pub proof fn law_encode_decode(h: FrameHeader, payload: Seq<u8>, rest: Seq<u8>)
    requires
        consistent(h, payload),
    ensures
        found(None, frame_wire(h, payload) + rest, Decoded::Complete(received_header(h, payload), payload)),
        (frame_wire(h, payload) + rest).subrange(
            HEADER_SIZE + payload.len(),
            (frame_wire(h, payload) + rest).len() as int,
        ) == rest,
{
    let s = frame_wire(h, payload) + rest;
    lemma_header_fields(h, payload, rest);
    let g = received_header(h, payload);
    assert(covered_fields(g) == covered_fields(h));
    assert(is_current_header(None, s, g));
    assert(s.subrange(HEADER_SIZE + payload.len(), s.len() as int) =~= rest);
}

/// The wire form of several frames, one behind the other.
pub open spec fn stream_wire(frames: Seq<(FrameHeader, Seq<u8>)>) -> Seq<u8>
    decreases frames.len(),
{
    if frames.len() == 0 {
        Seq::empty()
    } else {
        frame_wire(frames[0].0, frames[0].1) + stream_wire(frames.drop_first())
    }
}

/// From a stream of frames the first is decoded, and the stream of the others is left.
pub proof fn law_stream_decodes_in_order(frames: Seq<(FrameHeader, Seq<u8>)>)
    requires
        frames.len() > 0,
        consistent(frames[0].0, frames[0].1),
    ensures
        found(
            None,
            stream_wire(frames),
            Decoded::Complete(received_header(frames[0].0, frames[0].1), frames[0].1),
        ),
        stream_wire(frames).subrange(HEADER_SIZE + frames[0].1.len(), stream_wire(frames).len() as int)
            == stream_wire(frames.drop_first()),
{
    law_encode_decode(frames[0].0, frames[0].1, stream_wire(frames.drop_first()));
}

/// A frame that has arrived only in part is not complete: any proper prefix of its wire
/// form asks for more.
pub proof fn law_prefix_is_incomplete(h: FrameHeader, payload: Seq<u8>, n: int)
    requires
        consistent(h, payload),
        0 <= n < HEADER_SIZE + payload.len(),
    ensures
        found(None, frame_wire(h, payload).subrange(0, n), Decoded::Incomplete),
{
    let w = frame_wire(h, payload);
    lemma_header_fields(h, payload, Seq::empty());
    assert(w + Seq::<u8>::empty() =~= w);
    let s = w.subrange(0, n);
    if n >= HEADER_SIZE {
        let g = received_header(h, payload);
        assert(s.subrange(0, 2) =~= w.subrange(0, 2));
        assert(s.subrange(5, 9) =~= w.subrange(5, 9));
        assert(s.subrange(9, 17) =~= w.subrange(9, 17));
        assert(s.subrange(17, 21) =~= w.subrange(17, 21));
        assert(is_current_header(None, s, g));
    }
}

/// What is remembered between attempts changes nothing: decoding goes on as it would
/// from the whole of what has arrived.
pub proof fn law_decoding_resumes(s: Seq<u8>, more: Seq<u8>, after: Option<FrameHeader>, d: Decoded)
    requires
        found(None, s, Decoded::Incomplete),
        remembered(None, s, Decoded::Incomplete, after),
    ensures
        found(after, s + more, d) <==> found(None, s + more, d),
{
    if after is Some {
        let h = after->0;
        let t = s + more;
        assert(t.subrange(0, 2) =~= s.subrange(0, 2));
        assert(t.subrange(5, 9) =~= s.subrange(5, 9));
        assert(t.subrange(9, 17) =~= s.subrange(9, 17));
        assert(t.subrange(17, 21) =~= s.subrange(17, 21));
        assert(is_current_header(None, t, h));
        assert(is_current_header(after, t, h));
        lemma_current_header_unique(None, t);
        lemma_current_header_unique(after, t);
    }
}

/// What is decoded stands in the buffer: the header in its first 21 bytes, the payload behind
/// it. The checksum in bytes 17 to 20 is the CRC-32C of the 17 bytes before it, continued over
/// the payload, also where that is empty.
pub proof fn law_decoded_frame_is_intact(s: Seq<u8>, h: FrameHeader, payload: Seq<u8>)
    requires
        found(None, s, Decoded::Complete(h, payload)),
    ensures
        s.len() >= 21 + payload.len(),
        payload == s.subrange(21, 21int + payload.len()),
        h.magic == be_val(s.subrange(0, 2)) && h.magic == MAGIC,
        h.version == s[2] && h.version == VERSION,
        h.msg_type.code() == s[3],
        h.flags.0 == s[4],
        h.payload_len == be_val(s.subrange(5, 9)) && h.payload_len == payload.len() && payload.len() <= MAX_PAYLOAD_SIZE,
        h.request_id == be_val(s.subrange(9, 17)),
        h.checksum == be_val(s.subrange(17, 21)),
        be_val(s.subrange(17, 21)) == crc32c_extended(crc32c_of(s.subrange(0, 17)), payload),
{
    let g = choose|g: FrameHeader| #[trigger] is_current_header(None, s, g) && Decoded::Complete(h, payload) == found_with_header(g, s);
    lemma_covered_bytes(s, g);
}

/// The fields that the checksum covers are the first 17 bytes of the header.
proof fn lemma_covered_bytes(s: Seq<u8>, h: FrameHeader)
    requires
        s.len() >= 21,
        header_at_start(s, h),
    ensures
        covered_fields(h) == s.subrange(0, 17),
{
    broadcast use lemma_be_len;

    lemma_be_of_val(s.subrange(0, 2));
    lemma_be_of_val(s.subrange(2, 3));
    lemma_be_of_val(s.subrange(3, 4));
    lemma_be_of_val(s.subrange(4, 5));
    lemma_be_of_val(s.subrange(5, 9));
    lemma_be_of_val(s.subrange(9, 17));
    lemma_be_one(s.subrange(2, 3));
    lemma_be_one(s.subrange(3, 4));
    lemma_be_one(s.subrange(4, 5));
    assert(covered_fields(h) =~= s.subrange(0, 17));
}

/// A frame that has arrived whole but whose checksum is not that of its bytes is an error,
/// with a payload or without.
pub proof fn law_damaged_frame_is_refused(s: Seq<u8>, n: nat, d: Decoded)
    requires
        s.len() >= 21 + n,
        n == be_val(s.subrange(5, 9)),
        n <= MAX_PAYLOAD_SIZE,
        be_val(s.subrange(17, 21)) != crc32c_extended(crc32c_of(s.subrange(0, 17)), s.subrange(21, 21int + n)),
        found(None, s, d),
    ensures
        d is Fault,
        header_fault(s) is None ==> (d->Fault_0 matches ProtocolError::ChecksumMismatch { expected, got } && expected == be_val(
            s.subrange(17, 21),
        ) && got == crc32c_extended(crc32c_of(s.subrange(0, 17)), s.subrange(21, 21int + n))),
{
    if header_fault(s) is None {
        let g = choose|g: FrameHeader| #[trigger] is_current_header(None, s, g) && d == found_with_header(g, s);
        lemma_covered_bytes(s, g);
    }
}

/// A frame that has arrived whole, with the right checksum and a header that is sound, is
/// decoded.
pub proof fn law_intact_frame_is_decoded(s: Seq<u8>, n: nat, t: MessageType, d: Decoded)
    requires
        s.len() >= 21 + n,
        n == be_val(s.subrange(5, 9)),
        n <= MAX_PAYLOAD_SIZE,
        be_val(s.subrange(0, 2)) == MAGIC,
        s[2] == VERSION,
        s[3] == t.code(),
        be_val(s.subrange(17, 21)) == crc32c_extended(crc32c_of(s.subrange(0, 17)), s.subrange(21, 21int + n)),
        found(None, s, d),
    ensures
        d matches Decoded::Complete(h, payload) && payload == s.subrange(21, 21int + n) && h.msg_type == t && h.flags.0 == s[4]
            && h.request_id == be_val(s.subrange(9, 17)),
{
    let g = choose|g: FrameHeader| #[trigger] is_current_header(None, s, g) && d == found_with_header(g, s);
    lemma_covered_bytes(s, g);
    crate::protocol::types::law_codes_are_distinct(g.msg_type, t);
}

/// What is wrong with a header that cannot be read: its magic, its version, its type or its
/// length, in that order.
pub proof fn law_bad_header_is_refused(s: Seq<u8>, d: Decoded)
    requires
        s.len() >= 21,
        found(None, s, d),
    ensures
        be_val(s.subrange(0, 2)) != MAGIC ==> (d matches Decoded::Fault(ProtocolError::InvalidMagic { got }) && got == be_val(
            s.subrange(0, 2),
        )),
        be_val(s.subrange(0, 2)) == MAGIC && s[2] != VERSION ==> (d matches Decoded::Fault(
            ProtocolError::UnsupportedVersion { version },
        ) && version == s[2]),
        be_val(s.subrange(0, 2)) == MAGIC && s[2] == VERSION && (forall|t: MessageType| #[trigger] t.code() != s[3]) ==> (
        d matches Decoded::Fault(ProtocolError::UnknownMessageType { code }) && code == s[3]),
        be_val(s.subrange(0, 2)) == MAGIC && s[2] == VERSION && (exists|t: MessageType| #[trigger] t.code() == s[3]) && be_val(
            s.subrange(5, 9),
        ) > MAX_PAYLOAD_SIZE ==> (d matches Decoded::Fault(ProtocolError::PayloadTooLarge { size }) && size == be_val(
            s.subrange(5, 9),
        )),
{
    lemma_pow256_values();
    lemma_be_val_bound(s.subrange(0, 2));
    lemma_be_val_bound(s.subrange(5, 9));
}

/// Before 21 bytes have arrived there is nothing to decode; nor is there before the payload
/// has.
pub proof fn law_decoding_waits_for_the_whole_frame(s: Seq<u8>, d: Decoded)
    requires
        found(None, s, d),
        s.len() < 21 || (header_fault(s) is None && s.len() < 21 + be_val(s.subrange(5, 9))),
    ensures
        d is Incomplete,
{
    if s.len() >= 21 {
        let g = choose|g: FrameHeader| #[trigger] is_current_header(None, s, g) && d == found_with_header(g, s);
        assert(g.payload_len == be_val(s.subrange(5, 9)));
    }
}

/// A frame on the wire: 21 bytes and the payload; type, flags, length and number in their
/// places; and the checksum of the bytes before it, continued over the payload.
pub proof fn law_encoded_frame(h: FrameHeader, payload: Seq<u8>)
    requires
        consistent(h, payload),
    ensures
        frame_wire(h, payload).len() == 21 + payload.len(),
        frame_wire(h, payload).skip(21) == payload,
        be_val(frame_wire(h, payload).subrange(0, 2)) == MAGIC,
        frame_wire(h, payload)[2] == VERSION,
        frame_wire(h, payload)[3] == h.msg_type.code(),
        frame_wire(h, payload)[4] == h.flags.0,
        be_val(frame_wire(h, payload).subrange(5, 9)) == payload.len(),
        be_val(frame_wire(h, payload).subrange(9, 17)) == h.request_id,
        be_val(frame_wire(h, payload).subrange(17, 21)) == crc32c_extended(
            crc32c_of(frame_wire(h, payload).subrange(0, 17)),
            payload,
        ),
{
    let w = frame_wire(h, payload);
    lemma_header_fields(h, payload, Seq::empty());
    assert(w + Seq::<u8>::empty() =~= w);
    lemma_covered_bytes(w, received_header(h, payload));
    assert(covered_fields(received_header(h, payload)) == covered_fields(h));
    assert(w.skip(21) =~= w.subrange(21, 21int + payload.len()));
}

/// A checksum that was computed is accepted just if it is the one that the header carries; else both
/// are told.
pub proof fn law_checksums_are_compared(header: FrameHeader, computed: u32, r: Result<(), ProtocolError>)
    requires
        call_ensures(check_checksum, (&header, computed), r),
    ensures
        r is Ok <==> computed == header.checksum,
        r matches Err(e) ==> e == (ProtocolError::ChecksumMismatch { expected: header.checksum, got: computed }),
{
}

/// A frame that comes out of the bytes that have arrived has the checksum of its header and of what
/// it carries, even if it carries nothing; what was read of the bytes is gone, and else nothing is.
pub proof fn law_frames_that_come_out_are_intact(r: Result<Option<Frame>, ProtocolError>)
    ensures
        forall|c: &mut FrameCodec, b: &mut BytesMut| #[trigger]
            call_ensures(FrameCodec::decode, (c, b), r) && r is Ok && r->Ok_0 is Some ==> {
                let f = r->Ok_0->0;
                &&& f.header.checksum == crc32c_extended(crc32c_of(covered_fields(f.header)), f.data())
                &&& f.header.payload_len == f.data().len()
                &&& f.data() == buf_contents(*b).subrange(21, 21int + f.data().len())
                &&& buf_contents(*final(b)) == buf_contents(*b).subrange(21int + f.data().len(), buf_contents(*b).len() as int)
            },
        forall|c: &mut FrameCodec, b: &mut BytesMut| #[trigger]
            call_ensures(FrameCodec::decode, (c, b), r) && (r is Err || r->Ok_0 is None) ==> buf_contents(*final(b)) == buf_contents(*b),
{
}

/// The checksum covers the header up to the checksum itself, and then the payload.
pub proof fn law_what_the_checksum_covers(h: FrameHeader, payload: Seq<u8>, checksum: u32)
    requires
        h.magic == MAGIC,
        h.version == VERSION,
    ensures
        checksum_of(h, payload) == crc32c_extended(
            crc32c_of(header_wire(h.msg_type, h.flags, h.payload_len, h.request_id, checksum).subrange(0, 17)),
            payload,
        ),
        header_wire(h.msg_type, h.flags, h.payload_len, h.request_id, checksum).len() == 21,
{
    broadcast use lemma_be_len;

    assert(header_wire(h.msg_type, h.flags, h.payload_len, h.request_id, checksum).subrange(0, 17) =~= covered_fields(h));
}

/// A frame is written behind what was there, unless it is too large; then nothing is. Its header is
/// checked field by field, and the checksum computed over header and payload.
pub proof fn law_frames_are_written(
    frame: Frame,
    r: Result<(), ProtocolError>,
    src: &[u8],
    h: Result<FrameHeader, ProtocolError>,
    header: FrameHeader,
    payload: &[u8],
    sum: u32,
)
    requires
        call_ensures(FrameCodec::decode_header, (src,), h),
        call_ensures(FrameCodec::compute_checksum, (&header, payload), sum),
    ensures
        forall|c: &mut FrameCodec, b: &mut BytesMut| #[trigger]
            call_ensures(FrameCodec::encode, (c, frame, b), r) && frame.data().len() <= u32::MAX ==> (r is Ok <==> frame.data().len()
                <= MAX_PAYLOAD_SIZE) && (r is Ok ==> buf_contents(*final(b)) == buf_contents(*b) + frame_wire(frame.header, frame.data()))
                && (r is Err ==> buf_contents(*final(b)) == buf_contents(*b)),
        h is Ok <==> header_fault(src@) is None,
        h is Err ==> header_fault(src@) == Some(h->Err_0),
        sum == crc32c_extended(crc32c_of(covered_fields(header)), payload@),
{
}

} // verus!

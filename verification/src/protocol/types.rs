//! Message types, flags, headers and frames.
use bytes::Bytes;
use vstd::prelude::*;
use vstd::string::*;
use crate::buffer::{bytes_as_slice, bytes_contents, bytes_from_vec};
use crate::protocol::{HEADER_SIZE, MAGIC, VERSION};
use crate::text::{dec, hex, push_dec, push_hex};

verus! {

/// The kinds of message. Each has a byte of its own on the wire:
/// 0x01-0x0F connection lifecycle, 0x10-0x1F DHT operations, 0x20-0x2F data transfer,
/// 0x30-0x3F NAT traversal.
#[derive(Debug, Clone, Copy, PartialEq, Eq, Hash, Structural)]
pub enum MessageType {
    Handshake,
    Ping,
    Pong,
    Disconnect,
    FindNode,
    FindNodeResp,
    Store,
    StoreResp,
    FindValue,
    FindValueResp,
    Data,
    DataAck,
    CreditUpdate,
    FileOffer,
    FileAccept,
    FileReject,
    FileChunk,
    FileChunkAck,
    FileComplete,
    FileCancel,
    NatProbe,
    NatProbeResp,
    HolePunch,
    HolePunchResp,
    RelayRequest,
    RelayData,
}

impl MessageType {
    /// The byte that stands for this type on the wire.
    pub open spec fn code(self) -> u8 {
        match self {
            Self::Handshake => 0x01,
            Self::Ping => 0x02,
            Self::Pong => 0x03,
            Self::Disconnect => 0x04,
            Self::FindNode => 0x10,
            Self::FindNodeResp => 0x11,
            Self::Store => 0x12,
            Self::StoreResp => 0x13,
            Self::FindValue => 0x14,
            Self::FindValueResp => 0x15,
            Self::Data => 0x20,
            Self::DataAck => 0x21,
            Self::CreditUpdate => 0x22,
            Self::FileOffer => 0x23,
            Self::FileAccept => 0x24,
            Self::FileReject => 0x25,
            Self::FileChunk => 0x26,
            Self::FileChunkAck => 0x27,
            Self::FileComplete => 0x28,
            Self::FileCancel => 0x29,
            Self::NatProbe => 0x30,
            Self::NatProbeResp => 0x31,
            Self::HolePunch => 0x32,
            Self::HolePunchResp => 0x33,
            Self::RelayRequest => 0x34,
            Self::RelayData => 0x35,
        }
    }

    /// The name of this type.
    pub open spec fn name(self) -> Seq<char> {
        match self {
            Self::Handshake => "HANDSHAKE"@,
            Self::Ping => "PING"@,
            Self::Pong => "PONG"@,
            Self::Disconnect => "DISCONNECT"@,
            Self::FindNode => "FIND_NODE"@,
            Self::FindNodeResp => "FIND_NODE_RESP"@,
            Self::Store => "STORE"@,
            Self::StoreResp => "STORE_RESP"@,
            Self::FindValue => "FIND_VALUE"@,
            Self::FindValueResp => "FIND_VALUE_RESP"@,
            Self::Data => "DATA"@,
            Self::DataAck => "DATA_ACK"@,
            Self::CreditUpdate => "CREDIT_UPDATE"@,
            Self::FileOffer => "FILE_OFFER"@,
            Self::FileAccept => "FILE_ACCEPT"@,
            Self::FileReject => "FILE_REJECT"@,
            Self::FileChunk => "FILE_CHUNK"@,
            Self::FileChunkAck => "FILE_CHUNK_ACK"@,
            Self::FileComplete => "FILE_COMPLETE"@,
            Self::FileCancel => "FILE_CANCEL"@,
            Self::NatProbe => "NAT_PROBE"@,
            Self::NatProbeResp => "NAT_PROBE_RESP"@,
            Self::HolePunch => "HOLE_PUNCH"@,
            Self::HolePunchResp => "HOLE_PUNCH_RESP"@,
            Self::RelayRequest => "RELAY_REQUEST"@,
            Self::RelayData => "RELAY_DATA"@,
        }
    }

    /// The type that a wire byte stands for.
    pub fn from_byte(b: u8) -> (r: Option<Self>)
        ensures
            r matches Some(t) ==> t.code() == b,
            r is None ==> forall|t: MessageType| #![trigger t.code()] t.code() != b,
    {
        match b {
            0x01 => Some(Self::Handshake),
            0x02 => Some(Self::Ping),
            0x03 => Some(Self::Pong),
            0x04 => Some(Self::Disconnect),
            0x10 => Some(Self::FindNode),
            0x11 => Some(Self::FindNodeResp),
            0x12 => Some(Self::Store),
            0x13 => Some(Self::StoreResp),
            0x14 => Some(Self::FindValue),
            0x15 => Some(Self::FindValueResp),
            0x20 => Some(Self::Data),
            0x21 => Some(Self::DataAck),
            0x22 => Some(Self::CreditUpdate),
            0x23 => Some(Self::FileOffer),
            0x24 => Some(Self::FileAccept),
            0x25 => Some(Self::FileReject),
            0x26 => Some(Self::FileChunk),
            0x27 => Some(Self::FileChunkAck),
            0x28 => Some(Self::FileComplete),
            0x29 => Some(Self::FileCancel),
            0x30 => Some(Self::NatProbe),
            0x31 => Some(Self::NatProbeResp),
            0x32 => Some(Self::HolePunch),
            0x33 => Some(Self::HolePunchResp),
            0x34 => Some(Self::RelayRequest),
            0x35 => Some(Self::RelayData),
            _ => None,
        }
    }

    /// The byte that stands for this type on the wire.
    pub fn as_byte(self) -> (r: u8)
        ensures
            r == self.code(),
    {
        match self {
            Self::Handshake => 0x01,
            Self::Ping => 0x02,
            Self::Pong => 0x03,
            Self::Disconnect => 0x04,
            Self::FindNode => 0x10,
            Self::FindNodeResp => 0x11,
            Self::Store => 0x12,
            Self::StoreResp => 0x13,
            Self::FindValue => 0x14,
            Self::FindValueResp => 0x15,
            Self::Data => 0x20,
            Self::DataAck => 0x21,
            Self::CreditUpdate => 0x22,
            Self::FileOffer => 0x23,
            Self::FileAccept => 0x24,
            Self::FileReject => 0x25,
            Self::FileChunk => 0x26,
            Self::FileChunkAck => 0x27,
            Self::FileComplete => 0x28,
            Self::FileCancel => 0x29,
            Self::NatProbe => 0x30,
            Self::NatProbeResp => 0x31,
            Self::HolePunch => 0x32,
            Self::HolePunchResp => 0x33,
            Self::RelayRequest => 0x34,
            Self::RelayData => 0x35,
        }
    }

    /// The name of this type.
    pub fn as_str(&self) -> (r: &'static str)
        ensures
            r@ == self.name(),
    {
        match self {
            Self::Handshake => "HANDSHAKE",
            Self::Ping => "PING",
            Self::Pong => "PONG",
            Self::Disconnect => "DISCONNECT",
            Self::FindNode => "FIND_NODE",
            Self::FindNodeResp => "FIND_NODE_RESP",
            Self::Store => "STORE",
            Self::StoreResp => "STORE_RESP",
            Self::FindValue => "FIND_VALUE",
            Self::FindValueResp => "FIND_VALUE_RESP",
            Self::Data => "DATA",
            Self::DataAck => "DATA_ACK",
            Self::CreditUpdate => "CREDIT_UPDATE",
            Self::FileOffer => "FILE_OFFER",
            Self::FileAccept => "FILE_ACCEPT",
            Self::FileReject => "FILE_REJECT",
            Self::FileChunk => "FILE_CHUNK",
            Self::FileChunkAck => "FILE_CHUNK_ACK",
            Self::FileComplete => "FILE_COMPLETE",
            Self::FileCancel => "FILE_CANCEL",
            Self::NatProbe => "NAT_PROBE",
            Self::NatProbeResp => "NAT_PROBE_RESP",
            Self::HolePunch => "HOLE_PUNCH",
            Self::HolePunchResp => "HOLE_PUNCH_RESP",
            Self::RelayRequest => "RELAY_REQUEST",
            Self::RelayData => "RELAY_DATA",
        }
    }

    /// The name of this type, as a string of its own.
    pub fn to_string(&self) -> (r: String)
        ensures
            r@ == self.name(),
    {
        String::from_str(self.as_str())
    }
}

/// No two message types share a wire byte.
pub proof fn law_codes_are_distinct(a: MessageType, b: MessageType)
    requires
        a.code() == b.code(),
    ensures
        a == b,
{
}

/// A bit set of frame properties: bit 0 encrypted, bit 1 compressed, bit 2 fragmented,
/// bit 3 priority.
#[derive(Debug, Clone, Copy, PartialEq, Eq, Structural)]
pub struct Flags(pub u8);

impl Default for Flags {
    fn default() -> (r: Self)
        ensures
            r == Flags(0),
    {
        Flags(0)
    }
}

impl Flags {
    pub const ENCRYPTED: u8 = 1;
    pub const COMPRESSED: u8 = 2;
    pub const FRAGMENTED: u8 = 4;
    pub const PRIORITY: u8 = 8;

    /// Whether all bits of `mask` that matter are set: `mask` is a single bit.
    pub open spec fn has(self, mask: u8) -> bool {
        self.0 & mask != 0
    }

    pub fn new(bits: u8) -> (r: Self)
        ensures
            r == Flags(bits),
    {
        Flags(bits)
    }

    pub fn empty() -> (r: Self)
        ensures
            r == Flags(0),
    {
        Flags(0)
    }

    pub fn bits(self) -> (r: u8)
        ensures
            r == self.0,
    {
        self.0
    }

    pub fn is_encrypted(self) -> (r: bool)
        ensures
            r == self.has(1),
    {
        self.0 & Self::ENCRYPTED != 0
    }

    pub fn is_compressed(self) -> (r: bool)
        ensures
            r == self.has(2),
    {
        self.0 & Self::COMPRESSED != 0
    }

    pub fn is_fragmented(self) -> (r: bool)
        ensures
            r == self.has(4),
    {
        self.0 & Self::FRAGMENTED != 0
    }

    pub fn is_priority(self) -> (r: bool)
        ensures
            r == self.has(8),
    {
        self.0 & Self::PRIORITY != 0
    }

    /// These flags and `encrypted`.
    pub fn with_encrypted(self) -> (r: Self)
        ensures
            r == Flags(self.0 | 1),
    {
        Flags(self.0 | Self::ENCRYPTED)
    }

    /// These flags and `compressed`.
    pub fn with_compressed(self) -> (r: Self)
        ensures
            r == Flags(self.0 | 2),
    {
        Flags(self.0 | Self::COMPRESSED)
    }

    /// These flags and `fragmented`.
    pub fn with_fragmented(self) -> (r: Self)
        ensures
            r == Flags(self.0 | 4),
    {
        Flags(self.0 | Self::FRAGMENTED)
    }

    /// These flags and `priority`.
    pub fn with_priority(self) -> (r: Self)
        ensures
            r == Flags(self.0 | 8),
    {
        Flags(self.0 | Self::PRIORITY)
    }

    /// The short names of the set flags, joined by bars; `NONE` without any.
    pub open spec fn names(self) -> Seq<char> {
        let s0 = Seq::<char>::empty();
        let s1 = if self.has(1) { joined(s0, "ENC"@) } else { s0 };
        let s2 = if self.has(2) { joined(s1, "CMP"@) } else { s1 };
        let s3 = if self.has(4) { joined(s2, "FRG"@) } else { s2 };
        let s4 = if self.has(8) { joined(s3, "PRI"@) } else { s3 };
        if s4.len() == 0 {
            "NONE"@
        } else {
            s4
        }
    }

    /// The short names of the set flags.
    pub fn to_string(&self) -> (r: String)
        ensures
            r@ == self.names(),
    {
        let mut out: String = String::new();
        if self.is_encrypted() {
            push_joined(&mut out, "ENC");
        }
        if self.is_compressed() {
            push_joined(&mut out, "CMP");
        }
        if self.is_fragmented() {
            push_joined(&mut out, "FRG");
        }
        if self.is_priority() {
            push_joined(&mut out, "PRI");
        }
        if out.as_str().is_empty() {
            out.append("NONE");
            assert(out@ =~= "NONE"@);
        }
        out
    }
}

/// `part` behind `list`, with a bar between them where there is anything before.
pub open spec fn joined(list: Seq<char>, part: Seq<char>) -> Seq<char> {
    if list.len() == 0 {
        part
    } else {
        list + "|"@ + part
    }
}

fn push_joined(out: &mut String, part: &str)
    ensures
        final(out)@ == joined(old(out)@, part@),
{
    if !out.as_str().is_empty() {
        out.append("|");
    }
    out.append(part);
    assert(out@ =~= joined(old(out)@, part@));
}

/// Setting a flag sets it and changes no other flag.
pub proof fn law_flags_are_independent(f: u8, mask: u8, other: u8)
    requires
        mask == 1 || mask == 2 || mask == 4 || mask == 8,
        other == 1 || other == 2 || other == 4 || other == 8,
    ensures
        Flags(f | mask).has(mask),
        mask != other ==> Flags(f | mask).has(other) == Flags(f).has(other),
{
    assert((f | mask) & mask != 0) by (bit_vector)
        requires
            mask == 1 || mask == 2 || mask == 4 || mask == 8,
    ;
    assert(mask != other ==> (f | mask) & other == f & other) by (bit_vector)
        requires
            mask == 1 || mask == 2 || mask == 4 || mask == 8,
            other == 1 || other == 2 || other == 4 || other == 8,
    ;
}

/// A decoded frame header.
#[derive(Debug, Clone, Copy, PartialEq, Eq, Structural)]
pub struct FrameHeader {
    pub magic: u16,
    pub version: u8,
    pub msg_type: MessageType,
    pub flags: Flags,
    pub payload_len: u32,
    pub request_id: u64,
    pub checksum: u32,
}

/// A frame: a header and the payload behind it.
#[derive(Debug, PartialEq, Eq)]
pub struct Frame {
    pub header: FrameHeader,
    pub payload: Bytes,
}

impl Clone for Frame {
    fn clone(&self) -> (r: Self)
        ensures
            r.header == self.header,
            r.data() == self.data(),
    {
        Frame { header: self.header, payload: self.payload.clone() }
    }
}

/// What the length field of a frame holds for a payload of `n` bytes.
pub open spec fn len_field(n: nat) -> u32 {
    (n % 0x1_0000_0000) as u32
}

/// What the length field of a frame holds for a payload of `n` bytes.
pub fn payload_len_field(n: usize) -> (r: u32)
    ensures
        r == len_field(n as nat),
{
    (n as u64 % 0x1_0000_0000u64) as u32
}

impl Frame {
    /// The bytes of the payload.
    pub open spec fn data(self) -> Seq<u8> {
        bytes_contents(self.payload)
    }

    /// The header that a new frame gets.
    pub open spec fn new_header(msg_type: MessageType, flags: Flags, request_id: u64, n: nat) -> FrameHeader {
        FrameHeader {
            magic: MAGIC,
            version: VERSION,
            msg_type,
            flags,
            payload_len: len_field(n),
            request_id,
            checksum: 0,
        }
    }

    /// A frame with the given type and payload. The checksum is computed on encoding.
    pub fn new(msg_type: MessageType, flags: Flags, request_id: u64, payload: Bytes) -> (r: Self)
        ensures
            r.payload == payload,
            r.header == Self::new_header(msg_type, flags, request_id, r.data().len()),
    {
        let n: usize = bytes_as_slice(&payload).len();
        let header = FrameHeader {
            magic: MAGIC,
            version: VERSION,
            msg_type,
            flags,
            payload_len: payload_len_field(n),
            request_id,
            checksum: 0,
        };
        Frame { header, payload }
    }

    /// A frame with no flags and no payload.
    pub fn simple(msg_type: MessageType, request_id: u64) -> (r: Self)
        ensures
            r.data() == Seq::<u8>::empty(),
            r.header == Self::new_header(msg_type, Flags(0), request_id, 0),
    {
        let r = Self::new(msg_type, Flags::empty(), request_id, bytes_from_vec(Vec::new()));
        assert(r.data() =~= Seq::<u8>::empty());
        r
    }

    /// How many bytes the frame takes on the wire.
    pub fn wire_size(&self) -> (r: usize)
        requires
            21 + self.data().len() <= usize::MAX,
        ensures
            r == 21 + self.data().len(),
    {
        let n: usize = bytes_as_slice(&self.payload).len();
        HEADER_SIZE + n
    }

    /// A one-line description.
    pub open spec fn description(self) -> Seq<char> {
        "Frame["@ + self.header.msg_type.name() + " flags="@ + self.header.flags.names() + " req=0x"@ + hex(
            self.header.request_id as nat,
        ) + " payload="@ + dec(self.data().len()) + "B]"@
    }

    pub fn to_string(&self) -> (r: String)
        ensures
            r@ == self.description(),
    {
        let mut out: String = String::new();
        out.append("Frame[");
        out.append(self.header.msg_type.as_str());
        out.append(" flags=");
        out.append(self.header.flags.to_string().as_str());
        out.append(" req=0x");
        push_hex(&mut out, self.header.request_id as u128);
        out.append(" payload=");
        push_dec(&mut out, bytes_as_slice(&self.payload).len() as u128);
        out.append("B]");
        assert(out@ =~= self.description());
        out
    }
}

/// The codes of the message types on the wire. Connections are managed below 0x10, the hash
/// table uses 0x10 and on, data 0x20 and on, traversal 0x30 and on.
pub proof fn law_codes_on_the_wire(t: MessageType)
    ensures
        t is Handshake <==> t.code() == 0x01,
        t is Ping <==> t.code() == 0x02,
        t is Pong <==> t.code() == 0x03,
        t is Disconnect <==> t.code() == 0x04,
        t is FindNode <==> t.code() == 0x10,
        t is FindNodeResp <==> t.code() == 0x11,
        t is Store <==> t.code() == 0x12,
        t is StoreResp <==> t.code() == 0x13,
        t is FindValue <==> t.code() == 0x14,
        t is FindValueResp <==> t.code() == 0x15,
        t is Data <==> t.code() == 0x20,
        t is DataAck <==> t.code() == 0x21,
        t is CreditUpdate <==> t.code() == 0x22,
        t is FileOffer <==> t.code() == 0x23,
        t is FileAccept <==> t.code() == 0x24,
        t is FileReject <==> t.code() == 0x25,
        t is FileChunk <==> t.code() == 0x26,
        t is FileChunkAck <==> t.code() == 0x27,
        t is FileComplete <==> t.code() == 0x28,
        t is FileCancel <==> t.code() == 0x29,
        t is NatProbe <==> t.code() == 0x30,
        t is NatProbeResp <==> t.code() == 0x31,
        t is HolePunch <==> t.code() == 0x32,
        t is HolePunchResp <==> t.code() == 0x33,
        t is RelayRequest <==> t.code() == 0x34,
        t is RelayData <==> t.code() == 0x35,
{
}

/// A frame is made of what it is given: its type, flags and number, and the length of its
/// payload. Its checksum is still to be computed.
pub proof fn law_new_frame_says_what_it_holds(msg_type: MessageType, flags: Flags, request_id: u64, n: nat)
    ensures
        Frame::new_header(msg_type, flags, request_id, n).msg_type == msg_type,
        Frame::new_header(msg_type, flags, request_id, n).flags == flags,
        Frame::new_header(msg_type, flags, request_id, n).request_id == request_id,
        n <= u32::MAX ==> Frame::new_header(msg_type, flags, request_id, n).payload_len == n,
        Frame::new_header(msg_type, flags, request_id, n).magic == MAGIC,
        Frame::new_header(msg_type, flags, request_id, n).version == VERSION,
        Frame::new_header(msg_type, flags, request_id, n).checksum == 0,
{
}

/// Setting a flag takes none away, and the flags that can be asked for are separate.
pub proof fn law_flags_only_grow(f: u8, mask: u8)
    ensures
        Flags(f | mask).0 & f == f,
        Flags(f).has(1) <==> f % 2 == 1,
        Flags(f).has(2) <==> (f / 2) % 2 == 1,
        Flags(f).has(4) <==> (f / 4) % 2 == 1,
        Flags(f).has(8) <==> (f / 8) % 2 == 1,
{
    assert((f | mask) & f == f) by (bit_vector);
    assert((f & 1 != 0) == (f % 2 == 1)) by (bit_vector);
    assert((f & 2 != 0) == ((f / 2) % 2 == 1)) by (bit_vector);
    assert((f & 4 != 0) == ((f / 4) % 2 == 1)) by (bit_vector);
    assert((f & 8 != 0) == ((f / 8) % 2 == 1)) by (bit_vector);
}

/// The name of a type of message goes with its code.
pub proof fn law_names_of_messages(t: MessageType)
    ensures
        t.code() == 0x01 ==> t.name() == "HANDSHAKE"@,
        t.code() == 0x02 ==> t.name() == "PING"@,
        t.code() == 0x03 ==> t.name() == "PONG"@,
        t.code() == 0x04 ==> t.name() == "DISCONNECT"@,
        t.code() == 0x10 ==> t.name() == "FIND_NODE"@,
        t.code() == 0x11 ==> t.name() == "FIND_NODE_RESP"@,
        t.code() == 0x12 ==> t.name() == "STORE"@,
        t.code() == 0x13 ==> t.name() == "STORE_RESP"@,
        t.code() == 0x14 ==> t.name() == "FIND_VALUE"@,
        t.code() == 0x15 ==> t.name() == "FIND_VALUE_RESP"@,
        t.code() == 0x20 ==> t.name() == "DATA"@,
        t.code() == 0x21 ==> t.name() == "DATA_ACK"@,
        t.code() == 0x22 ==> t.name() == "CREDIT_UPDATE"@,
        t.code() == 0x23 ==> t.name() == "FILE_OFFER"@,
        t.code() == 0x24 ==> t.name() == "FILE_ACCEPT"@,
        t.code() == 0x25 ==> t.name() == "FILE_REJECT"@,
        t.code() == 0x26 ==> t.name() == "FILE_CHUNK"@,
        t.code() == 0x27 ==> t.name() == "FILE_CHUNK_ACK"@,
        t.code() == 0x28 ==> t.name() == "FILE_COMPLETE"@,
        t.code() == 0x29 ==> t.name() == "FILE_CANCEL"@,
        t.code() == 0x30 ==> t.name() == "NAT_PROBE"@,
        t.code() == 0x31 ==> t.name() == "NAT_PROBE_RESP"@,
        t.code() == 0x32 ==> t.name() == "HOLE_PUNCH"@,
        t.code() == 0x33 ==> t.name() == "HOLE_PUNCH_RESP"@,
        t.code() == 0x34 ==> t.name() == "RELAY_REQUEST"@,
        t.code() == 0x35 ==> t.name() == "RELAY_DATA"@,
{
}

/// The names of the flags that are set stand in the order of their bits, with a stroke between two;
/// where none is set, that is said.
pub proof fn law_names_of_flags(f: u8)
    ensures
        f % 16 == 0 ==> Flags(f).names() == "NONE"@,
        f % 16 == 1 ==> Flags(f).names() == "ENC"@,
        f % 16 == 2 ==> Flags(f).names() == "CMP"@,
        f % 16 == 4 ==> Flags(f).names() == "FRG"@,
        f % 16 == 8 ==> Flags(f).names() == "PRI"@,
        f % 16 == 3 ==> Flags(f).names() == "ENC"@ + "|"@ + "CMP"@,
        f % 16 == 12 ==> Flags(f).names() == "FRG"@ + "|"@ + "PRI"@,
        f % 16 == 15 ==> Flags(f).names() == "ENC"@ + "|"@ + "CMP"@ + "|"@ + "FRG"@ + "|"@ + "PRI"@,
{
    reveal_strlit("ENC");
    reveal_strlit("CMP");
    reveal_strlit("FRG");
    reveal_strlit("PRI");
    reveal_strlit("|");
    law_flags_only_grow(f, 0);
}

/// A frame is described by its type, its flags, its number and the length of what it carries.
pub proof fn law_description_of_a_frame(f: Frame)
    ensures
        f.description() == "Frame["@ + f.header.msg_type.name() + " flags="@ + f.header.flags.names() + " req=0x"@ + hex(
            f.header.request_id as nat,
        ) + " payload="@ + dec(f.data().len()) + "B]"@,
{
}

/// A flag that is set can be asked for, and the flags that were set before still can; the others
/// stay as they were.
pub proof fn law_flags_are_set(f: Flags, e: Flags, c: Flags, g: Flags, p: Flags)
    requires
        call_ensures(Flags::with_encrypted, (f,), e),
        call_ensures(Flags::with_compressed, (f,), c),
        call_ensures(Flags::with_fragmented, (f,), g),
        call_ensures(Flags::with_priority, (f,), p),
    ensures
        e.0 % 2 == 1 && e.0 / 2 == f.0 / 2,
        (c.0 / 2) % 2 == 1 && c.0 % 2 == f.0 % 2 && c.0 / 4 == f.0 / 4,
        (g.0 / 4) % 2 == 1 && g.0 % 4 == f.0 % 4 && g.0 / 8 == f.0 / 8,
        (p.0 / 8) % 2 == 1 && p.0 % 8 == f.0 % 8 && p.0 / 16 == f.0 / 16,
{
    let b = f.0;
    assert((b | 1) % 2 == 1 && (b | 1) / 2 == b / 2 && ((b | 2) / 2) % 2 == 1 && (b | 2) % 2 == b % 2 && (b | 2) / 4 == b / 4 && ((b
        | 4) / 4) % 2 == 1 && (b | 4) % 4 == b % 4 && (b | 4) / 8 == b / 8 && ((b | 8) / 8) % 2 == 1 && (b | 8) % 8 == b % 8 && (b | 8)
        / 16 == b / 16) by (bit_vector);
}

/// A byte is a type of message just if it is the code of one; flags are asked for by their bits.
pub proof fn law_bytes_and_types(b: u8, t: Option<MessageType>, u: MessageType, c: u8, f: Flags, e: bool, p: bool)
    requires
        call_ensures(MessageType::from_byte, (b,), t),
        call_ensures(MessageType::as_byte, (u,), c),
        call_ensures(Flags::is_encrypted, (f,), e),
        call_ensures(Flags::is_priority, (f,), p),
    ensures
        b == c ==> t == Some(u),
        t is Some ==> t->0.code() == b,
        b == 0 || b > 0x35 ==> t is None,
        e <==> f.0 % 2 == 1,
        p <==> (f.0 / 8) % 2 == 1,
{
    law_flags_only_grow(f.0, 0);
    law_codes_on_the_wire(u);
    if t is Some {
        law_codes_on_the_wire(t->0);
        if t->0.code() == u.code() {
            law_codes_are_distinct(t->0, u);
        }
    }
}

/// A frame holds what it is given; on the wire it takes 21 bytes more than what it carries.
pub proof fn law_frames_hold_what_they_are_given(t: MessageType, flags: Flags, id: u64, payload: Bytes, f: Frame, g: Frame, n: usize)
    requires
        call_ensures(Frame::new, (t, flags, id, payload), f),
        call_ensures(Frame::simple, (t, id), g),
        call_ensures(Frame::wire_size, (&f,), n),
    ensures
        f.header.msg_type == t && f.header.flags == flags && f.header.request_id == id && f.data() == bytes_contents(payload),
        bytes_contents(payload).len() <= u32::MAX ==> f.header.payload_len == bytes_contents(payload).len(),
        g.header.msg_type == t && g.header.flags.0 == 0 && g.header.request_id == id && g.data().len() == 0,
        n == 21 + bytes_contents(payload).len(),
{
}

} // verus!

//! The messages of file transfer, and what belongs to them: transfer numbers, bitmaps of
//! missing chunks, the number of chunks of a file.
use bytes::Bytes;
use vstd::prelude::*;
use vstd::utf8::{encode_utf8, encode_utf8_decode_utf8, encode_utf8_valid_utf8, valid_utf8};
use crate::buffer::{bytes_as_slice, bytes_contents, bytes_from, bytes_from_vec};
use crate::text::string_from_utf8;
use crate::wire::{be, be_at, be_val, copy_array, copy_range, get_be, lemma_array_eq, lemma_be_len, lemma_be_of_val, lemma_be_one, lemma_be_roundtrip, lemma_pow256_values, put_be, put_bytes};

verus! {

pub const TRANSFER_VERSION: u8 = 1;

pub const TRANSFER_ID_LEN: usize = 16;

pub const FILE_HASH_LEN: usize = 32;

pub const MAX_FILE_NAME_LEN: u16 = 255;

/// What can be wrong with a message of file transfer.
#[derive(Debug)]
#[allow(inconsistent_fields)]
pub enum TransferError {
    UnsupportedVersion { version: u8 },
    BufferTooShort { needed: usize, got: usize },
    InvalidField { field: &'static str },
    InvalidFileName,
    UnknownEnum { field: &'static str, value: u8 },
}

/// The number of a transfer: 16 bytes.
#[derive(Debug, Clone, Copy, PartialEq, Eq, Hash)]
pub struct TransferId(pub [u8; 16]);

impl TransferId {
    pub open spec fn view(self) -> Seq<u8> {
        self.0@
    }

    pub fn from_bytes(bytes: [u8; 16]) -> (r: Self)
        ensures
            r == TransferId(bytes),
    {
        TransferId(bytes)
    }

    /// The number as its 16 bytes in network order.
    pub fn from_u128(value: u128) -> (r: Self)
        ensures
            r@ == be(value as nat, 16),
    {
        broadcast use lemma_be_len;

        let mut out: Vec<u8> = Vec::new();
        put_be(&mut out, value, 16);
        let id = TransferId(copy_array::<16>(out.as_slice(), 0));
        assert(id@ =~= be(value as nat, 16));
        id
    }

    /// The number that the 16 bytes denote in network order.
    pub fn to_u128(self) -> (r: u128)
        ensures
            r as nat == be_val(self@),
    {
        let r: u128 = get_be(self.0.as_slice(), 0, 16);
        assert(self@.subrange(0, 16) =~= self@);
        r
    }

    pub fn as_bytes(&self) -> (r: &[u8; 16])
        ensures
            *r == self.0,
    {
        &self.0
    }

    /// Whether two numbers are the same.
    pub fn same(&self, other: &TransferId) -> (r: bool)
        ensures
            r == (self@ == other@),
            r == (*self == *other),
    {
        let r = crate::wire::bytes_equal(self.0.as_slice(), other.0.as_slice());
        proof {
            if self@ == other@ {
                lemma_array_eq(self.0, other.0);
            }
        }
        r
    }
}

/// A transfer number survives the way over its integer, in both directions.
pub proof fn law_transfer_id_roundtrip(value: u128, id: TransferId)
    ensures
        be_val(be(value as nat, 16)) == value,
        be(be_val(id@), 16) == id@,
{
    lemma_pow256_values();
    lemma_be_roundtrip(value as nat, 16);
    lemma_be_of_val(id@);
}

/// What is wrong with the start of a message that needs `needed` bytes.
pub open spec fn prefix_fault(p: Seq<u8>, needed: nat) -> Option<TransferError> {
    if p.len() < needed {
        Some(TransferError::BufferTooShort { needed: needed as usize, got: p.len() as usize })
    } else if p[0] != TRANSFER_VERSION {
        Some(TransferError::UnsupportedVersion { version: p[0] })
    } else {
        None
    }
}

/// Tests the length and the version of a message.
fn check_prefix(p: &[u8], needed: usize) -> (r: Result<(), TransferError>)
    requires
        needed > 0,
    ensures
        match r {
            Ok(_) => prefix_fault(p@, needed as nat) is None,
            Err(e) => prefix_fault(p@, needed as nat) == Some(e),
        },
{
    if p.len() < needed {
        return Err(TransferError::BufferTooShort { needed, got: p.len() });
    }
    if p[0] != TRANSFER_VERSION {
        return Err(TransferError::UnsupportedVersion { version: p[0] });
    }
    Ok(())
}

/// The version and the transfer number, with which every message begins.
pub open spec fn prefix_wire(id: TransferId) -> Seq<u8> {
    be(TRANSFER_VERSION as nat, 1) + id@
}

fn put_prefix(out: &mut Vec<u8>, id: &TransferId)
    ensures
        final(out)@ == old(out)@ + prefix_wire(*id),
{
    put_be(out, TRANSFER_VERSION as u128, 1);
    put_bytes(out, id.0.as_slice());
    assert(out@ =~= old(out)@ + prefix_wire(*id));
}

proof fn lemma_prefix(id: TransferId, rest: Seq<u8>)
    ensures
        ({
            let p = prefix_wire(id) + rest;
            &&& prefix_wire(id).len() == 17
            &&& p[0] == TRANSFER_VERSION
            &&& p.subrange(1, 17) == id@
            &&& p.subrange(17, p.len() as int) == rest
        }),
{
    broadcast use lemma_be_len;

    let p = prefix_wire(id) + rest;
    lemma_pow256_values();
    lemma_be_roundtrip(TRANSFER_VERSION as nat, 1);
    lemma_be_one(be(TRANSFER_VERSION as nat, 1));
    assert(p.subrange(1, 17) =~= id@);
    assert(p.subrange(17, p.len() as int) =~= rest);
}

/// One byte of a wire form.
proof fn lemma_byte(b: u8)
    ensures
        be(b as nat, 1) == seq![b],
{
    lemma_pow256_values();
    broadcast use lemma_be_len;

    lemma_be_roundtrip(b as nat, 1);
    lemma_be_one(be(b as nat, 1));
    assert(be(b as nat, 1) =~= seq![b]);
}

/// An offer to send a file.
#[derive(Debug, Clone, PartialEq, Eq)]
pub struct FileOffer {
    pub transfer_id: TransferId,
    pub file_name: String,
    pub file_size: u64,
    pub chunk_size: u32,
    pub total_chunks: u32,
    pub file_hash: [u8; 32],
}

impl FileOffer {
    /// The same offer.
    pub open spec fn same(self, o: FileOffer) -> bool {
        &&& self.transfer_id == o.transfer_id
        &&& self.file_name@ == o.file_name@
        &&& self.file_size == o.file_size
        &&& self.chunk_size == o.chunk_size
        &&& self.total_chunks == o.total_chunks
        &&& self.file_hash == o.file_hash
    }

    /// An offer for a file. The number of chunks follows from the two sizes.
    pub fn new(transfer_id: TransferId, file_name: String, file_size: u64, chunk_size: u32, file_hash: [u8; 32]) -> (r: Result<
        Self,
        TransferError,
    >)
        ensures
            match r {
                Ok(o) => {
                    &&& chunk_size != 0
                    &&& encode_utf8(file_name@).len() <= MAX_FILE_NAME_LEN
                    &&& o == (FileOffer {
                        transfer_id,
                        file_name,
                        file_size,
                        chunk_size,
                        total_chunks: total_chunks_of(file_size, chunk_size),
                        file_hash,
                    })
                },
                Err(e) => if chunk_size == 0 {
                    e == (TransferError::InvalidField { field: "chunk_size" })
                } else {
                    &&& encode_utf8(file_name@).len() > MAX_FILE_NAME_LEN
                    &&& e == (TransferError::InvalidField { field: "file_name" })
                },
            },
    {
        if chunk_size == 0 {
            return Err(TransferError::InvalidField { field: "chunk_size" });
        }
        if file_name.as_str().as_bytes().len() > MAX_FILE_NAME_LEN as usize {
            return Err(TransferError::InvalidField { field: "file_name" });
        }
        let total_chunks: u32 = compute_total_chunks(file_size, chunk_size);
        Ok(FileOffer { transfer_id, file_name, file_size, chunk_size, total_chunks, file_hash })
    }

    /// The offer on the wire.
    pub open spec fn wire(self) -> Seq<u8> {
        let name = encode_utf8(self.file_name@);
        prefix_wire(self.transfer_id) + (be(self.file_size as nat, 8) + be(self.chunk_size as nat, 4) + be(
            self.total_chunks as nat,
            4,
        ) + self.file_hash@ + be(name.len() % 0x1_0000, 2) + name)
    }

    pub fn encode(&self) -> (r: Bytes)
        ensures
            bytes_contents(r) == self.wire(),
    {
        let name = self.file_name.as_str().as_bytes();
        let mut out: Vec<u8> = Vec::new();
        put_prefix(&mut out, &self.transfer_id);
        put_be(&mut out, self.file_size as u128, 8);
        put_be(&mut out, self.chunk_size as u128, 4);
        put_be(&mut out, self.total_chunks as u128, 4);
        put_bytes(&mut out, self.file_hash.as_slice());
        put_be(&mut out, name.len() as u128 % 0x1_0000, 2);
        put_bytes(&mut out, name);
        assert(out@ =~= self.wire());
        bytes_from_vec(out)
    }

    /// What is wrong with an offer on the wire.
    pub open spec fn fault(p: Seq<u8>) -> Option<TransferError> {
        let name_len = be_at(p, 65, 2);
        if prefix_fault(p, 67) is Some {
            prefix_fault(p, 67)
        } else if name_len > MAX_FILE_NAME_LEN {
            Some(TransferError::InvalidField { field: "file_name" })
        } else if p.len() - 67 < name_len {
            Some(TransferError::BufferTooShort { needed: name_len as usize, got: (p.len() - 67) as usize })
        } else if !valid_utf8(p.subrange(67, 67 + name_len as int)) {
            Some(TransferError::InvalidFileName)
        } else if be_at(p, 25, 4) == 0 {
            Some(TransferError::InvalidField { field: "chunk_size" })
        } else {
            None
        }
    }

    /// This is the offer that `p` holds.
    pub open spec fn read_from(self, p: Seq<u8>) -> bool {
        &&& self.transfer_id@ == p.subrange(1, 17)
        &&& self.file_size == be_at(p, 17, 8)
        &&& self.chunk_size == be_at(p, 25, 4)
        &&& self.total_chunks == be_at(p, 29, 4)
        &&& self.file_hash@ == p.subrange(33, 65)
        &&& encode_utf8(self.file_name@) == p.subrange(67, 67 + be_at(p, 65, 2) as int)
    }

    pub fn decode(payload: &[u8]) -> (r: Result<Self, TransferError>)
        ensures
            match r {
                Ok(o) => Self::fault(payload@) is None && o.read_from(payload@),
                Err(e) => Self::fault(payload@) == Some(e),
            },
    {
        proof {
            lemma_pow256_values();
        }
        match check_prefix(payload, 67) {
            Ok(_) => {},
            Err(e) => return Err(e),
        }
        let transfer_id = TransferId(copy_array::<16>(payload, 1));
        let file_size: u64 = get_be(payload, 17, 8) as u64;
        let chunk_size: u32 = get_be(payload, 25, 4) as u32;
        let total_chunks: u32 = get_be(payload, 29, 4) as u32;
        let file_hash = copy_array::<32>(payload, 33);
        let name_len: usize = get_be(payload, 65, 2) as usize;
        if name_len > MAX_FILE_NAME_LEN as usize {
            return Err(TransferError::InvalidField { field: "file_name" });
        }
        if payload.len() - 67 < name_len {
            return Err(TransferError::BufferTooShort { needed: name_len, got: payload.len() - 67 });
        }
        let file_name = match string_from_utf8(copy_range(payload, 67, 67 + name_len)) {
            Some(s) => s,
            None => return Err(TransferError::InvalidFileName),
        };
        if chunk_size == 0 {
            return Err(TransferError::InvalidField { field: "chunk_size" });
        }
        Ok(FileOffer { transfer_id, file_name, file_size, chunk_size, total_chunks, file_hash })
    }
}

/// An offer is read back from its wire form.
pub proof fn law_file_offer_roundtrip(o: FileOffer, d: FileOffer)
    requires
        o.chunk_size != 0,
        encode_utf8(o.file_name@).len() <= MAX_FILE_NAME_LEN,
    ensures
        FileOffer::fault(o.wire()) is None,
        d.read_from(o.wire()) <==> d.same(o),
{
    broadcast use lemma_be_len, encode_utf8_valid_utf8, encode_utf8_decode_utf8;

    lemma_pow256_values();
    let p = o.wire();
    let name = encode_utf8(o.file_name@);
    lemma_prefix(
        o.transfer_id,
        be(o.file_size as nat, 8) + be(o.chunk_size as nat, 4) + be(o.total_chunks as nat, 4) + o.file_hash@ + be(
            name.len() % 0x1_0000,
            2,
        ) + name,
    );
    assert(p.subrange(17, 25) =~= be(o.file_size as nat, 8));
    assert(p.subrange(25, 29) =~= be(o.chunk_size as nat, 4));
    assert(p.subrange(29, 33) =~= be(o.total_chunks as nat, 4));
    assert(p.subrange(33, 65) =~= o.file_hash@);
    assert(p.subrange(65, 67) =~= be(name.len(), 2));
    assert(p.subrange(67, 67 + name.len() as int) =~= name);
    lemma_be_roundtrip(o.file_size as nat, 8);
    lemma_be_roundtrip(o.chunk_size as nat, 4);
    lemma_be_roundtrip(o.total_chunks as nat, 4);
    lemma_be_roundtrip(name.len(), 2);
    if d.read_from(p) {
        lemma_array_eq(d.transfer_id.0, o.transfer_id.0);
        lemma_array_eq(d.file_hash, o.file_hash);
        encode_utf8_decode_utf8(o.file_name@);
        encode_utf8_decode_utf8(d.file_name@);
    }
}

/// The answer that accepts an offer. When a transfer is resumed it names the chunks
/// that are still missing.
#[derive(Debug, Clone, PartialEq, Eq)]
pub struct FileAccept {
    pub transfer_id: TransferId,
    pub resume: bool,
    pub missing_bitmap: Vec<u8>,
}

impl FileAccept {
    pub open spec fn same(self, o: FileAccept) -> bool {
        &&& self.transfer_id == o.transfer_id
        &&& self.resume == o.resume
        &&& self.missing_bitmap@ == o.missing_bitmap@
    }

    /// An acceptance; it resumes a transfer if there is a bitmap.
    pub fn new(transfer_id: TransferId, missing_bitmap: Vec<u8>) -> (r: Self)
        ensures
            r == (FileAccept { transfer_id, resume: missing_bitmap@.len() != 0, missing_bitmap }),
    {
        let resume = missing_bitmap.len() != 0;
        FileAccept { transfer_id, resume, missing_bitmap }
    }

    pub open spec fn wire(self) -> Seq<u8> {
        prefix_wire(self.transfer_id) + (be(if self.resume { 1 } else { 0 }, 1) + be(
            self.missing_bitmap@.len() % 0x1_0000_0000,
            4,
        ) + self.missing_bitmap@)
    }

    pub fn encode(&self) -> (r: Bytes)
        ensures
            bytes_contents(r) == self.wire(),
    {
        let mut out: Vec<u8> = Vec::new();
        put_prefix(&mut out, &self.transfer_id);
        put_be(&mut out, if self.resume { 1 } else { 0 }, 1);
        put_be(&mut out, self.missing_bitmap.len() as u128 % 0x1_0000_0000, 4);
        put_bytes(&mut out, self.missing_bitmap.as_slice());
        assert(out@ =~= self.wire());
        bytes_from_vec(out)
    }

    pub open spec fn fault(p: Seq<u8>) -> Option<TransferError> {
        let n = be_at(p, 18, 4);
        if prefix_fault(p, 22) is Some {
            prefix_fault(p, 22)
        } else if p[17] == 0 && n != 0 {
            Some(TransferError::InvalidField { field: "missing_bitmap" })
        } else if p.len() - 22 < n {
            Some(TransferError::BufferTooShort { needed: n as usize, got: (p.len() - 22) as usize })
        } else {
            None
        }
    }

    pub open spec fn read_from(self, p: Seq<u8>) -> bool {
        &&& self.transfer_id@ == p.subrange(1, 17)
        &&& self.resume == (p[17] != 0)
        &&& self.missing_bitmap@ == p.subrange(22, 22 + be_at(p, 18, 4) as int)
    }

    pub fn decode(payload: &[u8]) -> (r: Result<Self, TransferError>)
        ensures
            match r {
                Ok(o) => Self::fault(payload@) is None && o.read_from(payload@),
                Err(e) => Self::fault(payload@) == Some(e),
            },
    {
        proof {
            lemma_pow256_values();
        }
        match check_prefix(payload, 22) {
            Ok(_) => {},
            Err(e) => return Err(e),
        }
        let transfer_id = TransferId(copy_array::<16>(payload, 1));
        let resume = payload[17] != 0;
        let n: usize = get_be(payload, 18, 4) as usize;
        if !resume && n != 0 {
            return Err(TransferError::InvalidField { field: "missing_bitmap" });
        }
        if payload.len() - 22 < n {
            return Err(TransferError::BufferTooShort { needed: n, got: payload.len() - 22 });
        }
        let missing_bitmap = copy_range(payload, 22, 22 + n);
        Ok(FileAccept { transfer_id, resume, missing_bitmap })
    }
}

/// An acceptance is read back from its wire form.
pub proof fn law_file_accept_roundtrip(o: FileAccept, d: FileAccept)
    requires
        o.resume || o.missing_bitmap@.len() == 0,
        o.missing_bitmap@.len() <= u32::MAX,
    ensures
        FileAccept::fault(o.wire()) is None,
        d.read_from(o.wire()) <==> d.same(o),
{
    broadcast use lemma_be_len;

    lemma_pow256_values();
    let p = o.wire();
    let flag: u8 = if o.resume { 1 } else { 0 };
    let n = o.missing_bitmap@.len();
    lemma_prefix(o.transfer_id, be(flag as nat, 1) + be(n % 0x1_0000_0000, 4) + o.missing_bitmap@);
    lemma_byte(flag);
    assert(p.subrange(17, 18) =~= be(flag as nat, 1));
    assert(p[17] == p.subrange(17, 18)[0]);
    assert(p.subrange(18, 22) =~= be(n, 4));
    assert(p.subrange(22, 22 + n as int) =~= o.missing_bitmap@);
    lemma_be_roundtrip(n, 4);
    if d.read_from(p) {
        lemma_array_eq(d.transfer_id.0, o.transfer_id.0);
    }
}

/// Why an offer is rejected.
#[derive(Debug, Clone, Copy, PartialEq, Eq, Structural)]
pub enum FileRejectReason {
    Declined,
    Busy,
    NotFound,
    Protocol,
    Internal,
}

impl FileRejectReason {
    /// The byte on the wire.
    pub open spec fn code(self) -> u8 {
        match self {
            Self::Declined => 1,
            Self::Busy => 2,
            Self::NotFound => 3,
            Self::Protocol => 4,
            Self::Internal => 5,
        }
    }

    pub fn as_byte(self) -> (r: u8)
        ensures
            r == self.code(),
    {
        match self {
            Self::Declined => 1,
            Self::Busy => 2,
            Self::NotFound => 3,
            Self::Protocol => 4,
            Self::Internal => 5,
        }
    }

    pub fn from_byte(value: u8) -> (r: Result<Self, TransferError>)
        ensures
            match r {
                Ok(v) => v.code() == value,
                Err(e) => {
                    &&& forall|v: Self| #[trigger] v.code() != value
                    &&& e == (TransferError::UnknownEnum { field: "FileRejectReason", value })
                },
            },
    {
        match value {
            1 => Ok(Self::Declined),
            2 => Ok(Self::Busy),
            3 => Ok(Self::NotFound),
            4 => Ok(Self::Protocol),
            5 => Ok(Self::Internal),
            other => Err(TransferError::UnknownEnum { field: "FileRejectReason", value: other }),
        }
    }
}

/// The answer that rejects an offer.
#[derive(Debug, Clone, PartialEq, Eq)]
pub struct FileReject {
    pub transfer_id: TransferId,
    pub reason: FileRejectReason,
}

impl FileReject {
    pub open spec fn wire(self) -> Seq<u8> {
        prefix_wire(self.transfer_id) + (be(self.reason.code() as nat, 1))
    }

    pub fn encode(&self) -> (r: Bytes)
        ensures
            bytes_contents(r) == self.wire(),
    {
        let mut out: Vec<u8> = Vec::new();
        put_prefix(&mut out, &self.transfer_id);
        put_be(&mut out, self.reason.as_byte() as u128, 1);
        assert(out@ =~= self.wire());
        bytes_from_vec(out)
    }

    pub open spec fn fault(p: Seq<u8>) -> Option<TransferError> {
        if prefix_fault(p, 18) is Some {
            prefix_fault(p, 18)
        } else if forall|v: FileRejectReason| #[trigger] v.code() != p[17] {
            Some(TransferError::UnknownEnum { field: "FileRejectReason", value: p[17] })
        } else {
            None
        }
    }

    pub open spec fn read_from(self, p: Seq<u8>) -> bool {
        &&& self.transfer_id@ == p.subrange(1, 17)
        &&& self.reason.code() == p[17]
    }

    pub fn decode(payload: &[u8]) -> (r: Result<Self, TransferError>)
        ensures
            match r {
                Ok(o) => Self::fault(payload@) is None && o.read_from(payload@),
                Err(e) => Self::fault(payload@) == Some(e),
            },
    {
        proof {
            lemma_pow256_values();
        }
        match check_prefix(payload, 18) {
            Ok(_) => {},
            Err(e) => return Err(e),
        }
        let transfer_id = TransferId(copy_array::<16>(payload, 1));
        let reason = match FileRejectReason::from_byte(payload[17]) {
            Ok(v) => v,
            Err(e) => return Err(e),
        };
        Ok(FileReject { transfer_id, reason })
    }
}

/// A rejection is read back from its wire form.
pub proof fn law_file_reject_roundtrip(o: FileReject, d: FileReject)
    ensures
        FileReject::fault(o.wire()) is None,
        d.read_from(o.wire()) <==> d == o,
{
    broadcast use lemma_be_len;

    lemma_pow256_values();
    let p = o.wire();
    lemma_prefix(o.transfer_id, be(o.reason.code() as nat, 1));
    lemma_byte(o.reason.code());
    assert(p.subrange(17, 18) =~= be(o.reason.code() as nat, 1));
    assert(p[17] == p.subrange(17, 18)[0]);
    if d.read_from(p) {
        lemma_array_eq(d.transfer_id.0, o.transfer_id.0);
    }
}

/// A chunk of a file, with its hash.
#[derive(Debug, Clone, PartialEq, Eq)]
pub struct FileChunk {
    pub transfer_id: TransferId,
    pub chunk_index: u32,
    pub chunk_hash: [u8; 32],
    pub data: Bytes,
}

impl FileChunk {
    pub open spec fn same(self, o: FileChunk) -> bool {
        &&& self.transfer_id == o.transfer_id
        &&& self.chunk_index == o.chunk_index
        &&& self.chunk_hash == o.chunk_hash
        &&& bytes_contents(self.data) == bytes_contents(o.data)
    }

    pub open spec fn wire(self) -> Seq<u8> {
        prefix_wire(self.transfer_id) + (be(self.chunk_index as nat, 4) + self.chunk_hash@ + bytes_contents(self.data))
    }

    pub fn encode(&self) -> (r: Bytes)
        ensures
            bytes_contents(r) == self.wire(),
    {
        let mut out: Vec<u8> = Vec::new();
        put_prefix(&mut out, &self.transfer_id);
        put_be(&mut out, self.chunk_index as u128, 4);
        put_bytes(&mut out, self.chunk_hash.as_slice());
        put_bytes(&mut out, bytes_as_slice(&self.data));
        assert(out@ =~= self.wire());
        bytes_from_vec(out)
    }

    pub open spec fn fault(p: Seq<u8>) -> Option<TransferError> {
        prefix_fault(p, 53)
    }

    pub open spec fn read_from(self, p: Seq<u8>) -> bool {
        &&& self.transfer_id@ == p.subrange(1, 17)
        &&& self.chunk_index == be_at(p, 17, 4)
        &&& self.chunk_hash@ == p.subrange(21, 53)
        &&& bytes_contents(self.data) == p.subrange(53, p.len() as int)
    }

    pub fn decode(payload: Bytes) -> (r: Result<Self, TransferError>)
        ensures
            match r {
                Ok(o) => Self::fault(bytes_contents(payload)) is None && o.read_from(bytes_contents(payload)),
                Err(e) => Self::fault(bytes_contents(payload)) == Some(e),
            },
    {
        proof {
            lemma_pow256_values();
        }
        let p = bytes_as_slice(&payload);
        match check_prefix(p, 53) {
            Ok(_) => {},
            Err(e) => return Err(e),
        }
        let transfer_id = TransferId(copy_array::<16>(p, 1));
        let chunk_index: u32 = get_be(p, 17, 4) as u32;
        let chunk_hash = copy_array::<32>(p, 21);
        let data = bytes_from(&payload, 53);
        Ok(FileChunk { transfer_id, chunk_index, chunk_hash, data })
    }
}

/// A chunk is read back from its wire form.
pub proof fn law_file_chunk_roundtrip(o: FileChunk, d: FileChunk)
    ensures
        FileChunk::fault(o.wire()) is None,
        d.read_from(o.wire()) <==> d.same(o),
{
    broadcast use lemma_be_len;

    lemma_pow256_values();
    let p = o.wire();
    lemma_prefix(o.transfer_id, be(o.chunk_index as nat, 4) + o.chunk_hash@ + bytes_contents(o.data));
    assert(p.subrange(17, 21) =~= be(o.chunk_index as nat, 4));
    assert(p.subrange(21, 53) =~= o.chunk_hash@);
    assert(p.subrange(53, p.len() as int) =~= bytes_contents(o.data));
    lemma_be_roundtrip(o.chunk_index as nat, 4);
    if d.read_from(p) {
        lemma_array_eq(d.transfer_id.0, o.transfer_id.0);
        lemma_array_eq(d.chunk_hash, o.chunk_hash);
    }
}

/// How a chunk was received.
#[derive(Debug, Clone, Copy, PartialEq, Eq, Structural)]
pub enum ChunkAckStatus {
    Received,
    BadHash,
    Cancelled,
}

impl ChunkAckStatus {
    /// The byte on the wire.
    pub open spec fn code(self) -> u8 {
        match self {
            Self::Received => 0,
            Self::BadHash => 1,
            Self::Cancelled => 2,
        }
    }

    pub fn as_byte(self) -> (r: u8)
        ensures
            r == self.code(),
    {
        match self {
            Self::Received => 0,
            Self::BadHash => 1,
            Self::Cancelled => 2,
        }
    }

    pub fn from_byte(value: u8) -> (r: Result<Self, TransferError>)
        ensures
            match r {
                Ok(v) => v.code() == value,
                Err(e) => {
                    &&& forall|v: Self| #[trigger] v.code() != value
                    &&& e == (TransferError::UnknownEnum { field: "ChunkAckStatus", value })
                },
            },
    {
        match value {
            0 => Ok(Self::Received),
            1 => Ok(Self::BadHash),
            2 => Ok(Self::Cancelled),
            other => Err(TransferError::UnknownEnum { field: "ChunkAckStatus", value: other }),
        }
    }
}

/// The acknowledgement of a chunk.
#[derive(Debug, Clone, PartialEq, Eq)]
pub struct FileChunkAck {
    pub transfer_id: TransferId,
    pub chunk_index: u32,
    pub status: ChunkAckStatus,
}

impl FileChunkAck {
    pub open spec fn wire(self) -> Seq<u8> {
        prefix_wire(self.transfer_id) + (be(self.chunk_index as nat, 4) + be(self.status.code() as nat, 1))
    }

    pub fn encode(&self) -> (r: Bytes)
        ensures
            bytes_contents(r) == self.wire(),
    {
        let mut out: Vec<u8> = Vec::new();
        put_prefix(&mut out, &self.transfer_id);
        put_be(&mut out, self.chunk_index as u128, 4);
        put_be(&mut out, self.status.as_byte() as u128, 1);
        assert(out@ =~= self.wire());
        bytes_from_vec(out)
    }

    pub open spec fn fault(p: Seq<u8>) -> Option<TransferError> {
        if prefix_fault(p, 22) is Some {
            prefix_fault(p, 22)
        } else if forall|v: ChunkAckStatus| #[trigger] v.code() != p[21] {
            Some(TransferError::UnknownEnum { field: "ChunkAckStatus", value: p[21] })
        } else {
            None
        }
    }

    pub open spec fn read_from(self, p: Seq<u8>) -> bool {
        &&& self.transfer_id@ == p.subrange(1, 17)
        &&& self.chunk_index == be_at(p, 17, 4)
        &&& self.status.code() == p[21]
    }

    pub fn decode(payload: &[u8]) -> (r: Result<Self, TransferError>)
        ensures
            match r {
                Ok(o) => Self::fault(payload@) is None && o.read_from(payload@),
                Err(e) => Self::fault(payload@) == Some(e),
            },
    {
        proof {
            lemma_pow256_values();
        }
        match check_prefix(payload, 22) {
            Ok(_) => {},
            Err(e) => return Err(e),
        }
        let transfer_id = TransferId(copy_array::<16>(payload, 1));
        let chunk_index: u32 = get_be(payload, 17, 4) as u32;
        let status = match ChunkAckStatus::from_byte(payload[21]) {
            Ok(v) => v,
            Err(e) => return Err(e),
        };
        Ok(FileChunkAck { transfer_id, chunk_index, status })
    }
}

/// An acknowledgement is read back from its wire form.
pub proof fn law_file_chunk_ack_roundtrip(o: FileChunkAck, d: FileChunkAck)
    ensures
        FileChunkAck::fault(o.wire()) is None,
        d.read_from(o.wire()) <==> d == o,
{
    broadcast use lemma_be_len;

    lemma_pow256_values();
    let p = o.wire();
    lemma_prefix(o.transfer_id, be(o.chunk_index as nat, 4) + be(o.status.code() as nat, 1));
    assert(p.subrange(17, 21) =~= be(o.chunk_index as nat, 4));
    lemma_be_roundtrip(o.chunk_index as nat, 4);
    lemma_byte(o.status.code());
    assert(p.subrange(21, 22) =~= be(o.status.code() as nat, 1));
    assert(p[21] == p.subrange(21, 22)[0]);
    if d.read_from(p) {
        lemma_array_eq(d.transfer_id.0, o.transfer_id.0);
    }
}

/// The notice that a file is complete.
#[derive(Debug, Clone, PartialEq, Eq)]
pub struct FileComplete {
    pub transfer_id: TransferId,
    pub file_hash: [u8; 32],
}

impl FileComplete {
    pub open spec fn wire(self) -> Seq<u8> {
        prefix_wire(self.transfer_id) + (self.file_hash@)
    }

    pub fn encode(&self) -> (r: Bytes)
        ensures
            bytes_contents(r) == self.wire(),
    {
        let mut out: Vec<u8> = Vec::new();
        put_prefix(&mut out, &self.transfer_id);
        put_bytes(&mut out, self.file_hash.as_slice());
        assert(out@ =~= self.wire());
        bytes_from_vec(out)
    }

    pub open spec fn fault(p: Seq<u8>) -> Option<TransferError> {
        prefix_fault(p, 49)
    }

    pub open spec fn read_from(self, p: Seq<u8>) -> bool {
        &&& self.transfer_id@ == p.subrange(1, 17)
        &&& self.file_hash@ == p.subrange(17, 49)
    }

    pub fn decode(payload: &[u8]) -> (r: Result<Self, TransferError>)
        ensures
            match r {
                Ok(o) => Self::fault(payload@) is None && o.read_from(payload@),
                Err(e) => Self::fault(payload@) == Some(e),
            },
    {
        proof {
            lemma_pow256_values();
        }
        match check_prefix(payload, 49) {
            Ok(_) => {},
            Err(e) => return Err(e),
        }
        let transfer_id = TransferId(copy_array::<16>(payload, 1));
        let file_hash = copy_array::<32>(payload, 17);
        Ok(FileComplete { transfer_id, file_hash })
    }
}

/// A notice of completion is read back from its wire form.
pub proof fn law_file_complete_roundtrip(o: FileComplete, d: FileComplete)
    ensures
        FileComplete::fault(o.wire()) is None,
        d.read_from(o.wire()) <==> d == o,
{
    broadcast use lemma_be_len;

    lemma_pow256_values();
    let p = o.wire();
    lemma_prefix(o.transfer_id, o.file_hash@);
    assert(p.subrange(17, 49) =~= o.file_hash@);
    if d.read_from(p) {
        lemma_array_eq(d.transfer_id.0, o.transfer_id.0);
        lemma_array_eq(d.file_hash, o.file_hash);
    }
}

/// Why a transfer is cancelled.
#[derive(Debug, Clone, Copy, PartialEq, Eq, Structural)]
pub enum FileCancelReason {
    User,
    Error,
    Timeout,
}

impl FileCancelReason {
    /// The byte on the wire.
    pub open spec fn code(self) -> u8 {
        match self {
            Self::User => 1,
            Self::Error => 2,
            Self::Timeout => 3,
        }
    }

    pub fn as_byte(self) -> (r: u8)
        ensures
            r == self.code(),
    {
        match self {
            Self::User => 1,
            Self::Error => 2,
            Self::Timeout => 3,
        }
    }

    pub fn from_byte(value: u8) -> (r: Result<Self, TransferError>)
        ensures
            match r {
                Ok(v) => v.code() == value,
                Err(e) => {
                    &&& forall|v: Self| #[trigger] v.code() != value
                    &&& e == (TransferError::UnknownEnum { field: "FileCancelReason", value })
                },
            },
    {
        match value {
            1 => Ok(Self::User),
            2 => Ok(Self::Error),
            3 => Ok(Self::Timeout),
            other => Err(TransferError::UnknownEnum { field: "FileCancelReason", value: other }),
        }
    }
}

/// The notice that a transfer is cancelled.
#[derive(Debug, Clone, PartialEq, Eq)]
pub struct FileCancel {
    pub transfer_id: TransferId,
    pub reason: FileCancelReason,
}

impl FileCancel {
    pub open spec fn wire(self) -> Seq<u8> {
        prefix_wire(self.transfer_id) + (be(self.reason.code() as nat, 1))
    }

    pub fn encode(&self) -> (r: Bytes)
        ensures
            bytes_contents(r) == self.wire(),
    {
        let mut out: Vec<u8> = Vec::new();
        put_prefix(&mut out, &self.transfer_id);
        put_be(&mut out, self.reason.as_byte() as u128, 1);
        assert(out@ =~= self.wire());
        bytes_from_vec(out)
    }

    pub open spec fn fault(p: Seq<u8>) -> Option<TransferError> {
        if prefix_fault(p, 18) is Some {
            prefix_fault(p, 18)
        } else if forall|v: FileCancelReason| #[trigger] v.code() != p[17] {
            Some(TransferError::UnknownEnum { field: "FileCancelReason", value: p[17] })
        } else {
            None
        }
    }

    pub open spec fn read_from(self, p: Seq<u8>) -> bool {
        &&& self.transfer_id@ == p.subrange(1, 17)
        &&& self.reason.code() == p[17]
    }

    pub fn decode(payload: &[u8]) -> (r: Result<Self, TransferError>)
        ensures
            match r {
                Ok(o) => Self::fault(payload@) is None && o.read_from(payload@),
                Err(e) => Self::fault(payload@) == Some(e),
            },
    {
        proof {
            lemma_pow256_values();
        }
        match check_prefix(payload, 18) {
            Ok(_) => {},
            Err(e) => return Err(e),
        }
        let transfer_id = TransferId(copy_array::<16>(payload, 1));
        let reason = match FileCancelReason::from_byte(payload[17]) {
            Ok(v) => v,
            Err(e) => return Err(e),
        };
        Ok(FileCancel { transfer_id, reason })
    }
}

/// A notice of cancellation is read back from its wire form.
pub proof fn law_file_cancel_roundtrip(o: FileCancel, d: FileCancel)
    ensures
        FileCancel::fault(o.wire()) is None,
        d.read_from(o.wire()) <==> d == o,
{
    broadcast use lemma_be_len;

    lemma_pow256_values();
    let p = o.wire();
    lemma_prefix(o.transfer_id, be(o.reason.code() as nat, 1));
    lemma_byte(o.reason.code());
    assert(p.subrange(17, 18) =~= be(o.reason.code() as nat, 1));
    assert(p[17] == p.subrange(17, 18)[0]);
    if d.read_from(p) {
        lemma_array_eq(d.transfer_id.0, o.transfer_id.0);
    }
}

/// The bytes that a bitmap of so many chunks takes.
pub fn bitmap_len(chunk_count: u32) -> (r: usize)
    ensures
        r == (chunk_count + 7) / 8,
{
    ((chunk_count as u64 + 7) / 8) as usize
}

/// Chunk `i` is marked in the bitmap. Beyond its end nothing is.
pub open spec fn marked(bitmap: Seq<u8>, i: u32) -> bool {
    (i / 8) < bitmap.len() && bitmap[(i / 8) as int] & (1u8 << ((i % 8) as u8)) != 0
}

pub fn bitmap_is_missing(bitmap: &[u8], chunk_index: u32) -> (r: bool)
    ensures
        r == marked(bitmap@, chunk_index),
{
    let byte_index: usize = (chunk_index / 8) as usize;
    let bit_index: u8 = (chunk_index % 8) as u8;
    if byte_index >= bitmap.len() {
        return false;
    }
    (bitmap[byte_index] & (1u8 << bit_index)) != 0
}

/// The bitmap with chunk `i` marked or not, and everything else as it was. Beyond its end
/// nothing is changed.
pub open spec fn with_mark(bitmap: Seq<u8>, i: u32, missing: bool) -> Seq<u8> {
    if (i / 8) < bitmap.len() {
        let was = bitmap[(i / 8) as int];
        let mask = 1u8 << ((i % 8) as u8);
        bitmap.update((i / 8) as int, if missing { was | mask } else { was & !mask })
    } else {
        bitmap
    }
}

/// Marks a chunk as missing or not, and no other. Beyond the end of the bitmap nothing
/// happens.
pub fn bitmap_set_missing(bitmap: &mut [u8], chunk_index: u32, missing: bool)
    ensures
        final(bitmap)@ == with_mark(old(bitmap)@, chunk_index, missing),
        final(bitmap)@.len() == old(bitmap)@.len(),
        forall|k: int| 0 <= k < old(bitmap)@.len() && k != chunk_index / 8 ==> #[trigger] final(bitmap)@[k] == old(bitmap)@[k],
        forall|i: u32|
            #![trigger marked(final(bitmap)@, i)]
            marked(final(bitmap)@, i) == (if i == chunk_index && (i / 8) < old(bitmap)@.len() {
                missing
            } else {
                marked(old(bitmap)@, i)
            }),
{
    proof {
        assert forall|i: u32| #![trigger marked(with_mark(bitmap@, chunk_index, missing), i)]
            marked(with_mark(bitmap@, chunk_index, missing), i) == (if i == chunk_index && (i / 8) < bitmap@.len() {
                missing
            } else {
                marked(bitmap@, i)
            }) by {
            law_mark_touches_one_chunk(bitmap@, chunk_index, missing, i);
        }
    }
    let byte_index: usize = (chunk_index / 8) as usize;
    let bit_index: u8 = (chunk_index % 8) as u8;
    if byte_index >= bitmap.len() {
        return;
    }
    let mask: u8 = 1u8 << bit_index;
    let was: u8 = bitmap[byte_index];
    let now: u8 = if missing {
        was | mask
    } else {
        was & !mask
    };
    bitmap[byte_index] = now;
    assert(bitmap@ =~= with_mark(old(bitmap)@, chunk_index, missing));
}

/// Marking a chunk within the bitmap marks that chunk, and leaves every other as it was.
pub proof fn law_mark_touches_one_chunk(bitmap: Seq<u8>, chunk_index: u32, missing: bool, i: u32)
    ensures
        with_mark(bitmap, chunk_index, missing).len() == bitmap.len(),
        marked(with_mark(bitmap, chunk_index, missing), i) == (if i == chunk_index && (i / 8) < bitmap.len() {
            missing
        } else {
            marked(bitmap, i)
        }),
{
    let k: u8 = (i % 8) as u8;
    let bit_index: u8 = (chunk_index % 8) as u8;
    if i / 8 == chunk_index / 8 && (i / 8) < bitmap.len() {
        let was = bitmap[(i / 8) as int];
        let mask = 1u8 << bit_index;
        assert((i == chunk_index) == (k == bit_index));
        assert((was | mask) & (1u8 << k) != 0 <==> (k == bit_index || was & (1u8 << k) != 0)) by (bit_vector)
            requires
                mask == 1u8 << bit_index,
                bit_index < 8,
                k < 8,
        ;
        assert((was & !mask) & (1u8 << k) != 0 <==> (k != bit_index && was & (1u8 << k) != 0)) by (bit_vector)
            requires
                mask == 1u8 << bit_index,
                bit_index < 8,
                k < 8,
        ;
    }
}

/// Marking a chunk as it was before restores the bitmap.
pub proof fn law_mark_is_undone(bitmap: Seq<u8>, chunk_index: u32, missing: bool)
    ensures
        with_mark(with_mark(bitmap, chunk_index, missing), chunk_index, marked(bitmap, chunk_index)) == bitmap,
{
    if (chunk_index / 8) < bitmap.len() {
        let was = bitmap[(chunk_index / 8) as int];
        let k: u8 = (chunk_index % 8) as u8;
        let mask = 1u8 << k;
        assert(was & mask != 0 ==> (was | mask) | mask == was && (was & !mask) | mask == was) by (bit_vector)
            requires
                mask == 1u8 << k,
                k < 8,
        ;
        assert(was & mask == 0 ==> (was | mask) & !mask == was && (was & !mask) & !mask == was) by (bit_vector)
            requires
                mask == 1u8 << k,
                k < 8,
        ;
        assert(with_mark(with_mark(bitmap, chunk_index, missing), chunk_index, marked(bitmap, chunk_index)) =~= bitmap);
    }
}

/// How many chunks a file has, as far as 32 bits hold the number. There are none without
/// a size.
pub open spec fn total_chunks_of(file_size: u64, chunk_size: u32) -> u32 {
    if file_size == 0 || chunk_size == 0 {
        0
    } else {
        (((file_size - 1) / (chunk_size as int) + 1) % 0x1_0000_0000) as u32
    }
}

pub fn compute_total_chunks(file_size: u64, chunk_size: u32) -> (r: u32)
    ensures
        r == total_chunks_of(file_size, chunk_size),
{
    if file_size == 0 || chunk_size == 0 {
        return 0;
    }
    let count: u128 = (file_size as u128 - 1) / (chunk_size as u128) + 1;
    (count % 0x1_0000_0000u128) as u32
}

/// The chunks cover the file, and the last of them is not empty, as long as their number
/// fits in 32 bits.
pub proof fn law_chunks_cover_the_file(file_size: u64, chunk_size: u32)
    requires
        file_size > 0,
        chunk_size > 0,
        (file_size - 1) / (chunk_size as int) < u32::MAX,
    ensures
        total_chunks_of(file_size, chunk_size) * chunk_size >= file_size,
        (total_chunks_of(file_size, chunk_size) - 1) * chunk_size < file_size,
{
    let q = (file_size - 1) / (chunk_size as int);
    let n = total_chunks_of(file_size, chunk_size) as int;
    assert(q >= 0) by (nonlinear_arith)
        requires
            q == (file_size - 1) / (chunk_size as int),
            file_size > 0,
            chunk_size > 0,
    ;
    assert(n == q + 1);
    assert(q * chunk_size <= file_size - 1 < (q + 1) * chunk_size) by (nonlinear_arith)
        requires
            q == (file_size - 1) / (chunk_size as int),
            chunk_size > 0,
    ;
}

/// A file offer can be read just if it is whole, of version 1, with a name of at most 255 bytes
/// that is text, and with a chunk size. What it says stands in its places.
pub proof fn law_file_offer_is_read(p: Seq<u8>, o: FileOffer)
    ensures
        FileOffer::fault(p) is None <==> {
            &&& p.len() >= 67
            &&& p[0] == 1
            &&& be_val(p.subrange(65, 67)) <= 255
            &&& p.len() >= 67 + be_val(p.subrange(65, 67))
            &&& valid_utf8(p.subrange(67, 67 + be_val(p.subrange(65, 67)) as int))
            &&& be_val(p.subrange(25, 29)) != 0
        },
        o.read_from(p) <==> {
            &&& o.transfer_id@ == p.subrange(1, 17)
            &&& o.file_size == be_val(p.subrange(17, 25))
            &&& o.chunk_size == be_val(p.subrange(25, 29))
            &&& o.total_chunks == be_val(p.subrange(29, 33))
            &&& o.file_hash@ == p.subrange(33, 65)
            &&& encode_utf8(o.file_name@) == p.subrange(67, 67 + be_val(p.subrange(65, 67)) as int)
        },
        encode_utf8(o.file_name@).len() <= 255 ==> o.wire().len() == 67 + encode_utf8(o.file_name@).len() && o.wire()[0] == 1,
        p.len() < 67 ==> FileOffer::fault(p) == Some(TransferError::BufferTooShort { needed: 67, got: p.len() as usize }),
        p.len() >= 67 && p[0] != 1 ==> FileOffer::fault(p) == Some(TransferError::UnsupportedVersion { version: p[0] }),
{
    broadcast use lemma_be_len;

    lemma_byte(1);
}

/// An acceptance can be read just if it is whole, of version 1, and names missing chunks only
/// where a transfer is resumed.
pub proof fn law_file_accept_is_read(p: Seq<u8>, o: FileAccept)
    ensures
        FileAccept::fault(p) is None <==> {
            &&& p.len() >= 22
            &&& p[0] == 1
            &&& p[17] != 0 || be_val(p.subrange(18, 22)) == 0
            &&& p.len() >= 22 + be_val(p.subrange(18, 22))
        },
        o.read_from(p) <==> {
            &&& o.transfer_id@ == p.subrange(1, 17)
            &&& o.resume <==> p[17] != 0
            &&& o.missing_bitmap@ == p.subrange(22, 22 + be_val(p.subrange(18, 22)) as int)
        },
        o.wire().len() == 22 + o.missing_bitmap@.len() && o.wire()[0] == 1 && o.wire()[17] == (if o.resume { 1u8 } else { 0u8 }),
        p.len() < 22 ==> FileAccept::fault(p) == Some(TransferError::BufferTooShort { needed: 22, got: p.len() as usize }),
        p.len() >= 22 && p[0] != 1 ==> FileAccept::fault(p) == Some(TransferError::UnsupportedVersion { version: p[0] }),
{
    broadcast use lemma_be_len;

    lemma_byte(1);
    lemma_byte(0);
}

/// A chunk can be read just if it has its 53 bytes of header, of version 1; all that follows is
/// its data.
pub proof fn law_file_chunk_is_read(p: Seq<u8>, o: FileChunk)
    ensures
        FileChunk::fault(p) is None <==> p.len() >= 53 && p[0] == 1,
        o.read_from(p) <==> {
            &&& o.transfer_id@ == p.subrange(1, 17)
            &&& o.chunk_index == be_val(p.subrange(17, 21))
            &&& o.chunk_hash@ == p.subrange(21, 53)
            &&& bytes_contents(o.data) == p.subrange(53, p.len() as int)
        },
        o.wire().len() == 53 + bytes_contents(o.data).len() && o.wire()[0] == 1,
        p.len() < 53 ==> FileChunk::fault(p) == Some(TransferError::BufferTooShort { needed: 53, got: p.len() as usize }),
        p.len() >= 53 && p[0] != 1 ==> FileChunk::fault(p) == Some(TransferError::UnsupportedVersion { version: p[0] }),
{
    broadcast use lemma_be_len;

    lemma_byte(1);
}

/// An acknowledgement can be read just if it is whole, of version 1, and tells that the chunk was
/// received, was bad, or was cancelled.
pub proof fn law_file_chunk_ack_is_read(p: Seq<u8>, o: FileChunkAck)
    ensures
        FileChunkAck::fault(p) is None <==> p.len() >= 22 && p[0] == 1 && p[21] <= 2,
        o.read_from(p) <==> {
            &&& o.transfer_id@ == p.subrange(1, 17)
            &&& o.chunk_index == be_val(p.subrange(17, 21))
            &&& o.status is Received && p[21] == 0 || o.status is BadHash && p[21] == 1 || o.status is Cancelled && p[21] == 2
        },
        o.wire().len() == 22 && o.wire()[0] == 1,
        p.len() >= 22 && p[0] == 1 && p[21] > 2 ==> FileChunkAck::fault(p) == Some(
            TransferError::UnknownEnum { field: "ChunkAckStatus", value: p[21] },
        ),
        p.len() < 22 ==> FileChunkAck::fault(p) == Some(TransferError::BufferTooShort { needed: 22, got: p.len() as usize }),
        p.len() >= 22 && p[0] != 1 ==> FileChunkAck::fault(p) == Some(TransferError::UnsupportedVersion { version: p[0] }),
{
    broadcast use lemma_be_len;

    lemma_byte(1);
    assert(ChunkAckStatus::Received.code() == 0 && ChunkAckStatus::BadHash.code() == 1 && ChunkAckStatus::Cancelled.code() == 2);
}

/// A rejection can be read just if it is whole, of version 1, with one of five reasons.
pub proof fn law_file_reject_is_read(p: Seq<u8>, o: FileReject)
    ensures
        FileReject::fault(p) is None <==> p.len() >= 18 && p[0] == 1 && 1 <= p[17] <= 5,
        o.read_from(p) <==> {
            &&& o.transfer_id@ == p.subrange(1, 17)
            &&& o.reason is Declined && p[17] == 1 || o.reason is Busy && p[17] == 2 || o.reason is NotFound && p[17] == 3
                || o.reason is Protocol && p[17] == 4 || o.reason is Internal && p[17] == 5
        },
        o.wire().len() == 18 && o.wire()[0] == 1,
        p.len() < 18 ==> FileReject::fault(p) == Some(TransferError::BufferTooShort { needed: 18, got: p.len() as usize }),
        p.len() >= 18 && p[0] != 1 ==> FileReject::fault(p) == Some(TransferError::UnsupportedVersion { version: p[0] }),
{
    broadcast use lemma_be_len;

    lemma_byte(1);
    assert(FileRejectReason::Declined.code() == 1 && FileRejectReason::Busy.code() == 2 && FileRejectReason::NotFound.code() == 3
        && FileRejectReason::Protocol.code() == 4 && FileRejectReason::Internal.code() == 5);
}

/// A cancellation can be read just if it is whole, of version 1, with one of three reasons.
pub proof fn law_file_cancel_is_read(p: Seq<u8>, o: FileCancel)
    ensures
        FileCancel::fault(p) is None <==> p.len() >= 18 && p[0] == 1 && 1 <= p[17] <= 3,
        o.read_from(p) <==> {
            &&& o.transfer_id@ == p.subrange(1, 17)
            &&& o.reason is User && p[17] == 1 || o.reason is Error && p[17] == 2 || o.reason is Timeout && p[17] == 3
        },
        o.wire().len() == 18 && o.wire()[0] == 1,
        p.len() < 18 ==> FileCancel::fault(p) == Some(TransferError::BufferTooShort { needed: 18, got: p.len() as usize }),
        p.len() >= 18 && p[0] != 1 ==> FileCancel::fault(p) == Some(TransferError::UnsupportedVersion { version: p[0] }),
{
    broadcast use lemma_be_len;

    lemma_byte(1);
    assert(FileCancelReason::User.code() == 1 && FileCancelReason::Error.code() == 2 && FileCancelReason::Timeout.code() == 3);
}

/// A notice of completion can be read just if it is whole and of version 1.
pub proof fn law_file_complete_is_read(p: Seq<u8>, o: FileComplete)
    ensures
        FileComplete::fault(p) is None <==> p.len() >= 49 && p[0] == 1,
        o.read_from(p) <==> o.transfer_id@ == p.subrange(1, 17) && o.file_hash@ == p.subrange(17, 49),
        o.wire().len() == 49 && o.wire()[0] == 1,
        p.len() < 49 ==> FileComplete::fault(p) == Some(TransferError::BufferTooShort { needed: 49, got: p.len() as usize }),
        p.len() >= 49 && p[0] != 1 ==> FileComplete::fault(p) == Some(TransferError::UnsupportedVersion { version: p[0] }),
{
    broadcast use lemma_be_len;

    lemma_byte(1);
}

/// A file without content, or without a chunk size, has no chunks. Else as many chunks as fit in
/// 32 bits: adding a chunk's worth of content adds a chunk.
pub proof fn law_chunks_are_counted(file_size: u64, chunk_size: u32)
    ensures
        file_size == 0 || chunk_size == 0 ==> total_chunks_of(file_size, chunk_size) == 0,
        0 < file_size <= chunk_size ==> total_chunks_of(file_size, chunk_size) == 1,
        file_size > 0 && chunk_size > 0 && file_size + chunk_size <= u64::MAX && total_chunks_of(file_size, chunk_size) < u32::MAX
            ==> total_chunks_of((file_size + chunk_size) as u64, chunk_size) == total_chunks_of(file_size, chunk_size) + 1,
{
    if file_size > 0 && chunk_size > 0 {
        let c = chunk_size as int;
        let q = (file_size - 1) / c;
        assert(0 <= q && (file_size <= c ==> q == 0)) by (nonlinear_arith)
            requires
                q == (file_size - 1) / c,
                file_size > 0,
                c > 0,
        ;
        assert((file_size + c - 1) / c == q + 1) by (nonlinear_arith)
            requires
                q == (file_size - 1) / c,
                c > 0,
        ;
        let m = 0x1_0000_0000int;
        assert((q + 2) % m == if (q + 1) % m == m - 1 { 0 } else { (q + 1) % m + 1 });
    }
}

/// A chunk has its bit in the byte of its eight: the first of them the lowest bit.
pub proof fn law_bits_of_a_bitmap(bitmap: Seq<u8>, i: u32)
    ensures
        i / 8 >= bitmap.len() ==> !marked(bitmap, i),
        i / 8 < bitmap.len() && i % 8 == 0 ==> (marked(bitmap, i) <==> bitmap[i as int / 8] % 2 == 1),
        i / 8 < bitmap.len() && i % 8 == 7 ==> (marked(bitmap, i) <==> bitmap[i as int / 8] >= 128),
{
    if i / 8 < bitmap.len() {
        let b = bitmap[i as int / 8];
        assert((b & (1u8 << 0u8) != 0) == (b % 2 == 1)) by (bit_vector);
        assert((b & (1u8 << 7u8) != 0) == (b >= 128)) by (bit_vector);
    }
}

/// Each message is read back from its bytes as what it was.
pub proof fn law_messages_are_read_back(
    offer: FileOffer,
    b1: Bytes,
    p1: &[u8],
    r1: Result<FileOffer, TransferError>,
    accept: FileAccept,
    b2: Bytes,
    p2: &[u8],
    r2: Result<FileAccept, TransferError>,
    chunk: FileChunk,
    b3: Bytes,
    r3: Result<FileChunk, TransferError>,
    ack: FileChunkAck,
    b4: Bytes,
    p4: &[u8],
    r4: Result<FileChunkAck, TransferError>,
)
    requires
        offer.chunk_size != 0,
        encode_utf8(offer.file_name@).len() <= 255,
        call_ensures(FileOffer::encode, (&offer,), b1),
        p1@ == bytes_contents(b1),
        call_ensures(FileOffer::decode, (p1,), r1),
        accept.resume || accept.missing_bitmap@.len() == 0,
        accept.missing_bitmap@.len() <= u32::MAX,
        call_ensures(FileAccept::encode, (&accept,), b2),
        p2@ == bytes_contents(b2),
        call_ensures(FileAccept::decode, (p2,), r2),
        call_ensures(FileChunk::encode, (&chunk,), b3),
        call_ensures(FileChunk::decode, (b3,), r3),
        call_ensures(FileChunkAck::encode, (&ack,), b4),
        p4@ == bytes_contents(b4),
        call_ensures(FileChunkAck::decode, (p4,), r4),
    ensures
        r1 matches Ok(o) && o.transfer_id == offer.transfer_id && o.file_name@ == offer.file_name@ && o.file_size == offer.file_size
            && o.chunk_size == offer.chunk_size && o.total_chunks == offer.total_chunks && o.file_hash == offer.file_hash,
        r2 matches Ok(o) && o.transfer_id == accept.transfer_id && o.resume == accept.resume && o.missing_bitmap@
            == accept.missing_bitmap@,
        r3 matches Ok(o) && o.transfer_id == chunk.transfer_id && o.chunk_index == chunk.chunk_index && o.chunk_hash == chunk.chunk_hash
            && bytes_contents(o.data) == bytes_contents(chunk.data),
        r4 == Ok::<FileChunkAck, TransferError>(ack),
{
    law_file_offer_roundtrip(offer, if r1 is Ok { r1->Ok_0 } else { offer });
    law_file_accept_roundtrip(accept, if r2 is Ok { r2->Ok_0 } else { accept });
    law_file_chunk_roundtrip(chunk, if r3 is Ok { r3->Ok_0 } else { chunk });
    law_file_chunk_ack_roundtrip(ack, if r4 is Ok { r4->Ok_0 } else { ack });
}

/// So are those that end a transfer.
pub proof fn law_last_messages_are_read_back(
    reject: FileReject,
    b1: Bytes,
    p1: &[u8],
    r1: Result<FileReject, TransferError>,
    complete: FileComplete,
    b2: Bytes,
    p2: &[u8],
    r2: Result<FileComplete, TransferError>,
    cancel: FileCancel,
    b3: Bytes,
    p3: &[u8],
    r3: Result<FileCancel, TransferError>,
)
    requires
        call_ensures(FileReject::encode, (&reject,), b1),
        p1@ == bytes_contents(b1),
        call_ensures(FileReject::decode, (p1,), r1),
        call_ensures(FileComplete::encode, (&complete,), b2),
        p2@ == bytes_contents(b2),
        call_ensures(FileComplete::decode, (p2,), r2),
        call_ensures(FileCancel::encode, (&cancel,), b3),
        p3@ == bytes_contents(b3),
        call_ensures(FileCancel::decode, (p3,), r3),
    ensures
        r1 == Ok::<FileReject, TransferError>(reject),
        r2 == Ok::<FileComplete, TransferError>(complete),
        r3 == Ok::<FileCancel, TransferError>(cancel),
{
    law_file_reject_roundtrip(reject, if r1 is Ok { r1->Ok_0 } else { reject });
    law_file_complete_roundtrip(complete, if r2 is Ok { r2->Ok_0 } else { complete });
    law_file_cancel_roundtrip(cancel, if r3 is Ok { r3->Ok_0 } else { cancel });
}

/// A chunk that is marked as missing is missing, one that is not so marked is not, and the others stay
/// as they were. As many chunks are counted as the file needs.
pub proof fn law_marks_and_counts(
    index: u32,
    missing: bool,
    other: u32,
    bitmap: &[u8],
    seen: bool,
    n: u32,
    len: usize,
    size: u64,
    chunk: u32,
    total: u32,
)
    requires
        call_ensures(bitmap_is_missing, (bitmap, other), seen),
        call_ensures(bitmap_len, (n,), len),
        call_ensures(compute_total_chunks, (size, chunk), total),
    ensures
        forall|b: &mut [u8]| #[trigger]
            call_ensures(bitmap_set_missing, (b, index, missing), ()) && index as int / 8 < b@.len() ==> marked(final(b)@, index)
                == missing,
        forall|b: &mut [u8]| #[trigger]
            call_ensures(bitmap_set_missing, (b, index, missing), ()) && other != index ==> marked(final(b)@, other) == marked(b@, other),
        forall|b: &mut [u8]| #[trigger]
            call_ensures(bitmap_set_missing, (b, index, missing), ()) && index as int / 8 >= b@.len() ==> final(b)@ == b@,
        other as int / 8 >= bitmap@.len() ==> !seen,
        other as int / 8 < bitmap@.len() && other % 8 == 0 ==> (seen <==> bitmap@[other as int / 8] % 2 == 1),
        other as int / 8 < bitmap@.len() && other % 8 == 7 ==> (seen <==> bitmap@[other as int / 8] >= 128),
        8 * len >= n && 8 * len < n + 8,
        size == 0 || chunk == 0 ==> total == 0,
        size > 0 && chunk > 0 && size <= 0xFFFF_FFFF ==> total * chunk >= size && (total - 1) * chunk < size,
{
    law_bits_of_a_bitmap(bitmap@, other);
    assert forall|b: &mut [u8]| #[trigger] call_ensures(bitmap_set_missing, (b, index, missing), ()) && index as int / 8
        >= b@.len() implies final(b)@ == b@ by {
        assert(final(b)@ == with_mark(b@, index, missing));
    }
    if size > 0 && chunk > 0 && size <= 0xFFFF_FFFF {
        let (s, c) = (size as int, chunk as int);
        let q = (s - 1) / c;
        assert(0 <= q <= s - 1 && (q + 1) * c >= s && q * c < s) by (nonlinear_arith)
            requires
                q == (s - 1) / c,
                s > 0,
                c > 0,
        ;
    }
}

} // verus!

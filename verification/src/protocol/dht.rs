//! The messages of the distributed hash table.
use bytes::Bytes;
use vstd::prelude::*;
use crate::buffer::{bytes_contents, bytes_from_vec};
use crate::net::{law_new_address_has_ip_and_port, IpAddr, SocketAddr};
use crate::wire::{
    be, be_at, be_val, copy_array, get_be, lemma_array_eq, lemma_be_len, lemma_be_one, lemma_be_roundtrip, lemma_be_val_bound,
    lemma_pow256_values,
    put_be, put_bytes,
};

verus! {

pub const DHT_VERSION: u8 = 1;

/// What can be wrong with a message of the hash table.
#[derive(Debug)]
pub enum DhtError {
    UnsupportedVersion { version: u8 },
    BufferTooShort { needed: usize, got: usize },
    InvalidAddressFamily { family: u8 },
}

/// An address on the wire: the family, the octets and the port.
pub open spec fn addr_wire(a: SocketAddr) -> Seq<u8> {
    match a.ip {
        IpAddr::V4(ip) => be(4, 1) + be(ip as nat, 4) + be(a.port as nat, 2),
        IpAddr::V6(ip) => be(6, 1) + be(ip as nat, 16) + be(a.port as nat, 2),
    }
}

/// Appends an address.
fn write_socket_addr(out: &mut Vec<u8>, a: &SocketAddr)
    ensures
        final(out)@ == old(out)@ + addr_wire(*a),
{
    match a.ip {
        IpAddr::V4(ip) => {
            put_be(out, 4, 1);
            put_be(out, ip as u128, 4);
        },
        IpAddr::V6(ip) => {
            put_be(out, 6, 1);
            put_be(out, ip, 16);
        },
    }
    put_be(out, a.port as u128, 2);
    assert(out@ =~= old(out)@ + addr_wire(*a));
}

/// What is wrong with the address at the start of `s`.
pub open spec fn addr_fault(s: Seq<u8>) -> Option<DhtError> {
    if s.len() < 1 {
        Some(DhtError::BufferTooShort { needed: 1, got: s.len() as usize })
    } else if s[0] == 4 {
        if s.len() - 1 < 6 {
            Some(DhtError::BufferTooShort { needed: 6, got: (s.len() - 1) as usize })
        } else {
            None
        }
    } else if s[0] == 6 {
        if s.len() - 1 < 18 {
            Some(DhtError::BufferTooShort { needed: 18, got: (s.len() - 1) as usize })
        } else {
            None
        }
    } else {
        Some(DhtError::InvalidAddressFamily { family: s[0] })
    }
}

/// The address at the start of `s`, and its width.
pub open spec fn addr_read(s: Seq<u8>) -> (SocketAddr, int) {
    if s[0] == 4 {
        (SocketAddr::spec_new(IpAddr::V4(be_at(s, 1, 4) as u32), be_at(s, 5, 2) as u16), 7)
    } else {
        (SocketAddr::spec_new(IpAddr::V6(be_at(s, 1, 16) as u128), be_at(s, 17, 2) as u16), 19)
    }
}

/// Reads the address at `at`.
fn read_socket_addr(s: &[u8], at: usize) -> (r: Result<(SocketAddr, usize), DhtError>)
    requires
        at <= s@.len(),
    ensures
        match r {
            Ok((a, n)) => {
                &&& addr_fault(s@.skip(at as int)) is None
                &&& addr_read(s@.skip(at as int)) == (a, n as int)
                &&& at + n <= s@.len()
            },
            Err(e) => addr_fault(s@.skip(at as int)) == Some(e),
        },
{
    proof {
        lemma_pow256_values();
    }
    let ghost t = s@.skip(at as int);
    let left: usize = s.len() - at;
    if left < 1 {
        return Err(DhtError::BufferTooShort { needed: 1, got: left });
    }
    let family: u8 = s[at];
    if family == 4 {
        if left - 1 < 6 {
            return Err(DhtError::BufferTooShort { needed: 6, got: left - 1 });
        }
        let ip: u32 = get_be(s, at + 1, 4) as u32;
        let port: u16 = get_be(s, at + 5, 2) as u16;
        assert(t.subrange(1, 5) =~= s@.subrange(at + 1, at + 5));
        assert(t.subrange(5, 7) =~= s@.subrange(at + 5, at + 7));
        Ok((SocketAddr::new(IpAddr::V4(ip), port), 7))
    } else if family == 6 {
        if left - 1 < 18 {
            return Err(DhtError::BufferTooShort { needed: 18, got: left - 1 });
        }
        let ip: u128 = get_be(s, at + 1, 16);
        let port: u16 = get_be(s, at + 17, 2) as u16;
        assert(t.subrange(1, 17) =~= s@.subrange(at + 1, at + 17));
        assert(t.subrange(17, 19) =~= s@.subrange(at + 17, at + 19));
        Ok((SocketAddr::new(IpAddr::V6(ip), port), 19))
    } else {
        Err(DhtError::InvalidAddressFamily { family })
    }
}

/// What is wrong with the start of a message that needs `needed` bytes.
pub open spec fn start_fault(p: Seq<u8>, needed: nat) -> Option<DhtError> {
    if p.len() < needed {
        Some(DhtError::BufferTooShort { needed: needed as usize, got: p.len() as usize })
    } else if p[0] != DHT_VERSION {
        Some(DhtError::UnsupportedVersion { version: p[0] })
    } else {
        None
    }
}

/// The question for the peers closest to a target.
#[derive(Debug, Clone, PartialEq, Eq)]
pub struct FindNode {
    pub target: [u8; 32],
}

impl FindNode {
    pub open spec fn wire(self) -> Seq<u8> {
        be(DHT_VERSION as nat, 1) + self.target@
    }

    pub fn encode(&self) -> (r: Bytes)
        ensures
            bytes_contents(r) == self.wire(),
    {
        let mut out: Vec<u8> = Vec::new();
        put_be(&mut out, DHT_VERSION as u128, 1);
        put_bytes(&mut out, self.target.as_slice());
        assert(out@ =~= self.wire());
        bytes_from_vec(out)
    }

    pub fn decode(payload: &[u8]) -> (r: Result<Self, DhtError>)
        ensures
            match r {
                Ok(m) => start_fault(payload@, 33) is None && m.target@ == payload@.subrange(1, 33),
                Err(e) => start_fault(payload@, 33) == Some(e),
            },
    {
        if payload.len() < 33 {
            return Err(DhtError::BufferTooShort { needed: 33, got: payload.len() });
        }
        if payload[0] != DHT_VERSION {
            return Err(DhtError::UnsupportedVersion { version: payload[0] });
        }
        Ok(FindNode { target: copy_array::<32>(payload, 1) })
    }
}

/// A question is read back from its wire form.
pub proof fn law_find_node_roundtrip(m: FindNode, d: FindNode)
    ensures
        start_fault(m.wire(), 33) is None,
        d.target@ == m.wire().subrange(1, 33) <==> d == m,
{
    lemma_version_byte();
    assert(m.wire().subrange(1, 33) =~= m.target@);
    if d.target@ == m.target@ {
        lemma_array_eq(d.target, m.target);
    }
}

proof fn lemma_version_byte()
    ensures
        be(DHT_VERSION as nat, 1) == seq![DHT_VERSION],
{
    lemma_one_byte(DHT_VERSION);
}

proof fn lemma_one_byte(b: u8)
    ensures
        be(b as nat, 1) == seq![b],
{
    broadcast use lemma_be_len;

    lemma_pow256_values();
    lemma_be_roundtrip(b as nat, 1);
    lemma_be_one(be(b as nat, 1));
    assert(be(b as nat, 1) =~= seq![b]);
}

/// A peer as a message names it: its identifier and its address.
pub type PeerEntry = (Seq<u8>, SocketAddr);

/// The answer with the peers closest to a target.
#[derive(Debug, Clone, PartialEq, Eq)]
pub struct FindNodeResp {
    pub peers: Vec<([u8; 32], SocketAddr)>,
}

/// The entries of an answer on the wire.
pub open spec fn entries_wire(entries: Seq<PeerEntry>) -> Seq<u8>
    decreases entries.len(),
{
    if entries.len() == 0 {
        Seq::empty()
    } else {
        entries_wire(entries.drop_last()) + (entries.last().0 + addr_wire(entries.last().1))
    }
}

/// Reads `n` entries from `s`, behind those of `acc`.
pub open spec fn entries_read(s: Seq<u8>, n: nat, acc: Seq<PeerEntry>) -> Result<Seq<PeerEntry>, DhtError>
    decreases n,
{
    if n == 0 {
        Ok(acc)
    } else if s.len() < 32 {
        Err(DhtError::BufferTooShort { needed: 32, got: s.len() as usize })
    } else if addr_fault(s.skip(32)) is Some {
        Err(addr_fault(s.skip(32))->0)
    } else {
        let (addr, width) = addr_read(s.skip(32));
        entries_read(s.skip(32 + width), (n - 1) as nat, acc.push((s.subrange(0, 32), addr)))
    }
}

impl FindNodeResp {
    /// The peers of the answer, in order.
    pub open spec fn view(self) -> Seq<PeerEntry> {
        self.peers@.map_values(|p: ([u8; 32], SocketAddr)| (p.0@, p.1))
    }

    /// The peers that the wire form has room for.
    pub open spec fn sent(self) -> Seq<PeerEntry> {
        self@.take(if self@.len() < 255 { self@.len() as int } else { 255 })
    }

    pub open spec fn wire(self) -> Seq<u8> {
        be(DHT_VERSION as nat, 1) + be(self.sent().len(), 1) + entries_wire(self.sent())
    }

    /// The answer on the wire, with at most 255 peers.
    pub fn encode(&self) -> (r: Bytes)
        ensures
            bytes_contents(r) == self.wire(),
    {
        let mut out: Vec<u8> = Vec::new();
        let count: usize = if self.peers.len() < 255 {
            self.peers.len()
        } else {
            255
        };
        put_be(&mut out, DHT_VERSION as u128, 1);
        put_be(&mut out, count as u128, 1);
        let ghost head = out@;
        let mut i: usize = 0;
        assert(self.sent().take(0) =~= Seq::empty());
        assert(head =~= head + entries_wire(self.sent().take(0)));
        while i < count
            invariant
                i <= count <= self.peers@.len(),
                count == self.sent().len(),
                out@ == head + entries_wire(self.sent().take(i as int)),
            decreases count - i,
        {
            put_bytes(&mut out, self.peers[i].0.as_slice());
            write_socket_addr(&mut out, &self.peers[i].1);
            i += 1;
            proof {
                let t = self.sent().take(i as int);
                assert(t.drop_last() =~= self.sent().take(i - 1));
                assert(t.last() == (self.peers@[i - 1].0@, self.peers@[i - 1].1));
                assert(out@ =~= head + entries_wire(t));
            }
        }
        assert(self.sent().take(i as int) =~= self.sent());
        assert(out@ =~= self.wire());
        bytes_from_vec(out)
    }

    /// What an answer on the wire holds.
    pub open spec fn read(p: Seq<u8>) -> Result<Seq<PeerEntry>, DhtError> {
        if start_fault(p, 2) is Some {
            Err(start_fault(p, 2)->0)
        } else {
            entries_read(p.skip(2), p[1] as nat, Seq::empty())
        }
    }

    pub fn decode(payload: &[u8]) -> (r: Result<Self, DhtError>)
        ensures
            match r {
                Ok(m) => Self::read(payload@) == Ok::<Seq<PeerEntry>, DhtError>(m@),
                Err(e) => Self::read(payload@) == Err::<Seq<PeerEntry>, DhtError>(e),
            },
    {
        if payload.len() < 2 {
            return Err(DhtError::BufferTooShort { needed: 2, got: payload.len() });
        }
        if payload[0] != DHT_VERSION {
            return Err(DhtError::UnsupportedVersion { version: payload[0] });
        }
        let count: u8 = payload[1];
        let mut r = FindNodeResp { peers: Vec::new() };
        let mut i: u8 = 0;
        let mut at: usize = 2;
        assert(r@ =~= Seq::empty());
        while i < count
            invariant
                i <= count,
                count == payload@[1],
                2 <= at <= payload@.len(),
                start_fault(payload@, 2) is None,
                Self::read(payload@) == entries_read(payload@.skip(at as int), (count - i) as nat, r@),
            decreases count - i,
        {
            let left: usize = payload.len() - at;
            if left < 32 {
                return Err(DhtError::BufferTooShort { needed: 32, got: left });
            }
            let id = copy_array::<32>(payload, at);
            let ghost t = payload@.skip(at as int);
            assert(t.skip(32) =~= payload@.skip(at + 32));
            let (addr, width) = match read_socket_addr(payload, at + 32) {
                Ok(x) => x,
                Err(e) => return Err(e),
            };
            let ghost before = r@;
            r.peers.push((id, addr));
            proof {
                assert(id@ =~= t.subrange(0, 32));
                assert(r@ =~= before.push((t.subrange(0, 32), addr)));
                assert(t.skip(32 + width) =~= payload@.skip(at + 32 + width));
            }
            at = at + 32 + width;
            i += 1;
        }
        Ok(r)
    }
}

/// An address as a message carries it.
pub open spec fn carried(a: SocketAddr) -> SocketAddr {
    SocketAddr::spec_new(a.ip, a.port)
}

proof fn lemma_addr_roundtrip(a: SocketAddr, rest: Seq<u8>)
    ensures
        addr_fault(addr_wire(a) + rest) is None,
        addr_read(addr_wire(a) + rest) == (carried(a), addr_wire(a).len() as int),
{
    broadcast use lemma_be_len;

    lemma_pow256_values();
    let s = addr_wire(a) + rest;
    lemma_one_byte(4);
    lemma_one_byte(6);
    lemma_be_roundtrip(a.port as nat, 2);
    match a.ip {
        IpAddr::V4(ip) => {
            lemma_be_roundtrip(ip as nat, 4);
            assert(s.subrange(1, 5) =~= be(ip as nat, 4));
            assert(s.subrange(5, 7) =~= be(a.port as nat, 2));
        },
        IpAddr::V6(ip) => {
            lemma_be_roundtrip(ip as nat, 16);
            assert(s.subrange(1, 17) =~= be(ip as nat, 16));
            assert(s.subrange(17, 19) =~= be(a.port as nat, 2));
        },
    }
}

/// The entries as they are received.
pub open spec fn carried_entries(entries: Seq<PeerEntry>) -> Seq<PeerEntry> {
    entries.map_values(|e: PeerEntry| (e.0, carried(e.1)))
}

proof fn lemma_entries_split(entries: Seq<PeerEntry>)
    requires
        entries.len() > 0,
    ensures
        entries_wire(entries) == entries[0].0 + addr_wire(entries[0].1) + entries_wire(entries.drop_first()),
    decreases entries.len(),
{
    if entries.len() == 1 {
        assert(entries.drop_last() =~= Seq::empty());
        assert(entries.drop_first() =~= Seq::empty());
        assert(entries_wire(entries) =~= entries[0].0 + addr_wire(entries[0].1) + entries_wire(entries.drop_first()));
    } else {
        lemma_entries_split(entries.drop_last());
        assert(entries.drop_last().drop_first() =~= entries.drop_first().drop_last());
        assert(entries_wire(entries) =~= entries[0].0 + addr_wire(entries[0].1) + entries_wire(entries.drop_first()));
    }
}

proof fn lemma_entries_roundtrip(entries: Seq<PeerEntry>, acc: Seq<PeerEntry>)
    requires
        forall|i: int| 0 <= i < entries.len() ==> (#[trigger] entries[i]).0.len() == 32,
    ensures
        entries_read(entries_wire(entries), entries.len(), acc) == Ok::<Seq<PeerEntry>, DhtError>(
            acc + carried_entries(entries),
        ),
    decreases entries.len(),
{
    if entries.len() == 0 {
        assert(acc + carried_entries(entries) =~= acc);
    } else {
        let s = entries_wire(entries);
        let rest = entries.drop_first();
        let (id, addr) = entries[0];
        lemma_entries_split(entries);
        lemma_addr_roundtrip(addr, entries_wire(rest));
        assert(s.skip(32) =~= addr_wire(addr) + entries_wire(rest));
        assert(s.subrange(0, 32) =~= id);
        assert(s.skip(32 + addr_wire(addr).len() as int) =~= entries_wire(rest));
        lemma_entries_roundtrip(rest, acc.push((id, carried(addr))));
        assert(acc.push((id, carried(addr))) + carried_entries(rest) =~= acc + carried_entries(entries));
    }
}

/// An answer of at most 255 peers is read back from its wire form: the same peers with
/// the same IP addresses and ports.
pub proof fn law_find_node_resp_roundtrip(m: FindNodeResp)
    requires
        m@.len() <= 255,
    ensures
        FindNodeResp::read(m.wire()) == Ok::<Seq<PeerEntry>, DhtError>(carried_entries(m@)),
{
    let p = m.wire();
    let n = m@.len() as u8;
    assert(m.sent() =~= m@);
    lemma_version_byte();
    lemma_one_byte(n);
    assert(p.skip(2) =~= entries_wire(m@));
    assert(p[1] == n);
    lemma_entries_roundtrip(m@, Seq::empty());
    assert(Seq::<PeerEntry>::empty() + carried_entries(m@) =~= carried_entries(m@));
}

/// A request for peers is read just if it is whole and of version 1; an answer starts with the
/// version and the number of peers.
pub proof fn law_requests_are_read(p: Seq<u8>, needed: nat, m: FindNode)
    requires
        needed > 0,
    ensures
        start_fault(p, needed) is None <==> p.len() >= needed && p[0] == 1,
        p.len() < needed ==> start_fault(p, needed) == Some(DhtError::BufferTooShort { needed: needed as usize, got: p.len() as usize }),
        p.len() >= needed && p[0] != 1 ==> start_fault(p, needed) == Some(DhtError::UnsupportedVersion { version: p[0] }),
        m.wire().len() == 33 && m.wire()[0] == 1 && m.wire().subrange(1, 33) == m.target@,
{
    lemma_one_byte(1);
    assert(m.wire().subrange(1, 33) =~= m.target@);
}

/// An address on the wire: 4 and six bytes, or 6 and eighteen; the number and then the port. Any
/// other family is refused.
pub proof fn law_addresses_are_read(s: Seq<u8>, a: SocketAddr)
    ensures
        addr_fault(s) is None <==> (s.len() >= 7 && s[0] == 4) || (s.len() >= 19 && s[0] == 6),
        s.len() >= 1 && s[0] != 4 && s[0] != 6 ==> addr_fault(s) == Some(DhtError::InvalidAddressFamily { family: s[0] }),
        s.len() >= 7 && s[0] == 4 ==> addr_read(s).1 == 7 && (addr_read(s).0.ip matches IpAddr::V4(ip) && ip == be_val(
            s.subrange(1, 5),
        )) && addr_read(s).0.port == be_val(s.subrange(5, 7)),
        s.len() >= 19 && s[0] == 6 ==> addr_read(s).1 == 19 && (addr_read(s).0.ip matches IpAddr::V6(ip) && ip == be_val(
            s.subrange(1, 17),
        )) && addr_read(s).0.port == be_val(s.subrange(17, 19)),
        addr_wire(a).len() == (if a.ip is V4 { 7int } else { 19int }),
        addr_wire(a)[0] == (if a.ip is V4 { 4u8 } else { 6u8 }),
{
    broadcast use lemma_be_len;

    lemma_one_byte(4);
    lemma_one_byte(6);
    lemma_pow256_values();
    if s.len() >= 7 {
        lemma_be_val_bound(s.subrange(1, 5));
        lemma_be_val_bound(s.subrange(5, 7));
    }
    if s.len() >= 19 {
        lemma_be_val_bound(s.subrange(1, 17));
        lemma_be_val_bound(s.subrange(17, 19));
    }
}

/// An answer holds each peer in turn: 32 bytes of identifier and its address. At most 255 peers
/// are sent, the first ones.
pub proof fn law_answers_hold_the_first_peers(m: FindNodeResp, entries: Seq<PeerEntry>, e: PeerEntry)
    ensures
        m.sent().len() == (if m@.len() < 255 { m@.len() as int } else { 255 }),
        forall|i: int| 0 <= i < m.sent().len() ==> m.sent()[i] == m@[i],
        m.wire().len() >= 2 && m.wire()[0] == 1 && m.wire()[1] == m.sent().len() && m.wire().skip(2) == entries_wire(m.sent()),
        entries_wire(entries.push(e)) == entries_wire(entries) + e.0 + addr_wire(e.1),
        entries_wire(Seq::<PeerEntry>::empty()) == Seq::<u8>::empty(),
{
    broadcast use lemma_be_len;

    lemma_one_byte(1);
    lemma_one_byte(m.sent().len() as u8);
    assert(entries.push(e).drop_last() =~= entries);
    assert(entries_wire(entries) + (e.0 + addr_wire(e.1)) =~= entries_wire(entries) + e.0 + addr_wire(e.1));
    assert(m.wire().skip(2) =~= entries_wire(m.sent()));
}

/// The peers of an answer are read one behind the other: 32 bytes and an address each, as many as the
/// answer says. What follows them does not matter; where one is cut short or has no address, that is
/// an error.
pub proof fn law_peers_are_read_one_by_one(p: Seq<u8>, s: Seq<u8>, n: nat, acc: Seq<PeerEntry>)
    ensures
        p.len() < 2 ==> FindNodeResp::read(p) == Err::<Seq<PeerEntry>, DhtError>(
            DhtError::BufferTooShort { needed: 2, got: p.len() as usize },
        ),
        p.len() >= 2 && p[0] != 1 ==> FindNodeResp::read(p) == Err::<Seq<PeerEntry>, DhtError>(
            DhtError::UnsupportedVersion { version: p[0] },
        ),
        p.len() >= 2 && p[0] == 1 ==> FindNodeResp::read(p) == entries_read(p.skip(2), p[1] as nat, Seq::empty()),
        entries_read(s, 0, acc) == Ok::<Seq<PeerEntry>, DhtError>(acc),
        n > 0 && s.len() < 32 ==> entries_read(s, n, acc) == Err::<Seq<PeerEntry>, DhtError>(
            DhtError::BufferTooShort { needed: 32, got: s.len() as usize },
        ),
        n > 0 && s.len() == 32 ==> entries_read(s, n, acc) == Err::<Seq<PeerEntry>, DhtError>(
            DhtError::BufferTooShort { needed: 1, got: 0 },
        ),
        n > 0 && s.len() > 32 && s[32] != 4 && s[32] != 6 ==> entries_read(s, n, acc) == Err::<Seq<PeerEntry>, DhtError>(
            DhtError::InvalidAddressFamily { family: s[32] },
        ),
        n > 0 && 32 < s.len() < 39 && s[32] == 4 ==> entries_read(s, n, acc) == Err::<Seq<PeerEntry>, DhtError>(
            DhtError::BufferTooShort { needed: 6, got: (s.len() - 33) as usize },
        ),
        n > 0 && 32 < s.len() < 51 && s[32] == 6 ==> entries_read(s, n, acc) == Err::<Seq<PeerEntry>, DhtError>(
            DhtError::BufferTooShort { needed: 18, got: (s.len() - 33) as usize },
        ),
        n > 0 && s.len() >= 39 && s[32] == 4 ==> entries_read(s, n, acc) == entries_read(
            s.skip(39),
            (n - 1) as nat,
            acc.push((s.subrange(0, 32), addr_read(s.skip(32)).0)),
        ),
        n > 0 && s.len() >= 51 && s[32] == 6 ==> entries_read(s, n, acc) == entries_read(
            s.skip(51),
            (n - 1) as nat,
            acc.push((s.subrange(0, 32), addr_read(s.skip(32)).0)),
        ),
{
    if s.len() >= 32 {
        assert(s.skip(32).len() == s.len() - 32);
        if s.len() > 32 {
            assert(s.skip(32)[0] == s[32]);
        }
    }
}

/// A request for peers is read back from its bytes as what it was, and an answer with the peers that
/// it holds, up to 255 of them.
pub proof fn law_questions_and_answers_are_read_back(
    q: FindNode,
    b1: Bytes,
    p1: &[u8],
    r1: Result<FindNode, DhtError>,
    a: FindNodeResp,
    b2: Bytes,
    p2: &[u8],
    r2: Result<FindNodeResp, DhtError>,
    i: int,
)
    requires
        call_ensures(FindNode::encode, (&q,), b1),
        p1@ == bytes_contents(b1),
        call_ensures(FindNode::decode, (p1,), r1),
        a.peers@.len() <= 255,
        call_ensures(FindNodeResp::encode, (&a,), b2),
        p2@ == bytes_contents(b2),
        call_ensures(FindNodeResp::decode, (p2,), r2),
    ensures
        r1 == Ok::<FindNode, DhtError>(q),
        r2 is Ok && r2->Ok_0.peers@.len() == a.peers@.len(),
        0 <= i < a.peers@.len() ==> r2->Ok_0.peers@[i].0@ == a.peers@[i].0@ && r2->Ok_0.peers@[i].1.ip == a.peers@[i].1.ip
            && r2->Ok_0.peers@[i].1.port == a.peers@[i].1.port,
{
    law_find_node_roundtrip(q, if r1 is Ok { r1->Ok_0 } else { q });
    law_find_node_resp_roundtrip(a);
    assert(r2->Ok_0@ == carried_entries(a@));
    assert(r2->Ok_0@.len() == r2->Ok_0.peers@.len() && carried_entries(a@).len() == a.peers@.len());
    if 0 <= i < a.peers@.len() {
        assert(r2->Ok_0@[i] == carried_entries(a@)[i]);
        assert(r2->Ok_0@[i] == (r2->Ok_0.peers@[i].0@, r2->Ok_0.peers@[i].1));
        law_new_address_has_ip_and_port(a.peers@[i].1.ip, a.peers@[i].1.port);
    }
}

} // verus!

//! Network addresses as plain values.
use vstd::prelude::*;
use crate::wire::{array_of, be, copy_array, lemma_array_eq, lemma_array_of, lemma_be_len, lemma_be_roundtrip, lemma_pow256_values, put_be};

verus! {

/// An IP address, as the number that its octets denote in network order.
#[derive(Clone, Copy, Debug, PartialEq, Eq, Hash, Structural)]
pub enum IpAddr {
    V4(u32),
    V6(u128),
}

/// An IP address and a port. The last two fields are those of an IPv6 socket
/// address and zero for IPv4.
#[derive(Clone, Copy, Debug, PartialEq, Eq, Hash, Structural)]
pub struct SocketAddr {
    pub ip: IpAddr,
    pub port: u16,
    pub flow_info: u32,
    pub scope_id: u32,
}

impl SocketAddr {
    pub open spec fn spec_new(ip: IpAddr, port: u16) -> SocketAddr {
        SocketAddr { ip, port, flow_info: 0, scope_id: 0 }
    }

    pub fn new(ip: IpAddr, port: u16) -> (r: SocketAddr)
        ensures
            r == Self::spec_new(ip, port),
    {
        SocketAddr { ip, port, flow_info: 0, scope_id: 0 }
    }

    /// The IPv4 address `a.b.c.d` with a port.
    pub fn v4(a: u8, b: u8, c: u8, d: u8, port: u16) -> (r: SocketAddr)
        ensures
            r == Self::spec_new(
                IpAddr::V4((a as u32 * 0x100_0000 + b as u32 * 0x1_0000 + c as u32 * 0x100 + d as u32) as u32),
                port,
            ),
    {
        Self::new(
            IpAddr::V4(a as u32 * 0x100_0000 + b as u32 * 0x1_0000 + c as u32 * 0x100 + d as u32),
            port,
        )
    }

    pub fn is_ipv4(&self) -> (r: bool)
        ensures
            r == (self.ip is V4),
    {
        matches!(self.ip, IpAddr::V4(_))
    }

    /// The address as a fixed-width byte string.
    pub open spec fn key_bytes(self) -> Seq<u8> {
        let (family, ip) = match self.ip {
            IpAddr::V4(ip) => (4nat, ip as nat),
            IpAddr::V6(ip) => (6nat, ip as nat),
        };
        be(family, 1) + be(ip, 16) + be(self.port as nat, 2) + be(self.flow_info as nat, 4) + be(
            self.scope_id as nat,
            4,
        ) + be(0, 5)
    }

    /// The address as a key of fixed width.
    pub open spec fn spec_key(self) -> [u8; 32] {
        array_of::<32>(self.key_bytes(), 32)
    }

    /// The address as a key of fixed width; different addresses have different keys.
    pub fn key(&self) -> (k: [u8; 32])
        ensures
            k == self.spec_key(),
    {
        broadcast use lemma_be_len;

        let mut out: Vec<u8> = Vec::new();
        match self.ip {
            IpAddr::V4(ip) => {
                put_be(&mut out, 4, 1);
                put_be(&mut out, ip as u128, 16);
            },
            IpAddr::V6(ip) => {
                put_be(&mut out, 6, 1);
                put_be(&mut out, ip, 16);
            },
        }
        put_be(&mut out, self.port as u128, 2);
        put_be(&mut out, self.flow_info as u128, 4);
        put_be(&mut out, self.scope_id as u128, 4);
        put_be(&mut out, 0, 5);
        assert(out@ =~= self.key_bytes());
        let k = copy_array::<32>(out.as_slice(), 0);
        proof {
            assert(k@ =~= out@);
            lemma_array_of::<32>(self.key_bytes(), 32);
            lemma_array_eq(k, self.spec_key());
        }
        k
    }
}

/// Different addresses have different keys.
pub proof fn law_keys_are_distinct(a: SocketAddr, b: SocketAddr)
    requires
        a.spec_key() == b.spec_key(),
    ensures
        a == b,
{
    broadcast use lemma_be_len;

    lemma_pow256_values();
    lemma_array_of::<32>(a.key_bytes(), 32);
    lemma_array_of::<32>(b.key_bytes(), 32);
    let s = a.key_bytes();
    let t = b.key_bytes();
    let (fa, ia) = match a.ip {
        IpAddr::V4(ip) => (4nat, ip as nat),
        IpAddr::V6(ip) => (6nat, ip as nat),
    };
    let (fb, ib) = match b.ip {
        IpAddr::V4(ip) => (4nat, ip as nat),
        IpAddr::V6(ip) => (6nat, ip as nat),
    };
    assert(s.subrange(0, 1) =~= be(fa, 1));
    assert(t.subrange(0, 1) =~= be(fb, 1));
    assert(s.subrange(1, 17) =~= be(ia, 16));
    assert(t.subrange(1, 17) =~= be(ib, 16));
    assert(s.subrange(17, 19) =~= be(a.port as nat, 2));
    assert(t.subrange(17, 19) =~= be(b.port as nat, 2));
    assert(s.subrange(19, 23) =~= be(a.flow_info as nat, 4));
    assert(t.subrange(19, 23) =~= be(b.flow_info as nat, 4));
    assert(s.subrange(23, 27) =~= be(a.scope_id as nat, 4));
    assert(t.subrange(23, 27) =~= be(b.scope_id as nat, 4));
    lemma_be_roundtrip(fa, 1);
    lemma_be_roundtrip(fb, 1);
    lemma_be_roundtrip(ia, 16);
    lemma_be_roundtrip(ib, 16);
    lemma_be_roundtrip(a.port as nat, 2);
    lemma_be_roundtrip(b.port as nat, 2);
    lemma_be_roundtrip(a.flow_info as nat, 4);
    lemma_be_roundtrip(b.flow_info as nat, 4);
    lemma_be_roundtrip(a.scope_id as nat, 4);
    lemma_be_roundtrip(b.scope_id as nat, 4);
}

/// An address is made of its four numbers, the first one counting most, and of its port.
pub proof fn law_new_address_has_ip_and_port(ip: IpAddr, port: u16)
    ensures
        SocketAddr::spec_new(ip, port).ip == ip,
        SocketAddr::spec_new(ip, port).port == port,
        SocketAddr::spec_new(ip, port).flow_info == 0,
        SocketAddr::spec_new(ip, port).scope_id == 0,
{
}

/// An address is made of its parts.
pub proof fn law_addresses_are_made(ip: IpAddr, port: u16, r: SocketAddr, a: u8, b: u8, c: u8, d: u8, s: SocketAddr, four: bool)
    requires
        call_ensures(SocketAddr::new, (ip, port), r),
        call_ensures(SocketAddr::v4, (a, b, c, d, port), s),
        call_ensures(SocketAddr::is_ipv4, (&r,), four),
    ensures
        r.ip == ip && r.port == port,
        s.port == port && s.ip == IpAddr::V4((a * 0x100_0000 + b * 0x1_0000 + c * 0x100 + d) as u32),
        four <==> ip is V4,
{
}

} // verus!

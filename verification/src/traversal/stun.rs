//! A small STUN client: binding requests, and the outer address that responses tell.
use vstd::prelude::*;
use vstd::string::*;
use crate::traversal::NatError;
use crate::net::{IpAddr, SocketAddr};
use crate::text::{dec, hex_bytes, push_hex_bytes, text_dec};
use crate::time::{duration_bound, unix_nanos, Duration};
use crate::wire::{be, be_at, be_val, bytes_equal, copy_array, get_be, le, lemma_be_len, lemma_be_roundtrip, lemma_be_val_bound, lemma_le_len, lemma_pow256_values, put_be, put_bytes, put_le};

verus! {

/// The magic cookie of the protocol.
pub const MAGIC_COOKIE: u32 = 0x2112A442;

pub const BINDING_REQUEST: u16 = 0x0001;

pub const BINDING_RESPONSE: u16 = 0x0101;

pub const ATTR_MAPPED_ADDRESS: u16 = 0x0001;

pub const ATTR_XOR_MAPPED_ADDRESS: u16 = 0x0020;

pub const STUN_HEADER_SIZE: usize = 20;

/// The largest response that is read.
pub const MAX_RESPONSE_SIZE: usize = 576;

/// What a probe finds.
#[derive(Debug, Clone, Copy, PartialEq, Eq, Structural)]
pub struct StunResult {
    /// Our address as the server sees it.
    pub mapped_addr: SocketAddr,
    /// The server that has answered.
    pub server_addr: SocketAddr,
}

/// What is found in a message, or the reason why nothing is.
pub type Parsed = Result<SocketAddr, Seq<char>>;

/// `n` in hexadecimal, with two digits for each of `w` bytes.
pub open spec fn padded_hex(n: nat, w: nat) -> Seq<char> {
    hex_bytes(be(n, w))
}

/// A reason with a number in hexadecimal.
fn text_hex(prefix: &str, n: u128, w: usize) -> (r: String)
    ensures
        r@ == prefix@ + padded_hex(n as nat, w as nat),
{
    let mut out: String = String::new();
    out.append(prefix);
    let mut bytes: Vec<u8> = Vec::new();
    put_be(&mut bytes, n, w);
    push_hex_bytes(&mut out, bytes.as_slice());
    assert(bytes@ =~= be(n as nat, w as nat));
    assert(out@ =~= prefix@ + padded_hex(n as nat, w as nat));
    out
}

fn failed(text: &str) -> (r: NatError)
    ensures
        r.is_stun_failed(text@),
{
    NatError::StunFailed { reason: String::from_str(text) }
}

/// An exec result is what a parse yields.
pub open spec fn yields(r: Result<SocketAddr, NatError>, p: Parsed) -> bool {
    match r {
        Ok(a) => p == Ok::<SocketAddr, Seq<char>>(a),
        Err(e) => p is Err && e.is_stun_failed(p->Err_0),
    }
}

/// The address in a MAPPED-ADDRESS attribute, which is not masked.
pub open spec fn mapped_address(d: Seq<u8>) -> Parsed {
    if d.len() < 8 {
        Err("MAPPED-ADDRESS too short"@)
    } else if d[1] != 1 {
        Err("unsupported address family: 0x"@ + padded_hex(d[1] as nat, 1))
    } else {
        Ok(SocketAddr::spec_new(IpAddr::V4(be_at(d, 4, 4) as u32), be_at(d, 2, 2) as u16))
    }
}

/// The address in an XOR-MAPPED-ADDRESS attribute: masked by the magic cookie.
pub open spec fn xor_mapped_address(d: Seq<u8>) -> Parsed {
    if d.len() < 8 {
        Err("XOR-MAPPED-ADDRESS too short"@)
    } else if d[1] != 1 {
        Err("unsupported address family: 0x"@ + padded_hex(d[1] as nat, 1))
    } else {
        Ok(SocketAddr::spec_new(IpAddr::V4((be_at(d, 4, 4) as u32) ^ MAGIC_COOKIE), (be_at(d, 2, 2) as u16) ^ 0x2112u16))
    }
}

/// The first attribute that holds an address, from `at` on: attributes are a type, a
/// length, and as many bytes, filled up to a multiple of four.
pub open spec fn first_address(d: Seq<u8>, at: int, end: int) -> Parsed
    decreases end + 4 - at,
{
    let n: nat = be_at(d, at + 2, 2);
    if at < 0 || at + 4 > end || at + 4 + n > end {
        Err("no mapped address in response"@)
    } else if be_at(d, at, 2) == ATTR_XOR_MAPPED_ADDRESS {
        xor_mapped_address(d.subrange(at + 4, at + 4 + n))
    } else if be_at(d, at, 2) == ATTR_MAPPED_ADDRESS {
        mapped_address(d.subrange(at + 4, at + 4 + n))
    } else {
        first_address(d, at + 4 + ((n + 3) / 4 * 4) as int, end)
    }
}

/// The address that a binding response tells.
pub open spec fn response_address(d: Seq<u8>, txn: Seq<u8>) -> Parsed {
    if d.len() < STUN_HEADER_SIZE {
        Err("response too short: "@ + dec(d.len()) + " bytes"@)
    } else if be_at(d, 0, 2) != BINDING_RESPONSE {
        Err("unexpected message type: 0x"@ + padded_hex(be_at(d, 0, 2), 2))
    } else if be_at(d, 4, 4) != MAGIC_COOKIE {
        Err("invalid magic cookie: 0x"@ + padded_hex(be_at(d, 4, 4), 4))
    } else if d.subrange(8, 20) != txn {
        Err("transaction ID mismatch"@)
    } else if d.len() < STUN_HEADER_SIZE + be_at(d, 2, 2) {
        Err("truncated response"@)
    } else {
        first_address(d, STUN_HEADER_SIZE as int, STUN_HEADER_SIZE + be_at(d, 2, 2) as int)
    }
}

/// The transaction number made of a time: its low twelve bytes.
pub fn transaction_id_at(nanos: u128) -> (r: [u8; 12])
    ensures
        r@ == le(nanos as nat, 12),
{
    broadcast use lemma_le_len;

    let mut out: Vec<u8> = Vec::new();
    put_le(&mut out, nanos, 12);
    assert(out@ =~= le(nanos as nat, 12));
    let r = copy_array::<12>(out.as_slice(), 0);
    assert(r@ =~= out@);
    r
}

/// A transaction number made of the present time.
pub fn generate_transaction_id() -> (r: [u8; 12])
    ensures
        exists|nanos: u128| nanos < duration_bound() && r@ == #[trigger] le(nanos as nat, 12),
{
    let nanos: u128 = unix_nanos();
    transaction_id_at(nanos)
}

/// A binding request on the wire.
pub open spec fn request_wire(txn: Seq<u8>) -> Seq<u8> {
    be(BINDING_REQUEST as nat, 2) + be(0, 2) + be(MAGIC_COOKIE as nat, 4) + txn
}

/// A binding request, without attributes.
pub fn build_binding_request(txn_id: &[u8; 12]) -> (r: Vec<u8>)
    ensures
        r@ == request_wire(txn_id@),
        r@.len() == STUN_HEADER_SIZE,
{
    broadcast use lemma_be_len;

    let mut out: Vec<u8> = Vec::new();
    put_be(&mut out, BINDING_REQUEST as u128, 2);
    put_be(&mut out, 0, 2);
    put_be(&mut out, MAGIC_COOKIE as u128, 4);
    put_bytes(&mut out, txn_id.as_slice());
    assert(out@ =~= request_wire(txn_id@));
    out
}

/// The address in a MAPPED-ADDRESS attribute.
pub fn parse_mapped_address(data: &[u8]) -> (r: Result<SocketAddr, NatError>)
    ensures
        yields(r, mapped_address(data@)),
{
    proof {
        lemma_pow256_values();
    }
    if data.len() < 8 {
        return Err(failed("MAPPED-ADDRESS too short"));
    }
    if data[1] != 1 {
        return Err(NatError::StunFailed { reason: text_hex("unsupported address family: 0x", data[1] as u128, 1) });
    }
    let port: u16 = get_be(data, 2, 2) as u16;
    let ip: u32 = get_be(data, 4, 4) as u32;
    Ok(SocketAddr::new(IpAddr::V4(ip), port))
}

/// The address in an XOR-MAPPED-ADDRESS attribute.
pub fn parse_xor_mapped_address(data: &[u8]) -> (r: Result<SocketAddr, NatError>)
    ensures
        yields(r, xor_mapped_address(data@)),
{
    proof {
        lemma_pow256_values();
    }
    if data.len() < 8 {
        return Err(failed("XOR-MAPPED-ADDRESS too short"));
    }
    if data[1] != 1 {
        return Err(NatError::StunFailed { reason: text_hex("unsupported address family: 0x", data[1] as u128, 1) });
    }
    let port: u16 = get_be(data, 2, 2) as u16 ^ 0x2112;
    let ip: u32 = get_be(data, 4, 4) as u32 ^ MAGIC_COOKIE;
    Ok(SocketAddr::new(IpAddr::V4(ip), port))
}

/// The address that a binding response tells.
pub fn parse_binding_response(data: &[u8], expected_txn_id: &[u8; 12]) -> (r: Result<SocketAddr, NatError>)
    ensures
        yields(r, response_address(data@, expected_txn_id@)),
{
    proof {
        lemma_pow256_values();
    }
    if data.len() < STUN_HEADER_SIZE {
        let mut reason: String = text_dec("response too short: ", data.len() as u128);
        reason.append(" bytes");
        return Err(NatError::StunFailed { reason });
    }
    let msg_type: u16 = get_be(data, 0, 2) as u16;
    if msg_type != BINDING_RESPONSE {
        return Err(NatError::StunFailed { reason: text_hex("unexpected message type: 0x", msg_type as u128, 2) });
    }
    let cookie: u32 = get_be(data, 4, 4) as u32;
    if cookie != MAGIC_COOKIE {
        return Err(NatError::StunFailed { reason: text_hex("invalid magic cookie: 0x", cookie as u128, 4) });
    }
    if !bytes_equal(vstd::slice::slice_subrange(data, 8, 20), expected_txn_id.as_slice()) {
        return Err(failed("transaction ID mismatch"));
    }
    let msg_len: usize = get_be(data, 2, 2) as usize;
    if data.len() - STUN_HEADER_SIZE < msg_len {
        return Err(failed("truncated response"));
    }
    let end: usize = STUN_HEADER_SIZE + msg_len;
    let mut at: usize = STUN_HEADER_SIZE;
    while at <= end && end - at >= 4
        invariant
            STUN_HEADER_SIZE <= at,
            at <= end + 4,
            end <= data@.len(),
            end <= 70000,
            response_address(data@, expected_txn_id@) == first_address(data@, at as int, end as int),
        ensures
            response_address(data@, expected_txn_id@) == Err::<SocketAddr, Seq<char>>("no mapped address in response"@),
        decreases end + 4 - at,
    {
        proof {
            lemma_pow256_values();
        }
        let attr_type: u16 = get_be(data, at, 2) as u16;
        let attr_len: usize = get_be(data, at + 2, 2) as usize;
        if attr_len > end - at - 4 {
            break;
        }
        if attr_type == ATTR_XOR_MAPPED_ADDRESS {
            return parse_xor_mapped_address(vstd::slice::slice_subrange(data, at + 4, at + 4 + attr_len));
        }
        if attr_type == ATTR_MAPPED_ADDRESS {
            return parse_mapped_address(vstd::slice::slice_subrange(data, at + 4, at + 4 + attr_len));
        }
        at = at + 4 + (attr_len + 3) / 4 * 4;
    }
    Err(failed("no mapped address in response"))
}

/// What to do next in finding out the own address.
#[derive(Debug)]
pub enum DiscoverStep {
    /// Probe this server.
    Probe(SocketAddr),
    /// A server has answered.
    Found(StunResult),
    /// There is no server left.
    Failed(NatError),
}

/// A client: the servers that it tries, and how long it waits for each.
#[derive(Debug, Clone)]
pub struct StunClient {
    pub servers: Vec<SocketAddr>,
    pub timeout: Duration,
}

/// The public servers that are tried by default.
pub fn default_stun_servers() -> (r: Vec<SocketAddr>)
    ensures
        r@ == seq![
            SocketAddr::spec_new(IpAddr::V4(0x4A7DFA81), 19302),
            SocketAddr::spec_new(IpAddr::V4(0x40E9A37F), 19302),
        ],
{
    let mut out: Vec<SocketAddr> = Vec::new();
    out.push(SocketAddr::v4(74, 125, 250, 129, 19302));
    out.push(SocketAddr::v4(64, 233, 163, 127, 19302));
    assert(out@ =~= seq![
        SocketAddr::spec_new(IpAddr::V4(0x4A7DFA81), 19302),
        SocketAddr::spec_new(IpAddr::V4(0x40E9A37F), 19302),
    ]);
    out
}

impl Default for StunClient {
    fn default() -> (r: Self)
        ensures
            r.servers@ == seq![
                SocketAddr::spec_new(IpAddr::V4(0x4A7DFA81), 19302),
                SocketAddr::spec_new(IpAddr::V4(0x40E9A37F), 19302),
            ],
            r.timeout.nanos == 3_000_000_000,
    {
        Self::new()
    }
}

impl StunClient {
    /// A client for the default servers.
    pub fn new() -> (r: Self)
        ensures
            r.servers@ == seq![
                SocketAddr::spec_new(IpAddr::V4(0x4A7DFA81), 19302),
                SocketAddr::spec_new(IpAddr::V4(0x40E9A37F), 19302),
            ],
            r.timeout.nanos == 3_000_000_000,
    {
        StunClient { servers: default_stun_servers(), timeout: Duration::from_secs(3) }
    }

    pub fn with_servers(servers: Vec<SocketAddr>) -> (r: Self)
        ensures
            r.servers == servers,
            r.timeout.nanos == 3_000_000_000,
    {
        StunClient { servers, timeout: Duration::from_secs(3) }
    }

    pub fn with_timeout(self, timeout: Duration) -> (r: Self)
        ensures
            r == (StunClient { servers: self.servers, timeout }),
    {
        StunClient { servers: self.servers, timeout }
    }

    /// The next step, once the first `tried` servers were probed and the last of them has
    /// answered or not: each server is tried in turn until one answers.
    pub fn discover(&self, tried: usize, answer: Option<StunResult>) -> (r: DiscoverStep)
        ensures
            match r {
                DiscoverStep::Found(a) => self.servers@.len() > 0 && answer == Some(a),
                DiscoverStep::Probe(s) => answer is None && tried < self.servers@.len() && s == self.servers@[tried as int],
                DiscoverStep::Failed(e) => if self.servers@.len() == 0 {
                    e is NoStunServers
                } else {
                    answer is None && tried >= self.servers@.len() && e.is_stun_failed("all STUN servers failed"@)
                },
            },
    {
        if self.servers.len() == 0 {
            return DiscoverStep::Failed(NatError::NoStunServers);
        }
        match answer {
            Some(a) => DiscoverStep::Found(a),
            None => if tried < self.servers.len() {
                DiscoverStep::Probe(self.servers[tried])
            } else {
                DiscoverStep::Failed(failed("all STUN servers failed"))
            },
        }
    }

    /// The outcome of a probe: what a response of a server tells, if any came in time.
    pub fn probe_outcome(&self, txn_id: &[u8; 12], response: Option<(Vec<u8>, SocketAddr)>) -> (r: Result<StunResult, NatError>)
        ensures
            match response {
                None => r == Err::<StunResult, NatError>(
                    NatError::StunTimeout { timeout_ms: ((self.timeout.nanos / 1_000_000) % 0x1_0000_0000_0000_0000) as u64 },
                ),
                Some(x) => match r {
                    Ok(s) => {
                        &&& s.server_addr == x.1
                        &&& response_address(x.0@, txn_id@) == Ok::<SocketAddr, Seq<char>>(s.mapped_addr)
                    },
                    Err(e) => response_address(x.0@, txn_id@) is Err && e.is_stun_failed(response_address(x.0@, txn_id@)->Err_0),
                },
            },
    {
        match response {
            None => Err(
                NatError::StunTimeout {
                    timeout_ms: ((self.timeout.nanos / 1_000_000) % 0x1_0000_0000_0000_0000u128) as u64,
                },
            ),
            Some((data, from)) => match parse_binding_response(data.as_slice(), txn_id) {
                Ok(mapped_addr) => Ok(StunResult { mapped_addr, server_addr: from }),
                Err(e) => Err(e),
            },
        }
    }
}

/// An address attribute for an IPv4 address, masked by the magic cookie.
pub open spec fn xor_attribute(ip: u32, port: u16) -> Seq<u8> {
    be(1, 2) + be((port ^ 0x2112u16) as nat, 2) + be((ip ^ MAGIC_COOKIE) as nat, 4)
}

/// A binding response with one attribute.
pub open spec fn response_wire(txn: Seq<u8>, attr_type: u16, attr: Seq<u8>) -> Seq<u8> {
    be(BINDING_RESPONSE as nat, 2) + be(4 + attr.len(), 2) + be(MAGIC_COOKIE as nat, 4) + txn + be(attr_type as nat, 2) + be(
        attr.len(),
        2,
    ) + attr
}

/// The address that a server masks and sends in its response is the one that is found in
/// it.
pub proof fn law_mapped_address_is_found(txn: Seq<u8>, ip: u32, port: u16)
    requires
        txn.len() == 12,
    ensures
        response_address(response_wire(txn, ATTR_XOR_MAPPED_ADDRESS, xor_attribute(ip, port)), txn) == Ok::<SocketAddr, Seq<char>>(
            SocketAddr::spec_new(IpAddr::V4(ip), port),
        ),
{
    broadcast use lemma_be_len;

    lemma_pow256_values();
    let a = xor_attribute(ip, port);
    let d = response_wire(txn, ATTR_XOR_MAPPED_ADDRESS, a);
    assert(d.subrange(0, 2) =~= be(BINDING_RESPONSE as nat, 2));
    assert(d.subrange(2, 4) =~= be(12, 2));
    assert(d.subrange(4, 8) =~= be(MAGIC_COOKIE as nat, 4));
    assert(d.subrange(8, 20) =~= txn);
    assert(d.subrange(20, 22) =~= be(ATTR_XOR_MAPPED_ADDRESS as nat, 2));
    assert(d.subrange(22, 24) =~= be(8, 2));
    assert(d.subrange(24, 32) =~= a);
    lemma_be_roundtrip(BINDING_RESPONSE as nat, 2);
    lemma_be_roundtrip(12, 2);
    lemma_be_roundtrip(MAGIC_COOKIE as nat, 4);
    lemma_be_roundtrip(ATTR_XOR_MAPPED_ADDRESS as nat, 2);
    lemma_be_roundtrip(8, 2);
    let p = port ^ 0x2112u16;
    let i = ip ^ MAGIC_COOKIE;
    lemma_be_roundtrip(1, 2);
    lemma_be_roundtrip(p as nat, 2);
    lemma_be_roundtrip(i as nat, 4);
    assert(a.subrange(0, 2) =~= be(1, 2));
    assert(a.subrange(2, 4) =~= be(p as nat, 2));
    assert(a.subrange(4, 8) =~= be(i as nat, 4));
    assert(a[1] == 1) by {
        assert(be(1, 2)[1] == 1);
        assert(a.subrange(0, 2)[1] == a[1]);
    }
    assert((port ^ 0x2112u16) ^ 0x2112u16 == port) by (bit_vector);
    assert((ip ^ 0x2112A442u32) ^ 0x2112A442u32 == ip) by (bit_vector);
}

/// A response tells an address only if it is one: at least 20 bytes, of the type of binding
/// responses, with the magic cookie, with the number of the request, and with all of its
/// attributes.
pub proof fn law_only_the_awaited_response_counts(d: Seq<u8>, txn: Seq<u8>)
    requires
        response_address(d, txn) is Ok,
    ensures
        d.len() >= 20,
        be_val(d.subrange(0, 2)) == 0x0101,
        be_val(d.subrange(4, 8)) == 0x2112A442,
        d.subrange(8, 20) == txn,
        d.len() >= 20 + be_val(d.subrange(2, 4)),
        first_address(d, 20, 20 + be_val(d.subrange(2, 4)) as int) == response_address(d, txn),
{
}

/// The first attribute that holds an address decides, wherever it stands among the others: one of
/// another type is passed over with its filling, up to a multiple of four.
pub proof fn law_other_attributes_are_passed_over(d: Seq<u8>, at: int, end: int, n: nat, filled: int)
    requires
        0 <= at,
        at + 4 + n <= end,
        n == be_val(d.subrange(at + 2, at + 4)),
        n <= filled < n + 4,
        filled % 4 == 0,
    ensures
        be_val(d.subrange(at, at + 2)) != 0x0020 && be_val(d.subrange(at, at + 2)) != 0x0001 ==> first_address(d, at, end)
            == first_address(d, at + 4 + filled, end),
        be_val(d.subrange(at, at + 2)) == 0x0020 ==> first_address(d, at, end) == xor_mapped_address(d.subrange(at + 4, at + 4 + n)),
        be_val(d.subrange(at, at + 2)) == 0x0001 ==> first_address(d, at, end) == mapped_address(d.subrange(at + 4, at + 4 + n)),
{
    assert(filled == (n + 3) / 4 * 4);
}

/// What does not fit into the response any more is no attribute.
pub proof fn law_attributes_end_with_the_response(d: Seq<u8>, at: int, end: int)
    requires
        0 <= at,
        at + 4 > end || at + 4 + be_val(d.subrange(at + 2, at + 4)) > end,
    ensures
        first_address(d, at, end) is Err,
{
}

/// An address attribute: the family in the second byte, which has to be 1, the port and then the
/// number. In the masked form, both are masked with the magic cookie; masked twice they are
/// plain.
pub proof fn law_address_attributes(d: Seq<u8>)
    ensures
        mapped_address(d) is Ok <==> d.len() >= 8 && d[1] == 1,
        xor_mapped_address(d) is Ok <==> d.len() >= 8 && d[1] == 1,
        d.len() >= 8 && d[1] == 1 ==> ({
            let plain = mapped_address(d)->Ok_0;
            let masked = xor_mapped_address(d)->Ok_0;
            &&& plain.port == be_val(d.subrange(2, 4))
            &&& plain.ip matches IpAddr::V4(ip) && ip == be_val(d.subrange(4, 8))
            &&& masked.port ^ 0x2112u16 == plain.port
            &&& masked.ip matches IpAddr::V4(ip) && plain.ip == IpAddr::V4(ip ^ 0x2112A442u32)
        }),
{
    lemma_pow256_values();
    if d.len() >= 8 {
        lemma_be_val_bound(d.subrange(2, 4));
        lemma_be_val_bound(d.subrange(4, 8));
        let p = be_val(d.subrange(2, 4)) as u16;
        let i = be_val(d.subrange(4, 8)) as u32;
        assert((p ^ 0x2112u16) ^ 0x2112u16 == p) by (bit_vector);
        assert((i ^ 0x2112A442u32) ^ 0x2112A442u32 == i) by (bit_vector);
    }
}

/// A request: 20 bytes, of the type of binding requests, without attributes, with the magic cookie
/// and its number.
pub proof fn law_binding_request(txn: Seq<u8>)
    requires
        txn.len() == 12,
    ensures
        request_wire(txn).len() == 20,
        be_val(request_wire(txn).subrange(0, 2)) == 0x0001,
        be_val(request_wire(txn).subrange(2, 4)) == 0,
        be_val(request_wire(txn).subrange(4, 8)) == 0x2112A442,
        request_wire(txn).subrange(8, 20) == txn,
{
    broadcast use lemma_be_len;

    lemma_pow256_values();
    let w = request_wire(txn);
    assert(w.subrange(0, 2) =~= be(1, 2));
    assert(w.subrange(2, 4) =~= be(0, 2));
    assert(w.subrange(4, 8) =~= be(0x2112A442, 4));
    assert(w.subrange(8, 20) =~= txn);
    lemma_be_roundtrip(1, 2);
    lemma_be_roundtrip(0, 2);
    lemma_be_roundtrip(0x2112A442, 4);
}

/// A response of the right kind, with the cookie and the number that is awaited, and as long as it
/// says or longer, is searched for its address; any other is an error that says what is wrong.
pub proof fn law_awaited_response_is_searched(d: Seq<u8>, txn: Seq<u8>)
    ensures
        d.len() >= 20 && be_val(d.subrange(0, 2)) == 0x0101 && be_val(d.subrange(4, 8)) == 0x2112A442 && d.subrange(8, 20) == txn
            && d.len() >= 20 + be_val(d.subrange(2, 4)) ==> response_address(d, txn) == first_address(
            d,
            20,
            20 + be_val(d.subrange(2, 4)) as int,
        ),
        d.len() < 20 ==> response_address(d, txn) == Err::<SocketAddr, Seq<char>>("response too short: "@ + dec(d.len()) + " bytes"@),
        d.len() >= 20 && be_val(d.subrange(0, 2)) == 0x0101 && be_val(d.subrange(4, 8)) == 0x2112A442 && d.subrange(8, 20) != txn
            ==> response_address(d, txn) == Err::<SocketAddr, Seq<char>>("transaction ID mismatch"@),
        d.len() >= 20 && be_val(d.subrange(0, 2)) == 0x0101 && be_val(d.subrange(4, 8)) == 0x2112A442 && d.subrange(8, 20) == txn
            && d.len() < 20 + be_val(d.subrange(2, 4)) ==> response_address(d, txn) == Err::<SocketAddr, Seq<char>>(
            "truncated response"@,
        ),
        d.len() >= 20 && be_val(d.subrange(0, 2)) == 0x0101 && be_val(d.subrange(4, 8)) != 0x2112A442 ==> response_address(d, txn)
            == Err::<SocketAddr, Seq<char>>("invalid magic cookie: 0x"@ + hex_bytes(be(be_val(d.subrange(4, 8)), 4))),
        d.len() >= 20 && be_val(d.subrange(0, 2)) != 0x0101 ==> response_address(d, txn) == Err::<SocketAddr, Seq<char>>(
            "unexpected message type: 0x"@ + hex_bytes(be(be_val(d.subrange(0, 2)), 2)),
        ),
{
}

/// A server that does not answer in time is told with how long was waited; of one that answers, the
/// address that it tells is taken from a response that is in order, and only from such.
pub proof fn law_what_a_probe_gives(
    c: StunClient,
    txn: [u8; 12],
    data: Vec<u8>,
    from: SocketAddr,
    r: Result<StunResult, NatError>,
    late: Result<StunResult, NatError>,
)
    requires
        call_ensures(StunClient::probe_outcome, (&c, &txn, Some((data, from))), r),
        call_ensures(StunClient::probe_outcome, (&c, &txn, None), late),
    ensures
        r is Ok <==> response_address(data@, txn@) is Ok,
        r is Ok ==> r->Ok_0.server_addr == from && r->Ok_0.mapped_addr == response_address(data@, txn@)->Ok_0,
        late is Err && late->Err_0 is StunTimeout,
        c.timeout.nanos < 1_000_000_000_000_000 ==> late->Err_0->timeout_ms == c.timeout.nanos / 1_000_000,
{
}

/// The servers are asked in their order until one answers; when none is left, or there is none, that
/// is an error.
pub proof fn law_servers_are_asked_in_order(c: StunClient, tried: usize, answer: StunResult, r: DiscoverStep, s: DiscoverStep)
    requires
        call_ensures(StunClient::discover, (&c, tried, None), r),
        call_ensures(StunClient::discover, (&c, tried, Some(answer)), s),
    ensures
        tried < c.servers@.len() ==> r == DiscoverStep::Probe(c.servers@[tried as int]),
        tried >= c.servers@.len() ==> r is Failed,
        c.servers@.len() > 0 ==> s == DiscoverStep::Found(answer),
        c.servers@.len() == 0 ==> r is Failed && r->Failed_0 is NoStunServers,
{
}

/// What is made of the bytes of a response, and which bytes a request is.
pub proof fn law_bytes_of_requests_and_responses(txn: [u8; 12], request: Vec<u8>, data: &[u8], r: Result<SocketAddr, NatError>)
    requires
        call_ensures(build_binding_request, (&txn,), request),
        call_ensures(parse_binding_response, (data, &txn), r),
    ensures
        request@.len() == 20 && be_val(request@.subrange(0, 2)) == 1 && be_val(request@.subrange(4, 8)) == 0x2112A442
            && request@.subrange(8, 20) == txn@,
        r is Ok ==> data@.len() >= 20 && be_val(data@.subrange(0, 2)) == 0x0101 && be_val(data@.subrange(4, 8)) == 0x2112A442
            && data@.subrange(8, 20) == txn@,
        r is Ok <==> response_address(data@, txn@) is Ok,
        r is Ok ==> r->Ok_0 == response_address(data@, txn@)->Ok_0,
{
    law_binding_request(txn@);
    if r is Ok {
        law_only_the_awaited_response_counts(data@, txn@);
    }
}

} // verus!

//! What kind of address translator stands before us.
use vstd::prelude::*;
use vstd::string::*;
use crate::traversal::stun::{StunClient, StunResult};
use crate::net::{IpAddr, SocketAddr};

verus! {

/// The kinds of address translator.
#[derive(Debug, Clone, Copy, PartialEq, Eq, Structural)]
pub enum NatType {
    /// None: the own address is public.
    NoNat,
    /// Any host can send to the outer address.
    FullCone,
    /// Only hosts that were contacted can.
    Restricted,
    /// Only the exact address and port that was contacted can.
    PortRestricted,
    /// Each destination sees another outer address.
    Symmetric,
    /// It could not be found out.
    Unknown,
}

impl NatType {
    /// Holes can be punched.
    pub open spec fn punchable(self) -> bool {
        !(self is Symmetric) && !(self is Unknown)
    }

    pub fn supports_hole_punch(&self) -> (r: bool)
        ensures
            r == self.punchable(),
    {
        matches!(self, NatType::NoNat | NatType::FullCone | NatType::Restricted | NatType::PortRestricted)
    }

    pub open spec fn words(self) -> Seq<char> {
        match self {
            NatType::NoNat => "No NAT (public IP)"@,
            NatType::FullCone => "Full Cone NAT"@,
            NatType::Restricted => "Address-Restricted Cone NAT"@,
            NatType::PortRestricted => "Port-Restricted Cone NAT"@,
            NatType::Symmetric => "Symmetric NAT (relay required)"@,
            NatType::Unknown => "Unknown NAT type"@,
        }
    }

    pub fn description(&self) -> (r: &'static str)
        ensures
            r@ == self.words(),
    {
        match self {
            NatType::NoNat => "No NAT (public IP)",
            NatType::FullCone => "Full Cone NAT",
            NatType::Restricted => "Address-Restricted Cone NAT",
            NatType::PortRestricted => "Port-Restricted Cone NAT",
            NatType::Symmetric => "Symmetric NAT (relay required)",
            NatType::Unknown => "Unknown NAT type",
        }
    }

    pub fn to_string(&self) -> (r: String)
        ensures
            r@ == self.words(),
    {
        String::from_str(self.description())
    }
}

/// What is known of the own position in the network.
#[derive(Debug, Clone, Copy, PartialEq, Eq, Structural)]
pub struct NatInfo {
    pub nat_type: NatType,
    /// The outer address, if it was found out.
    pub external_addr: Option<SocketAddr>,
    pub local_addr: SocketAddr,
    pub hole_punch_capable: bool,
}

/// The kind that two outer addresses show: one for all destinations, one that differs in
/// its port, or a different one for each. With one address alone, the first is assumed.
pub open spec fn shown_by(first: SocketAddr, second: Option<SocketAddr>) -> NatType {
    match second {
        None => NatType::Restricted,
        Some(s) => if first == s {
            NatType::Restricted
        } else if first.ip == s.ip && first.port != s.port {
            NatType::PortRestricted
        } else {
            NatType::Symmetric
        },
    }
}

fn kind_shown_by(first: SocketAddr, second: Option<SocketAddr>) -> (r: NatType)
    ensures
        r == shown_by(first, second),
{
    match second {
        None => NatType::Restricted,
        Some(s) => if first == s {
            NatType::Restricted
        } else if first.ip == s.ip && first.port != s.port {
            NatType::PortRestricted
        } else {
            NatType::Symmetric
        },
    }
}

/// What two probes tell of the own position. The outer address is the own one where there
/// is no address translator.
pub open spec fn position(local: SocketAddr, first: Option<StunResult>, second: Option<StunResult>) -> NatInfo {
    match first {
        None => NatInfo {
            nat_type: NatType::Unknown,
            external_addr: None,
            local_addr: local,
            hole_punch_capable: false,
        },
        Some(a) => {
            let kind = if a.mapped_addr.ip == local.ip && a.mapped_addr.port == local.port {
                NatType::NoNat
            } else {
                shown_by(a.mapped_addr, match second { Some(b) => Some(b.mapped_addr), None => None })
            };
            NatInfo {
                nat_type: kind,
                external_addr: Some(a.mapped_addr),
                local_addr: local,
                hole_punch_capable: kind.punchable(),
            }
        },
    }
}

/// Finds out the kind of address translator.
pub struct NatDetector {
    pub stun_client: StunClient,
}

impl Default for NatDetector {
    fn default() -> (r: Self)
        ensures
            r.stun_client.servers@ == seq![
                SocketAddr::spec_new(IpAddr::V4(0x4A7DFA81), 19302),
                SocketAddr::spec_new(IpAddr::V4(0x40E9A37F), 19302),
            ],
            r.stun_client.timeout.nanos == 3_000_000_000,
    {
        Self::new()
    }
}

impl NatDetector {
    /// With the default servers.
    pub fn new() -> (r: Self)
        ensures
            r.stun_client.servers@ == seq![
                SocketAddr::spec_new(IpAddr::V4(0x4A7DFA81), 19302),
                SocketAddr::spec_new(IpAddr::V4(0x40E9A37F), 19302),
            ],
            r.stun_client.timeout.nanos == 3_000_000_000,
    {
        NatDetector { stun_client: StunClient::new() }
    }

    pub fn with_stun_client(stun_client: StunClient) -> (r: Self)
        ensures
            r == (NatDetector { stun_client }),
    {
        NatDetector { stun_client }
    }

    /// The server to probe second: the first other one than has answered first, unless the first
    /// answer shows that there is no address translator.
    pub fn second_server(&self, local_addr: SocketAddr, first: &StunResult) -> (r: Option<SocketAddr>)
        ensures
            match r {
                Some(s) => {
                    &&& !(first.mapped_addr.ip == local_addr.ip && first.mapped_addr.port == local_addr.port)
                    &&& s != first.server_addr
                    &&& exists|i: int|
                        0 <= i < self.stun_client.servers@.len() && #[trigger] self.stun_client.servers@[i] == s && forall|j: int|
                            0 <= j < i ==> self.stun_client.servers@[j] == first.server_addr
                },
                None => {
                    ||| first.mapped_addr.ip == local_addr.ip && first.mapped_addr.port == local_addr.port
                    ||| forall|i: int| 0 <= i < self.stun_client.servers@.len() ==> self.stun_client.servers@[i] == first.server_addr
                },
            },
    {
        if first.mapped_addr.ip == local_addr.ip && first.mapped_addr.port == local_addr.port {
            return None;
        }
        let mut i: usize = 0;
        while i < self.stun_client.servers.len()
            invariant
                i <= self.stun_client.servers@.len(),
                !(first.mapped_addr.ip == local_addr.ip && first.mapped_addr.port == local_addr.port),
                forall|j: int| 0 <= j < i ==> self.stun_client.servers@[j] == first.server_addr,
            decreases self.stun_client.servers@.len() - i,
        {
            let s = self.stun_client.servers[i];
            if s != first.server_addr {
                assert(self.stun_client.servers@[i as int] == s);
                return Some(s);
            }
            i += 1;
        }
        None
    }

    /// What the probes of two servers tell. The second is missing where it has failed or
    /// was not made.
    pub fn detect(local_addr: SocketAddr, first: Option<StunResult>, second: Option<StunResult>) -> (r: NatInfo)
        ensures
            r == position(local_addr, first, second),
    {
        match first {
            None => NatInfo {
                nat_type: NatType::Unknown,
                external_addr: None,
                local_addr,
                hole_punch_capable: false,
            },
            Some(a) => {
                let nat_type = if a.mapped_addr.ip == local_addr.ip && a.mapped_addr.port == local_addr.port {
                    NatType::NoNat
                } else {
                    let other: Option<SocketAddr> = match second {
                        Some(b) => Some(b.mapped_addr),
                        None => None,
                    };
                    kind_shown_by(a.mapped_addr, other)
                };
                let hole_punch_capable = nat_type.supports_hole_punch();
                NatInfo { nat_type, external_addr: Some(a.mapped_addr), local_addr, hole_punch_capable }
            },
        }
    }

    /// The kind that two probes show. Whose outer IP address is the own one has no address
    /// translator.
    pub fn classify(local_addr: SocketAddr, probe1: &StunResult, probe2: Option<&StunResult>) -> (r: NatType)
        ensures
            r == (if probe1.mapped_addr.ip == local_addr.ip {
                NatType::NoNat
            } else {
                shown_by(probe1.mapped_addr, match probe2 { Some(p) => Some(p.mapped_addr), None => None })
            }),
    {
        if probe1.mapped_addr.ip == local_addr.ip {
            return NatType::NoNat;
        }
        let other: Option<SocketAddr> = match probe2 {
            Some(p) => Some(p.mapped_addr),
            None => None,
        };
        kind_shown_by(probe1.mapped_addr, other)
    }
}

/// Outer IP addresses that change with the destination mean that no hole can be punched.
pub proof fn law_changing_address_needs_a_relay(local: SocketAddr, a: StunResult, b: StunResult)
    requires
        a.mapped_addr.ip != b.mapped_addr.ip,
        a.mapped_addr.ip != local.ip,
    ensures
        position(local, Some(a), Some(b)).nat_type is Symmetric,
        !position(local, Some(a), Some(b)).hole_punch_capable,
{
}

/// Without an answer nothing is known. With one, the address that it tells is ours from outside;
/// if it is our own, there is no translator.
pub proof fn law_first_answer_tells_the_address(local: SocketAddr, first: Option<StunResult>, second: Option<StunResult>)
    ensures
        position(local, first, second).local_addr == local,
        first is None ==> position(local, first, second).nat_type == NatType::Unknown
            && position(local, first, second).external_addr is None
            && !position(local, first, second).hole_punch_capable,
        first matches Some(a) ==> position(local, first, second).external_addr == Some(a.mapped_addr),
        first matches Some(a) ==> (position(local, first, second).nat_type == NatType::NoNat <==> a.mapped_addr.ip == local.ip
            && a.mapped_addr.port == local.port),
        first is Some ==> position(local, first, second).nat_type != NatType::Unknown,
        position(local, first, second).hole_punch_capable <==> position(local, first, second).nat_type != NatType::Symmetric
            && position(local, first, second).nat_type != NatType::Unknown,
{
}

/// Behind a translator, two answers with one address show an address-restricted one, two with
/// one number and different ports a port-restricted one, and two with different numbers one that
/// changes with the destination. One answer alone is taken for the first of these.
pub proof fn law_two_answers_show_the_kind(a: SocketAddr, b: SocketAddr)
    ensures
        shown_by(a, None) == NatType::Restricted,
        a == b ==> shown_by(a, Some(b)) == NatType::Restricted,
        a.ip == b.ip && a.port != b.port ==> shown_by(a, Some(b)) == NatType::PortRestricted,
        a.ip != b.ip ==> shown_by(a, Some(b)) == NatType::Symmetric,
        a.ip == b.ip && a.port == b.port && a != b ==> shown_by(a, Some(b)) == NatType::Symmetric,
        shown_by(a, Some(b)) == shown_by(b, Some(a)),
{
}

/// Holes can be punched through every known kind of translator but one.
pub proof fn law_punchable_kinds(t: NatType)
    ensures
        t.punchable() <==> t == NatType::NoNat || t == NatType::FullCone || t == NatType::Restricted || t == NatType::PortRestricted,
{
}

/// What the kinds are called.
pub proof fn law_kinds_in_words(t: NatType)
    ensures
        t is NoNat ==> t.words() == "No NAT (public IP)"@,
        t is FullCone ==> t.words() == "Full Cone NAT"@,
        t is Restricted ==> t.words() == "Address-Restricted Cone NAT"@,
        t is PortRestricted ==> t.words() == "Port-Restricted Cone NAT"@,
        t is Symmetric ==> t.words() == "Symmetric NAT (relay required)"@,
        t is Unknown ==> t.words() == "Unknown NAT type"@,
{
}

/// A second server is asked just if the first answer shows a translator and there is another server
/// than the one that gave it; it is the first such server.
pub proof fn law_second_server(d: NatDetector, local_addr: SocketAddr, first: StunResult, r: Option<SocketAddr>, k: int)
    requires
        call_ensures(NatDetector::second_server, (&d, local_addr, &first), r),
        0 <= k < d.stun_client.servers@.len(),
        d.stun_client.servers@[k] != first.server_addr,
        forall|j: int| 0 <= j < k ==> d.stun_client.servers@[j] == first.server_addr,
    ensures
        r is None <==> first.mapped_addr.ip == local_addr.ip && first.mapped_addr.port == local_addr.port,
        r matches Some(s) ==> s == d.stun_client.servers@[k],
{
    if let Some(s) = r {
        let i = choose|i: int|
            0 <= i < d.stun_client.servers@.len() && #[trigger] d.stun_client.servers@[i] == s && forall|j: int|
                0 <= j < i ==> d.stun_client.servers@[j] == first.server_addr;
        assert(i == k);
    }
}

/// Where the node stands, as the answers of one or two servers show it: in the open if the first saw
/// its own address; else behind a translator, that changes addresses, ports, or neither. Only where
/// addresses change, or nobody answered, is punching in vain.
pub proof fn law_what_is_detected(
    local: SocketAddr,
    first: Option<StunResult>,
    second: Option<StunResult>,
    r: NatInfo,
    a: StunResult,
    kind: NatType,
    b: StunResult,
    punchable: bool,
)
    requires
        call_ensures(NatDetector::detect, (local, first, second), r),
        call_ensures(NatDetector::classify, (local, &a, Some(&b)), kind),
        call_ensures(NatType::supports_hole_punch, (&kind,), punchable),
    ensures
        first is None ==> r.nat_type == NatType::Unknown && r.external_addr is None && !r.hole_punch_capable,
        first is Some ==> r.external_addr == Some(first->0.mapped_addr) && (r.nat_type == NatType::NoNat <==> first->0.mapped_addr.ip
            == local.ip && first->0.mapped_addr.port == local.port),
        first is Some && second is Some && first->0.mapped_addr.ip != local.ip && first->0.mapped_addr.ip != second->0.mapped_addr.ip
            ==> r.nat_type == NatType::Symmetric && !r.hole_punch_capable,
        first is Some && second is Some && first->0.mapped_addr.ip != local.ip && first->0.mapped_addr == second->0.mapped_addr
            ==> r.nat_type == NatType::Restricted && r.hole_punch_capable,
        a.mapped_addr.ip == local.ip ==> kind == NatType::NoNat,
        a.mapped_addr.ip != local.ip ==> kind == shown_by(a.mapped_addr, Some(b.mapped_addr)),
        punchable <==> kind != NatType::Symmetric && kind != NatType::Unknown,
{
}

} // verus!

//! Tiers of peers: those that have proved themselves relay for others.
use vstd::prelude::*;
use vstd::string::*;
use crate::counter::{count, counted};
use crate::crypto::identity::PeerId;
use crate::net::SocketAddr;
use crate::table::{Key, Table};
use crate::text::{dec, push_dec};
use crate::time::{Duration, Instant};

verus! {

/// The tier of a peer; a later one is a higher one.
#[derive(Debug, Clone, Copy, PartialEq, Eq, PartialOrd, Ord, Structural)]
pub enum SuperNodeTier {
    Regular,
    /// Under observation.
    Candidate,
    /// Can relay.
    SuperNode,
    /// Can relay, and serve as a seed.
    Elite,
}

impl SuperNodeTier {
    pub open spec fn relays(self) -> bool {
        self is SuperNode || self is Elite
    }

    pub fn can_relay(&self) -> (r: bool)
        ensures
            r == self.relays(),
    {
        matches!(self, Self::SuperNode | Self::Elite)
    }

    pub fn can_bootstrap(&self) -> (r: bool)
        ensures
            r == (self is Elite),
    {
        matches!(self, Self::Elite)
    }

    pub open spec fn name(self) -> Seq<char> {
        match self {
            Self::Regular => "Regular"@,
            Self::Candidate => "Candidate"@,
            Self::SuperNode => "SuperNode"@,
            Self::Elite => "Elite"@,
        }
    }

    pub fn to_string(&self) -> (r: String)
        ensures
            r@ == self.name(),
    {
        match self {
            Self::Regular => String::from_str("Regular"),
            Self::Candidate => String::from_str("Candidate"),
            Self::SuperNode => String::from_str("SuperNode"),
            Self::Elite => String::from_str("Elite"),
        }
    }
}

/// A share: `num` of `den`.
#[derive(Debug, Clone, Copy, PartialEq, Eq, Structural)]
pub struct Ratio {
    pub num: u64,
    pub den: u64,
}

/// A measured time, by its place in the order of such times: the longer, the higher. The
/// place of a time is the bit pattern of its number of milliseconds as a double.
#[derive(Debug, Clone, Copy, PartialEq, Eq, PartialOrd, Ord, Structural)]
pub struct Latency {
    pub order: i64,
}

/// When a peer is promoted.
#[derive(Debug, Clone, Copy)]
pub struct PromotionCriteria {
    pub candidate_uptime: Duration,
    pub supernode_uptime: Duration,
    pub elite_uptime: Duration,
    /// The share of queries that must have succeeded.
    pub min_success_rate: Ratio,
    /// The longest average time of an answer.
    pub max_avg_latency: Latency,
    pub min_successes: u64,
    pub elite_min_successes: u64,
    pub observation_period: Duration,
}

impl Default for PromotionCriteria {
    /// One hour, four hours, a day; 95 percent; 100 milliseconds; 100 and 1000 answers;
    /// half an hour.
    fn default() -> (r: Self)
        ensures
            r.candidate_uptime.nanos == 3600_000_000_000,
            r.supernode_uptime.nanos == 14400_000_000_000,
            r.elite_uptime.nanos == 86400_000_000_000,
            r.min_success_rate == (Ratio { num: 95, den: 100 }),
            r.max_avg_latency == (Latency { order: 0x4059_0000_0000_0000 }),
            r.min_successes == 100,
            r.elite_min_successes == 1000,
            r.observation_period.nanos == 1800_000_000_000,
    {
        PromotionCriteria {
            candidate_uptime: Duration::from_secs(3600),
            supernode_uptime: Duration::from_secs(14400),
            elite_uptime: Duration::from_secs(86400),
            min_success_rate: Ratio { num: 95, den: 100 },
            max_avg_latency: Latency { order: 0x4059_0000_0000_0000 },
            min_successes: 100,
            elite_min_successes: 1000,
            observation_period: Duration::from_secs(1800),
        }
    }
}

/// What is known of a peer.
#[derive(Debug, Clone, Copy)]
pub struct SuperNodeInfo {
    pub peer_id: PeerId,
    pub addr: SocketAddr,
    pub tier: SuperNodeTier,
    /// When the peer first rose above the regular ones.
    pub promoted_at: Option<Instant>,
    pub tier_since: Instant,
    pub total_successes: u64,
    pub total_failures: u64,
    /// The average time of an answer.
    pub avg_latency: Latency,
    pub bytes_relayed: u64,
    pub tracked_since: Instant,
}

impl SuperNodeInfo {
    pub open spec fn spec_new(peer_id: PeerId, addr: SocketAddr, now: Instant) -> SuperNodeInfo {
        SuperNodeInfo {
            peer_id,
            addr,
            tier: SuperNodeTier::Regular,
            promoted_at: None,
            tier_since: now,
            total_successes: 0,
            total_failures: 0,
            avg_latency: Latency { order: 0 },
            bytes_relayed: 0,
            tracked_since: now,
        }
    }

    pub fn new(peer_id: PeerId, addr: SocketAddr, now: Instant) -> (r: Self)
        ensures
            r == Self::spec_new(peer_id, addr, now),
    {
        SuperNodeInfo {
            peer_id,
            addr,
            tier: SuperNodeTier::Regular,
            promoted_at: None,
            tier_since: now,
            total_successes: 0,
            total_failures: 0,
            avg_latency: Latency { order: 0 },
            bytes_relayed: 0,
            tracked_since: now,
        }
    }

    /// How long the peer has been watched.
    pub fn uptime(&self, now: Instant) -> (r: Duration)
        ensures
            r == now.spec_since(self.tracked_since),
    {
        now.since(self.tracked_since)
    }

    /// All queries.
    pub open spec fn total(self) -> int {
        self.total_successes + self.total_failures
    }

    /// The share of successes is at least the ratio. Without any query it is zero.
    pub open spec fn succeeds(self, ratio: Ratio) -> bool {
        if self.total() == 0 {
            ratio.num == 0
        } else {
            self.total_successes * ratio.den >= ratio.num * self.total()
        }
    }

    /// Whether the share of successes is at least the ratio.
    pub fn success_rate_at_least(&self, ratio: Ratio) -> (r: bool)
        requires
            ratio.den > 0,
        ensures
            r == self.succeeds(ratio),
    {
        let s: u64 = self.total_successes;
        let f: u64 = self.total_failures;
        if s == 0 && f == 0 {
            return ratio.num == 0;
        }
        if ratio.num > ratio.den {
            proof {
                let (n, d) = (ratio.num as int, ratio.den as int);
                let (a, b) = (s as int, f as int);
                assert(a * d < n * (a + b)) by (nonlinear_arith)
                    requires
                        n > d,
                        d > 0,
                        a >= 0,
                        b >= 0,
                        a + b > 0,
                ;
            }
            return false;
        }
        proof {
            let (n, d) = (ratio.num as int, ratio.den as int);
            let (a, b) = (s as int, f as int);
            assert(a * (d - n) >= n * b <==> a * d >= n * (a + b)) by (nonlinear_arith);
            assert(a * (d - n) <= 0xFFFF_FFFF_FFFF_FFFF * 0xFFFF_FFFF_FFFF_FFFF && n * b <= 0xFFFF_FFFF_FFFF_FFFF
                * 0xFFFF_FFFF_FFFF_FFFF && a * (d - n) >= 0 && n * b >= 0) by (nonlinear_arith)
                requires
                    0 <= n <= d,
                    d <= 0xFFFF_FFFF_FFFF_FFFF,
                    0 <= a <= 0xFFFF_FFFF_FFFF_FFFF,
                    0 <= b <= 0xFFFF_FFFF_FFFF_FFFF,
            ;
        }
        s as u128 * (ratio.den - ratio.num) as u128 >= ratio.num as u128 * f as u128
    }

    /// The share of successes is at least that of another peer.
    pub open spec fn succeeds_like(self, o: SuperNodeInfo) -> bool {
        if self.total() == 0 {
            o.total_successes == 0
        } else if o.total() == 0 {
            true
        } else {
            self.total_successes * o.total() >= o.total_successes * self.total()
        }
    }

    fn success_rate_like(&self, o: &SuperNodeInfo) -> (r: bool)
        ensures
            r == self.succeeds_like(*o),
    {
        if self.total_successes == 0 && self.total_failures == 0 {
            return o.total_successes == 0;
        }
        if o.total_successes == 0 && o.total_failures == 0 {
            return true;
        }
        proof {
            let (a, b) = (self.total_successes as int, self.total_failures as int);
            let (c, d) = (o.total_successes as int, o.total_failures as int);
            assert(a * (c + d) >= c * (a + b) <==> a * d >= c * b) by (nonlinear_arith);
            assert(a * d <= 0xFFFF_FFFF_FFFF_FFFF * 0xFFFF_FFFF_FFFF_FFFF && c * b <= 0xFFFF_FFFF_FFFF_FFFF
                * 0xFFFF_FFFF_FFFF_FFFF) by (nonlinear_arith)
                requires
                    0 <= a <= 0xFFFF_FFFF_FFFF_FFFF,
                    0 <= b <= 0xFFFF_FFFF_FFFF_FFFF,
                    0 <= c <= 0xFFFF_FFFF_FFFF_FFFF,
                    0 <= d <= 0xFFFF_FFFF_FFFF_FFFF,
            ;
        }
        self.total_successes as u128 * o.total_failures as u128 >= o.total_successes as u128 * self.total_failures as u128
    }
}

/// The tier that a peer deserves. Whoever fails or dawdles, with more than ten queries to
/// go by, is regular.
pub open spec fn deserved_tier(info: SuperNodeInfo, c: PromotionCriteria, now: Instant) -> SuperNodeTier {
    let uptime = now.spec_since(info.tracked_since).nanos;
    let reliable = info.succeeds(c.min_success_rate);
    let quick = info.avg_latency.order <= c.max_avg_latency.order;
    if (!reliable && info.total() > 10) || (!quick && info.total_successes > 10) {
        SuperNodeTier::Regular
    } else if uptime >= c.elite_uptime.nanos && reliable && info.total_successes >= c.elite_min_successes && quick {
        SuperNodeTier::Elite
    } else if uptime >= c.supernode_uptime.nanos && reliable && info.total_successes >= c.min_successes && quick {
        SuperNodeTier::SuperNode
    } else if uptime >= c.candidate_uptime.nanos && reliable {
        SuperNodeTier::Candidate
    } else {
        SuperNodeTier::Regular
    }
}

/// A peer after it was judged.
pub open spec fn judged(info: SuperNodeInfo, c: PromotionCriteria, now: Instant) -> SuperNodeInfo {
    let tier = deserved_tier(info, c, now);
    if tier == info.tier {
        info
    } else {
        SuperNodeInfo {
            tier,
            tier_since: now,
            promoted_at: if info.tier is Regular && info.promoted_at is None { Some(now) } else { info.promoted_at },
            ..info
        }
    }
}

/// A peer after another query. The average time is the one with this answer taken in.
pub open spec fn after_query(info: SuperNodeInfo, addr: SocketAddr, success: bool, avg_latency: Option<Latency>) -> SuperNodeInfo {
    if success {
        SuperNodeInfo {
            addr,
            total_successes: counted(info.total_successes, 1),
            avg_latency: match avg_latency {
                Some(l) => l,
                None => info.avg_latency,
            },
            ..info
        }
    } else {
        SuperNodeInfo { addr, total_failures: counted(info.total_failures, 1), ..info }
    }
}

/// How many are in a tier.
pub open spec fn in_tier(s: Seq<SuperNodeInfo>, tier: SuperNodeTier) -> nat
    decreases s.len(),
{
    if s.len() == 0 {
        0
    } else {
        in_tier(s.drop_last(), tier) + (if s.last().tier == tier { 1nat } else { 0nat })
    }
}

/// The list holds exactly those that `wanted` holds of, each once.
pub open spec fn lists(m: Map<Key, SuperNodeInfo>, r: Seq<&SuperNodeInfo>, wanted: spec_fn(SuperNodeInfo) -> bool) -> bool {
    &&& forall|i: int| 0 <= i < r.len() ==> m.contains_key((#[trigger] r[i]).peer_id.0) && m[r[i].peer_id.0] == *r[i] && wanted(*r[i])
    &&& forall|i: int, j: int| 0 <= i < j < r.len() ==> (#[trigger] r[i]).peer_id != (#[trigger] r[j]).peer_id
    &&& forall|k: Key| #[trigger] m.contains_key(k) && wanted(m[k]) ==> exists|i: int| 0 <= i < r.len() && *(#[trigger] r[i]) == m[k]
}

/// A change of tier.
pub type TierChange = (PeerId, SuperNodeTier, SuperNodeTier);

/// The changes of tier that judging makes, each once.
pub open spec fn lists_changes(m: Map<Key, SuperNodeInfo>, c: PromotionCriteria, now: Instant, r: Seq<TierChange>) -> bool {
    &&& forall|i: int|
        0 <= i < r.len() ==> m.contains_key((#[trigger] r[i]).0.0) && r[i].1 == m[r[i].0.0].tier && r[i].2 == deserved_tier(m[r[i].0.0], c, now)
            && r[i].1 != r[i].2
    &&& forall|i: int, j: int| 0 <= i < j < r.len() ==> (#[trigger] r[i]).0 != (#[trigger] r[j]).0
    &&& forall|k: Key|
        #[trigger] m.contains_key(k) && deserved_tier(m[k], c, now) != m[k].tier ==> exists|i: int|
            0 <= i < r.len() && (#[trigger] r[i]).0.0 == k
}

/// Watches peers and judges them.
pub struct SuperNodeManager {
    criteria: PromotionCriteria,
    nodes: Table<SuperNodeInfo>,
    max_tracked: usize,
}

impl SuperNodeManager {
    /// The peers that are watched, under the bytes of their identifiers.
    pub closed spec fn view(self) -> Map<Key, SuperNodeInfo> {
        self.nodes@
    }

    /// The peers that are watched, in some order.
    pub closed spec fn listing(self) -> Seq<SuperNodeInfo> {
        self.nodes.order().map_values(|k: Key| self.nodes@[k])
    }

    pub closed spec fn rules(self) -> PromotionCriteria {
        self.criteria
    }

    pub closed spec fn limit(self) -> usize {
        self.max_tracked
    }

    /// Each peer stands under its own identifier.
    pub closed spec fn wf(self) -> bool {
        &&& self.nodes.wf()
        &&& forall|k: Key| #[trigger] self.nodes@.contains_key(k) ==> self.nodes@[k].peer_id.0 == k
        &&& self.criteria.min_success_rate.den > 0
    }

    pub fn new(criteria: PromotionCriteria, max_tracked: usize) -> (r: Self)
        requires
            criteria.min_success_rate.den > 0,
        ensures
            r.wf(),
            r@ == Map::<Key, SuperNodeInfo>::empty(),
            r.rules() == criteria,
            r.limit() == max_tracked,
    {
        SuperNodeManager { criteria, nodes: Table::new(), max_tracked }
    }

    pub fn with_defaults() -> (r: Self)
        ensures
            r.wf(),
            r@ == Map::<Key, SuperNodeInfo>::empty(),
            r.limit() == 500,
            r.rules().min_success_rate == (Ratio { num: 95, den: 100 }),
            r.rules().max_avg_latency == (Latency { order: 0x4059_0000_0000_0000 }),
            r.rules().candidate_uptime.nanos == 3600_000_000_000,
            r.rules().supernode_uptime.nanos == 14400_000_000_000,
            r.rules().elite_uptime.nanos == 86400_000_000_000,
            r.rules().min_successes == 100,
            r.rules().elite_min_successes == 1000,
            r.rules().observation_period.nanos == 1800_000_000_000,
    {
        Self::new(PromotionCriteria::default(), 500)
    }

    /// Takes note of a query. A peer that is not watched yet is from now on. For an answer
    /// whose time was measured, the new average is given.
    pub fn record_performance(
        &mut self,
        peer_id: PeerId,
        addr: SocketAddr,
        success: bool,
        avg_latency: Option<Latency>,
        now: Instant,
    )
        requires
            old(self).wf(),
        ensures
            final(self).wf(),
            final(self).rules() == old(self).rules(),
            final(self).limit() == old(self).limit(),
            final(self)@ == old(self)@.insert(
                peer_id.0,
                after_query(
                    if old(self)@.contains_key(peer_id.0) {
                        old(self)@[peer_id.0]
                    } else {
                        SuperNodeInfo::spec_new(peer_id, addr, now)
                    },
                    addr,
                    success,
                    avg_latency,
                ),
            ),
    {
        let mut info = match self.nodes.get(&peer_id.0) {
            Some(i) => *i,
            None => SuperNodeInfo::new(peer_id, addr, now),
        };
        info.addr = addr;
        if success {
            info.total_successes = count(info.total_successes, 1);
            if let Some(l) = avg_latency {
                info.avg_latency = l;
            }
        } else {
            info.total_failures = count(info.total_failures, 1);
        }
        let _ = self.nodes.insert(peer_id.0, info);
    }

    /// Takes note of bytes that a peer has relayed.
    pub fn record_relay(&mut self, peer_id: &PeerId, bytes: u64)
        requires
            old(self).wf(),
        ensures
            final(self).wf(),
            final(self).rules() == old(self).rules(),
            final(self).limit() == old(self).limit(),
            final(self)@ == (if old(self)@.contains_key(peer_id.0) {
                old(self)@.insert(
                    peer_id.0,
                    SuperNodeInfo {
                        bytes_relayed: counted(old(self)@[peer_id.0].bytes_relayed, bytes),
                        ..old(self)@[peer_id.0]
                    },
                )
            } else {
                old(self)@
            }),
    {
        let found: Option<SuperNodeInfo> = match self.nodes.get(&peer_id.0) {
            Some(i) => Some(*i),
            None => None,
        };
        if let Some(info) = found {
            let mut info = info;
            info.bytes_relayed = count(info.bytes_relayed, bytes);
            let _ = self.nodes.insert(peer_id.0, info);
        }
    }

    /// The tier that a peer deserves.
    pub fn evaluate_tier(info: &SuperNodeInfo, criteria: &PromotionCriteria, now: Instant) -> (r: SuperNodeTier)
        requires
            criteria.min_success_rate.den > 0,
        ensures
            r == deserved_tier(*info, *criteria, now),
    {
        let uptime: u128 = info.uptime(now).nanos;
        let reliable = info.success_rate_at_least(criteria.min_success_rate);
        let quick = info.avg_latency.order <= criteria.max_avg_latency.order;
        if !reliable && info.total_successes as u128 + info.total_failures as u128 > 10 {
            return SuperNodeTier::Regular;
        }
        if !quick && info.total_successes > 10 {
            return SuperNodeTier::Regular;
        }
        if uptime >= criteria.elite_uptime.nanos && reliable && info.total_successes >= criteria.elite_min_successes && quick {
            return SuperNodeTier::Elite;
        }
        if uptime >= criteria.supernode_uptime.nanos && reliable && info.total_successes >= criteria.min_successes && quick {
            return SuperNodeTier::SuperNode;
        }
        if uptime >= criteria.candidate_uptime.nanos && reliable {
            return SuperNodeTier::Candidate;
        }
        SuperNodeTier::Regular
    }

    /// Judges all peers, and tells whose tier has changed.
    pub fn evaluate_all(&mut self, now: Instant) -> (r: Vec<TierChange>)
        requires
            old(self).wf(),
        ensures
            final(self).wf(),
            final(self).rules() == old(self).rules(),
            final(self).limit() == old(self).limit(),
            final(self)@.dom() == old(self)@.dom(),
            forall|k: Key| #[trigger] old(self)@.contains_key(k) ==> final(self)@[k] == judged(old(self)@[k], old(self).rules(), now),
            lists_changes(old(self)@, old(self).rules(), now, r@),
    {
        let criteria = self.criteria;
        let ghost m = self.nodes@;
        let ghost order = self.nodes.order();
        let mut changes: Vec<TierChange> = Vec::new();
        let n: usize = self.nodes.len();
        let mut i: usize = 0;
        proof {
            self.nodes.lemma_order();
        }
        while i < n
            invariant
                i <= n,
                n == order.len(),
                order.no_duplicates(),
                self.wf(),
                criteria == self.criteria,
                self.criteria == old(self).criteria,
                self.max_tracked == old(self).max_tracked,
                m == old(self)@,
                self.nodes.order() == order,
                self.nodes@.dom() == m.dom(),
                forall|j: int| 0 <= j < n ==> m.contains_key(#[trigger] order[j]),
                forall|k: Key| #[trigger] m.contains_key(k) ==> order.contains(k),
                forall|k: Key| #[trigger] m.contains_key(k) ==> m[k].peer_id.0 == k,
                forall|j: int| 0 <= j < i ==> self.nodes@[#[trigger] order[j]] == judged(m[order[j]], criteria, now),
                forall|j: int| i <= j < n ==> self.nodes@[#[trigger] order[j]] == m[order[j]],
                forall|c: int|
                    0 <= c < changes@.len() ==> m.contains_key((#[trigger] changes@[c]).0.0) && changes@[c].1 == m[changes@[c].0.0].tier
                        && changes@[c].2 == deserved_tier(m[changes@[c].0.0], criteria, now) && changes@[c].1 != changes@[c].2,
                forall|c: int| 0 <= c < changes@.len() ==> exists|j: int| 0 <= j < i && #[trigger] order[j] == (#[trigger] changes@[c]).0.0,
                forall|c: int, d: int| 0 <= c < d < changes@.len() ==> (#[trigger] changes@[c]).0 != (#[trigger] changes@[d]).0,
                forall|j: int|
                    0 <= j < i && deserved_tier(m[#[trigger] order[j]], criteria, now) != m[order[j]].tier ==> exists|c: int|
                        0 <= c < changes@.len() && (#[trigger] changes@[c]).0.0 == order[j],
            decreases n - i,
        {
            let key = self.nodes.key_at(i);
            let mut info = *self.nodes.value_at(i);
            let old_tier = info.tier;
            let new_tier = Self::evaluate_tier(&info, &criteria, now);
            let ghost was = changes@;
            let ghost before = self.nodes@;
            assert(key == order[i as int]);
            assert(m.contains_key(key) && info == m[key]);
            if new_tier != old_tier {
                info.tier = new_tier;
                info.tier_since = now;
                if matches!(old_tier, SuperNodeTier::Regular) && info.promoted_at.is_none() {
                    info.promoted_at = Some(now);
                }
                assert(info == judged(m[key], criteria, now));
                let _ = self.nodes.insert(key, info);
                assert(self.nodes@.dom() =~= m.dom());
                changes.push((info.peer_id, old_tier, new_tier));
                assert(changes@[was.len() as int].0.0 == key);
            }
            proof {
                assert forall|j: int| 0 <= j < n && j != i implies order[j] != key by {}
                assert forall|c: int, d: int| 0 <= c < d < changes@.len() implies (#[trigger] changes@[c]).0 != (#[trigger] changes@[d]).0 by {
                    if d == was.len() {
                        let j = choose|j: int| 0 <= j < i && #[trigger] order[j] == was[c].0.0;
                        assert(order[j] != key);
                    }
                }
                assert forall|c: int| 0 <= c < changes@.len() implies exists|j: int| 0 <= j < i + 1 && #[trigger] order[j] == (#[trigger] changes@[c]).0.0 by {
                    if c < was.len() {
                        let j = choose|j: int| 0 <= j < i && #[trigger] order[j] == was[c].0.0;
                        assert(order[j] == changes@[c].0.0);
                    } else {
                        assert(order[i as int] == changes@[c].0.0);
                    }
                }
                assert forall|j: int|
                    0 <= j < i + 1 && deserved_tier(m[#[trigger] order[j]], criteria, now) != m[order[j]].tier implies exists|c: int|
                        0 <= c < changes@.len() && (#[trigger] changes@[c]).0.0 == order[j] by {
                    if j < i {
                        let c = choose|c: int| 0 <= c < was.len() && (#[trigger] was[c]).0.0 == order[j];
                        assert(changes@[c].0.0 == order[j]);
                    } else {
                        assert(changes@[was.len() as int].0.0 == order[j]);
                    }
                }
            }
            i += 1;
        }
        proof {
            assert forall|k: Key| #[trigger] m.contains_key(k) implies self.nodes@[k] == judged(m[k], criteria, now) by {
                assert(order.contains(k));
                let j = choose|j: int| 0 <= j < order.len() && order[j] == k;
                assert(self.nodes@[order[j]] == judged(m[order[j]], criteria, now));
            }
            assert forall|k: Key|
                #[trigger] m.contains_key(k) && deserved_tier(m[k], criteria, now) != m[k].tier implies exists|c: int|
                    0 <= c < changes@.len() && (#[trigger] changes@[c]).0.0 == k by {
                assert(order.contains(k));
                let j = choose|j: int| 0 <= j < order.len() && order[j] == k;
                assert(deserved_tier(m[order[j]], criteria, now) != m[order[j]].tier);
            }
        }
        changes
    }

    /// The peers of a tier.
    pub fn nodes_by_tier(&self, tier: SuperNodeTier) -> (r: Vec<&SuperNodeInfo>)
        requires
            self.wf(),
        ensures
            lists(self@, r@, |i: SuperNodeInfo| i.tier == tier),
    {
        let ghost w = |i: SuperNodeInfo| i.tier == tier;
        let mut out: Vec<&SuperNodeInfo> = Vec::new();
        let n: usize = self.nodes.len();
        let mut i: usize = 0;
        proof {
            self.nodes.lemma_order();
        }
        while i < n
            invariant
                i <= n,
                self.wf(),
                n == self.nodes.order().len(),
                w == (|i: SuperNodeInfo| i.tier == tier),
                listed_upto(self.nodes@, self.nodes.order(), i as int, out@, w),
            decreases n - i,
        {
            let info = self.nodes.value_at(i);
            let ghost was = out@;
            let wanted = info.tier == tier;
            if wanted {
                out.push(info);
            }
            proof {
                self.nodes.lemma_order();
                lemma_listed_step(self.nodes@, self.nodes.order(), i as int, was, info, out@, w);
            }
            i += 1;
        }
        proof {
            lemma_listed_all(self.nodes@, self.nodes.order(), out@, w);
        }
        out
    }

    /// The peers that can relay.
    pub fn relay_capable(&self) -> (r: Vec<&SuperNodeInfo>)
        requires
            self.wf(),
        ensures
            lists(self@, r@, |i: SuperNodeInfo| i.tier.relays()),
    {
        let ghost w = |i: SuperNodeInfo| i.tier.relays();
        let mut out: Vec<&SuperNodeInfo> = Vec::new();
        let n: usize = self.nodes.len();
        let mut i: usize = 0;
        proof {
            self.nodes.lemma_order();
        }
        while i < n
            invariant
                i <= n,
                self.wf(),
                n == self.nodes.order().len(),
                w == (|i: SuperNodeInfo| i.tier.relays()),
                listed_upto(self.nodes@, self.nodes.order(), i as int, out@, w),
            decreases n - i,
        {
            let info = self.nodes.value_at(i);
            let ghost was = out@;
            if info.tier.can_relay() {
                out.push(info);
            }
            proof {
                self.nodes.lemma_order();
                lemma_listed_step(self.nodes@, self.nodes.order(), i as int, was, info, out@, w);
            }
            i += 1;
        }
        proof {
            lemma_listed_all(self.nodes@, self.nodes.order(), out@, w);
        }
        out
    }

    /// A peer that can relay and whose share of successes no other such peer surpasses.
    pub fn best_relay(&self) -> (r: Option<&SuperNodeInfo>)
        requires
            self.wf(),
        ensures
            match r {
                Some(b) => {
                    &&& self@.contains_key(b.peer_id.0)
                    &&& self@[b.peer_id.0] == *b
                    &&& b.tier.relays()
                    &&& forall|k: Key| #[trigger] self@.contains_key(k) && self@[k].tier.relays() ==> b.succeeds_like(self@[k])
                },
                None => forall|k: Key| #[trigger] self@.contains_key(k) ==> !self@[k].tier.relays(),
            },
    {
        let relays = self.relay_capable();
        if relays.len() == 0 {
            return None;
        }
        let mut best: &SuperNodeInfo = relays[0];
        let mut at: usize = 0;
        let mut i: usize = 1;
        while i < relays.len()
            invariant
                1 <= i <= relays@.len(),
                at < i,
                *best == *relays@[at as int],
                forall|j: int| 0 <= j < i ==> best.succeeds_like(*(#[trigger] relays@[j])),
            decreases relays@.len() - i,
        {
            let next: &SuperNodeInfo = relays[i];
            if next.success_rate_like(best) {
                proof {
                    assert forall|j: int| 0 <= j < i + 1 implies next.succeeds_like(*(#[trigger] relays@[j])) by {
                        if j < i {
                            lemma_succeeds_transitive(*next, *best, *relays@[j]);
                        }
                    }
                }
                best = next;
                at = i;
            } else {
                proof {
                    lemma_succeeds_total(*next, *best);
                }
            }
            i += 1;
        }
        Some(best)
    }

    /// What is known of a peer.
    pub fn get(&self, peer_id: &PeerId) -> (r: Option<&SuperNodeInfo>)
        requires
            self.wf(),
        ensures
            r is Some <==> self@.contains_key(peer_id.0),
            r matches Some(i) ==> *i == self@[peer_id.0],
    {
        self.nodes.get(&peer_id.0)
    }

    /// Watches a peer no longer.
    pub fn remove(&mut self, peer_id: &PeerId) -> (r: Option<SuperNodeInfo>)
        requires
            old(self).wf(),
        ensures
            final(self).wf(),
            final(self).rules() == old(self).rules(),
            final(self).limit() == old(self).limit(),
            final(self)@ == old(self)@.remove(peer_id.0),
            r is Some <==> old(self)@.contains_key(peer_id.0),
            r matches Some(i) ==> i == old(self)@[peer_id.0],
    {
        self.nodes.remove(&peer_id.0)
    }

    /// The regular peer with the fewest successes.
    fn weakest(&self) -> (r: Option<Key>)
        requires
            self.wf(),
        ensures
            match r {
                Some(k) => {
                    &&& self@.contains_key(k)
                    &&& self@[k].tier is Regular
                    &&& forall|j: Key| #[trigger] self@.contains_key(j) && self@[j].tier is Regular ==> self@[k].total_successes
                        <= self@[j].total_successes
                },
                None => forall|j: Key| #[trigger] self@.contains_key(j) ==> !(self@[j].tier is Regular),
            },
    {
        let n: usize = self.nodes.len();
        let ghost order = self.nodes.order();
        let mut best: Option<(Key, u64)> = None;
        let mut i: usize = 0;
        while i < n
            invariant
                i <= n,
                self.wf(),
                order == self.nodes.order(),
                n == order.len(),
                match best {
                    Some(b) => {
                        &&& self.nodes@.contains_key(b.0)
                        &&& self.nodes@[b.0].tier is Regular
                        &&& self.nodes@[b.0].total_successes == b.1
                        &&& forall|j: int| 0 <= j < i && self.nodes@[#[trigger] order[j]].tier is Regular ==> b.1 <= self.nodes@[order[j]].total_successes
                    },
                    None => forall|j: int| 0 <= j < i ==> !(self.nodes@[#[trigger] order[j]].tier is Regular),
                },
            decreases n - i,
        {
            let info = self.nodes.value_at(i);
            let key = self.nodes.key_at(i);
            if matches!(info.tier, SuperNodeTier::Regular) {
                match best {
                    Some(b) => {
                        if info.total_successes < b.1 {
                            best = Some((key, info.total_successes));
                        }
                    },
                    None => {
                        best = Some((key, info.total_successes));
                    },
                }
            }
            i += 1;
        }
        proof {
            self.nodes.lemma_order();
            assert forall|k: Key| #[trigger] self.nodes@.contains_key(k) implies exists|j: int| 0 <= j < n && order[j] == k by {
                assert(order.contains(k));
            }
        }
        match best {
            Some(b) => Some(b.0),
            None => None,
        }
    }

    /// If too many peers are watched, drops regular ones, those with the fewest successes
    /// first, and tells how many.
    pub fn prune(&mut self) -> (r: usize)
        requires
            old(self).wf(),
        ensures
            final(self).wf(),
            final(self).rules() == old(self).rules(),
            final(self).limit() == old(self).limit(),
            final(self)@.dom().subset_of(old(self)@.dom()),
            forall|k: Key| #[trigger] final(self)@.contains_key(k) ==> final(self)@[k] == old(self)@[k],
            forall|k: Key, j: Key|
                #![trigger old(self)@.contains_key(k), final(self)@.contains_key(j)]
                old(self)@.contains_key(k) && !final(self)@.contains_key(k) ==> old(self)@[k].tier is Regular && (
                final(self)@.contains_key(j) && final(self)@[j].tier is Regular ==> old(self)@[k].total_successes
                    <= final(self)@[j].total_successes),
            forall|k: Key|
                #[trigger] old(self)@.contains_key(k) && !final(self)@.contains_key(k) ==> old(self)@[k].tier is Regular,
            r == old(self)@.len() - final(self)@.len(),
            old(self)@.len() <= old(self).limit() ==> r == 0,
            old(self)@.len() > old(self).limit() ==> r <= old(self)@.len() - old(self).limit() && (r == old(self)@.len()
                - old(self).limit() || forall|k: Key| #[trigger] final(self)@.contains_key(k) ==> !(final(self)@[k].tier is Regular)),
    {
        let watched: usize = self.nodes.len();
        if watched <= self.max_tracked {
            return 0;
        }
        let excess: usize = watched - self.max_tracked;
        let ghost m = self.nodes@;
        let mut pruned: usize = 0;
        while pruned < excess
            invariant
                pruned <= excess,
                self.wf(),
                self.criteria == old(self).criteria,
                self.max_tracked == old(self).max_tracked,
                m == old(self)@,
                m.len() == watched,
                self.nodes@.len() == m.len() - pruned,
                self.nodes@.dom().finite(),
                self.nodes@.dom().subset_of(m.dom()),
                forall|k: Key| #[trigger] self.nodes@.contains_key(k) ==> self.nodes@[k] == m[k],
                forall|k: Key| #[trigger] m.contains_key(k) && !self.nodes@.contains_key(k) ==> m[k].tier is Regular,
                forall|k: Key, j: Key|
                    #![trigger m.contains_key(k), self.nodes@.contains_key(j)]
                    m.contains_key(k) && !self.nodes@.contains_key(k) && self.nodes@.contains_key(j) && self.nodes@[j].tier is Regular
                        ==> m[k].total_successes <= self.nodes@[j].total_successes,
            ensures
                pruned <= excess,
                self.wf(),
                self.criteria == old(self).criteria,
                self.max_tracked == old(self).max_tracked,
                self.nodes@.len() == m.len() - pruned,
                self.nodes@.dom().subset_of(m.dom()),
                forall|k: Key| #[trigger] self.nodes@.contains_key(k) ==> self.nodes@[k] == m[k],
                forall|k: Key| #[trigger] m.contains_key(k) && !self.nodes@.contains_key(k) ==> m[k].tier is Regular,
                forall|k: Key, j: Key|
                    #![trigger m.contains_key(k), self.nodes@.contains_key(j)]
                    m.contains_key(k) && !self.nodes@.contains_key(k) && self.nodes@.contains_key(j) && self.nodes@[j].tier is Regular
                        ==> m[k].total_successes <= self.nodes@[j].total_successes,
                pruned == excess || forall|k: Key| #[trigger] self.nodes@.contains_key(k) ==> !(self.nodes@[k].tier is Regular),
            decreases excess - pruned,
        {
            match self.weakest() {
                Some(key) => {
                    let ghost was = self.nodes@;
                    let _ = self.nodes.remove(&key);
                    assert(self.nodes@ == was.remove(key));
                    assert(self.nodes@.dom() =~= was.dom().remove(key));
                    pruned = pruned + 1;
                },
                None => {
                    break;
                },
            }
        }
        pruned
    }

    /// Counts the peers of each tier.
    pub fn stats(&self) -> (r: SuperNodeStats)
        requires
            self.wf(),
        ensures
            r.total_tracked == self@.len(),
            r.regular == in_tier(self.listing(), SuperNodeTier::Regular),
            r.candidate == in_tier(self.listing(), SuperNodeTier::Candidate),
            r.supernode == in_tier(self.listing(), SuperNodeTier::SuperNode),
            r.elite == in_tier(self.listing(), SuperNodeTier::Elite),
    {
        let mut regular: usize = 0;
        let mut candidate: usize = 0;
        let mut supernode: usize = 0;
        let mut elite: usize = 0;
        let n: usize = self.nodes.len();
        let ghost s = self.listing();
        let mut i: usize = 0;
        assert(s.take(0) =~= Seq::empty());
        while i < n
            invariant
                i <= n,
                self.wf(),
                s == self.listing(),
                n == self.nodes.order().len(),
                regular + candidate + supernode + elite == i,
                regular == in_tier(s.take(i as int), SuperNodeTier::Regular),
                candidate == in_tier(s.take(i as int), SuperNodeTier::Candidate),
                supernode == in_tier(s.take(i as int), SuperNodeTier::SuperNode),
                elite == in_tier(s.take(i as int), SuperNodeTier::Elite),
            decreases n - i,
        {
            let info = self.nodes.value_at(i);
            assert(s.take(i + 1).drop_last() =~= s.take(i as int));
            assert(s.take(i + 1).last() == *info);
            match info.tier {
                SuperNodeTier::Regular => {
                    regular = regular + 1;
                },
                SuperNodeTier::Candidate => {
                    candidate = candidate + 1;
                },
                SuperNodeTier::SuperNode => {
                    supernode = supernode + 1;
                },
                SuperNodeTier::Elite => {
                    elite = elite + 1;
                },
            }
            i += 1;
        }
        assert(s.take(i as int) =~= s);
        SuperNodeStats { total_tracked: n, regular, candidate, supernode, elite }
    }

    /// The listing holds each peer that is watched once.
    pub proof fn lemma_listing(self)
        requires
            self.wf(),
        ensures
            self@.dom().finite(),
            forall|k: Key| #[trigger] self@.contains_key(k) ==> self@[k].peer_id.0 == k,
            self.listing().len() == self@.len(),
            forall|k: Key| #[trigger] self@.contains_key(k) ==> self.listing().contains(self@[k]),
            forall|i: int| 0 <= i < self.listing().len() ==> self@.contains_key((#[trigger] self.listing()[i]).peer_id.0)
                && self@[self.listing()[i].peer_id.0] == self.listing()[i],
            forall|i: int, j: int| 0 <= i < j < self.listing().len() ==> (#[trigger] self.listing()[i]).peer_id != (#[trigger] self.listing()[j]).peer_id,
    {
        self.nodes.lemma_order();
        let order = self.nodes.order();
        let s = self.listing();
        assert forall|k: Key| #[trigger] self@.contains_key(k) implies s.contains(self@[k]) by {
            assert(order.contains(k));
            let j = choose|j: int| 0 <= j < order.len() && order[j] == k;
            assert(s[j] == self@[k]);
        }
        assert forall|i: int| 0 <= i < s.len() implies self@.contains_key((#[trigger] s[i]).peer_id.0) && self@[s[i].peer_id.0] == s[i] by {
            assert(self.nodes@.contains_key(order[i]));
        }
        assert forall|i: int, j: int| 0 <= i < j < s.len() implies (#[trigger] s[i]).peer_id != (#[trigger] s[j]).peer_id by {
            assert(self.nodes@.contains_key(order[i]));
            assert(self.nodes@.contains_key(order[j]));
            assert(order[i] != order[j]);
        }
    }
}

/// The list holds what is wanted of the first `n` slots.
spec fn listed_upto(m: Map<Key, SuperNodeInfo>, order: Seq<Key>, n: int, r: Seq<&SuperNodeInfo>, wanted: spec_fn(SuperNodeInfo) -> bool) -> bool {
    &&& forall|i: int| 0 <= i < r.len() ==> m.contains_key((#[trigger] r[i]).peer_id.0) && m[r[i].peer_id.0] == *r[i] && wanted(*r[i])
    &&& forall|i: int| 0 <= i < r.len() ==> exists|j: int| 0 <= j < n && #[trigger] order[j] == (#[trigger] r[i]).peer_id.0
    &&& forall|i: int, j: int| 0 <= i < j < r.len() ==> (#[trigger] r[i]).peer_id != (#[trigger] r[j]).peer_id
    &&& forall|j: int| 0 <= j < n && wanted(m[#[trigger] order[j]]) ==> exists|i: int| 0 <= i < r.len() && *(#[trigger] r[i]) == m[order[j]]
}

proof fn lemma_listed_step(
    m: Map<Key, SuperNodeInfo>,
    order: Seq<Key>,
    n: int,
    r: Seq<&SuperNodeInfo>,
    info: &SuperNodeInfo,
    t: Seq<&SuperNodeInfo>,
    wanted: spec_fn(SuperNodeInfo) -> bool,
)
    requires
        listed_upto(m, order, n, r, wanted),
        0 <= n < order.len(),
        order.no_duplicates(),
        m.contains_key(order[n]),
        m[order[n]] == *info,
        info.peer_id.0 == order[n],
        wanted(*info) ==> t == r.push(info),
        !wanted(*info) ==> t == r,
    ensures
        listed_upto(m, order, n + 1, t, wanted),
{
    assert forall|i: int| 0 <= i < t.len() implies exists|j: int| 0 <= j < n + 1 && #[trigger] order[j] == (#[trigger] t[i]).peer_id.0 by {
        if i < r.len() {
            let j = choose|j: int| 0 <= j < n && #[trigger] order[j] == r[i].peer_id.0;
            assert(order[j] == t[i].peer_id.0);
        } else {
            assert(order[n] == t[i].peer_id.0);
        }
    }
    assert forall|i: int, j: int| 0 <= i < j < t.len() implies (#[trigger] t[i]).peer_id != (#[trigger] t[j]).peer_id by {
        if j == r.len() {
            let k = choose|k: int| 0 <= k < n && #[trigger] order[k] == r[i].peer_id.0;
            assert(order[k] != order[n]);
        } else {
            assert(r[i].peer_id != r[j].peer_id);
        }
    }
    assert forall|j: int| 0 <= j < n + 1 && wanted(m[#[trigger] order[j]]) implies exists|i: int| 0 <= i < t.len() && *(#[trigger] t[i]) == m[order[j]] by {
        if j < n {
            let i = choose|i: int| 0 <= i < r.len() && *(#[trigger] r[i]) == m[order[j]];
            assert(*t[i] == m[order[j]]);
        } else {
            assert(*t[r.len() as int] == m[order[j]]);
        }
    }
}

proof fn lemma_listed_all(m: Map<Key, SuperNodeInfo>, order: Seq<Key>, r: Seq<&SuperNodeInfo>, wanted: spec_fn(SuperNodeInfo) -> bool)
    requires
        listed_upto(m, order, order.len() as int, r, wanted),
        forall|k: Key| #[trigger] m.contains_key(k) ==> order.contains(k),
    ensures
        lists(m, r, wanted),
{
    assert forall|k: Key| #[trigger] m.contains_key(k) && wanted(m[k]) implies exists|i: int| 0 <= i < r.len() && *(#[trigger] r[i]) == m[k] by {
        assert(order.contains(k));
        let j = choose|j: int| 0 <= j < order.len() && order[j] == k;
        assert(wanted(m[order[j]]));
    }
}

proof fn lemma_succeeds_transitive(a: SuperNodeInfo, b: SuperNodeInfo, c: SuperNodeInfo)
    requires
        a.succeeds_like(b),
        b.succeeds_like(c),
    ensures
        a.succeeds_like(c),
{
    let (sa, ta) = (a.total_successes as int, a.total());
    let (sb, tb) = (b.total_successes as int, b.total());
    let (sc, tc) = (c.total_successes as int, c.total());
    if ta > 0 && tb > 0 && tc > 0 {
        assert(sa * tc >= sc * ta) by (nonlinear_arith)
            requires
                sa * tb >= sb * ta,
                sb * tc >= sc * tb,
                ta > 0,
                tb > 0,
                tc > 0,
                sa >= 0,
                sb >= 0,
                sc >= 0,
        {
            assert((sa * tb) * tc >= (sb * ta) * tc);
            assert((sb * tc) * ta >= (sc * tb) * ta);
            assert((sa * tc) * tb >= (sc * ta) * tb);
        }
    } else if ta > 0 && tb == 0 && tc > 0 {
        assert(sc == 0);
        assert(sa * tc >= 0) by (nonlinear_arith)
            requires
                sa >= 0,
                tc > 0,
        ;
    } else if ta == 0 && tb > 0 && tc > 0 {
        assert(sb == 0);
        assert(sc == 0) by (nonlinear_arith)
            requires
                sb * tc >= sc * tb,
                sb == 0,
                tb > 0,
                sc >= 0,
        ;
    }
}

proof fn lemma_succeeds_total(a: SuperNodeInfo, b: SuperNodeInfo)
    requires
        !a.succeeds_like(b),
    ensures
        b.succeeds_like(a),
{
}

/// How many peers are watched, and in which tiers.
#[derive(Debug, Clone)]
pub struct SuperNodeStats {
    pub total_tracked: usize,
    pub regular: usize,
    pub candidate: usize,
    pub supernode: usize,
    pub elite: usize,
}

impl SuperNodeStats {
    pub open spec fn description(self) -> Seq<char> {
        "SuperNodes["@ + dec(self.total_tracked as nat) + " tracked: "@ + dec(self.regular as nat) + " regular, "@ + dec(
            self.candidate as nat,
        ) + " candidate, "@ + dec(self.supernode as nat) + " super, "@ + dec(self.elite as nat) + " elite]"@
    }

    pub fn to_string(&self) -> (r: String)
        ensures
            r@ == self.description(),
    {
        let mut out: String = String::new();
        out.append("SuperNodes[");
        push_dec(&mut out, self.total_tracked as u128);
        out.append(" tracked: ");
        push_dec(&mut out, self.regular as u128);
        out.append(" regular, ");
        push_dec(&mut out, self.candidate as u128);
        out.append(" candidate, ");
        push_dec(&mut out, self.supernode as u128);
        out.append(" super, ");
        push_dec(&mut out, self.elite as u128);
        out.append(" elite]");
        assert(out@ =~= self.description());
        out
    }
}

/// Judging twice at one time changes nothing more: the first judgement stands.
pub proof fn law_judging_is_stable(info: SuperNodeInfo, c: PromotionCriteria, now: Instant)
    ensures
        judged(judged(info, c, now), c, now) == judged(info, c, now),
{
}

/// The time of the first promotion stays, however often the peer falls and rises again.
pub proof fn law_first_promotion_stays(info: SuperNodeInfo, c: PromotionCriteria, now: Instant)
    ensures
        info.promoted_at is Some ==> judged(info, c, now).promoted_at == info.promoted_at,
        info.promoted_at is None && info.tier is Regular && !(judged(info, c, now).tier is Regular) ==> judged(info, c, now).promoted_at
            == Some(now),
        info.promoted_at is None && judged(info, c, now).tier is Regular ==> judged(info, c, now).promoted_at is None,
{
}

/// Whoever fails too often is regular, once there are more than ten queries to go by.
pub proof fn law_failures_demote(info: SuperNodeInfo, c: PromotionCriteria, now: Instant)
    requires
        !info.succeeds(c.min_success_rate),
        info.total() > 10,
    ensures
        judged(info, c, now).tier is Regular,
{
}

/// Only peers with the required share of successes and the required speed relay.
pub proof fn law_relays_are_reliable(info: SuperNodeInfo, c: PromotionCriteria, now: Instant)
    requires
        judged(info, c, now).tier.relays(),
    ensures
        info.succeeds(c.min_success_rate),
        info.avg_latency.order <= c.max_avg_latency.order,
        info.total_successes >= c.min_successes || info.total_successes >= c.elite_min_successes,
{
}

/// What each tier takes: for the highest and the second, the age, the share of answers, their
/// number and the speed; for the third, the age and the share alone, unless more than ten
/// answers were too slow. Everyone else is regular.
pub proof fn law_tiers_are_earned(info: SuperNodeInfo, c: PromotionCriteria, now: Instant)
    requires
        info.tracked_since.nanos <= now.nanos,
    ensures
        ({
            let tier = deserved_tier(info, c, now);
            let age = now.nanos - info.tracked_since.nanos;
            let all = info.total_successes + info.total_failures;
            let enough = if all == 0 {
                c.min_success_rate.num == 0
            } else {
                info.total_successes * c.min_success_rate.den >= c.min_success_rate.num * all
            };
            let quick = info.avg_latency.order <= c.max_avg_latency.order;
            let elite = age >= c.elite_uptime.nanos && enough && info.total_successes >= c.elite_min_successes && quick;
            let second = age >= c.supernode_uptime.nanos && enough && info.total_successes >= c.min_successes && quick;
            let third = age >= c.candidate_uptime.nanos && enough && (quick || info.total_successes <= 10);
            &&& tier == SuperNodeTier::Elite <==> elite
            &&& tier == SuperNodeTier::SuperNode <==> second && !elite
            &&& tier == SuperNodeTier::Candidate <==> third && !second && !elite
            &&& tier == SuperNodeTier::Regular <==> !third && !second && !elite
        }),
{
}

/// How high a tier is.
pub open spec fn height(t: SuperNodeTier) -> int {
    match t {
        SuperNodeTier::Regular => 0,
        SuperNodeTier::Candidate => 1,
        SuperNodeTier::SuperNode => 2,
        SuperNodeTier::Elite => 3,
    }
}

/// Time alone never demotes.
pub proof fn law_time_does_not_demote(info: SuperNodeInfo, c: PromotionCriteria, now: Instant, later: Instant)
    requires
        now.nanos <= later.nanos,
    ensures
        height(deserved_tier(info, c, now)) <= height(deserved_tier(info, c, later)),
{
}

/// Judging changes the tier, when that changes, and the times of the change and of the first
/// promotion; nothing else.
pub proof fn law_judging_changes_the_tier_alone(info: SuperNodeInfo, c: PromotionCriteria, now: Instant)
    ensures
        judged(info, c, now).tier == deserved_tier(info, c, now),
        judged(info, c, now).tier == info.tier ==> judged(info, c, now) == info,
        judged(info, c, now).tier != info.tier ==> judged(info, c, now).tier_since == now,
        judged(info, c, now) == (SuperNodeInfo {
            tier: judged(info, c, now).tier,
            tier_since: judged(info, c, now).tier_since,
            promoted_at: judged(info, c, now).promoted_at,
            ..info
        }),
{
}

/// The two upper tiers relay, the two lower do not.
pub proof fn law_upper_tiers_relay(t: SuperNodeTier)
    ensures
        t.relays() <==> t == SuperNodeTier::SuperNode || t == SuperNodeTier::Elite,
        t.relays() <==> height(t) >= 2,
{
}

/// A query is counted as a success or as a failure, never as both; the address is the latest,
/// and the average changes with an answer whose time is known alone.
pub proof fn law_queries_are_counted(info: SuperNodeInfo, addr: SocketAddr, success: bool, avg: Option<Latency>)
    requires
        info.total_successes < u64::MAX,
        info.total_failures < u64::MAX,
    ensures
        after_query(info, addr, success, avg).total_successes == info.total_successes + (if success { 1int } else { 0int }),
        after_query(info, addr, success, avg).total_failures == info.total_failures + (if success { 0int } else { 1int }),
        after_query(info, addr, success, avg).addr == addr,
        after_query(info, addr, success, avg).avg_latency == (if success && avg is Some { avg->0 } else { info.avg_latency }),
        after_query(info, addr, success, avg).tier == info.tier,
        after_query(info, addr, success, avg).tier_since == info.tier_since,
        after_query(info, addr, success, avg).promoted_at == info.promoted_at,
        after_query(info, addr, success, avg).tracked_since == info.tracked_since,
        after_query(info, addr, success, avg).bytes_relayed == info.bytes_relayed,
        after_query(info, addr, success, avg).peer_id == info.peer_id,
        after_query(info, addr, success, avg).total() == info.total() + 1,
{
}

/// A new peer is regular, without queries, and is watched from now on.
pub proof fn law_new_node_is_regular(peer_id: PeerId, addr: SocketAddr, now: Instant)
    ensures
        ({
            let n = SuperNodeInfo::spec_new(peer_id, addr, now);
            &&& n.peer_id == peer_id && n.addr == addr && n.tier == SuperNodeTier::Regular && n.promoted_at is None
            &&& n.tier_since == now && n.tracked_since == now && n.total_successes == 0 && n.total_failures == 0
            &&& n.bytes_relayed == 0 && n.avg_latency.order == 0
        }),
{
}

/// A share of successes is held against another by their numbers: a better answered peer does at
/// least as well, of two peers one always does, and an answer more does no harm.
pub proof fn law_shares_are_compared(a: SuperNodeInfo, b: SuperNodeInfo, c: SuperNodeInfo, ratio: Ratio)
    ensures
        a.total_successes + a.total_failures > 0 && b.total_successes + b.total_failures > 0 ==> (a.succeeds_like(b)
            <==> a.total_successes * (b.total_successes + b.total_failures) >= b.total_successes * (a.total_successes
            + a.total_failures)),
        a.succeeds_like(b) || b.succeeds_like(a),
        a.succeeds_like(b) && b.succeeds_like(c) ==> a.succeeds_like(c),
        a.total_failures == 0 && a.total_successes > 0 ==> a.succeeds_like(b),
        a.total_successes + a.total_failures > 0 ==> (a.succeeds(ratio) <==> a.total_successes * ratio.den >= ratio.num * (
        a.total_successes + a.total_failures)),
        a.total_successes > 0 && a.total_failures == 0 && ratio.num <= ratio.den ==> a.succeeds(ratio),
{
    if !a.succeeds_like(b) {
        lemma_succeeds_total(a, b);
    }
    if a.succeeds_like(b) && b.succeeds_like(c) {
        lemma_succeeds_transitive(a, b, c);
    }
    if a.total_failures == 0 && a.total_successes > 0 {
        let (s, t, u) = (a.total_successes as int, b.total(), b.total_successes as int);
        assert(s * t >= u * s) by (nonlinear_arith)
            requires
                t >= u >= 0,
                s > 0,
        ;
        if ratio.num <= ratio.den {
            let (n, d) = (ratio.num as int, ratio.den as int);
            assert(s * d >= n * s) by (nonlinear_arith)
                requires
                    n <= d,
                    s > 0,
            ;
        }
    }
}

/// Every peer is counted in its tier.
pub proof fn law_every_node_is_counted(s: Seq<SuperNodeInfo>)
    ensures
        in_tier(s, SuperNodeTier::Regular) + in_tier(s, SuperNodeTier::Candidate) + in_tier(s, SuperNodeTier::SuperNode) + in_tier(
            s,
            SuperNodeTier::Elite,
        ) == s.len(),
    decreases s.len(),
{
    if s.len() > 0 {
        law_every_node_is_counted(s.drop_last());
    }
}

/// A list of what is wanted holds each of it once, and nothing else.
pub proof fn law_lists_are_complete(m: Map<Key, SuperNodeInfo>, r: Seq<&SuperNodeInfo>, wanted: spec_fn(SuperNodeInfo) -> bool, k: Key)
    requires
        lists(m, r, wanted),
        m.contains_key(k),
        m[k].peer_id.0 == k,
    ensures
        wanted(m[k]) <==> exists|i: int| 0 <= i < r.len() && (#[trigger] r[i]).peer_id.0 == k,
{
}

/// Judging tells of each node whose tier it changes, once, with the tier that it had and the one that
/// it gets, and of no other.
pub proof fn law_changes_are_told(
    m: Map<Key, SuperNodeInfo>,
    c: PromotionCriteria,
    now: Instant,
    r: Seq<TierChange>,
    k: Key,
    i: int,
    j: int,
)
    requires
        lists_changes(m, c, now, r),
    ensures
        m.contains_key(k) && m[k].tier != deserved_tier(m[k], c, now) ==> exists|n: int| 0 <= n < r.len() && (#[trigger] r[n]).0.0 == k,
        0 <= i < r.len() ==> m.contains_key(r[i].0.0) && r[i].1 == m[r[i].0.0].tier && r[i].2 == deserved_tier(m[r[i].0.0], c, now)
            && r[i].1 != r[i].2,
        0 <= i < r.len() && 0 <= j < r.len() && r[i].0 == r[j].0 ==> i == j,
{
    if 0 <= i < r.len() && 0 <= j < r.len() && i != j {
        assert(if i < j { r[i].0 != r[j].0 } else { r[j].0 != r[i].0 });
    }
}

/// What the tiers are called, from the lowest to the highest.
pub proof fn law_names_of_tiers(t: SuperNodeTier)
    ensures
        height(t) == 0 ==> t.name() == "Regular"@,
        height(t) == 1 ==> t.name() == "Candidate"@,
        height(t) == 2 ==> t.name() == "SuperNode"@,
        height(t) == 3 ==> t.name() == "Elite"@,
{
}

/// The figures of the nodes, in words.
pub proof fn law_description_of_the_nodes(s: SuperNodeStats)
    ensures
        s.description() == "SuperNodes["@ + dec(s.total_tracked as nat) + " tracked: "@ + dec(s.regular as nat) + " regular, "@ + dec(
            s.candidate as nat,
        ) + " candidate, "@ + dec(s.supernode as nat) + " super, "@ + dec(s.elite as nat) + " elite]"@,
{
}

/// Without a record a node counts as one that never succeeded.
pub proof fn law_no_record_counts_as_no_success(a: SuperNodeInfo, b: SuperNodeInfo, ratio: Ratio)
    requires
        a.total_successes == 0,
        a.total_failures == 0,
    ensures
        a.succeeds_like(b) <==> b.total_successes == 0,
        b.succeeds_like(a),
        a.succeeds(ratio) <==> ratio.num == 0,
{
}

/// A node counts in its own tier and in no other.
pub proof fn law_nodes_count_in_their_tier(s: Seq<SuperNodeInfo>, n: SuperNodeInfo, tier: SuperNodeTier)
    ensures
        in_tier(Seq::<SuperNodeInfo>::empty(), tier) == 0,
        tier == n.tier ==> in_tier(s.push(n), tier) == in_tier(s, tier) + 1,
        tier != n.tier ==> in_tier(s.push(n), tier) == in_tier(s, tier),
{
    assert(s.push(n).drop_last() =~= s);
}

/// When a node was promoted is noted as it leaves the lowest tier, and not between the others.
pub proof fn law_promotion_is_noted_at_the_start(info: SuperNodeInfo, c: PromotionCriteria, now: Instant)
    requires
        info.promoted_at is None,
    ensures
        judged(info, c, now).promoted_at is Some <==> info.tier == SuperNodeTier::Regular && judged(info, c, now).tier
            != SuperNodeTier::Regular,
        judged(info, c, now).promoted_at is Some ==> judged(info, c, now).promoted_at->0 == now,
{
}

/// An answer, or its failure, is put on the record of the node, which is tracked from then on; relayed
/// bytes are put on the record of a node that is tracked. No other node is concerned.
pub proof fn law_what_is_put_on_record(
    id: PeerId,
    addr: SocketAddr,
    success: bool,
    latency: Option<Latency>,
    now: Instant,
    bytes: u64,
    other: Key,
)
    requires
        other != id.0,
    ensures
        forall|m: &mut SuperNodeManager| #[trigger]
            call_ensures(SuperNodeManager::record_performance, (m, id, addr, success, latency, now), ()) ==> {
                let n = final(m)@[id.0];
                let before = if m@.contains_key(id.0) { (m@[id.0].total_successes, m@[id.0].total_failures) } else { (0u64, 0u64) };
                &&& final(m)@.contains_key(id.0) && n.addr == addr
                &&& before.0 < u64::MAX && before.1 < u64::MAX ==> n.total_successes == before.0 + (if success { 1int } else { 0int })
                    && n.total_failures == before.1 + (if success { 0int } else { 1int })
                &&& final(m)@.contains_key(other) == m@.contains_key(other) && final(m)@[other] == m@[other]
                &&& !m@.contains_key(id.0) ==> n.tier == SuperNodeTier::Regular && n.tracked_since == now && n.peer_id == id
            },
        forall|m: &mut SuperNodeManager| #[trigger]
            call_ensures(SuperNodeManager::record_relay, (m, &id, bytes), ()) ==> (if m@.contains_key(id.0) {
                &&& m@[id.0].bytes_relayed + bytes <= u64::MAX ==> final(m)@[id.0].bytes_relayed == m@[id.0].bytes_relayed + bytes
                &&& final(m)@[id.0].tier == m@[id.0].tier && final(m)@[id.0].total_successes == m@[id.0].total_successes
                &&& final(m)@.contains_key(other) == m@.contains_key(other) && final(m)@[other] == m@[other]
            } else {
                final(m)@ == m@
            }),
{
}

/// Who relays: the two upper tiers; who helps others to begin: the highest alone. The best relay is one
/// that succeeds at least as often as any other.
pub proof fn law_what_nodes_are_good_for(
    t: SuperNodeTier,
    relays: bool,
    bootstraps: bool,
    m: SuperNodeManager,
    best: Option<&SuperNodeInfo>,
    k: Key,
)
    requires
        call_ensures(SuperNodeTier::can_relay, (&t,), relays),
        call_ensures(SuperNodeTier::can_bootstrap, (&t,), bootstraps),
        call_ensures(SuperNodeManager::best_relay, (&m,), best),
        m@.contains_key(k),
        m@[k].tier == SuperNodeTier::SuperNode || m@[k].tier == SuperNodeTier::Elite,
    ensures
        relays <==> t == SuperNodeTier::SuperNode || t == SuperNodeTier::Elite,
        bootstraps <==> t == SuperNodeTier::Elite,
        best is Some,
        best->0.tier == SuperNodeTier::SuperNode || best->0.tier == SuperNodeTier::Elite,
        m@.contains_key(best->0.peer_id.0) && m@[best->0.peer_id.0] == *best->0,
        best->0.total_successes * (m@[k].total_successes + m@[k].total_failures) >= m@[k].total_successes * (best->0.total_successes
            + best->0.total_failures) || m@[k].total_successes + m@[k].total_failures == 0 || best->0.total_successes
            + best->0.total_failures == 0 && m@[k].total_successes == 0,
{
    assert(best->0.succeeds_like(m@[k]));
}

/// To prune takes away only nodes of the lowest tier that are above the number that is tracked, those
/// with the fewest successes; a node of a higher tier stays.
pub proof fn law_who_is_pruned(r: usize, k: Key, j: Key)
    ensures
        forall|m: &mut SuperNodeManager| #[trigger]
            call_ensures(SuperNodeManager::prune, (m,), r) && m@.contains_key(k) && m@[k].tier != SuperNodeTier::Regular
                ==> final(m)@.contains_key(k) && final(m)@[k] == m@[k],
        forall|m: &mut SuperNodeManager| #[trigger]
            call_ensures(SuperNodeManager::prune, (m,), r) && m@.contains_key(k) && !final(m)@.contains_key(k) && final(m)@.contains_key(j)
                && final(m)@[j].tier == SuperNodeTier::Regular ==> m@[k].total_successes <= final(m)@[j].total_successes,
        forall|m: &mut SuperNodeManager| #[trigger]
            call_ensures(SuperNodeManager::prune, (m,), r) && m@.len() <= m.limit() ==> r == 0,
        forall|m: &mut SuperNodeManager| #[trigger]
            call_ensures(SuperNodeManager::prune, (m,), r) && m@.len() > m.limit() && final(m)@.contains_key(k) && final(m)@[k].tier
                == SuperNodeTier::Regular ==> r == m@.len() - m.limit(),
{
}

/// A node is judged by its record; all nodes are judged at once, each by its own; and the lists by tier
/// hold the nodes of the tier.
pub proof fn law_nodes_are_judged(
    info: SuperNodeInfo,
    c: PromotionCriteria,
    now: Instant,
    tier: SuperNodeTier,
    changes: Vec<TierChange>,
    k: Key,
    m: SuperNodeManager,
    wanted: SuperNodeTier,
    list: Vec<&SuperNodeInfo>,
    relays: Vec<&SuperNodeInfo>,
)
    requires
        call_ensures(SuperNodeManager::evaluate_tier, (&info, &c, now), tier),
        call_ensures(SuperNodeManager::nodes_by_tier, (&m, wanted), list),
        call_ensures(SuperNodeManager::relay_capable, (&m,), relays),
        m@.contains_key(k),
        m@[k].peer_id.0 == k,
    ensures
        tier == deserved_tier(info, c, now),
        forall|x: &mut SuperNodeManager| #[trigger]
            call_ensures(SuperNodeManager::evaluate_all, (x, now), changes) && x@.contains_key(k) ==> final(x)@.contains_key(k)
                && final(x)@[k] == judged(x@[k], x.rules(), now) && (x@[k].tier != deserved_tier(x@[k], x.rules(), now) ==> exists|n: int|
                0 <= n < changes@.len() && (#[trigger] changes@[n]).0.0 == k),
        m@[k].tier == wanted <==> exists|i: int| 0 <= i < list@.len() && (#[trigger] list@[i]).peer_id.0 == k,
        (m@[k].tier == SuperNodeTier::SuperNode || m@[k].tier == SuperNodeTier::Elite) <==> exists|i: int|
            0 <= i < relays@.len() && (#[trigger] relays@[i]).peer_id.0 == k,
{
    law_lists_are_complete(m@, list@, |i: SuperNodeInfo| i.tier == wanted, k);
    law_lists_are_complete(m@, relays@, |i: SuperNodeInfo| i.tier.relays(), k);
    assert forall|x: &mut SuperNodeManager| #[trigger]
        call_ensures(SuperNodeManager::evaluate_all, (x, now), changes) && x@.contains_key(k) implies final(x)@.contains_key(k) by {
        assert(final(x)@.dom().contains(k) == x@.dom().contains(k));
    }
}

} // verus!

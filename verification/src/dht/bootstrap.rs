//! Getting into the network: contact seeds, look for ourselves, fill distant buckets.
use vstd::prelude::*;
use crate::crypto::identity::{bucket_from, bucket_of, high_bit, PeerId};
use crate::dht::operations::{names, with_peers, IterativeLookup, PeerEntry};
use crate::dht::routing::RoutingTable;
use crate::net::SocketAddr;
use crate::time::{Duration, Instant};


verus! {

/// How to get into the network.
#[derive(Debug, Clone)]
pub struct BootstrapConfig {
    /// The nodes to contact first.
    pub seed_nodes: Vec<SocketAddr>,
    /// How long to wait for each of them.
    pub probe_timeout: Duration,
    /// How many lookups fill distant buckets.
    pub random_lookups: usize,
    /// How often buckets are refreshed.
    pub refresh_interval: Duration,
}

impl Default for BootstrapConfig {
    fn default() -> (r: Self)
        ensures
            r.seed_nodes@ == Seq::<SocketAddr>::empty(),
            r.probe_timeout.nanos == 5_000_000_000,
            r.random_lookups == 3,
            r.refresh_interval.nanos == 3600_000_000_000,
    {
        let seed_nodes: Vec<SocketAddr> = Vec::new();
        assert(seed_nodes@ =~= Seq::<SocketAddr>::empty());
        BootstrapConfig {
            seed_nodes,
            probe_timeout: Duration::from_secs(5),
            random_lookups: 3,
            refresh_interval: Duration::from_secs(3600),
        }
    }
}

/// How far it has come.
#[derive(Debug, Clone, Copy, PartialEq, Eq, Structural)]
pub enum BootstrapState {
    Idle,
    ContactingSeeds,
    SelfLookup,
    BucketFill,
    Complete,
    Failed,
}

/// How it came out.
#[derive(Debug)]
pub struct BootstrapResult {
    pub state: BootstrapState,
    pub peers_discovered: usize,
    /// Left to the caller to fill in.
    pub seeds_responded: usize,
    pub seeds_attempted: usize,
}

/// The bytes of an identifier with one bit flipped, counted from the lowest bit of the
/// first byte, and with all bytes behind that one changed by `seed`.
pub open spec fn flipped(local: Seq<u8>, bucket: int, seed: u8) -> Seq<u8> {
    Seq::new(
        local.len(),
        |j: int|
            if j < bucket / 8 {
                local[j]
            } else if j == bucket / 8 {
                local[j] ^ (1u8 << ((bucket % 8) as u8))
            } else {
                local[j] ^ seed
            },
    )
}

/// The bucket that the lookup `i` of `n` is for.
pub open spec fn fill_bucket(i: int, n: int) -> int {
    (i * 256) / n
}

/// What the lookup `i` changes the low bytes by.
pub open spec fn fill_seed(i: int) -> u8 {
    (((i % 256) * 0x9E + 0x37) % 256) as u8
}

fn flip(local: &PeerId, bucket: usize, seed: u8) -> (r: PeerId)
    requires
        bucket < 256,
    ensures
        r@ == flipped(local@, bucket as int, seed),
{
    let byte: usize = bucket / 8;
    let bit: u8 = (bucket % 8) as u8;
    let mut out: [u8; 32] = local.0;
    let mut j: usize = byte + 1;
    out[byte] = local.0[byte] ^ (1u8 << bit);
    while j < 32
        invariant
            byte == bucket / 8,
            byte < 32,
            byte < j <= 32,
            out@[byte as int] == local@[byte as int] ^ (1u8 << bit),
            forall|k: int| 0 <= k < byte ==> out@[k] == local@[k],
            forall|k: int| byte < k < j ==> out@[k] == local@[k] ^ seed,
            forall|k: int| j <= k < 32 ==> out@[k] == local@[k],
        decreases 32 - j,
    {
        out[j] = local.0[j] ^ seed;
        j += 1;
    }
    let r = PeerId(out);
    assert(r@ =~= flipped(local@, bucket as int, seed));
    r
}

/// The bootstrap of a node.
pub struct BootstrapManager {
    config: BootstrapConfig,
    state: BootstrapState,
}

impl BootstrapManager {
    pub closed spec fn configuration(self) -> BootstrapConfig {
        self.config
    }

    pub closed spec fn stage(self) -> BootstrapState {
        self.state
    }

    pub fn new(config: BootstrapConfig) -> (r: Self)
        ensures
            r.configuration() == config,
            r.stage() is Idle,
    {
        BootstrapManager { config, state: BootstrapState::Idle }
    }

    /// With the given seeds and the usual settings.
    pub fn with_seeds(seeds: Vec<SocketAddr>) -> (r: Self)
        ensures
            r.configuration() == (BootstrapConfig {
                seed_nodes: seeds,
                probe_timeout: Duration { nanos: 5_000_000_000 },
                random_lookups: 3,
                refresh_interval: Duration { nanos: 3600_000_000_000 },
            }),
            r.stage() is Idle,
    {
        let mut config = BootstrapConfig::default();
        config.seed_nodes = seeds;
        Self::new(config)
    }

    pub fn state(&self) -> (r: BootstrapState)
        ensures
            r == self.stage(),
    {
        self.state
    }

    pub fn seed_addrs(&self) -> (r: &[SocketAddr])
        ensures
            r@ == self.configuration().seed_nodes@,
    {
        self.config.seed_nodes.as_slice()
    }

    /// The lookup for ourselves, which finds the peers nearby.
    pub fn prepare_self_lookup(&mut self, local_id: &PeerId, known_peers: Vec<PeerEntry>) -> (r: IterativeLookup)
        ensures
            final(self).stage() is SelfLookup,
            final(self).configuration() == old(self).configuration(),
            r.wf(),
            r.goal() == *local_id,
            r.known() == with_peers(Seq::empty(), *local_id, names(known_peers@)),
            r.asked() == Seq::<PeerId>::empty(),
            r.rounds() == 0,
            !r.done(),
    {
        self.state = BootstrapState::SelfLookup;
        IterativeLookup::new(*local_id, known_peers)
    }

    /// Targets of lookups that fill distant buckets, spread evenly over all buckets.
    pub fn generate_bucket_fill_targets(&self, local_id: &PeerId) -> (r: Vec<PeerId>)
        ensures
            r@.len() == self.configuration().random_lookups,
            forall|i: int|
                0 <= i < r@.len() ==> (#[trigger] r@[i])@ == flipped(
                    local_id@,
                    fill_bucket(i, r@.len() as int),
                    fill_seed(i),
                ),
    {
        let n: usize = self.config.random_lookups;
        let mut targets: Vec<PeerId> = Vec::new();
        let mut i: usize = 0;
        while i < n
            invariant
                i <= n,
                n == self.config.random_lookups,
                targets@.len() == i,
                forall|k: int|
                    0 <= k < i ==> (#[trigger] targets@[k])@ == flipped(local_id@, fill_bucket(k, n as int), fill_seed(k)),
            decreases n - i,
        {
            assert(0 <= fill_bucket(i as int, n as int) < 256) by (nonlinear_arith)
                requires
                    0 <= i < n,
            ;
            let bucket: usize = ((i as u128 * 256) / (n as u128)) as usize;
            let seed: u8 = (((i % 256) as u16 * 0x9E + 0x37) % 256) as u8;
            targets.push(flip(local_id, bucket, seed));
            i += 1;
        }
        targets
    }

    /// The seeds were contacted.
    pub fn seeds_contacted(&mut self, responded: usize, total: usize)
        ensures
            final(self).stage() is ContactingSeeds,
            final(self).configuration() == old(self).configuration(),
    {
        self.state = BootstrapState::ContactingSeeds;
    }

    /// On to the distant buckets.
    pub fn begin_bucket_fill(&mut self)
        ensures
            final(self).stage() is BucketFill,
            final(self).configuration() == old(self).configuration(),
    {
        self.state = BootstrapState::BucketFill;
    }

    /// The end: a failure if no peer was found.
    pub fn complete(&mut self, routing_table: &RoutingTable) -> (r: BootstrapResult)
        requires
            routing_table.wf(),
        ensures
            r == (BootstrapResult {
                state: if routing_table.peers().len() > 0 {
                    BootstrapState::Complete
                } else {
                    BootstrapState::Failed
                },
                peers_discovered: routing_table.peers().len() as usize,
                seeds_responded: 0,
                seeds_attempted: old(self).configuration().seed_nodes@.len() as usize,
            }),
            final(self).stage() == r.state,
            final(self).configuration() == old(self).configuration(),
    {
        let peers_discovered: usize = routing_table.total_peers();
        self.state = if peers_discovered > 0 {
            BootstrapState::Complete
        } else {
            BootstrapState::Failed
        };
        BootstrapResult {
            state: self.state,
            peers_discovered,
            seeds_responded: 0,
            seeds_attempted: self.config.seed_nodes.len(),
        }
    }

    /// Targets of lookups that refresh the buckets that were not refreshed for too long:
    /// for each of them, ourselves with its bit flipped.
    pub fn stale_bucket_targets(&self, local_id: &PeerId, routing_table: &RoutingTable, now: Instant) -> (r: Vec<PeerId>)
        requires
            routing_table.wf(),
        ensures
            exists|stale: Seq<usize>| #[trigger]
                are_stale(*routing_table, stale, self.configuration().refresh_interval, now) && refresh_targets(
                    *local_id,
                    stale,
                    r@,
                ),
    {
        let stale = routing_table.stale_buckets(self.config.refresh_interval, now);
        let mut targets: Vec<PeerId> = Vec::new();
        let mut i: usize = 0;
        while i < stale.len()
            invariant
                i <= stale@.len(),
                targets@.len() == i,
                forall|b: usize| #[trigger] stale@.contains(b) <==> routing_table.stale(b, self.config.refresh_interval, now),
                forall|k: int| 0 <= k < i ==> (#[trigger] targets@[k])@ == flipped(local_id@, stale@[k] as int, 0),
            decreases stale@.len() - i,
        {
            assert(stale@.contains(stale@[i as int]));
            targets.push(flip(local_id, stale[i], 0));
            i += 1;
        }
        assert(are_stale(*routing_table, stale@, self.configuration().refresh_interval, now));
        assert(refresh_targets(*local_id, stale@, targets@));
        targets
    }

    pub fn refresh_interval(&self) -> (r: Duration)
        ensures
            r == self.configuration().refresh_interval,
    {
        self.config.refresh_interval
    }
}

/// For each bucket, the local identifier with its bit flipped.
pub open spec fn refresh_targets(local: PeerId, buckets: Seq<usize>, targets: Seq<PeerId>) -> bool {
    &&& targets.len() == buckets.len()
    &&& forall|i: int| 0 <= i < targets.len() ==> (#[trigger] targets[i])@ == flipped(local@, buckets[i] as int, 0)
}

/// These are the stale buckets, in ascending order.
pub open spec fn are_stale(table: RoutingTable, stale: Seq<usize>, max_age: Duration, now: Instant) -> bool {
    &&& forall|i: int, j: int| 0 <= i < j < stale.len() ==> stale[i] < stale[j]
    &&& forall|b: usize| #[trigger] stale.contains(b) <==> table.stale(b, max_age, now)
}

proof fn lemma_high_bit_of_single(k: u8)
    requires
        k < 8,
    ensures
        high_bit(1u8 << k) == k,
{
    assert(1u8 << 0u8 == 1 && 1u8 << 1u8 == 2 && 1u8 << 2u8 == 4 && 1u8 << 3u8 == 8 && 1u8 << 4u8 == 16 && 1u8 << 5u8 == 32
        && 1u8 << 6u8 == 64 && 1u8 << 7u8 == 128) by (bit_vector);
    reveal_with_fuel(high_bit, 9);
}

proof fn lemma_bucket_at(a: Seq<u8>, b: Seq<u8>, i: int, k: int)
    requires
        0 <= i <= k < 32,
        forall|j: int| 0 <= j < k ==> a[j] == b[j],
        a[k] != b[k],
    ensures
        bucket_from(a, b, i) == Some((k * 8 + high_bit(a[k] ^ b[k])) as nat),
    decreases k - i,
{
    if i < k {
        lemma_bucket_at(a, b, i + 1, k);
    }
}

/// A target for a bucket lies in that bucket, so it is never the local identifier itself.
pub proof fn law_target_lies_in_its_bucket(local: PeerId, target: PeerId, bucket: int, seed: u8)
    requires
        0 <= bucket < 256,
        target@ == flipped(local@, bucket, seed),
    ensures
        bucket_of(local, target) == Some(bucket as nat),
        target != local,
{
    let k = bucket / 8;
    let bit = (bucket % 8) as u8;
    let x = local@[k];
    let y = target@[k];
    assert(y == x ^ (1u8 << bit));
    assert(x ^ (x ^ (1u8 << bit)) == (1u8 << bit)) by (bit_vector);
    assert(x ^ (1u8 << bit) != x) by (bit_vector)
        requires
            bit < 8,
    ;
    lemma_high_bit_of_single(bit);
    lemma_bucket_at(local@, target@, 0, k);
}

/// The targets of a bootstrap are spread over all buckets: the first at the beginning, each at
/// its share of the way.
pub proof fn law_targets_are_spread(i: int, n: int)
    requires
        0 <= i < n,
    ensures
        0 <= fill_bucket(i, n) < 256,
        fill_bucket(0, n) == 0,
        fill_bucket(i, n) * n <= i * 256 < (fill_bucket(i, n) + 1) * n,
        fill_bucket(i, n) <= fill_bucket(i + 1, n),
{
    let q = fill_bucket(i, n);
    let r = fill_bucket(i + 1, n);
    assert(0 <= q < 256 && q * n <= i * 256 < (q + 1) * n) by (nonlinear_arith)
        requires
            q == (i * 256) / n,
            0 <= i < n,
    ;
    assert(q <= r) by (nonlinear_arith)
        requires
            q == (i * 256) / n,
            r == ((i + 1) * 256) / n,
            0 <= i < n,
    ;
    assert(0int / n == 0) by (nonlinear_arith)
        requires
            n > 0,
    ;
}

/// A target agrees with our identifier up to the byte of its bucket, differs in it by one bit,
/// and is mixed with the seed behind it. With the seed zero it differs in that bit alone.
pub proof fn law_target_differs_from_its_bucket_on(local: PeerId, bucket: int, seed: u8, j: int)
    requires
        0 <= bucket < 256,
        0 <= j < 32,
    ensures
        flipped(local@, bucket, seed).len() == 32,
        j < bucket / 8 ==> flipped(local@, bucket, seed)[j] == local@[j],
        j > bucket / 8 ==> flipped(local@, bucket, seed)[j] == local@[j] ^ seed,
        j > bucket / 8 && seed == 0 ==> flipped(local@, bucket, seed)[j] == local@[j],
        j == bucket / 8 && bucket % 8 == 0 ==> flipped(local@, bucket, seed)[j] == local@[j] ^ 1,
        j == bucket / 8 && bucket % 8 == 7 ==> flipped(local@, bucket, seed)[j] == local@[j] ^ 128,
{
    let x = local@[j];
    assert(x ^ 0u8 == x) by (bit_vector);
    assert(1u8 << 0u8 == 1u8 && 1u8 << 7u8 == 128u8) by (bit_vector);
}

/// The seeds of the targets: the first is 0x37, and each is 0x9E more than the one before it, as
/// a byte.
#[verifier::spinoff_prover]
pub proof fn law_seeds_of_targets(i: int)
    requires
        0 <= i,
    ensures
        fill_seed(0) == 0x37,
        fill_seed(i + 1) == (fill_seed(i) + 0x9E) % 256,
{
    let a = i % 256;
    let b = (i + 1) % 256;
    assert(b == a + 1 || (a == 255 && b == 0));
    let x = a * 0x9E + 0x37;
    let q = x / 256;
    let r = x % 256;
    assert(x == 256 * q + r);
    if b == a + 1 {
        let y = b * 0x9E + 0x37;
        assert(y == 256 * q + (r + 0x9E));
        assert(y % 256 == (r + 0x9E) % 256) by (nonlinear_arith)
            requires
                y == 256 * q + (r + 0x9E),
        ;
    } else {
        assert(x == 40345);
        assert(r == 153);
    }
}

/// To refresh, there is a target in each stale bucket and in no other, in ascending order.
pub proof fn law_stale_buckets_are_refreshed(
    table: RoutingTable,
    local: PeerId,
    stale: Seq<usize>,
    targets: Seq<PeerId>,
    max_age: Duration,
    now: Instant,
    i: int,
)
    requires
        are_stale(table, stale, max_age, now),
        refresh_targets(local, stale, targets),
        0 <= i < targets.len(),
    ensures
        targets.len() == stale.len(),
        bucket_of(local, targets[i]) == Some(stale[i] as nat),
        stale[i] < 256,
        table@[stale[i] as int].peers@.len() > 0,
        now.nanos - table@[stale[i] as int].last_refresh.nanos > max_age.nanos,
        i > 0 ==> stale[i - 1] < stale[i],
{
    assert(stale.contains(stale[i]));
    law_target_lies_in_its_bucket(local, targets[i], stale[i] as int, 0);
}

/// No stale bucket is left out.
pub proof fn law_every_stale_bucket_has_a_target(
    table: RoutingTable,
    local: PeerId,
    stale: Seq<usize>,
    targets: Seq<PeerId>,
    max_age: Duration,
    now: Instant,
    b: usize,
)
    requires
        are_stale(table, stale, max_age, now),
        refresh_targets(local, stale, targets),
        b < 256,
        table@[b as int].peers@.len() > 0,
        now.nanos - table@[b as int].last_refresh.nanos > max_age.nanos,
    ensures
        exists|i: int| 0 <= i < targets.len() && bucket_of(local, #[trigger] targets[i]) == Some(b as nat),
{
    assert(table.stale(b, max_age, now));
    assert(stale.contains(b));
    let i = choose|i: int| 0 <= i < stale.len() && stale[i] == b;
    law_target_lies_in_its_bucket(local, targets[i], b as int, 0);
}

/// The targets that fill the table lie in buckets that are spread over it; those that refresh it lie in
/// the buckets that are stale. It is complete if anybody was found, and else has failed.
pub proof fn law_what_bootstrapping_does(
    m: BootstrapManager,
    local: PeerId,
    fill: Vec<PeerId>,
    table: RoutingTable,
    now: Instant,
    refresh: Vec<PeerId>,
    r: BootstrapResult,
    i: int,
    b: usize,
)
    requires
        call_ensures(BootstrapManager::generate_bucket_fill_targets, (&m, &local), fill),
        call_ensures(BootstrapManager::stale_bucket_targets, (&m, &local, &table, now), refresh),
    ensures
        fill@.len() == m.configuration().random_lookups,
        0 <= i < fill@.len() ==> bucket_of(local, fill@[i]) == Some(((i * 256) / fill@.len() as int) as nat),
        b < 256 && table@[b as int].peers@.len() > 0 && now.nanos - table@[b as int].last_refresh.nanos
            > m.configuration().refresh_interval.nanos ==> exists|k: int|
            0 <= k < refresh@.len() && bucket_of(local, #[trigger] refresh@[k]) == Some(b as nat),
        forall|x: &mut BootstrapManager| #[trigger]
            call_ensures(BootstrapManager::complete, (x, &table), r) ==> r.state == (if table.peers().len() > 0 {
                BootstrapState::Complete
            } else {
                BootstrapState::Failed
            }) && final(x).stage() == r.state && r.seeds_attempted == x.configuration().seed_nodes@.len() as usize,
{
    if 0 <= i < fill@.len() {
        law_targets_are_spread(i, fill@.len() as int);
        law_target_lies_in_its_bucket(local, fill@[i], fill_bucket(i, fill@.len() as int), fill_seed(i));
    }
    let stale = choose|stale: Seq<usize>| #[trigger]
        are_stale(table, stale, m.configuration().refresh_interval, now) && refresh_targets(local, stale, refresh@);
    if b < 256 && table@[b as int].peers@.len() > 0 && now.nanos - table@[b as int].last_refresh.nanos
        > m.configuration().refresh_interval.nanos {
        law_every_stale_bucket_has_a_target(table, local, stale, refresh@, m.configuration().refresh_interval, now, b);
    }
}

} // verus!

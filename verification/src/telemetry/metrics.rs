//! The figures.
use vstd::prelude::*;
use crate::text::hex_bytes;
use crate::transfer::manager::TransferLine;
use crate::transport::pool::PoolStats;

verus! {

/// How far a transfer has come.
#[derive(Debug)]
pub struct TransferProgress {
    /// The number of the transfer, in hexadecimal.
    pub transfer_id: String,
    pub file_name: String,
    pub total_chunks: u32,
    pub completed_chunks: u32,
    pub is_sending: bool,
}

impl Clone for TransferProgress {
    fn clone(&self) -> (r: Self)
        ensures
            r.same(*self),
    {
        TransferProgress {
            transfer_id: self.transfer_id.clone(),
            file_name: self.file_name.clone(),
            total_chunks: self.total_chunks,
            completed_chunks: self.completed_chunks,
            is_sending: self.is_sending,
        }
    }
}

/// `hex::encode`: two lower-case hexadecimal digits for each byte.
#[verifier::external_body]
fn hex_encode_bytes(bytes: &[u8]) -> (r: String)
    ensures
        r@ == hex_bytes(bytes@),
{
    hex::encode(bytes)
}

impl TransferProgress {
    /// The same progress.
    pub open spec fn same(self, o: TransferProgress) -> bool {
        &&& self.transfer_id@ == o.transfer_id@
        &&& self.file_name@ == o.file_name@
        &&& self.total_chunks == o.total_chunks
        &&& self.completed_chunks == o.completed_chunks
        &&& self.is_sending == o.is_sending
    }

    /// This is the progress that a line tells of.
    pub open spec fn tells(self, l: TransferLine) -> bool {
        &&& self.transfer_id@ == hex_bytes(l.0@)
        &&& self.file_name == l.1
        &&& self.total_chunks == l.2
        &&& self.completed_chunks == l.3
        &&& self.is_sending == l.4
    }

    pub fn from_line(line: TransferLine) -> (r: Self)
        ensures
            r.tells(line),
    {
        TransferProgress {
            transfer_id: hex_encode_bytes(line.0.0.as_slice()),
            file_name: line.1,
            total_chunks: line.2,
            completed_chunks: line.3,
            is_sending: line.4,
        }
    }
}

/// The figures about a node.
#[derive(Debug)]
pub struct GlobalMetrics {
    pub tx_bytes: usize,
    pub rx_bytes: usize,
    /// Bytes that were sent since the last update.
    pub tx_rate: usize,
    /// Bytes that were received since the last update.
    pub rx_rate: usize,
    pub active_tcp_connections: usize,
    pub dht_active_peers: usize,
    pub dht_total_peers: usize,
    pub transfers: Vec<TransferProgress>,
}

impl Default for GlobalMetrics {
    fn default() -> (r: Self)
        ensures
            r.tx_bytes == 0 && r.rx_bytes == 0 && r.tx_rate == 0 && r.rx_rate == 0,
            r.active_tcp_connections == 0 && r.dht_active_peers == 0 && r.dht_total_peers == 0,
            r.transfers@.len() == 0,
    {
        Self::new()
    }
}


/// The growth from one figure to the next; none where it has shrunk.
pub open spec fn growth(before: usize, after: usize) -> usize {
    if after >= before {
        (after - before) as usize
    } else {
        0
    }
}

fn growth_of(before: usize, after: usize) -> (r: usize)
    ensures
        r == growth(before, after),
{
    if after >= before {
        after - before
    } else {
        0
    }
}

/// A total as a figure, as far as a machine word goes.
pub open spec fn figure(n: u64) -> usize {
    (n as int % (usize::MAX + 1)) as usize
}

fn figure_of(n: u64) -> (r: usize)
    ensures
        r == figure(n),
{
    (n as u128 % (usize::MAX as u128 + 1)) as usize
}

impl GlobalMetrics {
    pub fn new() -> (r: Self)
        ensures
            r.tx_bytes == 0 && r.rx_bytes == 0 && r.tx_rate == 0 && r.rx_rate == 0,
            r.active_tcp_connections == 0 && r.dht_active_peers == 0 && r.dht_total_peers == 0,
            r.transfers@.len() == 0,
    {
        GlobalMetrics {
            tx_bytes: 0,
            rx_bytes: 0,
            tx_rate: 0,
            rx_rate: 0,
            active_tcp_connections: 0,
            dht_active_peers: 0,
            dht_total_peers: 0,
            transfers: Vec::new(),
        }
    }

    /// Takes over the figures of the pool and the transfers, once a second.
    pub fn update(&mut self, stats: &PoolStats, lines: Vec<TransferLine>)
        ensures
            final(self).active_tcp_connections == stats.active,
            final(self).tx_bytes == figure(stats.total_bytes_sent),
            final(self).rx_bytes == figure(stats.total_bytes_recv),
            final(self).tx_rate == growth(old(self).tx_bytes, figure(stats.total_bytes_sent)),
            final(self).rx_rate == growth(old(self).rx_bytes, figure(stats.total_bytes_recv)),
            final(self).dht_active_peers == old(self).dht_active_peers,
            final(self).dht_total_peers == old(self).dht_total_peers,
            final(self).transfers@.len() == lines@.len(),
            forall|i: int| 0 <= i < lines@.len() ==> (#[trigger] final(self).transfers@[i]).tells(lines@[i]),
    {
        self.active_tcp_connections = stats.active;
        let tx: usize = figure_of(stats.total_bytes_sent);
        let rx: usize = figure_of(stats.total_bytes_recv);
        self.tx_rate = growth_of(self.tx_bytes, tx);
        self.rx_rate = growth_of(self.rx_bytes, rx);
        self.tx_bytes = tx;
        self.rx_bytes = rx;
        let ghost all = lines@;
        let mut left = lines;
        let mut reversed: Vec<TransferProgress> = Vec::new();
        while left.len() > 0
            invariant
                left@.len() + reversed@.len() == all.len(),
                left@ == all.take(left@.len() as int),
                forall|i: int|
                    0 <= i < reversed@.len() ==> (#[trigger] reversed@[i]).tells(all[all.len() - 1 - i]),
            decreases left@.len(),
        {
            let ghost n = left@.len() as int;
            match left.pop() {
                Some(l) => {
                    assert(l == all[n - 1]);
                    assert(left@ =~= all.take(n - 1));
                    reversed.push(TransferProgress::from_line(l));
                },
                None => {},
            }
        }
        let ghost back = reversed@;
        let mut out: Vec<TransferProgress> = Vec::new();
        while reversed.len() > 0
            invariant
                back.len() == all.len(),
                reversed@.len() + out@.len() == all.len(),
                reversed@ == back.take(reversed@.len() as int),
                forall|i: int| 0 <= i < back.len() ==> (#[trigger] back[i]).tells(all[all.len() - 1 - i]),
                forall|i: int| 0 <= i < out@.len() ==> (#[trigger] out@[i]).tells(all[i]),
            decreases reversed@.len(),
        {
            let ghost n = reversed@.len() as int;
            match reversed.pop() {
                Some(t) => {
                    assert(t == back[n - 1]);
                    assert(reversed@ =~= back.take(n - 1));
                    out.push(t);
                },
                None => {},
            }
        }
        self.transfers = out;
    }
}

/// A rate is what a count has grown by, and zero if it has not. A count is shown as it is, as far as
/// the machine's numbers go.
pub proof fn law_rates_are_growth(before: usize, after: usize, n: u64)
    ensures
        after >= before ==> before + growth(before, after) == after,
        after < before ==> growth(before, after) == 0,
        n <= usize::MAX ==> figure(n) == n,
{
    if n <= usize::MAX {
        vstd::arithmetic::div_mod::lemma_small_mod(n as nat, (usize::MAX + 1) as nat);
    }
}

/// Progress tells of a transfer as it is, and a copy of it the same.
pub proof fn law_progress_tells_of_a_transfer(p: TransferProgress, l: TransferLine, q: TransferProgress)
    requires
        p.tells(l),
        q.same(p),
    ensures
        q.transfer_id@ == hex_bytes(l.0@),
        q.file_name@ == l.1@,
        q.total_chunks == l.2,
        q.completed_chunks == l.3,
        q.is_sending == l.4,
{
}

/// The figures are taken over, and the rates are what they have grown by since the last time.
pub proof fn law_figures_are_taken_over(stats: PoolStats, lines: Vec<TransferLine>, i: int)
    ensures
        forall|m: &mut GlobalMetrics| #[trigger]
            call_ensures(GlobalMetrics::update, (m, &stats, lines), ()) && stats.total_bytes_sent <= usize::MAX && stats.total_bytes_recv
                <= usize::MAX ==> final(m).tx_bytes == stats.total_bytes_sent && final(m).rx_bytes == stats.total_bytes_recv && (
            stats.total_bytes_sent >= m.tx_bytes ==> final(m).tx_rate == stats.total_bytes_sent - m.tx_bytes) && (stats.total_bytes_recv
                >= m.rx_bytes ==> final(m).rx_rate == stats.total_bytes_recv - m.rx_bytes) && final(m).active_tcp_connections
                == stats.active && final(m).transfers@.len() == lines@.len(),
        forall|m: &mut GlobalMetrics| #[trigger]
            call_ensures(GlobalMetrics::update, (m, &stats, lines), ()) && 0 <= i < lines@.len() ==> final(m).transfers@[i].completed_chunks
                == lines@[i].3 && final(m).transfers@[i].total_chunks == lines@[i].2 && final(m).transfers@[i].is_sending == lines@[i].4,
{
    law_rates_are_growth(0, 0, stats.total_bytes_sent);
    law_rates_are_growth(0, 0, stats.total_bytes_recv);
    assert forall|m: &mut GlobalMetrics| #[trigger] call_ensures(GlobalMetrics::update, (m, &stats, lines), ()) && 0 <= i
        < lines@.len() implies final(m).transfers@[i].completed_chunks == lines@[i].3 && final(m).transfers@[i].total_chunks == lines@[i].2
        && final(m).transfers@[i].is_sending == lines@[i].4 by {
        assert(final(m).transfers@[i].tells(lines@[i]));
    }
}

} // verus!

//! What the screen keeps: the last log lines and the history of the traffic.
use vstd::prelude::*;
use crate::telemetry::logger::LogMessage;

verus! {

/// How many log lines are kept.
pub const MAX_LOGS: usize = 100;

/// How many figures a history holds.
pub const HISTORY: usize = 100;

/// The last lines of a log, as many as are kept.
pub open spec fn last_logs(s: Seq<LogMessage>) -> Seq<LogMessage> {
    if s.len() > MAX_LOGS {
        s.skip(s.len() - MAX_LOGS)
    } else {
        s
    }
}

/// A history after another figure: the oldest falls out.
pub open spec fn shifted(h: Seq<u64>, n: u64) -> Seq<u64> {
    h.skip(1).push(n)
}

/// The state of the screen.
#[derive(Debug)]
pub struct TuiApp {
    pub logs: Vec<LogMessage>,
    pub tx_history: Vec<u64>,
    pub rx_history: Vec<u64>,
}

impl TuiApp {
    /// No more log lines than are kept, and full histories.
    pub open spec fn wf(self) -> bool {
        &&& self.logs@.len() <= MAX_LOGS
        &&& self.tx_history@.len() == HISTORY
        &&& self.rx_history@.len() == HISTORY
    }

    pub fn new() -> (r: Self)
        ensures
            r.wf(),
            r.logs@.len() == 0,
            forall|i: int| 0 <= i < HISTORY ==> r.tx_history@[i] == 0 && r.rx_history@[i] == 0,
    {
        let mut tx_history: Vec<u64> = Vec::new();
        let mut rx_history: Vec<u64> = Vec::new();
        let mut i: usize = 0;
        while i < HISTORY
            invariant
                i <= HISTORY,
                tx_history@.len() == i,
                rx_history@.len() == i,
                forall|j: int| 0 <= j < i ==> tx_history@[j] == 0 && rx_history@[j] == 0,
            decreases HISTORY - i,
        {
            tx_history.push(0);
            rx_history.push(0);
            i += 1;
        }
        TuiApp { logs: Vec::new(), tx_history, rx_history }
    }

    /// A log line has come.
    pub fn push_log(&mut self, log: LogMessage)
        requires
            old(self).wf(),
        ensures
            final(self).wf(),
            final(self).logs@ == last_logs(old(self).logs@.push(log)),
            final(self).tx_history == old(self).tx_history,
            final(self).rx_history == old(self).rx_history,
    {
        self.logs.push(log);
        if self.logs.len() > MAX_LOGS {
            let _ = self.logs.remove(0);
        }
        assert(self.logs@ =~= last_logs(old(self).logs@.push(log)));
    }

    /// The time has come to take in the present rates. (The log lines that have come since
    /// the last time are taken in one by one before.)
    pub fn on_tick(&mut self, tx_rate: u64, rx_rate: u64)
        requires
            old(self).wf(),
        ensures
            final(self).wf(),
            final(self).logs == old(self).logs,
            final(self).tx_history@ == shifted(old(self).tx_history@, tx_rate),
            final(self).rx_history@ == shifted(old(self).rx_history@, rx_rate),
    {
        let _ = self.tx_history.remove(0);
        self.tx_history.push(tx_rate);
        let _ = self.rx_history.remove(0);
        self.rx_history.push(rx_rate);
        assert(self.tx_history@ =~= shifted(old(self).tx_history@, tx_rate));
        assert(self.rx_history@ =~= shifted(old(self).rx_history@, rx_rate));
    }
}

/// Whether a key ends the program: `q`, or control and `c`.
pub fn is_quit_key(key: char, control: bool) -> (r: bool)
    ensures
        r == (key == 'q' || key == 'Q' || (key == 'c' && control)),
{
    key == 'q' || key == 'Q' || (key == 'c' && control)
}

/// A message that is logged stands last. Those before it stay in their order, until there are a
/// hundred; then the oldest goes for each that comes.
pub proof fn law_logs_are_bounded(logs: Seq<LogMessage>, log: LogMessage, i: int)
    requires
        logs.len() <= 100,
    ensures
        last_logs(logs.push(log)).last() == log,
        logs.len() < 100 ==> last_logs(logs.push(log)) == logs.push(log),
        logs.len() == 100 ==> last_logs(logs.push(log)).len() == 100,
        logs.len() == 100 && 0 <= i < 99 ==> last_logs(logs.push(log))[i] == logs[i + 1],
{
}

/// A rate that is noted stands last among a hundred, and the oldest goes.
pub proof fn law_rates_move_on(h: Seq<u64>, n: u64, i: int)
    requires
        h.len() == 100,
    ensures
        shifted(h, n).len() == 100,
        shifted(h, n)[99] == n,
        0 <= i < 99 ==> shifted(h, n)[i] == h[i + 1],
        HISTORY == 100,
{
}

/// The keys that end it: a q, small or capital, and c with control.
pub proof fn law_keys_that_end_it(key: char, control: bool, r: bool)
    requires
        call_ensures(is_quit_key, (key, control), r),
    ensures
        key == 'q' || key == 'Q' ==> r,
        key == 'c' ==> (r <==> control),
        r ==> key == 'q' || key == 'Q' || key == 'c',
{
}

/// A message that is logged stands last; a tick notes both rates. Neither touches the other.
pub proof fn law_what_the_display_keeps(log: LogMessage, tx: u64, rx: u64)
    ensures
        forall|a: &mut TuiApp| #[trigger]
            call_ensures(TuiApp::push_log, (a, log), ()) && a.logs@.len() < 100 ==> final(a).logs@ == a.logs@.push(log)
                && final(a).tx_history == a.tx_history && final(a).rx_history == a.rx_history,
        forall|a: &mut TuiApp| #[trigger]
            call_ensures(TuiApp::push_log, (a, log), ()) && a.logs@.len() == 100 ==> final(a).logs@ == a.logs@.skip(1).push(log),
        forall|a: &mut TuiApp| #[trigger]
            call_ensures(TuiApp::on_tick, (a, tx, rx), ()) ==> final(a).tx_history@ == a.tx_history@.skip(1).push(tx)
                && final(a).rx_history@ == a.rx_history@.skip(1).push(rx) && final(a).logs == a.logs,
{
    assert forall|a: &mut TuiApp| #[trigger] call_ensures(TuiApp::push_log, (a, log), ()) && a.logs@.len() == 100 implies final(a).logs@
        == a.logs@.skip(1).push(log) by {
        assert(a.logs@.push(log).skip(1) =~= a.logs@.skip(1).push(log));
    }
}

} // verus!

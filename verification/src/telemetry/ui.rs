//! What the screen shows.
use vstd::prelude::*;
use vstd::string::*;
use crate::telemetry::logger::{same_text, LogMessage};
use crate::telemetry::metrics::TransferProgress;
use crate::text::{dec, push_dec};

verus! {

/// How much of a transfer is done, in percent.
pub open spec fn percent(t: TransferProgress) -> int {
    if t.total_chunks == 0 {
        0
    } else {
        (t.completed_chunks * 100) / (t.total_chunks as int)
    }
}

/// The line about a transfer.
pub open spec fn transfer_text(t: TransferProgress) -> Seq<char> {
    "["@ + (if t.is_sending { "Tx"@ } else { "Rx"@ }) + "] "@ + t.file_name@ + " - "@ + dec(percent(t) as nat) + "% ("@ + dec(
        t.completed_chunks as nat,
    ) + "/"@ + dec(t.total_chunks as nat) + ")"@
}

/// The line about a transfer.
pub fn transfer_line(t: &TransferProgress) -> (r: String)
    ensures
        r@ == transfer_text(*t),
{
    let p: u64 = if t.total_chunks == 0 {
        0
    } else {
        (t.completed_chunks as u64 * 100) / (t.total_chunks as u64)
    };
    let mut out: String = String::new();
    out.append("[");
    if t.is_sending {
        out.append("Tx");
    } else {
        out.append("Rx");
    }
    out.append("] ");
    out.append(t.file_name.as_str());
    out.append(" - ");
    push_dec(&mut out, p as u128);
    out.append("% (");
    push_dec(&mut out, t.completed_chunks as u128);
    out.append("/");
    push_dec(&mut out, t.total_chunks as u128);
    out.append(")");
    assert(out@ =~= transfer_text(*t));
    out
}

/// The colours of log levels.
#[derive(Debug, Clone, Copy, PartialEq, Eq, Structural)]
pub enum LogColor {
    Red,
    Yellow,
    White,
    DarkGray,
}

/// The colour of a log level.
pub fn level_color(level: &str) -> (r: LogColor)
    ensures
        r == (if level@ == "ERROR"@ {
            LogColor::Red
        } else if level@ == "WARN"@ {
            LogColor::Yellow
        } else if level@ == "DEBUG"@ {
            LogColor::DarkGray
        } else {
            LogColor::White
        }),
{
    if same_text(level, "ERROR") {
        LogColor::Red
    } else if same_text(level, "WARN") {
        LogColor::Yellow
    } else if same_text(level, "DEBUG") {
        LogColor::DarkGray
    } else {
        LogColor::White
    }
}

/// The log lines that fit in a box of the given height, the newest first: where they stand
/// in the log.
pub fn visible_logs(logs: &Vec<LogMessage>, height: u16) -> (r: Vec<usize>)
    requires
        height >= 2,
    ensures
        r@.len() == (if logs@.len() < height - 2 { logs@.len() as int } else { height - 2 }),
        forall|i: int| 0 <= i < r@.len() ==> #[trigger] r@[i] == logs@.len() - 1 - i,
{
    let room: usize = (height - 2) as usize;
    let mut out: Vec<usize> = Vec::new();
    let mut i: usize = 0;
    while i < logs.len() && i < room
        invariant
            i <= logs@.len(),
            i <= room,
            room == height - 2,
            out@.len() == i,
            forall|j: int| 0 <= j < i ==> #[trigger] out@[j] == logs@.len() - 1 - j,
        decreases logs@.len() - i,
    {
        out.push(logs.len() - 1 - i);
        i += 1;
    }
    out
}

/// The percentage that is shown is the share of the chunks that are done, rounded down; all are a
/// hundred, and of none it is none.
pub proof fn law_share_that_is_done(t: TransferProgress)
    ensures
        t.total_chunks == 0 ==> percent(t) == 0,
        t.total_chunks > 0 ==> percent(t) * t.total_chunks <= 100 * t.completed_chunks < (percent(t) + 1) * t.total_chunks,
        t.total_chunks > 0 && t.completed_chunks == t.total_chunks ==> percent(t) == 100,
{
    if t.total_chunks > 0 {
        let (p, c, n) = (percent(t), t.completed_chunks as int, t.total_chunks as int);
        assert(p * n <= 100 * c < (p + 1) * n && (c == n ==> p == 100)) by (nonlinear_arith)
            requires
                p == (c * 100) / n,
                n > 0,
        ;
    }
}

/// A line about a transfer says which way it goes, what its file is, and how far it is.
pub proof fn law_line_of_a_transfer(t: TransferProgress)
    ensures
        t.is_sending ==> transfer_text(t) == "["@ + "Tx"@ + "] "@ + t.file_name@ + " - "@ + dec(percent(t) as nat) + "% ("@ + dec(
            t.completed_chunks as nat,
        ) + "/"@ + dec(t.total_chunks as nat) + ")"@,
        !t.is_sending ==> transfer_text(t) == "["@ + "Rx"@ + "] "@ + t.file_name@ + " - "@ + dec(percent(t) as nat) + "% ("@ + dec(
            t.completed_chunks as nat,
        ) + "/"@ + dec(t.total_chunks as nat) + ")"@,
{
}

/// The newest messages are shown, as many as the window holds within its frame, the newest first.
pub proof fn law_newest_are_shown(logs: Vec<LogMessage>, height: u16, r: Vec<usize>, i: int)
    requires
        height >= 2,
        call_ensures(visible_logs, (&logs, height), r),
    ensures
        r@.len() <= height - 2 && r@.len() <= logs@.len(),
        r@.len() == height - 2 || r@.len() == logs@.len(),
        r@.len() > 0 ==> r@[0] == logs@.len() - 1,
        0 < i < r@.len() ==> r@[i] + 1 == r@[i - 1],
{
}

/// Errors are red, warnings yellow, details gray, and all else white.
pub proof fn law_colors_of_levels(level: &str, c: LogColor)
    requires
        call_ensures(level_color, (level,), c),
    ensures
        level@ == "ERROR"@ <==> c is Red,
        c is Yellow ==> level@ == "WARN"@,
        c is DarkGray ==> level@ == "DEBUG"@,
        level@ == "WARN"@ ==> c is Yellow,
        level@ == "DEBUG"@ ==> c is DarkGray,
        level@ == "INFO"@ ==> c is White,
{
    reveal_strlit("ERROR");
    reveal_strlit("WARN");
    reveal_strlit("DEBUG");
    reveal_strlit("INFO");
    assert("ERROR"@.len() == 5 && "WARN"@.len() == 4 && "DEBUG"@.len() == 5 && "INFO"@.len() == 4);
    assert("ERROR"@[0] == 'E' && "DEBUG"@[0] == 'D' && "WARN"@[0] == 'W' && "INFO"@[0] == 'I');
}

/// What is shown of a transfer is its line.
pub proof fn law_line_that_is_shown(t: TransferProgress, r: String)
    requires
        call_ensures(transfer_line, (&t,), r),
    ensures
        r@ == "["@ + (if t.is_sending { "Tx"@ } else { "Rx"@ }) + "] "@ + t.file_name@ + " - "@ + dec(percent(t) as nat) + "% ("@ + dec(
            t.completed_chunks as nat,
        ) + "/"@ + dec(t.total_chunks as nat) + ")"@,
{
}

} // verus!

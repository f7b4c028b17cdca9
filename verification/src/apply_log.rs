//! The log of bindings.

use vstd::prelude::*;

use crate::number;

verus! {

/// The name of the log file.
pub const LOG_NAME: &'static str = "apply.log";

/// A log of more bytes than this is moved away before the next line.
pub const LOG_LIMIT: u64 = 1_048_576;

/// The number of earlier logs that are kept.
pub const LOG_BACKUPS: u64 = 3;

/// A time of day to the millisecond.
#[derive(Clone, Copy, Debug, PartialEq, Eq)]
pub struct LogTime {
    pub hour: u64,
    pub minute: u64,
    pub second: u64,
    pub millisecond: u64,
}

/// A time of day as text.
pub open spec fn time_text(t: LogTime) -> Seq<char> {
    number::zero_padded(number::decimal(t.hour as nat), 2) + ":"@ + number::zero_padded(
        number::decimal(t.minute as nat),
        2,
    ) + ":"@ + number::zero_padded(number::decimal(t.second as nat), 2) + "."@
        + number::zero_padded(number::decimal(t.millisecond as nat), 3)
}

/// A line of the log.
pub open spec fn line_text(
    t: LogTime,
    tid: i32,
    comm: Seq<char>,
    pkg: Seq<char>,
    cpus: Seq<char>,
    is_thread_rule: bool,
) -> Seq<char> {
    "["@ + time_text(t) + "] tid="@ + number::signed_decimal(tid as int) + " comm="@ + comm
        + " pkg="@ + pkg + " cpus="@ + cpus + (if is_thread_rule {
        " thread\n"@
    } else {
        " package\n"@
    })
}

/// Writes a line of the log.
pub fn log_apply(
    t: LogTime,
    tid: i32,
    comm: &str,
    pkg: &str,
    cpus: &str,
    is_thread_rule: bool,
) -> (r: String)
    ensures
        r@ == line_text(t, tid, comm@, pkg@, cpus@, is_thread_rule),
{
    let mut time = String::new();
    number::push_two_digits(&mut time, t.hour);
    time.append(":");
    number::push_two_digits(&mut time, t.minute);
    time.append(":");
    number::push_two_digits(&mut time, t.second);
    time.append(".");
    number::push_three_digits(&mut time, t.millisecond);
    assert(time@ =~= time_text(t));
    let mut line = String::new();
    line.append("[");
    line.append(time.as_str());
    line.append("] tid=");
    number::push_signed_decimal(&mut line, tid as i64);
    line.append(" comm=");
    line.append(comm);
    line.append(" pkg=");
    line.append(pkg);
    line.append(" cpus=");
    line.append(cpus);
    if is_thread_rule {
        line.append(" thread\n");
    } else {
        line.append(" package\n");
    }
    assert(line@ =~= line_text(t, tid, comm@, pkg@, cpus@, is_thread_rule));
    line
}

/// The name of the log, if `n` is 0, or of the earlier log number `n`.
pub open spec fn log_name_text(n: nat) -> Seq<char> {
    if n == 0 {
        "apply.log"@
    } else {
        "apply.log."@ + number::decimal(n)
    }
}

/// Writes the name of a log.
pub fn log_name(n: u64) -> (r: String)
    ensures
        r@ == log_name_text(n as nat),
{
    if n == 0 {
        LOG_NAME.to_owned()
    } else {
        let mut name = String::new();
        name.append("apply.log.");
        number::push_decimal(&mut name, n);
        assert(name@ =~= log_name_text(n as nat));
        name
    }
}

/// The logs that are moved before the next line is written, in the order in which
/// each is moved to the next number: none unless the log is too long.
pub open spec fn moved_logs(len: u64) -> Seq<u64> {
    if len > LOG_LIMIT {
        seq![2u64, 1u64, 0u64]
    } else {
        Seq::empty()
    }
}

/// Lists the logs that are to be moved to the next number. `len` is how long the
/// log is.
pub fn rotate_log(len: u64) -> (r: Vec<u64>)
    ensures
        r@ == moved_logs(len),
{
    let mut moves: Vec<u64> = Vec::new();
    if len > LOG_LIMIT {
        moves.push(2);
        moves.push(1);
        moves.push(0);
    }
    assert(moves@ =~= moved_logs(len));
    moves
}

/// The logs after one is moved to the next number, where it replaces what was
/// there. There may be none to move.
pub open spec fn move_log(logs: Map<u64, Seq<char>>, n: u64) -> Map<u64, Seq<char>> {
    if logs.contains_key(n) {
        logs.insert((n + 1) as u64, logs[n]).remove(n)
    } else {
        logs
    }
}

/// The logs after several are moved.
pub open spec fn move_logs(logs: Map<u64, Seq<char>>, moves: Seq<u64>) -> Map<u64, Seq<char>>
    decreases moves.len(),
{
    if moves.len() == 0 {
        logs
    } else {
        move_log(move_logs(logs, moves.drop_last()), moves.last())
    }
}

/// A log that is too long starts anew, and what it and the earlier logs held, but
/// for the last, is held by the next number each.
pub proof fn law_rotation_keeps_three(logs: Map<u64, Seq<char>>, len: u64, n: u64)
    requires
        len > LOG_LIMIT,
        n < LOG_BACKUPS,
        logs.contains_key(n),
    ensures
        ({
            let after = move_logs(logs, moved_logs(len));
            &&& !after.contains_key(0)
            &&& after.contains_key((n + 1) as u64)
            &&& after[(n + 1) as u64] == logs[n]
            &&& forall|k: u64| k > LOG_BACKUPS ==> after.contains_key(k) == #[trigger] logs.contains_key(k)
        }),
{
    let moves = moved_logs(len);
    assert(moves.drop_last() =~= seq![2u64, 1u64]);
    assert(moves.drop_last().drop_last() =~= seq![2u64]);
    assert(moves.drop_last().drop_last().drop_last() =~= Seq::<u64>::empty());
    let a = move_logs(logs, moves.drop_last().drop_last().drop_last());
    assert(a == logs);
    let b = move_logs(logs, moves.drop_last().drop_last());
    assert(b == move_log(a, 2));
    let c = move_logs(logs, moves.drop_last());
    assert(c == move_log(b, 1));
    let d = move_logs(logs, moves);
    assert(d == move_log(c, 0));
}

/// A log that is not too long stays, and so do the earlier ones.
pub proof fn law_short_log_stays(logs: Map<u64, Seq<char>>, len: u64)
    requires
        len <= LOG_LIMIT,
    ensures
        move_logs(logs, moved_logs(len)) == logs,
{
}

} // verus!

//! Processes, as the kernel writes them down.

use vstd::prelude::*;
use vstd::string::*;

use crate::scan::{
    after_last, first_after, last_at, line_after, lines, parse_i64, parse_u64, parse_unsigned,
    signed_of, texts, trim, trim_end, trimmed, trimmed_end, unsigned_of, words, words_of,
};
use crate::text::{chars_of, string_of};

verus! {

/// One observed process.
#[derive(Debug, PartialEq, Eq)]
pub struct ProcInfo {
    pub pid: u32,
    pub uid: u32,
    /// The kernel's short name.
    pub comm: String,
    /// Start time in clock ticks since boot.
    pub starttime_ticks: u64,
}

impl Clone for ProcInfo {
    fn clone(&self) -> (r: Self)
        ensures
            r == *self,
    {
        ProcInfo {
            pid: self.pid,
            uid: self.uid,
            comm: self.comm.clone(),
            starttime_ticks: self.starttime_ticks,
        }
    }
}

/// The process id that an entry of the process table names; `None` for any other
/// entry.
pub fn pid_of(entry: &str) -> (r: Option<u32>)
    ensures
        r is Some == (unsigned_of(entry@, u32::MAX as int) is Some),
        r matches Some(pid) ==> unsigned_of(entry@, u32::MAX as int) == Some(pid as int),
{
    let chars = chars_of(entry);
    match parse_unsigned(chars.as_slice(), 0xffff_ffff) {
        Some(v) => Some(v as u32),
        None => None,
    }
}

/// The start time in a process's status line. The name stands in parentheses and
/// may hold spaces and parentheses itself, so the fields are counted from the last
/// closing one.
pub open spec fn starttime(stat: Seq<char>) -> Option<int> {
    let k = last_at(stat, ')');
    let fields = words(stat.skip(k + 1));
    if k < 0 || fields.len() <= 19 {
        None
    } else {
        unsigned_of(fields[19], u64::MAX as int)
    }
}

/// The start time in a process's status line, in clock ticks.
pub fn parse_starttime(stat: &str) -> (r: Option<u64>)
    ensures
        r is Some == (starttime(stat@) is Some),
        r matches Some(v) ==> starttime(stat@) == Some(v as int),
{
    let chars = chars_of(stat);
    match after_last(chars.as_slice(), ')') {
        Some(rest) => {
            let fields = words_of(rest);
            assert(texts(fields@).len() == fields@.len());
            if fields.len() <= 19 {
                return None;
            }
            assert(texts(fields@)[19] == fields@[19]@);
            parse_u64(fields[19].as_slice())
        },
        None => None,
    }
}

/// A process from what was read of it: its owner, its name and its status line.
/// Without an owner or a name there is none; without a start time it counts from
/// boot.
pub fn read_proc(pid: u32, uid: Option<u32>, comm: Option<&str>, stat: Option<&str>) -> (r: Option<
    ProcInfo,
>)
    ensures
        r is Some <==> uid is Some && comm is Some,
        r matches Some(p) ==> {
            &&& p.pid == pid
            &&& p.uid == uid->0
            &&& p.comm@ == trim_end(comm->0@)
            &&& p.starttime_ticks as int == match stat {
                Some(s) => match starttime(s@) {
                    Some(t) => t,
                    None => 0,
                },
                None => 0,
            }
        },
{
    match (uid, comm) {
        (Some(uid), Some(comm)) => {
            let chars = chars_of(comm);
            let ticks: u64 = match stat {
                Some(s) => match parse_starttime(s) {
                    Some(t) => t,
                    None => 0,
                },
                None => 0,
            };
            Some(
                ProcInfo {
                    pid,
                    uid,
                    comm: string_of(trimmed_end(chars.as_slice())),
                    starttime_ticks: ticks,
                },
            )
        },
        _ => None,
    }
}

/// How old a process is that started `ticks` after boot.
pub open spec fn age(now: int, btime: int, clk_tck: int, ticks: int) -> int {
    now - (btime + ticks / clk_tck)
}

/// The age of a process in seconds. `None` where it would be negative, or the
/// clock's rate is not known.
pub fn uptime_secs(now_epoch: i64, btime: i64, clk_tck: u64, starttime_ticks: u64) -> (r: Option<
    u64,
>)
    ensures
        r is Some <==> clk_tck != 0 && age(
            now_epoch as int,
            btime as int,
            clk_tck as int,
            starttime_ticks as int,
        ) >= 0,
        r matches Some(s) ==> s as int == age(
            now_epoch as int,
            btime as int,
            clk_tck as int,
            starttime_ticks as int,
        ),
{
    if clk_tck == 0 {
        return None;
    }
    let up: u64 = starttime_ticks / clk_tck;
    let a: i128 = now_epoch as i128 - (btime as i128 + up as i128);
    if a >= 0 {
        Some(a as u64)
    } else {
        None
    }
}

/// The boot time in the kernel's statistics.
pub open spec fn btime(stat: Seq<char>) -> Option<int> {
    match first_after(lines(stat), "btime "@) {
        Some(v) => signed_of(trim(v), i64::MIN as int, i64::MAX as int),
        None => None,
    }
}

/// The boot time in the kernel's statistics.
pub fn parse_btime(proc_stat: &str) -> (r: Option<i64>)
    ensures
        r is Some == (btime(proc_stat@) is Some),
        r matches Some(t) ==> btime(proc_stat@) == Some(t as int),
{
    match line_after(proc_stat, "btime ") {
        Some(v) => parse_i64(trimmed(v.as_slice())),
        None => None,
    }
}

/// The boot time from what was read of the kernel's statistics.
pub fn boot_time(content: Option<&str>) -> (r: Option<i64>)
    ensures
        r is Some <==> (content is Some && btime(content->0@) is Some),
        r matches Some(t) ==> btime(content->0@) == Some(t as int),
{
    match content {
        Some(text) => parse_btime(text),
        None => None,
    }
}

} // verus!

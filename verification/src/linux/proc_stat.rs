//! `/proc/<pid>/stat` and `/proc/uptime`: scheduling statistics of one
//! process, its age, and the score that its age earns.

use crate::ffi::types::{Millis, ProcessId, SystemError};
use crate::linux::text::{
    decimal_of, find_first, find_last, i32_of, parse_decimal, parse_i32, parse_u64, split_fields,
    tokens, u64_of, views,
};
use vstd::prelude::*;
use vstd::slice::{slice_subrange, slice_to_vec};

verus! {

/// The byte `(`.
pub const OPEN_PAREN: u8 = 40;

/// The byte `)`.
pub const CLOSE_PAREN: u8 = 41;

/// The byte `?`.
pub const QUESTION_MARK: u8 = 63;

/// The number of fields that must follow the command name.
pub const STAT_FIELDS: usize = 24;

/// The clock tick rate to assume where the platform reports none.
pub const DEFAULT_TICKS_PER_SECOND: u64 = 100;

/// Seconds in an hour.
pub const HOUR: u64 = 3600;

/// Seconds in a day.
pub const DAY: u64 = 86400;

/// The unit of the runtime score: a score of one is this many points.
pub const RUNTIME_SCALE: u32 = 864000;

/// The runtime score of a process whose statistics could not be read: one
/// half.
pub const UNKNOWN_RUNTIME_SCORE: u32 = 432000;

/// Scheduling statistics of one process. Times are in clock ticks; the start
/// time counts from system boot.
#[derive(Debug, Clone)]
pub struct ProcessStat {
    pub pid: ProcessId,
    pub comm: Vec<u8>,
    pub state: u8,
    pub ppid: i32,
    pub start_time: u64,
    pub utime: u64,
    pub stime: u64,
    pub cutime: u64,
    pub cstime: u64,
}

/// What a `ProcessStat` holds.
pub struct ProcessStatView {
    pub pid: ProcessId,
    pub comm: Seq<u8>,
    pub state: u8,
    pub ppid: i32,
    pub start_time: u64,
    pub utime: u64,
    pub stime: u64,
    pub cutime: u64,
    pub cstime: u64,
}

impl View for ProcessStat {
    type V = ProcessStatView;

    open spec fn view(&self) -> ProcessStatView {
        ProcessStatView {
            pid: self.pid,
            comm: self.comm@,
            state: self.state,
            ppid: self.ppid,
            start_time: self.start_time,
            utime: self.utime,
            stime: self.stime,
            cutime: self.cutime,
            cstime: self.cstime,
        }
    }
}

/// The `u64` that a field writes, or zero.
pub open spec fn u64_or_zero(s: Seq<u8>) -> u64 {
    match u64_of(s) {
        Some(n) => n,
        None => 0,
    }
}

/// The `i32` that a field writes, or zero.
pub open spec fn i32_or_zero(s: Seq<u8>) -> i32 {
    match i32_of(s) {
        Some(n) => n,
        None => 0,
    }
}

/// The first byte of a field, or `?` for an empty one.
pub open spec fn first_byte_or_unknown(s: Seq<u8>) -> u8 {
    if s.len() > 0 {
        s[0]
    } else {
        QUESTION_MARK
    }
}

/// What a `stat` line says. The command name stands between the first `(`
/// and the last `)` and may itself hold spaces and parentheses. The fields
/// after it are separated by whitespace and counted from zero: state 0,
/// parent 2, user time 11, system time 12, the children's times 13 and 14,
/// start time 19. A numeric field that is no number counts as zero. A line
/// without the parentheses in that order, or with fewer than 24 fields
/// after them, is invalid.
pub open spec fn stat_of(content: Seq<u8>, pid: ProcessId) -> Result<ProcessStatView, SystemError> {
    match (content.index_of_first(OPEN_PAREN), content.index_of_last(CLOSE_PAREN)) {
        (Some(open), Some(close)) => {
            let fields = tokens(content.skip(close + 1));
            if open < close && fields.len() >= STAT_FIELDS {
                Ok(
                    ProcessStatView {
                        pid,
                        comm: content.subrange(open + 1, close),
                        state: first_byte_or_unknown(fields[0]),
                        ppid: i32_or_zero(fields[2]),
                        start_time: u64_or_zero(fields[19]),
                        utime: u64_or_zero(fields[11]),
                        stime: u64_or_zero(fields[12]),
                        cutime: u64_or_zero(fields[13]),
                        cstime: u64_or_zero(fields[14]),
                    },
                )
            } else {
                Err(SystemError::InvalidData)
            }
        },
        _ => Err(SystemError::InvalidData),
    }
}

/// The time since boot that the content of `/proc/uptime` states: its first
/// field, a decimal numeral of seconds, in milliseconds rounded down. Zero
/// where there is no such field, it is no numeral, or its milliseconds do
/// not fit.
pub open spec fn uptime_of(content: Seq<u8>) -> Millis {
    let fields = tokens(content);
    if fields.len() > 0 {
        match decimal_of(fields[0], 3) {
            Some(ms) => ms,
            None => 0,
        }
    } else {
        0
    }
}

/// How long a process has run, in milliseconds rounded down: the time since
/// boot less the start time, and zero for a start time that lies ahead.
pub open spec fn running_millis(uptime: Millis, start_ticks: u64, ticks_per_second: u64) -> int {
    if uptime * ticks_per_second >= start_ticks * 1000 {
        (uptime * ticks_per_second - start_ticks * 1000) / (ticks_per_second as int)
    } else {
        0
    }
}

/// The milliseconds that `ticks` clock ticks last, rounded down.
pub open spec fn ticks_millis(ticks: int, ticks_per_second: u64) -> int {
    ticks * 1000 / (ticks_per_second as int)
}

/// The runtime score of a process that is `age` seconds old, in points of
/// which `RUNTIME_SCALE` make one. Younger processes score higher: from 1
/// down to 0.8 over the first hour, from there to 0.3 at the end of the
/// first day, then to 0 at the end of the second, and 0 ever after.
pub open spec fn runtime_points(age: nat) -> nat {
    if age < HOUR {
        (691200 + 48 * (HOUR - age)) as nat
    } else if age < DAY {
        (259200 + 5 * (DAY - age)) as nat
    } else if age < 2 * DAY {
        (3 * (2 * DAY - age)) as nat
    } else {
        0
    }
}

fn field_u64(field: &[u8]) -> (r: u64)
    ensures
        r == u64_or_zero(field@),
{
    match parse_u64(field) {
        Some(n) => n,
        None => 0,
    }
}

fn field_i32(field: &[u8]) -> (r: i32)
    ensures
        r == i32_or_zero(field@),
{
    match parse_i32(field) {
        Some(n) => n,
        None => 0,
    }
}

/// The time since boot that the content of `/proc/uptime` states.
pub fn get_system_uptime(content: &[u8]) -> (uptime: Millis)
    ensures
        uptime == uptime_of(content@),
{
    let fields = split_fields(content);
    if fields.len() > 0 {
        assert(views(fields@)[0] == fields@[0]@);
        match parse_decimal(fields[0], 3) {
            Some(ms) => ms,
            None => 0,
        }
    } else {
        0
    }
}

impl ProcessStat {
    /// The statistics of process `pid`, from the content of its `stat`
    /// file.
    pub fn from_pid(pid: ProcessId, content: &[u8]) -> (r: Result<ProcessStat, SystemError>)
        ensures
            match r {
                Ok(stat) => stat_of(content@, pid) == Ok::<ProcessStatView, SystemError>(stat@),
                Err(e) => stat_of(content@, pid) == Err::<ProcessStatView, SystemError>(e),
            },
    {
        ProcessStat::parse_stat(content, pid)
    }

    /// Reads the content of `/proc/<pid>/stat`.
    pub fn parse_stat(content: &[u8], pid: ProcessId) -> (r: Result<ProcessStat, SystemError>)
        ensures
            match r {
                Ok(stat) => stat_of(content@, pid) == Ok::<ProcessStatView, SystemError>(stat@),
                Err(e) => stat_of(content@, pid) == Err::<ProcessStatView, SystemError>(e),
            },
    {
        let open = match find_first(content, OPEN_PAREN) {
            Some(i) => i,
            None => {
                return Err(SystemError::InvalidData);
            },
        };
        let close = match find_last(content, CLOSE_PAREN) {
            Some(i) => i,
            None => {
                return Err(SystemError::InvalidData);
            },
        };
        if open >= close {
            return Err(SystemError::InvalidData);
        }
        let rest = slice_subrange(content, close + 1, content.len());
        assert(rest@ =~= content@.skip(close + 1));
        let fields = split_fields(rest);
        if fields.len() < STAT_FIELDS {
            return Err(SystemError::InvalidData);
        }
        proof {
            let t = tokens(rest@);
            assert(t[0] == fields@[0]@);
            assert(t[2] == fields@[2]@);
            assert(t[11] == fields@[11]@);
            assert(t[12] == fields@[12]@);
            assert(t[13] == fields@[13]@);
            assert(t[14] == fields@[14]@);
            assert(t[19] == fields@[19]@);
        }
        let comm = slice_to_vec(slice_subrange(content, open + 1, close));
        let state = if fields[0].len() > 0 {
            fields[0][0]
        } else {
            QUESTION_MARK
        };
        Ok(
            ProcessStat {
                pid,
                comm,
                state,
                ppid: field_i32(fields[2]),
                start_time: field_u64(fields[19]),
                utime: field_u64(fields[11]),
                stime: field_u64(fields[12]),
                cutime: field_u64(fields[13]),
                cstime: field_u64(fields[14]),
            },
        )
    }

    /// The processor time that the process and the children it has waited
    /// for have used, in milliseconds.
    pub fn total_cpu_time(&self, ticks_per_second: u64) -> (ms: u128)
        requires
            ticks_per_second > 0,
        ensures
            ms == ticks_millis(
                self.utime + self.stime + self.cutime + self.cstime,
                ticks_per_second,
            ),
    {
        let ticks: u128 = self.utime as u128 + self.stime as u128 + self.cutime as u128
            + self.cstime as u128;
        ticks * 1000 / (ticks_per_second as u128)
    }

    /// How long the process has run when the system has been up for
    /// `uptime`.
    pub fn running_time(&self, uptime: Millis, ticks_per_second: u64) -> (ms: Millis)
        requires
            ticks_per_second > 0,
        ensures
            ms == running_millis(uptime, self.start_time, ticks_per_second),
            ms <= uptime,
    {
        assert(uptime * ticks_per_second <= 0xffff_ffff_ffff_ffff * 0xffff_ffff_ffff_ffff)
            by (nonlinear_arith)
            requires
                uptime <= 0xffff_ffff_ffff_ffff,
                ticks_per_second <= 0xffff_ffff_ffff_ffff,
        ;
        let now: u128 = (uptime as u128) * (ticks_per_second as u128);
        let started: u128 = (self.start_time as u128) * 1000;
        if now >= started {
            let age = (now - started) / (ticks_per_second as u128);
            assert(age <= uptime) by (nonlinear_arith)
                requires
                    age == (now - started) / (ticks_per_second as int),
                    now == uptime * ticks_per_second,
                    started >= 0,
                    now >= started,
                    ticks_per_second > 0,
            ;
            age as u64
        } else {
            0
        }
    }
}

/// The runtime score of a process that is `age_seconds` old.
pub fn runtime_score_of_age(age_seconds: u64) -> (points: u32)
    ensures
        points == runtime_points(age_seconds as nat),
        points <= RUNTIME_SCALE,
{
    if age_seconds < HOUR {
        (691200 + 48 * (HOUR - age_seconds)) as u32
    } else if age_seconds < DAY {
        (259200 + 5 * (DAY - age_seconds)) as u32
    } else if age_seconds < 2 * DAY {
        (3 * (2 * DAY - age_seconds)) as u32
    } else {
        0
    }
}

/// The runtime score of a process, from its statistics and the time since
/// boot.
pub fn calculate_runtime_score(
    process_stat: &ProcessStat,
    uptime: Millis,
    ticks_per_second: u64,
) -> (points: u32)
    requires
        ticks_per_second > 0,
    ensures
        points == runtime_points(
            (running_millis(uptime, process_stat.start_time, ticks_per_second) / 1000) as nat,
        ),
        points <= RUNTIME_SCALE,
{
    let runtime = process_stat.running_time(uptime, ticks_per_second);
    runtime_score_of_age(runtime / 1000)
}

/// A younger process never scores lower than an older one.
pub proof fn lemma_runtime_points_monotonic(younger: nat, older: nat)
    requires
        younger <= older,
    ensures
        runtime_points(younger) >= runtime_points(older),
        runtime_points(younger) <= RUNTIME_SCALE,
{
}

} // verus!

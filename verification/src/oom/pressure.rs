//! The pressure detector: when the host counts as persistently short of
//! memory.
//!
//! A reading is over the threshold when too little memory is available or
//! too much swap is in use. Pressure is reported only after the readings
//! have been over the threshold without a break for the configured dwell
//! time; a single reading below it ends the episode.

use crate::ffi::types::Millis;
use crate::oom::arith::lemma_mul_le;
use crate::linux::proc::{find_size, size_value};
use crate::linux::text::split_lines;
use vstd::prelude::*;
use vstd::string::StringSliceAdditionalSpecFns;

verus! {

/// The unit of a ratio: a ratio of one is this many parts.
pub const RATIO_SCALE: u32 = 1000000;

/// When a reading counts as over the threshold, and for how long readings
/// must stay there. Ratios are in parts per million.
#[derive(Debug, Clone, Copy, PartialEq, Eq, Structural)]
pub struct PressureThresholds {
    /// Available memory as a share of all memory below which a reading is
    /// over the threshold.
    pub min_free_ratio: u32,
    /// Swap in use as a share of all swap above which a reading is over
    /// the threshold.
    pub max_swap_ratio: u32,
    /// The dwell time.
    pub pressure_duration: Millis,
}

/// The thresholds used where none are given: 5% available, 80% of swap in
/// use, five seconds.
pub open spec fn default_thresholds() -> PressureThresholds {
    PressureThresholds { min_free_ratio: 50000, max_swap_ratio: 800000, pressure_duration: 5000 }
}

impl Default for PressureThresholds {
    fn default() -> (t: PressureThresholds)
        ensures
            t == default_thresholds(),
    {
        PressureThresholds {
            min_free_ratio: 50000,
            max_swap_ratio: 800000,
            pressure_duration: 5000,
        }
    }
}

/// One reading of the host's memory, in bytes.
#[derive(Debug, Clone, Copy, PartialEq, Eq, Structural)]
pub struct MemoryStats {
    pub total_memory: u64,
    pub free_memory: u64,
    pub available_memory: u64,
    pub total_swap: u64,
    pub free_swap: u64,
    pub cached_memory: u64,
}

/// What a detector reports about itself.
#[derive(Debug, Clone, Copy, PartialEq, Eq, Structural)]
pub struct PressureInfo {
    /// The reading the report was made with.
    pub stats: MemoryStats,
    /// For how long readings have been over the threshold.
    pub pressure_duration: Millis,
    /// The time since the last check that did not report pressure.
    pub last_check: Millis,
}

/// The detector. `pressure_start` is set by the first reading over the
/// threshold and cleared by the first one below it.
#[derive(Debug, Clone, Copy, PartialEq, Eq, Structural)]
pub struct PressureDetector {
    pub thresholds: PressureThresholds,
    pub pressure_start: Option<Millis>,
    pub last_pressure_check: Millis,
}

/// The reading that the content of `/proc/meminfo` gives: of each
/// recognized key the number on its last line, in bytes, and zero for a key
/// that is missing.
pub open spec fn memory_stats_of(content: Seq<u8>) -> MemoryStats {
    MemoryStats {
        total_memory: size_value(content, "MemTotal".spec_bytes()),
        free_memory: size_value(content, "MemFree".spec_bytes()),
        available_memory: size_value(content, "MemAvailable".spec_bytes()),
        total_swap: size_value(content, "SwapTotal".spec_bytes()),
        free_swap: size_value(content, "SwapFree".spec_bytes()),
        cached_memory: size_value(content, "Cached".spec_bytes()),
    }
}

/// Too little memory is available: `available / total < min_free_ratio`.
pub open spec fn free_memory_low(stats: MemoryStats, t: PressureThresholds) -> bool {
    stats.available_memory * RATIO_SCALE < t.min_free_ratio * stats.total_memory
}

/// Too much swap is in use: there is swap, and
/// `(total_swap - free_swap) / total_swap > max_swap_ratio`.
pub open spec fn swap_use_high(stats: MemoryStats, t: PressureThresholds) -> bool {
    stats.total_swap > 0 && (stats.total_swap - stats.free_swap) * RATIO_SCALE > t.max_swap_ratio
        * stats.total_swap
}

/// A reading is over the threshold.
pub open spec fn over_threshold(stats: MemoryStats, t: PressureThresholds) -> bool {
    free_memory_low(stats, t) || swap_use_high(stats, t)
}

/// The time from `since` to `now`, zero where `since` lies ahead.
pub open spec fn elapsed(now: Millis, since: Millis) -> Millis {
    if now >= since {
        (now - since) as u64
    } else {
        0
    }
}

/// The start of the episode after a reading.
pub open spec fn next_pressure_start(start: Option<Millis>, over: bool, now: Millis) -> Option<
    Millis,
> {
    if over {
        match start {
            Some(s) => Some(s),
            None => Some(now),
        }
    } else {
        None
    }
}

/// Whether a reading confirms pressure: it is over the threshold, and the
/// episode it belongs to began at least `duration` ago, with an earlier
/// reading.
pub open spec fn pressure_confirmed(
    start: Option<Millis>,
    over: bool,
    now: Millis,
    duration: Millis,
) -> bool {
    &&& over
    &&& start matches Some(s)
    &&& elapsed(now, s) >= duration
}

/// The detector after a reading.
pub open spec fn detector_after(d: PressureDetector, stats: MemoryStats, now: Millis)
    -> PressureDetector {
    let over = over_threshold(stats, d.thresholds);
    PressureDetector {
        thresholds: d.thresholds,
        pressure_start: next_pressure_start(d.pressure_start, over, now),
        last_pressure_check: if pressure_confirmed(
            d.pressure_start,
            over,
            now,
            d.thresholds.pressure_duration,
        ) {
            d.last_pressure_check
        } else {
            now
        },
    }
}

/// What the detector answers to a reading.
pub open spec fn detector_answer(d: PressureDetector, stats: MemoryStats, now: Millis) -> bool {
    pressure_confirmed(
        d.pressure_start,
        over_threshold(stats, d.thresholds),
        now,
        d.thresholds.pressure_duration,
    )
}

/// The time from `since` to `now`.
pub fn time_since(now: Millis, since: Millis) -> (d: Millis)
    ensures
        d == elapsed(now, since),
{
    if now >= since {
        now - since
    } else {
        0
    }
}

/// Whether a reading is over the threshold.
pub fn is_over_threshold(stats: &MemoryStats, thresholds: &PressureThresholds) -> (over: bool)
    ensures
        over == over_threshold(*stats, *thresholds),
{
    let scale = RATIO_SCALE as u128;
    proof {
        lemma_mul_le(
            thresholds.min_free_ratio as int,
            stats.total_memory as int,
            u32::MAX as int,
            u64::MAX as int,
        );
        lemma_mul_le(
            thresholds.max_swap_ratio as int,
            stats.total_swap as int,
            u32::MAX as int,
            u64::MAX as int,
        );
    }
    let free_low = (stats.available_memory as u128) * scale < (thresholds.min_free_ratio as u128)
        * (stats.total_memory as u128);
    let swap_high = if stats.total_swap > 0 && stats.free_swap < stats.total_swap {
        ((stats.total_swap - stats.free_swap) as u128) * scale > (
        thresholds.max_swap_ratio as u128) * (stats.total_swap as u128)
    } else {
        false
    };
    assert(stats.total_swap > 0 && stats.free_swap >= stats.total_swap ==> !swap_use_high(
        *stats,
        *thresholds,
    )) by (nonlinear_arith)
        requires
            RATIO_SCALE == 1000000,
            thresholds.max_swap_ratio >= 0,
    ;
    free_low || swap_high
}

impl PressureDetector {
    /// A detector that has seen no reading yet.
    pub fn new(thresholds: Option<PressureThresholds>, now: Millis) -> (d: PressureDetector)
        ensures
            d.thresholds == (match thresholds {
                Some(t) => t,
                None => default_thresholds(),
            }),
            d.pressure_start is None,
            d.last_pressure_check == now,
    {
        let thresholds = match thresholds {
            Some(t) => t,
            None => PressureThresholds::default(),
        };
        PressureDetector { thresholds, pressure_start: None, last_pressure_check: now }
    }

    /// Takes a reading and says whether the host is under persistent
    /// pressure.
    ///
    /// The first reading over the threshold starts an episode and is
    /// answered with `false`. A later reading over the threshold is
    /// answered with `true` once the episode is as old as the dwell time;
    /// the episode stays open. A reading below the threshold ends the
    /// episode.
    pub fn check_pressure(&mut self, stats: &MemoryStats, now: Millis) -> (pressure: bool)
        ensures
            pressure == detector_answer(*old(self), *stats, now),
            *final(self) == detector_after(*old(self), *stats, now),
    {
        if is_over_threshold(stats, &self.thresholds) {
            match self.pressure_start {
                None => {
                    self.pressure_start = Some(now);
                },
                Some(start) => {
                    if time_since(now, start) >= self.thresholds.pressure_duration {
                        return true;
                    }
                },
            }
        } else {
            self.pressure_start = None;
        }
        self.last_pressure_check = now;
        false
    }

    /// What `check_pressure` would answer to this reading, without taking
    /// it.
    pub fn would_confirm(&self, stats: &MemoryStats, now: Millis) -> (pressure: bool)
        ensures
            pressure == detector_answer(*self, *stats, now),
    {
        match self.pressure_start {
            Some(start) => is_over_threshold(stats, &self.thresholds) && time_since(now, start)
                >= self.thresholds.pressure_duration,
            None => false,
        }
    }

    /// Reads the content of `/proc/meminfo`.
    pub fn get_memory_stats(&self, meminfo: &[u8]) -> (stats: MemoryStats)
        ensures
            stats == memory_stats_of(meminfo@),
    {
        let lines = split_lines(meminfo);
        MemoryStats {
            total_memory: find_size(&lines, "MemTotal".as_bytes()),
            free_memory: find_size(&lines, "MemFree".as_bytes()),
            available_memory: find_size(&lines, "MemAvailable".as_bytes()),
            total_swap: find_size(&lines, "SwapTotal".as_bytes()),
            free_swap: find_size(&lines, "SwapFree".as_bytes()),
            cached_memory: find_size(&lines, "Cached".as_bytes()),
        }
    }

    /// The detector's report at `now` for a reading.
    pub fn get_pressure_info(&self, stats: MemoryStats, now: Millis) -> (info: PressureInfo)
        ensures
            info.stats == stats,
            info.pressure_duration == (match self.pressure_start {
                Some(start) => elapsed(now, start),
                None => 0,
            }),
            info.last_check == elapsed(now, self.last_pressure_check),
    {
        PressureInfo {
            stats,
            pressure_duration: match self.pressure_start {
                Some(start) => time_since(now, start),
                None => 0,
            },
            last_check: time_since(now, self.last_pressure_check),
        }
    }
}

/// One reading and the time it was taken.
pub struct Reading {
    pub stats: MemoryStats,
    pub now: Millis,
}

/// The detector after it has taken `readings` in order.
pub open spec fn detector_after_all(d: PressureDetector, readings: Seq<Reading>) -> PressureDetector
    decreases readings.len(),
{
    if readings.len() == 0 {
        d
    } else {
        detector_after(
            detector_after_all(d, readings.drop_last()),
            readings.last().stats,
            readings.last().now,
        )
    }
}

/// The index of the reading that began the episode which is open after
/// `readings`: the first of the unbroken run of readings over the
/// threshold that ends the sequence.
pub open spec fn episode_start(readings: Seq<Reading>, t: PressureThresholds) -> Option<int>
    decreases readings.len(),
{
    if readings.len() == 0 || !over_threshold(readings.last().stats, t) {
        None
    } else {
        match episode_start(readings.drop_last(), t) {
            Some(j) => Some(j),
            None => Some(readings.len() - 1),
        }
    }
}

/// What `episode_start` finds: every reading from the start on is over the
/// threshold, the one before the start is not, and there is no episode
/// exactly when the last reading is not over the threshold.
pub proof fn lemma_episode_start(readings: Seq<Reading>, t: PressureThresholds)
    ensures
        match episode_start(readings, t) {
            Some(j) => {
                &&& 0 <= j < readings.len()
                &&& forall|i: int|
                    j <= i < readings.len() ==> over_threshold((#[trigger] readings[i]).stats, t)
                &&& j > 0 ==> !over_threshold(readings[j - 1].stats, t)
            },
            None => readings.len() == 0 || !over_threshold(readings.last().stats, t),
        },
    decreases readings.len(),
{
    if readings.len() > 0 && over_threshold(readings.last().stats, t) {
        let front = readings.drop_last();
        lemma_episode_start(front, t);
        match episode_start(front, t) {
            Some(j) => {
                assert forall|i: int| j <= i < readings.len() implies over_threshold(
                    (#[trigger] readings[i]).stats,
                    t,
                ) by {
                    if i < front.len() {
                        assert(front[i] == readings[i]);
                    }
                }
                assert(j > 0 ==> front[j - 1] == readings[j - 1]);
            },
            None => {
                if front.len() > 0 {
                    assert(front.last() == readings[readings.len() - 2]);
                }
            },
        }
    }
}

/// A detector that starts without an open episode keeps, after any
/// readings, exactly the time of the reading that began the open episode.
pub proof fn lemma_pressure_start_is_episode_start(d: PressureDetector, readings: Seq<Reading>)
    requires
        d.pressure_start is None,
    ensures
        detector_after_all(d, readings).thresholds == d.thresholds,
        detector_after_all(d, readings).pressure_start == (match episode_start(
            readings,
            d.thresholds,
        ) {
            Some(j) => Some(readings[j].now),
            None => None,
        }),
    decreases readings.len(),
{
    if readings.len() > 0 {
        let front = readings.drop_last();
        lemma_pressure_start_is_episode_start(d, front);
        lemma_episode_start(front, d.thresholds);
        match episode_start(front, d.thresholds) {
            Some(j) => {
                assert(front[j] == readings[j]);
            },
            None => {},
        }
    }
}

/// Hysteresis. After a fresh detector has taken `earlier`, its answer to
/// one more reading is `true` exactly when that reading is over the
/// threshold, an unbroken run of readings over the threshold leads up to
/// it, and the first reading of that run is at least the dwell time old.
pub proof fn lemma_pressure_iff_sustained(
    d: PressureDetector,
    earlier: Seq<Reading>,
    stats: MemoryStats,
    now: Millis,
)
    requires
        d.pressure_start is None,
    ensures
        detector_answer(detector_after_all(d, earlier), stats, now) <==> {
            &&& over_threshold(stats, d.thresholds)
            &&& episode_start(earlier, d.thresholds) matches Some(j)
            &&& elapsed(now, earlier[j].now) >= d.thresholds.pressure_duration
        },
{
    lemma_pressure_start_is_episode_start(d, earlier);
}

} // verus!

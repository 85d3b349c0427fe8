//! The killer: cadence, spacing between kills, and statistics.
//!
//! The loop itself belongs to the caller, who owns the clock, `/proc` and
//! the signal. The killer decides each step of an iteration: whether to
//! look for a victim at all, what to send to it, and what a delivery
//! changes in the books.

use crate::ffi::safe_wrapper::{sigkill, spec_sigkill};
use crate::ffi::types::{Millis, ProcessId, SystemError};
use crate::linux::proc::ProcessInfo;
use crate::oom::pressure::{
    default_thresholds, detector_after, elapsed, time_since, MemoryStats, PressureDetector,
    PressureThresholds,
};
use crate::oom::score::OOMScorer;
use crate::oom::selector::{
    default_selector_config, selection, ProcessSample, ProcessSelector, SelectorConfig,
};
use vstd::prelude::*;

verus! {

/// The bytes in a mebibyte.
pub const MIB: u64 = 1048576;

/// How the killer runs.
#[derive(Debug, Clone, Copy, PartialEq, Eq, Structural)]
pub struct KillerConfig {
    pub selector: SelectorConfig,
    pub pressure: PressureThresholds,
    /// The least time between two kills.
    pub min_kill_interval: Millis,
    /// The time to sleep between two iterations.
    pub check_interval: Millis,
}

/// The configuration used where none is given: the defaults of the
/// selector and the detector, five seconds between kills, a tenth of a
/// second between iterations.
pub open spec fn default_killer_config() -> KillerConfig {
    KillerConfig {
        selector: default_selector_config(),
        pressure: default_thresholds(),
        min_kill_interval: 5000,
        check_interval: 100,
    }
}

impl Default for KillerConfig {
    fn default() -> (c: KillerConfig)
        ensures
            c == default_killer_config(),
    {
        KillerConfig {
            selector: SelectorConfig::default(),
            pressure: PressureThresholds::default(),
            min_kill_interval: 5000,
            check_interval: 100,
        }
    }
}

/// The killer's books.
#[derive(Debug, Clone, Copy, PartialEq, Eq, Structural)]
pub struct KillerStatus {
    pub last_kill_time: Option<Millis>,
    pub total_kills: u64,
    pub total_memory_reclaimed: u64,
    pub running_since: Millis,
}

/// What to send, and to whom: the victim as it was read again after
/// selection.
#[derive(Debug, Clone)]
pub struct KillRequest {
    pub pid: ProcessId,
    pub signal: i32,
    pub process: ProcessInfo,
}

/// The record of one kill, for the log.
#[derive(Debug, Clone)]
pub struct KillRecord {
    pub pid: ProcessId,
    pub name: Vec<u8>,
    pub rss_bytes: u64,
}

/// The killer.
#[derive(Debug, Clone)]
pub struct OOMKiller {
    pub config: KillerConfig,
    pub selector: ProcessSelector,
    pub running: bool,
    pub last_kill_time: Option<Millis>,
    pub total_kills: u64,
    pub total_memory_reclaimed: u64,
    pub running_since: Millis,
}

/// Whether the last kill is too recent for another.
pub open spec fn rate_limited(last_kill: Option<Millis>, now: Millis, interval: Millis) -> bool {
    last_kill matches Some(t) && elapsed(now, t) < interval
}

/// The sum of two counters, held at the largest `u64`.
pub open spec fn capped_sum(a: int, b: int) -> u64 {
    if a + b <= u64::MAX {
        (a + b) as u64
    } else {
        u64::MAX
    }
}

/// Whether a delivery counts as a kill: the signal was delivered, or the
/// process was gone already.
pub open spec fn counts_as_kill(outcome: Result<(), SystemError>) -> bool {
    outcome is Ok || outcome == Err::<(), SystemError>(SystemError::ProcessNotFound)
}

/// The memory that a delivery reclaims: the victim's resident memory where
/// the signal was delivered, nothing otherwise.
pub open spec fn reclaimed_by(rss: u64, outcome: Result<(), SystemError>) -> u64 {
    if outcome is Ok {
        rss
    } else {
        0
    }
}

/// The books after a delivery at `now` to a victim that held `rss` bytes.
pub open spec fn status_after(
    status: KillerStatus,
    now: Millis,
    rss: u64,
    outcome: Result<(), SystemError>,
) -> KillerStatus {
    if counts_as_kill(outcome) {
        KillerStatus {
            last_kill_time: Some(now),
            total_kills: capped_sum(status.total_kills as int, 1),
            total_memory_reclaimed: capped_sum(
                status.total_memory_reclaimed as int,
                reclaimed_by(rss, outcome) as int,
            ),
            running_since: status.running_since,
        }
    } else {
        status
    }
}

/// What the victim's second reading means for the iteration: a request
/// where it could be read, nothing to do where it is gone, the error
/// otherwise.
pub open spec fn kill_decision(pid: ProcessId, reread: Result<ProcessInfo, SystemError>) -> Result<
    Option<KillRequest>,
    SystemError,
> {
    match reread {
        Ok(process) => Ok(Some(KillRequest { pid, signal: spec_sigkill(), process })),
        Err(SystemError::ProcessNotFound) => Ok(None),
        Err(e) => Err(e),
    }
}

impl KillRecord {
    /// The whole mebibytes that the kill reclaimed.
    pub fn reclaimed_mib(&self) -> (mib: u64)
        ensures
            mib == self.rss_bytes / MIB,
    {
        self.rss_bytes / MIB
    }
}

impl OOMKiller {
    /// The killer's books.
    pub open spec fn status(self) -> KillerStatus {
        KillerStatus {
            last_kill_time: self.last_kill_time,
            total_kills: self.total_kills,
            total_memory_reclaimed: self.total_memory_reclaimed,
            running_since: self.running_since,
        }
    }

    /// A stopped killer with empty books, made at `now`.
    pub fn new(config: Option<KillerConfig>, now: Millis) -> (k: OOMKiller)
        ensures
            k.config == (match config {
                Some(c) => c,
                None => default_killer_config(),
            }),
            k.selector.config == k.config.selector,
            k.selector.pressure_detector.thresholds == k.config.pressure,
            k.selector.pressure_detector.pressure_start is None,
            k.selector.pressure_detector.last_pressure_check == now,
            k.selector.system_names@.len() == 0,
            !k.running,
            k.status() == (KillerStatus {
                last_kill_time: None,
                total_kills: 0,
                total_memory_reclaimed: 0,
                running_since: now,
            }),
    {
        let config = match config {
            Some(c) => c,
            None => KillerConfig::default(),
        };
        let scorer = OOMScorer::new();
        let pressure_detector = PressureDetector::new(Some(config.pressure), now);
        let selector = ProcessSelector::new(Some(config.selector), scorer, pressure_detector);
        OOMKiller {
            config,
            selector,
            running: false,
            last_kill_time: None,
            total_kills: 0,
            total_memory_reclaimed: 0,
            running_since: now,
        }
    }

    /// Moves the killer to running. Answers whether it was stopped, that
    /// is, whether the caller has a worker to launch; on a running killer
    /// nothing changes.
    pub fn start(&mut self) -> (launch: bool)
        ensures
            launch == !old(self).running,
            final(self).running,
            final(self).config == old(self).config,
            final(self).selector == old(self).selector,
            final(self).status() == old(self).status(),
    {
        if self.running {
            return false;
        }
        self.running = true;
        true
    }

    /// Moves the killer to stopped.
    pub fn stop(&mut self)
        ensures
            !final(self).running,
            final(self).config == old(self).config,
            final(self).selector == old(self).selector,
            final(self).status() == old(self).status(),
    {
        self.running = false;
    }

    /// The first half of an iteration: the victim, if there is to be one.
    ///
    /// While the last kill is more recent than the configured interval,
    /// nothing is looked at and no process is named. Otherwise the
    /// selector makes its pass.
    pub fn check_and_kill(
        &mut self,
        now: Millis,
        memory_stats: &MemoryStats,
        samples: Vec<ProcessSample>,
        uptime: Millis,
    ) -> (victim: Option<ProcessId>)
        ensures
            final(self).config == old(self).config,
            final(self).running == old(self).running,
            final(self).status() == old(self).status(),
            final(self).selector.config == old(self).selector.config,
            final(self).selector.scorer == old(self).selector.scorer,
            final(self).selector.system_names == old(self).selector.system_names,
            rate_limited(old(self).last_kill_time, now, old(self).config.min_kill_interval) ==> {
                &&& victim is None
                &&& final(self).selector == old(self).selector
            },
            !rate_limited(old(self).last_kill_time, now, old(self).config.min_kill_interval) ==> {
                &&& victim == selection(old(self).selector, now, *memory_stats, samples@, uptime)
                &&& final(self).selector.pressure_detector == detector_after(
                    old(self).selector.pressure_detector,
                    *memory_stats,
                    now,
                )
            },
    {
        match self.last_kill_time {
            Some(last) => {
                if time_since(now, last) < self.config.min_kill_interval {
                    return None;
                }
            },
            None => {},
        }
        self.selector.select_process(now, memory_stats, samples, uptime)
    }

    /// What to do about a victim once it has been read again: send it the
    /// signal that cannot be caught, unless it is gone already.
    pub fn kill_process(&self, pid: ProcessId, reread: Result<ProcessInfo, SystemError>) -> (r:
        Result<Option<KillRequest>, SystemError>)
        ensures
            r == kill_decision(pid, reread),
    {
        match reread {
            Ok(process) => Ok(Some(KillRequest { pid, signal: sigkill(), process })),
            Err(SystemError::ProcessNotFound) => Ok(None),
            Err(e) => Err(e),
        }
    }

    /// The second half of an iteration: enters the outcome of a delivery
    /// into the books.
    ///
    /// A delivered signal counts as a kill that reclaimed the victim's
    /// resident memory; a victim that was gone already counts as a kill
    /// that reclaimed nothing. Either gives a record for the log. Any
    /// other outcome changes nothing and is handed back.
    pub fn record_kill(
        &mut self,
        now: Millis,
        request: KillRequest,
        outcome: Result<(), SystemError>,
    ) -> (r: Result<KillRecord, SystemError>)
        ensures
            final(self).config == old(self).config,
            final(self).selector == old(self).selector,
            final(self).running == old(self).running,
            final(self).status() == status_after(
                old(self).status(),
                now,
                request.process.mem_info.vm_rss,
                outcome,
            ),
            match r {
                Ok(record) => {
                    &&& counts_as_kill(outcome)
                    &&& record.pid == request.pid
                    &&& record.name == request.process.name
                    &&& record.rss_bytes == reclaimed_by(request.process.mem_info.vm_rss, outcome)
                },
                Err(e) => !counts_as_kill(outcome) && outcome == Err::<(), SystemError>(e),
            },
    {
        let reclaimed = match outcome {
            Ok(()) => request.process.mem_info.vm_rss,
            Err(SystemError::ProcessNotFound) => 0,
            Err(e) => {
                return Err(e);
            },
        };
        self.last_kill_time = Some(now);
        self.total_kills = self.total_kills.saturating_add(1);
        self.total_memory_reclaimed = self.total_memory_reclaimed.saturating_add(reclaimed);
        Ok(KillRecord { pid: request.pid, name: request.process.name, rss_bytes: reclaimed })
    }

    /// The killer's books.
    pub fn get_status(&self) -> (status: KillerStatus)
        ensures
            status == self.status(),
    {
        KillerStatus {
            last_kill_time: self.last_kill_time,
            total_kills: self.total_kills,
            total_memory_reclaimed: self.total_memory_reclaimed,
            running_since: self.running_since,
        }
    }
}

/// A stand-in for the signal: it delivers nothing and remembers whom it
/// was asked to kill.
#[derive(Debug, Clone)]
pub struct MockKiller {
    killed_processes: Vec<ProcessId>,
}

impl MockKiller {
    /// The processes that were to be killed, in order.
    pub closed spec fn killed(self) -> Seq<ProcessId> {
        self.killed_processes@
    }

    /// A stand-in that has been asked for nothing yet.
    pub fn new() -> (m: MockKiller)
        ensures
            m.killed() == Seq::<ProcessId>::empty(),
    {
        MockKiller { killed_processes: Vec::new() }
    }

    /// Remembers `pid` and reports success.
    pub fn kill(&mut self, pid: ProcessId) -> (r: Result<(), SystemError>)
        ensures
            r is Ok,
            final(self).killed() == old(self).killed().push(pid),
    {
        self.killed_processes.push(pid);
        Ok(())
    }

    /// The processes that were to be killed, in order.
    pub fn get_killed_processes(&self) -> (killed: &[ProcessId])
        ensures
            killed@ == self.killed(),
    {
        self.killed_processes.as_slice()
    }
}

/// One delivery: when, to a victim of what size, and how it went.
pub struct Delivery {
    pub at: Millis,
    pub rss: u64,
    pub outcome: Result<(), SystemError>,
}

/// The books after `deliveries` in order.
pub open spec fn status_after_all(status: KillerStatus, deliveries: Seq<Delivery>) -> KillerStatus
    decreases deliveries.len(),
{
    if deliveries.len() == 0 {
        status
    } else {
        let d = deliveries.last();
        status_after(status_after_all(status, deliveries.drop_last()), d.at, d.rss, d.outcome)
    }
}

/// How many of the deliveries count as kills.
pub open spec fn kills_among(deliveries: Seq<Delivery>) -> nat
    decreases deliveries.len(),
{
    if deliveries.len() == 0 {
        0
    } else {
        kills_among(deliveries.drop_last()) + (if counts_as_kill(deliveries.last().outcome) {
            1nat
        } else {
            0nat
        })
    }
}

/// The memory that the deliveries reclaimed: the sum of the victims'
/// resident memory over the signals that were delivered.
pub open spec fn memory_reclaimed_by(deliveries: Seq<Delivery>) -> nat
    decreases deliveries.len(),
{
    if deliveries.len() == 0 {
        0
    } else {
        memory_reclaimed_by(deliveries.drop_last()) + reclaimed_by(
            deliveries.last().rss,
            deliveries.last().outcome,
        ) as nat
    }
}

/// Starting from empty books, the number of kills is the number of
/// deliveries that count as kills, and the memory reclaimed is the sum of
/// what they reclaimed, each held at the largest `u64`.
pub proof fn lemma_books_add_up(status: KillerStatus, deliveries: Seq<Delivery>)
    requires
        status.total_kills == 0,
        status.total_memory_reclaimed == 0,
    ensures
        status_after_all(status, deliveries).total_kills == capped_sum(
            kills_among(deliveries) as int,
            0,
        ),
        status_after_all(status, deliveries).total_memory_reclaimed == capped_sum(
            memory_reclaimed_by(deliveries) as int,
            0,
        ),
        status_after_all(status, deliveries).running_since == status.running_since,
    decreases deliveries.len(),
{
    if deliveries.len() > 0 {
        lemma_books_add_up(status, deliveries.drop_last());
    }
}

/// Neither counter ever falls, and the memory reclaimed changes only when
/// the number of kills does.
pub proof fn lemma_books_monotonic(
    status: KillerStatus,
    now: Millis,
    rss: u64,
    outcome: Result<(), SystemError>,
)
    ensures
        status_after(status, now, rss, outcome).total_kills >= status.total_kills,
        status_after(status, now, rss, outcome).total_memory_reclaimed
            >= status.total_memory_reclaimed,
        status.total_kills < u64::MAX && status_after(status, now, rss, outcome).total_kills
            == status.total_kills ==> status_after(status, now, rss, outcome) == status,
{
}

/// After a kill has been entered at `at`, the killer names no victim
/// until the configured interval has passed.
pub proof fn lemma_spacing(
    status: KillerStatus,
    at: Millis,
    rss: u64,
    outcome: Result<(), SystemError>,
    now: Millis,
    interval: Millis,
)
    requires
        counts_as_kill(outcome),
        at <= now,
        now - at < interval,
    ensures
        rate_limited(status_after(status, at, rss, outcome).last_kill_time, now, interval),
{
}

} // verus!

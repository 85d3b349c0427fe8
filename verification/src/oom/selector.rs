//! The selector: which process, if any, is to be terminated.
//!
//! A pass takes one reading of the host's memory and one list of processes.
//! It hands the reading to the pressure detector; under confirmed pressure
//! it keeps the eligible processes, scores them, and names the one that
//! outranks all others.

use crate::ffi::types::{Millis, ProcessId};
use crate::linux::proc::{
    names_contain, spec_is_oomable, spec_is_system_process, ProcessInfo, ProcessInfoView,
    OOM_SCORE_ADJ_MIN, OPEN_BRACKET, ZOMBIE,
};
use crate::linux::proc_stat::ProcessStat;
use crate::oom::pressure::{
    detector_after, detector_answer, elapsed, MemoryStats, PressureDetector,
};
use crate::oom::score::{
    adj_points, lemma_outranks_strict, lemma_outranks_transitive, memory_points, outranks,
    runtime_points_of, OOMScoreDetails, OOMScorer,
};
use vstd::prelude::*;

verus! {

/// What the selector may choose from.
#[derive(Debug, Clone, Copy, PartialEq, Eq, Structural)]
pub struct SelectorConfig {
    /// With fewer eligible processes than this the selector names none.
    pub min_candidates: usize,
    /// The most candidates that a pass keeps at a time.
    pub max_candidates: usize,
    /// Whether system processes are eligible.
    pub allow_system_processes: bool,
    /// The least resident memory, in bytes, of an eligible process.
    pub min_memory_threshold: u64,
}

/// The configuration used where none is given: at least three candidates,
/// ten kept, no system processes, one mebibyte.
pub open spec fn default_selector_config() -> SelectorConfig {
    SelectorConfig {
        min_candidates: 3,
        max_candidates: 10,
        allow_system_processes: false,
        min_memory_threshold: 1048576,
    }
}

impl Default for SelectorConfig {
    fn default() -> (c: SelectorConfig)
        ensures
            c == default_selector_config(),
    {
        SelectorConfig {
            min_candidates: 3,
            max_candidates: 10,
            allow_system_processes: false,
            min_memory_threshold: 1048576,
        }
    }
}

/// One process as a pass receives it: its record, and its scheduling
/// statistics where they could be read.
#[derive(Debug, Clone)]
pub struct ProcessSample {
    pub info: ProcessInfo,
    pub stat: Option<ProcessStat>,
}

/// A scored process and the memory that its end would free.
#[derive(Debug, Clone)]
pub struct Candidate {
    pub score_details: OOMScoreDetails,
    pub memory_saved: u64,
}

/// The candidates that a pass kept, lowest rank first, and the number of
/// processes that were eligible.
#[derive(Debug, Clone)]
pub struct CandidatePool {
    pub retained: Vec<Candidate>,
    pub eligible: usize,
}

/// What a selector reports about itself.
#[derive(Debug, Clone, Copy, PartialEq, Eq, Structural)]
pub struct SelectorStatus {
    pub memory_stats: MemoryStats,
    pub pressure_duration: Millis,
    pub last_check: Millis,
}

/// The selector.
#[derive(Debug, Clone)]
pub struct ProcessSelector {
    pub config: SelectorConfig,
    pub scorer: OOMScorer,
    pub pressure_detector: PressureDetector,
    /// The names that make a child of the first process a system process.
    pub system_names: Vec<Vec<u8>>,
}

/// Terminating the process frees memory at all, and at least one part in
/// a hundred of the host's.
pub open spec fn reclaim_worthwhile(vm_rss: u64, total_memory: u64) -> bool {
    vm_rss > 0 && vm_rss * 100 >= total_memory
}

/// A process is eligible when the policy on system processes admits it, it
/// holds at least the configured resident memory, the killer may terminate
/// it at all, and its end would free enough.
pub open spec fn eligible(
    p: ProcessInfoView,
    config: SelectorConfig,
    system_names: Seq<Vec<u8>>,
    total_memory: u64,
) -> bool {
    &&& config.allow_system_processes || !spec_is_system_process(p, system_names)
    &&& p.mem_info.vm_rss >= config.min_memory_threshold
    &&& spec_is_oomable(p)
    &&& reclaim_worthwhile(p.mem_info.vm_rss, total_memory)
}

/// All that a pass judges processes by.
pub struct SelectionPass {
    pub config: SelectorConfig,
    pub scorer: OOMScorer,
    pub system_names: Seq<Vec<u8>>,
    pub total_memory: u64,
    pub uptime: Millis,
}

impl SelectionPass {
    /// Whether the pass admits a process as a candidate.
    pub open spec fn admits(self, p: ProcessInfo) -> bool {
        eligible(p@, self.config, self.system_names, self.total_memory)
    }

    /// The score that the pass gives a process.
    pub open spec fn score(self, s: ProcessSample) -> OOMScoreDetails {
        OOMScoreDetails {
            total_score: self.scorer.total_points(
                s.info.mem_info,
                s.stat,
                self.uptime,
                self.total_memory,
            ) as i128,
            memory_score: memory_points(s.info.mem_info) as u128,
            runtime_score: runtime_points_of(s.stat, self.uptime, self.scorer.clock_rate()) as u32,
            adj_score: adj_points(s.info.mem_info.oom_score_adj) as i32,
            total_memory: self.total_memory,
            process: s.info,
        }
    }

    /// The candidate that the pass makes of a process.
    pub open spec fn candidate(self, s: ProcessSample) -> Candidate {
        Candidate { score_details: self.score(s), memory_saved: s.info.mem_info.vm_rss }
    }

    /// How many of the processes are eligible.
    pub open spec fn eligible_count(self, samples: Seq<ProcessSample>) -> nat
        decreases samples.len(),
    {
        if samples.len() == 0 {
            0
        } else {
            self.eligible_count(samples.drop_last()) + (if self.admits(samples.last().info) {
                1nat
            } else {
                0nat
            })
        }
    }

    /// The index of the eligible process that outranks all others; of two
    /// that are ranked the same, the earlier.
    pub open spec fn best(self, samples: Seq<ProcessSample>) -> Option<int>
        decreases samples.len(),
    {
        if samples.len() == 0 {
            None
        } else {
            let earlier = self.best(samples.drop_last());
            if !self.admits(samples.last().info) {
                earlier
            } else {
                match earlier {
                    Some(b) => if outranks(self.score(samples.last()), self.score(samples[b])) {
                        Some(samples.len() - 1)
                    } else {
                        Some(b)
                    },
                    None => Some(samples.len() - 1),
                }
            }
        }
    }

    /// The index of the victim: none where fewer processes are eligible
    /// than the configuration asks for, or where no candidate may be kept;
    /// the best eligible process otherwise.
    pub open spec fn victim(self, samples: Seq<ProcessSample>) -> Option<int> {
        if self.eligible_count(samples) < self.config.min_candidates || self.config.max_candidates
            == 0 {
            None
        } else {
            self.best(samples)
        }
    }

    /// Whether `c` is the candidate of an eligible process among `samples`.
    pub open spec fn comes_from(self, samples: Seq<ProcessSample>, c: Candidate) -> bool {
        exists|i: int|
            0 <= i < samples.len() && self.admits((#[trigger] samples[i]).info) && self.candidate(
                samples[i],
            ) == c
    }

    /// Every candidate in the pool is that of an eligible process.
    pub open spec fn drawn_from(self, samples: Seq<ProcessSample>, pool: Seq<Candidate>) -> bool {
        forall|k: int| 0 <= k < pool.len() ==> self.comes_from(samples, #[trigger] pool[k])
    }

    /// The pool holds the highest-ranked eligible processes: each eligible
    /// process is in it, or the pool is full and the process does not
    /// outrank the lowest in it.
    pub open spec fn retains_top(self, samples: Seq<ProcessSample>, pool: Seq<Candidate>) -> bool {
        forall|i: int|
            0 <= i < samples.len() && self.admits((#[trigger] samples[i]).info) ==> holds(
                pool,
                self.candidate(samples[i]),
            ) || (pool.len() == self.config.max_candidates && (pool.len() == 0 || !outranks(
                self.score(samples[i]),
                pool[0].score_details,
            )))
    }

    /// What the pool of a pass over `samples` is: the candidates of the
    /// highest-ranked eligible processes, as many as may be kept, lowest
    /// rank first.
    pub open spec fn pool_of(self, samples: Seq<ProcessSample>, pool: Seq<Candidate>) -> bool {
        &&& ascending(pool)
        &&& pool.len() == (if self.eligible_count(samples) <= self.config.max_candidates {
            self.eligible_count(samples)
        } else {
            self.config.max_candidates as nat
        })
        &&& self.drawn_from(samples, pool)
        &&& self.retains_top(samples, pool)
        &&& self.config.max_candidates > 0 ==> match self.best(samples) {
            Some(b) => pool.len() > 0 && pool.last() == self.candidate(samples[b]),
            None => pool.len() == 0,
        }
    }
}

/// The process that a selector names in a pass: none without confirmed
/// pressure, the victim of the pass otherwise.
pub open spec fn selection(
    selector: ProcessSelector,
    now: Millis,
    stats: MemoryStats,
    samples: Seq<ProcessSample>,
    uptime: Millis,
) -> Option<ProcessId> {
    if detector_answer(selector.pressure_detector, stats, now) {
        match selector.pass(stats.total_memory, uptime).victim(samples) {
            Some(i) => Some(samples[i].info.pid),
            None => None,
        }
    } else {
        None
    }
}

/// Whether the pool holds `c`.
pub open spec fn holds(pool: Seq<Candidate>, c: Candidate) -> bool {
    exists|k: int| 0 <= k < pool.len() && #[trigger] pool[k] == c
}

/// No candidate in the pool outranks a later one.
pub open spec fn ascending(pool: Seq<Candidate>) -> bool {
    forall|i: int, j: int|
        0 <= i < j < pool.len() ==> !outranks(
            (#[trigger] pool[i]).score_details,
            (#[trigger] pool[j]).score_details,
        )
}

/// The best eligible process is eligible, and no eligible process
/// outranks it.
pub proof fn lemma_best_is_maximal(pass: SelectionPass, samples: Seq<ProcessSample>)
    ensures
        match pass.best(samples) {
            Some(b) => {
                &&& 0 <= b < samples.len()
                &&& pass.admits(samples[b].info)
                &&& forall|i: int|
                    0 <= i < samples.len() && pass.admits((#[trigger] samples[i]).info)
                        ==> !outranks(pass.score(samples[i]), pass.score(samples[b]))
            },
            None => forall|i: int|
                0 <= i < samples.len() ==> !pass.admits((#[trigger] samples[i]).info),
        },
    decreases samples.len(),
{
    if samples.len() > 0 {
        let front = samples.drop_last();
        let last = samples.len() - 1;
        lemma_best_is_maximal(pass, front);
        assert forall|i: int| 0 <= i < front.len() implies front[i] == samples[i] by {}
        match pass.best(samples) {
            Some(b) => {
                assert forall|i: int|
                    0 <= i < samples.len() && pass.admits(
                        (#[trigger] samples[i]).info,
                    ) implies !outranks(pass.score(samples[i]), pass.score(samples[b])) by {
                    lemma_outranks_strict(pass.score(samples[i]), pass.score(samples[b]));
                    match pass.best(front) {
                        Some(e) => {
                            if i < last {
                                assert(front[i] == samples[i]);
                                lemma_outranks_transitive(
                                    pass.score(samples[i]),
                                    pass.score(samples[e]),
                                    pass.score(samples[b]),
                                );
                                lemma_outranks_strict(
                                    pass.score(samples[e]),
                                    pass.score(samples[b]),
                                );
                            }
                        },
                        None => {
                            if i < last {
                                assert(front[i] == samples[i]);
                            }
                        },
                    }
                }
            },
            None => {
                assert forall|i: int| 0 <= i < samples.len() implies !pass.admits(
                    (#[trigger] samples[i]).info,
                ) by {
                    if i < last {
                        assert(front[i] == samples[i]);
                    }
                }
            },
        }
    }
}

/// There is a best eligible process exactly when some process is
/// eligible, and no more processes are eligible than there are.
pub proof fn lemma_eligible_count(pass: SelectionPass, samples: Seq<ProcessSample>)
    ensures
        pass.eligible_count(samples) <= samples.len(),
        pass.eligible_count(samples) > 0 <==> pass.best(samples) is Some,
    decreases samples.len(),
{
    if samples.len() > 0 {
        lemma_eligible_count(pass, samples.drop_last());
    }
}

/// The victim of a pass is eligible, and no eligible process outranks it.
/// So it is no kernel thread, its name does not begin with `[`, its
/// adjustment is above -1000, it is no zombie, it holds at least the
/// configured resident memory, and its end frees at least one part in a
/// hundred of the host's memory.
pub proof fn lemma_victim_is_eligible(pass: SelectionPass, samples: Seq<ProcessSample>)
    ensures
        pass.victim(samples) matches Some(v) ==> {
            let p = samples[v].info;
            &&& 0 <= v < samples.len()
            &&& pass.admits(p)
            &&& forall|i: int|
                0 <= i < samples.len() && pass.admits((#[trigger] samples[i]).info) ==> !outranks(
                    pass.score(samples[i]),
                    pass.score(samples[v]),
                )
            &&& p.mem_info.oom_score_adj > OOM_SCORE_ADJ_MIN
            &&& p.mem_info.vm_rss >= pass.config.min_memory_threshold
            &&& p.mem_info.vm_rss * 100 >= pass.total_memory
            &&& !(p.name@.len() > 0 && p.name@[0] == OPEN_BRACKET)
            &&& !(p.state@.len() > 0 && p.state@[0] == ZOMBIE)
            &&& pass.config.allow_system_processes || !spec_is_system_process(
                p@,
                pass.system_names,
            )
        },
{
    lemma_best_is_maximal(pass, samples);
}

/// With fewer eligible processes than the configuration asks for, a pass
/// has no victim; nor has a selector, whatever the pressure.
pub proof fn lemma_too_few_candidates(
    selector: ProcessSelector,
    now: Millis,
    stats: MemoryStats,
    samples: Seq<ProcessSample>,
    uptime: Millis,
)
    requires
        selector.pass(stats.total_memory, uptime).eligible_count(samples)
            < selector.config.min_candidates,
    ensures
        selector.pass(stats.total_memory, uptime).victim(samples) is None,
        selection(selector, now, stats, samples, uptime) is None,
{
}

/// Without confirmed pressure a selector names no process.
pub proof fn lemma_no_pressure_no_victim(
    selector: ProcessSelector,
    now: Millis,
    stats: MemoryStats,
    samples: Seq<ProcessSample>,
    uptime: Millis,
)
    requires
        !detector_answer(selector.pressure_detector, stats, now),
    ensures
        selection(selector, now, stats, samples, uptime) is None,
{
}

/// Two lists of processes hold the same: as many processes, and at each
/// place records of the same content and start times that agree.
pub open spec fn same_samples(a: Seq<ProcessSample>, b: Seq<ProcessSample>) -> bool {
    &&& a.len() == b.len()
    &&& forall|i: int|
        0 <= i < a.len() ==> (#[trigger] a[i]).info@ == (#[trigger] b[i]).info@ && (match (
            a[i].stat,
            b[i].stat,
        ) {
            (Some(x), Some(y)) => x.start_time == y.start_time,
            (None, None) => true,
            _ => false,
        })
}

/// Two deny-lists hold the same names.
pub open spec fn same_names(a: Seq<Vec<u8>>, b: Seq<Vec<u8>>) -> bool {
    &&& a.len() == b.len()
    &&& forall|i: int| 0 <= i < a.len() ==> (#[trigger] a[i])@ == (#[trigger] b[i])@
}

/// Two passes judge alike: same configuration, weights and clock rate,
/// same names on the deny-list, same total memory and time since boot.
pub open spec fn same_pass(a: SelectionPass, b: SelectionPass) -> bool {
    &&& a.config == b.config
    &&& a.scorer == b.scorer
    &&& same_names(a.system_names, b.system_names)
    &&& a.total_memory == b.total_memory
    &&& a.uptime == b.uptime
}

proof fn lemma_same_admits(a: SelectionPass, b: SelectionPass, x: ProcessInfo, y: ProcessInfo)
    requires
        same_pass(a, b),
        x@ == y@,
    ensures
        a.admits(x) == b.admits(y),
{
    if names_contain(a.system_names, x@.name) {
        let i = choose|i: int|
            0 <= i < a.system_names.len() && (#[trigger] a.system_names[i])@ == x@.name;
        assert(b.system_names[i]@ == y@.name);
    }
    if names_contain(b.system_names, y@.name) {
        let i = choose|i: int|
            0 <= i < b.system_names.len() && (#[trigger] b.system_names[i])@ == y@.name;
        assert(a.system_names[i]@ == x@.name);
    }
}

/// Passes that judge alike find, in lists that hold the same, as many
/// eligible processes and the same best one.
pub proof fn lemma_same_best(
    a: SelectionPass,
    b: SelectionPass,
    xs: Seq<ProcessSample>,
    ys: Seq<ProcessSample>,
)
    requires
        same_pass(a, b),
        same_samples(xs, ys),
    ensures
        a.eligible_count(xs) == b.eligible_count(ys),
        a.best(xs) == b.best(ys),
    decreases xs.len(),
{
    if xs.len() > 0 {
        let xf = xs.drop_last();
        let yf = ys.drop_last();
        assert forall|i: int| 0 <= i < xf.len() implies (#[trigger] xf[i]).info@ == (
        #[trigger] yf[i]).info@ && (match (xf[i].stat, yf[i].stat) {
            (Some(x), Some(y)) => x.start_time == y.start_time,
            (None, None) => true,
            _ => false,
        }) by {
            assert(xf[i] == xs[i] && yf[i] == ys[i]);
        }
        lemma_same_best(a, b, xf, yf);
        let last = xs.len() - 1;
        assert(xs[last].info@ == ys[last].info@);
        lemma_same_admits(a, b, xs.last().info, ys.last().info);
        match a.best(xf) {
            Some(e) => {
                lemma_best_is_maximal(a, xf);
                assert(xf[e] == xs[e] && yf[e] == ys[e]);
                assert(xs[e].info@ == ys[e].info@);
            },
            None => {},
        }
    }
}

/// Determinism. Selectors in the same state, given the same reading at the
/// same time and lists of processes that hold the same, name the same
/// process.
pub proof fn lemma_selection_deterministic(
    a: ProcessSelector,
    b: ProcessSelector,
    now: Millis,
    stats: MemoryStats,
    xs: Seq<ProcessSample>,
    ys: Seq<ProcessSample>,
    uptime: Millis,
)
    requires
        a.config == b.config,
        a.scorer == b.scorer,
        a.pressure_detector == b.pressure_detector,
        same_names(a.system_names@, b.system_names@),
        same_samples(xs, ys),
    ensures
        selection(a, now, stats, xs, uptime) == selection(b, now, stats, ys, uptime),
{
    let pa = a.pass(stats.total_memory, uptime);
    let pb = b.pass(stats.total_memory, uptime);
    lemma_same_best(pa, pb, xs, ys);
    match pa.best(xs) {
        Some(v) => {
            lemma_best_is_maximal(pa, xs);
            assert(xs[v].info@ == ys[v].info@);
        },
        None => {},
    }
}

/// A candidate that stands for a process among `samples` stands for one
/// among any longer list.
proof fn lemma_comes_from_extends(
    pass: SelectionPass,
    samples: Seq<ProcessSample>,
    s: ProcessSample,
    c: Candidate,
)
    requires
        pass.comes_from(samples, c),
    ensures
        pass.comes_from(samples.push(s), c),
{
    let i = choose|i: int|
        0 <= i < samples.len() && pass.admits((#[trigger] samples[i]).info) && pass.candidate(
            samples[i],
        ) == c;
    assert(samples.push(s)[i] == samples[i]);
}

/// A process that is not eligible leaves the pool as it is.
proof fn lemma_pool_skip(
    pass: SelectionPass,
    samples: Seq<ProcessSample>,
    s: ProcessSample,
    pool: Seq<Candidate>,
)
    requires
        pass.pool_of(samples, pool),
        !pass.admits(s.info),
    ensures
        pass.pool_of(samples.push(s), pool),
{
    let longer = samples.push(s);
    assert(longer.drop_last() =~= samples);
    assert(longer.last() == s);
    assert forall|k: int| 0 <= k < pool.len() implies pass.comes_from(
        longer,
        #[trigger] pool[k],
    ) by {
        lemma_comes_from_extends(pass, samples, s, pool[k]);
    }
    assert forall|i: int|
        0 <= i < longer.len() && pass.admits((#[trigger] longer[i]).info) implies holds(
        pool,
        pass.candidate(longer[i]),
    ) || (pool.len() == pass.config.max_candidates && (pool.len() == 0 || !outranks(
        pass.score(longer[i]),
        pool[0].score_details,
    ))) by {
        assert(longer[i] == samples[i]);
    }
    if pass.config.max_candidates > 0 {
        match pass.best(samples) {
            Some(b) => {
                lemma_best_is_maximal(pass, samples);
                assert(longer[b] == samples[b]);
            },
            None => {},
        }
    }
}

/// The pool after a candidate has entered it at place `p` and, where the
/// pool had grown beyond `max`, the lowest has left.
pub open spec fn pool_after(pool: Seq<Candidate>, p: int, c: Candidate, max: int) -> Seq<
    Candidate,
> {
    let grown = pool.insert(p, c);
    if grown.len() > max {
        grown.remove(0)
    } else {
        grown
    }
}

/// Each candidate of the grown pool stays, or is the lowest of a pool
/// that was too large and is not ranked above the lowest that stays.
proof fn lemma_grown_kept(grown: Seq<Candidate>, max: int, m: int)
    requires
        ascending(grown),
        0 <= max,
        grown.len() <= max + 1,
        0 <= m < grown.len(),
    ensures
        ({
            let kept = if grown.len() > max {
                grown.remove(0)
            } else {
                grown
            };
            holds(kept, grown[m]) || (kept.len() == max && (kept.len() == 0 || !outranks(
                grown[m].score_details,
                kept[0].score_details,
            )))
        }),
{
    let kept = if grown.len() > max {
        grown.remove(0)
    } else {
        grown
    };
    if grown.len() <= max {
        assert(kept[m] == grown[m]);
    } else if m > 0 {
        assert(kept[m - 1] == grown[m]);
    } else if kept.len() > 0 {
        assert(kept[0] == grown[1]);
    }
}

/// After a step every candidate in the pool is that of an eligible
/// process.
proof fn lemma_step_drawn(
    pass: SelectionPass,
    samples: Seq<ProcessSample>,
    s: ProcessSample,
    pool: Seq<Candidate>,
    p: int,
)
    requires
        pass.drawn_from(samples, pool),
        pass.admits(s.info),
        0 <= p <= pool.len(),
    ensures
        pass.drawn_from(
            samples.push(s),
            pool_after(pool, p, pass.candidate(s), pass.config.max_candidates as int),
        ),
{
    let longer = samples.push(s);
    let grown = pool.insert(p, pass.candidate(s));
    let kept = pool_after(pool, p, pass.candidate(s), pass.config.max_candidates as int);
    assert forall|k: int| 0 <= k < grown.len() implies pass.comes_from(
        longer,
        #[trigger] grown[k],
    ) by {
        if k == p {
            assert(longer[samples.len() as int] == s);
        } else {
            let before = if k < p {
                k
            } else {
                k - 1
            };
            assert(grown[k] == pool[before]);
            lemma_comes_from_extends(pass, samples, s, pool[before]);
        }
    }
    assert forall|k: int| 0 <= k < kept.len() implies pass.comes_from(
        longer,
        #[trigger] kept[k],
    ) by {
        if grown.len() > pass.config.max_candidates {
            assert(kept[k] == grown[k + 1]);
        }
    }
}

/// A pool stays in ascending order when its lowest candidate leaves.
proof fn lemma_step_ascending(grown: Seq<Candidate>)
    requires
        ascending(grown),
        grown.len() > 0,
    ensures
        ascending(grown.remove(0)),
{
    let kept = grown.remove(0);
    assert forall|i: int, j: int| 0 <= i < j < kept.len() implies !outranks(
        (#[trigger] kept[i]).score_details,
        (#[trigger] kept[j]).score_details,
    ) by {
        assert(kept[i] == grown[i + 1]);
        assert(kept[j] == grown[j + 1]);
    }
}

/// After a step the pool still holds the highest-ranked eligible
/// processes.
proof fn lemma_step_retains(
    pass: SelectionPass,
    samples: Seq<ProcessSample>,
    s: ProcessSample,
    pool: Seq<Candidate>,
    p: int,
)
    requires
        pass.retains_top(samples, pool),
        pool.len() <= pass.config.max_candidates,
        pass.admits(s.info),
        0 <= p <= pool.len(),
        ascending(pool.insert(p, pass.candidate(s))),
        forall|j: int|
            p <= j < pool.len() ==> !outranks(pass.score(s), (#[trigger] pool[j]).score_details),
    ensures
        pass.retains_top(
            samples.push(s),
            pool_after(pool, p, pass.candidate(s), pass.config.max_candidates as int),
        ),
{
    let longer = samples.push(s);
    let c = pass.candidate(s);
    let max = pass.config.max_candidates as int;
    let grown = pool.insert(p, c);
    let kept = pool_after(pool, p, c, max);
    assert forall|i: int|
        0 <= i < longer.len() && pass.admits((#[trigger] longer[i]).info) implies holds(
        kept,
        pass.candidate(longer[i]),
    ) || (kept.len() == max && (kept.len() == 0 || !outranks(
        pass.score(longer[i]),
        kept[0].score_details,
    ))) by {
        if i == samples.len() {
            assert(grown[p] == pass.candidate(longer[i]));
            lemma_grown_kept(grown, max, p);
        } else {
            assert(longer[i] == samples[i]);
            let ci = pass.candidate(samples[i]);
            if holds(pool, ci) {
                let k = choose|k: int| 0 <= k < pool.len() && #[trigger] pool[k] == ci;
                let m = if k < p {
                    k
                } else {
                    k + 1
                };
                assert(grown[m] == ci);
                lemma_grown_kept(grown, max, m);
            } else {
                // the pool was full, so the grown pool loses its lowest
                assert(grown.len() > max);
                if kept.len() > 0 {
                    assert(kept[0] == grown[1]);
                    if p > 0 {
                        assert(grown[0] == pool[0]);
                        lemma_outranks_transitive(
                            pass.score(samples[i]),
                            grown[0].score_details,
                            grown[1].score_details,
                        );
                    } else {
                        assert(grown[1] == pool[0]);
                    }
                }
            }
        }
    }
}

/// After a step the highest candidate of the pool is the best eligible
/// process.
proof fn lemma_step_best(
    pass: SelectionPass,
    samples: Seq<ProcessSample>,
    s: ProcessSample,
    pool: Seq<Candidate>,
    p: int,
)
    requires
        pass.config.max_candidates > 0,
        pool.len() <= pass.config.max_candidates,
        match pass.best(samples) {
            Some(b) => pool.len() > 0 && pool.last() == pass.candidate(samples[b]),
            None => pool.len() == 0,
        },
        pass.admits(s.info),
        0 <= p <= pool.len(),
        forall|j: int|
            p <= j < pool.len() ==> !outranks(pass.score(s), (#[trigger] pool[j]).score_details),
        p > 0 ==> outranks(pass.score(s), pool[p - 1].score_details),
    ensures
        ({
            let longer = samples.push(s);
            let kept = pool_after(pool, p, pass.candidate(s), pass.config.max_candidates as int);
            &&& pass.best(longer) is Some
            &&& kept.len() > 0
            &&& kept.last() == pass.candidate(longer[pass.best(longer).unwrap()])
        }),
{
    let longer = samples.push(s);
    let c = pass.candidate(s);
    let grown = pool.insert(p, c);
    let kept = pool_after(pool, p, c, pass.config.max_candidates as int);
    assert(longer.drop_last() =~= samples);
    assert(longer.last() == s);
    lemma_best_is_maximal(pass, samples);
    assert(kept.last() == grown.last());
    match pass.best(samples) {
        Some(b) => {
            assert(longer[b] == samples[b]);
            if p == pool.len() {
                assert(grown.last() == c);
            } else {
                assert(grown.last() == pool.last());
                assert(!outranks(pass.score(s), pool[pool.len() - 1].score_details));
            }
        },
        None => {},
    }
}

/// An eligible process enters the pool at its rank, and the lowest
/// candidate leaves a pool that has grown beyond what may be kept.
proof fn lemma_pool_step(
    pass: SelectionPass,
    samples: Seq<ProcessSample>,
    s: ProcessSample,
    pool: Seq<Candidate>,
    p: int,
)
    requires
        pass.pool_of(samples, pool),
        pass.admits(s.info),
        0 <= p <= pool.len(),
        ascending(pool.insert(p, pass.candidate(s))),
        forall|j: int|
            p <= j < pool.len() ==> !outranks(pass.score(s), (#[trigger] pool[j]).score_details),
        p > 0 ==> outranks(pass.score(s), pool[p - 1].score_details),
    ensures
        pass.pool_of(
            samples.push(s),
            pool_after(pool, p, pass.candidate(s), pass.config.max_candidates as int),
        ),
{
    let longer = samples.push(s);
    let grown = pool.insert(p, pass.candidate(s));
    assert(longer.drop_last() =~= samples);
    assert(longer.last() == s);
    lemma_step_drawn(pass, samples, s, pool, p);
    if grown.len() > pass.config.max_candidates {
        lemma_step_ascending(grown);
    }
    lemma_step_retains(pass, samples, s, pool, p);
    if pass.config.max_candidates > 0 {
        lemma_step_best(pass, samples, s, pool, p);
    }
}

/// Puts a candidate into an ascending pool, above every candidate that it
/// outranks and below all others, and says at which place.
fn insert_ranked(pool: &mut Vec<Candidate>, c: Candidate) -> (p: usize)
    requires
        ascending(old(pool)@),
    ensures
        p <= old(pool)@.len(),
        final(pool)@ == old(pool)@.insert(p as int, c),
        ascending(final(pool)@),
        forall|j: int|
            p <= j < old(pool)@.len() ==> !outranks(
                c.score_details,
                (#[trigger] old(pool)@[j]).score_details,
            ),
        p > 0 ==> outranks(c.score_details, old(pool)@[p - 1].score_details),
{
    let mut p: usize = pool.len();
    while p > 0 && !c.score_details.outranks(&pool[p - 1].score_details)
        invariant
            p <= pool.len(),
            pool@ == old(pool)@,
            forall|j: int|
                p <= j < pool@.len() ==> !outranks(
                    c.score_details,
                    (#[trigger] pool@[j]).score_details,
                ),
        decreases p,
    {
        p -= 1;
    }
    let ghost before = pool@;
    pool.insert(p, c);
    proof {
        let after = pool@;
        assert forall|i: int, j: int| 0 <= i < j < after.len() implies !outranks(
            (#[trigger] after[i]).score_details,
            (#[trigger] after[j]).score_details,
        ) by {
            if j < p {
                assert(after[i] == before[i] && after[j] == before[j]);
            } else if j == p {
                assert(after[i] == before[i]);
                lemma_outranks_strict(c.score_details, before[p - 1].score_details);
                if i < p - 1 {
                    lemma_outranks_transitive(
                        c.score_details,
                        before[p - 1].score_details,
                        before[i].score_details,
                    );
                    lemma_outranks_strict(c.score_details, before[i].score_details);
                }
            } else if i == p {
                assert(after[j] == before[j - 1]);
            } else if i < p {
                assert(after[i] == before[i] && after[j] == before[j - 1]);
            } else {
                assert(after[i] == before[i - 1] && after[j] == before[j - 1]);
            }
        }
    }
    p
}

impl ProcessSelector {
    /// A selector, with the default configuration where none is given and
    /// no names on the deny-list.
    pub fn new(config: Option<SelectorConfig>, scorer: OOMScorer, pressure_detector: PressureDetector)
        -> (s: ProcessSelector)
        ensures
            s.config == (match config {
                Some(c) => c,
                None => default_selector_config(),
            }),
            s.scorer == scorer,
            s.pressure_detector == pressure_detector,
            s.system_names@.len() == 0,
    {
        ProcessSelector {
            config: match config {
                Some(c) => c,
                None => SelectorConfig::default(),
            },
            scorer,
            pressure_detector,
            system_names: Vec::new(),
        }
    }

    /// The same selector with the names that make a child of the first
    /// process a system process.
    pub fn with_system_names(self, names: Vec<Vec<u8>>) -> (s: ProcessSelector)
        ensures
            s.config == self.config,
            s.scorer == self.scorer,
            s.pressure_detector == self.pressure_detector,
            s.system_names == names,
    {
        ProcessSelector {
            config: self.config,
            scorer: self.scorer,
            pressure_detector: self.pressure_detector,
            system_names: names,
        }
    }

    /// What this selector judges processes by in a pass.
    pub open spec fn pass(self, total_memory: u64, uptime: Millis) -> SelectionPass {
        SelectionPass {
            config: self.config,
            scorer: self.scorer,
            system_names: self.system_names@,
            total_memory,
            uptime,
        }
    }

    /// Whether a process is eligible.
    pub fn is_valid_candidate(&self, process: &ProcessInfo, memory_stats: &MemoryStats) -> (r: bool)
        ensures
            r == eligible(process@, self.config, self.system_names@, memory_stats.total_memory),
    {
        if !self.config.allow_system_processes && process.is_system_process(&self.system_names) {
            return false;
        }
        if process.mem_info.vm_rss < self.config.min_memory_threshold {
            return false;
        }
        if !process.is_oomable() {
            return false;
        }
        process.mem_info.vm_rss > 0 && (process.mem_info.vm_rss as u128) * 100
            >= memory_stats.total_memory as u128
    }

    /// Scores the eligible processes and keeps the highest-ranked of
    /// them, as many as the configuration allows.
    pub fn get_candidates(
        &self,
        memory_stats: &MemoryStats,
        samples: Vec<ProcessSample>,
        uptime: Millis,
    ) -> (pool: CandidatePool)
        ensures
            pool.eligible == self.pass(memory_stats.total_memory, uptime).eligible_count(
                samples@,
            ),
            self.pass(memory_stats.total_memory, uptime).pool_of(samples@, pool.retained@),
    {
        let ghost pass = self.pass(memory_stats.total_memory, uptime);
        let ghost all = samples@;
        let mut retained: Vec<Candidate> = Vec::new();
        let mut count: usize = 0;
        let total = samples.len();
        assert(all.take(0) =~= Seq::<ProcessSample>::empty());
        for sample in it: samples
            invariant
                it.seq() == all,
                all.len() == total,
                pass == self.pass(memory_stats.total_memory, uptime),
                count == pass.eligible_count(all.take(it.index() as int)),
                count <= it.index(),
                pass.pool_of(all.take(it.index() as int), retained@),
        {
            let ghost seen = all.take(it.index() as int);
            assert(all.take(it.index() + 1) =~= seen.push(sample));
            assert(seen.push(sample).drop_last() =~= seen);
            let ProcessSample { info, stat } = sample;
            if self.is_valid_candidate(&info, memory_stats) {
                let memory_saved = info.mem_info.vm_rss;
                let score_details = self.scorer.calculate_score(
                    info,
                    memory_stats.total_memory,
                    stat.as_ref(),
                    uptime,
                );
                let c = Candidate { score_details, memory_saved };
                assert(c == pass.candidate(sample));
                let ghost pool = retained@;
                let p = insert_ranked(&mut retained, c);
                if retained.len() > self.config.max_candidates {
                    retained.remove(0);
                }
                assert(count < all.len());
                count += 1;
                proof {
                    lemma_pool_step(pass, seen, sample, pool, p as int);
                    assert(retained@ == pool_after(
                        pool,
                        p as int,
                        c,
                        self.config.max_candidates as int,
                    ));
                }
            } else {
                proof {
                    lemma_pool_skip(pass, seen, sample, retained@);
                }
            }
        }
        assert(all.take(all.len() as int) =~= all);
        CandidatePool { retained, eligible: count }
    }

    /// Names the process to terminate, if any.
    ///
    /// The reading goes to the pressure detector first. Without confirmed
    /// pressure no process is named. Under pressure the eligible processes
    /// are scored against the reading's total memory; with fewer of them
    /// than the configuration asks for, none is named; otherwise the one
    /// that outranks all others is.
    pub fn select_process(
        &mut self,
        now: Millis,
        memory_stats: &MemoryStats,
        samples: Vec<ProcessSample>,
        uptime: Millis,
    ) -> (victim: Option<ProcessId>)
        ensures
            final(self).config == old(self).config,
            final(self).scorer == old(self).scorer,
            final(self).system_names == old(self).system_names,
            final(self).pressure_detector == detector_after(
                old(self).pressure_detector,
                *memory_stats,
                now,
            ),
            victim == selection(*old(self), now, *memory_stats, samples@, uptime),
    {
        if !self.pressure_detector.check_pressure(memory_stats, now) {
            return None;
        }
        let pool = self.get_candidates(memory_stats, samples, uptime);
        if pool.eligible < self.config.min_candidates {
            return None;
        }
        let n = pool.retained.len();
        if n == 0 {
            proof {
                lemma_eligible_count(self.pass(memory_stats.total_memory, uptime), samples@);
            }
            return None;
        }
        Some(pool.retained[n - 1].score_details.process.pid)
    }

    /// What the selector reports at `now` for a reading.
    pub fn get_status(&self, stats: MemoryStats, now: Millis) -> (status: SelectorStatus)
        ensures
            status.memory_stats == stats,
            status.pressure_duration == (match self.pressure_detector.pressure_start {
                Some(start) => elapsed(now, start),
                None => 0,
            }),
            status.last_check == elapsed(now, self.pressure_detector.last_pressure_check),
    {
        let info = self.pressure_detector.get_pressure_info(stats, now);
        SelectorStatus {
            memory_stats: info.stats,
            pressure_duration: info.pressure_duration,
            last_check: info.last_check,
        }
    }
}

} // verus!

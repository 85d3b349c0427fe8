//! The scorer: how desirable a process is as a victim.
//!
//! A score is the weighted sum of three subscores: the share of memory the
//! process holds, its youth, and the administrator's adjustment. All of it
//! is exact integer arithmetic; each value is a count of points, and the
//! number of points that make a score of one is given beside it.

use crate::ffi::types::Millis;
use crate::linux::proc::{ProcessInfo, ProcessMemInfo, OOM_SCORE_ADJ_MAX, OOM_SCORE_ADJ_MIN};
use crate::linux::proc_stat::{
    calculate_runtime_score, running_millis, runtime_points, ProcessStat,
    DEFAULT_TICKS_PER_SECOND, RUNTIME_SCALE, UNKNOWN_RUNTIME_SCORE,
};
use crate::linux::text::{decimal_of, parse_decimal};
use crate::oom::arith::lemma_mul_le;
use crate::oom::pressure::RATIO_SCALE;
use vstd::prelude::*;

verus! {

/// The weight of the memory subscore where none is configured: 0.6.
pub const DEFAULT_MEMORY_WEIGHT: u32 = 600000;

/// The weight of the runtime subscore where none is configured: 0.2.
pub const DEFAULT_RUNTIME_WEIGHT: u32 = 200000;

/// The weight of the adjustment subscore where none is configured: 0.2.
pub const DEFAULT_ADJ_WEIGHT: u32 = 200000;

/// The points of the memory subscore that one part in ten of all memory
/// is worth when scores are added up.
pub const MEMORY_FACTOR: u32 = 864000;

/// The points of the adjustment subscore that one thousandth is worth, per
/// byte of all memory, when scores are added up.
pub const ADJ_FACTOR: u32 = 8640;

/// The points of the runtime subscore that one point is worth, per byte
/// of all memory, when scores are added up.
pub const RUNTIME_FACTOR: u32 = 10;

/// The weights of the three subscores, in parts per million, and the clock
/// tick rate by which start times are read.
#[derive(Debug, Clone, Copy)]
pub struct OOMScorer {
    mem_pressure_weight: u32,
    runtime_weight: u32,
    oom_score_adj_weight: u32,
    ticks_per_second: u64,
}

/// The score of one process, with its parts.
#[derive(Debug, Clone)]
pub struct OOMScoreDetails {
    /// The weighted sum, in points of which `total_scale(total_memory)`
    /// make a score of one.
    pub total_score: i128,
    /// Seven parts resident memory and three parts swap, in points of
    /// which ten times the total memory make a score of one.
    pub memory_score: u128,
    /// In points of which `RUNTIME_SCALE` make a score of one.
    pub runtime_score: u32,
    /// In thousandths.
    pub adj_score: i32,
    /// The total memory of the host that the score was computed against.
    pub total_memory: u64,
    pub process: ProcessInfo,
}

/// The points of a total score that make a score of one.
pub open spec fn total_scale(total_memory: u64) -> int {
    RATIO_SCALE * 8640000 * total_memory
}

/// The memory subscore: `0.7 * rss / total + 0.3 * swap / total`, in
/// points of which `10 * total` make one.
pub open spec fn memory_points(mem: ProcessMemInfo) -> int {
    7 * mem.vm_rss + 3 * mem.vm_swap
}

/// The adjustment subscore: `oom_score_adj / 1000`, in thousandths. An
/// adjustment outside the range that the kernel allows counts as the
/// nearest bound.
pub open spec fn adj_points(oom_score_adj: i32) -> int {
    if oom_score_adj < OOM_SCORE_ADJ_MIN {
        OOM_SCORE_ADJ_MIN as int
    } else if oom_score_adj > OOM_SCORE_ADJ_MAX {
        OOM_SCORE_ADJ_MAX as int
    } else {
        oom_score_adj as int
    }
}

/// The runtime subscore of a process: by its age where its statistics
/// could be read, one half where they could not.
pub open spec fn runtime_points_of(
    stat: Option<ProcessStat>,
    uptime: Millis,
    ticks_per_second: u64,
) -> int {
    match stat {
        Some(s) => runtime_points(
            (running_millis(uptime, s.start_time, ticks_per_second) / 1000) as nat,
        ) as int,
        None => UNKNOWN_RUNTIME_SCORE as int,
    }
}

/// The weighted sum of the three subscores, in points of which
/// `total_scale(total_memory)` make one.
pub open spec fn weighted_total(
    mem_weight: u32,
    runtime_weight: u32,
    adj_weight: u32,
    memory: int,
    runtime: int,
    adj: int,
    total_memory: u64,
) -> int {
    mem_weight * memory * MEMORY_FACTOR + runtime_weight * runtime * RUNTIME_FACTOR * total_memory
        + adj_weight * adj * ADJ_FACTOR * total_memory
}

/// The weight that a configured text states, in parts per million, cut
/// off after the sixth decimal place. The text is a decimal numeral such as
/// `0.6`, `+0.6`, `.6` or `1`: digits, with or without a dot among them,
/// and a `+` before them at most. The default stands where there is no
/// text, where the text is anything else (a negative number, an exponent
/// as in `6e-1`, a word, space around the numeral), and where the weight
/// does not fit.
pub open spec fn weight_of(text: Option<Seq<u8>>, default: u32) -> u32 {
    match text {
        Some(t) => match decimal_of(t, 6) {
            Some(w) => if w <= u32::MAX {
                w as u32
            } else {
                default
            },
            None => default,
        },
        None => default,
    }
}

/// Reads a configured weight.
pub fn parse_weight(text: Option<&[u8]>, default: u32) -> (w: u32)
    ensures
        w == weight_of(
            match text {
                Some(t) => Some(t@),
                None => None,
            },
            default,
        ),
{
    match text {
        Some(t) => match parse_decimal(t, 6) {
            Some(w) => if w <= u32::MAX as u64 {
                w as u32
            } else {
                default
            },
            None => default,
        },
        None => default,
    }
}

impl OOMScorer {
    #[verifier::type_invariant]
    spec fn clock_runs(self) -> bool {
        self.ticks_per_second > 0
    }

    /// The weight of the memory subscore, in parts per million.
    pub closed spec fn memory_weight(self) -> u32 {
        self.mem_pressure_weight
    }

    /// The weight of the runtime subscore, in parts per million.
    pub closed spec fn runtime_weight(self) -> u32 {
        self.runtime_weight
    }

    /// The weight of the adjustment subscore, in parts per million.
    pub closed spec fn adj_weight(self) -> u32 {
        self.oom_score_adj_weight
    }

    /// The clock ticks in a second.
    pub closed spec fn clock_rate(self) -> u64 {
        self.ticks_per_second
    }

    /// A scorer with the default weights, 0.6, 0.2 and 0.2, that reads
    /// start times at 100 ticks in a second.
    pub fn new() -> (s: OOMScorer)
        ensures
            s.memory_weight() == DEFAULT_MEMORY_WEIGHT,
            s.runtime_weight() == DEFAULT_RUNTIME_WEIGHT,
            s.adj_weight() == DEFAULT_ADJ_WEIGHT,
            s.clock_rate() == DEFAULT_TICKS_PER_SECOND,
    {
        OOMScorer {
            mem_pressure_weight: DEFAULT_MEMORY_WEIGHT,
            runtime_weight: DEFAULT_RUNTIME_WEIGHT,
            oom_score_adj_weight: DEFAULT_ADJ_WEIGHT,
            ticks_per_second: DEFAULT_TICKS_PER_SECOND,
        }
    }

    /// A scorer with the given weights, in parts per million.
    pub fn with_weights(memory: u32, runtime: u32, adj: u32) -> (s: OOMScorer)
        ensures
            s.memory_weight() == memory,
            s.runtime_weight() == runtime,
            s.adj_weight() == adj,
            s.clock_rate() == DEFAULT_TICKS_PER_SECOND,
    {
        OOMScorer {
            mem_pressure_weight: memory,
            runtime_weight: runtime,
            oom_score_adj_weight: adj,
            ticks_per_second: DEFAULT_TICKS_PER_SECOND,
        }
    }

    /// A scorer with the weights that the configuration states as text,
    /// and the default for each that is missing or unreadable. A weight is
    /// read from a plain decimal numeral such as `0.6`, `+0.6`, `.6` or
    /// `1`, in parts per million; a negative number, an exponent as in
    /// `6e-1`, or space around the numeral makes the text unreadable.
    pub fn from_settings(memory: Option<&[u8]>, runtime: Option<&[u8]>, adj: Option<&[u8]>) -> (s:
        OOMScorer)
        ensures
            s.memory_weight() == weight_of(
                match memory {
                    Some(t) => Some(t@),
                    None => None,
                },
                DEFAULT_MEMORY_WEIGHT,
            ),
            s.runtime_weight() == weight_of(
                match runtime {
                    Some(t) => Some(t@),
                    None => None,
                },
                DEFAULT_RUNTIME_WEIGHT,
            ),
            s.adj_weight() == weight_of(
                match adj {
                    Some(t) => Some(t@),
                    None => None,
                },
                DEFAULT_ADJ_WEIGHT,
            ),
            s.clock_rate() == DEFAULT_TICKS_PER_SECOND,
    {
        OOMScorer {
            mem_pressure_weight: parse_weight(memory, DEFAULT_MEMORY_WEIGHT),
            runtime_weight: parse_weight(runtime, DEFAULT_RUNTIME_WEIGHT),
            oom_score_adj_weight: parse_weight(adj, DEFAULT_ADJ_WEIGHT),
            ticks_per_second: DEFAULT_TICKS_PER_SECOND,
        }
    }

    /// The same scorer reading start times at the clock tick rate that the
    /// platform reports; a report of zero changes nothing.
    pub fn with_clock_rate(self, reported: u64) -> (s: OOMScorer)
        ensures
            s.memory_weight() == self.memory_weight(),
            s.runtime_weight() == self.runtime_weight(),
            s.adj_weight() == self.adj_weight(),
            s.clock_rate() == (if reported > 0 {
                reported
            } else {
                self.clock_rate()
            }),
    {
        proof {
            use_type_invariant(&self);
        }
        OOMScorer {
            mem_pressure_weight: self.mem_pressure_weight,
            runtime_weight: self.runtime_weight,
            oom_score_adj_weight: self.oom_score_adj_weight,
            ticks_per_second: if reported > 0 {
                reported
            } else {
                self.ticks_per_second
            },
        }
    }

    /// The clock ticks in a second by which this scorer reads start times.
    pub fn ticks_per_second(&self) -> (r: u64)
        ensures
            r == self.clock_rate(),
            r > 0,
    {
        proof {
            use_type_invariant(self);
        }
        self.ticks_per_second
    }

    /// The total score that this scorer gives to subscores.
    pub open spec fn total_points(
        self,
        mem: ProcessMemInfo,
        stat: Option<ProcessStat>,
        uptime: Millis,
        total_memory: u64,
    ) -> int {
        weighted_total(
            self.memory_weight(),
            self.runtime_weight(),
            self.adj_weight(),
            memory_points(mem),
            runtime_points_of(stat, uptime, self.clock_rate()),
            adj_points(mem.oom_score_adj),
            total_memory,
        )
    }

    /// Scores one process against the host's total memory. `stat` holds
    /// the process's statistics where they could be read, `uptime` the time
    /// since boot.
    pub fn calculate_score(
        &self,
        process: ProcessInfo,
        total_memory: u64,
        stat: Option<&ProcessStat>,
        uptime: Millis,
    ) -> (d: OOMScoreDetails)
        ensures
            d.process == process,
            d.total_memory == total_memory,
            d.memory_score == memory_points(process.mem_info),
            d.runtime_score == runtime_points_of(
                match stat {
                    Some(s) => Some(*s),
                    None => None,
                },
                uptime,
                self.clock_rate(),
            ),
            d.adj_score == adj_points(process.mem_info.oom_score_adj),
            d.total_score == self.total_points(
                process.mem_info,
                match stat {
                    Some(s) => Some(*s),
                    None => None,
                },
                uptime,
                total_memory,
            ),
    {
        let memory_score = self.calculate_memory_score(&process.mem_info);
        let runtime_score = self.calculate_runtime_score(stat, uptime);
        let adj_score = self.calculate_adj_score(process.mem_info.oom_score_adj);
        proof {
            lemma_mul_le(
                self.mem_pressure_weight as int,
                memory_score as int,
                u32::MAX as int,
                10 * u64::MAX,
            );
            lemma_mul_le(
                self.mem_pressure_weight * memory_score,
                MEMORY_FACTOR as int,
                u32::MAX * (10 * u64::MAX),
                MEMORY_FACTOR as int,
            );
            lemma_mul_le(
                self.runtime_weight as int,
                runtime_score as int,
                u32::MAX as int,
                RUNTIME_SCALE as int,
            );
            lemma_mul_le(
                self.runtime_weight * runtime_score * RUNTIME_FACTOR,
                total_memory as int,
                u32::MAX * RUNTIME_SCALE * RUNTIME_FACTOR,
                u64::MAX as int,
            );
            lemma_mul_le(
                self.oom_score_adj_weight as int,
                (adj_score + 1000) as int,
                u32::MAX as int,
                2000,
            );
            lemma_mul_le(
                self.oom_score_adj_weight as int,
                1000,
                u32::MAX as int,
                1000,
            );
            assert(self.oom_score_adj_weight * (adj_score + 1000)
                == self.oom_score_adj_weight * adj_score + self.oom_score_adj_weight * 1000)
                by (nonlinear_arith);
            lemma_mul_le(
                (self.oom_score_adj_weight * (adj_score + 1000)) * ADJ_FACTOR,
                total_memory as int,
                u32::MAX * 2000 * ADJ_FACTOR,
                u64::MAX as int,
            );
            lemma_mul_le(
                (self.oom_score_adj_weight * 1000) * ADJ_FACTOR,
                total_memory as int,
                u32::MAX * 1000 * ADJ_FACTOR,
                u64::MAX as int,
            );
            assert((self.oom_score_adj_weight * (adj_score + 1000)) * ADJ_FACTOR * total_memory
                == self.oom_score_adj_weight * adj_score * ADJ_FACTOR * total_memory + (
            self.oom_score_adj_weight * 1000) * ADJ_FACTOR * total_memory) by (nonlinear_arith);
        }
        let memory_part: i128 = (self.mem_pressure_weight as i128) * (memory_score as i128) * (
        MEMORY_FACTOR as i128);
        let runtime_part: i128 = (self.runtime_weight as i128) * (runtime_score as i128) * (
        RUNTIME_FACTOR as i128) * (total_memory as i128);
        let adj_part: i128 = (self.oom_score_adj_weight as i128) * (adj_score as i128) * (
        ADJ_FACTOR as i128) * (total_memory as i128);
        OOMScoreDetails {
            total_score: memory_part + runtime_part + adj_part,
            memory_score,
            runtime_score,
            adj_score,
            total_memory,
            process,
        }
    }

    /// The memory subscore.
    fn calculate_memory_score(&self, mem_info: &ProcessMemInfo) -> (points: u128)
        ensures
            points == memory_points(*mem_info),
    {
        7 * (mem_info.vm_rss as u128) + 3 * (mem_info.vm_swap as u128)
    }

    /// The runtime subscore.
    fn calculate_runtime_score(&self, stat: Option<&ProcessStat>, uptime: Millis) -> (points: u32)
        ensures
            points == runtime_points_of(
                match stat {
                    Some(s) => Some(*s),
                    None => None,
                },
                uptime,
                self.clock_rate(),
            ),
            points <= RUNTIME_SCALE,
    {
        match stat {
            Some(s) => calculate_runtime_score(s, uptime, self.ticks_per_second()),
            None => UNKNOWN_RUNTIME_SCORE,
        }
    }

    /// The adjustment subscore.
    fn calculate_adj_score(&self, oom_score_adj: i32) -> (points: i32)
        ensures
            points == adj_points(oom_score_adj),
            -1000 <= points <= 1000,
    {
        if oom_score_adj < OOM_SCORE_ADJ_MIN {
            OOM_SCORE_ADJ_MIN
        } else if oom_score_adj > OOM_SCORE_ADJ_MAX {
            OOM_SCORE_ADJ_MAX
        } else {
            oom_score_adj
        }
    }
}

/// Whether `a` is the better victim of two scored in one pass: the higher
/// total score, then the larger resident memory, then the smaller process
/// identifier.
pub open spec fn outranks(a: OOMScoreDetails, b: OOMScoreDetails) -> bool {
    ||| a.total_score > b.total_score
    ||| (a.total_score == b.total_score && a.process.mem_info.vm_rss > b.process.mem_info.vm_rss)
    ||| (a.total_score == b.total_score && a.process.mem_info.vm_rss
        == b.process.mem_info.vm_rss && a.process.pid.raw() < b.process.pid.raw())
}

impl OOMScoreDetails {
    /// Whether this process is the better victim of the two.
    pub fn outranks(&self, other: &OOMScoreDetails) -> (r: bool)
        ensures
            r == outranks(*self, *other),
    {
        if self.total_score != other.total_score {
            self.total_score > other.total_score
        } else if self.process.mem_info.vm_rss != other.process.mem_info.vm_rss {
            self.process.mem_info.vm_rss > other.process.mem_info.vm_rss
        } else {
            self.process.pid.as_raw() < other.process.pid.as_raw()
        }
    }
}

/// The ranking is a strict order: nothing outranks itself, and of two
/// candidates at most one outranks the other.
pub proof fn lemma_outranks_strict(a: OOMScoreDetails, b: OOMScoreDetails)
    ensures
        !outranks(a, a),
        !(outranks(a, b) && outranks(b, a)),
{
}

/// The ranking is transitive, also through candidates of equal rank.
pub proof fn lemma_outranks_transitive(a: OOMScoreDetails, b: OOMScoreDetails, c: OOMScoreDetails)
    ensures
        outranks(a, b) && outranks(b, c) ==> outranks(a, c),
        !outranks(a, b) && !outranks(b, c) ==> !outranks(a, c),
        outranks(a, b) && !outranks(c, b) ==> outranks(a, c),
        !outranks(b, a) && outranks(b, c) ==> outranks(a, c),
{
}

/// Two candidates of which neither outranks the other are the same
/// process with the same total score and resident memory.
pub proof fn lemma_equal_rank(a: OOMScoreDetails, b: OOMScoreDetails)
    requires
        !outranks(a, b),
        !outranks(b, a),
    ensures
        a.total_score == b.total_score,
        a.process.mem_info.vm_rss == b.process.mem_info.vm_rss,
        a.process.pid == b.process.pid,
{
    crate::ffi::types::ProcessId::lemma_raw_injective(a.process.pid, b.process.pid);
}

/// With weights that sum to one, the total score of a process whose memory
/// subscore is at most two lies between minus one and two.
pub proof fn lemma_total_score_bounds(
    scorer: OOMScorer,
    mem: ProcessMemInfo,
    stat: Option<ProcessStat>,
    uptime: Millis,
    total_memory: u64,
)
    requires
        scorer.memory_weight() + scorer.runtime_weight() + scorer.adj_weight() == RATIO_SCALE,
        memory_points(mem) <= 2 * (10 * total_memory),
    ensures
        -total_scale(total_memory) <= scorer.total_points(mem, stat, uptime, total_memory),
        scorer.total_points(mem, stat, uptime, total_memory) <= 2 * total_scale(total_memory),
{
    let wm = scorer.memory_weight() as int;
    let wr = scorer.runtime_weight() as int;
    let wa = scorer.adj_weight() as int;
    let m = memory_points(mem);
    let r = runtime_points_of(stat, uptime, scorer.clock_rate());
    let a = adj_points(mem.oom_score_adj);
    let t = total_memory as int;
    assert(0 <= r <= 864000);
    assert(-1000 <= a <= 1000);
    assert(0 <= m <= 20 * t);
    // the memory part lies in [0, 2 * wm * 8640000 * t]
    assert(0 <= wm * m * 864000 <= 2 * (wm * 8640000 * t)) by (nonlinear_arith)
        requires
            0 <= wm,
            0 <= m <= 20 * t,
    ;
    // the runtime part lies in [0, wr * 8640000 * t]
    assert(0 <= wr * r * 10 * t <= wr * 8640000 * t) by (nonlinear_arith)
        requires
            0 <= wr,
            0 <= r <= 864000,
            0 <= t,
    ;
    // the adjustment part lies in [-wa * 8640000 * t, wa * 8640000 * t]
    assert(-(wa * 8640000 * t) <= wa * a * 8640 * t <= wa * 8640000 * t) by (nonlinear_arith)
        requires
            0 <= wa,
            -1000 <= a <= 1000,
            0 <= t,
    ;
    assert(wm * 8640000 * t + wr * 8640000 * t + wa * 8640000 * t == 1000000 * 8640000 * t)
        by (nonlinear_arith)
        requires
            wm + wr + wa == 1000000,
    ;
    assert(0 <= wm * 8640000 * t && 0 <= wr * 8640000 * t && 0 <= wa * 8640000 * t)
        by (nonlinear_arith)
        requires
            0 <= wm,
            0 <= wr,
            0 <= wa,
            0 <= t,
    ;
}

} // verus!

//! Configuration and bookkeeping of parallel processing: how the number of
//! CPUs sets the defaults, which aggregations run on the parallel path, and
//! how worker results and statistics are collected.

use vstd::prelude::*;
use crate::clock::{now, millis_since};
use crate::error::BingoResult;
use crate::types::RuleExecutionResult;

verus! {

/// `num_cpus::get`: the number of logical CPUs available to this process.
/// Its documentation promises at least one.
#[verifier::external_body]
pub(crate) fn available_cpus() -> (n: usize)
    ensures
        n >= 1,
{
    num_cpus::get()
}

/// How facts are processed in parallel.
#[derive(Debug, Clone)]
pub struct ParallelConfig {
    /// Fewer facts than this are processed sequentially.
    pub parallel_threshold: usize,
    /// Facts per worker chunk.
    pub chunk_size: usize,
    /// Most workers at once.
    pub max_workers: usize,
    pub enable_parallel_rule_matching: bool,
    pub enable_parallel_rule_compilation: bool,
    pub enable_parallel_rule_evaluation: bool,
    pub enable_concurrent_memory_pools: bool,
}

/// The default configuration on a machine with `cpus` CPUs: threshold 100,
/// chunks of 50, one worker per CPU; rule matching and evaluation in
/// parallel above four CPUs, compilation and concurrent pools above two.
pub open spec fn parallel_config_for(cpus: usize) -> ParallelConfig {
    ParallelConfig {
        parallel_threshold: 100,
        chunk_size: 50,
        max_workers: cpus,
        enable_parallel_rule_matching: cpus > 4,
        enable_parallel_rule_compilation: cpus > 2,
        enable_parallel_rule_evaluation: cpus > 4,
        enable_concurrent_memory_pools: cpus > 2,
    }
}

impl ParallelConfig {
    /// The default configuration for a machine with `cpus` CPUs.
    pub fn for_cpu_count(cpus: usize) -> (c: ParallelConfig)
        ensures
            c == parallel_config_for(cpus),
    {
        ParallelConfig {
            parallel_threshold: 100,
            chunk_size: 50,
            max_workers: cpus,
            enable_parallel_rule_matching: cpus > 4,
            enable_parallel_rule_compilation: cpus > 2,
            enable_parallel_rule_evaluation: cpus > 4,
            enable_concurrent_memory_pools: cpus > 2,
        }
    }
}

impl Default for ParallelConfig {
    /// The configuration for the CPUs of this machine.
    fn default() -> (c: ParallelConfig)
        ensures
            c == parallel_config_for(c.max_workers),
            c.max_workers >= 1,
    {
        ParallelConfig::for_cpu_count(available_cpus())
    }
}

/// The kinds of parallel aggregation.
#[derive(Debug, Clone, Copy, PartialEq, Eq, Structural)]
pub enum AggregationOp {
    Sum,
    Count,
    Average,
    MinMax,
    Variance,
}

/// How aggregations are computed in parallel.
#[derive(Debug, Clone)]
pub struct ParallelAggregationConfig {
    /// Fewer values than this are aggregated sequentially.
    pub parallel_threshold: usize,
    pub chunk_size: usize,
    pub max_workers: usize,
    pub enable_parallel_sum: bool,
    pub enable_parallel_count: bool,
    pub enable_parallel_average: bool,
    pub enable_parallel_min_max: bool,
    pub enable_parallel_variance: bool,
}

/// The default aggregation configuration on a machine with `cpus` CPUs:
/// threshold 1000, chunks of 250, one worker per CPU; sums, counts and
/// min/max in parallel above two CPUs, averages and variances above four.
pub open spec fn aggregation_config_for(cpus: usize) -> ParallelAggregationConfig {
    ParallelAggregationConfig {
        parallel_threshold: 1000,
        chunk_size: 250,
        max_workers: cpus,
        enable_parallel_sum: cpus > 2,
        enable_parallel_count: cpus > 2,
        enable_parallel_average: cpus > 4,
        enable_parallel_min_max: cpus > 2,
        enable_parallel_variance: cpus > 4,
    }
}

impl ParallelAggregationConfig {
    /// The default aggregation configuration for `cpus` CPUs.
    pub fn for_cpu_count(cpus: usize) -> (c: ParallelAggregationConfig)
        ensures
            c == aggregation_config_for(cpus),
    {
        ParallelAggregationConfig {
            parallel_threshold: 1000,
            chunk_size: 250,
            max_workers: cpus,
            enable_parallel_sum: cpus > 2,
            enable_parallel_count: cpus > 2,
            enable_parallel_average: cpus > 4,
            enable_parallel_min_max: cpus > 2,
            enable_parallel_variance: cpus > 4,
        }
    }

    /// Whether the configuration enables the parallel path for `op`.
    pub fn enables(&self, op: AggregationOp) -> (b: bool)
        ensures
            b == op_enabled(*self, op),
    {
        match op {
            AggregationOp::Sum => self.enable_parallel_sum,
            AggregationOp::Count => self.enable_parallel_count,
            AggregationOp::Average => self.enable_parallel_average,
            AggregationOp::MinMax => self.enable_parallel_min_max,
            AggregationOp::Variance => self.enable_parallel_variance,
        }
    }
}

impl Default for ParallelAggregationConfig {
    /// The aggregation configuration for the CPUs of this machine.
    fn default() -> (c: ParallelAggregationConfig)
        ensures
            c == aggregation_config_for(c.max_workers),
            c.max_workers >= 1,
    {
        ParallelAggregationConfig::for_cpu_count(available_cpus())
    }
}

/// Whether `config` enables the parallel path for `op`.
pub open spec fn op_enabled(config: ParallelAggregationConfig, op: AggregationOp) -> bool {
    match op {
        AggregationOp::Sum => config.enable_parallel_sum,
        AggregationOp::Count => config.enable_parallel_count,
        AggregationOp::Average => config.enable_parallel_average,
        AggregationOp::MinMax => config.enable_parallel_min_max,
        AggregationOp::Variance => config.enable_parallel_variance,
    }
}

/// Whether `len` values take the parallel path for `op`: enough of them,
/// and the operation enabled.
pub open spec fn takes_parallel_path(config: ParallelAggregationConfig, op: AggregationOp, len: nat) -> bool {
    len >= config.parallel_threshold && op_enabled(config, op)
}

/// Counters of aggregation operations.
#[derive(Debug, Clone, Copy, PartialEq, Eq, Structural)]
pub struct ParallelAggregationStats {
    pub parallel_sums: usize,
    pub parallel_counts: usize,
    pub parallel_averages: usize,
    pub parallel_min_max: usize,
    pub parallel_variances: usize,
    /// Milliseconds spent in aggregations (saturating).
    pub total_aggregation_time_ms: u64,
    pub sequential_fallbacks: usize,
}

/// All counters at zero.
pub open spec fn zero_aggregation_stats() -> ParallelAggregationStats {
    ParallelAggregationStats {
        parallel_sums: 0,
        parallel_counts: 0,
        parallel_averages: 0,
        parallel_min_max: 0,
        parallel_variances: 0,
        total_aggregation_time_ms: 0,
        sequential_fallbacks: 0,
    }
}

impl Default for ParallelAggregationStats {
    fn default() -> (s: ParallelAggregationStats)
        ensures
            s == zero_aggregation_stats(),
    {
        ParallelAggregationStats {
            parallel_sums: 0,
            parallel_counts: 0,
            parallel_averages: 0,
            parallel_min_max: 0,
            parallel_variances: 0,
            total_aggregation_time_ms: 0,
            sequential_fallbacks: 0,
        }
    }
}

/// Room in the counters to record one more aggregation of any kind.
pub open spec fn can_record(s: ParallelAggregationStats) -> bool {
    &&& s.parallel_sums < usize::MAX
    &&& s.parallel_counts < usize::MAX
    &&& s.parallel_averages < usize::MAX
    &&& s.parallel_min_max < usize::MAX
    &&& s.parallel_variances < usize::MAX
    &&& s.sequential_fallbacks < usize::MAX
}

/// The counters after an aggregation `op` over `len` values that took
/// `elapsed_ms`: the operation's own counter on the parallel path, the
/// fallback counter otherwise, and the time added (saturating).
pub open spec fn after_record(
    s: ParallelAggregationStats,
    config: ParallelAggregationConfig,
    op: AggregationOp,
    len: nat,
    elapsed_ms: u64,
) -> ParallelAggregationStats {
    let time = if s.total_aggregation_time_ms + elapsed_ms <= u64::MAX {
        (s.total_aggregation_time_ms + elapsed_ms) as u64
    } else {
        u64::MAX
    };
    let s = ParallelAggregationStats { total_aggregation_time_ms: time, ..s };
    if takes_parallel_path(config, op, len) {
        match op {
            AggregationOp::Sum => ParallelAggregationStats { parallel_sums: (s.parallel_sums + 1) as usize, ..s },
            AggregationOp::Count => ParallelAggregationStats { parallel_counts: (s.parallel_counts + 1) as usize, ..s },
            AggregationOp::Average => ParallelAggregationStats {
                parallel_averages: (s.parallel_averages + 1) as usize,
                ..s
            },
            AggregationOp::MinMax => ParallelAggregationStats {
                parallel_min_max: (s.parallel_min_max + 1) as usize,
                ..s
            },
            AggregationOp::Variance => ParallelAggregationStats {
                parallel_variances: (s.parallel_variances + 1) as usize,
                ..s
            },
        }
    } else {
        ParallelAggregationStats { sequential_fallbacks: (s.sequential_fallbacks + 1) as usize, ..s }
    }
}

/// How many of the outcomes are `true`.
pub open spec fn count_true(b: Seq<bool>) -> nat
    decreases b.len(),
{
    if b.len() == 0 {
        0
    } else {
        count_true(b.drop_last()) + if b.last() { 1nat } else { 0nat }
    }
}

/// Aggregations over values, with their counters.
#[derive(Debug)]
pub struct ParallelAggregationEngine {
    pub config: ParallelAggregationConfig,
    pub stats: ParallelAggregationStats,
}

impl ParallelAggregationEngine {
    /// An engine with the default configuration for this machine.
    pub fn new() -> (e: ParallelAggregationEngine)
        ensures
            e.config == aggregation_config_for(e.config.max_workers),
            e.config.max_workers >= 1,
            e.stats == zero_aggregation_stats(),
    {
        ParallelAggregationEngine { config: ParallelAggregationConfig::default(), stats: ParallelAggregationStats::default() }
    }

    /// An engine with the given configuration.
    pub fn with_config(config: ParallelAggregationConfig) -> (e: ParallelAggregationEngine)
        ensures
            e.config == config,
            e.stats == zero_aggregation_stats(),
    {
        ParallelAggregationEngine { config, stats: ParallelAggregationStats::default() }
    }

    /// Records one aggregation `op` over `len` values that took
    /// `elapsed_ms`, and says whether it took the parallel path.
    pub fn record_aggregation(&mut self, op: AggregationOp, len: usize, elapsed_ms: u64) -> (parallel: bool)
        requires
            can_record(old(self).stats),
        ensures
            parallel == takes_parallel_path(old(self).config, op, len as nat),
            final(self).config == old(self).config,
            final(self).stats == after_record(old(self).stats, old(self).config, op, len as nat, elapsed_ms),
    {
        let parallel = len >= self.config.parallel_threshold && self.config.enables(op);
        self.stats.total_aggregation_time_ms = self.stats.total_aggregation_time_ms.saturating_add(elapsed_ms);
        if parallel {
            match op {
                AggregationOp::Sum => self.stats.parallel_sums = self.stats.parallel_sums + 1,
                AggregationOp::Count => self.stats.parallel_counts = self.stats.parallel_counts + 1,
                AggregationOp::Average => self.stats.parallel_averages = self.stats.parallel_averages + 1,
                AggregationOp::MinMax => self.stats.parallel_min_max = self.stats.parallel_min_max + 1,
                AggregationOp::Variance => self.stats.parallel_variances = self.stats.parallel_variances + 1,
            }
        } else {
            self.stats.sequential_fallbacks = self.stats.sequential_fallbacks + 1;
        }
        parallel
    }

    /// Counts the values the predicate accepts, and records the aggregation.
    pub fn parallel_count<T, F: Fn(&T) -> bool>(&mut self, values: &[T], predicate: F) -> (r: BingoResult<usize>)
        requires
            forall|i: int| 0 <= i < values@.len() ==> predicate.requires((&values@[i],)),
            can_record(old(self).stats),
        ensures
            r matches Ok(n) && exists|b: Seq<bool>| {
                &&& b.len() == values@.len()
                &&& forall|i: int| 0 <= i < b.len() ==> predicate.ensures((&values@[i],), #[trigger] b[i])
                &&& n == count_true(b)
            },
            final(self).config == old(self).config,
            exists|e: u64| final(self).stats == #[trigger] after_record(old(self).stats, old(self).config, AggregationOp::Count, values@.len(), e),
    {
        let start = now();
        let n = values.len();
        let mut count: usize = 0;
        let mut i: usize = 0;
        let ghost mut outcomes: Seq<bool> = Seq::empty();
        while i < n
            invariant
                n == values@.len(),
                i <= n,
                forall|j: int| 0 <= j < values@.len() ==> predicate.requires((&values@[j],)),
                outcomes.len() == i,
                forall|j: int| 0 <= j < i ==> predicate.ensures((&values@[j],), #[trigger] outcomes[j]),
                count == count_true(outcomes),
                count <= i,
            decreases n - i,
        {
            let accepted = predicate(&values[i]);
            proof {
                let before = outcomes;
                outcomes = outcomes.push(accepted);
                assert(outcomes.drop_last() =~= before);
            }
            if accepted {
                count = count + 1;
            }
            i = i + 1;
        }
        let elapsed = millis_since(&start);
        let _ = self.record_aggregation(AggregationOp::Count, n, elapsed);
        proof {
            assert(count == count_true(outcomes));
        }
        Ok(count)
    }

    /// A copy of the counters.
    pub fn get_stats(&self) -> (r: BingoResult<ParallelAggregationStats>)
        ensures
            r == Ok::<ParallelAggregationStats, crate::error::BingoError>(self.stats),
    {
        Ok(self.stats)
    }

    /// Resets the counters.
    pub fn reset_stats(&mut self) -> (r: BingoResult<()>)
        ensures
            r is Ok,
            final(self).config == old(self).config,
            final(self).stats == zero_aggregation_stats(),
    {
        self.stats = ParallelAggregationStats::default();
        Ok(())
    }

    /// Replaces the configuration.
    pub fn update_config(&mut self, new_config: ParallelAggregationConfig)
        ensures
            final(self).config == new_config,
            final(self).stats == old(self).stats,
    {
        self.config = new_config;
    }
}

impl Default for ParallelAggregationEngine {
    fn default() -> (e: ParallelAggregationEngine)
        ensures
            e.config == aggregation_config_for(e.config.max_workers),
            e.stats == zero_aggregation_stats(),
    {
        ParallelAggregationEngine::new()
    }
}

/// What one worker reports.
#[derive(Debug, Clone, Copy, PartialEq, Eq, Structural)]
pub struct WorkerStats {
    pub facts_processed: usize,
    pub rules_evaluated: usize,
    pub rules_fired: usize,
    pub processing_time_ms: u64,
}

impl Default for WorkerStats {
    fn default() -> (s: WorkerStats)
        ensures
            s == (WorkerStats { facts_processed: 0, rules_evaluated: 0, rules_fired: 0, processing_time_ms: 0 }),
    {
        WorkerStats { facts_processed: 0, rules_evaluated: 0, rules_fired: 0, processing_time_ms: 0 }
    }
}

/// Worker reports by worker id, in the order workers first reported; a
/// worker that reports again replaces its entry.
pub open spec fn worker_entries_after(entries: Seq<(usize, WorkerStats)>, id: usize, s: WorkerStats) -> Seq<(usize, WorkerStats)> {
    if exists|i: int| 0 <= i < entries.len() && entries[i].0 == id {
        let i = choose|i: int| 0 <= i < entries.len() && entries[i].0 == id
            && forall|j: int| 0 <= j < i ==> entries[j].0 != id;
        entries.update(i, (id, s))
    } else {
        entries.push((id, s))
    }
}

/// Sum of one counter over the reports.
pub open spec fn sum_facts(e: Seq<(usize, WorkerStats)>) -> nat
    decreases e.len(),
{
    if e.len() == 0 { 0 } else { sum_facts(e.drop_last()) + e.last().1.facts_processed as nat }
}

/// Sum of rules evaluated over the reports.
pub open spec fn sum_evaluated(e: Seq<(usize, WorkerStats)>) -> nat
    decreases e.len(),
{
    if e.len() == 0 { 0 } else { sum_evaluated(e.drop_last()) + e.last().1.rules_evaluated as nat }
}

/// Sum of rules fired over the reports.
pub open spec fn sum_fired(e: Seq<(usize, WorkerStats)>) -> nat
    decreases e.len(),
{
    if e.len() == 0 { 0 } else { sum_fired(e.drop_last()) + e.last().1.rules_fired as nat }
}

/// Sum of processing times over the reports.
pub open spec fn sum_time(e: Seq<(usize, WorkerStats)>) -> nat
    decreases e.len(),
{
    if e.len() == 0 { 0 } else { sum_time(e.drop_last()) + e.last().1.processing_time_ms as nat }
}

/// Longest processing time over the reports, zero when there are none.
pub open spec fn max_time(e: Seq<(usize, WorkerStats)>) -> u64
    decreases e.len(),
{
    if e.len() == 0 {
        0
    } else if max_time(e.drop_last()) >= e.last().1.processing_time_ms {
        max_time(e.drop_last())
    } else {
        e.last().1.processing_time_ms
    }
}

/// Parallel efficiency as a fraction `busy / capacity`: the summed
/// processing time over the worker count times the longest time.
#[derive(Debug, Clone, Copy, PartialEq, Eq, Structural)]
pub struct Efficiency {
    pub busy_ms: u128,
    pub capacity_ms: u128,
}

/// A summary of the workers' reports.
#[derive(Debug, Clone, Copy, PartialEq, Eq, Structural)]
pub struct ParallelPerformanceSummary {
    pub total_facts_processed: usize,
    pub total_rules_evaluated: usize,
    pub total_rules_fired: usize,
    pub worker_count: usize,
    pub max_worker_time_ms: u64,
    /// One (`1 / 1`) with a single worker or no time measured.
    pub parallel_efficiency: Efficiency,
}

/// Collects results and reports from workers, and holds an aggregation
/// engine.
#[derive(Debug)]
pub struct ParallelAggregator {
    results: Vec<RuleExecutionResult>,
    worker_stats: Vec<(usize, WorkerStats)>,
    aggregation_engine: ParallelAggregationEngine,
}

impl ParallelAggregator {
    /// The results collected, in arrival order.
    pub closed spec fn results_view(&self) -> Seq<RuleExecutionResult> {
        self.results@
    }

    /// The workers' reports.
    pub closed spec fn workers(&self) -> Seq<(usize, WorkerStats)> {
        self.worker_stats@
    }

    /// The aggregation engine.
    pub closed spec fn engine(&self) -> ParallelAggregationEngine {
        self.aggregation_engine
    }

    /// No results and no reports yet.
    pub fn new() -> (a: ParallelAggregator)
        ensures
            a.results_view() == Seq::<RuleExecutionResult>::empty(),
            a.workers() == Seq::<(usize, WorkerStats)>::empty(),
            a.engine().stats == zero_aggregation_stats(),
    {
        ParallelAggregator { results: Vec::new(), worker_stats: Vec::new(), aggregation_engine: ParallelAggregationEngine::new() }
    }

    /// Adds a worker's results and its report (replacing an earlier report
    /// of the same worker).
    pub fn add_worker_results(&mut self, worker_id: usize, results: Vec<RuleExecutionResult>, stats: WorkerStats) -> (r: BingoResult<()>)
        ensures
            r is Ok,
            final(self).results_view() == old(self).results_view() + results@,
            final(self).workers() == worker_entries_after(old(self).workers(), worker_id, stats),
            final(self).engine() == old(self).engine(),
    {
        let ghost added = results@;
        let mut extra = results;
        self.results.append(&mut extra);
        let n = self.worker_stats.len();
        let mut i: usize = 0;
        let mut found = false;
        while i < n
            invariant
                n == self.worker_stats@.len(),
                i <= n,
                forall|j: int| 0 <= j < i ==> self.worker_stats@[j].0 != worker_id,
                found ==> i < n && self.worker_stats@[i as int].0 == worker_id,
            ensures
                found ==> i < n && self.worker_stats@[i as int].0 == worker_id,
                !found ==> forall|j: int| 0 <= j < n ==> self.worker_stats@[j].0 != worker_id,
                forall|j: int| 0 <= j < i ==> self.worker_stats@[j].0 != worker_id,
            decreases n - i,
        {
            if self.worker_stats[i].0 == worker_id {
                found = true;
                break;
            }
            i = i + 1;
        }
        if found {
            proof {
                let e = self.worker_stats@;
                assert(0 <= i < e.len() && e[i as int].0 == worker_id && forall|j: int| 0 <= j < i ==> e[j].0 != worker_id);
                let c = choose|t: int| 0 <= t < e.len() && e[t].0 == worker_id && forall|j: int| 0 <= j < t ==> e[j].0 != worker_id;
                if c < i {
                    assert(e[c].0 != worker_id);
                }
                if c > i {
                    assert(e[i as int].0 != worker_id);
                }
            }
            self.worker_stats.set(i, (worker_id, stats));
            return Ok(());
        }
        self.worker_stats.push((worker_id, stats));
        Ok(())
    }

    /// A copy of the results collected.
    pub fn get_results(&self) -> (r: BingoResult<Vec<RuleExecutionResult>>)
        ensures
            r matches Ok(v) && v@ == self.results_view(),
    {
        let mut out: Vec<RuleExecutionResult> = Vec::new();
        let n = self.results.len();
        let mut i: usize = 0;
        while i < n
            invariant
                n == self.results@.len(),
                i <= n,
                out@ == self.results@.take(i as int),
            decreases n - i,
        {
            out.push(self.results[i]);
            proof {
                assert(out@ =~= self.results@.take(i + 1));
            }
            i = i + 1;
        }
        proof {
            assert(self.results@.take(n as int) =~= self.results@);
        }
        Ok(out)
    }

    /// Totals over the workers' reports, the longest time, and the
    /// efficiency.
    pub fn get_performance_summary(&self) -> (r: BingoResult<ParallelPerformanceSummary>)
        requires
            sum_facts(self.workers()) <= usize::MAX,
            sum_evaluated(self.workers()) <= usize::MAX,
            sum_fired(self.workers()) <= usize::MAX,
        ensures
            r matches Ok(s) && {
                let e = self.workers();
                &&& s.total_facts_processed == sum_facts(e)
                &&& s.total_rules_evaluated == sum_evaluated(e)
                &&& s.total_rules_fired == sum_fired(e)
                &&& s.worker_count == e.len()
                &&& s.max_worker_time_ms == max_time(e)
                &&& s.parallel_efficiency == if e.len() > 1 && max_time(e) > 0 {
                    Efficiency { busy_ms: sum_time(e) as u128, capacity_ms: (e.len() * max_time(e)) as u128 }
                } else {
                    Efficiency { busy_ms: 1, capacity_ms: 1 }
                }
            },
    {
        let n = self.worker_stats.len();
        let ghost e = self.worker_stats@;
        let mut facts: usize = 0;
        let mut evaluated: usize = 0;
        let mut fired: usize = 0;
        let mut time: u128 = 0;
        let mut longest: u64 = 0;
        let mut i: usize = 0;
        proof {
            assert(e.take(0) =~= Seq::<(usize, WorkerStats)>::empty());
            lemma_sums_prefix(e);
        }
        while i < n
            invariant
                n == e.len(),
                e == self.worker_stats@,
                i <= n,
                sum_facts(e) <= usize::MAX,
                sum_evaluated(e) <= usize::MAX,
                sum_fired(e) <= usize::MAX,
                forall|k: int| 0 <= k <= n ==> #[trigger] sum_facts(e.take(k)) <= sum_facts(e),
                forall|k: int| 0 <= k <= n ==> #[trigger] sum_evaluated(e.take(k)) <= sum_evaluated(e),
                forall|k: int| 0 <= k <= n ==> #[trigger] sum_fired(e.take(k)) <= sum_fired(e),
                facts == sum_facts(e.take(i as int)),
                evaluated == sum_evaluated(e.take(i as int)),
                fired == sum_fired(e.take(i as int)),
                time == sum_time(e.take(i as int)),
                time <= i * 0xffff_ffff_ffff_ffffu128,
                longest == max_time(e.take(i as int)),
            decreases n - i,
        {
            let w = self.worker_stats[i].1;
            proof {
                let t = e.take(i + 1);
                assert(t.drop_last() =~= e.take(i as int));
                assert(t.last() == e[i as int]);
                assert(sum_facts(e.take(i + 1)) <= sum_facts(e));
                assert(sum_evaluated(e.take(i + 1)) <= sum_evaluated(e));
                assert(sum_fired(e.take(i + 1)) <= sum_fired(e));
                assert((i + 1) * 0xffff_ffff_ffff_ffffu128 == i * 0xffff_ffff_ffff_ffffu128 + 0xffff_ffff_ffff_ffffu128) by (nonlinear_arith);
                assert(i * 0xffff_ffff_ffff_ffffu128 + 0xffff_ffff_ffff_ffffu128 <= 0xffff_ffff_ffff_ffffu128 * 0xffff_ffff_ffff_ffffu128) by (nonlinear_arith)
                    requires i < 0xffff_ffff_ffff_ffffu128;
            }
            facts = facts + w.facts_processed;
            evaluated = evaluated + w.rules_evaluated;
            fired = fired + w.rules_fired;
            time = time + w.processing_time_ms as u128;
            if w.processing_time_ms > longest {
                longest = w.processing_time_ms;
            }
            i = i + 1;
        }
        proof {
            assert(e.take(n as int) =~= e);
        }
        let efficiency = if n > 1 && longest > 0 {
            proof {
                assert((n as u128) * (longest as u128) <= 0xffff_ffff_ffff_ffffu128 * 0xffff_ffff_ffff_ffffu128) by (nonlinear_arith)
                    requires n <= 0xffff_ffff_ffff_ffffu128, longest <= 0xffff_ffff_ffff_ffffu128;
            }
            Efficiency { busy_ms: time, capacity_ms: (n as u128) * (longest as u128) }
        } else {
            Efficiency { busy_ms: 1, capacity_ms: 1 }
        };
        Ok(ParallelPerformanceSummary {
            total_facts_processed: facts,
            total_rules_evaluated: evaluated,
            total_rules_fired: fired,
            worker_count: n,
            max_worker_time_ms: longest,
            parallel_efficiency: efficiency,
        })
    }

    /// The aggregation engine.
    pub fn aggregation_engine(&self) -> (e: &ParallelAggregationEngine)
        ensures
            *e == self.engine(),
    {
        &self.aggregation_engine
    }

    /// Records an aggregation in the engine's counters (see
    /// [`ParallelAggregationEngine::record_aggregation`]).
    pub fn record_aggregation(&mut self, op: AggregationOp, len: usize, elapsed_ms: u64) -> (parallel: bool)
        requires
            can_record(old(self).engine().stats),
        ensures
            parallel == takes_parallel_path(old(self).engine().config, op, len as nat),
            final(self).engine().config == old(self).engine().config,
            final(self).engine().stats == after_record(old(self).engine().stats, old(self).engine().config, op, len as nat, elapsed_ms),
            final(self).results_view() == old(self).results_view(),
            final(self).workers() == old(self).workers(),
    {
        self.aggregation_engine.record_aggregation(op, len, elapsed_ms)
    }

    /// Counts the values the predicate accepts, through the engine.
    pub fn parallel_count<T, F: Fn(&T) -> bool>(&mut self, values: &[T], predicate: F) -> (r: BingoResult<usize>)
        requires
            forall|i: int| 0 <= i < values@.len() ==> predicate.requires((&values@[i],)),
            can_record(old(self).engine().stats),
        ensures
            r matches Ok(n) && exists|b: Seq<bool>| {
                &&& b.len() == values@.len()
                &&& forall|i: int| 0 <= i < b.len() ==> predicate.ensures((&values@[i],), #[trigger] b[i])
                &&& n == count_true(b)
            },
            final(self).results_view() == old(self).results_view(),
            final(self).workers() == old(self).workers(),
            final(self).engine().config == old(self).engine().config,
    {
        self.aggregation_engine.parallel_count(values, predicate)
    }

    /// The engine's counters.
    pub fn get_aggregation_stats(&self) -> (r: BingoResult<ParallelAggregationStats>)
        ensures
            r == Ok::<ParallelAggregationStats, crate::error::BingoError>(self.engine().stats),
    {
        self.aggregation_engine.get_stats()
    }
}

impl Default for ParallelAggregator {
    fn default() -> (a: ParallelAggregator)
        ensures
            a.results_view() == Seq::<RuleExecutionResult>::empty(),
            a.workers() == Seq::<(usize, WorkerStats)>::empty(),
    {
        ParallelAggregator::new()
    }
}

/// Sums over a prefix are no more than over the whole list.
proof fn lemma_sums_prefix(e: Seq<(usize, WorkerStats)>)
    ensures
        forall|k: int| 0 <= k <= e.len() ==> #[trigger] sum_facts(e.take(k)) <= sum_facts(e),
        forall|k: int| 0 <= k <= e.len() ==> #[trigger] sum_evaluated(e.take(k)) <= sum_evaluated(e),
        forall|k: int| 0 <= k <= e.len() ==> #[trigger] sum_fired(e.take(k)) <= sum_fired(e),
    decreases e.len(),
{
    if e.len() > 0 {
        lemma_sums_prefix(e.drop_last());
        assert forall|k: int| 0 <= k <= e.len() implies #[trigger] sum_facts(e.take(k)) <= sum_facts(e) by {
            if k < e.len() {
                assert(e.take(k) =~= e.drop_last().take(k));
            } else {
                assert(e.take(k) =~= e);
            }
        }
        assert forall|k: int| 0 <= k <= e.len() implies #[trigger] sum_evaluated(e.take(k)) <= sum_evaluated(e) by {
            if k < e.len() {
                assert(e.take(k) =~= e.drop_last().take(k));
            } else {
                assert(e.take(k) =~= e);
            }
        }
        assert forall|k: int| 0 <= k <= e.len() implies #[trigger] sum_fired(e.take(k)) <= sum_fired(e) by {
            if k < e.len() {
                assert(e.take(k) =~= e.drop_last().take(k));
            } else {
                assert(e.take(k) =~= e);
            }
        }
    }
}

} // verus!

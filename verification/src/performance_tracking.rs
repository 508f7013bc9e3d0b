//! Profiling of rule execution: per rule, how often it was evaluated and
//! fired, how long it took and how much memory it used, with recent
//! records and a trend; totals over all rules; sessions; and the rules
//! that stand out as slow, ineffective or memory-hungry.
//!
//! Durations are nanoseconds; wall-clock times are milliseconds since the
//! Unix epoch (UTC). Rates are exact fractions.

use vstd::prelude::*;
use std::time::Instant;
use crate::clock::{duration_nanos, elapsed_since, max_duration_nanos, now, utc_now_millis};
use crate::text::{nat_decimal, rounded_tenths, tenths_decimal, tenths_to_string, u128_to_string, u64_to_string};
use crate::types::{Ratio, RuleId};

verus! {

/// What the tracker records.
#[derive(Debug, Clone, Copy, PartialEq, Eq, Structural)]
pub struct PerformanceConfig {
    /// Whether evaluations are timed (and so recorded at all).
    pub enable_timing: bool,
    pub enable_memory_tracking: bool,
    pub enable_rule_stats: bool,
    /// Evaluations shorter than this, in microseconds, are not recorded.
    pub min_execution_time_us: u64,
    /// How many recent evaluations are kept for each rule.
    pub max_execution_records: usize,
    /// Whether a trend point is kept for each evaluation.
    pub enable_trend_analysis: bool,
}

impl PerformanceConfig {
    /// The default settings.
    pub open spec fn default_spec() -> PerformanceConfig {
        PerformanceConfig {
            enable_timing: true,
            enable_memory_tracking: true,
            enable_rule_stats: true,
            min_execution_time_us: 100,
            max_execution_records: 100,
            enable_trend_analysis: true,
        }
    }
}

impl Default for PerformanceConfig {
    /// Everything on; evaluations under 100 µs skipped; 100 records a rule.
    fn default() -> (c: PerformanceConfig)
        ensures
            c == PerformanceConfig::default_spec(),
    {
        PerformanceConfig {
            enable_timing: true,
            enable_memory_tracking: true,
            enable_rule_stats: true,
            min_execution_time_us: 100,
            max_execution_records: 100,
            enable_trend_analysis: true,
        }
    }
}

/// Timing figures of a rule, in nanoseconds. The average is kept as the
/// total time, which the count divides.
#[derive(Debug, Clone, Copy, PartialEq, Eq, Structural, Default)]
pub struct TimingStatistics {
    pub total_time: u128,
    pub average_time: u128,
    /// The shortest evaluation; zero until one is recorded.
    pub min_time: u128,
    pub max_time: u128,
    pub std_deviation: u128,
    pub p95_time: u128,
    pub p99_time: u128,
}

/// Output facts per byte used: `output_facts` over `memory_used`; zero
/// while no output was recorded, and without bound when output came with
/// no memory.
#[derive(Debug, Clone, Copy, PartialEq, Eq, Structural)]
pub struct MemoryEfficiency {
    pub output_facts: usize,
    pub memory_used: usize,
}

/// Memory figures of a rule, in bytes.
#[derive(Debug, Clone, Copy, PartialEq, Eq, Structural)]
pub struct MemoryStatistics {
    pub average_memory: usize,
    pub peak_memory: usize,
    pub total_allocated: usize,
    pub memory_efficiency: MemoryEfficiency,
}

impl Default for MemoryStatistics {
    /// No memory seen yet.
    fn default() -> (m: MemoryStatistics)
        ensures
            m == (MemoryStatistics {
                average_memory: 0,
                peak_memory: 0,
                total_allocated: 0,
                memory_efficiency: MemoryEfficiency { output_facts: 0, memory_used: 0 },
            }),
    {
        MemoryStatistics {
            average_memory: 0,
            peak_memory: 0,
            total_allocated: 0,
            memory_efficiency: MemoryEfficiency { output_facts: 0, memory_used: 0 },
        }
    }
}

/// An amount per time: `amount` per `nanos` nanoseconds; without bound
/// while `nanos` is zero.
#[derive(Debug, Clone, Copy, PartialEq, Eq, Structural)]
pub struct PerSecond {
    pub amount: u128,
    pub nanos: u128,
}

/// Where an evaluation ran.
#[derive(Debug, Clone)]
pub struct ExecutionContext {
    pub processing_mode: String,
    /// Cache hits over lookups.
    pub cache_hit_rate: Ratio,
    pub nodes_traversed: usize,
    pub token_operations: usize,
}

/// Model of a context: mode, cache hit rate, nodes, token operations.
pub type ContextView = (Seq<char>, Ratio, usize, usize);

impl View for ExecutionContext {
    type V = ContextView;

    open spec fn view(&self) -> ContextView {
        (self.processing_mode@, self.cache_hit_rate, self.nodes_traversed, self.token_operations)
    }
}

/// One recorded evaluation.
#[derive(Debug, Clone)]
pub struct ExecutionRecord {
    /// When it was recorded.
    pub started_at: i64,
    /// How long it took.
    pub duration: u128,
    pub input_fact_count: usize,
    pub output_fact_count: usize,
    pub memory_used: usize,
    pub rule_fired: bool,
    pub context: ExecutionContext,
}

/// Model of a record.
pub struct RecordView {
    pub started_at: i64,
    pub duration: u128,
    pub input_fact_count: usize,
    pub output_fact_count: usize,
    pub memory_used: usize,
    pub rule_fired: bool,
    pub context: ContextView,
}

impl View for ExecutionRecord {
    type V = RecordView;

    open spec fn view(&self) -> RecordView {
        RecordView {
            started_at: self.started_at,
            duration: self.duration,
            input_fact_count: self.input_fact_count,
            output_fact_count: self.output_fact_count,
            memory_used: self.memory_used,
            rule_fired: self.rule_fired,
            context: self.context@,
        }
    }
}

/// Models of a list of records.
pub open spec fn records_view(v: Seq<ExecutionRecord>) -> Seq<RecordView> {
    v.map_values(|r: ExecutionRecord| r@)
}

/// A point of a rule's trend.
#[derive(Debug, Clone, Copy, PartialEq, Eq, Structural)]
pub struct PerformanceTrendPoint {
    pub timestamp: i64,
    pub execution_time: u128,
    pub memory_usage: usize,
    pub success_rate: Ratio,
    /// One evaluation per the evaluation's whole milliseconds.
    pub throughput: PerSecond,
}

/// The figures of one rule.
#[derive(Debug, Clone)]
pub struct RuleExecutionProfile {
    pub rule_id: RuleId,
    pub evaluation_count: usize,
    pub fire_count: usize,
    /// Firings over evaluations.
    pub success_rate: Ratio,
    pub timing_stats: TimingStatistics,
    pub memory_stats: MemoryStatistics,
    pub recent_executions: Vec<ExecutionRecord>,
    pub performance_trend: Vec<PerformanceTrendPoint>,
    pub last_updated: i64,
}

/// Model of a rule's figures.
pub struct ProfileView {
    pub rule_id: RuleId,
    pub evaluations: usize,
    pub fires: usize,
    pub success_rate: Ratio,
    pub timing: TimingStatistics,
    pub memory: MemoryStatistics,
    pub records: Seq<RecordView>,
    pub trend: Seq<PerformanceTrendPoint>,
    pub last_updated: i64,
}

impl View for RuleExecutionProfile {
    type V = ProfileView;

    open spec fn view(&self) -> ProfileView {
        ProfileView {
            rule_id: self.rule_id,
            evaluations: self.evaluation_count,
            fires: self.fire_count,
            success_rate: self.success_rate,
            timing: self.timing_stats,
            memory: self.memory_stats,
            records: records_view(self.recent_executions@),
            trend: self.performance_trend@,
            last_updated: self.last_updated,
        }
    }
}

/// Models of a list of rule figures.
pub open spec fn profiles_view(v: Seq<RuleExecutionProfile>) -> Seq<ProfileView> {
    v.map_values(|p: RuleExecutionProfile| p@)
}

/// Totals over all rules.
#[derive(Debug, Clone, Copy, PartialEq, Eq, Structural)]
pub struct GlobalPerformanceMetrics {
    pub total_evaluations: usize,
    pub total_firings: usize,
    /// Firings over evaluations.
    pub overall_success_rate: Ratio,
    pub total_processing_time: u128,
    pub average_batch_time: u128,
    pub peak_memory_usage: usize,
    pub total_facts_processed: usize,
    pub total_facts_generated: usize,
    /// Facts generated over facts processed.
    pub fact_efficiency: Ratio,
}

impl GlobalPerformanceMetrics {
    /// Nothing recorded yet.
    pub open spec fn empty_spec() -> GlobalPerformanceMetrics {
        GlobalPerformanceMetrics {
            total_evaluations: 0,
            total_firings: 0,
            overall_success_rate: Ratio { part: 0, whole: 0 },
            total_processing_time: 0,
            average_batch_time: 0,
            peak_memory_usage: 0,
            total_facts_processed: 0,
            total_facts_generated: 0,
            fact_efficiency: Ratio { part: 0, whole: 0 },
        }
    }
}

impl Default for GlobalPerformanceMetrics {
    /// Nothing recorded yet.
    fn default() -> (m: GlobalPerformanceMetrics)
        ensures
            m == GlobalPerformanceMetrics::empty_spec(),
    {
        GlobalPerformanceMetrics {
            total_evaluations: 0,
            total_firings: 0,
            overall_success_rate: Ratio { part: 0, whole: 0 },
            total_processing_time: 0,
            average_batch_time: 0,
            peak_memory_usage: 0,
            total_facts_processed: 0,
            total_facts_generated: 0,
            fact_efficiency: Ratio { part: 0, whole: 0 },
        }
    }
}

/// What a session has seen so far.
#[derive(Debug, Clone, Copy, PartialEq, Eq, Structural, Default)]
pub struct SessionStatistics {
    pub facts_processed: usize,
    pub rules_fired: usize,
    /// In nanoseconds.
    pub total_time: u128,
    pub memory_allocated: usize,
}

/// A run of evaluations over a batch of facts.
#[derive(Debug)]
pub struct ExecutionSession {
    pub session_id: String,
    pub started_at: Instant,
    pub fact_count: usize,
    /// The rules evaluated, each once, in order of first evaluation.
    pub rules_evaluated: Vec<RuleId>,
    pub current_memory: usize,
    pub session_stats: SessionStatistics,
}

/// Model of a session: identifier, facts, rules evaluated, memory, figures.
pub struct SessionView {
    pub id: Seq<char>,
    pub fact_count: usize,
    pub rules_evaluated: Seq<RuleId>,
    pub current_memory: usize,
    pub stats: SessionStatistics,
}

/// The model of a session.
pub open spec fn session_view(s: ExecutionSession) -> SessionView {
    SessionView {
        id: s.session_id@,
        fact_count: s.fact_count,
        rules_evaluated: s.rules_evaluated@,
        current_memory: s.current_memory,
        stats: s.session_stats,
    }
}

/// A clock for one evaluation of a rule; a disabled one records nothing.
#[derive(Debug)]
pub struct RuleExecutionTimer {
    rule_id: RuleId,
    start_time: Option<Instant>,
}

impl RuleExecutionTimer {
    /// Whether the timer runs.
    pub closed spec fn enabled(&self) -> bool {
        self.start_time is Some
    }

    /// The rule timed.
    pub closed spec fn rule(&self) -> RuleId {
        self.rule_id
    }

    /// A timer for `rule_id` started now.
    fn started(rule_id: RuleId) -> (t: RuleExecutionTimer)
        ensures
            t.enabled(),
            t.rule() == rule_id,
    {
        RuleExecutionTimer { rule_id, start_time: Some(now()) }
    }

    /// A timer that records nothing.
    fn disabled() -> (t: RuleExecutionTimer)
        ensures
            !t.enabled(),
            t.rule() == 0,
    {
        RuleExecutionTimer { rule_id: 0, start_time: None }
    }

    /// Whether the timer runs.
    pub fn is_enabled(&self) -> (b: bool)
        ensures
            b == self.enabled(),
    {
        self.start_time.is_some()
    }

    /// The rule timed.
    pub fn rule_id(&self) -> (r: RuleId)
        ensures
            r == self.rule(),
    {
        self.rule_id
    }

    /// Nanoseconds since the timer started; zero for a disabled timer.
    fn elapsed_nanos(&self) -> (n: u128)
        ensures
            !self.enabled() ==> n == 0,
            n <= max_duration_nanos(),
    {
        match &self.start_time {
            Some(start) => duration_nanos(&elapsed_since(start)),
            None => 0,
        }
    }
}

/// What a finished session saw.
#[derive(Debug, Clone)]
pub struct SessionSummary {
    pub session_id: String,
    /// In nanoseconds.
    pub total_duration: u128,
    pub facts_processed: usize,
    pub rules_fired: usize,
    pub rules_evaluated: usize,
    pub memory_used: usize,
    /// The session's facts per its duration.
    pub average_throughput: PerSecond,
}

/// The kind of a bottleneck.
#[derive(Debug, Clone, Copy, PartialEq, Eq, Structural)]
pub enum BottleneckType {
    SlowExecution,
    LowEfficiency,
    HighMemoryUsage,
    FrequentFiring,
}

/// A rule that stands out, how badly (0 to 1), and what to do.
#[derive(Debug, Clone)]
pub struct PerformanceBottleneck {
    pub rule_id: RuleId,
    pub bottleneck_type: BottleneckType,
    pub severity: Ratio,
    pub description: String,
    pub recommendation: String,
}

/// Model of a bottleneck.
pub type BottleneckView = (RuleId, BottleneckType, Ratio, Seq<char>, Seq<char>);

impl View for PerformanceBottleneck {
    type V = BottleneckView;

    open spec fn view(&self) -> BottleneckView {
        (self.rule_id, self.bottleneck_type, self.severity, self.description@, self.recommendation@)
    }
}

/// Models of a list of bottlenecks.
pub open spec fn bottlenecks_view(v: Seq<PerformanceBottleneck>) -> Seq<BottleneckView> {
    v.map_values(|b: PerformanceBottleneck| b@)
}

/// A summary over all rules: the slowest, the most fired and the least
/// effective, ten of each at most.
#[derive(Debug, Clone)]
pub struct PerformanceSummary {
    pub total_rules_tracked: usize,
    pub global_metrics: GlobalPerformanceMetrics,
    /// Rules by average time, longest first.
    pub slowest_rules: Vec<(RuleId, u128)>,
    /// Rules by firings, most first.
    pub most_fired_rules: Vec<(RuleId, usize)>,
    /// Rules by success rate, lowest first.
    pub least_efficient_rules: Vec<(RuleId, Ratio)>,
}

/// The list without its oldest entry when it is longer than `max`.
pub open spec fn drop_oldest<A>(s: Seq<A>, max: int) -> Seq<A> {
    if s.len() > max { s.drop_first() } else { s }
}

/// A rule's figures before its first evaluation, made at time `now`.
pub open spec fn fresh_profile(rule_id: RuleId, now: i64) -> ProfileView {
    ProfileView {
        rule_id,
        evaluations: 0,
        fires: 0,
        success_rate: Ratio { part: 0, whole: 0 },
        timing: TimingStatistics {
            total_time: 0,
            average_time: 0,
            min_time: 0,
            max_time: 0,
            std_deviation: 0,
            p95_time: 0,
            p99_time: 0,
        },
        memory: MemoryStatistics {
            average_memory: 0,
            peak_memory: 0,
            total_allocated: 0,
            memory_efficiency: MemoryEfficiency { output_facts: 0, memory_used: 0 },
        },
        records: Seq::empty(),
        trend: Seq::empty(),
        last_updated: now,
    }
}

/// Timing figures after an evaluation of `ns` nanoseconds.
pub open spec fn timing_after(t: TimingStatistics, ns: u128) -> TimingStatistics {
    let total = (t.total_time + ns) as u128;
    TimingStatistics {
        total_time: total,
        average_time: total,
        min_time: if t.min_time == 0 || ns < t.min_time { ns } else { t.min_time },
        max_time: if ns > t.max_time { ns } else { t.max_time },
        ..t
    }
}

/// Memory figures after an evaluation that used `used` bytes and produced
/// `output` facts.
pub open spec fn memory_after(m: MemoryStatistics, used: usize, output: usize) -> MemoryStatistics {
    MemoryStatistics {
        total_allocated: (m.total_allocated + used) as usize,
        peak_memory: if used > m.peak_memory { used } else { m.peak_memory },
        memory_efficiency: if output > 0 {
            MemoryEfficiency { output_facts: output, memory_used: used }
        } else {
            m.memory_efficiency
        },
        ..m
    }
}

/// What one evaluation brings: its length, facts in and out, whether the
/// rule fired, memory used, context, and when it was recorded.
pub struct Evaluation {
    pub nanos: u128,
    pub input: usize,
    pub output: usize,
    pub fired: bool,
    pub used: usize,
    pub context: ContextView,
    pub now: i64,
}

/// A rule's figures after an evaluation: one more evaluation (and firing),
/// the success rate, timing and memory brought up to date, the evaluation
/// recorded (the oldest record going past the limit), and a trend point
/// when trends are on (the oldest going past a hundred).
pub open spec fn profile_after(p: ProfileView, e: Evaluation, config: PerformanceConfig) -> ProfileView {
    let evaluations = (p.evaluations + 1) as usize;
    let fires = if e.fired { (p.fires + 1) as usize } else { p.fires };
    let rate = Ratio { part: fires, whole: evaluations };
    let record = RecordView {
        started_at: e.now,
        duration: e.nanos,
        input_fact_count: e.input,
        output_fact_count: e.output,
        memory_used: e.used,
        rule_fired: e.fired,
        context: e.context,
    };
    let point = PerformanceTrendPoint {
        timestamp: e.now,
        execution_time: e.nanos,
        memory_usage: e.used,
        success_rate: rate,
        throughput: PerSecond { amount: 1, nanos: ((e.nanos / 1_000_000) * 1_000_000) as u128 },
    };
    ProfileView {
        evaluations,
        fires,
        success_rate: rate,
        timing: timing_after(p.timing, e.nanos),
        memory: memory_after(p.memory, e.used, e.output),
        records: drop_oldest(p.records.push(record), config.max_execution_records as int),
        trend: if config.enable_trend_analysis { drop_oldest(p.trend.push(point), 100) } else { p.trend },
        last_updated: e.now,
        ..p
    }
}

/// The totals after an evaluation.
pub open spec fn global_after(g: GlobalPerformanceMetrics, e: Evaluation) -> GlobalPerformanceMetrics {
    let evaluations = (g.total_evaluations + 1) as usize;
    let firings = if e.fired { (g.total_firings + 1) as usize } else { g.total_firings };
    let processed = (g.total_facts_processed + e.input) as usize;
    let generated = (g.total_facts_generated + e.output) as usize;
    GlobalPerformanceMetrics {
        total_evaluations: evaluations,
        total_firings: firings,
        overall_success_rate: Ratio { part: firings, whole: evaluations },
        total_processing_time: (g.total_processing_time + e.nanos) as u128,
        peak_memory_usage: if e.used > g.peak_memory_usage { e.used } else { g.peak_memory_usage },
        total_facts_processed: processed,
        total_facts_generated: generated,
        fact_efficiency: if processed > 0 { Ratio { part: generated, whole: processed } } else { g.fact_efficiency },
        ..g
    }
}

/// A session's figures after an evaluation.
pub open spec fn session_stats_after(s: SessionStatistics, e: Evaluation) -> SessionStatistics {
    SessionStatistics {
        facts_processed: (s.facts_processed + e.input) as usize,
        rules_fired: if e.fired { (s.rules_fired + 1) as usize } else { s.rules_fired },
        total_time: (s.total_time + e.nanos) as u128,
        memory_allocated: (s.memory_allocated + e.used) as usize,
    }
}

/// Whether a rule has figures in the list.
pub open spec fn has_profile(ps: Seq<ProfileView>, id: RuleId) -> bool {
    exists|i: int| 0 <= i < ps.len() && ps[i].rule_id == id
}

/// The position of a rule's figures in the list.
pub open spec fn profile_index(ps: Seq<ProfileView>, id: RuleId) -> int {
    choose|i: int| 0 <= i < ps.len() && ps[i].rule_id == id
}

/// The figures before an evaluation of rule `id`: as they are, or fresh.
pub open spec fn profile_before(ps: Seq<ProfileView>, id: RuleId, now: i64) -> ProfileView {
    if has_profile(ps, id) { ps[profile_index(ps, id)] } else { fresh_profile(id, now) }
}

/// The list of figures after an evaluation of rule `id`: the rule's entry
/// updated in place, or a new one at the end.
pub open spec fn profiles_after(ps: Seq<ProfileView>, id: RuleId, e: Evaluation, config: PerformanceConfig) -> Seq<ProfileView> {
    if has_profile(ps, id) {
        ps.update(profile_index(ps, id), profile_after(ps[profile_index(ps, id)], e, config))
    } else {
        ps.push(profile_after(fresh_profile(id, e.now), e, config))
    }
}

/// Whether an evaluation is long enough to record: its whole microseconds
/// reach the configured minimum.
pub open spec fn recorded(ns: u128, config: PerformanceConfig) -> bool {
    ns / 1000 >= config.min_execution_time_us
}

/// The evaluations of all rules together.
pub open spec fn sum_evaluations(ps: Seq<ProfileView>) -> int
    decreases ps.len(),
{
    if ps.len() == 0 {
        0
    } else {
        sum_evaluations(ps.drop_last()) + ps.last().evaluations
    }
}

/// The firings of all rules together.
pub open spec fn sum_fires(ps: Seq<ProfileView>) -> int
    decreases ps.len(),
{
    if ps.len() == 0 {
        0
    } else {
        sum_fires(ps.drop_last()) + ps.last().fires
    }
}

/// Replacing one entry changes each sum by the entry's change.
proof fn lemma_sums_update(ps: Seq<ProfileView>, i: int, x: ProfileView)
    requires
        0 <= i < ps.len(),
    ensures
        sum_evaluations(ps.update(i, x)) == sum_evaluations(ps) - ps[i].evaluations + x.evaluations,
        sum_fires(ps.update(i, x)) == sum_fires(ps) - ps[i].fires + x.fires,
    decreases ps.len(),
{
    let u = ps.update(i, x);
    if i == ps.len() - 1 {
        assert(u.drop_last() =~= ps.drop_last());
    } else {
        assert(u.drop_last() =~= ps.drop_last().update(i, x));
        lemma_sums_update(ps.drop_last(), i, x);
    }
}

/// Adding an entry adds its figures to each sum.
proof fn lemma_sums_push(ps: Seq<ProfileView>, x: ProfileView)
    ensures
        sum_evaluations(ps.push(x)) == sum_evaluations(ps) + x.evaluations,
        sum_fires(ps.push(x)) == sum_fires(ps) + x.fires,
{
    assert(ps.push(x).drop_last() =~= ps);
}

/// Tracks the performance of rule evaluation.
#[derive(Debug)]
pub struct RulePerformanceTracker {
    rule_profiles: Vec<RuleExecutionProfile>,
    global_metrics: GlobalPerformanceMetrics,
    current_session: Option<ExecutionSession>,
    config: PerformanceConfig,
}

impl RulePerformanceTracker {
    /// Well-formedness: no rule has two entries; each entry has been
    /// evaluated, its success rate is its firings over its evaluations, and
    /// it keeps no more records than configured and at most a hundred trend
    /// points; the totals of evaluations and firings are the sums over the
    /// rules.
    pub closed spec fn wf(&self) -> bool {
        &&& forall|i: int, j: int| 0 <= i < j < self.rule_profiles@.len() ==> self.rule_profiles@[i].rule_id
            != self.rule_profiles@[j].rule_id
        &&& forall|i: int| 0 <= i < self.rule_profiles@.len() ==> (#[trigger] self.rule_profiles@[i]).success_rate
            == (Ratio { part: self.rule_profiles@[i].fire_count, whole: self.rule_profiles@[i].evaluation_count })
        &&& forall|i: int| 0 <= i < self.rule_profiles@.len() ==> (#[trigger] self.rule_profiles@[i]).fire_count
            <= self.rule_profiles@[i].evaluation_count
        &&& forall|i: int| 0 <= i < self.rule_profiles@.len() ==> (#[trigger] self.rule_profiles@[i]).evaluation_count >= 1
        &&& forall|i: int| 0 <= i < self.rule_profiles@.len() ==> (#[trigger] self.rule_profiles@[i]).recent_executions@.len()
            <= self.config.max_execution_records
        &&& forall|i: int| 0 <= i < self.rule_profiles@.len() ==> (#[trigger] self.rule_profiles@[i]).performance_trend@.len()
            <= 100
        &&& self.global_metrics.total_firings <= self.global_metrics.total_evaluations
        &&& self.global_metrics.total_evaluations == sum_evaluations(self.profiles())
        &&& self.global_metrics.total_firings == sum_fires(self.profiles())
    }

    /// The rules' figures, in order of first evaluation.
    pub closed spec fn profiles(&self) -> Seq<ProfileView> {
        profiles_view(self.rule_profiles@)
    }

    /// The totals.
    pub closed spec fn global(&self) -> GlobalPerformanceMetrics {
        self.global_metrics
    }

    /// The current session, if one is running.
    pub closed spec fn session(&self) -> Option<SessionView> {
        match self.current_session {
            Some(s) => Some(session_view(s)),
            None => None,
        }
    }

    /// The settings.
    pub closed spec fn settings(&self) -> PerformanceConfig {
        self.config
    }

    /// Whether an evaluation's figures can be added without leaving their
    /// types: counts in `usize`, times in a `Duration`.
    pub open spec fn can_record(&self, id: RuleId, e: Evaluation) -> bool {
        let p = profile_before(self.profiles(), id, e.now);
        let g = self.global();
        &&& p.evaluations + 1 <= usize::MAX
        &&& p.timing.total_time + e.nanos <= max_duration_nanos()
        &&& p.memory.total_allocated + e.used <= usize::MAX
        &&& g.total_evaluations + 1 <= usize::MAX
        &&& g.total_processing_time + e.nanos <= max_duration_nanos()
        &&& g.total_facts_processed + e.input <= usize::MAX
        &&& g.total_facts_generated + e.output <= usize::MAX
        &&& self.session() matches Some(s) ==> {
            &&& s.stats.facts_processed + e.input <= usize::MAX
            &&& s.stats.rules_fired + 1 <= usize::MAX
            &&& s.stats.total_time + e.nanos <= max_duration_nanos()
            &&& s.stats.memory_allocated + e.used <= usize::MAX
        }
    }

    /// A tracker with the default settings.
    pub fn new() -> (t: RulePerformanceTracker)
        ensures
            t.wf(),
            t.profiles() == Seq::<ProfileView>::empty(),
            t.global() == GlobalPerformanceMetrics::empty_spec(),
            t.session() is None,
            t.settings() == PerformanceConfig::default_spec(),
    {
        Self::with_config(PerformanceConfig::default())
    }

    /// A tracker with the given settings, with nothing recorded.
    pub fn with_config(config: PerformanceConfig) -> (t: RulePerformanceTracker)
        ensures
            t.wf(),
            t.profiles() == Seq::<ProfileView>::empty(),
            t.global() == GlobalPerformanceMetrics::empty_spec(),
            t.session() is None,
            t.settings() == config,
    {
        let t = RulePerformanceTracker {
            rule_profiles: Vec::new(),
            global_metrics: GlobalPerformanceMetrics::default(),
            current_session: None,
            config,
        };
        assert(t.profiles() =~= Seq::<ProfileView>::empty());
        t
    }

    /// Starts a session over `fact_count` facts under the given identifier,
    /// begun at `started_at`, in place of any session running.
    pub fn start_session_with_id(&mut self, fact_count: usize, session_id: String, started_at: Instant)
        requires
            old(self).wf(),
        ensures
            final(self).wf(),
            final(self).session() == Some(SessionView {
                id: session_id@,
                fact_count,
                rules_evaluated: Seq::empty(),
                current_memory: 0,
                stats: SessionStatistics { facts_processed: 0, rules_fired: 0, total_time: 0, memory_allocated: 0 },
            }),
            final(self).profiles() == old(self).profiles(),
            final(self).global() == old(self).global(),
            final(self).settings() == old(self).settings(),
    {
        self.current_session = Some(ExecutionSession {
            session_id,
            started_at,
            fact_count,
            rules_evaluated: Vec::new(),
            current_memory: 0,
            session_stats: SessionStatistics { facts_processed: 0, rules_fired: 0, total_time: 0, memory_allocated: 0 },
        });
        proof {
            assert(self.session() matches Some(s) && s.rules_evaluated =~= Seq::<RuleId>::empty());
        }
    }

    /// Starts a session over `fact_count` facts under a fresh identifier,
    /// `session_` and a random UUID, which it returns.
    pub fn start_session(&mut self, fact_count: usize) -> (id: String)
        requires
            old(self).wf(),
        ensures
            final(self).wf(),
            id@.len() == 44,
            id@.subrange(0, 8) == "session_"@,
            final(self).session() == Some(SessionView {
                id: id@,
                fact_count,
                rules_evaluated: Seq::empty(),
                current_memory: 0,
                stats: SessionStatistics { facts_processed: 0, rules_fired: 0, total_time: 0, memory_allocated: 0 },
            }),
            final(self).profiles() == old(self).profiles(),
            final(self).global() == old(self).global(),
            final(self).settings() == old(self).settings(),
    {
        let id = new_session_id();
        self.start_session_with_id(fact_count, id.clone(), now());
        id
    }

    /// Starts timing an evaluation of `rule_id`: with timing off, a timer
    /// that records nothing; otherwise the rule joins the session's rules
    /// (once) and the timer starts.
    pub fn start_rule_evaluation(&mut self, rule_id: RuleId) -> (timer: RuleExecutionTimer)
        requires
            old(self).wf(),
        ensures
            final(self).wf(),
            timer.enabled() == old(self).settings().enable_timing,
            timer.rule() == if old(self).settings().enable_timing { rule_id } else { 0 },
            final(self).session() == match old(self).session() {
                Some(s) => Some(if !old(self).settings().enable_timing || s.rules_evaluated.contains(rule_id) {
                    s
                } else {
                    SessionView { rules_evaluated: s.rules_evaluated.push(rule_id), ..s }
                }),
                None => None,
            },
            final(self).profiles() == old(self).profiles(),
            final(self).global() == old(self).global(),
            final(self).settings() == old(self).settings(),
    {
        if !self.config.enable_timing {
            return RuleExecutionTimer::disabled();
        }
        match self.current_session.take() {
            Some(mut session) => {
                let ghost before = session.rules_evaluated@;
                let n = session.rules_evaluated.len();
                let mut i: usize = 0;
                let mut seen = false;
                while i < n
                    invariant
                        n == session.rules_evaluated@.len(),
                        i <= n,
                        seen == exists|j: int| 0 <= j < i && session.rules_evaluated@[j] == rule_id,
                    decreases n - i,
                {
                    if session.rules_evaluated[i] == rule_id {
                        seen = true;
                    }
                    i = i + 1;
                }
                if !seen {
                    session.rules_evaluated.push(rule_id);
                }
                proof {
                    if seen {
                        let j = choose|j: int| 0 <= j < n && session.rules_evaluated@[j] == rule_id;
                        assert(before.contains(rule_id));
                    } else {
                        assert(!before.contains(rule_id));
                    }
                }
                self.current_session = Some(session);
            },
            None => {},
        }
        RuleExecutionTimer::started(rule_id)
    }
}

/// The evaluation made of these figures.
pub open spec fn evaluation(
    nanos: u128,
    input: usize,
    output: usize,
    fired: bool,
    used: usize,
    context: ContextView,
    now: i64,
) -> Evaluation {
    Evaluation { nanos, input, output, fired, used, context, now }
}

impl RuleExecutionProfile {
    /// A rule's figures before its first evaluation, made at `now`.
    fn fresh(rule_id: RuleId, now: i64) -> (p: RuleExecutionProfile)
        ensures
            p@ == fresh_profile(rule_id, now),
            p.recent_executions@.len() == 0,
            p.performance_trend@.len() == 0,
    {
        let p = RuleExecutionProfile {
            rule_id,
            evaluation_count: 0,
            fire_count: 0,
            success_rate: Ratio { part: 0, whole: 0 },
            timing_stats: TimingStatistics {
                total_time: 0,
                average_time: 0,
                min_time: 0,
                max_time: 0,
                std_deviation: 0,
                p95_time: 0,
                p99_time: 0,
            },
            memory_stats: MemoryStatistics {
                average_memory: 0,
                peak_memory: 0,
                total_allocated: 0,
                memory_efficiency: MemoryEfficiency { output_facts: 0, memory_used: 0 },
            },
            recent_executions: Vec::new(),
            performance_trend: Vec::new(),
            last_updated: now,
        };
        assert(p@.records =~= Seq::<RecordView>::empty());
        p
    }

    /// Adds one evaluation to these figures.
    fn record_evaluation(
        &mut self,
        nanos: u128,
        input: usize,
        output: usize,
        fired: bool,
        used: usize,
        context: ExecutionContext,
        now: i64,
        config: PerformanceConfig,
    )
        requires
            old(self)@.evaluations + 1 <= usize::MAX,
            old(self)@.fires <= old(self)@.evaluations,
            old(self)@.timing.total_time + nanos <= max_duration_nanos(),
            old(self)@.memory.total_allocated + used <= usize::MAX,
            old(self).recent_executions@.len() <= config.max_execution_records,
            old(self).performance_trend@.len() <= 100,
        ensures
            final(self).recent_executions@.len() <= config.max_execution_records,
            final(self).performance_trend@.len() <= 100,
            final(self)@ == profile_after(
                old(self)@,
                evaluation(nanos, input, output, fired, used, context@, now),
                config,
            ),
    {
        let ghost before = self@;
        let ghost cv = context@;
        self.evaluation_count = self.evaluation_count + 1;
        if fired {
            self.fire_count = self.fire_count + 1;
        }
        self.success_rate = Ratio { part: self.fire_count, whole: self.evaluation_count };
        self.last_updated = now;
        let total = self.timing_stats.total_time + nanos;
        self.timing_stats.total_time = total;
        self.timing_stats.average_time = total;
        if self.timing_stats.min_time == 0 || nanos < self.timing_stats.min_time {
            self.timing_stats.min_time = nanos;
        }
        if nanos > self.timing_stats.max_time {
            self.timing_stats.max_time = nanos;
        }
        self.memory_stats.total_allocated = self.memory_stats.total_allocated + used;
        if used > self.memory_stats.peak_memory {
            self.memory_stats.peak_memory = used;
        }
        if output > 0 {
            self.memory_stats.memory_efficiency = MemoryEfficiency { output_facts: output, memory_used: used };
        }
        let record = ExecutionRecord {
            started_at: now,
            duration: nanos,
            input_fact_count: input,
            output_fact_count: output,
            memory_used: used,
            rule_fired: fired,
            context,
        };
        let ghost rv = record@;
        let ghost records_before = self.recent_executions@;
        self.recent_executions.push(record);
        assert(records_view(self.recent_executions@) =~= records_view(records_before).push(rv));
        if self.recent_executions.len() > config.max_execution_records {
            let ghost pushed = self.recent_executions@;
            self.recent_executions.remove(0);
            assert(records_view(self.recent_executions@) =~= records_view(pushed).drop_first());
        }
        if config.enable_trend_analysis {
            let point = PerformanceTrendPoint {
                timestamp: now,
                execution_time: nanos,
                memory_usage: used,
                success_rate: self.success_rate,
                throughput: PerSecond { amount: 1, nanos: (nanos / 1_000_000) * 1_000_000 },
            };
            self.performance_trend.push(point);
            if self.performance_trend.len() > 100 {
                let ghost pushed = self.performance_trend@;
                self.performance_trend.remove(0);
                assert(self.performance_trend@ =~= pushed.drop_first());
            }
        }
        assert(rv == (RecordView {
            started_at: now,
            duration: nanos,
            input_fact_count: input,
            output_fact_count: output,
            memory_used: used,
            rule_fired: fired,
            context: cv,
        }));
    }
}

impl RulePerformanceTracker {
    /// Where rule `rule_id` has its figures, if anywhere.
    fn position_of(&self, rule_id: RuleId) -> (r: Option<usize>)
        ensures
            match r {
                Some(i) => i < self.rule_profiles@.len() && self.rule_profiles@[i as int].rule_id == rule_id,
                None => forall|j: int| 0 <= j < self.rule_profiles@.len() ==> self.rule_profiles@[j].rule_id != rule_id,
            },
    {
        let n = self.rule_profiles.len();
        let mut i: usize = 0;
        while i < n
            invariant
                n == self.rule_profiles@.len(),
                i <= n,
                forall|j: int| 0 <= j < i ==> self.rule_profiles@[j].rule_id != rule_id,
            decreases n - i,
        {
            if self.rule_profiles[i].rule_id == rule_id {
                return Some(i);
            }
            i = i + 1;
        }
        None
    }

    /// Records an evaluation of `rule_id` that took `nanos` nanoseconds,
    /// read `input_facts` facts, produced `output_facts`, fired or not,
    /// used `memory_used` bytes, and ran in `context`, at time `now`. One
    /// shorter than the configured minimum is left out; otherwise the rule's
    /// figures (made fresh at its first evaluation), the totals and the
    /// session's figures take it in.
    #[verifier::rlimit(40)]
    pub fn complete_rule_evaluation_at(
        &mut self,
        rule_id: RuleId,
        nanos: u128,
        input_facts: usize,
        output_facts: usize,
        rule_fired: bool,
        memory_used: usize,
        context: ExecutionContext,
        now: i64,
    )
        requires
            old(self).wf(),
            old(self).can_record(
                rule_id,
                evaluation(nanos, input_facts, output_facts, rule_fired, memory_used, context@, now),
            ),
        ensures
            final(self).wf(),
            final(self).settings() == old(self).settings(),
            !recorded(nanos, old(self).settings()) ==> {
                &&& final(self).profiles() == old(self).profiles()
                &&& final(self).global() == old(self).global()
                &&& final(self).session() == old(self).session()
            },
            recorded(nanos, old(self).settings()) ==> {
                let e = evaluation(nanos, input_facts, output_facts, rule_fired, memory_used, context@, now);
                &&& final(self).profiles() == profiles_after(old(self).profiles(), rule_id, e, old(self).settings())
                &&& final(self).global() == global_after(old(self).global(), e)
                &&& final(self).session() == match old(self).session() {
                    Some(s) => Some(SessionView { stats: session_stats_after(s.stats, e), ..s }),
                    None => None,
                }
            },
    {
        if nanos / 1000 < self.config.min_execution_time_us as u128 {
            return;
        }
        let ghost ps = self.profiles();
        let ghost old_vec = self.rule_profiles@;
        let ghost e = evaluation(nanos, input_facts, output_facts, rule_fired, memory_used, context@, now);
        let config = self.config;
        match self.position_of(rule_id) {
            Some(i) => {
                proof {
                    assert(ps[i as int].rule_id == rule_id);
                    assert(has_profile(ps, rule_id));
                    let j = profile_index(ps, rule_id);
                    assert(ps[j].rule_id == old_vec[j].rule_id);
                    assert(j == i);
                }
                let mut p = self.rule_profiles.remove(i);
                assert(p == old_vec[i as int]);
                p.record_evaluation(nanos, input_facts, output_facts, rule_fired, memory_used, context, now, config);
                let ghost q = p;
                self.rule_profiles.insert(i, p);
                proof {
                    assert(self.rule_profiles@ =~= old_vec.update(i as int, q));
                    assert(self.profiles() =~= ps.update(i as int, profile_after(ps[i as int], e, config)));
                    lemma_sums_update(ps, i as int, q@);
                }
            },
            None => {
                proof {
                    if has_profile(ps, rule_id) {
                        let j = profile_index(ps, rule_id);
                        assert(ps[j].rule_id == old_vec[j].rule_id);
                    }
                }
                let mut p = RuleExecutionProfile::fresh(rule_id, now);
                p.record_evaluation(nanos, input_facts, output_facts, rule_fired, memory_used, context, now, config);
                let ghost q = p;
                self.rule_profiles.push(p);
                proof {
                    assert(self.rule_profiles@ =~= old_vec.push(q));
                    assert(self.profiles() =~= ps.push(profile_after(fresh_profile(rule_id, now), e, config)));
                    lemma_sums_push(ps, q@);
                }
            },
        }
        self.global_metrics.total_evaluations = self.global_metrics.total_evaluations + 1;
        if rule_fired {
            self.global_metrics.total_firings = self.global_metrics.total_firings + 1;
        }
        self.global_metrics.overall_success_rate = Ratio {
            part: self.global_metrics.total_firings,
            whole: self.global_metrics.total_evaluations,
        };
        self.global_metrics.total_processing_time = self.global_metrics.total_processing_time + nanos;
        self.global_metrics.total_facts_processed = self.global_metrics.total_facts_processed + input_facts;
        self.global_metrics.total_facts_generated = self.global_metrics.total_facts_generated + output_facts;
        if memory_used > self.global_metrics.peak_memory_usage {
            self.global_metrics.peak_memory_usage = memory_used;
        }
        if self.global_metrics.total_facts_processed > 0 {
            self.global_metrics.fact_efficiency = Ratio {
                part: self.global_metrics.total_facts_generated,
                whole: self.global_metrics.total_facts_processed,
            };
        }
        match self.current_session.take() {
            Some(mut session) => {
                session.session_stats.facts_processed = session.session_stats.facts_processed + input_facts;
                if rule_fired {
                    session.session_stats.rules_fired = session.session_stats.rules_fired + 1;
                }
                session.session_stats.total_time = session.session_stats.total_time + nanos;
                session.session_stats.memory_allocated = session.session_stats.memory_allocated + memory_used;
                self.current_session = Some(session);
            },
            None => {},
        }
    }
}

/// `max_duration_nanos()` as a value.
const MAX_DURATION_NANOS: u128 = 18_446_744_073_709_551_615_999_999_999;

/// Whether the figures went from the first three to the last three by
/// taking in evaluation `e` of rule `id` under `config`: left as they were
/// when the evaluation is too short to record.
pub open spec fn takes_in(
    ps0: Seq<ProfileView>,
    g0: GlobalPerformanceMetrics,
    s0: Option<SessionView>,
    ps1: Seq<ProfileView>,
    g1: GlobalPerformanceMetrics,
    s1: Option<SessionView>,
    config: PerformanceConfig,
    id: RuleId,
    e: Evaluation,
) -> bool {
    if recorded(e.nanos, config) {
        &&& ps1 == profiles_after(ps0, id, e, config)
        &&& g1 == global_after(g0, e)
        &&& s1 == match s0 {
            Some(s) => Some(SessionView { stats: session_stats_after(s.stats, e), ..s }),
            None => None,
        }
    } else {
        ps1 == ps0 && g1 == g0 && s1 == s0
    }
}

impl RulePerformanceTracker {
    /// The entry of a rule found at `i` is the one the model picks.
    proof fn lemma_profile_at(&self, rule_id: RuleId, i: int)
        requires
            self.wf(),
            0 <= i < self.rule_profiles@.len(),
            self.rule_profiles@[i].rule_id == rule_id,
        ensures
            has_profile(self.profiles(), rule_id),
            profile_index(self.profiles(), rule_id) == i,
            profile_before(self.profiles(), rule_id, 0) == self.rule_profiles@[i]@,
    {
        let ps = self.profiles();
        assert(ps[i].rule_id == rule_id);
        let j = profile_index(ps, rule_id);
        assert(ps[j].rule_id == self.rule_profiles@[j].rule_id);
    }

    /// A rule found nowhere has no entry in the model.
    proof fn lemma_profile_absent(&self, rule_id: RuleId)
        requires
            forall|j: int| 0 <= j < self.rule_profiles@.len() ==> self.rule_profiles@[j].rule_id != rule_id,
        ensures
            !has_profile(self.profiles(), rule_id),
    {
        let ps = self.profiles();
        if has_profile(ps, rule_id) {
            let j = profile_index(ps, rule_id);
            assert(ps[j].rule_id == self.rule_profiles@[j].rule_id);
        }
    }

    /// Whether an evaluation of `rule_id` with these figures can be taken
    /// in without leaving the figures' types.
    fn can_take(
        &self,
        rule_id: RuleId,
        nanos: u128,
        input: usize,
        output: usize,
        fired: bool,
        used: usize,
        context: &ExecutionContext,
        now: i64,
    ) -> (b: bool)
        requires
            self.wf(),
        ensures
            b == self.can_record(rule_id, evaluation(nanos, input, output, fired, used, context@, now)),
    {
        assert(MAX_DURATION_NANOS == max_duration_nanos());
        let ghost ps = self.profiles();
        let (evaluations, total_time, total_allocated) = match self.position_of(rule_id) {
            Some(i) => {
                proof {
                    self.lemma_profile_at(rule_id, i as int);
                }
                let p = &self.rule_profiles[i];
                (p.evaluation_count, p.timing_stats.total_time, p.memory_stats.total_allocated)
            },
            None => {
                proof {
                    self.lemma_profile_absent(rule_id);
                }
                (0, 0, 0)
            },
        };
        let g = &self.global_metrics;
        let fits = evaluations < usize::MAX && total_time <= MAX_DURATION_NANOS && nanos <= MAX_DURATION_NANOS
            - total_time && used <= usize::MAX - total_allocated && g.total_evaluations < usize::MAX
            && g.total_processing_time <= MAX_DURATION_NANOS && nanos <= MAX_DURATION_NANOS
            - g.total_processing_time && input <= usize::MAX - g.total_facts_processed && output
            <= usize::MAX - g.total_facts_generated;
        match &self.current_session {
            Some(s) => {
                let st = &s.session_stats;
                fits && input <= usize::MAX - st.facts_processed && st.rules_fired < usize::MAX
                    && st.total_time <= MAX_DURATION_NANOS && nanos <= MAX_DURATION_NANOS - st.total_time
                    && used <= usize::MAX - st.memory_allocated
            },
            None => fits,
        }
    }

    /// Records the evaluation that `timer` timed, as
    /// `complete_rule_evaluation_at` does, with the time the timer shows and
    /// the clock's current time. A disabled timer records nothing, and so
    /// does an evaluation whose figures would leave their types.
    pub fn complete_rule_evaluation(
        &mut self,
        timer: RuleExecutionTimer,
        input_facts: usize,
        output_facts: usize,
        rule_fired: bool,
        memory_used: usize,
        context: ExecutionContext,
    )
        requires
            old(self).wf(),
        ensures
            final(self).wf(),
            final(self).settings() == old(self).settings(),
            !timer.enabled() ==> {
                &&& final(self).profiles() == old(self).profiles()
                &&& final(self).global() == old(self).global()
                &&& final(self).session() == old(self).session()
            },
            timer.enabled() ==> exists|nanos: u128, now: i64| nanos <= max_duration_nanos() && {
                let e = #[trigger] evaluation(nanos, input_facts, output_facts, rule_fired, memory_used, context@, now);
                if old(self).can_record(timer.rule(), e) {
                    takes_in(
                        old(self).profiles(),
                        old(self).global(),
                        old(self).session(),
                        final(self).profiles(),
                        final(self).global(),
                        final(self).session(),
                        old(self).settings(),
                        timer.rule(),
                        e,
                    )
                } else {
                    &&& final(self).profiles() == old(self).profiles()
                    &&& final(self).global() == old(self).global()
                    &&& final(self).session() == old(self).session()
                }
            },
    {
        if !timer.is_enabled() {
            return;
        }
        let nanos = timer.elapsed_nanos();
        let rule_id = timer.rule_id();
        let now = utc_now_millis();
        let ghost cv = context@;
        let ghost e = evaluation(nanos, input_facts, output_facts, rule_fired, memory_used, cv, now);
        if self.can_take(rule_id, nanos, input_facts, output_facts, rule_fired, memory_used, &context, now) {
            self.complete_rule_evaluation_at(
                rule_id,
                nanos,
                input_facts,
                output_facts,
                rule_fired,
                memory_used,
                context,
                now,
            );
        }
        assert(evaluation(nanos, input_facts, output_facts, rule_fired, memory_used, cv, now) == e);
    }
}

/// Where a stable insertion puts `x` into `s`: just before the first element
/// that `x` goes strictly before, or at the end.
pub open spec fn insert_slot<T>(s: Seq<T>, x: T, before: spec_fn(T, T) -> bool) -> int
    decreases s.len(),
{
    if s.len() == 0 {
        0
    } else if before(x, s[0]) {
        0
    } else {
        1 + insert_slot(s.drop_first(), x, before)
    }
}

/// `s` sorted by `before`, stably: each element in turn inserted into the
/// sorted earlier ones at its `insert_slot`, so that elements that neither
/// goes before keep their order.
pub open spec fn sorted_by<T>(s: Seq<T>, before: spec_fn(T, T) -> bool) -> Seq<T>
    decreases s.len(),
{
    if s.len() == 0 {
        s
    } else {
        let r = sorted_by(s.drop_last(), before);
        r.insert(insert_slot(r, s.last(), before), s.last())
    }
}

/// The first ten of a list, or all of a shorter one.
pub open spec fn top_ten<T>(s: Seq<T>) -> Seq<T> {
    if s.len() > 10 { s.take(10) } else { s }
}

/// Longer average time first.
pub open spec fn longer_first() -> spec_fn((RuleId, u128), (RuleId, u128)) -> bool {
    |a: (RuleId, u128), b: (RuleId, u128)| a.1 > b.1
}

/// More firings first.
pub open spec fn more_fired_first() -> spec_fn((RuleId, usize), (RuleId, usize)) -> bool {
    |a: (RuleId, usize), b: (RuleId, usize)| a.1 > b.1
}

/// Lower success rate first.
pub open spec fn lower_rate_first() -> spec_fn((RuleId, Ratio), (RuleId, Ratio)) -> bool {
    |a: (RuleId, Ratio), b: (RuleId, Ratio)| a.1.part * b.1.whole < b.1.part * a.1.whole
}

/// Each rule with its average time.
pub open spec fn times_of(ps: Seq<ProfileView>) -> Seq<(RuleId, u128)> {
    ps.map_values(|p: ProfileView| (p.rule_id, p.timing.average_time))
}

/// Each rule with its firings.
pub open spec fn fires_of(ps: Seq<ProfileView>) -> Seq<(RuleId, usize)> {
    ps.map_values(|p: ProfileView| (p.rule_id, p.fires))
}

/// Each rule with its success rate.
pub open spec fn rates_of(ps: Seq<ProfileView>) -> Seq<(RuleId, Ratio)> {
    ps.map_values(|p: ProfileView| (p.rule_id, p.success_rate))
}

/// The slot is the first place where `x` goes before the element there.
proof fn lemma_insert_slot<T>(s: Seq<T>, x: T, before: spec_fn(T, T) -> bool, i: int)
    requires
        0 <= i <= s.len(),
        forall|j: int| 0 <= j < i ==> !before(x, #[trigger] s[j]),
        i == s.len() || before(x, s[i]),
    ensures
        insert_slot(s, x, before) == i,
    decreases i,
{
    if i > 0 {
        let t = s.drop_first();
        assert forall|j: int| 0 <= j < i - 1 implies !before(x, #[trigger] t[j]) by {
            assert(t[j] == s[j + 1]);
        }
        if i < s.len() {
            assert(t[i - 1] == s[i]);
        }
        lemma_insert_slot(t, x, before, i - 1);
    }
}

/// Inserts `x` at its slot by average time.
fn insert_by_time(r: &mut Vec<(RuleId, u128)>, x: (RuleId, u128))
    ensures
        final(r)@ == old(r)@.insert(insert_slot(old(r)@, x, longer_first()), x),
{
    let mut i: usize = 0;
    while i < r.len() && !(x.1 > r[i].1)
        invariant
            i <= r@.len(),
            forall|j: int| 0 <= j < i ==> !longer_first()(x, #[trigger] r@[j]),
        decreases r@.len() - i,
    {
        i = i + 1;
    }
    proof {
        lemma_insert_slot(r@, x, longer_first(), i as int);
    }
    r.insert(i, x);
}

/// Inserts `x` at its slot by firings.
fn insert_by_fires(r: &mut Vec<(RuleId, usize)>, x: (RuleId, usize))
    ensures
        final(r)@ == old(r)@.insert(insert_slot(old(r)@, x, more_fired_first()), x),
{
    let mut i: usize = 0;
    while i < r.len() && !(x.1 > r[i].1)
        invariant
            i <= r@.len(),
            forall|j: int| 0 <= j < i ==> !more_fired_first()(x, #[trigger] r@[j]),
        decreases r@.len() - i,
    {
        i = i + 1;
    }
    proof {
        lemma_insert_slot(r@, x, more_fired_first(), i as int);
    }
    r.insert(i, x);
}

/// Whether rate `a` is below rate `b`.
fn rate_below(a: Ratio, b: Ratio) -> (r: bool)
    ensures
        r == (a.part * b.whole < b.part * a.whole),
{
    let x: u128 = a.part as u128;
    let y: u128 = b.whole as u128;
    let z: u128 = b.part as u128;
    let w: u128 = a.whole as u128;
    assert(x * y <= u64::MAX as int * u64::MAX as int) by (nonlinear_arith)
        requires
            x <= u64::MAX,
            y <= u64::MAX,
    ;
    assert(z * w <= u64::MAX as int * u64::MAX as int) by (nonlinear_arith)
        requires
            z <= u64::MAX,
            w <= u64::MAX,
    ;
    x * y < z * w
}

/// Inserts `x` at its slot by success rate.
fn insert_by_rate(r: &mut Vec<(RuleId, Ratio)>, x: (RuleId, Ratio))
    ensures
        final(r)@ == old(r)@.insert(insert_slot(old(r)@, x, lower_rate_first()), x),
{
    let mut i: usize = 0;
    while i < r.len() && !rate_below(x.1, r[i].1)
        invariant
            i <= r@.len(),
            forall|j: int| 0 <= j < i ==> !lower_rate_first()(x, #[trigger] r@[j]),
        decreases r@.len() - i,
    {
        i = i + 1;
    }
    proof {
        lemma_insert_slot(r@, x, lower_rate_first(), i as int);
    }
    r.insert(i, x);
}

impl RulePerformanceTracker {
    /// The rules with their average times, firings and success rates, each
    /// list sorted, stably in order of first evaluation, and cut to ten.
    pub fn get_performance_summary(&self) -> (s: PerformanceSummary)
        ensures
            s.total_rules_tracked == self.profiles().len(),
            s.global_metrics == self.global(),
            s.slowest_rules@ == top_ten(sorted_by(times_of(self.profiles()), longer_first())),
            s.most_fired_rules@ == top_ten(sorted_by(fires_of(self.profiles()), more_fired_first())),
            s.least_efficient_rules@ == top_ten(sorted_by(rates_of(self.profiles()), lower_rate_first())),
    {
        let ghost ps = self.profiles();
        let n = self.rule_profiles.len();
        let mut slowest: Vec<(RuleId, u128)> = Vec::new();
        let mut most_fired: Vec<(RuleId, usize)> = Vec::new();
        let mut least_efficient: Vec<(RuleId, Ratio)> = Vec::new();
        let mut k: usize = 0;
        while k < n
            invariant
                n == self.rule_profiles@.len(),
                ps == self.profiles(),
                k <= n,
                slowest@ == sorted_by(times_of(ps).take(k as int), longer_first()),
                most_fired@ == sorted_by(fires_of(ps).take(k as int), more_fired_first()),
                least_efficient@ == sorted_by(rates_of(ps).take(k as int), lower_rate_first()),
            decreases n - k,
        {
            let p = &self.rule_profiles[k];
            proof {
                assert(ps[k as int] == p@);
                assert(times_of(ps).take(k + 1).drop_last() =~= times_of(ps).take(k as int));
                assert(fires_of(ps).take(k + 1).drop_last() =~= fires_of(ps).take(k as int));
                assert(rates_of(ps).take(k + 1).drop_last() =~= rates_of(ps).take(k as int));
            }
            insert_by_time(&mut slowest, (p.rule_id, p.timing_stats.average_time));
            insert_by_fires(&mut most_fired, (p.rule_id, p.fire_count));
            insert_by_rate(&mut least_efficient, (p.rule_id, p.success_rate));
            k = k + 1;
        }
        proof {
            assert(times_of(ps).take(n as int) =~= times_of(ps));
            assert(fires_of(ps).take(n as int) =~= fires_of(ps));
            assert(rates_of(ps).take(n as int) =~= rates_of(ps));
        }
        slowest.truncate(10);
        most_fired.truncate(10);
        least_efficient.truncate(10);
        PerformanceSummary {
            total_rules_tracked: n,
            global_metrics: self.global_metrics,
            slowest_rules: slowest,
            most_fired_rules: most_fired,
            least_efficient_rules: least_efficient,
        }
    }
}

/// How far `v` is past the warning level `w` toward the critical level `c`:
/// one at or past `c`, one half at `w` rising evenly to one, zero below `w`.
pub open spec fn severity_of(v: nat, w: nat, c: nat) -> Ratio {
    if v >= c {
        Ratio { part: 1, whole: 1 }
    } else if v >= w {
        Ratio { part: (v + c - 2 * w) as usize, whole: (2 * (c - w)) as usize }
    } else {
        Ratio { part: 0, whole: 1 }
    }
}

/// The bottlenecks a rule's figures show, in this order: a slow average
/// (over 100 ms), a low success rate (under a tenth, over a hundred
/// evaluations), a high peak of memory (over 10 MB).
pub open spec fn bottlenecks_for(p: ProfileView) -> Seq<BottleneckView> {
    let id = nat_decimal(p.rule_id as nat);
    let ms = p.timing.average_time / 1_000_000;
    let mb = p.memory.peak_memory / 1_000_000;
    let slow = if p.timing.average_time > 100_000_000 {
        seq![(
            p.rule_id,
            BottleneckType::SlowExecution,
            severity_of(ms as nat, 100, 1000),
            "Rule "@ + id + " has slow average execution time: "@ + nat_decimal(ms as nat) + "ms"@,
            "Consider optimizing rule conditions or indexing"@,
        )]
    } else {
        Seq::empty()
    };
    let low = if 10 * p.fires < p.evaluations && p.evaluations > 100 {
        seq![(
            p.rule_id,
            BottleneckType::LowEfficiency,
            Ratio { part: (p.evaluations - p.fires) as usize, whole: p.evaluations },
            "Rule "@ + id + " has low success rate: "@ + tenths_decimal(
                rounded_tenths((p.fires * 100) as nat, p.evaluations as nat),
            ) + "%"@,
            "Consider reordering conditions or adding more selective conditions"@,
        )]
    } else {
        Seq::empty()
    };
    let high = if p.memory.peak_memory > 10_000_000 {
        seq![(
            p.rule_id,
            BottleneckType::HighMemoryUsage,
            severity_of(p.memory.peak_memory as nat, 10_000_000, 100_000_000),
            "Rule "@ + id + " uses high memory: "@ + nat_decimal(mb as nat) + "MB"@,
            "Consider optimizing data structures or reducing working memory"@,
        )]
    } else {
        Seq::empty()
    };
    slow + low + high
}

/// The bottlenecks of all rules, rule by rule.
pub open spec fn bottlenecks_of(ps: Seq<ProfileView>) -> Seq<BottleneckView>
    decreases ps.len(),
{
    if ps.len() == 0 {
        Seq::empty()
    } else {
        bottlenecks_of(ps.drop_last()) + bottlenecks_for(ps.last())
    }
}

/// `severity_of` at a value, warning and critical level.
fn severity(v: u128, w: u128, c: u128) -> (r: Ratio)
    requires
        w < c <= 100_000_000,
    ensures
        r == severity_of(v as nat, w as nat, c as nat),
{
    if v >= c {
        Ratio { part: 1, whole: 1 }
    } else if v >= w {
        Ratio { part: (v + c - 2 * w) as usize, whole: (2 * (c - w)) as usize }
    } else {
        Ratio { part: 0, whole: 1 }
    }
}

/// `fires / evaluations` as a percentage in tenths, rounded.
fn percent_tenths(fires: usize, evaluations: usize) -> (r: u128)
    requires
        evaluations > 0,
    ensures
        r == rounded_tenths((fires * 100) as nat, evaluations as nat),
{
    let num: u128 = fires as u128 * 1000;
    let den: u128 = evaluations as u128;
    let q = num / den;
    let rem = num % den;
    let rest = den - rem;
    proof {
        assert((fires * 100) as nat * 10 == num);
    }
    if rem > rest || (rem == rest && q % 2 == 1) {
        assert(q <= num) by (nonlinear_arith)
            requires
                q == num / den,
                den >= 1,
                num >= 0,
        ;
        q + 1
    } else {
        q
    }
}

/// `prefix`, the rule's number, `middle`, then `suffix`.
fn rule_text(rule_id: RuleId, middle: &str, value: String, suffix: &str) -> (s: String)
    ensures
        s@ == "Rule "@ + nat_decimal(rule_id as nat) + middle@ + value@ + suffix@,
{
    let mut s = String::from_str("Rule ");
    let id = u64_to_string(rule_id);
    s.append(id.as_str());
    s.append(middle);
    s.append(value.as_str());
    s.append(suffix);
    s
}

impl RuleExecutionProfile {
    /// The bottlenecks these figures show.
    fn bottlenecks(&self) -> (r: Vec<PerformanceBottleneck>)
        requires
            self@.fires <= self@.evaluations,
        ensures
            bottlenecks_view(r@) == bottlenecks_for(self@),
    {
        let mut r: Vec<PerformanceBottleneck> = Vec::new();
        let ghost mut slow: Seq<BottleneckView> = Seq::empty();
        let ghost mut low: Seq<BottleneckView> = Seq::empty();
        let ghost mut high: Seq<BottleneckView> = Seq::empty();
        let avg = self.timing_stats.average_time;
        if avg > 100_000_000 {
            let ms = avg / 1_000_000;
            let b = PerformanceBottleneck {
                rule_id: self.rule_id,
                bottleneck_type: BottleneckType::SlowExecution,
                severity: severity(ms, 100, 1000),
                description: rule_text(self.rule_id, " has slow average execution time: ", u128_to_string(ms), "ms"),
                recommendation: String::from_str("Consider optimizing rule conditions or indexing"),
            };
            proof {
                slow = seq![b@];
            }
            r.push(b);
        }
        assert(bottlenecks_view(r@) =~= slow);
        let evaluations = self.evaluation_count;
        let fires = self.fire_count;
        if (fires as u128) * 10 < evaluations as u128 && evaluations > 100 {
            let b = PerformanceBottleneck {
                rule_id: self.rule_id,
                bottleneck_type: BottleneckType::LowEfficiency,
                severity: Ratio { part: evaluations - fires, whole: evaluations },
                description: rule_text(
                    self.rule_id,
                    " has low success rate: ",
                    tenths_to_string(percent_tenths(fires, evaluations)),
                    "%",
                ),
                recommendation: String::from_str("Consider reordering conditions or adding more selective conditions"),
            };
            proof {
                low = seq![b@];
            }
            let ghost before = r@;
            r.push(b);
            assert(bottlenecks_view(r@) =~= bottlenecks_view(before) + low);
        }
        assert(bottlenecks_view(r@) =~= slow + low);
        let peak = self.memory_stats.peak_memory;
        if peak > 10_000_000 {
            let b = PerformanceBottleneck {
                rule_id: self.rule_id,
                bottleneck_type: BottleneckType::HighMemoryUsage,
                severity: severity(peak as u128, 10_000_000, 100_000_000),
                description: rule_text(self.rule_id, " uses high memory: ", u64_to_string((peak / 1_000_000) as u64), "MB"),
                recommendation: String::from_str("Consider optimizing data structures or reducing working memory"),
            };
            proof {
                high = seq![b@];
            }
            let ghost before = r@;
            r.push(b);
            assert(bottlenecks_view(r@) =~= bottlenecks_view(before) + high);
        }
        assert(bottlenecks_view(r@) =~= slow + low + high);
        r
    }
}

impl RulePerformanceTracker {
    /// The bottlenecks of all rules, rule by rule in order of first
    /// evaluation.
    pub fn identify_bottlenecks(&self) -> (r: Vec<PerformanceBottleneck>)
        requires
            self.wf(),
        ensures
            bottlenecks_view(r@) == bottlenecks_of(self.profiles()),
    {
        let ghost ps = self.profiles();
        let n = self.rule_profiles.len();
        let mut r: Vec<PerformanceBottleneck> = Vec::new();
        let mut k: usize = 0;
        while k < n
            invariant
                self.wf(),
                n == self.rule_profiles@.len(),
                ps == self.profiles(),
                k <= n,
                bottlenecks_view(r@) == bottlenecks_of(ps.take(k as int)),
            decreases n - k,
        {
            let p = &self.rule_profiles[k];
            assert(p.fire_count <= p.evaluation_count);
            let mut more = p.bottlenecks();
            let ghost before = r@;
            let ghost added = more@;
            r.append(&mut more);
            proof {
                assert(ps.take(k + 1).drop_last() =~= ps.take(k as int));
                assert(ps[k as int] == p@);
                assert(bottlenecks_view(r@) =~= bottlenecks_view(before) + bottlenecks_view(added));
            }
            k = k + 1;
        }
        assert(ps.take(n as int) =~= ps);
        r
    }
}

/// Model of a session summary.
pub struct SummaryView {
    pub id: Seq<char>,
    pub total_duration: u128,
    pub facts_processed: usize,
    pub rules_fired: usize,
    pub rules_evaluated: usize,
    pub memory_used: usize,
    pub average_throughput: PerSecond,
}

impl View for SessionSummary {
    type V = SummaryView;

    open spec fn view(&self) -> SummaryView {
        SummaryView {
            id: self.session_id@,
            total_duration: self.total_duration,
            facts_processed: self.facts_processed,
            rules_fired: self.rules_fired,
            rules_evaluated: self.rules_evaluated,
            memory_used: self.memory_used,
            average_throughput: self.average_throughput,
        }
    }
}

/// The summary of session `s` after `elapsed` nanoseconds: its figures,
/// how many rules it evaluated, and its facts per its duration.
pub open spec fn summary_of(s: SessionView, elapsed: u128) -> SummaryView {
    SummaryView {
        id: s.id,
        total_duration: elapsed,
        facts_processed: s.stats.facts_processed,
        rules_fired: s.stats.rules_fired,
        rules_evaluated: s.rules_evaluated.len() as usize,
        memory_used: s.stats.memory_allocated,
        average_throughput: PerSecond { amount: s.fact_count as u128, nanos: elapsed },
    }
}

impl RulePerformanceTracker {
    /// Ends the current session, which ran `elapsed` nanoseconds, and gives
    /// its summary; `None` when no session runs.
    pub fn finish_session_with_duration(&mut self, elapsed: u128) -> (r: Option<SessionSummary>)
        requires
            old(self).wf(),
        ensures
            final(self).wf(),
            final(self).session() is None,
            final(self).profiles() == old(self).profiles(),
            final(self).global() == old(self).global(),
            final(self).settings() == old(self).settings(),
            match old(self).session() {
                Some(s) => r matches Some(sum) && sum@ == summary_of(s, elapsed),
                None => r is None,
            },
    {
        match self.current_session.take() {
            Some(session) => Some(SessionSummary {
                session_id: session.session_id,
                total_duration: elapsed,
                facts_processed: session.session_stats.facts_processed,
                rules_fired: session.session_stats.rules_fired,
                rules_evaluated: session.rules_evaluated.len(),
                memory_used: session.session_stats.memory_allocated,
                average_throughput: PerSecond { amount: session.fact_count as u128, nanos: elapsed },
            }),
            None => None,
        }
    }

    /// Ends the current session and gives its summary, its duration read
    /// from the clock; `None` when no session runs.
    pub fn finish_session(&mut self) -> (r: Option<SessionSummary>)
        requires
            old(self).wf(),
        ensures
            final(self).wf(),
            final(self).session() is None,
            final(self).profiles() == old(self).profiles(),
            final(self).global() == old(self).global(),
            final(self).settings() == old(self).settings(),
            match old(self).session() {
                Some(s) => r matches Some(sum) && sum.total_duration <= max_duration_nanos() && sum@
                    == summary_of(s, sum.total_duration),
                None => r is None,
            },
    {
        let elapsed = match &self.current_session {
            Some(session) => duration_nanos(&elapsed_since(&session.started_at)),
            None => 0,
        };
        self.finish_session_with_duration(elapsed)
    }

    /// The figures of rule `rule_id`, if it was ever recorded.
    pub fn get_rule_profile(&self, rule_id: RuleId) -> (r: Option<&RuleExecutionProfile>)
        requires
            self.wf(),
        ensures
            match r {
                Some(p) => has_profile(self.profiles(), rule_id) && p@ == self.profiles()[profile_index(
                    self.profiles(),
                    rule_id,
                )],
                None => !has_profile(self.profiles(), rule_id),
            },
    {
        match self.position_of(rule_id) {
            Some(i) => {
                proof {
                    self.lemma_profile_at(rule_id, i as int);
                }
                Some(&self.rule_profiles[i])
            },
            None => {
                proof {
                    self.lemma_profile_absent(rule_id);
                }
                None
            },
        }
    }

    /// The totals over all rules.
    pub fn get_global_metrics(&self) -> (g: &GlobalPerformanceMetrics)
        ensures
            *g == self.global(),
    {
        &self.global_metrics
    }
}

impl Default for RulePerformanceTracker {
    /// A tracker with the default settings.
    fn default() -> (t: RulePerformanceTracker)
        ensures
            t.wf(),
            t.profiles() == Seq::<ProfileView>::empty(),
            t.global() == GlobalPerformanceMetrics::empty_spec(),
            t.session() is None,
            t.settings() == PerformanceConfig::default_spec(),
    {
        RulePerformanceTracker::new()
    }
}

/// Whether no rule has two entries in the list.
pub open spec fn unique_rules(ps: Seq<ProfileView>) -> bool {
    forall|i: int, j: int| 0 <= i < j < ps.len() ==> ps[i].rule_id != ps[j].rule_id
}

/// In a list without repeated rules, the entry of a rule is the one found.
proof fn lemma_index_of_unique(ps: Seq<ProfileView>, id: RuleId, i: int)
    requires
        unique_rules(ps),
        0 <= i < ps.len(),
        ps[i].rule_id == id,
    ensures
        has_profile(ps, id),
        profile_index(ps, id) == i,
{
    assert(ps[i].rule_id == id);
    let j = profile_index(ps, id);
    if j < i {
        assert(ps[j].rule_id != ps[i].rule_id);
    } else if i < j {
        assert(ps[i].rule_id != ps[j].rule_id);
    }
}

/// The totals of evaluations and firings are the sums of the rules'
/// evaluations and firings.
pub proof fn law_totals_are_sums(t: &RulePerformanceTracker)
    requires
        t.wf(),
    ensures
        t.global().total_evaluations == sum_evaluations(t.profiles()),
        t.global().total_firings == sum_fires(t.profiles()),
{
}

/// No rule has two entries; every rule has been evaluated at least once,
/// fired at most as often as it was evaluated, and its success rate is its
/// firings over its evaluations; overall, firings never pass evaluations.
pub proof fn law_rates_are_fractions(t: &RulePerformanceTracker)
    requires
        t.wf(),
    ensures
        unique_rules(t.profiles()),
        t.global().total_firings <= t.global().total_evaluations,
        forall|i: int|
            0 <= i < t.profiles().len() ==> {
                let p = #[trigger] t.profiles()[i];
                &&& p.evaluations >= 1
                &&& p.fires <= p.evaluations
                &&& p.success_rate == (Ratio { part: p.fires, whole: p.evaluations })
            },
{
    let ps = t.profiles();
    assert forall|i: int, j: int| 0 <= i < j < ps.len() implies ps[i].rule_id != ps[j].rule_id by {
        assert(ps[i].rule_id == t.rule_profiles@[i].rule_id);
        assert(ps[j].rule_id == t.rule_profiles@[j].rule_id);
    }
    assert forall|i: int| 0 <= i < ps.len() implies {
        let p = #[trigger] ps[i];
        &&& p.evaluations >= 1
        &&& p.fires <= p.evaluations
        &&& p.success_rate == (Ratio { part: p.fires, whole: p.evaluations })
    } by {
        assert(ps[i] == t.rule_profiles@[i]@);
    }
}

/// Each rule keeps no more records than the settings allow and at most a
/// hundred trend points.
pub proof fn law_history_bounded(t: &RulePerformanceTracker)
    requires
        t.wf(),
    ensures
        forall|i: int|
            0 <= i < t.profiles().len() ==> {
                &&& (#[trigger] t.profiles()[i]).records.len() <= t.settings().max_execution_records
                &&& t.profiles()[i].trend.len() <= 100
            },
{
    let ps = t.profiles();
    assert forall|i: int| 0 <= i < ps.len() implies {
        &&& (#[trigger] ps[i]).records.len() <= t.settings().max_execution_records
        &&& ps[i].trend.len() <= 100
    } by {
        assert(ps[i] == t.rule_profiles@[i]@);
    }
}

/// Taking in an evaluation of a rule leaves a list without repeated rules
/// in which that rule's entry is its earlier entry (or a fresh one) with
/// the evaluation added, and every other entry as it was.
pub proof fn law_evaluation_updates_its_rule(
    ps: Seq<ProfileView>,
    id: RuleId,
    e: Evaluation,
    config: PerformanceConfig,
)
    requires
        unique_rules(ps),
    ensures
        unique_rules(profiles_after(ps, id, e, config)),
        has_profile(profiles_after(ps, id, e, config), id),
        profile_before(profiles_after(ps, id, e, config), id, e.now) == profile_after(
            profile_before(ps, id, e.now),
            e,
            config,
        ),
        forall|r: RuleId|
            r != id ==> #[trigger] has_profile(profiles_after(ps, id, e, config), r) == has_profile(ps, r)
                && profile_before(profiles_after(ps, id, e, config), r, e.now) == profile_before(ps, r, e.now),
{
    let qs = profiles_after(ps, id, e, config);
    if has_profile(ps, id) {
        let i = profile_index(ps, id);
        assert(qs[i].rule_id == id);
        assert forall|a: int, b: int| 0 <= a < b < qs.len() implies qs[a].rule_id != qs[b].rule_id by {
            assert(qs[a].rule_id == ps[a].rule_id);
            assert(qs[b].rule_id == ps[b].rule_id);
        }
        lemma_index_of_unique(qs, id, i);
        assert forall|r: RuleId| r != id implies #[trigger] has_profile(qs, r) == has_profile(ps, r)
            && profile_before(qs, r, e.now) == profile_before(ps, r, e.now) by {
            if has_profile(ps, r) {
                let k = profile_index(ps, r);
                assert(qs[k] == ps[k]);
                lemma_index_of_unique(qs, r, k);
            }
            if has_profile(qs, r) {
                let k = profile_index(qs, r);
                assert(qs[k] == ps[k]);
                lemma_index_of_unique(ps, r, k);
            }
        }
    } else {
        let n = ps.len() as int;
        assert(qs[n].rule_id == id);
        assert forall|a: int, b: int| 0 <= a < b < qs.len() implies qs[a].rule_id != qs[b].rule_id by {
            if b == n {
                assert(qs[a] == ps[a]);
                if ps[a].rule_id == id {
                    assert(has_profile(ps, id));
                }
            } else {
                assert(qs[a] == ps[a]);
                assert(qs[b] == ps[b]);
            }
        }
        lemma_index_of_unique(qs, id, n);
        assert forall|r: RuleId| r != id implies #[trigger] has_profile(qs, r) == has_profile(ps, r)
            && profile_before(qs, r, e.now) == profile_before(ps, r, e.now) by {
            if has_profile(ps, r) {
                let k = profile_index(ps, r);
                assert(qs[k] == ps[k]);
                lemma_index_of_unique(qs, r, k);
            }
            if has_profile(qs, r) {
                let k = profile_index(qs, r);
                if k < n {
                    assert(qs[k] == ps[k]);
                    lemma_index_of_unique(ps, r, k);
                }
            }
        }
    }
}

/// `uuid::Uuid::new_v4`, written with its `Display` form: a random
/// version-4 UUID as lower-case hexadecimal in five hyphenated groups, 36
/// characters long. Its digits are random, so nothing more is stated.
#[verifier::external_body]
fn new_uuid_text() -> (s: String)
    ensures
        s@.len() == 36,
{
    uuid::Uuid::new_v4().to_string()
}

/// A fresh session identifier: `session_` and a random UUID.
fn new_session_id() -> (s: String)
    ensures
        s@.len() == 44,
        s@.subrange(0, 8) == "session_"@,
{
    let mut s = String::from_str("session_");
    let u = new_uuid_text();
    s.append(u.as_str());
    proof {
        reveal_strlit("session_");
        assert(s@.subrange(0, 8) =~= "session_"@);
    }
    s
}

} // verus!

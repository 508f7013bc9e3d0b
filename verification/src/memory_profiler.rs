//! Memory accounting for the engine's components: bytes and objects
//! allocated and freed, peaks, utilization, growth and fragmentation, the
//! pressure level the totals add up to, and the clean-ups that pressure
//! calls for.
//!
//! Times are nanoseconds since the profiler was made. Utilization, growth
//! rates, fragmentation scores and trends are kept as exact fractions.

use vstd::prelude::*;
use std::time::Instant;
use crate::assoc::StrMap;
use crate::clock::{duration_nanos, elapsed_since, now};
use crate::text::{rounded_tenths, tenths_decimal, tenths_to_string};
use crate::types::Ratio;
use crate::wide::{mul_wide, wide_gt, wide_value};

verus! {

/// How hard memory is pressed, from least to most.
#[derive(Debug, Clone, Copy, PartialEq, Eq, PartialOrd, Ord, Structural)]
pub enum MemoryPressureLevel {
    /// No concern.
    Normal,
    /// Start conservative clean-up.
    Moderate,
    /// Aggressive clean-up needed.
    High,
    /// Emergency clean-up required.
    Critical,
}

/// The place of a level in the order from `Normal` to `Critical`.
pub open spec fn pressure_rank(l: MemoryPressureLevel) -> int {
    match l {
        MemoryPressureLevel::Normal => 0,
        MemoryPressureLevel::Moderate => 1,
        MemoryPressureLevel::High => 2,
        MemoryPressureLevel::Critical => 3,
    }
}

/// The memory totals, in bytes, at which each level of pressure begins.
#[derive(Debug, Clone, Copy, PartialEq, Eq, Structural)]
pub struct MemoryPressureThresholds {
    pub moderate_threshold: usize,
    pub high_threshold: usize,
    pub critical_threshold: usize,
}

/// The pressure that a memory total puts on the engine.
pub open spec fn pressure_for(total: int, t: MemoryPressureThresholds) -> MemoryPressureLevel {
    if total >= t.critical_threshold {
        MemoryPressureLevel::Critical
    } else if total >= t.high_threshold {
        MemoryPressureLevel::High
    } else if total >= t.moderate_threshold {
        MemoryPressureLevel::Moderate
    } else {
        MemoryPressureLevel::Normal
    }
}

/// Settings of the profiler.
#[derive(Debug, Clone, Copy, PartialEq, Eq, Structural)]
pub struct MemoryProfilerConfig {
    /// The least time between two collections, in milliseconds.
    pub collection_interval_ms: u64,
    pub pressure_thresholds: MemoryPressureThresholds,
    /// Whether a collection also triggers clean-ups.
    pub enable_auto_optimization: bool,
    /// The growth, in bytes per second, above which a component is reined in.
    pub max_growth_rate: u64,
    /// How long samples are kept, in milliseconds.
    pub history_retention_ms: u64,
}

impl MemoryProfilerConfig {
    /// The default settings.
    pub open spec fn default_spec() -> MemoryProfilerConfig {
        MemoryProfilerConfig {
            collection_interval_ms: 10_000,
            pressure_thresholds: MemoryPressureThresholds {
                moderate_threshold: 104_857_600,
                high_threshold: 262_144_000,
                critical_threshold: 524_288_000,
            },
            enable_auto_optimization: true,
            max_growth_rate: 10_485_760,
            history_retention_ms: 1_800_000,
        }
    }
}

impl Default for MemoryProfilerConfig {
    /// Collections ten seconds apart; pressure from 100, 250 and 500 MiB;
    /// clean-ups on; growth limited to 10 MiB a second; half an hour of
    /// samples.
    fn default() -> (c: MemoryProfilerConfig)
        ensures
            c == MemoryProfilerConfig::default_spec(),
    {
        MemoryProfilerConfig {
            collection_interval_ms: 10_000,
            pressure_thresholds: MemoryPressureThresholds {
                moderate_threshold: 104_857_600,
                high_threshold: 262_144_000,
                critical_threshold: 524_288_000,
            },
            enable_auto_optimization: true,
            max_growth_rate: 10_485_760,
            history_retention_ms: 1_800_000,
        }
    }
}

/// A rate of growth: `bytes` over `nanos` nanoseconds. While `nanos` is
/// zero the rate is zero.
#[derive(Debug, Clone, Copy, PartialEq, Eq, Structural)]
pub struct GrowthRate {
    pub bytes: usize,
    pub nanos: u128,
}

/// Whether a growth rate exceeds `num / den` times `max` bytes a second.
pub open spec fn growth_over(g: GrowthRate, max: u64, num: int, den: int) -> bool {
    g.nanos > 0 && den * g.bytes * 1_000_000_000 > num * max * g.nanos
}

/// Whether a growth rate exceeds `max` bytes a second.
pub fn growth_above(g: GrowthRate, max: u64) -> (r: bool)
    ensures
        r == growth_over(g, max, 1, 1),
{
    if g.nanos == 0 {
        return false;
    }
    let lhs: u128 = g.bytes as u128 * 1_000_000_000;
    let rhs = mul_wide(g.nanos, max);
    let l = mul_wide(lhs, 1);
    proof {
        assert(wide_value(rhs) == g.nanos * max);
        assert(1 * g.bytes * 1_000_000_000 == lhs * 1);
        assert(1 * max * g.nanos == g.nanos * max) by (nonlinear_arith);
    }
    wide_gt(l, rhs)
}

/// Whether a growth rate exceeds four fifths of `max` bytes a second.
pub fn growth_near(g: GrowthRate, max: u64) -> (r: bool)
    ensures
        r == growth_over(g, max, 4, 5),
{
    if g.nanos == 0 {
        return false;
    }
    let lhs: u128 = g.bytes as u128 * 5_000_000_000;
    if max == 0 {
        proof {
            assert(4 * max * g.nanos == 0) by (nonlinear_arith)
                requires
                    max == 0,
            ;
        }
        return lhs > 0;
    }
    if g.nanos > 0x1_0000_0000_0000_0000_0000_0000 {
        proof {
            assert(4 * max * g.nanos >= 4 * g.nanos) by (nonlinear_arith)
                requires
                    max >= 1,
                    g.nanos >= 0,
            ;
            assert(5 * g.bytes * 1_000_000_000 < 0x1_0000_0000_0000_0000_0000_0000 * 4);
        }
        return false;
    }
    let rhs = mul_wide(4 * g.nanos, max);
    let l = mul_wide(lhs, 1);
    proof {
        assert(4 * max * g.nanos == (4 * g.nanos) * max) by (nonlinear_arith);
    }
    wide_gt(l, rhs)
}

/// What a fragmentation score is computed from: the allocation and
/// deallocation counts and the used and total capacity at the component's
/// last utilization update.
#[derive(Debug, Clone, Copy, PartialEq, Eq, Structural)]
pub struct Fragmentation {
    pub allocations: usize,
    pub deallocations: usize,
    pub used: usize,
    pub total: usize,
}

/// The numerator of a fragmentation score, before its cap at 100: churn
/// (allocations and deallocations) over a thousand, times the unused share
/// of capacity (all of it while the total is zero), times allocations per
/// deallocation (one while there are none). Zero without allocations.
pub open spec fn fragmentation_num(f: Fragmentation) -> int {
    if f.allocations == 0 {
        0
    } else {
        (f.allocations + f.deallocations) * (if f.total > 0 { f.total - f.used } else { 1 }) * (if f.deallocations > 0 {
            f.allocations as int
        } else {
            1
        })
    }
}

/// The denominator of a fragmentation score.
pub open spec fn fragmentation_den(f: Fragmentation) -> int {
    1000 * (if f.total > 0 { f.total as int } else { 1 }) * (if f.deallocations > 0 { f.deallocations as int } else { 1 })
}

/// Whether a fragmentation score is above 50.
pub open spec fn fragmented(f: Fragmentation) -> bool {
    fragmentation_num(f) > 50 * fragmentation_den(f)
}

/// Whether a fragmentation score is above 50.
pub fn is_fragmented(f: Fragmentation) -> (r: bool)
    requires
        f.allocations + f.deallocations <= usize::MAX,
    ensures
        r == fragmented(f),
{
    if f.allocations == 0 {
        return false;
    }
    if f.total > 0 && f.used >= f.total {
        proof {
            let k = (f.allocations + f.deallocations) * (if f.deallocations > 0 { f.allocations as int } else { 1 });
            assert(k >= 0) by (nonlinear_arith)
                requires
                    f.allocations + f.deallocations >= 0,
                    (if f.deallocations > 0 { f.allocations as int } else { 1 }) >= 0,
                    k == (f.allocations + f.deallocations) * (if f.deallocations > 0 { f.allocations as int } else { 1 }),
            ;
            assert(fragmentation_num(f) == k * (f.total - f.used)) by (nonlinear_arith)
                requires
                    k == (f.allocations + f.deallocations) * (if f.deallocations > 0 { f.allocations as int } else { 1 }),
                    fragmentation_num(f) == (f.allocations + f.deallocations) * (f.total - f.used) * (if f.deallocations > 0 {
                        f.allocations as int
                    } else {
                        1
                    }),
            ;
            assert(k * (f.total - f.used) <= 0) by (nonlinear_arith)
                requires
                    k >= 0,
                    f.total - f.used <= 0,
            ;
            assert(fragmentation_den(f) > 0) by (nonlinear_arith)
                requires
                    fragmentation_den(f) == 1000 * (f.total as int) * (if f.deallocations > 0 { f.deallocations as int } else { 1 }),
                    f.total > 0,
            ;
        }
        return false;
    }
    let churn: u128 = f.allocations as u128 + f.deallocations as u128;
    let unused: u128 = if f.total > 0 { (f.total - f.used) as u128 } else { 1 };
    assert(churn * unused <= 0xffff_ffff_ffff_ffff * 0xffff_ffff_ffff_ffff) by (nonlinear_arith)
        requires
            churn <= 0xffff_ffff_ffff_ffff,
            unused <= 0xffff_ffff_ffff_ffff,
    ;
    let a: u128 = churn * unused;
    let rn: u64 = if f.deallocations > 0 { f.allocations as u64 } else { 1 };
    let b: u128 = 50_000 * (if f.total > 0 { f.total as u128 } else { 1 });
    let rd: u64 = if f.deallocations > 0 { f.deallocations as u64 } else { 1 };
    let lhs = mul_wide(a, rn);
    let rhs = mul_wide(b, rd);
    proof {
        assert(fragmentation_num(f) == a * rn);
        assert(50 * fragmentation_den(f) == b * rd) by (nonlinear_arith)
            requires
                fragmentation_den(f) == 1000 * (if f.total > 0 { f.total as int } else { 1 }) * (rd as int),
                b == 50_000 * (if f.total > 0 { f.total as int } else { 1 }),
        ;
    }
    wide_gt(lhs, rhs)
}

/// Memory figures of one component.
#[derive(Debug, Clone)]
pub struct ComponentMemoryStats {
    pub component_name: String,
    pub allocated_bytes: usize,
    pub peak_allocated_bytes: usize,
    /// Objects allocated.
    pub allocation_count: usize,
    /// Objects freed.
    pub deallocation_count: usize,
    /// Used over total capacity; the percentage is a hundred times it, and
    /// zero while the total is zero.
    pub utilization: Ratio,
    /// The growth at the last allocation that came after some time.
    pub growth: GrowthRate,
    /// When the component was last measured.
    pub measurement_timestamp: u128,
    pub average_object_size: usize,
    pub fragmentation: Fragmentation,
}

/// Model of a component's figures.
pub struct ComponentView {
    pub name: Seq<char>,
    pub allocated: usize,
    pub peak: usize,
    pub allocations: usize,
    pub deallocations: usize,
    pub utilization: Ratio,
    pub growth: GrowthRate,
    pub measured_at: u128,
    pub average_object_size: usize,
    pub fragmentation: Fragmentation,
}

impl View for ComponentMemoryStats {
    type V = ComponentView;

    open spec fn view(&self) -> ComponentView {
        ComponentView {
            name: self.component_name@,
            allocated: self.allocated_bytes,
            peak: self.peak_allocated_bytes,
            allocations: self.allocation_count,
            deallocations: self.deallocation_count,
            utilization: self.utilization,
            growth: self.growth,
            measured_at: self.measurement_timestamp,
            average_object_size: self.average_object_size,
            fragmentation: self.fragmentation,
        }
    }
}

impl ComponentMemoryStats {
    /// A copy with the same content.
    pub fn duplicate(&self) -> (r: ComponentMemoryStats)
        ensures
            r@ == self@,
    {
        ComponentMemoryStats { component_name: self.component_name.clone(), ..*self }
    }
}

/// A component as it is first seen, at time `created`.
pub open spec fn fresh_component(name: Seq<char>, created: u128) -> ComponentView {
    ComponentView {
        name,
        allocated: 0,
        peak: 0,
        allocations: 0,
        deallocations: 0,
        utilization: Ratio { part: 0, whole: 0 },
        growth: GrowthRate { bytes: 0, nanos: 0 },
        measured_at: created,
        average_object_size: 0,
        fragmentation: Fragmentation { allocations: 0, deallocations: 0, used: 0, total: 0 },
    }
}

/// A component after `bytes` in `count` objects were allocated at time
/// `now`: the peak follows the total; when time has passed since the last
/// measurement, the growth becomes those bytes over that time and the
/// measurement time moves to `now`; the average object size is the bytes
/// over the objects allocated.
pub open spec fn after_allocation(c: ComponentView, bytes: usize, count: usize, now: u128) -> ComponentView {
    let allocated = (c.allocated + bytes) as usize;
    let allocations = (c.allocations + count) as usize;
    let moved = now > c.measured_at;
    ComponentView {
        allocated,
        peak: if allocated > c.peak { allocated } else { c.peak },
        allocations,
        growth: if moved { GrowthRate { bytes, nanos: (now - c.measured_at) as u128 } } else { c.growth },
        measured_at: if moved { now } else { c.measured_at },
        average_object_size: if allocations > 0 { (allocated / allocations) as usize } else { c.average_object_size },
        ..c
    }
}

/// A component after `bytes` in `count` objects were freed at time `now`:
/// the total drops (not below zero), and the average object size is the
/// bytes over the objects still live (zero when none are).
pub open spec fn after_deallocation(c: ComponentView, bytes: usize, count: usize, now: u128) -> ComponentView {
    let allocated = if c.allocated >= bytes { (c.allocated - bytes) as usize } else { 0usize };
    let deallocations = (c.deallocations + count) as usize;
    let live = if c.allocations >= deallocations { c.allocations - deallocations } else { 0 };
    ComponentView {
        allocated,
        deallocations,
        average_object_size: if live > 0 { (allocated as int / live) as usize } else { 0usize },
        measured_at: now,
        ..c
    }
}

/// A component after its capacity use was measured at time `now`.
pub open spec fn after_utilization(c: ComponentView, used: usize, total: usize, now: u128) -> ComponentView {
    ComponentView {
        utilization: Ratio { part: used, whole: total },
        fragmentation: Fragmentation { allocations: c.allocations, deallocations: c.deallocations, used, total },
        measured_at: now,
        ..c
    }
}

/// The bytes allocated by the components together.
pub open spec fn total_allocated(s: Seq<ComponentView>) -> int
    decreases s.len(),
{
    if s.len() == 0 { 0 } else { total_allocated(s.drop_last()) + s.last().allocated }
}

/// The peaks of the components together.
pub open spec fn total_peak(s: Seq<ComponentView>) -> int
    decreases s.len(),
{
    if s.len() == 0 { 0 } else { total_peak(s.drop_last()) + s.last().peak }
}

/// The objects allocated by the components together.
pub open spec fn total_allocations(s: Seq<ComponentView>) -> int
    decreases s.len(),
{
    if s.len() == 0 { 0 } else { total_allocations(s.drop_last()) + s.last().allocations }
}

/// Replacing one component changes the total by the difference.
proof fn lemma_total_update(s: Seq<ComponentView>, i: int, x: ComponentView)
    requires
        0 <= i < s.len(),
    ensures
        total_allocated(s.update(i, x)) == total_allocated(s) - s[i].allocated + x.allocated,
    decreases s.len(),
{
    if i == s.len() - 1 {
        assert(s.update(i, x).drop_last() =~= s.drop_last());
    } else {
        lemma_total_update(s.drop_last(), i, x);
        assert(s.update(i, x).drop_last() =~= s.drop_last().update(i, x));
    }
}

/// A prefix holds no more bytes than the whole.
proof fn lemma_total_prefix(s: Seq<ComponentView>, k: int)
    requires
        0 <= k <= s.len(),
    ensures
        0 <= total_allocated(s.take(k)) <= total_allocated(s),
        k < s.len() ==> total_allocated(s.take(k + 1)) == total_allocated(s.take(k)) + s[k].allocated,
    decreases s.len(),
{
    if k == s.len() {
        assert(s.take(k) =~= s);
        if s.len() > 0 {
            lemma_total_prefix(s.drop_last(), k - 1);
            assert(s.drop_last().take(k - 1) =~= s.take(k - 1));
        }
    } else {
        lemma_total_prefix(s.drop_last(), k);
        assert(s.drop_last().take(k) =~= s.take(k));
        if k + 1 < s.len() {
            lemma_total_prefix(s.drop_last(), k + 1);
            assert(s.drop_last().take(k + 1) =~= s.take(k + 1));
        } else {
            assert(s.take(k + 1) =~= s);
            assert(s.drop_last() =~= s.take(k));
        }
    }
}

/// Models of the components of a map, in storage order.
pub open spec fn components_list(m: StrMap<ComponentMemoryStats>) -> Seq<ComponentView> {
    m.val_seq().map_values(|c: ComponentMemoryStats| c@)
}

/// Models of the components of a map, by name.
pub open spec fn components_map(m: StrMap<ComponentMemoryStats>) -> Map<Seq<char>, ComponentView> {
    Map::new(|k: Seq<char>| m@.contains_key(k), |k: Seq<char>| m@[k]@)
}

/// A component's figures before an allocation: as they are, or fresh at
/// time `created` when the component is new.
pub open spec fn component_before(cs: Map<Seq<char>, ComponentView>, name: Seq<char>, created: u128) -> ComponentView {
    if cs.contains_key(name) { cs[name] } else { fresh_component(name, created) }
}

/// A snapshot of the components at a collection.
#[derive(Debug, Clone)]
pub struct MemoryUsageSample {
    /// When it was taken.
    pub timestamp: u128,
    pub total_allocated: usize,
    pub components: StrMap<ComponentMemoryStats>,
}

/// Model of a snapshot: time, total, and the components in storage order.
pub struct SampleView {
    pub timestamp: u128,
    pub total_allocated: usize,
    pub components: Seq<ComponentView>,
}

/// The model of a snapshot.
pub open spec fn sample_view(s: MemoryUsageSample) -> SampleView {
    SampleView { timestamp: s.timestamp, total_allocated: s.total_allocated, components: components_list(s.components) }
}

/// Models of a list of snapshots.
pub open spec fn samples_view(v: Seq<MemoryUsageSample>) -> Seq<SampleView> {
    v.map_values(|s: MemoryUsageSample| sample_view(s))
}

/// The kind of a clean-up.
#[derive(Debug, Clone, Copy, PartialEq, Eq, Structural)]
pub enum OptimizationEventType {
    /// Clean-up triggered by pressure.
    AutoCleanup,
    /// Capacity cut to save memory.
    CapacityReduction,
    /// Cache entries evicted.
    CacheEviction,
    /// Pools merged against fragmentation.
    PoolConsolidation,
}

/// A clean-up that was done.
#[derive(Debug, Clone)]
pub struct MemoryOptimizationEvent {
    pub timestamp: u128,
    pub event_type: OptimizationEventType,
    pub component: String,
    pub bytes_freed: usize,
    pub description: String,
}

/// Model of a clean-up: time, kind, component, bytes freed, description.
pub type EventView = (u128, OptimizationEventType, Seq<char>, usize, Seq<char>);

impl View for MemoryOptimizationEvent {
    type V = EventView;

    open spec fn view(&self) -> EventView {
        (self.timestamp, self.event_type, self.component@, self.bytes_freed, self.description@)
    }
}

/// Models of a list of clean-ups.
pub open spec fn events_view(v: Seq<MemoryOptimizationEvent>) -> Seq<EventView> {
    v.map_values(|e: MemoryOptimizationEvent| e@)
}

/// A component with the given figures, as an allocation leaves it.
fn allocate(c: &ComponentMemoryStats, bytes: usize, count: usize, now: u128) -> (r: ComponentMemoryStats)
    requires
        c.allocated_bytes + bytes <= usize::MAX,
        c.allocation_count + count <= usize::MAX,
    ensures
        r@ == after_allocation(c@, bytes, count, now),
{
    let allocated = c.allocated_bytes + bytes;
    let allocations = c.allocation_count + count;
    let moved = now > c.measurement_timestamp;
    ComponentMemoryStats {
        component_name: c.component_name.clone(),
        allocated_bytes: allocated,
        peak_allocated_bytes: if allocated > c.peak_allocated_bytes { allocated } else { c.peak_allocated_bytes },
        allocation_count: allocations,
        deallocation_count: c.deallocation_count,
        utilization: c.utilization,
        growth: if moved { GrowthRate { bytes, nanos: now - c.measurement_timestamp } } else { c.growth },
        measurement_timestamp: if moved { now } else { c.measurement_timestamp },
        average_object_size: if allocations > 0 { allocated / allocations } else { c.average_object_size },
        fragmentation: c.fragmentation,
    }
}

/// A component with the given figures, as a deallocation leaves it.
fn deallocate(c: &ComponentMemoryStats, bytes: usize, count: usize, now: u128) -> (r: ComponentMemoryStats)
    requires
        c.deallocation_count + count <= usize::MAX,
    ensures
        r@ == after_deallocation(c@, bytes, count, now),
{
    let allocated = if c.allocated_bytes >= bytes { c.allocated_bytes - bytes } else { 0 };
    let deallocations = c.deallocation_count + count;
    let live = if c.allocation_count >= deallocations { c.allocation_count - deallocations } else { 0 };
    ComponentMemoryStats {
        component_name: c.component_name.clone(),
        allocated_bytes: allocated,
        deallocation_count: deallocations,
        average_object_size: if live > 0 { allocated / live } else { 0 },
        measurement_timestamp: now,
        ..*c
    }
}

/// A component with the given figures, as a capacity measurement leaves it.
fn measure(c: &ComponentMemoryStats, used: usize, total: usize, now: u128) -> (r: ComponentMemoryStats)
    ensures
        r@ == after_utilization(c@, used, total, now),
{
    ComponentMemoryStats {
        component_name: c.component_name.clone(),
        utilization: Ratio { part: used, whole: total },
        fragmentation: Fragmentation {
            allocations: c.allocation_count,
            deallocations: c.deallocation_count,
            used,
            total,
        },
        measurement_timestamp: now,
        ..*c
    }
}

/// Tracks the memory of the engine's components.
#[derive(Debug)]
pub struct ReteMemoryProfiler {
    origin: Instant,
    config: MemoryProfilerConfig,
    component_stats: StrMap<ComponentMemoryStats>,
    historical_samples: Vec<MemoryUsageSample>,
    last_collection_time: u128,
    pressure_level: MemoryPressureLevel,
    optimization_events: Vec<MemoryOptimizationEvent>,
}

impl ReteMemoryProfiler {
    /// Well-formedness: each component is stored under its own name, never
    /// holds more than its peak, and its fragmentation inputs fit in
    /// `usize`; the total fits in `usize`.
    pub closed spec fn wf(&self) -> bool {
        &&& self.component_stats.wf()
        &&& forall|i: int| 0 <= i < self.component_stats.val_seq().len()
            ==> (#[trigger] self.component_stats.val_seq()[i]).component_name@ == self.component_stats.key_seq()[i]
        &&& forall|i: int| 0 <= i < self.component_stats.val_seq().len()
            ==> (#[trigger] self.component_stats.val_seq()[i]).allocated_bytes <= self.component_stats.val_seq()[i].peak_allocated_bytes
        &&& forall|i: int| 0 <= i < self.component_stats.val_seq().len()
            ==> (#[trigger] self.component_stats.val_seq()[i]).fragmentation.allocations
                + self.component_stats.val_seq()[i].fragmentation.deallocations <= usize::MAX
        &&& self.total() <= usize::MAX
        &&& forall|j: int| 0 <= j < self.historical_samples@.len() ==> (#[trigger] self.historical_samples@[j]).components.wf()
    }

    /// The components' figures by name.
    pub closed spec fn components(&self) -> Map<Seq<char>, ComponentView> {
        components_map(self.component_stats)
    }

    /// The components' figures in the order they were first seen.
    pub closed spec fn component_list(&self) -> Seq<ComponentView> {
        components_list(self.component_stats)
    }

    /// The bytes allocated by all components.
    pub closed spec fn total(&self) -> int {
        total_allocated(self.component_list())
    }

    /// The snapshots kept, oldest first.
    pub closed spec fn samples(&self) -> Seq<SampleView> {
        samples_view(self.historical_samples@)
    }

    /// The clean-ups done, in order.
    pub closed spec fn events(&self) -> Seq<EventView> {
        events_view(self.optimization_events@)
    }

    /// When statistics were last collected.
    pub closed spec fn last_collection(&self) -> u128 {
        self.last_collection_time
    }

    /// The current pressure level.
    pub closed spec fn pressure(&self) -> MemoryPressureLevel {
        self.pressure_level
    }

    /// The settings.
    pub closed spec fn settings(&self) -> MemoryProfilerConfig {
        self.config
    }

    /// A profiler with the default settings.
    pub fn new() -> (p: ReteMemoryProfiler)
        ensures
            p.wf(),
            p.components() == Map::<Seq<char>, ComponentView>::empty(),
            p.samples() == Seq::<SampleView>::empty(),
            p.events() == Seq::<EventView>::empty(),
            p.pressure() == MemoryPressureLevel::Normal,
            p.settings() == MemoryProfilerConfig::default_spec(),
    {
        Self::with_config(MemoryProfilerConfig::default())
    }

    /// A profiler with the given settings, with nothing recorded.
    pub fn with_config(config: MemoryProfilerConfig) -> (p: ReteMemoryProfiler)
        ensures
            p.wf(),
            p.components() == Map::<Seq<char>, ComponentView>::empty(),
            p.samples() == Seq::<SampleView>::empty(),
            p.events() == Seq::<EventView>::empty(),
            p.pressure() == MemoryPressureLevel::Normal,
            p.settings() == config,
    {
        let p = ReteMemoryProfiler {
            origin: now(),
            config,
            component_stats: StrMap::new(),
            historical_samples: Vec::new(),
            last_collection_time: 0,
            pressure_level: MemoryPressureLevel::Normal,
            optimization_events: Vec::new(),
        };
        proof {
            p.component_stats.lemma_entries();
            assert(p.component_list() =~= Seq::<ComponentView>::empty());
        }
        proof {
            assert(p.components() =~= Map::<Seq<char>, ComponentView>::empty());
            assert(p.samples() =~= Seq::<SampleView>::empty());
            assert(p.events() =~= Seq::<EventView>::empty());
        }
        p
    }

    /// Nanoseconds since the profiler was made, by the system clock.
    fn clock(&self) -> u128 {
        duration_nanos(&elapsed_since(&self.origin))
    }

    /// The bytes allocated by all components.
    pub fn get_total_allocated_memory(&self) -> (r: usize)
        requires
            self.wf(),
        ensures
            r == self.total(),
    {
        self.allocated_sum()
    }

    /// The bytes allocated by all components.
    fn allocated_sum(&self) -> (r: usize)
        requires
            self.component_stats.wf(),
            self.total() <= usize::MAX,
        ensures
            r == self.total(),
    {
        let ghost s = self.component_list();
        proof {
            self.component_stats.lemma_entries();
        }
        let n = self.component_stats.len();
        let mut acc: usize = 0;
        let mut i: usize = 0;
        proof {
            lemma_total_prefix(s, 0);
            assert(s.take(0) =~= Seq::<ComponentView>::empty());
        }
        while i < n
            invariant
                self.component_stats.wf(),
                s == self.component_list(),
                n == s.len(),
                n == self.component_stats.key_seq().len(),
                i <= n,
                total_allocated(s) <= usize::MAX,
                acc == total_allocated(s.take(i as int)),
            decreases n - i,
        {
            proof {
                lemma_total_prefix(s, i as int);
                lemma_total_prefix(s, i + 1);
            }
            acc = acc + self.component_stats.value_at(i).allocated_bytes;
            i = i + 1;
        }
        proof {
            assert(s.take(n as int) =~= s);
        }
        acc
    }

    /// Sets the pressure level to the one the total puts.
    fn update_pressure_level(&mut self)
        requires
            old(self).component_stats.wf(),
            old(self).total() <= usize::MAX,
        ensures
            final(self).pressure_level == pressure_for(old(self).total(), old(self).config.pressure_thresholds),
            final(self).component_stats == old(self).component_stats,
            final(self).historical_samples == old(self).historical_samples,
            final(self).optimization_events == old(self).optimization_events,
            final(self).last_collection_time == old(self).last_collection_time,
            final(self).config == old(self).config,
            final(self).origin == old(self).origin,
    {
        let total = self.allocated_sum();
        let t = self.config.pressure_thresholds;
        self.pressure_level = if total >= t.critical_threshold {
            MemoryPressureLevel::Critical
        } else if total >= t.high_threshold {
            MemoryPressureLevel::High
        } else if total >= t.moderate_threshold {
            MemoryPressureLevel::Moderate
        } else {
            MemoryPressureLevel::Normal
        };
    }

    /// Records `bytes` in `object_count` objects allocated by `component`
    /// at time `now`; a component not seen before starts fresh at time
    /// `created`. The pressure level follows the new total.
    pub fn record_allocation_at(&mut self, component: &str, bytes: usize, object_count: usize, created: u128, now: u128)
        requires
            old(self).wf(),
            old(self).total() + bytes <= usize::MAX,
            old(self).components().contains_key(component@) ==> old(self).components()[component@].allocations
                + object_count <= usize::MAX,
        ensures
            final(self).wf(),
            final(self).components() == old(self).components().insert(
                component@,
                after_allocation(component_before(old(self).components(), component@, created), bytes, object_count, now),
            ),
            final(self).total() == old(self).total() + bytes,
            final(self).pressure() == pressure_for(final(self).total(), old(self).settings().pressure_thresholds),
            final(self).samples() == old(self).samples(),
            final(self).events() == old(self).events(),
            final(self).last_collection() == old(self).last_collection(),
            final(self).settings() == old(self).settings(),
    {
        proof {
            self.component_stats.lemma_entries();
        }
        let ghost before = self.components();
        let ghost list = self.component_list();
        let ghost vals = self.component_stats.val_seq();
        match self.component_stats.position(component) {
            Some(i) => {
                proof {
                    assert(self.component_stats.key_seq()[i as int] == component@);
                    assert(self.component_stats@.contains_key(component@));
                    assert(self.component_stats@[component@] == vals[i as int]);
                    assert(list[i as int] == vals[i as int]@);
                    assert(before.contains_key(component@) && before[component@] == list[i as int]);
                    lemma_total_prefix(list, i as int);
                    lemma_total_prefix(list, i + 1);
                    assert(list[i as int].allocated <= total_allocated(list));
                }
                let updated = allocate(self.component_stats.value_at(i), bytes, object_count, now);
                proof {
                    lemma_total_update(list, i as int, updated@);
                }
                self.component_stats.set_value_at(i, updated);
                proof {
                    assert(self.component_list() =~= list.update(i as int, updated@));
                    assert(self.components() =~= before.insert(component@, updated@));
                    assert forall|j: int| 0 <= j < self.component_stats.val_seq().len() implies
                        (#[trigger] self.component_stats.val_seq()[j]).component_name@ == self.component_stats.key_seq()[j] by {
                        if j != i {
                            assert(self.component_stats.val_seq()[j] == vals[j]);
                        }
                    }
                    assert forall|j: int| 0 <= j < self.component_stats.val_seq().len() implies
                        (#[trigger] self.component_stats.val_seq()[j]).allocated_bytes <= self.component_stats.val_seq()[j].peak_allocated_bytes by {
                        if j != i {
                            assert(self.component_stats.val_seq()[j] == vals[j]);
                        }
                    }
                    assert forall|j: int| 0 <= j < self.component_stats.val_seq().len() implies
                        (#[trigger] self.component_stats.val_seq()[j]).fragmentation.allocations
                            + self.component_stats.val_seq()[j].fragmentation.deallocations <= usize::MAX by {
                        if j != i {
                            assert(self.component_stats.val_seq()[j] == vals[j]);
                        } else {
                            assert(vals[j].fragmentation.allocations + vals[j].fragmentation.deallocations <= usize::MAX);
                        }
                    }
                }
            },
            None => {
                let fresh = ComponentMemoryStats {
                    component_name: String::from_str(component),
                    allocated_bytes: 0,
                    peak_allocated_bytes: 0,
                    allocation_count: 0,
                    deallocation_count: 0,
                    utilization: Ratio { part: 0, whole: 0 },
                    growth: GrowthRate { bytes: 0, nanos: 0 },
                    measurement_timestamp: created,
                    average_object_size: 0,
                    fragmentation: Fragmentation { allocations: 0, deallocations: 0, used: 0, total: 0 },
                };
                let updated = allocate(&fresh, bytes, object_count, now);
                self.component_stats.insert(String::from_str(component), updated);
                proof {
                    assert(!before.contains_key(component@));
                    assert(self.component_list() =~= list.push(updated@));
                    assert(list.push(updated@).drop_last() =~= list);
                    assert(self.components() =~= before.insert(component@, updated@));
                    assert forall|j: int| 0 <= j < self.component_stats.val_seq().len() implies
                        (#[trigger] self.component_stats.val_seq()[j]).component_name@ == self.component_stats.key_seq()[j] by {
                        if j < vals.len() {
                            assert(self.component_stats.val_seq()[j] == vals[j]);
                        }
                    }
                    assert forall|j: int| 0 <= j < self.component_stats.val_seq().len() implies
                        (#[trigger] self.component_stats.val_seq()[j]).allocated_bytes <= self.component_stats.val_seq()[j].peak_allocated_bytes by {
                        if j < vals.len() {
                            assert(self.component_stats.val_seq()[j] == vals[j]);
                        }
                    }
                    assert forall|j: int| 0 <= j < self.component_stats.val_seq().len() implies
                        (#[trigger] self.component_stats.val_seq()[j]).fragmentation.allocations
                            + self.component_stats.val_seq()[j].fragmentation.deallocations <= usize::MAX by {
                        if j < vals.len() {
                            assert(self.component_stats.val_seq()[j] == vals[j]);
                        }
                    }
                }
            },
        }
        self.update_pressure_level();
    }
}

/// Whether the other components of a list are left as they were.
proof fn lemma_update_keeps_others(vals: Seq<ComponentMemoryStats>, i: int, x: ComponentMemoryStats, j: int)
    requires
        0 <= i < vals.len(),
        0 <= j < vals.len(),
        j != i,
    ensures
        vals.update(i, x)[j] == vals[j],
{
}

impl ReteMemoryProfiler {
    /// Records `bytes` in `object_count` objects freed by `component` at
    /// time `now`. Nothing is recorded for a component not seen before. The
    /// pressure level follows the new total.
    pub fn record_deallocation_at(&mut self, component: &str, bytes: usize, object_count: usize, now: u128)
        requires
            old(self).wf(),
            old(self).components().contains_key(component@) ==> old(self).components()[component@].deallocations
                + object_count <= usize::MAX,
        ensures
            final(self).wf(),
            final(self).components() == if old(self).components().contains_key(component@) {
                old(self).components().insert(
                    component@,
                    after_deallocation(old(self).components()[component@], bytes, object_count, now),
                )
            } else {
                old(self).components()
            },
            final(self).total() == if old(self).components().contains_key(component@) {
                old(self).total() - old(self).components()[component@].allocated
                    + final(self).components()[component@].allocated
            } else {
                old(self).total()
            },
            final(self).pressure() == pressure_for(final(self).total(), old(self).settings().pressure_thresholds),
            final(self).samples() == old(self).samples(),
            final(self).events() == old(self).events(),
            final(self).last_collection() == old(self).last_collection(),
            final(self).settings() == old(self).settings(),
    {
        proof {
            self.component_stats.lemma_entries();
        }
        let ghost before = self.components();
        let ghost list = self.component_list();
        let ghost vals = self.component_stats.val_seq();
        match self.component_stats.position(component) {
            Some(i) => {
                proof {
                    assert(self.component_stats.key_seq()[i as int] == component@);
                    assert(self.component_stats@.contains_key(component@));
                    assert(self.component_stats@[component@] == vals[i as int]);
                    assert(list[i as int] == vals[i as int]@);
                    assert(before.contains_key(component@) && before[component@] == list[i as int]);
                    lemma_total_prefix(list, i as int);
                    lemma_total_prefix(list, i + 1);
                }
                let updated = deallocate(self.component_stats.value_at(i), bytes, object_count, now);
                proof {
                    lemma_total_update(list, i as int, updated@);
                }
                self.component_stats.set_value_at(i, updated);
                proof {
                    assert(self.component_list() =~= list.update(i as int, updated@));
                    assert(self.components() =~= before.insert(component@, updated@));
                    assert forall|j: int| 0 <= j < self.component_stats.val_seq().len() implies
                        (#[trigger] self.component_stats.val_seq()[j]).component_name@ == self.component_stats.key_seq()[j]
                        && self.component_stats.val_seq()[j].allocated_bytes <= self.component_stats.val_seq()[j].peak_allocated_bytes
                        && self.component_stats.val_seq()[j].fragmentation.allocations
                            + self.component_stats.val_seq()[j].fragmentation.deallocations <= usize::MAX by {
                        if j != i {
                            lemma_update_keeps_others(vals, i as int, updated, j);
                        }
                    }
                }
            },
            None => {
                proof {
                    assert(!before.contains_key(component@));
                }
            },
        }
        self.update_pressure_level();
    }

    /// Records that `component` uses `used_capacity` of `total_capacity`,
    /// measured at time `now`, and takes the inputs of its fragmentation
    /// score. Nothing is recorded for a component not seen before.
    pub fn update_utilization_at(&mut self, component: &str, used_capacity: usize, total_capacity: usize, now: u128)
        requires
            old(self).wf(),
            old(self).components().contains_key(component@) && old(self).components()[component@].allocations > 0
                ==> old(self).components()[component@].allocations + old(self).components()[component@].deallocations
                <= usize::MAX,
        ensures
            final(self).wf(),
            final(self).components() == if old(self).components().contains_key(component@) {
                old(self).components().insert(
                    component@,
                    after_utilization(old(self).components()[component@], used_capacity, total_capacity, now),
                )
            } else {
                old(self).components()
            },
            final(self).total() == old(self).total(),
            final(self).pressure() == old(self).pressure(),
            final(self).samples() == old(self).samples(),
            final(self).events() == old(self).events(),
            final(self).last_collection() == old(self).last_collection(),
            final(self).settings() == old(self).settings(),
    {
        proof {
            self.component_stats.lemma_entries();
        }
        let ghost before = self.components();
        let ghost list = self.component_list();
        let ghost vals = self.component_stats.val_seq();
        match self.component_stats.position(component) {
            Some(i) => {
                proof {
                    assert(self.component_stats.key_seq()[i as int] == component@);
                    assert(self.component_stats@.contains_key(component@));
                    assert(self.component_stats@[component@] == vals[i as int]);
                    assert(list[i as int] == vals[i as int]@);
                    assert(before.contains_key(component@) && before[component@] == list[i as int]);
                }
                let updated = measure(self.component_stats.value_at(i), used_capacity, total_capacity, now);
                proof {
                    lemma_total_update(list, i as int, updated@);
                    assert(list.update(i as int, updated@) =~= list.update(i as int, updated@));
                }
                self.component_stats.set_value_at(i, updated);
                proof {
                    assert(self.component_list() =~= list.update(i as int, updated@));
                    assert(self.components() =~= before.insert(component@, updated@));
                    assert forall|j: int| 0 <= j < self.component_stats.val_seq().len() implies
                        (#[trigger] self.component_stats.val_seq()[j]).component_name@ == self.component_stats.key_seq()[j]
                        && self.component_stats.val_seq()[j].allocated_bytes <= self.component_stats.val_seq()[j].peak_allocated_bytes
                        && self.component_stats.val_seq()[j].fragmentation.allocations
                            + self.component_stats.val_seq()[j].fragmentation.deallocations <= usize::MAX by {
                        if j != i {
                            lemma_update_keeps_others(vals, i as int, updated, j);
                        }
                    }
                }
            },
            None => {
                proof {
                    assert(!before.contains_key(component@));
                }
            },
        }
    }

    /// Records an allocation by `component` now, as `record_allocation_at`
    /// does with the clock's readings.
    pub fn record_allocation(&mut self, component: &str, bytes: usize, object_count: usize)
        requires
            old(self).wf(),
            old(self).total() + bytes <= usize::MAX,
            old(self).components().contains_key(component@) ==> old(self).components()[component@].allocations
                + object_count <= usize::MAX,
        ensures
            final(self).wf(),
            exists|created: u128, now: u128| final(self).components() == old(self).components().insert(
                component@,
                after_allocation(component_before(old(self).components(), component@, created), bytes, object_count, now),
            ),
            final(self).total() == old(self).total() + bytes,
            final(self).pressure() == pressure_for(final(self).total(), old(self).settings().pressure_thresholds),
            final(self).samples() == old(self).samples(),
            final(self).events() == old(self).events(),
            final(self).last_collection() == old(self).last_collection(),
            final(self).settings() == old(self).settings(),
    {
        let created = self.clock();
        let now = self.clock();
        self.record_allocation_at(component, bytes, object_count, created, now);
    }

    /// Records a deallocation by `component` now, as
    /// `record_deallocation_at` does with the clock's reading.
    pub fn record_deallocation(&mut self, component: &str, bytes: usize, object_count: usize)
        requires
            old(self).wf(),
            old(self).components().contains_key(component@) ==> old(self).components()[component@].deallocations
                + object_count <= usize::MAX,
        ensures
            final(self).wf(),
            exists|now: u128| final(self).components() == if old(self).components().contains_key(component@) {
                old(self).components().insert(
                    component@,
                    after_deallocation(old(self).components()[component@], bytes, object_count, now),
                )
            } else {
                old(self).components()
            },
            final(self).pressure() == pressure_for(final(self).total(), old(self).settings().pressure_thresholds),
            final(self).samples() == old(self).samples(),
            final(self).events() == old(self).events(),
            final(self).last_collection() == old(self).last_collection(),
            final(self).settings() == old(self).settings(),
    {
        let now = self.clock();
        self.record_deallocation_at(component, bytes, object_count, now);
        proof {
            let stepped = after_deallocation(old(self).components()[component@], bytes, object_count, now);
            assert(self.components() == if old(self).components().contains_key(component@) {
                old(self).components().insert(component@, stepped)
            } else {
                old(self).components()
            });
        }
    }

    /// Records the capacity use of `component` now, as
    /// `update_utilization_at` does with the clock's reading.
    pub fn update_utilization(&mut self, component: &str, used_capacity: usize, total_capacity: usize)
        requires
            old(self).wf(),
            old(self).components().contains_key(component@) && old(self).components()[component@].allocations > 0
                ==> old(self).components()[component@].allocations + old(self).components()[component@].deallocations
                <= usize::MAX,
        ensures
            final(self).wf(),
            exists|now: u128| final(self).components() == if old(self).components().contains_key(component@) {
                old(self).components().insert(
                    component@,
                    after_utilization(old(self).components()[component@], used_capacity, total_capacity, now),
                )
            } else {
                old(self).components()
            },
            final(self).total() == old(self).total(),
            final(self).pressure() == old(self).pressure(),
            final(self).samples() == old(self).samples(),
            final(self).events() == old(self).events(),
            final(self).last_collection() == old(self).last_collection(),
            final(self).settings() == old(self).settings(),
    {
        let now = self.clock();
        self.update_utilization_at(component, used_capacity, total_capacity, now);
        proof {
            let stepped = after_utilization(old(self).components()[component@], used_capacity, total_capacity, now);
            assert(self.components() == if old(self).components().contains_key(component@) {
                old(self).components().insert(component@, stepped)
            } else {
                old(self).components()
            });
        }
    }

    /// The current pressure level.
    pub fn get_pressure_level(&self) -> (r: MemoryPressureLevel)
        ensures
            r == self.pressure(),
    {
        self.pressure_level
    }

    /// The figures of one component, if it was seen.
    pub fn get_component_stats(&self, component: &str) -> (r: Option<&ComponentMemoryStats>)
        requires
            self.wf(),
        ensures
            match r {
                Some(c) => self.components().contains_key(component@) && c@ == self.components()[component@],
                None => !self.components().contains_key(component@),
            },
    {
        self.component_stats.get(component)
    }

    /// The figures of all components.
    pub fn get_all_component_stats(&self) -> (r: &StrMap<ComponentMemoryStats>)
        requires
            self.wf(),
        ensures
            r.wf(),
            components_map(*r) == self.components(),
            components_list(*r) == self.component_list(),
    {
        &self.component_stats
    }

    /// The clean-ups done, in order.
    pub fn get_optimization_events(&self) -> (r: &[MemoryOptimizationEvent])
        ensures
            events_view(r@) == self.events(),
    {
        self.optimization_events.as_slice()
    }

    /// The settings.
    pub fn get_config(&self) -> (r: &MemoryProfilerConfig)
        ensures
            *r == self.settings(),
    {
        &self.config
    }

    /// When statistics were last collected.
    pub fn get_last_collection_time(&self) -> (r: u128)
        ensures
            r == self.last_collection(),
    {
        self.last_collection_time
    }
}

/// The snapshots taken at `cutoff` or later, in order.
pub open spec fn samples_since(ss: Seq<SampleView>, cutoff: int) -> Seq<SampleView>
    decreases ss.len(),
{
    if ss.len() == 0 {
        Seq::empty()
    } else {
        let rest = samples_since(ss.drop_last(), cutoff);
        if ss.last().timestamp >= cutoff { rest.push(ss.last()) } else { rest }
    }
}

/// The time from `earlier` to `later`, or zero when `later` is not later.
pub open spec fn time_between(later: u128, earlier: u128) -> int {
    if later >= earlier { later - earlier } else { 0 }
}

/// Whether a collection at time `now` is due: the collection interval has
/// passed since the last one.
pub open spec fn collection_due(now: u128, last: u128, config: MemoryProfilerConfig) -> bool {
    time_between(now, last) >= config.collection_interval_ms * 1_000_000
}

/// A growth rate in bytes a second, in tenths, rounded.
pub open spec fn growth_tenths(g: GrowthRate) -> nat {
    rounded_tenths((g.bytes * 1_000_000_000) as nat, g.nanos as nat)
}

/// The clean-ups for components growing faster than `max` bytes a second.
pub open spec fn growth_events(list: Seq<ComponentView>, max: u64, now: u128) -> Seq<EventView>
    decreases list.len(),
{
    if list.len() == 0 {
        Seq::empty()
    } else {
        let rest = growth_events(list.drop_last(), max, now);
        let c = list.last();
        if growth_over(c.growth, max, 1, 1) {
            rest.push((
                now,
                OptimizationEventType::CapacityReduction,
                c.name,
                0usize,
                "Growth rate limit exceeded: "@ + tenths_decimal(growth_tenths(c.growth)) + " bytes/sec"@,
            ))
        } else {
            rest
        }
    }
}

/// The clean-ups that a collection triggers at a pressure level: one
/// clean-up of everything, more or less urgent, under pressure; without
/// pressure, a capacity cut for each component growing too fast.
pub open spec fn auto_events(level: MemoryPressureLevel, list: Seq<ComponentView>, max: u64, now: u128) -> Seq<EventView> {
    match level {
        MemoryPressureLevel::Critical => seq![(
            now,
            OptimizationEventType::AutoCleanup,
            "all"@,
            0usize,
            "Emergency cleanup triggered by critical memory pressure"@,
        )],
        MemoryPressureLevel::High => seq![(
            now,
            OptimizationEventType::AutoCleanup,
            "all"@,
            0usize,
            "Aggressive cleanup triggered by high memory pressure"@,
        )],
        MemoryPressureLevel::Moderate => seq![(
            now,
            OptimizationEventType::AutoCleanup,
            "all"@,
            0usize,
            "Conservative cleanup triggered by moderate memory pressure"@,
        )],
        MemoryPressureLevel::Normal => growth_events(list, max, now),
    }
}

/// A copy of a component map, in the same order.
fn copy_components(m: &StrMap<ComponentMemoryStats>) -> (r: StrMap<ComponentMemoryStats>)
    requires
        m.wf(),
    ensures
        r.wf(),
        r.key_seq() == m.key_seq(),
        components_list(r) == components_list(*m),
{
    proof {
        m.lemma_entries();
    }
    let n = m.len();
    let mut r: StrMap<ComponentMemoryStats> = StrMap::new();
    let mut i: usize = 0;
    proof {
        assert(r.key_seq() =~= m.key_seq().take(0));
        assert(components_list(r) =~= components_list(*m).take(0));
    }
    while i < n
        invariant
            m.wf(),
            n == m.key_seq().len(),
            n == m.val_seq().len(),
            m.key_seq().no_duplicates(),
            i <= n,
            r.wf(),
            r.key_seq() == m.key_seq().take(i as int),
            components_list(r) == components_list(*m).take(i as int),
        decreases n - i,
    {
        let key = m.key_at(i).clone();
        let value = m.value_at(i).duplicate();
        proof {
            r.lemma_entries();
            if r@.contains_key(key@) {
                let j = choose|j: int| 0 <= j < r.key_seq().len() && r.key_seq()[j] == key@;
                assert(m.key_seq()[j] == m.key_seq()[i as int]);
            }
        }
        let ghost before = components_list(r);
        r.insert(key, value);
        proof {
            assert(r.key_seq() =~= m.key_seq().take(i + 1));
            assert(components_list(r) =~= before.push(value@));
            assert(components_list(*m).take(i + 1) =~= components_list(*m).take(i as int).push(m.val_seq()[i as int]@));
        }
        i = i + 1;
    }
    proof {
        assert(m.key_seq().take(n as int) =~= m.key_seq());
        assert(components_list(*m).take(n as int) =~= components_list(*m));
    }
    r
}

/// A growth rate in bytes a second, in tenths, rounded.
fn rate_tenths(g: GrowthRate) -> (r: u128)
    requires
        g.nanos > 0,
    ensures
        r == growth_tenths(g),
{
    let num: u128 = g.bytes as u128 * 10_000_000_000;
    let q = num / g.nanos;
    let rem = num % g.nanos;
    let rest = g.nanos - rem;
    proof {
        assert((g.bytes * 1_000_000_000) as nat * 10 == num);
    }
    if rem > rest || (rem == rest && q % 2 == 1) {
        assert(q <= num) by (nonlinear_arith)
            requires
                q == num / g.nanos,
                g.nanos >= 1,
                num >= 0,
        ;
        q + 1
    } else {
        q
    }
}

/// The description of a capacity cut for a component growing too fast.
fn growth_description(g: GrowthRate) -> (s: String)
    requires
        g.nanos > 0,
    ensures
        s@ == "Growth rate limit exceeded: "@ + tenths_decimal(growth_tenths(g)) + " bytes/sec"@,
{
    let mut s = String::from_str("Growth rate limit exceeded: ");
    let rate = tenths_to_string(rate_tenths(g));
    s.append(rate.as_str());
    s.append(" bytes/sec");
    s
}

/// A clean-up record.
fn event(now: u128, event_type: OptimizationEventType, component: &str, description: &str) -> (e: MemoryOptimizationEvent)
    ensures
        e@ == (now, event_type, component@, 0usize, description@),
{
    MemoryOptimizationEvent {
        timestamp: now,
        event_type,
        component: String::from_str(component),
        bytes_freed: 0,
        description: String::from_str(description),
    }
}

impl ReteMemoryProfiler {
    /// Adds a capacity cut, at time `now`, for each component growing faster
    /// than the limit, in order.
    fn check_growth_rates(&mut self, now: u128)
        requires
            old(self).wf(),
        ensures
            final(self).wf(),
            final(self).events() == old(self).events() + growth_events(
                old(self).component_list(),
                old(self).settings().max_growth_rate,
                now,
            ),
            final(self).component_stats == old(self).component_stats,
            final(self).historical_samples == old(self).historical_samples,
            final(self).pressure_level == old(self).pressure_level,
            final(self).last_collection_time == old(self).last_collection_time,
            final(self).config == old(self).config,
    {
        proof {
            self.component_stats.lemma_entries();
        }
        let ghost list = self.component_list();
        let ghost start = self.events();
        let max = self.config.max_growth_rate;
        let n = self.component_stats.len();
        let mut i: usize = 0;
        proof {
            assert(list.take(0) =~= Seq::<ComponentView>::empty());
            assert(start + growth_events(list.take(0), max, now) =~= start);
        }
        while i < n
            invariant
                self.wf(),
                list == self.component_list(),
                n == list.len(),
                n == self.component_stats.key_seq().len(),
                max == self.config.max_growth_rate,
                self.component_stats == old(self).component_stats,
                self.historical_samples == old(self).historical_samples,
                self.pressure_level == old(self).pressure_level,
                self.last_collection_time == old(self).last_collection_time,
                self.config == old(self).config,
                i <= n,
                self.events() == start + growth_events(list.take(i as int), max, now),
            decreases n - i,
        {
            let stats = self.component_stats.value_at(i);
            let ghost c = list[i as int];
            proof {
                assert(list.take(i + 1).drop_last() =~= list.take(i as int));
                assert(list.take(i + 1).last() == c);
                assert(stats@ == c);
            }
            if growth_above(stats.growth, max) {
                let description = growth_description(stats.growth);
                let e = MemoryOptimizationEvent {
                    timestamp: now,
                    event_type: OptimizationEventType::CapacityReduction,
                    component: stats.component_name.clone(),
                    bytes_freed: 0,
                    description,
                };
                let ghost before = self.events();
                self.optimization_events.push(e);
                proof {
                    assert(self.events() =~= before.push(e@));
                    assert(c.name == self.component_stats.key_seq()[i as int]);
                }
            }
            i = i + 1;
        }
        proof {
            assert(list.take(n as int) =~= list);
        }
    }

    /// Adds the clean-ups that the current pressure level calls for, at time
    /// `now`.
    fn trigger_auto_optimization(&mut self, now: u128)
        requires
            old(self).wf(),
        ensures
            final(self).wf(),
            final(self).events() == old(self).events() + auto_events(
                old(self).pressure(),
                old(self).component_list(),
                old(self).settings().max_growth_rate,
                now,
            ),
            final(self).component_stats == old(self).component_stats,
            final(self).historical_samples == old(self).historical_samples,
            final(self).pressure_level == old(self).pressure_level,
            final(self).last_collection_time == old(self).last_collection_time,
            final(self).config == old(self).config,
    {
        let ghost before = self.events();
        match self.pressure_level {
            MemoryPressureLevel::Critical => {
                self.optimization_events.push(
                    event(now, OptimizationEventType::AutoCleanup, "all", "Emergency cleanup triggered by critical memory pressure"),
                );
                proof {
                    assert(self.events() =~= before + auto_events(self.pressure_level, self.component_list(), self.config.max_growth_rate, now));
                }
            },
            MemoryPressureLevel::High => {
                self.optimization_events.push(
                    event(now, OptimizationEventType::AutoCleanup, "all", "Aggressive cleanup triggered by high memory pressure"),
                );
                proof {
                    assert(self.events() =~= before + auto_events(self.pressure_level, self.component_list(), self.config.max_growth_rate, now));
                }
            },
            MemoryPressureLevel::Moderate => {
                self.optimization_events.push(
                    event(now, OptimizationEventType::AutoCleanup, "all", "Conservative cleanup triggered by moderate memory pressure"),
                );
                proof {
                    assert(self.events() =~= before + auto_events(self.pressure_level, self.component_list(), self.config.max_growth_rate, now));
                }
            },
            MemoryPressureLevel::Normal => {
                self.check_growth_rates(now);
            },
        }
    }

    /// Drops the snapshots taken before `now` less the retention time.
    fn drop_old_samples(&mut self, now: u128)
        requires
            old(self).wf(),
        ensures
            final(self).wf(),
            final(self).samples() == samples_since(old(self).samples(), now - old(self).config.history_retention_ms * 1_000_000),
            final(self).component_stats == old(self).component_stats,
            final(self).optimization_events == old(self).optimization_events,
            final(self).pressure_level == old(self).pressure_level,
            final(self).last_collection_time == old(self).last_collection_time,
            final(self).config == old(self).config,
    {
        let ghost cutoff: int = now - self.config.history_retention_ms * 1_000_000;
        let retention: u128 = self.config.history_retention_ms as u128 * 1_000_000;
        let mut rest: Vec<MemoryUsageSample> = Vec::new();
        std::mem::swap(&mut rest, &mut self.historical_samples);
        let ghost all = rest@;
        let total = rest.len();
        let mut consumed: usize = 0;
        proof {
            assert(all.take(0) =~= Seq::<MemoryUsageSample>::empty());
            assert(self.samples() =~= samples_since(samples_view(all.take(0)), cutoff));
            assert(rest@ =~= all.skip(0));
        }
        while rest.len() > 0
            invariant
                total == all.len(),
                consumed + rest@.len() == total,
                rest@ == all.skip(consumed as int),
                cutoff == now - self.config.history_retention_ms * 1_000_000,
                retention == self.config.history_retention_ms * 1_000_000,
                forall|j: int| 0 <= j < all.len() ==> (#[trigger] all[j]).components.wf(),
                forall|j: int| 0 <= j < self.historical_samples@.len() ==> (#[trigger] self.historical_samples@[j]).components.wf(),
                self.samples() == samples_since(samples_view(all.take(consumed as int)), cutoff),
                self.component_stats == old(self).component_stats,
                self.optimization_events == old(self).optimization_events,
                self.pressure_level == old(self).pressure_level,
                self.last_collection_time == old(self).last_collection_time,
                self.config == old(self).config,
                self.origin == old(self).origin,
            decreases rest@.len(),
        {
            let sample = rest.remove(0);
            let ghost before = self.samples();
            proof {
                assert(sample == all[consumed as int]);
                assert(rest@ =~= all.skip(consumed + 1));
                assert(samples_view(all.take(consumed + 1)).drop_last() =~= samples_view(all.take(consumed as int)));
                assert(samples_view(all.take(consumed + 1)).last() == sample_view(sample));
            }
            if now >= retention && sample.timestamp >= now - retention {
                self.historical_samples.push(sample);
                proof {
                    assert(self.samples() =~= before.push(sample_view(sample)));
                }
            } else if now < retention {
                self.historical_samples.push(sample);
                proof {
                    assert(self.samples() =~= before.push(sample_view(sample)));
                }
            }
            consumed = consumed + 1;
        }
        proof {
            assert(all.take(total as int) =~= all);
            assert(samples_view(all) == old(self).samples());
        }
    }

    /// Collects statistics at time `now`, when the collection interval has
    /// passed since the last collection: a snapshot of the components is
    /// kept, snapshots older than the retention time are dropped, the
    /// pressure level is brought up to date, and, when clean-ups are on,
    /// the clean-ups it calls for are recorded. Otherwise nothing changes.
    pub fn collect_statistics_at(&mut self, now: u128)
        requires
            old(self).wf(),
        ensures
            final(self).wf(),
            final(self).components() == old(self).components(),
            final(self).component_list() == old(self).component_list(),
            final(self).settings() == old(self).settings(),
            !collection_due(now, old(self).last_collection(), old(self).settings()) ==> {
                &&& final(self).samples() == old(self).samples()
                &&& final(self).events() == old(self).events()
                &&& final(self).pressure() == old(self).pressure()
                &&& final(self).last_collection() == old(self).last_collection()
            },
            collection_due(now, old(self).last_collection(), old(self).settings()) ==> {
                let level = pressure_for(old(self).total(), old(self).settings().pressure_thresholds);
                &&& final(self).samples() == samples_since(
                    old(self).samples().push(SampleView {
                        timestamp: now,
                        total_allocated: old(self).total() as usize,
                        components: old(self).component_list(),
                    }),
                    now - old(self).settings().history_retention_ms * 1_000_000,
                )
                &&& final(self).pressure() == level
                &&& final(self).last_collection() == now
                &&& final(self).events() == if old(self).settings().enable_auto_optimization {
                    old(self).events() + auto_events(level, old(self).component_list(), old(self).settings().max_growth_rate, now)
                } else {
                    old(self).events()
                }
            },
    {
        let elapsed: u128 = if now >= self.last_collection_time { now - self.last_collection_time } else { 0 };
        let interval: u128 = self.config.collection_interval_ms as u128 * 1_000_000;
        if elapsed < interval {
            return;
        }
        let total = self.allocated_sum();
        let copy = copy_components(&self.component_stats);
        let ghost before = self.samples();
        self.historical_samples.push(MemoryUsageSample { timestamp: now, total_allocated: total, components: copy });
        proof {
            assert(self.samples() =~= before.push(SampleView {
                timestamp: now,
                total_allocated: total,
                components: self.component_list(),
            }));
        }
        self.last_collection_time = now;
        self.drop_old_samples(now);
        self.update_pressure_level();
        if self.config.enable_auto_optimization {
            self.trigger_auto_optimization(now);
        }
    }

    /// Collects statistics now, as `collect_statistics_at` does with the
    /// clock's reading.
    pub fn collect_statistics(&mut self)
        requires
            old(self).wf(),
        ensures
            final(self).wf(),
            final(self).components() == old(self).components(),
            final(self).settings() == old(self).settings(),
    {
        let now = self.clock();
        self.collect_statistics_at(now);
    }

    /// Clears everything recorded, as at time `now`: no components,
    /// snapshots or clean-ups, no pressure, and a collection just made.
    pub fn reset_at(&mut self, now: u128)
        ensures
            final(self).wf(),
            final(self).components() == Map::<Seq<char>, ComponentView>::empty(),
            final(self).samples() == Seq::<SampleView>::empty(),
            final(self).events() == Seq::<EventView>::empty(),
            final(self).pressure() == MemoryPressureLevel::Normal,
            final(self).last_collection() == now,
            final(self).settings() == old(self).settings(),
    {
        self.component_stats.clear();
        self.historical_samples.clear();
        self.optimization_events.clear();
        self.pressure_level = MemoryPressureLevel::Normal;
        self.last_collection_time = now;
        proof {
            self.component_stats.lemma_entries();
            assert(self.component_list() =~= Seq::<ComponentView>::empty());
            assert(self.components() =~= Map::<Seq<char>, ComponentView>::empty());
            assert(self.samples() =~= Seq::<SampleView>::empty());
            assert(self.events() =~= Seq::<EventView>::empty());
        }
    }

    /// Clears everything recorded, as `reset_at` does with the clock's
    /// reading.
    pub fn reset(&mut self)
        ensures
            final(self).wf(),
            final(self).components() == Map::<Seq<char>, ComponentView>::empty(),
            final(self).samples() == Seq::<SampleView>::empty(),
            final(self).events() == Seq::<EventView>::empty(),
            final(self).pressure() == MemoryPressureLevel::Normal,
            final(self).settings() == old(self).settings(),
    {
        let now = self.clock();
        self.reset_at(now);
    }
}

/// A change over time: `change` over `nanos` nanoseconds. While `nanos` is
/// zero there is no change.
#[derive(Debug, Clone, Copy, PartialEq, Eq, Structural)]
pub struct Trend {
    pub change: i128,
    pub nanos: u128,
}

/// No change.
pub open spec fn no_trend() -> Trend {
    Trend { change: 0, nanos: 0 }
}

/// The change of the allocated bytes from the oldest to the newest
/// snapshot; none with fewer than two snapshots or no time between them.
pub open spec fn memory_trend(ss: Seq<SampleView>) -> Trend {
    if ss.len() < 2 {
        no_trend()
    } else {
        let dt = time_between(ss.last().timestamp, ss[0].timestamp);
        if dt == 0 {
            no_trend()
        } else {
            Trend { change: (ss.last().total_allocated - ss[0].total_allocated) as i128, nanos: dt as u128 }
        }
    }
}

/// The change of the objects allocated from the oldest to the newest
/// snapshot; none with fewer than two snapshots or no time between them.
pub open spec fn allocation_trend_of(ss: Seq<SampleView>) -> Trend {
    if ss.len() < 2 {
        no_trend()
    } else {
        let dt = time_between(ss.last().timestamp, ss[0].timestamp);
        if dt == 0 {
            no_trend()
        } else {
            Trend {
                change: (total_allocations(ss.last().components) - total_allocations(ss[0].components)) as i128,
                nanos: dt as u128,
            }
        }
    }
}

/// Advice on a component's memory.
#[derive(Debug, Clone)]
pub enum MemoryRecommendation {
    /// Its fragmentation score is above 50: consider consolidating it.
    Consolidate { component: String, fragmentation: Fragmentation },
    /// It uses under 30% of its capacity with more than a MiB allocated:
    /// reduce its capacity.
    ReduceCapacity { component: String, utilization: Ratio },
    /// It grows faster than four fifths of the limit: watch its growth.
    MonitorGrowth { component: String, growth: GrowthRate },
}

/// Model of a piece of advice.
pub enum RecommendationView {
    Consolidate(Seq<char>, Fragmentation),
    ReduceCapacity(Seq<char>, Ratio),
    MonitorGrowth(Seq<char>, GrowthRate),
}

impl View for MemoryRecommendation {
    type V = RecommendationView;

    open spec fn view(&self) -> RecommendationView {
        match self {
            MemoryRecommendation::Consolidate { component, fragmentation } => RecommendationView::Consolidate(
                component@,
                *fragmentation,
            ),
            MemoryRecommendation::ReduceCapacity { component, utilization } => RecommendationView::ReduceCapacity(
                component@,
                *utilization,
            ),
            MemoryRecommendation::MonitorGrowth { component, growth } => RecommendationView::MonitorGrowth(
                component@,
                *growth,
            ),
        }
    }
}

/// Whether a utilization is under 30%; a zero total counts as 0%.
pub open spec fn low_utilization(u: Ratio) -> bool {
    u.whole == 0 || 10 * u.part < 3 * u.whole
}

/// The advice on one component: consolidate when fragmented, reduce
/// capacity when little used with more than a MiB allocated, watch when
/// growing near the limit.
pub open spec fn component_recommendations(c: ComponentView, max: u64) -> Seq<RecommendationView> {
    (if fragmented(c.fragmentation) {
        seq![RecommendationView::Consolidate(c.name, c.fragmentation)]
    } else {
        Seq::empty()
    }) + (if low_utilization(c.utilization) && c.allocated > 1_048_576 {
        seq![RecommendationView::ReduceCapacity(c.name, c.utilization)]
    } else {
        Seq::empty()
    }) + (if growth_over(c.growth, max, 4, 5) {
        seq![RecommendationView::MonitorGrowth(c.name, c.growth)]
    } else {
        Seq::empty()
    })
}

/// The advice on all components, in order.
pub open spec fn recommendations_spec(list: Seq<ComponentView>, max: u64) -> Seq<RecommendationView>
    decreases list.len(),
{
    if list.len() == 0 {
        Seq::empty()
    } else {
        recommendations_spec(list.drop_last(), max) + component_recommendations(list.last(), max)
    }
}

/// Models of a list of advice.
pub open spec fn recommendations_view(v: Seq<MemoryRecommendation>) -> Seq<RecommendationView> {
    v.map_values(|r: MemoryRecommendation| r@)
}

/// Models of a list of component figures.
pub open spec fn stats_view(v: Seq<ComponentMemoryStats>) -> Seq<ComponentView> {
    v.map_values(|c: ComponentMemoryStats| c@)
}

/// A summary of memory use.
#[derive(Debug, Clone)]
pub struct MemoryUsageReport {
    pub timestamp: u128,
    pub total_allocated_bytes: usize,
    pub total_peak_bytes: usize,
    pub pressure_level: MemoryPressureLevel,
    pub component_count: usize,
    pub components_by_usage: Vec<ComponentMemoryStats>,
    /// Bytes over time.
    pub memory_growth_trend: Trend,
    /// Objects over time.
    pub allocation_trend: Trend,
    pub optimization_events_count: usize,
    pub recommendations: Vec<MemoryRecommendation>,
}

/// A prefix sums to no more than the whole, for sums of peaks and of
/// object counts.
proof fn lemma_other_sums_prefix(s: Seq<ComponentView>, k: int)
    requires
        0 <= k <= s.len(),
    ensures
        0 <= total_peak(s.take(k)) <= total_peak(s),
        0 <= total_allocations(s.take(k)) <= total_allocations(s),
        k < s.len() ==> total_peak(s.take(k + 1)) == total_peak(s.take(k)) + s[k].peak,
        k < s.len() ==> total_allocations(s.take(k + 1)) == total_allocations(s.take(k)) + s[k].allocations,
    decreases s.len(),
{
    if k == s.len() {
        assert(s.take(k) =~= s);
        if s.len() > 0 {
            lemma_other_sums_prefix(s.drop_last(), k - 1);
            assert(s.drop_last().take(k - 1) =~= s.take(k - 1));
        }
    } else {
        lemma_other_sums_prefix(s.drop_last(), k);
        assert(s.drop_last().take(k) =~= s.take(k));
        if k + 1 < s.len() {
            lemma_other_sums_prefix(s.drop_last(), k + 1);
            assert(s.drop_last().take(k + 1) =~= s.take(k + 1));
        } else {
            assert(s.take(k + 1) =~= s);
            assert(s.drop_last() =~= s.take(k));
        }
    }
}

/// The peaks of the components of a map together.
fn peak_sum(m: &StrMap<ComponentMemoryStats>) -> (r: usize)
    requires
        m.wf(),
        total_peak(components_list(*m)) <= usize::MAX,
    ensures
        r == total_peak(components_list(*m)),
{
    let ghost s = components_list(*m);
    proof {
        m.lemma_entries();
        assert(s.take(0) =~= Seq::<ComponentView>::empty());
    }
    let n = m.len();
    let mut acc: usize = 0;
    let mut i: usize = 0;
    while i < n
        invariant
            m.wf(),
            s == components_list(*m),
            n == s.len(),
            n == m.key_seq().len(),
            i <= n,
            total_peak(s) <= usize::MAX,
            acc == total_peak(s.take(i as int)),
        decreases n - i,
    {
        proof {
            lemma_other_sums_prefix(s, i as int);
            lemma_other_sums_prefix(s, i + 1);
        }
        acc = acc + m.value_at(i).peak_allocated_bytes;
        i = i + 1;
    }
    proof {
        assert(s.take(n as int) =~= s);
    }
    acc
}

/// The objects allocated by the components of a map together.
fn allocations_sum(m: &StrMap<ComponentMemoryStats>) -> (r: usize)
    requires
        m.wf(),
        total_allocations(components_list(*m)) <= usize::MAX,
    ensures
        r == total_allocations(components_list(*m)),
{
    let ghost s = components_list(*m);
    proof {
        m.lemma_entries();
        assert(s.take(0) =~= Seq::<ComponentView>::empty());
    }
    let n = m.len();
    let mut acc: usize = 0;
    let mut i: usize = 0;
    while i < n
        invariant
            m.wf(),
            s == components_list(*m),
            n == s.len(),
            n == m.key_seq().len(),
            i <= n,
            total_allocations(s) <= usize::MAX,
            acc == total_allocations(s.take(i as int)),
        decreases n - i,
    {
        proof {
            lemma_other_sums_prefix(s, i as int);
            lemma_other_sums_prefix(s, i + 1);
        }
        acc = acc + m.value_at(i).allocation_count;
        i = i + 1;
    }
    proof {
        assert(s.take(n as int) =~= s);
    }
    acc
}

/// The advice on one component.
fn recommend(c: &ComponentMemoryStats, max: u64, out: &mut Vec<MemoryRecommendation>)
    requires
        c.fragmentation.allocations + c.fragmentation.deallocations <= usize::MAX,
    ensures
        recommendations_view(final(out)@) == recommendations_view(old(out)@) + component_recommendations(c@, max),
{
    let ghost start = recommendations_view(out@);
    let ghost a: Seq<RecommendationView> = if fragmented(c.fragmentation) {
        seq![RecommendationView::Consolidate(c.component_name@, c.fragmentation)]
    } else {
        Seq::empty()
    };
    let ghost b: Seq<RecommendationView> = if low_utilization(c.utilization) && c.allocated_bytes > 1_048_576 {
        seq![RecommendationView::ReduceCapacity(c.component_name@, c.utilization)]
    } else {
        Seq::empty()
    };
    let ghost d: Seq<RecommendationView> = if growth_over(c.growth, max, 4, 5) {
        seq![RecommendationView::MonitorGrowth(c.component_name@, c.growth)]
    } else {
        Seq::empty()
    };
    if is_fragmented(c.fragmentation) {
        out.push(MemoryRecommendation::Consolidate { component: c.component_name.clone(), fragmentation: c.fragmentation });
    }
    proof {
        assert(recommendations_view(out@) =~= start + a);
    }
    let u = c.utilization;
    let low = u.whole == 0 || 10 * (u.part as u128) < 3 * (u.whole as u128);
    if low && c.allocated_bytes > 1_048_576 {
        out.push(MemoryRecommendation::ReduceCapacity { component: c.component_name.clone(), utilization: c.utilization });
    }
    proof {
        assert(recommendations_view(out@) =~= start + a + b);
    }
    if growth_near(c.growth, max) {
        out.push(MemoryRecommendation::MonitorGrowth { component: c.component_name.clone(), growth: c.growth });
    }
    proof {
        assert(recommendations_view(out@) =~= start + a + b + d);
        assert(component_recommendations(c@, max) =~= a + b + d);
    }
}

impl ReteMemoryProfiler {
    /// Whether the sums a report takes fit in `usize`: the peaks of the
    /// components, and the objects of the oldest and newest snapshots.
    pub closed spec fn report_fits(&self) -> bool {
        &&& total_peak(self.component_list()) <= usize::MAX
        &&& self.samples().len() >= 2 ==> total_allocations(self.samples()[0].components) <= usize::MAX
            && total_allocations(self.samples().last().components) <= usize::MAX
    }

    /// The memory report at time `now`: the totals, the pressure, the
    /// components, the trends between the oldest and newest snapshots, the
    /// number of clean-ups, and the advice on each component.
    pub fn generate_report_at(&self, now: u128) -> (r: MemoryUsageReport)
        requires
            self.wf(),
            self.report_fits(),
        ensures
            r.timestamp == now,
            r.total_allocated_bytes == self.total(),
            r.total_peak_bytes == total_peak(self.component_list()),
            r.pressure_level == self.pressure(),
            r.component_count == self.component_list().len(),
            stats_view(r.components_by_usage@) == self.component_list(),
            r.memory_growth_trend == memory_trend(self.samples()),
            r.allocation_trend == allocation_trend_of(self.samples()),
            r.optimization_events_count == self.events().len(),
            recommendations_view(r.recommendations@) == recommendations_spec(
                self.component_list(),
                self.settings().max_growth_rate,
            ),
    {
        proof {
            self.component_stats.lemma_entries();
        }
        let ghost list = self.component_list();
        let total = self.allocated_sum();
        let peak = peak_sum(&self.component_stats);
        let count = self.component_stats.len();
        let max = self.config.max_growth_rate;
        let mut components: Vec<ComponentMemoryStats> = Vec::new();
        let mut recommendations: Vec<MemoryRecommendation> = Vec::new();
        let mut i: usize = 0;
        proof {
            assert(list.take(0) =~= Seq::<ComponentView>::empty());
            assert(stats_view(components@) =~= list.take(0));
            assert(recommendations_view(recommendations@) =~= recommendations_spec(list.take(0), max));
        }
        while i < count
            invariant
                self.wf(),
                list == self.component_list(),
                count == list.len(),
                count == self.component_stats.key_seq().len(),
                max == self.config.max_growth_rate,
                i <= count,
                stats_view(components@) == list.take(i as int),
                recommendations_view(recommendations@) == recommendations_spec(list.take(i as int), max),
            decreases count - i,
        {
            let c = self.component_stats.value_at(i);
            let ghost before = components@;
            components.push(c.duplicate());
            recommend(c, max, &mut recommendations);
            proof {
                assert(c@ == list[i as int]);
                assert(stats_view(components@) =~= stats_view(before).push(c@));
                assert(list.take(i + 1) =~= list.take(i as int).push(c@));
                assert(list.take(i + 1).drop_last() =~= list.take(i as int));
            }
            i = i + 1;
        }
        proof {
            assert(list.take(count as int) =~= list);
        }
        let n = self.historical_samples.len();
        let mut memory_growth_trend = Trend { change: 0, nanos: 0 };
        let mut allocation_trend = Trend { change: 0, nanos: 0 };
        if n >= 2 {
            let older = &self.historical_samples[0];
            let recent = &self.historical_samples[n - 1];
            proof {
                assert(self.samples()[0] == sample_view(*older));
                assert(self.samples().last() == sample_view(*recent));
            }
            let recent_allocs = allocations_sum(&recent.components);
            let older_allocs = allocations_sum(&older.components);
            let dt: u128 = if recent.timestamp >= older.timestamp { recent.timestamp - older.timestamp } else { 0 };
            if dt > 0 {
                memory_growth_trend = Trend {
                    change: recent.total_allocated as i128 - older.total_allocated as i128,
                    nanos: dt,
                };
                allocation_trend = Trend { change: recent_allocs as i128 - older_allocs as i128, nanos: dt };
            }
        }
        MemoryUsageReport {
            timestamp: now,
            total_allocated_bytes: total,
            total_peak_bytes: peak,
            pressure_level: self.pressure_level,
            component_count: count,
            components_by_usage: components,
            memory_growth_trend,
            allocation_trend,
            optimization_events_count: self.optimization_events.len(),
            recommendations,
        }
    }

    /// The memory report now, as `generate_report_at` makes it with the
    /// clock's reading.
    pub fn generate_report(&self) -> (r: MemoryUsageReport)
        requires
            self.wf(),
            self.report_fits(),
        ensures
            r.total_allocated_bytes == self.total(),
            r.total_peak_bytes == total_peak(self.component_list()),
            r.pressure_level == self.pressure(),
            r.component_count == self.component_list().len(),
            stats_view(r.components_by_usage@) == self.component_list(),
            r.memory_growth_trend == memory_trend(self.samples()),
            r.allocation_trend == allocation_trend_of(self.samples()),
            r.optimization_events_count == self.events().len(),
            recommendations_view(r.recommendations@) == recommendations_spec(
                self.component_list(),
                self.settings().max_growth_rate,
            ),
    {
        let now = self.clock();
        self.generate_report_at(now)
    }
}

/// Freeing what was just allocated gives the bytes back: a component's
/// allocated bytes after an allocation and the matching deallocation are
/// what they were, and its peak is at least what it held in between.
pub proof fn law_deallocation_undoes_allocation(c: ComponentView, bytes: usize, count: usize, t1: u128, t2: u128)
    requires
        c.allocated + bytes <= usize::MAX,
        c.allocations + count <= usize::MAX,
        c.deallocations + count <= usize::MAX,
    ensures
        after_deallocation(after_allocation(c, bytes, count, t1), bytes, count, t2).allocated == c.allocated,
        after_allocation(c, bytes, count, t1).peak >= c.allocated + bytes,
{
}

/// More memory never means less pressure: the level a larger total puts
/// is at least the level a smaller one puts, whatever the thresholds.
pub proof fn law_pressure_monotone(a: int, b: int, t: MemoryPressureThresholds)
    requires
        a <= b,
    ensures
        pressure_rank(pressure_for(a, t)) <= pressure_rank(pressure_for(b, t)),
{
}

/// The snapshots kept after dropping those before `cutoff` are all from
/// `cutoff` on, and every snapshot from `cutoff` on is kept, in order.
pub proof fn law_samples_since(ss: Seq<SampleView>, cutoff: int)
    ensures
        forall|i: int| 0 <= i < samples_since(ss, cutoff).len() ==> #[trigger] samples_since(ss, cutoff)[i].timestamp
            >= cutoff,
        samples_since(ss, cutoff).len() <= ss.len(),
        forall|j: int| 0 <= j < ss.len() && ss[j].timestamp >= cutoff ==> samples_since(ss, cutoff).contains(#[trigger] ss[j]),
    decreases ss.len(),
{
    if ss.len() > 0 {
        law_samples_since(ss.drop_last(), cutoff);
        let rest = samples_since(ss.drop_last(), cutoff);
        assert forall|j: int| 0 <= j < ss.len() && ss[j].timestamp >= cutoff implies samples_since(ss, cutoff).contains(
            #[trigger] ss[j],
        ) by {
            if j < ss.len() - 1 {
                assert(ss.drop_last()[j] == ss[j]);
                let k = choose|k: int| 0 <= k < rest.len() && rest[k] == ss[j];
                assert(samples_since(ss, cutoff)[k] == ss[j]);
            } else {
                assert(samples_since(ss, cutoff)[rest.len() as int] == ss[j]);
            }
        }
    }
}

impl ReteMemoryProfiler {
    /// No component holds more than its peak.
    pub proof fn lemma_peak_bounds(&self)
        requires
            self.wf(),
        ensures
            forall|k: Seq<char>| #[trigger] self.components().contains_key(k) ==> self.components()[k].allocated
                <= self.components()[k].peak,
    {
        self.component_stats.lemma_entries();
        assert forall|k: Seq<char>| #[trigger] self.components().contains_key(k) implies self.components()[k].allocated
            <= self.components()[k].peak by {
            let i = choose|i: int| 0 <= i < self.component_stats.key_seq().len() && self.component_stats.key_seq()[i] == k;
            assert(self.component_stats@[k] == self.component_stats.val_seq()[i]);
        }
    }
}

impl Default for ReteMemoryProfiler {
    /// A profiler with the default settings.
    fn default() -> (p: ReteMemoryProfiler)
        ensures
            p.wf(),
            p.components() == Map::<Seq<char>, ComponentView>::empty(),
            p.samples() == Seq::<SampleView>::empty(),
            p.events() == Seq::<EventView>::empty(),
            p.pressure() == MemoryPressureLevel::Normal,
            p.settings() == MemoryProfilerConfig::default_spec(),
    {
        ReteMemoryProfiler::new()
    }
}

} // verus!

//! Bingo core: fact storage, indexing, pooling and RETE support structures
//! with machine-checked contracts.
//!
//! Pipeline orchestration, lazy aggregation, the optimisation coordinator
//! and the parallel RETE processor run on the rule engine, the RETE network
//! and the aggregation types, which this crate does not contain; the parts
//! of them that stand alone (stage ordering, work queues, configurations)
//! are here.

pub mod assoc;
pub mod cache;
pub mod clock;
pub mod error;
pub mod error_diagnostics;
pub mod error_testing;
pub mod fact_store;
pub mod fast_lookup;
pub mod incremental_construction;
pub mod incremental_processing;
pub mod field_indexing;
pub mod memory;
pub mod memory_pools;
pub mod memory_profiler;
pub mod node_sharing;
pub mod parallel;
pub mod parallel_rete;
pub mod pattern_cache;
pub mod payroll_expressions;
pub mod performance_config;
pub mod performance_tracking;
pub mod pipeline;
pub mod tally;
pub mod text;
pub mod types;
pub mod wide;

pub use error::{BingoError, BingoResult, ErrorContext, ErrorSeverity, ResultExt};
pub use error_diagnostics::{
    DiagnosticsConfig, ErrorDiagnostic, ErrorDiagnosticsManager, ErrorSuggestion, ErrorToDiagnostic,
    InteractiveDebugSession, ResultDiagnosticExt,
};
pub use fact_store::ArenaFactStore;
pub use memory::MemoryTracker;
pub use parallel::{ParallelAggregationEngine, ParallelAggregator, ParallelConfig};
pub use parallel_rete::{ParallelReteConfig, WorkQueue};
pub use types::{Action, ActionType, Condition, Fact, FactData, FactValue, LogicalOperator, Operator, Rule, RuleExecutionResult};

use vstd::prelude::*;

verus! {

/// Initializes the core; nothing can fail.
pub fn init() -> (r: BingoResult<()>)
    ensures
        r is Ok,
{
    Ok(())
}

} // verus!

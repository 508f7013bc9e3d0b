# bingo_core

The core data structures of the Bingo rule engine, written in Verus: each
public function carries a `requires`/`ensures` contract that Verus proves,
and the laws that span several functions are stated as public proof
functions (named `law_*`).

## Layout

- `src/` — the verified library.
  - `fact_store` — the arena fact store: facts at the slot of their id,
    field indexes, external ids, searches by field and by criteria.
  - `fast_lookup`, `cache` — fact lookup by id behind an LRU cache.
  - `field_indexing`, `pattern_cache`, `node_sharing`,
    `incremental_construction`, `incremental_processing` — indexes, caches,
    node sharing and change tracking for building and running the network.
  - `memory`, `memory_pools`, `memory_profiler` — memory readings, vector
    pools and the memory profiler.
  - `error`, `error_diagnostics`, `error_testing` — errors, diagnostics and
    their quality checks.
  - `parallel`, `parallel_rete`, `performance_config`, `performance_tracking`
    — parallel processing settings, work queues, performance thresholds and
    rule profiling.
  - `payroll_expressions` — the grammar of payroll expressions (tokens and
    parse trees).
  - `pipeline` — the order in which pipeline stages run.
  - `assoc`, `text`, `tally`, `wide`, `clock`, `types` — shared helpers and
    the fact types.
- `app/` — what Verus does not check: reading process files, floating-point
  renderings, serde forms, evaluation of payroll expressions, conversions
  from outside error types.
- `tests/` — tests of the library.

## Representation choices

- Rates and ratios are exact fractions (`Ratio`, `PerSecond`); the
  floating-point readings are in `app/`.
- Times are integers: milliseconds since the Unix epoch, or nanoseconds of a
  duration.
- String-keyed maps are kept as parallel vectors (`FactData`, `StrMap`),
  because a map keyed by strings has no specification to prove lookups
  against.

## Not part of this crate

Pipeline orchestration over the rule engine, lazy aggregation, the
optimisation coordinator and demo, performance regression benchmarking and
the parallel RETE processor run on the engine, the RETE network and the
aggregation types, which are not part of this crate; only the parts of them
that stand alone (stage ordering, work queues, configurations) are here.

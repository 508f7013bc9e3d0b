//! Which environment performance tests run in, decided from an explicit
//! name, CI and benchmark markers, and the machine's resources.

use vstd::prelude::*;
use crate::text::str_eq;

verus! {

/// The environments performance tests adapt to.
#[derive(Debug, Clone, Copy, PartialEq, Eq, Structural)]
pub enum PerformanceEnvironment {
    /// A developer's machine: the strictest thresholds.
    Local,
    /// Continuous integration: relaxed thresholds.
    CI,
    /// Benchmarking: the most relaxed thresholds.
    Benchmark,
    /// A machine short of resources: lenient thresholds.
    LowResource,
    /// Configured by hand.
    Custom,
}

/// Below this CPU speed (MHz) a machine is short of resources.
pub const LOW_CPU_SPEED: u64 = 2000;

/// Below this much memory (KB) a machine is short of resources.
pub const LOW_MEMORY: u64 = 4_000_000;

/// `sys_info::Error`, declared so that its results can be carried.
#[verifier::external_type_specification]
#[verifier::external_body]
pub struct ExSysInfoError(sys_info::Error);

/// `sys_info::cpu_speed`: the CPU speed in MHz, read from the system; it
/// depends on the machine, so nothing is stated of it.
#[verifier::external_body]
fn cpu_speed_mhz() -> Result<u64, sys_info::Error> {
    sys_info::cpu_speed()
}

/// `sys_info::mem_info`, its `total` field: the physical memory in KB, read
/// from the system; nothing is stated of it.
#[verifier::external_body]
fn total_memory_kb() -> Result<u64, sys_info::Error> {
    sys_info::mem_info().map(|m| m.total)
}

/// The lowercase form of a text, as `str::to_lowercase` gives it (Unicode
/// case mapping).
pub uninterp spec fn lowercase_text(s: Seq<char>) -> Seq<char>;

/// `str::to_lowercase`; its result is named: it depends on the text alone.
#[verifier::external_body]
fn to_lowercase(s: &str) -> (r: String)
    ensures
        r@ == lowercase_text(s@),
{
    s.to_lowercase()
}

/// The CPU speed (MHz) and physical memory (KB) of this machine.
pub fn get_system_info() -> Result<(u64, u64), sys_info::Error> {
    let cpu = cpu_speed_mhz()?;
    let memory = total_memory_kb()?;
    Ok((cpu, memory))
}

/// Whether a machine with this CPU speed and memory is short of resources.
pub fn is_low_resource(cpu_speed: u64, total_memory: u64) -> (b: bool)
    ensures
        b == (cpu_speed < LOW_CPU_SPEED || total_memory < LOW_MEMORY),
{
    cpu_speed < LOW_CPU_SPEED || total_memory < LOW_MEMORY
}

/// Whether system information, when it could be read, shows a machine
/// short of resources; unreadable information counts as not short.
pub fn low_resource_from(info: &Result<(u64, u64), sys_info::Error>) -> (b: bool)
    ensures
        b == (info matches Ok((c, m)) && (c < LOW_CPU_SPEED || m < LOW_MEMORY)),
{
    match info {
        Ok((cpu, memory)) => is_low_resource(*cpu, *memory),
        Err(_) => false,
    }
}

/// Whether this machine is short of resources.
pub fn is_low_resource_environment() -> bool {
    let info = get_system_info();
    low_resource_from(&info)
}

/// The environment a lowercase name selects.
pub open spec fn environment_named(n: Seq<char>) -> Option<PerformanceEnvironment> {
    if n == "local"@ {
        Some(PerformanceEnvironment::Local)
    } else if n == "ci"@ {
        Some(PerformanceEnvironment::CI)
    } else if n == "benchmark"@ {
        Some(PerformanceEnvironment::Benchmark)
    } else if n == "low_resource"@ {
        Some(PerformanceEnvironment::LowResource)
    } else if n == "custom"@ {
        Some(PerformanceEnvironment::Custom)
    } else {
        None
    }
}

/// The environment a name selects, ignoring case.
pub fn environment_from_name(name: &str) -> (r: Option<PerformanceEnvironment>)
    ensures
        r == environment_named(lowercase_text(name@)),
{
    let lower = to_lowercase(name);
    let l = lower.as_str();
    if str_eq(l, "local") {
        Some(PerformanceEnvironment::Local)
    } else if str_eq(l, "ci") {
        Some(PerformanceEnvironment::CI)
    } else if str_eq(l, "benchmark") {
        Some(PerformanceEnvironment::Benchmark)
    } else if str_eq(l, "low_resource") {
        Some(PerformanceEnvironment::LowResource)
    } else if str_eq(l, "custom") {
        Some(PerformanceEnvironment::Custom)
    } else {
        None
    }
}

/// The environment: the one an explicit name selects; else CI when a CI
/// marker is set; else benchmarking when its marker is set; else a
/// low-resource one when the machine is short; else local.
pub open spec fn environment_spec(
    explicit: Option<Seq<char>>,
    ci: bool,
    benchmark: bool,
    low_resource: bool,
) -> PerformanceEnvironment {
    match (match explicit { Some(n) => environment_named(lowercase_text(n)), None => None }) {
        Some(e) => e,
        None => if ci {
            PerformanceEnvironment::CI
        } else if benchmark {
            PerformanceEnvironment::Benchmark
        } else if low_resource {
            PerformanceEnvironment::LowResource
        } else {
            PerformanceEnvironment::Local
        },
    }
}

/// Decides the environment from the explicit setting (if any), whether a
/// CI or a benchmark marker is set, and whether the machine is short of
/// resources.
pub fn classify_environment(
    explicit: Option<&str>,
    ci: bool,
    benchmark: bool,
    low_resource: bool,
) -> (e: PerformanceEnvironment)
    ensures
        e == environment_spec(match explicit { Some(n) => Some(n@), None => None }, ci, benchmark, low_resource),
{
    let named = match explicit {
        Some(n) => environment_from_name(n),
        None => None,
    };
    match named {
        Some(e) => e,
        None => {
            if ci {
                PerformanceEnvironment::CI
            } else if benchmark {
                PerformanceEnvironment::Benchmark
            } else if low_resource {
                PerformanceEnvironment::LowResource
            } else {
                PerformanceEnvironment::Local
            }
        },
    }
}


/// The environment a profile name selects and its time and memory
/// multipliers in hundredths: `local` 1x and 1x, `ci` 2x and 1.5x,
/// `benchmark` 3x and 2x, `low_resource` 4x and 2.5x; any other name a
/// custom profile at 1x and 1x.
pub open spec fn profile_spec(n: Seq<char>) -> (PerformanceEnvironment, u32, u32) {
    if n == "local"@ {
        (PerformanceEnvironment::Local, 100, 100)
    } else if n == "ci"@ {
        (PerformanceEnvironment::CI, 200, 150)
    } else if n == "benchmark"@ {
        (PerformanceEnvironment::Benchmark, 300, 200)
    } else if n == "low_resource"@ {
        (PerformanceEnvironment::LowResource, 400, 250)
    } else {
        (PerformanceEnvironment::Custom, 100, 100)
    }
}

/// The environment and base multipliers (in hundredths) of a profile.
pub fn profile_base(profile_name: &str) -> (r: (PerformanceEnvironment, u32, u32))
    ensures
        r == profile_spec(profile_name@),
{
    if str_eq(profile_name, "local") {
        (PerformanceEnvironment::Local, 100, 100)
    } else if str_eq(profile_name, "ci") {
        (PerformanceEnvironment::CI, 200, 150)
    } else if str_eq(profile_name, "benchmark") {
        (PerformanceEnvironment::Benchmark, 300, 200)
    } else if str_eq(profile_name, "low_resource") {
        (PerformanceEnvironment::LowResource, 400, 250)
    } else {
        (PerformanceEnvironment::Custom, 100, 100)
    }
}

/// Whether a profile's multipliers scale with the machine: for local and CI
/// environments only.
pub fn scales_with_machine(environment: PerformanceEnvironment) -> (b: bool)
    ensures
        b == (environment == PerformanceEnvironment::Local || environment == PerformanceEnvironment::CI),
{
    match environment {
        PerformanceEnvironment::Local => true,
        PerformanceEnvironment::CI => true,
        _ => false,
    }
}

} // verus!

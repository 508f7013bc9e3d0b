//! Wall-clock time: the current instant, the current UTC time, and the
//! lengths of durations.

use vstd::prelude::*;
use std::time::{Duration, Instant};

verus! {

/// `std::time::Instant`, declared so that instants can be held.
#[verifier::external_type_specification]
#[verifier::external_body]
pub struct ExInstant(Instant);

/// `Instant::clone`: `Instant` is `Copy`, so a clone is the same instant.
pub assume_specification [<std::time::Instant as Clone>::clone](i: &Instant) -> (r: Instant)
    ensures
        r == *i,
;

/// `Instant::now`: the current time; nothing is stated of it.
#[verifier::external_body]
pub(crate) fn now() -> Instant {
    Instant::now()
}

/// `Instant::elapsed`: the time since `start`; it depends on the clock, so
/// nothing is stated of it.
#[verifier::external_body]
pub(crate) fn elapsed_since(start: &Instant) -> Duration {
    start.elapsed()
}

/// `Instant::duration_since`: the time from `earlier` to `later` (zero when
/// `earlier` is the later one). Instants are opaque here, so nothing is
/// stated of it.
#[verifier::external_body]
pub(crate) fn duration_between(later: &Instant, earlier: &Instant) -> Duration {
    later.duration_since(*earlier)
}

/// `Duration::as_millis`: the whole milliseconds of a duration. A
/// `Duration` is opaque here, so nothing is stated of the result.
#[verifier::external_body]
pub(crate) fn duration_millis(d: &Duration) -> u128 {
    d.as_millis()
}

/// The longest duration `std::time::Duration` holds (`Duration::MAX`:
/// `u64::MAX` seconds and 999 999 999 nanoseconds), in nanoseconds.
pub open spec fn max_duration_nanos() -> int {
    18_446_744_073_709_551_615int * 1_000_000_000 + 999_999_999
}

/// `Duration::as_nanos`: the total nanoseconds of a duration. A `Duration`
/// is opaque here, so only the bound that every duration keeps is stated:
/// no duration is longer than `Duration::MAX`.
#[verifier::external_body]
pub(crate) fn duration_nanos(d: &Duration) -> (r: u128)
    ensures
        r <= max_duration_nanos(),
{
    d.as_nanos()
}

/// `Duration::as_secs`: the whole seconds of a duration. A `Duration` is
/// opaque here, so nothing is stated of the result.
#[verifier::external_body]
pub(crate) fn duration_whole_secs(d: &Duration) -> u64 {
    d.as_secs()
}

/// `chrono::Utc::now`, read as whole milliseconds since the Unix epoch
/// with `DateTime::timestamp_millis`. It reads the system clock, so nothing
/// is stated of it.
#[verifier::external_body]
pub(crate) fn utc_now_millis() -> i64 {
    chrono::Utc::now().timestamp_millis()
}

/// Milliseconds since `start`, truncated to 64 bits.
pub(crate) fn millis_since(start: &Instant) -> u64 {
    let d = elapsed_since(start);
    let ms = duration_millis(&d);
    #[verifier::truncate]
    (ms as u64)
}

} // verus!

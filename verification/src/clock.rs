//! Wall-clock readings.
use vstd::prelude::*;
use std::time::SystemTime;

verus! {

#[verifier::external_type_specification]
#[verifier::external_body]
pub struct ExSystemTime(SystemTime);

/// Calls `SystemTime::now`. Nothing is claimed of the reading.
#[verifier::external_body]
fn system_now() -> SystemTime {
    SystemTime::now()
}

/// Calls `SystemTime::duration_since` with `UNIX_EPOCH`; `None` when the time lies
/// before the epoch. Nothing is claimed of the span.
#[verifier::external_body]
fn since_epoch(t: &SystemTime) -> Option<std::time::Duration> {
    t.duration_since(std::time::UNIX_EPOCH).ok()
}

/// Calls `std::time::Duration::as_millis`. Nothing is claimed of the count.
#[verifier::external_body]
fn whole_millis(d: &std::time::Duration) -> u128 {
    d.as_millis()
}

/// Milliseconds since the Unix epoch now (kept to their low 64 bits), `None` when
/// the clock reads a time before the epoch.
pub fn unix_now_ms() -> Option<u64> {
    let t = system_now();
    match since_epoch(&t) {
        Some(d) => {
            let ms = whole_millis(&d);
            Some(#[verifier::truncate] (ms as u64))
        },
        None => None,
    }
}

} // verus!

//! A collection of small self-contained modules that do exactly one thing.

use vstd::prelude::*;


pub mod tiny_profiler;
pub mod utf8;

pub use tiny_profiler::TinyProfiler;

verus! {

/// Nanoseconds since the UNIX epoch, read from the system clock by
/// `std::time::SystemTime::now` and `duration_since(UNIX_EPOCH)`: `None` where
/// `duration_since` fails, which it does when the clock stands before the epoch.
/// The clock is the machine's, so nothing is stated of the value.
#[verifier::external_body]
pub fn current_time_nanos() -> Option<u128> {
    match std::time::SystemTime::now().duration_since(std::time::UNIX_EPOCH) {
        Ok(d) => Some(d.as_nanos()),
        Err(_) => None,
    }
}

/// The reading of the system clock in nanoseconds since the UNIX epoch; a clock
/// that stands before the epoch reads as 0.
pub fn clock_nanos() -> u128 {
    match current_time_nanos() {
        Some(t) => t,
        None => 0,
    }
}

} // verus!

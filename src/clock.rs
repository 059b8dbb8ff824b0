//! A monotonic millisecond clock, used for cooldowns and the anti-double-fire
//! guard. Everything that decides on time takes the reading as an argument.

use vstd::prelude::*;

verus! {

#[verifier::external_type_specification]
#[verifier::external_body]
pub struct ExInstant(std::time::Instant);

/// Relies on std::time::Instant::now: the current monotonic instant.
#[verifier::external_body]
fn instant_now() -> std::time::Instant {
    std::time::Instant::now()
}

/// Relies on std::time::Instant::elapsed and Duration::as_millis: whole
/// milliseconds since `origin`.
#[verifier::external_body]
fn millis_since(origin: &std::time::Instant) -> u128 {
    origin.elapsed().as_millis()
}

/// A monotonic clock counting milliseconds from its creation.
#[derive(Debug, Clone, Copy)]
pub struct MonotonicClock {
    origin: std::time::Instant,
}

impl MonotonicClock {
    pub fn new() -> (r: Self) {
        MonotonicClock { origin: instant_now() }
    }

    /// Milliseconds since the clock was created. Nothing is promised of
    /// the value: decisions take it as an argument.
    pub fn now_ms(&self) -> (r: u64) {
        let ms = millis_since(&self.origin);
        if ms > u64::MAX as u128 {
            u64::MAX
        } else {
            ms as u64
        }
    }
}

} // verus!

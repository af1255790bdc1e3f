//! The wall clock that paces the trade requests of a price check.
use vstd::prelude::*;

verus! {

#[verifier::external_type_specification]
#[verifier::external_body]
pub struct ExInstant(std::time::Instant);

/// `Instant::now`: a reading of the system's monotonic clock. It depends on
/// the time, so nothing is stated of it.
#[verifier::external_body]
fn instant_now() -> std::time::Instant {
    std::time::Instant::now()
}

/// `Instant::elapsed`: how long ago `start` was read. It depends on the
/// time, so nothing is stated of it.
#[verifier::external_body]
fn elapsed_since(start: &std::time::Instant) -> std::time::Duration {
    start.elapsed()
}

/// `Duration::as_millis`: the whole milliseconds of `d`. The duration is
/// opaque here, so nothing is stated of the count.
#[verifier::external_body]
fn whole_millis(d: std::time::Duration) -> u128 {
    d.as_millis()
}

/// The system's monotonic clock, counting from when it was made.
#[derive(Debug, Clone, Copy)]
pub struct SystemClock {
    start: std::time::Instant,
}

impl SystemClock {
    pub fn new() -> Self {
        SystemClock { start: instant_now() }
    }

    /// Milliseconds since the clock was made, cut to 64 bits.
    pub fn now(&self) -> u64 {
        let ms = whole_millis(elapsed_since(&self.start));
        ms as u64
    }
}

impl Default for SystemClock {
    fn default() -> Self {
        SystemClock::new()
    }
}

} // verus!

//! Readings of the clock.

use vstd::prelude::*;

verus! {

/// A point on a clock that never goes back.
#[verifier::external_type_specification]
#[verifier::external_body]
pub struct ExInstant(std::time::Instant);

/// `Instant::now` reads the clock. Nothing is claimed of the reading.
pub assume_specification[ std::time::Instant::now ]() -> (r: std::time::Instant)
;

/// `Instant::elapsed` gives the time since a reading. Nothing is claimed of it.
pub assume_specification[ std::time::Instant::elapsed ](
    t: &std::time::Instant,
) -> (r: std::time::Duration)
;

/// `Duration::as_nanos` gives the whole nanoseconds of a span of time. Nothing is claimed of
/// their number, since spans come from the clock alone.
pub assume_specification[ std::time::Duration::as_nanos ](d: &std::time::Duration) -> (r: u128)
;

/// A clock that counts nanoseconds from the moment it was started.
#[derive(Debug)]
pub struct Stopwatch {
    started: std::time::Instant,
}

impl Stopwatch {
    /// Starts a clock. The moment is whatever the clock of the machine reads, so nothing is claimed
    /// of it.
    pub fn start() -> Stopwatch {
        Stopwatch { started: std::time::Instant::now() }
    }

    /// The nanoseconds since the start. Their number depends on the clock of the machine alone, so
    /// nothing is claimed of it: callers hold for every reading.
    pub fn nanos(&self) -> u128 {
        self.started.elapsed().as_nanos()
    }
}

/// `chrono::Local::now` reads the wall clock, and `format` writes it out as a date and a time.
/// Nothing is claimed of the text.
#[verifier::external_body]
pub(crate) fn local_timestamp() -> (r: String) {
    chrono::Local::now().format("%Y-%m-%d %H:%M:%S").to_string()
}

} // verus!

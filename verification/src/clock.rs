//! A monotonic clock that counts nanoseconds from the moment it was made.

use std::time::Duration;
use std::time::Instant;
use vstd::prelude::*;

verus! {

/// `std::time::Instant`: a moment on the monotonic clock. Nothing of it is
/// visible to the verifier.
#[verifier::external_type_specification]
#[verifier::external_body]
pub struct ExInstant(std::time::Instant);

/// `Instant::now` gives the present moment. Nothing is known of it.
pub assume_specification[ Instant::now ]() -> Instant;

/// `Instant::elapsed` gives the time since the moment. Nothing is known of
/// it.
pub assume_specification[ Instant::elapsed ](instant: &Instant) -> Duration;

/// `Duration::as_nanos` gives a duration in nanoseconds. Nothing is known of
/// the number.
pub assume_specification[ Duration::as_nanos ](duration: &Duration) -> u128;

/// A clock that starts when it is made.
pub struct Clock {
    origin: Instant,
}

impl Clock {
    /// A clock that starts now.
    pub fn start() -> Clock {
        Clock { origin: Instant::now() }
    }

    /// Nanoseconds since the clock started. Two readings of one clock may
    /// be any two numbers as far as the proofs go.
    pub fn nanos(&self) -> u128 {
        self.origin.elapsed().as_nanos()
    }
}

/// The time from `start` to `end` in nanoseconds: zero where `end` is not
/// after `start`, and no more than `u64::MAX`.
pub open spec fn span(start: u128, end: u128) -> u64 {
    if end <= start {
        0
    } else if end - start > u64::MAX {
        u64::MAX
    } else {
        (end - start) as u64
    }
}

/// The time from `start` to `end` in nanoseconds.
pub fn elapsed_between(start: u128, end: u128) -> (elapsed: u64)
    ensures
        elapsed == span(start, end),
{
    if end <= start {
        0
    } else if end - start > u64::MAX as u128 {
        u64::MAX
    } else {
        (end - start) as u64
    }
}

} // verus!

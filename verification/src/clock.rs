//! The server clock: nanoseconds since the server started, read from the
//! monotonic system clock.
use std::time::Instant;
use vstd::prelude::*;

verus! {

#[verifier::external_type_specification]
#[verifier::external_body]
pub struct ExInstant(Instant);

/// `Instant::now()`. Trusted: nothing is claimed of the instant.
#[verifier::external_body]
fn instant_now() -> Instant {
    Instant::now()
}

/// `origin.elapsed()` in nanoseconds (`Duration::as_nanos`). Trusted: nothing is
/// claimed of the reading, which depends on the time of the call.
#[verifier::external_body]
fn elapsed_nanos(origin: &Instant) -> u128 {
    origin.elapsed().as_nanos()
}

/// A clock that counts from the instant it was started.
pub struct Clock {
    origin: Instant,
}

impl Clock {
    /// A clock started now.
    pub fn start() -> Clock {
        Clock { origin: instant_now() }
    }

    /// Nanoseconds since the clock started (saturating at `u64::MAX`; see
    /// [`saturating_nanos`]). The reading itself depends on the time of the
    /// call, so no clause states it.
    pub fn now(&self) -> u64 {
        saturating_nanos(elapsed_nanos(&self.origin))
    }
}

/// An elapsed time in nanoseconds as a `u64`, saturating at `u64::MAX`.
pub fn saturating_nanos(elapsed: u128) -> (r: u64)
    ensures
        r == if elapsed > u64::MAX as u128 {
            u64::MAX as u128
        } else {
            elapsed
        },
{
    if elapsed > u64::MAX as u128 {
        u64::MAX
    } else {
        elapsed as u64
    }
}

} // verus!

//! Timing a computation.
use vstd::prelude::*;
use std::time::{Duration, Instant};

verus! {

#[verifier::external_type_specification]
#[verifier::external_body]
pub struct ExInstant(Instant);

/// Relies on `Instant::now`: a reading of the monotonic clock. Nothing is
/// stated of its value.
#[verifier::external_body]
fn clock_now() -> Instant {
    Instant::now()
}

/// Relies on `Instant::elapsed`: the time since `start`. Nothing is stated of
/// its value.
#[verifier::external_body]
fn elapsed_since(start: &Instant) -> Duration {
    start.elapsed()
}

/// Runs `f` and returns its result with the time it took.
pub fn time_it<F, T>(f: F) -> (r: (T, Duration))
    where
        F: FnOnce() -> T,
    requires
        f.requires(()),
    ensures
        f.ensures((), r.0),
{
    let start = clock_now();
    let res = f();
    let elapsed = elapsed_since(&start);
    (res, elapsed)
}

} // verus!

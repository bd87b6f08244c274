//! The `wasi:clocks/monotonic-clock` interface.
use vstd::prelude::*;
use crate::error::Error;
use crate::linker::Linker;

verus! {

/// A monotonic clock as the host provides it: times in nanoseconds.
pub trait HostMonotonicClock: Send + Sync {
    /// The clock's resolution in nanoseconds.
    fn resolution(&self) -> u64;

    /// The current time in nanoseconds.
    fn now(&self) -> u64;
}

/// The resolution of the JS host's clock, `performance.now()`, in nanoseconds:
/// one millisecond, a safe bound on the browser's precision.
pub fn js_clock_resolution() -> (r: u64)
    ensures
        r == 1_000_000,
{
    1_000_000
}

/// Registers `now`, the host function that hands the guest the current time of
/// the clock, as `now` in `wasi:clocks/monotonic-clock@0.2.0`.
pub fn add_to_linker<F>(linker: &mut Linker<F>, now: F) -> (r: Result<(), Error>)
    ensures
        r is Ok,
        final(linker)@ == old(linker)@.push(("wasi:clocks/monotonic-clock@0.2.0"@, "now"@, now)),
{
    match linker.func_wrap("wasi:clocks/monotonic-clock@0.2.0", "now", now) {
        Ok(_) => Ok(()),
        Err(e) => Err(e),
    }
}

} // verus!

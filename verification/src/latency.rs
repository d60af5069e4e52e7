//! When the latency probe stops: after a fixed number of rounds, or
//! earlier once it has enough samples and has run long enough.
use vstd::prelude::*;

verus! {

/// The most rounds the probe makes; each round takes one sample.
pub const LATENCY_ROUNDS: usize = 100;

/// The samples the probe takes before it may stop early.
pub const LATENCY_MIN_SAMPLES: usize = 30;

/// How long, in nanoseconds, the probe runs before it may stop early.
pub const LATENCY_TIME_LIMIT_NANOS: u128 = 5_000_000_000;

/// Whether the probe stops after taking its `samples`-th sample, with
/// `elapsed_nanos` gone since it started: once it has made all its rounds,
/// or once it has at least the minimum of samples and has run longer than
/// its time limit.
pub fn latency_probe_finished(samples: usize, elapsed_nanos: u128) -> (done: bool)
    ensures
        done == (samples >= LATENCY_ROUNDS || (samples >= LATENCY_MIN_SAMPLES && elapsed_nanos
            > LATENCY_TIME_LIMIT_NANOS)),
{
    samples >= LATENCY_ROUNDS || (samples >= LATENCY_MIN_SAMPLES && elapsed_nanos
        > LATENCY_TIME_LIMIT_NANOS)
}

} // verus!

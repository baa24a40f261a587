//! Settings of control-rate to audio-rate reconstruction.

use vstd::prelude::*;

verus! {

/// The control interval, in samples, that reconstructors use by default.
pub const DEFAULT_CONTROL_INTERVAL_SAMPLES: usize = 64;

/// The largest number of taps of a windowed-sinc reconstructor.
pub const MAX_SINC_TAPS: usize = 4096;

/// The tap count a windowed-sinc reconstructor uses for a requested count:
/// clamped to `2..=4096`, then rounded up to an even count.
pub open spec fn spec_normalized_tap_count(taps: int) -> int {
    let clamped = if taps < 2 {
        2
    } else if taps > MAX_SINC_TAPS {
        MAX_SINC_TAPS as int
    } else {
        taps
    };
    if clamped % 2 == 0 {
        clamped
    } else {
        clamped + 1
    }
}

/// Tap counts are clamped to `2..=4096` and rounded up to an even count.
pub fn normalized_tap_count(taps: usize) -> (n: usize)
    ensures
        n == spec_normalized_tap_count(taps as int),
        n % 2 == 0,
        2 <= n <= MAX_SINC_TAPS,
        taps <= MAX_SINC_TAPS ==> taps <= n <= taps + 1 || (taps < 2 && n == 2),
{
    let clamped = if taps < 2 {
        2
    } else if taps > MAX_SINC_TAPS {
        MAX_SINC_TAPS
    } else {
        taps
    };
    if clamped % 2 == 0 {
        clamped
    } else {
        clamped + 1
    }
}

/// The control interval a reconstructor uses for a requested interval: at
/// least one sample.
pub fn effective_control_interval(control_interval_samples: usize) -> (interval: usize)
    ensures
        interval == if control_interval_samples == 0 {
            1
        } else {
            control_interval_samples
        },
{
    if control_interval_samples == 0 {
        1
    } else {
        control_interval_samples
    }
}

} // verus!

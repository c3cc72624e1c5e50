//! Band energy and loudness-weighted dynamics engine.
//!
//! The engine measures how the energy of an audio signal is distributed
//! across a fixed table of frequency bands, both raw and K-weighted
//! (ITU-R BS.1770-4), and how much each band's energy fluctuates over time.
//!
//! All band, bin and power arithmetic here is exact integer arithmetic.
//! Per-bin spectral powers enter as fixed-point units chosen by the caller,
//! K-weights enter as fixed-point factors, and decibel values enter in
//! millidecibels; the floating-point front end (windowing, the transform,
//! filter evaluation, decibel conversion) lives outside the library and
//! only hands quantised values in.

use vstd::prelude::*;

pub mod arith;
pub mod bands;
pub mod bins;
pub mod dynamics;
pub mod power;
pub mod progress;
pub mod rate;
pub mod session;

pub use bands::get_bands;
pub use bands::Band;
pub use rate::check_sample_rate;

verus! {

/// Analysis frame length in samples; every frame is transformed at this size.
pub const FFT_SIZE: usize = 16384;

/// Offset in samples between the starts of consecutive overlapping frames.
/// Strictly less than `FFT_SIZE` so the dynamics statistic sees each part
/// of the signal several times.
pub const HOP_SIZE: usize = 2048;

/// Bands whose percentage share is below this (in `power::PCT_SCALE` units
/// per percentage point: half a percent) have their dynamics hidden by
/// consumers rather than shown.
pub const DYNAMICS_DISPLAY_THRESHOLD_UNITS: u64 = 500_000;

/// Whether a band's single-frame raw power is loud enough to enter the
/// band's decibel series: anything below one quantisation unit is treated
/// as silence, the engine's stand-in for the tiny floor that guards a
/// logarithm of zero.
pub fn db_floor_exceeded(power: u128) -> (r: bool)
    ensures
        r == (power > 0),
{
    power > 0
}

/// Number of colour sets available to the comparison chart: the most files
/// one chart can show.
pub fn max_chart_files() -> (r: usize)
    ensures
        r == 4,
{
    4
}

} // verus!

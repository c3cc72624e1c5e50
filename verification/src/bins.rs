//! Mapping from band frequency ranges to transform bin ranges.
//!
//! Bin `i` of a length-`fft_size` transform at `sample_rate` Hz covers
//! frequencies from `i * sample_rate / fft_size` upward, so a frequency
//! boundary at `hz` lands on bin `floor(hz * fft_size / sample_rate)`.
//! Every boundary is clamped to the Nyquist bin `fft_size / 2`, and the
//! open-ended top band always ends there.

use vstd::arithmetic::div_mod::lemma_div_is_ordered;
use vstd::arithmetic::mul::lemma_mul_inequality;
use vstd::prelude::*;

use crate::bands::{spec_bands, Band};

verus! {

/// Largest supported transform length.
pub const MAX_FFT_SIZE: usize = 131072;

/// The bin on which a frequency boundary at `hz` lands, before clamping.
pub open spec fn spec_bin_floor(hz: nat, fft_size: nat, sample_rate: nat) -> nat
    recommends
        sample_rate > 0,
{
    hz * fft_size / sample_rate
}

/// First bin of a band, clamped to the Nyquist bin.
pub open spec fn spec_low_bin(b: Band, fft_size: nat, sample_rate: nat) -> nat {
    let n = spec_bin_floor(b.low_hz as nat, fft_size, sample_rate);
    if n > fft_size / 2 {
        fft_size / 2
    } else {
        n
    }
}

/// One past the last bin of a band, clamped to the Nyquist bin; the
/// open-ended top band always reaches the Nyquist bin.
pub open spec fn spec_high_bin(b: Band, fft_size: nat, sample_rate: nat) -> nat {
    match b.high_hz {
        Some(h) => {
            let n = spec_bin_floor(h as nat, fft_size, sample_rate);
            if n > fft_size / 2 {
                fft_size / 2
            } else {
                n
            }
        },
        None => fft_size / 2,
    }
}

/// Computes the half-open bin range `[low, high)` covered by one band.
pub fn band_bin_range(band: &Band, fft_size: usize, sample_rate: u32) -> (r: (usize, usize))
    requires
        band.wf(),
        2 <= fft_size <= MAX_FFT_SIZE,
        sample_rate >= 1,
    ensures
        r.0 == spec_low_bin(*band, fft_size as nat, sample_rate as nat),
        r.1 == spec_high_bin(*band, fft_size as nat, sample_rate as nat),
        r.0 <= r.1 <= fft_size / 2,
{
    let nyquist: u64 = (fft_size / 2) as u64;
    proof {
        lemma_mul_inequality(fft_size as int, MAX_FFT_SIZE as int, band.low_hz as int);
        assert(MAX_FFT_SIZE * band.low_hz <= MAX_FFT_SIZE * u32::MAX) by (nonlinear_arith)
            requires
                band.low_hz <= u32::MAX,
        ;
    }
    let low64: u64 = (band.low_hz as u64) * (fft_size as u64) / (sample_rate as u64);
    let low = if low64 > nyquist {
        nyquist as usize
    } else {
        low64 as usize
    };
    let high = match band.high_hz {
        Some(h) => {
            proof {
                lemma_mul_inequality(fft_size as int, MAX_FFT_SIZE as int, h as int);
                assert(MAX_FFT_SIZE * h <= MAX_FFT_SIZE * u32::MAX) by (nonlinear_arith)
                    requires
                        h <= u32::MAX,
                ;
            }
            let high64: u64 = (h as u64) * (fft_size as u64) / (sample_rate as u64);
            proof {
                lemma_mul_inequality(band.low_hz as int, h as int, fft_size as int);
                lemma_div_is_ordered(
                    band.low_hz as int * fft_size as int,
                    h as int * fft_size as int,
                    sample_rate as int,
                );
            }
            if high64 > nyquist {
                nyquist as usize
            } else {
                high64 as usize
            }
        },
        None => nyquist as usize,
    };
    (low, high)
}

/// Computes the bin range of every band in order.
pub fn band_bin_ranges(bands: &Vec<Band>, fft_size: usize, sample_rate: u32) -> (r: Vec<
    (usize, usize),
>)
    requires
        forall|i: int| 0 <= i < bands@.len() ==> (#[trigger] bands@[i]).wf(),
        2 <= fft_size <= MAX_FFT_SIZE,
        sample_rate >= 1,
    ensures
        r@.len() == bands@.len(),
        forall|i: int|
            0 <= i < bands@.len() ==> (#[trigger] r@[i]).0 == spec_low_bin(
                bands@[i],
                fft_size as nat,
                sample_rate as nat,
            ),
        forall|i: int|
            0 <= i < bands@.len() ==> (#[trigger] r@[i]).1 == spec_high_bin(
                bands@[i],
                fft_size as nat,
                sample_rate as nat,
            ),
        forall|i: int| 0 <= i < bands@.len() ==> (#[trigger] r@[i]).0 <= r@[i].1 <= fft_size / 2,
{
    let mut r: Vec<(usize, usize)> = Vec::new();
    let mut i: usize = 0;
    while i < bands.len()
        invariant
            i <= bands@.len(),
            r@.len() == i,
            forall|k: int| 0 <= k < bands@.len() ==> (#[trigger] bands@[k]).wf(),
            2 <= fft_size <= MAX_FFT_SIZE,
            sample_rate >= 1,
            forall|k: int|
                0 <= k < i ==> (#[trigger] r@[k]).0 == spec_low_bin(
                    bands@[k],
                    fft_size as nat,
                    sample_rate as nat,
                ),
            forall|k: int|
                0 <= k < i ==> (#[trigger] r@[k]).1 == spec_high_bin(
                    bands@[k],
                    fft_size as nat,
                    sample_rate as nat,
                ),
            forall|k: int| 0 <= k < i ==> (#[trigger] r@[k]).0 <= r@[k].1 <= fft_size / 2,
        decreases bands@.len() - i,
    {
        let range = band_bin_range(&bands[i], fft_size, sample_rate);
        r.push(range);
        i = i + 1;
    }
    r
}

/// The bin ranges of the fixed band table tile the spectrum: the first band
/// starts at bin 0, each band ends where the next begins, and the top band
/// ends at the Nyquist bin, so every bin below Nyquist belongs to exactly
/// one band.
pub proof fn lemma_band_ranges_contiguous(fft_size: nat, sample_rate: nat)
    requires
        sample_rate > 0,
    ensures
        spec_low_bin(spec_bands()[0], fft_size, sample_rate) == 0,
        forall|i: int|
            0 <= i < 13 ==> spec_high_bin(#[trigger] spec_bands()[i], fft_size, sample_rate)
                == spec_low_bin(spec_bands()[i + 1], fft_size, sample_rate),
        spec_high_bin(spec_bands()[13], fft_size, sample_rate) == fft_size / 2,
{
    crate::bands::lemma_bands_wf();
    assert(spec_bands()[0].low_hz == 0);
    assert(0 * fft_size == 0) by (nonlinear_arith);
    assert forall|i: int| 0 <= i < 13 implies spec_high_bin(
        #[trigger] spec_bands()[i],
        fft_size,
        sample_rate,
    ) == spec_low_bin(spec_bands()[i + 1], fft_size, sample_rate) by {
        assert(spec_bands()[i].high_hz == Some(spec_bands()[i + 1].low_hz));
    }
}

} // verus!

//! One full-buffer analysis session: drives per-frame accumulation of raw
//! and K-weighted band powers, collects the per-band decibel series for the
//! dynamics statistic, and tracks progress.
//!
//! The caller transforms each frame outside the library and hands the
//! frame's quantised power spectrum in; the session does every decision and
//! every sum on those values, and its state always equals the exact sums
//! over the full history of frames it was given.

use vstd::arithmetic::div_mod::{
    lemma_div_is_ordered, lemma_div_is_ordered_by_denominator, lemma_div_multiples_vanish,
    lemma_fundamental_div_mod, lemma_mod_bound,
};
use vstd::arithmetic::mul::lemma_mul_inequality;
use vstd::prelude::*;

use crate::bands::Band;
use crate::bins::{band_bin_ranges, spec_high_bin, spec_low_bin, MAX_FFT_SIZE};
use crate::dynamics::{
    band_dynamics, spec_dynamics_value, MAX_ABS_MILLI_DB, MAX_DB_SAMPLES,
};
use crate::power::{
    accumulate_powers, frame_band_powers, lemma_sum_range_bounds, lemma_sum_weighted_bounds,
    spec_band_power, MAX_BIN_UNITS, MAX_K_WEIGHT, MAX_SPECTRUM_LEN,
};
use crate::progress::{spec_percent, ProgressTracker};

verus! {

/// Largest supported number of frames in one session.
pub const MAX_FRAMES: usize = 2_000_000;

/// An upper bound on the power one band can collect from one frame.
pub open spec fn spec_frame_power_cap() -> int {
    MAX_SPECTRUM_LEN as int * (MAX_BIN_UNITS as int * MAX_K_WEIGHT as int)
}

/// The total power a band has collected over a history of frames.
pub open spec fn frames_band_total(
    frames: Seq<Seq<u64>>,
    w: Option<Seq<u64>>,
    lo: int,
    hi: int,
) -> int
    decreases frames.len(),
{
    if frames.len() == 0 {
        0
    } else {
        frames_band_total(frames.drop_last(), w, lo, hi) + spec_band_power(
            frames.last(),
            w,
            lo,
            hi,
        )
    }
}

/// A well-formed frame: the expected number of bins, each within bounds.
pub open spec fn frame_wf(frame: Seq<u64>, spectrum_len: int) -> bool {
    &&& frame.len() == spectrum_len
    &&& forall|i: int| 0 <= i < frame.len() ==> #[trigger] frame[i] <= MAX_BIN_UNITS
}

/// One band's single-frame power never exceeds the frame power cap.
proof fn lemma_band_power_cap(frame: Seq<u64>, w: Option<Seq<u64>>, lo: int, hi: int)
    requires
        0 <= lo <= hi <= frame.len() <= MAX_SPECTRUM_LEN,
        forall|i: int| 0 <= i < frame.len() ==> #[trigger] frame[i] <= MAX_BIN_UNITS,
        match w {
            Some(k) => k.len() == frame.len() && forall|i: int|
                0 <= i < k.len() ==> #[trigger] k[i] <= MAX_K_WEIGHT,
            None => true,
        },
    ensures
        0 <= spec_band_power(frame, w, lo, hi) <= spec_frame_power_cap(),
{
    let cap = MAX_BIN_UNITS as int * MAX_K_WEIGHT as int;
    match w {
        Some(k) => {
            lemma_sum_weighted_bounds(frame, k, lo, hi);
            lemma_mul_inequality(hi - lo, MAX_SPECTRUM_LEN as int, cap);
        },
        None => {
            lemma_sum_range_bounds(frame, lo, hi);
            lemma_mul_inequality(hi - lo, MAX_SPECTRUM_LEN as int, MAX_BIN_UNITS as int);
            assert(MAX_SPECTRUM_LEN as int * MAX_BIN_UNITS as int <= spec_frame_power_cap())
                by (nonlinear_arith)
                requires
                    MAX_SPECTRUM_LEN == 65536,
                    MAX_BIN_UNITS == 0xFF_FFFF_FFFF_FFFF,
                    MAX_K_WEIGHT == 0x3_FFFF_FFFF,
                    spec_frame_power_cap() == MAX_SPECTRUM_LEN as int * (MAX_BIN_UNITS as int
                        * MAX_K_WEIGHT as int),
            ;
        },
    }
}

/// A band's history total is bounded by the frame count times the frame
/// power cap.
proof fn lemma_frames_total_bounds(
    frames: Seq<Seq<u64>>,
    w: Option<Seq<u64>>,
    lo: int,
    hi: int,
    spectrum_len: int,
)
    requires
        0 <= lo <= hi <= spectrum_len <= MAX_SPECTRUM_LEN,
        forall|f: int| 0 <= f < frames.len() ==> frame_wf(#[trigger] frames[f], spectrum_len),
        match w {
            Some(k) => k.len() == spectrum_len && forall|i: int|
                0 <= i < k.len() ==> #[trigger] k[i] <= MAX_K_WEIGHT,
            None => true,
        },
    ensures
        0 <= frames_band_total(frames, w, lo, hi) <= frames.len() * spec_frame_power_cap(),
    decreases frames.len(),
{
    if frames.len() > 0 {
        lemma_frames_total_bounds(frames.drop_last(), w, lo, hi, spectrum_len);
        lemma_band_power_cap(frames.last(), w, lo, hi);
        assert(frames.len() * spec_frame_power_cap() == (frames.len() - 1)
            * spec_frame_power_cap() + spec_frame_power_cap()) by (nonlinear_arith);
    }
}

/// The total (raw or weighted) spectral power of a history of frames, over
/// every bin.
pub open spec fn frames_total_power(
    frames: Seq<Seq<u64>>,
    w: Option<Seq<u64>>,
    spectrum_len: int,
) -> int
    decreases frames.len(),
{
    if frames.len() == 0 {
        0
    } else {
        frames_total_power(frames.drop_last(), w, spectrum_len) + spec_band_power(
            frames.last(),
            w,
            0,
            spectrum_len,
        )
    }
}

/// Summing band totals over contiguous ranges counts every bin of every
/// frame exactly once.
proof fn lemma_frames_band_exchange(
    frames: Seq<Seq<u64>>,
    w: Option<Seq<u64>>,
    ranges: Seq<(usize, usize)>,
    totals: Seq<u128>,
    spectrum_len: int,
)
    requires
        0 <= spectrum_len <= MAX_SPECTRUM_LEN,
        match w {
            Some(k) => k.len() == spectrum_len && forall|i: int|
                0 <= i < k.len() ==> #[trigger] k[i] <= MAX_K_WEIGHT,
            None => true,
        },
        ranges.len() == totals.len(),
        ranges.len() > 0,
        ranges[0].0 == 0,
        forall|i: int| 0 <= i < ranges.len() - 1 ==> (#[trigger] ranges[i]).1 == ranges[i + 1].0,
        forall|i: int|
            0 <= i < ranges.len() ==> (#[trigger] ranges[i]).0 <= ranges[i].1 <= spectrum_len,
        ranges[ranges.len() - 1].1 == spectrum_len,
        forall|f: int| 0 <= f < frames.len() ==> frame_wf(#[trigger] frames[f], spectrum_len),
        forall|b: int|
            0 <= b < ranges.len() ==> #[trigger] totals[b] == frames_band_total(
                frames,
                w,
                ranges[b].0 as int,
                ranges[b].1 as int,
            ),
    ensures
        crate::power::sum_u128(totals) == frames_total_power(frames, w, spectrum_len),
    decreases frames.len(),
{
    let n = ranges.len() as int;
    if frames.len() == 0 {
        crate::power::lemma_sum_u128_zero(totals);
    } else {
        let rest = frames.drop_last();
        let last = frames.last();
        let prev = Seq::new(
            n as nat,
            |b: int| frames_band_total(rest, w, ranges[b].0 as int, ranges[b].1 as int) as u128,
        );
        let frame_ps = Seq::new(
            n as nat,
            |b: int| spec_band_power(last, w, ranges[b].0 as int, ranges[b].1 as int) as u128,
        );
        assert forall|f: int| 0 <= f < rest.len() implies frame_wf(
            #[trigger] rest[f],
            spectrum_len,
        ) by {
            assert(rest[f] == frames[f]);
        }
        assert forall|b: int|
            0 <= b < n implies {
                &&& #[trigger] prev[b] == frames_band_total(
                    rest,
                    w,
                    ranges[b].0 as int,
                    ranges[b].1 as int,
                )
                &&& frame_ps[b] == spec_band_power(
                    last,
                    w,
                    ranges[b].0 as int,
                    ranges[b].1 as int,
                )
                &&& totals[b] == prev[b] + frame_ps[b]
            } by {
            let x = frames_band_total(rest, w, ranges[b].0 as int, ranges[b].1 as int);
            let y = spec_band_power(last, w, ranges[b].0 as int, ranges[b].1 as int);
            lemma_frames_total_bounds(
                rest,
                w,
                ranges[b].0 as int,
                ranges[b].1 as int,
                spectrum_len,
            );
            lemma_band_power_cap(last, w, ranges[b].0 as int, ranges[b].1 as int);
            assert(totals[b] == x + y);
        }
        assert forall|b: int| 0 <= b < n implies #[trigger] frame_ps[b] == spec_band_power(
            last,
            w,
            ranges[b].0 as int,
            ranges[b].1 as int,
        ) by {
            assert(prev[b] == frames_band_total(rest, w, ranges[b].0 as int, ranges[b].1 as int));
        }
        lemma_frames_band_exchange(rest, w, ranges, prev, spectrum_len);
        crate::power::lemma_band_powers_cover(last, w, ranges, frame_ps);
        crate::power::lemma_sum_u128_pointwise_add(prev, frame_ps, totals);
    }
}

impl StatsSession {
    /// No energy is lost or double-counted across bands: with contiguous
    /// bin ranges covering the whole spectrum (as the fixed band table
    /// yields), the session's raw band totals sum to the total raw spectral
    /// power of every frame it has seen, and its K-weighted totals to the
    /// total weighted power.
    pub proof fn lemma_band_totals_cover_everything(self)
        requires
            self.wf(),
            self.ranges@.len() > 0,
            self.ranges@[0].0 == 0,
            forall|i: int|
                0 <= i < self.ranges@.len() - 1 ==> (#[trigger] self.ranges@[i]).1
                    == self.ranges@[i + 1].0,
            self.ranges@[self.ranges@.len() - 1].1 == self.spectrum_len,
        ensures
            crate::power::sum_u128(self.raw_powers@) == frames_total_power(
                self.frames@,
                None,
                self.spectrum_len as int,
            ),
            crate::power::sum_u128(self.k_powers@) == frames_total_power(
                self.frames@,
                Some(self.k_table@),
                self.spectrum_len as int,
            ),
    {
        lemma_frames_band_exchange(
            self.frames@,
            None,
            self.ranges@,
            self.raw_powers@,
            self.spectrum_len as int,
        );
        lemma_frames_band_exchange(
            self.frames@,
            Some(self.k_table@),
            self.ranges@,
            self.k_powers@,
            self.spectrum_len as int,
        );
    }
}

/// The number of whole frames a buffer yields: frame `k` starts at sample
/// `k * hop_size` and must fit entirely in the buffer.
pub open spec fn spec_total_frames(samples_len: int, fft_size: int, hop_size: int) -> int
    recommends
        fft_size >= 1,
        hop_size >= 1,
{
    if samples_len >= fft_size {
        (samples_len - fft_size) / hop_size + 1
    } else {
        0
    }
}

/// Computes the frame count; `k` is a valid frame index exactly when frame
/// `k` fits in the buffer.
pub fn total_frames(samples_len: usize, fft_size: usize, hop_size: usize) -> (r: usize)
    requires
        fft_size >= 1,
        hop_size >= 1,
    ensures
        r == spec_total_frames(samples_len as int, fft_size as int, hop_size as int),
        forall|k: int| 0 <= k ==> ((k < r) <==> (#[trigger] (k * hop_size) + fft_size <= samples_len)),
{
    let r: usize = if samples_len >= fft_size {
        proof {
            lemma_div_is_ordered_by_denominator(
                samples_len as int - fft_size as int,
                1,
                hop_size as int,
            );
        }
        (samples_len - fft_size) / hop_size + 1
    } else {
        0
    };
    proof {
        assert forall|k: int| 0 <= k implies ((k < r) <==> (#[trigger] (k * hop_size) + fft_size
            <= samples_len)) by {
            if samples_len >= fft_size {
                let rest = samples_len as int - fft_size as int;
                let hop = hop_size as int;
                if k < r {
                    lemma_mul_inequality(k, rest / hop, hop);
                    lemma_fundamental_div_mod(rest, hop);
                    lemma_mod_bound(rest, hop);
                }
                if k * hop + fft_size <= samples_len {
                    lemma_div_is_ordered(k * hop, rest, hop);
                    lemma_div_multiples_vanish(k, hop);
                }
            } else {
                if k * hop_size + fft_size <= samples_len {
                    lemma_mul_inequality(0, k, hop_size as int);
                }
            }
        }
    }
    r
}

/// The output of a finished session: raw and K-weighted per-band power
/// totals (unnormalised) and the per-band dynamics, `None` standing for the
/// "not significant" sentinel.
pub struct StatsResult {
    pub raw_powers: Vec<u128>,
    pub k_powers: Vec<u128>,
    pub dynamics: Vec<Option<u64>>,
}

/// A running analysis over one sample buffer.
pub struct StatsSession {
    pub ranges: Vec<(usize, usize)>,
    pub k_table: Vec<u64>,
    pub spectrum_len: usize,
    pub raw_powers: Vec<u128>,
    pub k_powers: Vec<u128>,
    pub db_series: Vec<Vec<i64>>,
    pub tracker: ProgressTracker,
    pub frames: Ghost<Seq<Seq<u64>>>,
}

impl StatsSession {
    pub open spec fn wf(self) -> bool {
        &&& self.spectrum_len <= MAX_SPECTRUM_LEN
        &&& forall|b: int|
            0 <= b < self.ranges@.len() ==> (#[trigger] self.ranges@[b]).0 <= self.ranges@[b].1
                <= self.spectrum_len
        &&& self.k_table@.len() == self.spectrum_len
        // The filter is high-pass at DC, so the DC bin carries no K-weight.
        &&& self.k_table@.len() > 0 ==> self.k_table@[0] == 0
        &&& forall|i: int| 0 <= i < self.k_table@.len() ==> #[trigger] self.k_table@[i] <= MAX_K_WEIGHT
        &&& self.raw_powers@.len() == self.ranges@.len()
        &&& self.k_powers@.len() == self.ranges@.len()
        &&& self.db_series@.len() == self.ranges@.len()
        &&& self.tracker.wf()
        &&& self.tracker.total <= MAX_FRAMES
        &&& self.tracker.done == self.frames@.len()
        &&& forall|f: int|
            0 <= f < self.frames@.len() ==> frame_wf(
                #[trigger] self.frames@[f],
                self.spectrum_len as int,
            )
        &&& forall|b: int|
            0 <= b < self.ranges@.len() ==> #[trigger] self.raw_powers@[b] == frames_band_total(
                self.frames@,
                None,
                self.ranges@[b].0 as int,
                self.ranges@[b].1 as int,
            )
        &&& forall|b: int|
            0 <= b < self.ranges@.len() ==> #[trigger] self.k_powers@[b] == frames_band_total(
                self.frames@,
                Some(self.k_table@),
                self.ranges@[b].0 as int,
                self.ranges@[b].1 as int,
            )
        &&& forall|b: int|
            0 <= b < self.db_series@.len() ==> (#[trigger] self.db_series@[b])@.len()
                <= MAX_DB_SAMPLES
        &&& forall|b: int, j: int|
            0 <= b < self.db_series@.len() && 0 <= j < self.db_series@[b]@.len()
                ==> -MAX_ABS_MILLI_DB <= #[trigger] self.db_series@[b]@[j] <= MAX_ABS_MILLI_DB
    }

    /// Starts a session over `bands` for frames of `fft_size` samples at
    /// `sample_rate`, with `k_table` holding one fixed-point K-weight per
    /// bin and `frame_count` frames expected.
    pub fn new(
        bands: &Vec<Band>,
        fft_size: usize,
        sample_rate: u32,
        k_table: Vec<u64>,
        frame_count: usize,
    ) -> (r: StatsSession)
        requires
            forall|i: int| 0 <= i < bands@.len() ==> (#[trigger] bands@[i]).wf(),
            2 <= fft_size <= MAX_FFT_SIZE,
            sample_rate >= 1,
            k_table@.len() == fft_size / 2,
            k_table@.len() > 0 ==> k_table@[0] == 0,
            forall|i: int| 0 <= i < k_table@.len() ==> #[trigger] k_table@[i] <= MAX_K_WEIGHT,
            0 < frame_count <= MAX_FRAMES,
        ensures
            r.wf(),
            r.spectrum_len == fft_size / 2,
            r.frames@ == Seq::<Seq<u64>>::empty(),
            r.tracker.total == frame_count,
            r.tracker.done == 0,
            r.ranges@.len() == bands@.len(),
            forall|b: int|
                0 <= b < bands@.len() ==> (#[trigger] r.ranges@[b]).0 == spec_low_bin(
                    bands@[b],
                    fft_size as nat,
                    sample_rate as nat,
                ) && r.ranges@[b].1 == spec_high_bin(
                    bands@[b],
                    fft_size as nat,
                    sample_rate as nat,
                ),
            forall|b: int| 0 <= b < bands@.len() ==> #[trigger] r.raw_powers@[b] == 0,
            forall|b: int| 0 <= b < bands@.len() ==> #[trigger] r.k_powers@[b] == 0,
            forall|b: int| 0 <= b < bands@.len() ==> (#[trigger] r.db_series@[b])@.len() == 0,
    {
        let ranges = band_bin_ranges(bands, fft_size, sample_rate);
        let n = ranges.len();
        let mut raw_powers: Vec<u128> = Vec::new();
        let mut k_powers: Vec<u128> = Vec::new();
        let mut db_series: Vec<Vec<i64>> = Vec::new();
        let mut i: usize = 0;
        while i < n
            invariant
                i <= n,
                raw_powers@.len() == i,
                k_powers@.len() == i,
                db_series@.len() == i,
                forall|b: int| 0 <= b < i ==> #[trigger] raw_powers@[b] == 0,
                forall|b: int| 0 <= b < i ==> #[trigger] k_powers@[b] == 0,
                forall|b: int| 0 <= b < i ==> (#[trigger] db_series@[b])@.len() == 0,
            decreases n - i,
        {
            raw_powers.push(0);
            k_powers.push(0);
            db_series.push(Vec::new());
            i = i + 1;
        }
        let tracker = ProgressTracker::new(frame_count);
        StatsSession {
            ranges,
            k_table,
            spectrum_len: fft_size / 2,
            raw_powers,
            k_powers,
            db_series,
            tracker,
            frames: Ghost(Seq::empty()),
        }
    }

    /// Feeds one frame's power spectrum into the session: adds each band's
    /// raw and K-weighted power onto the running totals, advances progress,
    /// and returns the frame's per-band raw powers together with the
    /// progress percentage if it changed.
    pub fn process_frame(&mut self, spectrum: &Vec<u64>) -> (r: (Vec<u128>, Option<u8>))
        requires
            old(self).wf(),
            old(self).tracker.done < old(self).tracker.total,
            spectrum@.len() == old(self).spectrum_len,
            forall|i: int| 0 <= i < spectrum@.len() ==> #[trigger] spectrum@[i] <= MAX_BIN_UNITS,
        ensures
            final(self).wf(),
            final(self).frames@ == old(self).frames@.push(spectrum@),
            final(self).ranges == old(self).ranges,
            final(self).k_table == old(self).k_table,
            final(self).spectrum_len == old(self).spectrum_len,
            final(self).db_series == old(self).db_series,
            final(self).tracker.total == old(self).tracker.total,
            final(self).tracker.done == old(self).tracker.done + 1,
            r.0@.len() == old(self).ranges@.len(),
            forall|b: int|
                0 <= b < r.0@.len() ==> #[trigger] r.0@[b] == spec_band_power(
                    spectrum@,
                    None,
                    old(self).ranges@[b].0 as int,
                    old(self).ranges@[b].1 as int,
                ),
            forall|b: int|
                0 <= b < r.0@.len() ==> #[trigger] final(self).raw_powers@[b] == old(
                    self,
                ).raw_powers@[b] + r.0@[b],
            forall|b: int|
                0 <= b < r.0@.len() ==> #[trigger] final(self).k_powers@[b] == old(
                    self,
                ).k_powers@[b] + spec_band_power(
                    spectrum@,
                    Some(old(self).k_table@),
                    old(self).ranges@[b].0 as int,
                    old(self).ranges@[b].1 as int,
                ),
            match r.1 {
                Some(p) => p == spec_percent(
                    final(self).tracker.done as int,
                    final(self).tracker.total as int,
                ) && final(self).tracker.reported@ == old(self).tracker.reported@.push(p),
                None => final(self).tracker.reported@ == old(self).tracker.reported@,
            },
    {
        let raw_frame = frame_band_powers(spectrum, None, &self.ranges);
        let k_frame = frame_band_powers(spectrum, Some(&self.k_table), &self.ranges);
        proof {
            assert forall|b: int| 0 <= b < self.ranges@.len() implies self.raw_powers@[b]
                + raw_frame@[b] <= u128::MAX && self.k_powers@[b] + k_frame@[b] <= u128::MAX by {
                let lo = self.ranges@[b].0 as int;
                let hi = self.ranges@[b].1 as int;
                lemma_frames_total_bounds(self.frames@, None, lo, hi, self.spectrum_len as int);
                lemma_frames_total_bounds(
                    self.frames@,
                    Some(self.k_table@),
                    lo,
                    hi,
                    self.spectrum_len as int,
                );
                lemma_band_power_cap(spectrum@, None, lo, hi);
                lemma_band_power_cap(spectrum@, Some(self.k_table@), lo, hi);
                lemma_mul_inequality(
                    self.frames@.len() as int,
                    MAX_FRAMES as int - 1,
                    spec_frame_power_cap(),
                );
            }
        }
        accumulate_powers(&mut self.raw_powers, &raw_frame);
        accumulate_powers(&mut self.k_powers, &k_frame);
        let prog = self.tracker.advance();
        proof {
            self.frames@ = self.frames@.push(spectrum@);
            assert(self.frames@.drop_last() =~= old(self).frames@);
            assert forall|f: int| 0 <= f < self.frames@.len() implies frame_wf(
                #[trigger] self.frames@[f],
                self.spectrum_len as int,
            ) by {
                if f < self.frames@.len() - 1 {
                    assert(self.frames@[f] == old(self).frames@[f]);
                }
            }
        }
        (raw_frame, prog)
    }

    /// Records one frame's decibel value for one band, for the dynamics
    /// statistic. The caller only converts to millidecibels; which frames
    /// qualify is decided by [`crate::db_floor_exceeded`].
    pub fn record_db(&mut self, band: usize, milli_db: i64)
        requires
            old(self).wf(),
            band < old(self).db_series@.len(),
            old(self).db_series@[band as int]@.len() < MAX_DB_SAMPLES,
            -MAX_ABS_MILLI_DB <= milli_db <= MAX_ABS_MILLI_DB,
        ensures
            final(self).wf(),
            final(self).db_series@[band as int]@ == old(self).db_series@[band as int]@.push(
                milli_db,
            ),
            final(self).db_series@.len() == old(self).db_series@.len(),
            forall|b: int|
                0 <= b < old(self).db_series@.len() && b != band ==> final(self).db_series@[b]
                    == old(self).db_series@[b],
            final(self).ranges == old(self).ranges,
            final(self).k_table == old(self).k_table,
            final(self).spectrum_len == old(self).spectrum_len,
            final(self).raw_powers == old(self).raw_powers,
            final(self).k_powers == old(self).k_powers,
            final(self).tracker == old(self).tracker,
            final(self).frames == old(self).frames,
    {
        let mut inner = self.db_series.remove(band);
        inner.push(milli_db);
        self.db_series.insert(band, inner);
        proof {
            assert forall|b: int|
                0 <= b < old(self).db_series@.len() && b != band implies self.db_series@[b] == old(
                self,
            ).db_series@[b] by {
                if b < band {
                } else {
                    assert(old(self).db_series@.remove(band as int)[b - 1] == old(
                        self,
                    ).db_series@[b]);
                }
            }
        }
    }

    /// Finishes the session: hands back the per-band raw and K-weighted
    /// totals together with each band's dynamics score (`None` exactly for
    /// a band whose decibel series stayed empty).
    pub fn finish(self) -> (r: StatsResult)
        requires
            self.wf(),
        ensures
            r.raw_powers == self.raw_powers,
            r.k_powers == self.k_powers,
            r.dynamics@.len() == self.db_series@.len(),
            forall|b: int|
                0 <= b < r.dynamics@.len() ==> match #[trigger] r.dynamics@[b] {
                    None => self.db_series@[b]@.len() == 0,
                    Some(d) => self.db_series@[b]@.len() > 0 && d == spec_dynamics_value(
                        self.db_series@[b]@,
                    ),
                },
    {
        let mut dynamics: Vec<Option<u64>> = Vec::new();
        let n = self.db_series.len();
        let mut b: usize = 0;
        while b < n
            invariant
                b <= n,
                n == self.db_series@.len(),
                self.wf(),
                dynamics@.len() == b,
                forall|x: int|
                    0 <= x < b ==> match #[trigger] dynamics@[x] {
                        None => self.db_series@[x]@.len() == 0,
                        Some(d) => self.db_series@[x]@.len() > 0 && d == spec_dynamics_value(
                            self.db_series@[x]@,
                        ),
                    },
            decreases n - b,
        {
            let d = band_dynamics(&self.db_series[b]);
            dynamics.push(d);
            b = b + 1;
        }
        StatsResult { raw_powers: self.raw_powers, k_powers: self.k_powers, dynamics }
    }
}

} // verus!

//! Band table, bin mapping, frame counting and progress tests.

use bandstat::bins::band_bin_range;
use bandstat::dynamics::band_dynamics;
use bandstat::power::frame_band_powers;
use bandstat::progress::ProgressTracker;
use bandstat::session::{total_frames, StatsSession};
use bandstat::{check_sample_rate, db_floor_exceeded, get_bands, max_chart_files};

#[test]
fn test_band_table_shape() {
    let bands = get_bands();
    assert_eq!(bands.len(), 14);
    assert_eq!(bands[0].label, "DC");
    assert_eq!(bands[0].low_hz, 0);
    assert_eq!(bands[0].high_hz, Some(20));
    assert_eq!(bands[6].label, "MID");
    assert_eq!(bands[6].low_hz, 500);
    assert_eq!(bands[6].high_hz, Some(1000));
    assert_eq!(bands[13].label, "AIR");
    assert_eq!(bands[13].low_hz, 18000);
    assert_eq!(bands[13].high_hz, None);
}

#[test]
fn test_band_table_contiguous() {
    let bands = get_bands();
    for i in 0..bands.len() - 1 {
        assert_eq!(bands[i].high_hz, Some(bands[i + 1].low_hz));
    }
}

#[test]
fn test_bin_ranges_exact() {
    let bands = get_bands();
    // 16384-point transform at 48 kHz: 2.9296875 Hz per bin.
    let (lo, hi) = band_bin_range(&bands[6], 16384, 48000);
    assert_eq!(lo, 170); // floor(500 * 16384 / 48000)
    assert_eq!(hi, 341); // floor(1000 * 16384 / 48000)
    let (lo, hi) = band_bin_range(&bands[13], 16384, 48000);
    assert_eq!(lo, 6144); // floor(18000 * 16384 / 48000)
    assert_eq!(hi, 8192); // open-ended band ends at Nyquist
}

#[test]
fn test_bin_ranges_clamp_to_nyquist() {
    let bands = get_bands();
    // At 8 kHz everything above 4 kHz is beyond Nyquist.
    let (lo, hi) = band_bin_range(&bands[12], 16384, 8000);
    assert_eq!(lo, 8192);
    assert_eq!(hi, 8192);
}

#[test]
fn test_frame_band_powers_cover_spectrum() {
    // Band powers of one frame add up to the whole spectrum's power:
    // nothing is counted twice and nothing is dropped.
    let bands = get_bands();
    let ranges: Vec<(usize, usize)> = bands
        .iter()
        .map(|b| band_bin_range(b, 16384, 48000))
        .collect();
    let spectrum: Vec<u64> = (0..8192u64).map(|i| (i * 37) % 1000).collect();
    let powers = frame_band_powers(&spectrum, None, &ranges);
    let total: u128 = powers.iter().sum();
    let expected: u128 = spectrum.iter().map(|&v| v as u128).sum();
    assert_eq!(total, expected);
}

#[test]
fn test_check_sample_rate_known_rates() {
    assert!(check_sample_rate(48000).is_none());
    assert!(check_sample_rate(44100).is_none());
}

#[test]
fn test_check_sample_rate_warns() {
    let msg = check_sample_rate(96000).expect("96 kHz should warn");
    assert_eq!(
        msg,
        "Warning: K-weighting coefficients are optimized for 48kHz/44.1kHz. \
         Using approximate values for 96000Hz."
    );
}

#[test]
fn test_max_chart_files_is_four() {
    assert_eq!(max_chart_files(), 4);
}

#[test]
fn test_total_frames_counts() {
    assert_eq!(total_frames(0, 16384, 2048), 0);
    assert_eq!(total_frames(16383, 16384, 2048), 0);
    assert_eq!(total_frames(16384, 16384, 2048), 1);
    assert_eq!(total_frames(16384 + 2047, 16384, 2048), 1);
    assert_eq!(total_frames(16384 + 2048, 16384, 2048), 2);
    assert_eq!(total_frames(48000 * 3, 16384, 2048), 63);
}

#[test]
fn test_progress_strictly_increasing_ends_at_100() {
    // Seven frames: the reported percentages never repeat, never decrease,
    // and the last one is exactly 100.
    let mut tracker = ProgressTracker::new(7);
    let mut reported: Vec<u8> = Vec::new();
    for _ in 0..7 {
        if let Some(p) = tracker.advance() {
            reported.push(p);
        }
    }
    assert!(!reported.is_empty());
    assert_eq!(*reported.last().unwrap(), 100);
    for w in reported.windows(2) {
        assert!(w[0] < w[1]);
    }
}

#[test]
fn test_progress_single_frame() {
    let mut tracker = ProgressTracker::new(1);
    assert_eq!(tracker.advance(), Some(100));
}

#[test]
fn test_empty_series_gives_sentinel() {
    // An empty decibel series yields the "not significant" sentinel, not a
    // number and not zero.
    let series: Vec<i64> = Vec::new();
    assert_eq!(band_dynamics(&series), None);
    let one: Vec<i64> = vec![-30_000];
    assert!(band_dynamics(&one).is_some());
}

#[test]
fn test_db_floor() {
    assert!(!db_floor_exceeded(0));
    assert!(db_floor_exceeded(1));
}

#[test]
fn test_session_exact_accumulation() {
    // Two identical all-ones frames through a small session: every bin is
    // counted exactly once per frame across the bands, and progress is
    // reported at 50 and 100.
    let bands = get_bands();
    let k_table = vec![0u64; 128];
    let mut session = StatsSession::new(&bands, 256, 48000, k_table, 2);
    let spectrum = vec![1u64; 128];

    let (frame_powers, progress) = session.process_frame(&spectrum);
    assert_eq!(progress, Some(50));
    let frame_total: u128 = frame_powers.iter().sum();
    assert_eq!(frame_total, 128);

    let (_, progress) = session.process_frame(&spectrum);
    assert_eq!(progress, Some(100));

    let result = session.finish();
    let raw_total: u128 = result.raw_powers.iter().sum();
    assert_eq!(raw_total, 256);
    // An all-zero K-weight table collects nothing.
    assert!(result.k_powers.iter().all(|&p| p == 0));
    // No decibel values were recorded, so every band is at the sentinel.
    assert!(result.dynamics.iter().all(|d| d.is_none()));
}

#[test]
fn test_session_constant_db_series_zero_dynamics() {
    // A band whose recorded frame powers never move scores exactly zero
    // dynamics; an unrecorded band stays at the sentinel.
    let bands = get_bands();
    let k_table = vec![0u64; 128];
    let mut session = StatsSession::new(&bands, 256, 48000, k_table, 1);
    let spectrum = vec![1u64; 128];
    let _ = session.process_frame(&spectrum);
    session.record_db(3, -12_000);
    session.record_db(3, -12_000);
    session.record_db(3, -12_000);
    let result = session.finish();
    assert_eq!(result.dynamics[3], Some(0));
    assert_eq!(result.dynamics[4], None);
}

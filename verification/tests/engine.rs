//! End-to-end engine tests: real signals are windowed and transformed with
//! a complex FFT, the spectra are quantised to the engine's fixed-point
//! units, and the verified session does all accumulation and statistics.

use rustfft::num_complex::Complex;
use rustfft::FftPlanner;

use bandstat::power::{powers_to_percentages, MAX_BIN_UNITS};
use bandstat::session::{total_frames, StatsResult, StatsSession};
use bandstat::{db_floor_exceeded, get_bands, FFT_SIZE, HOP_SIZE};

/// Units of spectral power per unit of squared magnitude.
const POWER_UNIT_SCALE: f64 = 1048576.0; // 2^20

/// Units of K-weight per unit of squared filter gain.
const K_UNIT_SCALE: f64 = 4294967296.0; // 2^32

fn hanning(size: usize) -> Vec<f32> {
    let pi2 = 2.0 * std::f32::consts::PI;
    (0..size)
        .map(|i| 0.5 * (1.0 - (pi2 * i as f32 / (size - 1) as f32).cos()))
        .collect()
}

/// ITU-R BS.1770-4 K-weighting magnitude response (pre-filter cascaded with
/// the RLB high-pass), evaluated analytically on the unit circle.
fn k_weight(freq: f64, sample_rate: f64) -> f64 {
    if freq <= 0.0 {
        return 0.0;
    }
    let omega = 2.0 * std::f64::consts::PI * freq / sample_rate;
    let (cos_w, sin_w) = (omega.cos(), omega.sin());
    let (cos_2w, sin_2w) = ((2.0 * omega).cos(), (2.0 * omega).sin());

    let (b0_pre, b1_pre, b2_pre, a1_pre, a2_pre) = if (sample_rate - 48000.0).abs() < 1.0 {
        (
            1.53512485958697,
            -2.69169618940638,
            1.19839281085285,
            -1.69065929318241,
            0.73248077421585,
        )
    } else {
        (
            1.5308412300503478,
            -2.6509799951547297,
            1.1690790799215869,
            -1.6636551132560204,
            0.7125954280732254,
        )
    };
    let num_re = b0_pre + b1_pre * cos_w + b2_pre * cos_2w;
    let num_im = -b1_pre * sin_w - b2_pre * sin_2w;
    let den_re = 1.0 + a1_pre * cos_w + a2_pre * cos_2w;
    let den_im = -a1_pre * sin_w - a2_pre * sin_2w;
    let pre_mag_sq = (num_re * num_re + num_im * num_im) / (den_re * den_re + den_im * den_im);

    let (b0_rlb, b1_rlb, b2_rlb, a1_rlb, a2_rlb) = if (sample_rate - 48000.0).abs() < 1.0 {
        (1.0, -2.0, 1.0, -1.99004745483398, 0.99007225036621)
    } else {
        (
            0.9994908682456236,
            -1.9989817364912472,
            0.9994908682456236,
            -1.9989817364912472,
            0.9989826099040272,
        )
    };
    let num_re = b0_rlb + b1_rlb * cos_w + b2_rlb * cos_2w;
    let num_im = -b1_rlb * sin_w - b2_rlb * sin_2w;
    let den_re = 1.0 + a1_rlb * cos_w + a2_rlb * cos_2w;
    let den_im = -a1_rlb * sin_w - a2_rlb * sin_2w;
    let rlb_mag_sq = (num_re * num_re + num_im * num_im) / (den_re * den_re + den_im * den_im);

    (pre_mag_sq * rlb_mag_sq).sqrt()
}

fn k_table_units(fft_size: usize, sample_rate: u32) -> Vec<u64> {
    let freq_per_bin = sample_rate as f64 / fft_size as f64;
    (0..fft_size / 2)
        .map(|bin| {
            let w = k_weight(bin as f64 * freq_per_bin, sample_rate as f64);
            (w * w * K_UNIT_SCALE).round() as u64
        })
        .collect()
}

fn quantize_power(p: f64) -> u64 {
    let units = (p * POWER_UNIT_SCALE).round();
    if units <= 0.0 {
        0
    } else if units >= MAX_BIN_UNITS as f64 {
        MAX_BIN_UNITS
    } else {
        units as u64
    }
}

fn sine(freq: f64, sample_rate: u32, duration_secs: f64, amp: f32) -> Vec<f32> {
    let n = (sample_rate as f64 * duration_secs) as usize;
    (0..n)
        .map(|i| amp * (2.0 * std::f64::consts::PI * freq * i as f64 / sample_rate as f64).sin() as f32)
        .collect()
}

fn run_session(samples: &[f32], sample_rate: u32) -> (StatsResult, Vec<u8>) {
    let bands = get_bands();
    let frames = total_frames(samples.len(), FFT_SIZE, HOP_SIZE);
    assert!(frames > 0, "buffer too short for one frame");
    let k_table = k_table_units(FFT_SIZE, sample_rate);
    let mut session = StatsSession::new(&bands, FFT_SIZE, sample_rate, k_table, frames);
    let window = hanning(FFT_SIZE);
    let mut planner = FftPlanner::new();
    let fft = planner.plan_fft_forward(FFT_SIZE);
    let mut reported: Vec<u8> = Vec::new();

    let mut pos = 0;
    while pos + FFT_SIZE <= samples.len() {
        let mut buffer: Vec<Complex<f32>> = (0..FFT_SIZE)
            .map(|j| Complex::new(samples[pos + j] * window[j], 0.0))
            .collect();
        fft.process(&mut buffer);
        let spectrum: Vec<u64> = buffer[..FFT_SIZE / 2]
            .iter()
            .map(|c| quantize_power(c.norm_sqr() as f64))
            .collect();
        let (frame_powers, progress) = session.process_frame(&spectrum);
        if let Some(p) = progress {
            reported.push(p);
        }
        for (b, &p) in frame_powers.iter().enumerate() {
            if db_floor_exceeded(p) {
                let milli = (10.0 * (p as f64).log10() * 1000.0)
                    .round()
                    .clamp(-1_000_000_000.0, 1_000_000_000.0) as i64;
                session.record_db(b, milli);
            }
        }
        pos += HOP_SIZE;
    }
    (session.finish(), reported)
}

fn raw_pct(result: &StatsResult) -> Vec<f64> {
    powers_to_percentages(&result.raw_powers)
        .iter()
        .map(|p| *p as f64 / 1_000_000.0)
        .collect()
}

fn k_pct(result: &StatsResult) -> Vec<f64> {
    powers_to_percentages(&result.k_powers)
        .iter()
        .map(|p| *p as f64 / 1_000_000.0)
        .collect()
}

// Band indices in the fixed table.
const BASS: usize = 3;
const MID: usize = 6;
const UMID: usize = 7;
const PRES: usize = 9;

#[test]
fn test_sine_750hz_mostly_mid() {
    let samples = sine(750.0, 48000, 1.0, 0.5);
    let (result, _) = run_session(&samples, 48000);
    let pct = raw_pct(&result);
    assert!(
        pct[MID] > 90.0,
        "750Hz sine should have >90% power in MID band, got {}%",
        pct[MID]
    );
}

#[test]
fn test_sine_100hz_mostly_bass() {
    let samples = sine(100.0, 48000, 1.0, 0.5);
    let (result, _) = run_session(&samples, 48000);
    let pct = raw_pct(&result);
    assert!(
        pct[BASS] > 90.0,
        "100Hz sine should have >90% power in BASS band, got {}%",
        pct[BASS]
    );
}

#[test]
fn test_sine_5khz_mostly_pres() {
    let samples = sine(5000.0, 48000, 1.0, 0.5);
    let (result, _) = run_session(&samples, 48000);
    let pct = raw_pct(&result);
    assert!(
        pct[PRES] > 90.0,
        "5kHz sine should have >90% power in PRES band, got {}%",
        pct[PRES]
    );
}

#[test]
fn test_two_tone_k_weighting_shifts_balance() {
    // Equal-amplitude 100 Hz + 2000 Hz: K-weighting attenuates the bass and
    // boosts the upper mids, so the weighted shares move accordingly.
    let low = sine(100.0, 48000, 1.0, 0.4);
    let high = sine(2000.0, 48000, 1.0, 0.4);
    let samples: Vec<f32> = low.iter().zip(&high).map(|(a, b)| a + b).collect();
    let (result, _) = run_session(&samples, 48000);
    let raw = raw_pct(&result);
    let k = k_pct(&result);
    assert!(
        k[BASS] < raw[BASS],
        "K-weighting should reduce BASS share: raw {}%, K {}%",
        raw[BASS],
        k[BASS]
    );
    assert!(
        k[UMID + 1] > raw[UMID + 1] || k[UMID] > raw[UMID],
        "K-weighting should boost the 2kHz tone's share"
    );
}

#[test]
fn test_dynamics_constant_vs_modulated() {
    // A constant-amplitude tone scores under 1 dB of dynamics in its band;
    // the same tone under a slow multi-cycle envelope scores over 1 dB.
    let constant = sine(1500.0, 48000, 3.0, 0.5);
    let (result, _) = run_session(&constant, 48000);
    let dynamics = result.dynamics[UMID].expect("UMID should have frames");
    assert!(
        (dynamics as f64 / 1000.0) < 1.0,
        "constant tone dynamics should be < 1 dB, got {}",
        dynamics as f64 / 1000.0
    );

    let modulated: Vec<f32> = constant
        .iter()
        .enumerate()
        .map(|(i, s)| {
            let t = i as f64 / 48000.0;
            let env = 0.55 + 0.45 * (2.0 * std::f64::consts::PI * 2.0 * t).sin();
            (*s as f64 * env) as f32
        })
        .collect();
    let (result, _) = run_session(&modulated, 48000);
    let dynamics = result.dynamics[UMID].expect("UMID should have frames");
    assert!(
        (dynamics as f64 / 1000.0) > 1.0,
        "modulated tone dynamics should be > 1 dB, got {}",
        dynamics as f64 / 1000.0
    );
}

#[test]
fn test_progress_reports_increase_to_100() {
    let samples = sine(440.0, 48000, 2.0, 0.5);
    let (_, reported) = run_session(&samples, 48000);
    assert!(!reported.is_empty());
    assert_eq!(*reported.last().unwrap(), 100);
    for w in reported.windows(2) {
        assert!(w[0] < w[1], "progress must never repeat or decrease");
    }
}

#[test]
fn test_silence_gives_zeros_and_sentinels() {
    let samples = vec![0.0f32; 48000];
    let (result, _) = run_session(&samples, 48000);
    assert!(result.raw_powers.iter().all(|&p| p == 0));
    let pct = raw_pct(&result);
    assert!(pct.iter().all(|&p| p == 0.0));
    assert!(result.dynamics.iter().all(|d| d.is_none()));
}

#[test]
fn test_k_weight_reference_points() {
    // The filter itself: zero at DC, near unity at 1 kHz, boosting at
    // 4 kHz, attenuating at 100 Hz.
    assert_eq!(k_weight(0.0, 48000.0), 0.0);
    let w1k = k_weight(1000.0, 48000.0);
    assert!(w1k > 0.9 && w1k < 1.1);
    assert!(k_weight(4000.0, 48000.0) > 1.0);
    assert!(k_weight(100.0, 48000.0) < w1k);
}

//! Statistics and percentage tests, driven through the library's exact
//! integer engine: decibel values in millidecibels, percentages in
//! `PCT_SCALE` units per percentage point.

use bandstat::dynamics::std_dev_milli;
use bandstat::power::powers_to_percentages;

fn std_dev(values: &[f64]) -> f64 {
    let milli: Vec<i64> = values.iter().map(|v| (v * 1000.0).round() as i64).collect();
    std_dev_milli(&milli) as f64 / 1000.0
}

fn percentages(powers: &[u128]) -> Vec<f64> {
    let v: Vec<u128> = powers.to_vec();
    powers_to_percentages(&v)
        .iter()
        .map(|p| *p as f64 / 1_000_000.0)
        .collect()
}

#[test]
fn analysis_test_std_dev_constant_values() {
    // Constant values should have std dev = 0
    let values = vec![5.0, 5.0, 5.0, 5.0];
    let sd = std_dev(&values);
    assert!(
        sd.abs() < 1e-10,
        "Constant values should have σ=0, got {}",
        sd
    );
}

#[test]
fn analysis_test_std_dev_known_values() {
    // σ of [2, 4, 4, 4, 5, 5, 7, 9] = 2.0
    let values = vec![2.0, 4.0, 4.0, 4.0, 5.0, 5.0, 7.0, 9.0];
    let sd = std_dev(&values);
    assert!((sd - 2.0).abs() < 1e-10, "Expected σ=2.0, got {}", sd);
}

#[test]
fn analysis_test_std_dev_empty() {
    let sd = std_dev(&[]);
    assert!(sd == 0.0);
}

#[test]
fn tests_test_std_dev_constant_values() {
    // Constant values should have std dev = 0
    let values = vec![5.0, 5.0, 5.0, 5.0];
    let sd = std_dev(&values);
    assert!(
        sd.abs() < 1e-10,
        "Constant values should have σ=0, got {}",
        sd
    );
}

#[test]
fn tests_test_std_dev_known_values() {
    // σ of [2, 4, 4, 4, 5, 5, 7, 9] = 2.0
    let values = vec![2.0, 4.0, 4.0, 4.0, 5.0, 5.0, 7.0, 9.0];
    let sd = std_dev(&values);
    assert!((sd - 2.0).abs() < 1e-10, "Expected σ=2.0, got {}", sd);
}

#[test]
fn tests_test_std_dev_empty() {
    let sd = std_dev(&[]);
    assert!(sd == 0.0);
}

#[test]
fn analysis_test_powers_to_percentages_sum_to_100() {
    let powers = vec![10, 20, 30, 40];
    let pct = percentages(&powers);
    let sum: f64 = pct.iter().sum();
    assert!(
        (sum - 100.0).abs() < 1e-10,
        "Percentages should sum to 100, got {}",
        sum
    );
}

#[test]
fn analysis_test_powers_to_percentages_proportions() {
    let powers = vec![25, 25, 50];
    let pct = percentages(&powers);
    assert!((pct[0] - 25.0).abs() < 1e-10);
    assert!((pct[1] - 25.0).abs() < 1e-10);
    assert!((pct[2] - 50.0).abs() < 1e-10);
}

#[test]
fn analysis_test_powers_to_percentages_zero_total() {
    let powers = vec![0, 0, 0];
    let pct = percentages(&powers);
    assert!(pct.iter().all(|&p| p == 0.0));
}

#[test]
fn tests_test_powers_to_percentages_sum_to_100() {
    let powers = vec![10, 20, 30, 40];
    let pct = percentages(&powers);
    let sum: f64 = pct.iter().sum();
    assert!(
        (sum - 100.0).abs() < 1e-10,
        "Percentages should sum to 100, got {}",
        sum
    );
}

#[test]
fn tests_test_powers_to_percentages_proportions() {
    let powers = vec![25, 25, 50];
    let pct = percentages(&powers);
    assert!((pct[0] - 25.0).abs() < 1e-10);
    assert!((pct[1] - 25.0).abs() < 1e-10);
    assert!((pct[2] - 50.0).abs() < 1e-10);
}

#[test]
fn tests_test_powers_to_percentages_zero_total() {
    let powers = vec![0, 0, 0];
    let pct = percentages(&powers);
    assert!(pct.iter().all(|&p| p == 0.0));
}

#[test]
fn test_percentage_rounding_loss_is_bounded() {
    // Three equal powers cannot split 100 % exactly; the engine may lose
    // less than one percentage unit per band to rounding and never
    // overshoots.
    let v: Vec<u128> = vec![1, 1, 1];
    let pct = powers_to_percentages(&v);
    let sum_units: u64 = pct.iter().sum();
    assert!(sum_units <= 100_000_000);
    assert!(sum_units > 100_000_000 - 3);
}

#[test]
fn test_std_dev_two_values() {
    // σ of [1, 3] is exactly 1.
    let sd = std_dev(&[1.0, 3.0]);
    assert!((sd - 1.0).abs() < 1e-10, "Expected σ=1.0, got {}", sd);
}

use rmt::support::{effective_ratio, marchenko_pastur_contains, semicircle_contains};
use std::f64::consts::PI;

fn folded(ratio: f64) -> f64 {
    f64::from_bits(effective_ratio(ratio.to_bits(), (1.0 / ratio).to_bits()))
}

fn marchenko_pastur_support(ratio: f64, sigma_sq: f64) -> (f64, f64) {
    let gamma = folded(ratio);
    let lambda_plus = sigma_sq * (1.0 + gamma.sqrt()).powi(2);
    let lambda_minus = sigma_sq * (1.0 - gamma.sqrt()).powi(2);
    (lambda_minus, lambda_plus)
}

/// The density as a double: the library says where the formula holds, the
/// formula is evaluated here.
fn marchenko_pastur_density(lambda: f64, ratio: f64, sigma_sq: f64) -> f64 {
    let gamma = folded(ratio);
    let (lambda_minus, lambda_plus) = marchenko_pastur_support(ratio, sigma_sq);
    if !marchenko_pastur_contains(
        lambda.to_bits(),
        ratio.to_bits(),
        lambda_minus.to_bits(),
        lambda_plus.to_bits(),
    ) {
        return 0.0;
    }
    let sqrt_term = ((lambda_plus - lambda) * (lambda - lambda_minus)).sqrt();
    sqrt_term / (2.0 * PI * sigma_sq * gamma * lambda)
}

fn wigner_semicircle_density(lambda: f64, sigma: f64) -> f64 {
    let r = 2.0 * sigma;
    if !semicircle_contains(lambda.to_bits(), r.to_bits()) {
        return 0.0;
    }
    (2.0 / (PI * r * r)) * (r * r - lambda * lambda).sqrt()
}

#[test]
fn test_marchenko_pastur_normalization() {
    let ratio = 0.5;
    let (lambda_min, lambda_max) = marchenko_pastur_support(ratio, 1.0);

    let n_points = 1000;
    let dx = (lambda_max - lambda_min) / n_points as f64;
    let integral: f64 = (0..n_points)
        .map(|i| {
            let x = lambda_min + (i as f64 + 0.5) * dx;
            marchenko_pastur_density(x, ratio, 1.0) * dx
        })
        .sum();

    assert!((integral - 1.0).abs() < 0.05, "MP density should integrate to ~1");
}

#[test]
fn test_wigner_semicircle_normalization() {
    let sigma = 1.0;
    let r = 2.0 * sigma;

    let n_points = 1000;
    let dx = 2.0 * r / n_points as f64;
    let integral: f64 = (0..n_points)
        .map(|i| {
            let x = -r + (i as f64 + 0.5) * dx;
            wigner_semicircle_density(x, sigma) * dx
        })
        .sum();

    assert!((integral - 1.0).abs() < 0.05, "Wigner density should integrate to ~1");
}

#[test]
fn test_wigner_at_zero() {
    let density = wigner_semicircle_density(0.0, 1.0);
    let expected = 1.0 / PI;
    assert!(
        (density - expected).abs() < 0.01,
        "Wigner at zero: {} vs expected {}",
        density,
        expected
    );
}

#[test]
fn marchenko_pastur_density_inside_the_support() {
    let density = marchenko_pastur_density(1.5, 0.5, 1.0);
    assert!(density > 0.0);
    assert!((density - 0.3001054387190354).abs() < 1e-12, "{density}");
}

#[test]
fn marchenko_pastur_support_for_a_quarter() {
    assert_eq!(marchenko_pastur_support(0.25, 1.0), (0.25, 2.25));
    assert_eq!(marchenko_pastur_support(4.0, 1.0), (0.25, 2.25));
    assert_eq!(marchenko_pastur_support(0.25, 2.0), (0.5, 4.5));
}

#[test]
fn aspect_ratio_and_its_inverse_fold_alike() {
    for ratio in [0.25f64, 0.5, 1.0, 2.0, 4.0, 8.0, 1e-3] {
        let inverse = 1.0 / ratio;
        assert_eq!(
            effective_ratio(ratio.to_bits(), inverse.to_bits()),
            effective_ratio(inverse.to_bits(), ratio.to_bits())
        );
        assert!(folded(ratio) <= 1.0);
    }
    assert_eq!(folded(4.0), 0.25);
    assert_eq!(folded(0.25), 0.25);
    assert_eq!(marchenko_pastur_support(8.0, 1.0), marchenko_pastur_support(0.125, 1.0));
}

#[test]
fn density_vanishes_outside_the_support() {
    let (low, high) = marchenko_pastur_support(0.25, 1.0);
    assert_eq!(marchenko_pastur_density(low - 1e-9, 0.25, 1.0), 0.0);
    assert_eq!(marchenko_pastur_density(high + 1e-9, 0.25, 1.0), 0.0);
    assert_eq!(marchenko_pastur_density(100.0, 0.25, 1.0), 0.0);
    assert_eq!(wigner_semicircle_density(2.0000001, 1.0), 0.0);
    assert_eq!(wigner_semicircle_density(-2.0000001, 1.0), 0.0);
}

#[test]
fn density_is_zero_for_a_ratio_or_a_point_at_or_below_zero() {
    assert_eq!(marchenko_pastur_density(1.0, 0.0, 1.0), 0.0);
    assert_eq!(marchenko_pastur_density(1.0, -0.5, 1.0), 0.0);
    assert_eq!(marchenko_pastur_density(0.0, 0.5, 1.0), 0.0);
    assert_eq!(marchenko_pastur_density(-1.0, 0.5, 1.0), 0.0);
    let one = 1.0f64.to_bits();
    let low = 0.25f64.to_bits();
    let high = 2.25f64.to_bits();
    assert!(marchenko_pastur_contains(one, 0.25f64.to_bits(), low, high));
    assert!(!marchenko_pastur_contains(one, 0.0f64.to_bits(), low, high));
    assert!(!marchenko_pastur_contains(one, (-0.0f64).to_bits(), low, high));
    assert!(!marchenko_pastur_contains(one, (-1.0f64).to_bits(), low, high));
    assert!(!marchenko_pastur_contains((-0.0f64).to_bits(), 0.25f64.to_bits(), low, high));
}

#[test]
fn the_ends_of_the_support_belong_to_it() {
    let ratio = 0.25f64.to_bits();
    let low = 0.25f64.to_bits();
    let high = 2.25f64.to_bits();
    assert!(marchenko_pastur_contains(low, ratio, low, high));
    assert!(marchenko_pastur_contains(high, ratio, low, high));
    assert!(!marchenko_pastur_contains(0.2499f64.to_bits(), ratio, low, high));
    assert!(!marchenko_pastur_contains(2.2501f64.to_bits(), ratio, low, high));
    assert_eq!(marchenko_pastur_density(0.25, 0.25, 1.0), 0.0);
    assert_eq!(marchenko_pastur_density(2.25, 0.25, 1.0), 0.0);
    let radius = 2.0f64.to_bits();
    assert!(semicircle_contains(2.0f64.to_bits(), radius));
    assert!(semicircle_contains((-2.0f64).to_bits(), radius));
    assert!(semicircle_contains(0.0f64.to_bits(), radius));
    assert!(!semicircle_contains(2.5f64.to_bits(), radius));
    assert!(!semicircle_contains((-2.5f64).to_bits(), radius));
    assert_eq!(wigner_semicircle_density(2.0, 1.0), 0.0);
}

#[test]
fn support_tests_agree_with_the_hardware() {
    let values = [f64::NAN, -3.0, -2.0, -0.0, 0.0, 1e-300, 0.25, 1.0, 2.0, 2.25, 3.0, f64::INFINITY];
    for &lambda in &values {
        for &radius in &values {
            assert_eq!(
                semicircle_contains(lambda.to_bits(), radius.to_bits()),
                !(lambda.abs() > radius),
                "|{lambda}| > {radius}"
            );
        }
        for &ratio in &values {
            let inside = !(ratio <= 0.0 || lambda <= 0.0) && !(lambda < 0.25 || lambda > 2.25);
            assert_eq!(
                marchenko_pastur_contains(
                    lambda.to_bits(),
                    ratio.to_bits(),
                    0.25f64.to_bits(),
                    2.25f64.to_bits()
                ),
                inside,
                "{lambda} {ratio}"
            );
        }
    }
}

#[test]
fn folding_agrees_with_the_hardware_minimum() {
    let values = [
        f64::NAN,
        f64::NEG_INFINITY,
        -2.5,
        -0.0,
        0.0,
        5e-324,
        0.25,
        1.0,
        4.0,
        f64::MAX,
        f64::INFINITY,
    ];
    for &a in &values {
        for &b in &values {
            let ours = f64::from_bits(effective_ratio(a.to_bits(), b.to_bits()));
            let theirs = a.min(b);
            if theirs.is_nan() {
                assert!(ours.is_nan(), "min({a}, {b})");
            } else {
                assert_eq!(ours, theirs, "min({a}, {b})");
            }
        }
    }
}

#[test]
fn folding_passes_over_a_nan() {
    let one = 1.0f64.to_bits();
    let nan_bits = f64::NAN.to_bits();
    assert_eq!(effective_ratio(nan_bits, one), one);
    assert_eq!(effective_ratio(one, nan_bits), one);
    assert_eq!(effective_ratio(2.0f64.to_bits(), one), one);
    assert_eq!(effective_ratio(one, 2.0f64.to_bits()), one);
}

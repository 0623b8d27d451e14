use rmt::spacing::{level_spacing_ratios, SpacingRatio};

fn spacings(eigenvalues: &[f64]) -> Vec<u64> {
    eigenvalues.windows(2).map(|w| (w[1] - w[0]).to_bits()).collect()
}

/// The ratios as doubles: the library picks the windows and the terms, the
/// division is done here.
fn ratios(eigenvalues: &[f64]) -> Vec<f64> {
    level_spacing_ratios(&spacings(eigenvalues))
        .iter()
        .map(|r| f64::from_bits(r.numerator) / f64::from_bits(r.denominator))
        .collect()
}

#[test]
fn test_spacing_ratio_bounds() {
    let eigenvalues = vec![1.0, 2.0, 3.5, 4.0, 6.0];
    let ratios = ratios(&eigenvalues);

    for r in ratios {
        assert!(r >= 0.0 && r <= 1.0, "spacing ratio should be in [0, 1]");
    }
}

#[test]
fn ratios_are_the_smaller_spacing_over_the_larger() {
    let found = ratios(&[1.0, 2.0, 3.5, 4.0, 6.0]);
    assert_eq!(found, vec![1.0 / 1.5, 0.5 / 1.5, 0.5 / 2.0]);
}

#[test]
fn terms_are_the_patterns_of_the_spacings() {
    let found = level_spacing_ratios(&[2.0f64.to_bits(), 0.5f64.to_bits(), 0.5f64.to_bits()]);
    assert_eq!(
        found,
        vec![
            SpacingRatio { numerator: 0.5f64.to_bits(), denominator: 2.0f64.to_bits() },
            SpacingRatio { numerator: 0.5f64.to_bits(), denominator: 0.5f64.to_bits() },
        ]
    );
}

#[test]
fn fewer_than_three_levels_give_no_ratio() {
    assert!(ratios(&[]).is_empty());
    assert!(ratios(&[1.0]).is_empty());
    assert!(ratios(&[1.0, 2.0]).is_empty());
    assert!(level_spacing_ratios(&[]).is_empty());
    assert!(level_spacing_ratios(&[1.0f64.to_bits()]).is_empty());
}

#[test]
fn three_levels_give_one_ratio() {
    assert_eq!(ratios(&[0.0, 1.0, 3.0]), vec![0.5]);
}

#[test]
fn repeated_levels_are_skipped() {
    assert_eq!(ratios(&[1.0, 1.0, 2.0, 4.0]), vec![0.5]);
    assert_eq!(ratios(&[1.0, 2.0, 2.0, 4.0]), Vec::<f64>::new());
    assert_eq!(ratios(&[1.0, 2.0, 4.0, 4.0]), vec![0.5]);
    assert!(ratios(&[3.0, 3.0, 3.0, 3.0]).is_empty());
}

#[test]
fn falling_levels_are_skipped() {
    assert!(ratios(&[3.0, 2.0, 1.0]).is_empty());
    assert_eq!(ratios(&[3.0, 2.0, 4.0, 5.0]), vec![0.5]);
}

#[test]
fn a_nan_level_gives_no_ratio() {
    assert!(ratios(&[1.0, f64::NAN, 3.0]).is_empty());
    assert_eq!(ratios(&[1.0, f64::NAN, 3.0, 4.0, 6.0]), vec![0.5]);
}

#[test]
fn a_negative_zero_spacing_is_skipped() {
    let found = level_spacing_ratios(&[(-0.0f64).to_bits(), 1.0f64.to_bits()]);
    assert!(found.is_empty());
    let found = level_spacing_ratios(&[0.0f64.to_bits(), 1.0f64.to_bits()]);
    assert!(found.is_empty());
}

#[test]
fn every_ratio_lies_in_the_unit_interval() {
    let mut levels = Vec::new();
    let mut x = 0.0f64;
    for i in 0..200u32 {
        x += ((i.wrapping_mul(2654435761u32) % 1000) as f64) / 997.0;
        levels.push(x);
    }
    let found = level_spacing_ratios(&spacings(&levels));
    assert!(found.len() <= levels.len() - 2);
    for r in found {
        let (num, den) = (f64::from_bits(r.numerator), f64::from_bits(r.denominator));
        assert!(num > 0.0 && den > 0.0 && num <= den);
        assert!(num / den > 0.0 && num / den <= 1.0);
    }
}

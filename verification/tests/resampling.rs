use rand::{Rng, SeedableRng};
use rand_xoshiro::Xoshiro256PlusPlus;
use trop::bootstrap::{
    build_bootstrap_matrices, build_bootstrap_matrices_into, build_bootstrap_matrices_with_mask,
    build_bootstrap_matrices_with_mask_into, classify_units, iteration_seed, joint_replicate,
    joint_replicate_of, pick_units, resample_covariates, resample_weights, stratified_sample,
    twostep_replicate, twostep_replicate_of, UnitClassification,
};
use trop::inference::{
    aggregate_att, finite_effects, finite_estimates, kept_estimates, locate_percentile,
    sort_values, sorted_estimates, variance_plan, weighted_effects, Aggregation, BootstrapResult,
    Percentile, VariancePlan,
};
use trop::matrix::Matrix;

fn table(rows: usize, cols: usize, values: &[f64]) -> Matrix<u64> {
    Matrix::from_rows(rows, cols, bits(values)).unwrap()
}

fn bits(values: &[f64]) -> Vec<u64> {
    values.iter().map(|v| v.to_bits()).collect()
}

fn floats(values: &[u64]) -> Vec<f64> {
    values.iter().map(|&b| f64::from_bits(b)).collect()
}

/// Mean, variance and standard error.
fn compute_bootstrap_variance(estimates: &Vec<f64>, ddof: u8) -> (f64, f64, f64) {
    match variance_plan(&bits(estimates), ddof) {
        VariancePlan::Degenerate(mean) => (f64::from_bits(mean), 0.0, 0.0),
        VariancePlan::Spread(kept, denominator) => {
            let values = floats(&kept);
            let mean = values.iter().sum::<f64>() / values.len() as f64;
            let variance =
                values.iter().map(|v| (v - mean).powi(2)).sum::<f64>() / denominator as f64;
            (mean, variance, variance.sqrt())
        }
    }
}

fn percentile(sorted: &[f64], idx: f64) -> f64 {
    match locate_percentile(sorted.len(), idx.to_bits()) {
        Percentile::Undefined => f64::NAN,
        Percentile::At(k) => sorted[k],
        Percentile::Between(low, high) => {
            let fraction = idx - low as f64;
            sorted[low] * (1.0 - fraction) + sorted[high] * fraction
        }
    }
}

/// Percentile interval.
fn compute_percentile_ci(estimates: &Vec<f64>, alpha: f64) -> (f64, f64) {
    let sorted = floats(&sorted_estimates(&bits(estimates)));
    if sorted.is_empty() {
        return (f64::NAN, f64::NAN);
    }
    let last = (sorted.len() - 1) as f64;
    (percentile(&sorted, last * (alpha / 2.0)), percentile(&sorted, last * (1.0 - alpha / 2.0)))
}

/// Average effect.
fn att_of(pairs: &[(f64, usize)], weights: Option<&Vec<f64>>) -> Option<f64> {
    let effects = pairs.iter().map(|&(tau, i)| (tau.to_bits(), i)).collect();
    let w = weights.map(|w| bits(w));
    match aggregate_att(&effects, w.as_ref()) {
        Aggregation::Undefined => None,
        Aggregation::Mean(taus) => Some(floats(&taus).iter().sum::<f64>() / taus.len() as f64),
        Aggregation::Weighted(terms) => {
            let num: f64 =
                terms.iter().map(|&(w, tau)| f64::from_bits(w) * f64::from_bits(tau)).sum();
            let den: f64 = terms.iter().map(|&(w, _)| f64::from_bits(w)).sum();
            Some(num / den)
        }
    }
}

#[test]
fn test_classify_units() {
    // Create a simple D matrix: 3 periods, 4 units
    // Unit 0, 1: never treated (control)
    // Unit 2, 3: treated at some point
    let d = table(3, 4, &[
            0.0, 0.0, 0.0, 0.0, // t=0
            0.0, 0.0, 1.0, 0.0, // t=1
            0.0, 0.0, 1.0, 1.0, // t=2
        ]);

    let classification = classify_units(&d);

    assert_eq!(classification.n_control, 2);
    assert_eq!(classification.n_treated, 2);
    assert_eq!(classification.control_units, vec![0, 1]);
    assert_eq!(classification.treated_units, vec![2, 3]);
}

#[test]
fn test_stratified_sample_preserves_counts() {
    let classification = UnitClassification {
        control_units: vec![0, 1, 2, 3, 4],
        treated_units: vec![5, 6, 7],
        n_control: 5,
        n_treated: 3,
    };

    let seed = 42u64;
    let sampled = stratified_sample(&classification, seed);

    // Should sample exactly n_control + n_treated units
    assert_eq!(sampled.len(), 8);
}

#[test]
fn test_stratified_sample_deterministic() {
    let classification = UnitClassification {
        control_units: vec![0, 1, 2, 3, 4],
        treated_units: vec![5, 6, 7],
        n_control: 5,
        n_treated: 3,
    };

    let seed = 42u64;
    let sampled1 = stratified_sample(&classification, seed);
    let sampled2 = stratified_sample(&classification, seed);

    // Same seed should produce same result
    assert_eq!(sampled1, sampled2);
}

#[test]
fn test_stratified_sample_different_seeds() {
    let classification = UnitClassification {
        control_units: vec![0, 1, 2, 3, 4],
        treated_units: vec![5, 6, 7],
        n_control: 5,
        n_treated: 3,
    };

    let sampled1 = stratified_sample(&classification, 42);
    let sampled2 = stratified_sample(&classification, 43);

    // Different seeds should produce different results
    assert_ne!(sampled1, sampled2);
}

#[test]
fn test_build_bootstrap_matrices() {
    let y = table(2, 3, &[
            1.0, 2.0, 3.0, // t=0
            4.0, 5.0, 6.0, // t=1
        ]);

    let d = table(2, 3, &[
            0.0, 0.0, 0.0, // t=0
            0.0, 1.0, 1.0, // t=1
        ]);

    // Sample units [1, 0, 2] (with replacement)
    let sampled_units = vec![1, 0, 2];
    let (y_boot, d_boot) = build_bootstrap_matrices(&y, &d, &sampled_units);

    // Check dimensions
    assert_eq!((y_boot.rows, y_boot.cols), (2, 3));
    assert_eq!((d_boot.rows, d_boot.cols), (2, 3));

    // Check values - unit 1 should be in position 0
    assert_eq!(f64::from_bits(y_boot.get(0, 0)), 2.0);
    assert_eq!(f64::from_bits(y_boot.get(1, 0)), 5.0);

    // Check values - unit 0 should be in position 1
    assert_eq!(f64::from_bits(y_boot.get(0, 1)), 1.0);
    assert_eq!(f64::from_bits(y_boot.get(1, 1)), 4.0);
}

#[test]
fn test_compute_bootstrap_variance_sample() {
    let estimates = vec![1.0, 2.0, 3.0, 4.0, 5.0];
    let (mean, variance, se) = compute_bootstrap_variance(&estimates, 1);

    // Mean should be 3.0
    assert!((mean - 3.0).abs() < 1e-10);

    // Variance with 1/(B−1): sum((x-3)^2) / 4 = 10/4 = 2.5
    assert!((variance - 2.5).abs() < 1e-10);

    // SE = sqrt(2.5)
    assert!((se - 2.5_f64.sqrt()).abs() < 1e-10);
}

#[test]
fn test_compute_bootstrap_variance_empty() {
    let estimates: Vec<f64> = vec![];
    let (mean, variance, se) = compute_bootstrap_variance(&estimates, 1);

    assert_eq!(mean, 0.0);
    assert_eq!(variance, 0.0);
    assert_eq!(se, 0.0);
}

#[test]
fn test_compute_bootstrap_variance_single() {
    let estimates = vec![5.0];
    let (mean, variance, se) = compute_bootstrap_variance(&estimates, 1);

    // Single value -> mean = that value, variance/se = 0
    assert_eq!(mean, 5.0);
    assert_eq!(variance, 0.0);
    assert_eq!(se, 0.0);
}

#[test]
fn test_compute_percentile_ci() {
    // Create sorted estimates: 1, 2, 3, ..., 100
    let estimates: Vec<f64> = (1..=100).map(|x| x as f64).collect();

    let (ci_lower, ci_upper) = compute_percentile_ci(&estimates, 0.05);

    // For 95% CI with 100 values:
    // Lower: index = (100-1) * 0.025 = 2.475 → interpolate between sorted[2] and sorted[3]
    // Upper: index = (100-1) * 0.975 = 96.525 → interpolate between sorted[96] and sorted[97]
    assert!(
        (ci_lower - 3.475).abs() < 1e-10,
        "ci_lower={}, expected 3.475",
        ci_lower
    );
    assert!(
        (ci_upper - 97.525).abs() < 1e-10,
        "ci_upper={}, expected 97.525",
        ci_upper
    );
}

#[test]
fn test_compute_percentile_ci_empty() {
    let estimates: Vec<f64> = vec![];
    let (ci_lower, ci_upper) = compute_percentile_ci(&estimates, 0.05);

    assert!(ci_lower.is_nan());
    assert!(ci_upper.is_nan());
}

/// NaN values must be filtered before CI computation.
#[test]
fn test_compute_percentile_ci_with_nan() {
    // Mix of valid values and NaN
    let estimates = vec![1.0, 2.0, f64::NAN, 3.0, f64::NAN, 4.0, 5.0];
    let (ci_lower, ci_upper) = compute_percentile_ci(&estimates, 0.05);

    // CI should be computed from [1, 2, 3, 4, 5] only
    assert!(ci_lower.is_finite(), "ci_lower should be finite, got {}", ci_lower);
    assert!(ci_upper.is_finite(), "ci_upper should be finite, got {}", ci_upper);
    assert!(ci_lower <= ci_upper, "ci_lower ({}) should be <= ci_upper ({})", ci_lower, ci_upper);

    // Compare with NaN-free version
    let clean = vec![1.0, 2.0, 3.0, 4.0, 5.0];
    let (ci_lower_clean, ci_upper_clean) = compute_percentile_ci(&clean, 0.05);
    assert!((ci_lower - ci_lower_clean).abs() < 1e-12,
        "NaN-filtered CI lower ({}) should match clean ({})", ci_lower, ci_lower_clean);
    assert!((ci_upper - ci_upper_clean).abs() < 1e-12,
        "NaN-filtered CI upper ({}) should match clean ({})", ci_upper, ci_upper_clean);
}

/// All-NaN input yields (NaN, NaN).
#[test]
fn test_compute_percentile_ci_all_nan() {
    let estimates = vec![f64::NAN, f64::NAN, f64::NAN];
    let (ci_lower, ci_upper) = compute_percentile_ci(&estimates, 0.05);
    assert!(ci_lower.is_nan());
    assert!(ci_upper.is_nan());
}

/// Inf values must be filtered identically to NaN.
#[test]
fn test_compute_percentile_ci_with_inf() {
    let estimates = vec![1.0, 2.0, f64::INFINITY, 3.0, f64::NEG_INFINITY, 4.0, 5.0];
    let (ci_lower, ci_upper) = compute_percentile_ci(&estimates, 0.05);

    let clean = vec![1.0, 2.0, 3.0, 4.0, 5.0];
    let (ci_lower_clean, ci_upper_clean) = compute_percentile_ci(&clean, 0.05);
    assert!((ci_lower - ci_lower_clean).abs() < 1e-12);
    assert!((ci_upper - ci_upper_clean).abs() < 1e-12);
}

/// Variance computation filters NaN values transparently.
#[test]
fn test_compute_bootstrap_variance_with_nan() {
    let estimates = vec![1.0, 2.0, f64::NAN, 3.0, 4.0, 5.0];
    let (mean, variance, se) = compute_bootstrap_variance(&estimates, 1);

    let clean = vec![1.0, 2.0, 3.0, 4.0, 5.0];
    let (mean_clean, var_clean, se_clean) = compute_bootstrap_variance(&clean, 1);

    assert!((mean - mean_clean).abs() < 1e-12);
    assert!((variance - var_clean).abs() < 1e-12);
    assert!((se - se_clean).abs() < 1e-12);
}

#[test]
fn test_seed_increment() {
    // Test that different bootstrap iterations use different seeds
    let seed = 42u64;

    let mut rng1 = Xoshiro256PlusPlus::seed_from_u64(iteration_seed(seed, 0));
    let mut rng2 = Xoshiro256PlusPlus::seed_from_u64(iteration_seed(seed, 1));

    let val1: u64 = rng1.gen();
    let val2: u64 = rng2.gen();

    // Different seeds should produce different values
    assert_ne!(val1, val2);
}

#[test]
fn test_bessel_correction_matches_python() {
    let estimates = [1.0, 2.0, 3.0, 4.0, 5.0];
    let n = estimates.len() as f64;
    let mean = estimates.iter().sum::<f64>() / n;

    // Population variance (1/B).
    let variance_population = estimates.iter().map(|x| (x - mean).powi(2)).sum::<f64>() / n;

    // Bessel-corrected variance (1/(B-1)).
    let variance_bessel = estimates.iter().map(|x| (x - mean).powi(2)).sum::<f64>() / (n - 1.0);

    // Our function should match Bessel-corrected variance when ddof = 1.
    let (_, variance_func, _) = compute_bootstrap_variance(&estimates.to_vec(), 1);
    assert!((variance_func - variance_bessel).abs() < 1e-10);

    // And should match the population variance when ddof = 0 .
    let (_, variance_pop_func, _) = compute_bootstrap_variance(&estimates.to_vec(), 0);
    assert!((variance_pop_func - variance_population).abs() < 1e-10);

    // And should NOT match the population variance.
    assert!((variance_func - variance_population).abs() > 1e-3);
}


/// SE is non-negative for any input.
#[test]
fn test_se_positive_definiteness() {
    // Test with various estimate distributions
    let test_cases: Vec<Vec<f64>> = vec![
        vec![1.0, 2.0, 3.0, 4.0, 5.0],           // Normal spread
        vec![0.0, 0.0, 0.0, 0.0, 0.0],           // All zeros
        vec![1.0, 1.0, 1.0, 1.0, 1.0],           // All same
        vec![-5.0, -3.0, 0.0, 3.0, 5.0],         // Symmetric around 0
        vec![100.0, 100.1, 100.2, 100.3, 100.4], // Small variance
        vec![-1000.0, 0.0, 1000.0],              // Large variance
    ];

    for estimates in test_cases {
        let (_, variance, se) = compute_bootstrap_variance(&estimates, 1);

        // SE must be non-negative
        assert!(
            se >= 0.0,
            "SE must be non-negative, got {} for estimates {:?}",
            se,
            estimates
        );

        // Variance must be non-negative
        assert!(
            variance >= 0.0,
            "Variance must be non-negative, got {} for estimates {:?}",
            variance,
            estimates
        );

        // SE should equal sqrt(variance)
        assert!(
            (se - variance.sqrt()).abs() < 1e-12,
            "SE should equal sqrt(variance)"
        );
    }
}

/// CI bounds are ordered and contain the mean for a symmetric distribution.
#[test]
fn test_ci_reasonableness() {
    // Test with sorted estimates for predictable CI
    let estimates: Vec<f64> = (1..=100).map(|x| x as f64).collect();
    let (mean, _, _) = compute_bootstrap_variance(&estimates, 1);
    let (ci_lower, ci_upper) = compute_percentile_ci(&estimates, 0.05);

    // CI bounds should be ordered correctly
    assert!(
        ci_lower <= ci_upper,
        "CI lower ({}) should be <= CI upper ({})",
        ci_lower,
        ci_upper
    );

    // For symmetric distribution, mean should be within CI
    assert!(
        ci_lower <= mean && mean <= ci_upper,
        "Mean ({}) should be within CI [{}, {}]",
        mean,
        ci_lower,
        ci_upper
    );

    // CI should be within data range
    let min_val = estimates.iter().cloned().fold(f64::INFINITY, f64::min);
    let max_val = estimates.iter().cloned().fold(f64::NEG_INFINITY, f64::max);
    assert!(
        ci_lower >= min_val && ci_upper <= max_val,
        "CI [{}, {}] should be within data range [{}, {}]",
        ci_lower,
        ci_upper,
        min_val,
        max_val
    );
}

/// CI width increases with the confidence level.
#[test]
fn test_ci_width_vs_alpha() {
    let estimates: Vec<f64> = (1..=100).map(|x| x as f64).collect();

    // 90% CI (alpha=0.10)
    let (ci_lower_90, ci_upper_90) = compute_percentile_ci(&estimates, 0.10);
    let width_90 = ci_upper_90 - ci_lower_90;

    // 95% CI (alpha=0.05)
    let (ci_lower_95, ci_upper_95) = compute_percentile_ci(&estimates, 0.05);
    let width_95 = ci_upper_95 - ci_lower_95;

    // 99% CI (alpha=0.01)
    let (ci_lower_99, ci_upper_99) = compute_percentile_ci(&estimates, 0.01);
    let width_99 = ci_upper_99 - ci_lower_99;

    // Wider confidence level should give wider CI
    assert!(
        width_90 < width_95,
        "90% CI width ({}) should be < 95% CI width ({})",
        width_90,
        width_95
    );
    assert!(
        width_95 < width_99,
        "95% CI width ({}) should be < 99% CI width ({})",
        width_95,
        width_99
    );
}

/// Identical seeds produce identical sampling sequences.
#[test]
fn test_bootstrap_seed_determinism() {
    let classification = UnitClassification {
        control_units: vec![0, 1, 2, 3, 4, 5, 6, 7, 8, 9],
        treated_units: vec![10, 11, 12, 13, 14],
        n_control: 10,
        n_treated: 5,
    };

    let base_seed = 12345u64;
    let n_iterations = 50;

    // Run two complete bootstrap sampling sequences with same seed
    let mut samples1: Vec<Vec<usize>> = Vec::new();
    let mut samples2: Vec<Vec<usize>> = Vec::new();

    for b in 0..n_iterations {
        let iter_seed = iteration_seed(base_seed, b);
        samples1.push(stratified_sample(&classification, iter_seed));
        samples2.push(stratified_sample(&classification, iter_seed));
    }

    // All samples should be identical
    for b in 0..n_iterations {
        assert_eq!(
            samples1[b], samples2[b],
            "Iteration {} should produce identical samples with same seed",
            b
        );
    }
}

/// Distinct base seeds produce distinct sampling sequences.
#[test]
fn test_bootstrap_different_seeds_differ() {
    let classification = UnitClassification {
        control_units: vec![0, 1, 2, 3, 4, 5, 6, 7, 8, 9],
        treated_units: vec![10, 11, 12, 13, 14],
        n_control: 10,
        n_treated: 5,
    };

    let n_iterations = 20;

    // Run with two different base seeds
    let mut samples_seed1: Vec<Vec<usize>> = Vec::new();
    let mut samples_seed2: Vec<Vec<usize>> = Vec::new();

    for b in 0..n_iterations {
        samples_seed1.push(stratified_sample(
            &classification,
            iteration_seed(100, b),
        ));
        samples_seed2.push(stratified_sample(
            &classification,
            iteration_seed(200, b),
        ));
    }

    // At least some samples should differ
    let mut any_different = false;
    for b in 0..n_iterations {
        if samples_seed1[b] != samples_seed2[b] {
            any_different = true;
            break;
        }
    }
    assert!(
        any_different,
        "Different base seeds should produce different sample sequences"
    );
}

/// SE converges to the theoretical value for a known distribution.
#[test]
fn test_bootstrap_se_precision() {
    // Uniform[0, 12]: theoretical variance = (12-0)^2 / 12 = 12.
    let n_samples = 10000;
    let mut rng = Xoshiro256PlusPlus::seed_from_u64(42);
    let estimates: Vec<f64> = (0..n_samples).map(|_| rng.gen_range(0.0..12.0)).collect();

    let (_, variance, se) = compute_bootstrap_variance(&estimates, 1);

    // Theoretical variance for uniform [0, 12] is 12
    let theoretical_variance: f64 = 12.0;
    let theoretical_se = theoretical_variance.sqrt();

    // With 10000 samples, sample variance should be close to theoretical
    // Allow 5% relative error for statistical variation
    let relative_error = (variance - theoretical_variance).abs() / theoretical_variance;
    assert!(
        relative_error < 0.05,
        "Variance {} should be close to theoretical {} (relative error: {})",
        variance,
        theoretical_variance,
        relative_error
    );

    // SE precision check
    let se_error = (se - theoretical_se).abs();
    assert!(
        se_error < 0.1, // Allow 0.1 absolute error for SE ≈ 3.46
        "SE {} should be close to theoretical {} (error: {})",
        se,
        theoretical_se,
        se_error
    );
}

/// Variance formula: V = Σ(τ_b − τ̄)² / (B−1).
#[test]
fn test_bootstrap_variance_formula() {
    let estimates = vec![2.0, 4.0, 6.0, 8.0, 10.0];
    let n = estimates.len() as f64;

    // Manual calculation using sample variance (1/(B−1), Bessel).
    let mean_manual = estimates.iter().sum::<f64>() / n;
    let variance_manual = estimates
        .iter()
        .map(|x| (x - mean_manual).powi(2))
        .sum::<f64>()
        / (n - 1.0);
    let se_manual = variance_manual.sqrt();

    // Function calculation
    let (mean_func, variance_func, se_func) = compute_bootstrap_variance(&estimates, 1);

    // Verify with high precision (< 1e-12)
    assert!(
        (mean_func - mean_manual).abs() < 1e-12,
        "Mean mismatch: {} vs {}",
        mean_func,
        mean_manual
    );
    assert!(
        (variance_func - variance_manual).abs() < 1e-12,
        "Variance mismatch: {} vs {}",
        variance_func,
        variance_manual
    );
    assert!(
        (se_func - se_manual).abs() < 1e-12,
        "SE mismatch: {} vs {}",
        se_func,
        se_manual
    );

    // Verify expected values
    // Mean = (2+4+6+8+10)/5 = 6
    assert!((mean_func - 6.0).abs() < 1e-12);
    // Variance (Bessel, 1/(B−1)) =
    //   ((2-6)^2 + (4-6)^2 + (6-6)^2 + (8-6)^2 + (10-6)^2) / 4
    // = (16 + 4 + 0 + 4 + 16) / 4 = 40/4 = 10
    assert!((variance_func - 10.0).abs() < 1e-12);
    // SE = sqrt(10) ≈ 3.162
    assert!((se_func - 10.0_f64.sqrt()).abs() < 1e-12);
}

/// Percentile CI with linear interpolation on 10 values.
#[test]
fn test_percentile_ci_interpolation() {
    let estimates: Vec<f64> = (1..=10).map(|x| x as f64).collect();

    // 95% CI (alpha = 0.05):
    // lower_idx = (10-1) * 0.025 = 0.225 → interpolate between index 0 and 1
    // upper_idx = (10-1) * 0.975 = 8.775 → interpolate between index 8 and 9
    let (ci_lower, ci_upper) = compute_percentile_ci(&estimates, 0.05);

    // Lower: 1 * (1 - 0.225) + 2 * 0.225 = 1.225
    let expected_lower = 1.0 * (1.0 - 0.225) + 2.0 * 0.225;
    assert!(
        (ci_lower - expected_lower).abs() < 1e-10,
        "CI lower {} should be {}",
        ci_lower,
        expected_lower
    );

    // Upper: 9 * (1 - 0.775) + 10 * 0.775 = 9.775
    let expected_upper = 9.0 * (1.0 - 0.775) + 10.0 * 0.775;
    assert!(
        (ci_upper - expected_upper).abs() < 1e-10,
        "CI upper {} should be {}",
        ci_upper,
        expected_upper
    );
}


#[test]
fn test_compute_bootstrap_variance_filters_nan() {
    // NaN values should be filtered before computing statistics
    let estimates = vec![1.0, 2.0, f64::NAN, 4.0, 5.0];
    let (mean, variance, se) = compute_bootstrap_variance(&estimates, 1);

    // Should compute stats from [1.0, 2.0, 4.0, 5.0] only
    assert!(mean.is_finite(), "Mean should be finite after NaN filtering");
    assert!((mean - 3.0).abs() < 1e-10, "Mean of [1,2,4,5] = 3.0, got {}", mean);
    assert!(variance.is_finite(), "Variance should be finite");
    assert!(se.is_finite(), "SE should be finite");
}

#[test]
fn test_compute_bootstrap_variance_filters_inf() {
    // Inf values should be filtered before computing statistics
    let estimates = vec![1.0, 2.0, f64::INFINITY, 4.0, f64::NEG_INFINITY];
    let (mean, variance, se) = compute_bootstrap_variance(&estimates, 1);

    // Should compute stats from [1.0, 2.0, 4.0] only
    assert!(mean.is_finite(), "Mean should be finite after Inf filtering");
    let expected_mean = (1.0 + 2.0 + 4.0) / 3.0;
    assert!((mean - expected_mean).abs() < 1e-10);
    assert!(variance.is_finite());
    assert!(se.is_finite());
}

#[test]
fn test_compute_bootstrap_variance_all_nan() {
    // All NaN → treated as empty
    let estimates = vec![f64::NAN, f64::NAN, f64::NAN];
    let (mean, variance, se) = compute_bootstrap_variance(&estimates, 1);
    assert_eq!(mean, 0.0);
    assert_eq!(variance, 0.0);
    assert_eq!(se, 0.0);
}

#[test]
fn test_compute_percentile_ci_filters_nan() {
    // NaN values should be filtered before computing percentiles
    let estimates = vec![1.0, 2.0, f64::NAN, 4.0, 5.0, 6.0, 7.0, 8.0, 9.0, 10.0];
    let (ci_lower, ci_upper) = compute_percentile_ci(&estimates, 0.05);

    assert!(ci_lower.is_finite(), "CI lower should be finite after NaN filtering");
    assert!(ci_upper.is_finite(), "CI upper should be finite after NaN filtering");
    assert!(ci_lower < ci_upper, "CI lower < upper");
}

#[test]
fn test_compute_percentile_ci_all_nan_two_elements() {
    let estimates = vec![f64::NAN, f64::NAN];
    let (ci_lower, ci_upper) = compute_percentile_ci(&estimates, 0.05);
    assert!(ci_lower.is_nan());
    assert!(ci_upper.is_nan());
}


#[test]
fn test_aggregate_att_unweighted_matches_mean() {
    let pairs = vec![(1.0_f64, 0_usize), (2.0, 1), (3.0, 2), (4.0, 3)];
    let got = att_of(&pairs, None).unwrap();
    assert!((got - 2.5).abs() < 1e-12);
}

#[test]
fn test_aggregate_att_equal_weights_match_unweighted() {
    // Equal pweights must recover the unweighted mean exactly.
    let pairs = vec![(1.0_f64, 0_usize), (2.0, 1), (3.0, 2), (4.0, 3)];
    let w = vec![1.0, 1.0, 1.0, 1.0];
    let got_w = att_of(&pairs, Some(&w)).unwrap();
    let got_u = att_of(&pairs, None).unwrap();
    assert!((got_w - got_u).abs() < 1e-12);
}

#[test]
fn test_aggregate_att_weighted_hand_computation() {
    // Weighted mean: (2*1.0 + 3*3.0) / (2 + 3) = (2 + 9)/5 = 2.2
    let pairs = vec![(1.0_f64, 0_usize), (3.0, 1)];
    let w = vec![2.0, 3.0];
    let got = att_of(&pairs, Some(&w)).unwrap();
    assert!((got - 2.2).abs() < 1e-12);
}

#[test]
fn test_aggregate_att_nonpositive_weights_are_skipped() {
    // Zero / negative / NaN weights must be excluded from both
    // numerator and denominator.  Remaining cells carry full mass.
    let pairs = vec![(1.0_f64, 0_usize), (5.0, 1), (10.0, 2)];
    let w = vec![0.0, -1.0, 4.0];
    let got = att_of(&pairs, Some(&w)).unwrap();
    assert!((got - 10.0).abs() < 1e-12);
}

#[test]
fn test_aggregate_att_all_zero_weights_returns_none() {
    let pairs = vec![(1.0_f64, 0_usize), (2.0, 1)];
    let w = vec![0.0, 0.0];
    assert!(att_of(&pairs, Some(&w)).is_none());
}

#[test]
fn test_aggregate_att_empty_returns_none() {
    let pairs: Vec<(f64, usize)> = Vec::new();
    assert!(att_of(&pairs, None).is_none());
    let w = vec![1.0, 2.0];
    assert!(att_of(&pairs, Some(&w)).is_none());
}

fn groups() -> UnitClassification {
    UnitClassification {
        control_units: vec![0, 1, 2, 3, 4],
        treated_units: vec![5, 6, 7],
        n_control: 5,
        n_treated: 3,
    }
}

#[test]
fn units_are_classified_once_each() {
    let d = table(2, 4, &[0.0, 1.0, 0.0, 0.5, 0.0, 0.0, 1.0, 0.0]);
    let c = classify_units(&d);
    assert_eq!(c.control_units, vec![0, 3]);
    assert_eq!(c.treated_units, vec![1, 2]);
    assert_eq!((c.n_control, c.n_treated), (2, 2));
}

#[test]
fn samples_draw_within_each_group() {
    let c = groups();
    let mut seen = vec![false; 8];
    for seed in 0..40 {
        let sample = stratified_sample(&c, seed);
        assert!(sample[..5].iter().all(|u| c.control_units.contains(u)));
        assert!(sample[5..].iter().all(|u| c.treated_units.contains(u)));
        for u in sample {
            seen[u] = true;
        }
    }
    assert!(seen.iter().all(|&s| s));
}

#[test]
fn samples_follow_the_generator() {
    let c = groups();
    let mut rng = Xoshiro256PlusPlus::seed_from_u64(42);
    let mut expected: Vec<usize> = Vec::new();
    for _ in 0..5 {
        expected.push(c.control_units[rng.gen_range(0..5)]);
    }
    for _ in 0..3 {
        expected.push(c.treated_units[rng.gen_range(0..3)]);
    }
    assert_eq!(stratified_sample(&c, 42), expected);
}

#[test]
fn picked_units_are_those_drawn() {
    assert_eq!(pick_units(&groups(), &vec![4, 0, 4], &vec![2, 1]), vec![4, 0, 4, 7, 6]);
}

#[test]
fn empty_groups_give_empty_samples() {
    let c = UnitClassification {
        control_units: vec![],
        treated_units: vec![3],
        n_control: 0,
        n_treated: 1,
    };
    assert_eq!(stratified_sample(&c, 9), vec![3]);
}

#[test]
fn seeds_wrap_around() {
    assert_eq!(iteration_seed(42, 3), 45);
    assert_eq!(iteration_seed(u64::MAX, 1), 0);
    assert_ne!(iteration_seed(u64::MAX, 1), iteration_seed(u64::MAX, 2));
}

#[test]
fn masks_are_resampled_alongside() {
    let y = table(2, 3, &[1.0, 2.0, 3.0, 4.0, 5.0, 6.0]);
    let d = table(2, 3, &[0.0, 0.0, 0.0, 0.0, 1.0, 1.0]);
    let mask = Matrix::from_rows(2, 3, vec![1, 1, 1, 1, 0, 0]).unwrap();
    let (y_boot, d_boot, mask_boot) =
        build_bootstrap_matrices_with_mask(&y, &d, &mask, &vec![2, 2, 0, 1]);
    assert_eq!(floats(&y_boot.data), vec![3.0, 3.0, 1.0, 2.0, 6.0, 6.0, 4.0, 5.0]);
    assert_eq!(floats(&d_boot.data), vec![0.0, 0.0, 0.0, 0.0, 1.0, 1.0, 0.0, 1.0]);
    assert_eq!(mask_boot.data, vec![1, 1, 1, 1, 0, 0, 1, 0]);
}

#[test]
fn buffers_are_filled_from_the_left_and_cleared() {
    let y = table(2, 3, &[1.0, 2.0, 3.0, 4.0, 5.0, 6.0]);
    let d = table(2, 3, &[0.0, 0.0, 0.0, 0.0, 1.0, 1.0]);
    let mask = Matrix::from_rows(2, 3, vec![1, 1, 1, 1, 0, 0]).unwrap();
    let mut y_buf = table(2, 3, &[9.0; 6]);
    let mut d_buf = table(2, 3, &[9.0; 6]);
    let mut mask_buf = Matrix::from_rows(2, 3, vec![7; 6]).unwrap();
    let n = build_bootstrap_matrices_into(&mut y_buf, &mut d_buf, &y, &d, &vec![2, 0]);
    assert_eq!(n, 2);
    assert_eq!(floats(&y_buf.data), vec![3.0, 1.0, 0.0, 6.0, 4.0, 0.0]);
    assert_eq!(floats(&d_buf.data), vec![0.0, 0.0, 0.0, 1.0, 0.0, 0.0]);
    let n = build_bootstrap_matrices_with_mask_into(
        &mut y_buf,
        &mut d_buf,
        &mut mask_buf,
        &y,
        &d,
        &mask,
        &vec![1, 1, 2],
    );
    assert_eq!(n, 3);
    assert_eq!(floats(&y_buf.data), vec![2.0, 2.0, 3.0, 5.0, 5.0, 6.0]);
    assert_eq!(mask_buf.data, vec![1, 1, 1, 0, 0, 0]);
}

#[test]
fn covariates_move_with_their_units() {
    let x = table(4, 1, &[10.0, 20.0, 30.0, 40.0]);
    let r = resample_covariates(&x, 2, 2, &vec![1, 1, 0]);
    assert_eq!((r.rows, r.cols), (6, 1));
    assert_eq!(floats(&r.data), vec![20.0, 20.0, 10.0, 40.0, 40.0, 30.0]);
}

#[test]
fn weights_move_with_their_units() {
    assert_eq!(resample_weights(&vec![5, 6, 7], &vec![2, 0, 2, 9]), vec![7, 5, 7, 0]);
}

#[test]
fn replicates_need_both_groups() {
    let y = table(2, 3, &[1.0, 2.0, 3.0, 4.0, 5.0, 6.0]);
    let d = table(2, 3, &[0.0, 0.0, 0.0, 0.0, 0.0, 1.0]);
    let mask = Matrix::from_rows(2, 3, vec![1, 1, 1, 1, 1, 0]).unwrap();
    assert!(twostep_replicate_of(&y, &d, &mask, None, vec![0, 1, 1]).is_none());
    assert!(twostep_replicate_of(&y, &d, &mask, None, vec![2, 2]).is_none());
    let r = twostep_replicate_of(&y, &d, &mask, None, vec![0, 2, 2]).unwrap();
    assert_eq!(r.treated, vec![(1, 1), (1, 2)]);
    assert_eq!(floats(&r.y.data), vec![1.0, 3.0, 3.0, 4.0, 6.0, 6.0]);
    assert_eq!(r.control_mask.data, vec![1, 1, 1, 1, 0, 0]);
    assert!(r.x.is_none());
}

#[test]
fn replicates_are_reproducible() {
    let y = table(2, 3, &[1.0, 2.0, 3.0, 4.0, 5.0, f64::NAN]);
    let d = table(2, 3, &[0.0, 0.0, 0.0, 0.0, 0.0, 1.0]);
    let x = table(6, 1, &[1.0, 2.0, 3.0, 4.0, 5.0, 6.0]);
    let mask = Matrix::from_rows(2, 3, vec![1, 1, 1, 1, 1, 0]).unwrap();
    let c = classify_units(&d);
    let a = twostep_replicate(&y, &d, &mask, Some(&x), &c, 7, 2).unwrap();
    assert_eq!(a.units, stratified_sample(&c, 9));
    assert_eq!(a.treated, vec![(1, 2)]);
    assert_eq!(a.x.unwrap().rows, 6);
    let b = joint_replicate(&y, &d, Some(&x), &c, 7, 2);
    assert_eq!(b.units, a.units);
    assert!(b.treated.is_empty());
    let full = joint_replicate_of(&y, &d, None, vec![0, 2, 1]);
    assert!(full.treated.is_empty());
    assert!(full.x.is_none());
}

#[test]
fn only_finite_effects_count() {
    let cells = vec![(0, 4), (1, 5), (2, 6)];
    let effects = vec![Some(1.5_f64.to_bits()), None, Some(f64::NAN.to_bits())];
    assert_eq!(finite_effects(&cells, &effects), vec![(1.5_f64.to_bits(), 4)]);
}

#[test]
fn effects_without_weight_are_left_out() {
    let effects = vec![(1.0_f64.to_bits(), 0), (2.0_f64.to_bits(), 1), (3.0_f64.to_bits(), 5)];
    let weights = bits(&[f64::INFINITY, 2.0]);
    assert_eq!(
        weighted_effects(&effects, &weights),
        vec![(2.0_f64.to_bits(), 2.0_f64.to_bits())]
    );
}

#[test]
fn estimates_are_kept_if_finite() {
    let values = bits(&[1.0, f64::NAN, -2.0, f64::INFINITY]);
    assert_eq!(floats(&finite_estimates(&values)), vec![1.0, -2.0]);
    let outcomes = vec![Some(values[0]), None, Some(values[1]), Some(values[2])];
    assert_eq!(floats(&kept_estimates(&outcomes)), vec![1.0, -2.0]);
}

#[test]
fn variance_plans_pick_their_denominator() {
    let values = bits(&[1.0, 2.0, f64::NAN, 4.0]);
    match variance_plan(&values, 1) {
        VariancePlan::Spread(kept, n) => {
            assert_eq!(floats(&kept), vec![1.0, 2.0, 4.0]);
            assert_eq!(n, 2);
        }
        VariancePlan::Degenerate(_) => panic!("three estimates have a spread"),
    }
    assert!(matches!(variance_plan(&values, 0), VariancePlan::Spread(_, 3)));
    assert!(matches!(variance_plan(&values, 7), VariancePlan::Spread(_, 2)));
}

#[test]
fn values_are_sorted_by_size() {
    let sorted = sort_values(&bits(&[3.0, -1.0, 0.0, -7.5, 2.0]));
    assert_eq!(floats(&sorted), vec![-7.5, -1.0, 0.0, 2.0, 3.0]);
}

#[test]
fn percentiles_are_located() {
    assert_eq!(locate_percentile(0, 0), Percentile::Undefined);
    assert_eq!(locate_percentile(1, 5.5_f64.to_bits()), Percentile::At(0));
    assert_eq!(locate_percentile(10, 2.0_f64.to_bits()), Percentile::At(2));
    assert_eq!(locate_percentile(10, 2.475_f64.to_bits()), Percentile::Between(2, 3));
    assert_eq!(locate_percentile(3, 2.5_f64.to_bits()), Percentile::At(2));
    assert_eq!(locate_percentile(3, (-0.5_f64).to_bits()), Percentile::At(0));
}

#[test]
fn results_are_collected() {
    let outcomes = vec![Some(2.0_f64.to_bits()), None, Some(f64::NAN.to_bits())];
    let r = BootstrapResult::collect(&outcomes, (1, 2), (3, 4), 5);
    assert_eq!(floats(&r.estimates), vec![2.0]);
    assert_eq!((r.n_valid, r.n_total), (1, 3));
    assert_eq!((r.mean, r.se, r.ci_lower, r.ci_upper, r.level), (1, 2, 3, 4, 5));
    let e = BootstrapResult::empty(9, 5);
    assert!(e.estimates.is_empty());
    assert!(f64::from_bits(e.ci_lower).is_nan() && f64::from_bits(e.ci_upper).is_nan());
    assert_eq!((e.se, e.mean, e.n_valid, e.n_total, e.level), (0, 0, 0, 9, 5));
}

use trop::bits;
use trop::estimation::{
    active_mask, after_proximal_step, covariate_rows, delta_is_masked, has_weight,
    joint_inner_cap, mask_weights, observed_mask, overlay, pad_response, regression_cells,
    retained_components, safe_denominator, shrinkage, twostep_low_rank_step, valid_mask, Changes,
    Design, Iterations, LowRankStep, Shrinkage,
};
use trop::fit::{FitEvent, FitSettings, JointFit, JointPhase, TwostepFit, TwostepPhase};
use trop::matrix::Matrix;
use trop::weights::{
    doubled_time_distance, expand, joint_unit_kernel, max_or_zero, overlap_periods,
    pre_period_count, retained_cells, sparsify, store_weights, trajectory_units,
    twostep_unit_kernels, UnitKernel, WeightMatrix, SPARSE_MIN_UNITS,
};

fn b(v: f64) -> u64 {
    v.to_bits()
}

fn encoded(values: &[f64]) -> Vec<u64> {
    values.iter().map(|v| v.to_bits()).collect()
}

fn table(rows: usize, cols: usize, values: &[f64]) -> Matrix<u64> {
    Matrix::from_rows(rows, cols, encoded(values)).unwrap()
}

#[test]
fn fitted_cells_are_observed_controls_but_one() {
    let y = table(2, 2, &[1.0, f64::NAN, 2.0, 3.0]);
    let control = Matrix::from_rows(2, 2, vec![1, 1, 1, 0]).unwrap();
    assert_eq!(valid_mask(&y, &control, None).data, vec![true, false, true, false]);
    assert_eq!(valid_mask(&y, &control, Some((1, 0))).data, vec![true, false, false, false]);
}

#[test]
fn overlays_keep_what_is_not_fitted() {
    let mask = Matrix::from_rows(1, 3, vec![true, false, true]).unwrap();
    let a = table(1, 3, &[1.0, 2.0, 3.0]);
    let c = table(1, 3, &[7.0, 8.0, 9.0]);
    assert_eq!(overlay(&mask, &a, &c).data, encoded(&[1.0, 8.0, 3.0]));
    assert_eq!(mask_weights(&mask, &a).data, encoded(&[1.0, 0.0, 3.0]));
}

#[test]
fn masks_follow_outcomes_and_weights() {
    let y = table(1, 4, &[1.0, f64::NAN, f64::INFINITY, 0.0]);
    assert_eq!(observed_mask(&y).data, vec![true, false, false, true]);
    let w = table(1, 4, &[0.5, 0.0, -1.0, f64::NAN]);
    assert_eq!(active_mask(&w).data, vec![true, false, false, false]);
}

#[test]
fn rows_without_positive_weight_are_left_out() {
    let w = table(2, 2, &[1.0, 0.0, -0.5, 2.0]);
    assert_eq!(covariate_rows(&w), vec![0, 3]);
}

#[test]
fn denominators_are_positive() {
    assert_eq!(safe_denominator(b(2.5)), b(2.5));
    assert_eq!(safe_denominator(b(0.0)), b(1.0));
    assert_eq!(safe_denominator(b(-1.0)), b(1.0));
    assert_eq!(safe_denominator(b(f64::NAN)), b(1.0));
}

#[test]
fn small_penalties_allow_more_steps() {
    assert_eq!(twostep_low_rank_step(b(0.0)), LowRankStep::ClosedForm);
    assert_eq!(twostep_low_rank_step(b(-1.0)), LowRankStep::ClosedForm);
    assert_eq!(twostep_low_rank_step(b(0.01)), LowRankStep::Proximal(50));
    assert_eq!(twostep_low_rank_step(b(0.1)), LowRankStep::Proximal(10));
    assert_eq!(twostep_low_rank_step(b(3.0)), LowRankStep::Proximal(10));
    assert_eq!(joint_inner_cap(b(0.01)), 100);
    assert_eq!(joint_inner_cap(b(0.1)), 20);
    assert_eq!(joint_inner_cap(b(0.0)), 20);
}

fn changes(alpha: f64, beta: f64, low_rank: f64, gamma: f64) -> Changes {
    Changes { alpha: b(alpha), beta: b(beta), low_rank: b(low_rank), gamma: b(gamma) }
}

#[test]
fn convergence_needs_every_block() {
    let mut it = Iterations::new();
    assert!(it.continues(3) && !it.continues(0));
    it.record(changes(0.1, 0.0, 0.0, 0.0), b(0.05));
    assert_eq!((it.done, it.converged), (1, false));
    it.record(changes(0.01, 0.02, 0.03, 0.04), b(0.05));
    assert_eq!((it.done, it.converged), (2, true));
    assert!(!it.continues(9));
    let mut it = Iterations::new();
    it.record(changes(0.01, f64::NAN, 0.01, 0.06), b(0.05));
    assert!(!it.converged);
}

#[test]
fn steps_restart_and_settle() {
    let s = after_proximal_step(b(0.5), b(1e-9), b(1e-6));
    assert!(s.restart && s.settled);
    let s = after_proximal_step(b(0.0), b(1e-3), b(1e-6));
    assert!(!s.restart && !s.settled);
}

#[test]
fn shrinkage_by_threshold() {
    let m = encoded(&[1.0, 2.0]);
    assert_eq!(shrinkage(&m, b(0.0)), Shrinkage::Identity);
    assert_eq!(shrinkage(&m, b(-1.0)), Shrinkage::Identity);
    assert_eq!(shrinkage(&m, b(0.5)), Shrinkage::Decompose);
    assert_eq!(shrinkage(&encoded(&[1.0, f64::NAN]), b(0.5)), Shrinkage::Zero);
    assert_eq!(shrinkage(&encoded(&[1.0, f64::NAN]), b(0.0)), Shrinkage::Identity);
}

#[test]
fn components_above_the_tolerance_are_kept() {
    let s = encoded(&[5.0, 3.0, 1.0]);
    assert_eq!(retained_components(&s, &encoded(&[3.0, 1.0, 0.0])), Some(vec![0, 1]));
    assert_eq!(retained_components(&s, &encoded(&[0.0, 1e-11, 0.0])), None);
    let bad = encoded(&[5.0, f64::INFINITY, 1.0]);
    assert_eq!(retained_components(&bad, &encoded(&[3.0, 1.0, 0.0])), None);
}

#[test]
fn regressions_leave_out_what_is_not_finite() {
    let y = table(2, 2, &[1.0, f64::NAN, 3.0, 4.0]);
    let delta = table(2, 2, &[0.5, 1.0, f64::INFINITY, 2.0]);
    let (values, weights) = regression_cells(&y, &delta);
    assert_eq!(values, encoded(&[1.0, 0.0, 0.0, 4.0]));
    assert_eq!(weights, encoded(&[0.5, 0.0, 0.0, 2.0]));
    assert!(has_weight(b(1e-10)) && !has_weight(b(9e-11)) && has_weight(b(f64::NAN)));
}

#[test]
fn designs_have_dummies_and_covariates() {
    let design = Design { n_periods: 2, n_units: 2, n_cov: 1 };
    assert_eq!(design.n_params(), 4);
    let roots = encoded(&[1.0, 2.0, 3.0, 4.0]);
    let x = table(4, 1, &[10.0, 20.0, 30.0, 40.0]);
    let a = design.matrix(&roots, &x);
    assert_eq!(
        a,
        encoded(&[
            1.0, 2.0, 3.0, 4.0, 0.0, 2.0, 0.0, 4.0, 0.0, 0.0, 3.0, 4.0, 10.0, 20.0, 30.0, 40.0
        ])
    );
    let c = design.split(&encoded(&[7.0, 1.0, 2.0, 3.0, 99.0]));
    assert_eq!(c.mu, b(7.0));
    assert_eq!(c.alpha, encoded(&[0.0, 1.0]));
    assert_eq!(c.beta, encoded(&[0.0, 2.0]));
    assert_eq!(c.gamma, Some(encoded(&[3.0])));
    let plain = Design { n_periods: 1, n_units: 2, n_cov: 0 };
    assert!(plain.split(&encoded(&[7.0, 1.0])).gamma.is_none());
}

#[test]
fn responses_are_padded() {
    assert_eq!(pad_response(&vec![5, 6], 4), vec![5, 6, 0, 0]);
}

#[test]
fn weights_must_vanish_at_treated_cells() {
    let d = table(1, 2, &[0.0, 1.0]);
    assert!(delta_is_masked(&d, &table(1, 2, &[3.0, -0.0])));
    assert!(delta_is_masked(&d, &table(1, 2, &[3.0, f64::INFINITY])));
    assert!(!delta_is_masked(&d, &table(1, 2, &[3.0, 1e-300])));
}

fn settings(lambda_nn: f64, max_iter: usize, covariates: bool) -> FitSettings {
    FitSettings { lambda_nn: b(lambda_nn), max_iter, tol: b(1e-6), covariates }
}

#[test]
fn a_twostep_fit_goes_through_its_phases() {
    let s = settings(0.5, 2, true);
    let mut fit = TwostepFit::new(s);
    for phase in [TwostepPhase::Alpha, TwostepPhase::Beta, TwostepPhase::Gamma] {
        assert_eq!(fit.phase, phase);
        fit.record(s, FitEvent::Updated);
    }
    assert_eq!((fit.phase, fit.inner_left, fit.fresh), (TwostepPhase::Proximal, 10, true));
    fit.record(s, FitEvent::Stepped(b(-1.0), b(1.0)));
    assert_eq!((fit.phase, fit.inner_left, fit.fresh), (TwostepPhase::Proximal, 9, false));
    fit.record(s, FitEvent::Stepped(b(1.0), b(1e-9)));
    assert_eq!(fit.phase, TwostepPhase::Compare);
    fit.record(s, FitEvent::Compared(changes(1.0, 0.0, 0.0, 0.0)));
    assert_eq!((fit.phase, fit.iterations.done), (TwostepPhase::Alpha, 1));
}

#[test]
fn a_twostep_fit_ends() {
    let s = settings(0.0, 3, false);
    let mut fit = TwostepFit::new(s);
    let mut steps = 0;
    while fit.phase != TwostepPhase::Done {
        let event = match fit.phase {
            TwostepPhase::Compare => FitEvent::Compared(changes(1.0, 1.0, 1.0, 0.0)),
            _ => FitEvent::Updated,
        };
        fit.record(s, event);
        steps += 1;
    }
    assert_eq!(steps, 12);
    assert_eq!((fit.iterations.done, fit.iterations.converged), (3, false));
    assert_eq!(TwostepFit::new(settings(0.0, 0, false)).phase, TwostepPhase::Done);
}

#[test]
fn a_fit_fails_with_its_phase() {
    let s = settings(0.5, 2, false);
    let mut fit = TwostepFit::new(s);
    fit.record(s, FitEvent::Failed);
    assert_eq!(fit.phase, TwostepPhase::Failed);
    let mut fit = JointFit::new(s);
    fit.record(s, FitEvent::Failed);
    assert_eq!(fit.phase, JointPhase::Failed);
}

#[test]
fn proximal_steps_are_limited() {
    let s = settings(0.05, 1, false);
    let mut fit = JointFit::new(s);
    fit.record(s, FitEvent::Updated);
    let mut steps = 0;
    while fit.phase == JointPhase::Proximal {
        fit.record(s, FitEvent::Stepped(b(1.0), b(1.0)));
        steps += 1;
    }
    assert_eq!(steps, 100);
    assert_eq!(fit.phase, JointPhase::Compare);
    fit.record(s, FitEvent::Compared(changes(1.0, 1.0, 1.0, 0.0)));
    assert_eq!(fit.phase, JointPhase::FinalSolve);
    fit.record(s, FitEvent::Updated);
    assert_eq!((fit.phase, fit.iterations.done), (JointPhase::Done, 1));
}

#[test]
fn a_joint_fit_settles() {
    let s = settings(0.5, 9, false);
    let mut fit = JointFit::new(s);
    fit.record(s, FitEvent::Updated);
    fit.record(s, FitEvent::Stepped(b(0.0), b(0.0)));
    fit.record(s, FitEvent::Compared(changes(0.0, 0.0, 0.0, 0.0)));
    assert_eq!(fit.phase, JointPhase::FinalSolve);
    assert!(fit.iterations.converged);
    assert_eq!(JointFit::new(settings(0.5, 0, false)).phase, JointPhase::FinalSolve);
}

#[test]
fn unit_kernels_of_the_twostep_method() {
    let distances = encoded(&[0.0, 2.0, f64::INFINITY, 1.0]);
    assert_eq!(
        twostep_unit_kernels(b(0.5), 0, &distances),
        vec![
            UnitKernel::One,
            UnitKernel::Decay(b(2.0)),
            UnitKernel::Zero,
            UnitKernel::Decay(b(1.0)),
        ]
    );
    assert_eq!(twostep_unit_kernels(b(-0.0), 1, &distances), vec![UnitKernel::One; 4]);
}

#[test]
fn unit_kernels_of_the_joint_method() {
    assert_eq!(joint_unit_kernel(0, b(f64::INFINITY)), UnitKernel::One);
    assert_eq!(joint_unit_kernel(3, b(f64::INFINITY)), UnitKernel::Zero);
    assert_eq!(joint_unit_kernel(3, b(0.25)), UnitKernel::Decay(b(0.25)));
}

#[test]
fn time_distances_are_measured_from_the_middle_of_treatment() {
    assert_eq!(doubled_time_distance(0, 6, 2), 10);
    assert_eq!(doubled_time_distance(5, 6, 2), 0);
    assert_eq!(doubled_time_distance(4, 5, 1), 1);
    assert_eq!(doubled_time_distance(5, 6, 4), 2);
    assert_eq!(pre_period_count(6, 2), 4);
    assert_eq!(pre_period_count(2, 6), 0);
}

#[test]
fn trajectories_run_over_treated_units() {
    let y = table(2, 3, &[1.0, 2.0, f64::NAN, 4.0, 5.0, 6.0]);
    let d = table(2, 3, &[0.0, 0.0, 0.0, 0.0, 1.0, 1.0]);
    assert_eq!(trajectory_units(&y, &d, 0), vec![1]);
    assert_eq!(trajectory_units(&y, &d, 1), vec![1, 2]);
    let average = encoded(&[2.0, f64::NAN]);
    assert_eq!(overlap_periods(&y, &average, 2, 0), vec![0]);
    assert!(overlap_periods(&y, &average, 2, 2).is_empty());
}

#[test]
fn largest_weight_or_zero() {
    assert_eq!(max_or_zero(&encoded(&[0.5, f64::NAN, 2.0, -7.0])), b(2.0));
    assert_eq!(max_or_zero(&encoded(&[-1.0, -2.0])), b(0.0));
    assert_eq!(max_or_zero(&vec![]), b(0.0));
}

#[test]
fn sparse_weights_come_back() {
    let w = table(2, 2, &[1.0, 0.1, 0.0, 0.5]);
    assert_eq!(retained_cells(&w, b(0.5)), vec![(0, 0), (1, 1)]);
    let s = sparsify(&w, b(0.1));
    assert_eq!(s.indices, vec![(0, 0), (0, 1), (1, 1)]);
    assert_eq!(s.values, encoded(&[1.0, 0.1, 0.5]));
    assert_eq!(expand(&s).data, w.data);
}

#[test]
fn storage_depends_on_size_and_share() {
    let wide = |n: usize| Matrix::from_rows(1, n, vec![b(1.0); n]).unwrap();
    let n = SPARSE_MIN_UNITS;
    assert!(matches!(store_weights(wide(n - 1), b(0.5), b(0.1)), WeightMatrix::Dense(_)));
    assert!(matches!(store_weights(wide(n), b(0.5), b(0.9)), WeightMatrix::Dense(_)));
    assert!(matches!(store_weights(wide(n), b(0.5), b(0.8)), WeightMatrix::Sparse(_)));
    assert!(matches!(store_weights(wide(n), b(0.5), b(bits_half())), WeightMatrix::Sparse(_)));
}

fn bits_half() -> f64 {
    f64::from_bits(bits::HALF)
}

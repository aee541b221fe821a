use trop::bits;
use trop::error::TropError;
use trop::loocv::{
    check_simultaneous_adoption, chunk_size, diagnose, first_failed, get_control_observations,
    is_complete, merge_chunks, observe, validate_has_treated_units, Fit, ScoreResult, ScoreScan,
};
use trop::matrix::Matrix;
use trop::search::{
    evaluated, exhaustive_start, grid_combinations, parallel_layer, place, sweep_points,
    sweep_start, Axis, Candidate, Evaluation, GridSearch, Layer, ScoreCache, Stage, Sweep,
};
use trop::tuning::{drops_low_rank, effective, effective_alpha, effective_ddof, Lambdas};

const TIE_TOL: f64 = 1e-10;

fn table(rows: &[&[f64]]) -> Matrix<u64> {
    let data = rows.iter().flat_map(|r| r.iter().map(|v| v.to_bits())).collect();
    Matrix::from_rows(rows.len(), rows[0].len(), data).unwrap()
}

fn flags(rows: &[&[u8]]) -> Matrix<u8> {
    let data = rows.iter().flat_map(|r| r.iter().copied()).collect();
    Matrix::from_rows(rows.len(), rows[0].len(), data).unwrap()
}

fn bits_of(values: &[f64]) -> Vec<u64> {
    values.iter().map(|v| v.to_bits()).collect()
}

fn lambdas(time: f64, unit: f64, nn: f64) -> Lambdas {
    Lambdas { time: time.to_bits(), unit: unit.to_bits(), nn: nn.to_bits() }
}

fn better_candidate(new: (f64, f64, f64, f64), best: (f64, f64, f64, f64)) -> bool {
    let candidate = |c: (f64, f64, f64, f64)| Candidate {
        lambdas: lambdas(c.0, c.1, c.2),
        score: c.3.to_bits(),
    };
    let diff = new.3 - best.3;
    trop::search::better_candidate(candidate(new), candidate(best), diff.to_bits())
}

#[test]
fn test_check_simultaneous_adoption_accepts_no_treatment() {
    let d = table(&[&[0.0, 0.0], &[0.0, 0.0], &[0.0, 0.0]]);
    let res = check_simultaneous_adoption(&d);
    assert_eq!(res, Ok(0));
}

#[test]
fn test_check_simultaneous_adoption_accepts_simultaneous() {
    let d = table(&[&[0.0, 0.0, 0.0], &[0.0, 0.0, 0.0], &[0.0, 1.0, 1.0], &[0.0, 1.0, 1.0]]);
    let res = check_simultaneous_adoption(&d);
    assert_eq!(res, Ok(2), "n_periods=4, T_1=2 -> treated_periods=2");
}

#[test]
fn test_check_simultaneous_adoption_rejects_staggered_start() {
    let d = table(&[&[0.0, 0.0, 0.0], &[0.0, 1.0, 0.0], &[0.0, 1.0, 1.0], &[0.0, 1.0, 1.0]]);
    let res = check_simultaneous_adoption(&d);
    assert_eq!(
        res,
        Err(TropError::InvalidDimension),
        "different first-treat periods must be rejected"
    );
}

#[test]
fn test_check_simultaneous_adoption_rejects_treatment_switchoff() {
    let d = table(&[&[0.0, 0.0], &[0.0, 0.0], &[0.0, 1.0], &[0.0, 0.0]]);
    let res = check_simultaneous_adoption(&d);
    assert_eq!(
        res,
        Err(TropError::InvalidDimension),
        "non-absorbing treatment must be rejected"
    );
}

#[test]
fn test_check_simultaneous_adoption_rejects_pre_t1_treatment() {
    let d = table(&[&[0.0, 0.0, 0.0], &[1.0, 0.0, 0.0], &[0.0, 0.0, 0.0], &[0.0, 1.0, 1.0]]);
    let res = check_simultaneous_adoption(&d);
    assert_eq!(res, Err(TropError::InvalidDimension));
}

#[test]
fn test_get_control_observations() {
    let y = table(&[&[1.0, 2.0], &[2.0, 3.0], &[3.0, 4.0]]);
    let control_mask = flags(&[&[1u8, 1], &[1, 1], &[1, 0]]);

    let obs = get_control_observations(&y, &control_mask);
    assert_eq!(obs.len(), 5);
    assert!(!obs.contains(&(2, 1)));
}

#[test]
fn test_get_control_observations_returns_all_finite_controls() {
    let y = table(&[&[1.0, 2.0, 3.0], &[2.0, 3.0, 4.0], &[3.0, 4.0, 5.0]]);
    let control_mask = flags(&[&[1u8, 1, 1], &[1, 1, 1], &[1, 1, 1]]);

    let obs = get_control_observations(&y, &control_mask);

    assert_eq!(obs.len(), 9);
}

#[test]
fn test_better_candidate_prefers_strictly_lower_score() {
    let new = (0.1, 0.1, 10.0, 1.0);
    let best = (1.0, 1.0, 0.01, 2.0);
    assert!(better_candidate(new, best));
    assert!(!better_candidate(best, new));
}

#[test]
fn test_better_candidate_score_tie_prefers_larger_lambda_nn() {
    let best = (0.5, 0.5, 0.01, 1.234567);
    let new = (0.5, 0.5, 10.0, 1.234567 + TIE_TOL / 2.0);
    assert!(better_candidate(new, best));
}

#[test]
fn test_better_candidate_score_and_nn_tie_prefers_smaller_lambda_time() {
    let best = (2.0, 0.5, 0.1, 0.5);
    let new = (0.1, 0.5, 0.1, 0.5);
    assert!(better_candidate(new, best));
}

#[test]
fn test_better_candidate_full_coord_tie_prefers_smaller_lambda_unit() {
    let best = (0.5, 3.0, 0.1, 0.5);
    let new = (0.5, 0.1, 0.1, 0.5);
    assert!(better_candidate(new, best));
}

#[test]
fn test_better_candidate_exact_duplicate_rejected() {
    let triple = (0.5, 0.5, 0.1, 1.0);
    assert!(!better_candidate(triple, triple));
}

#[test]
fn test_better_candidate_handles_infinite_incumbent() {
    let best = (0.0, 0.0, 0.0, f64::INFINITY);
    let new = (1.0, 1.0, 0.01, 42.0);
    assert!(better_candidate(new, best));
    assert!(!better_candidate(best, new));
}

#[test]
fn test_better_candidate_nan_score_never_wins() {
    let best = (0.5, 0.5, 0.1, 1.0);
    let new = (0.1, 0.1, 10.0, f64::NAN);
    assert!(!better_candidate(new, best));
}

#[test]
fn test_infinity_conversion() {
    let inf = f64::INFINITY;
    let l = effective(lambdas(inf, inf, inf));
    assert_eq!(f64::from_bits(l.time), 0.0);
    assert_eq!(f64::from_bits(l.unit), 0.0);
    assert_eq!(f64::from_bits(l.nn), 1e10);
}

#[test]
fn finite_parameters_stay() {
    let l = lambdas(0.5, 2.0, 0.1);
    assert_eq!(effective(l), l);
    assert_eq!(effective(effective(lambdas(f64::NEG_INFINITY, 1.0, 3.0))), lambdas(0.0, 1.0, 3.0));
}

#[test]
fn large_penalties_drop_the_low_rank_component() {
    assert!(drops_low_rank(1e10_f64.to_bits()));
    assert!(drops_low_rank(f64::INFINITY.to_bits()));
    assert!(!drops_low_rank(9.9e9_f64.to_bits()));
    assert!(!drops_low_rank(f64::NAN.to_bits()));
}

#[test]
fn levels_and_corrections_fall_back() {
    let level = |a: f64| f64::from_bits(effective_alpha(a.to_bits()));
    assert_eq!(level(0.1), 0.1);
    assert_eq!(level(0.0), 0.05);
    assert_eq!(level(1.0), 0.05);
    assert_eq!(level(-2.0), 0.05);
    assert!(level(f64::NAN).is_nan());
    assert_eq!((effective_ddof(0), effective_ddof(1), effective_ddof(-3)), (0, 1, 1));
}

#[test]
fn missing_outcomes_are_not_control_observations() {
    let y = table(&[&[1.0, f64::NAN], &[f64::INFINITY, 2.0]]);
    let mask = flags(&[&[1, 1], &[1, 7]]);
    assert_eq!(get_control_observations(&y, &mask), vec![(0, 0), (1, 1)]);
}

#[test]
fn treatment_must_occur() {
    let none = table(&[&[0.0, 0.5], &[0.0, 0.0]]);
    assert_eq!(validate_has_treated_units(&none), Err(TropError::NoTreated));
    let some = table(&[&[0.0, 0.0], &[0.0, 1.0]]);
    assert_eq!(validate_has_treated_units(&some), Ok(()));
}

#[test]
fn partly_treated_cells_break_adoption() {
    let d = table(&[&[0.0, 0.5], &[0.0, 1.0]]);
    assert_eq!(check_simultaneous_adoption(&d), Err(TropError::InvalidDimension));
    let d = table(&[&[0.5, -0.0], &[0.5, 1.0]]);
    assert_eq!(check_simultaneous_adoption(&d), Ok(1));
}

fn effect(sum: f64) -> Fit {
    Fit::Effect(sum.to_bits())
}

fn scan(cells: &[(usize, usize)], fits: &[Fit], bound: f64) -> ScoreResult {
    let mut s = ScoreScan::new();
    for (cell, fit) in cells.iter().zip(fits) {
        s.record(*cell, *fit, bound.to_bits());
        if s.stopped.is_some() {
            break;
        }
    }
    s.finish()
}

#[test]
fn evaluations_run_to_the_end() {
    let cells = vec![(0, 0), (0, 1), (1, 0)];
    let fits = vec![effect(1.0), Fit::Unobserved, effect(4.0)];
    let r = scan(&cells, &fits, f64::INFINITY);
    assert_eq!((f64::from_bits(r.score), r.n_valid, r.first_failed), (4.0, 2, None));
    let d = diagnose(&cells, &fits);
    assert_eq!((d.score, d.n_valid), (r.score, r.n_valid));
    assert!(d.failed.is_empty());
    assert_eq!(first_failed(&d), None);
}

#[test]
fn evaluations_stop_above_the_bound() {
    let cells = vec![(0, 0), (0, 1), (1, 0)];
    let fits = vec![effect(1.0), effect(2.5), effect(4.0)];
    let r = scan(&cells, &fits, 2.0);
    assert_eq!((f64::from_bits(r.score), r.n_valid, r.first_failed), (2.5, 2, None));
    let r = scan(&cells, &fits, 4.0);
    assert_eq!((f64::from_bits(r.score), r.n_valid), (4.0, 3));
}

#[test]
fn failures_make_the_criterion_infinite() {
    let cells = vec![(0, 0), (0, 1), (1, 0), (2, 2)];
    let fits = vec![effect(1.0), Fit::Failed, effect(4.0), Fit::Failed];
    let r = scan(&cells, &fits, f64::INFINITY);
    assert_eq!((r.score, r.n_valid, r.first_failed), (bits::INFINITY, 1, Some((0, 1))));
    let d = diagnose(&cells, &fits);
    assert_eq!((d.score, d.n_valid), (bits::INFINITY, 2));
    assert_eq!(d.failed, vec![(0, 1), (2, 2)]);
    assert_eq!(first_failed(&d), Some((0, 1)));
}

#[test]
fn nothing_to_evaluate_is_infinite() {
    assert_eq!(scan(&[], &[], 1.0).score, bits::INFINITY);
    assert_eq!(scan(&[(0, 0)], &[Fit::Unobserved], 1.0).n_valid, 0);
    assert_eq!(diagnose(&vec![], &vec![]).score, bits::INFINITY);
}

#[test]
fn cells_are_shared_out() {
    assert_eq!(chunk_size(10, 4), 3);
    assert_eq!(chunk_size(8, 4), 2);
    assert_eq!(chunk_size(0, 4), 1);
    assert_eq!(chunk_size(5, 0), 5);
    assert_eq!(chunk_size(2, 16), 1);
}

#[test]
fn chunks_are_merged_in_order() {
    let sum = 2.5_f64.to_bits();
    let r = merge_chunks(&vec![(3, None), (2, None)], sum);
    assert_eq!((r.score, r.n_valid, r.first_failed), (sum, 5, None));
    let r = merge_chunks(&vec![(3, None), (1, Some((4, 4))), (2, Some((5, 5)))], sum);
    assert_eq!((r.score, r.n_valid, r.first_failed), (bits::INFINITY, 4, Some((4, 4))));
    assert_eq!(merge_chunks(&vec![], sum).score, bits::INFINITY);
}

#[test]
fn the_best_score_only_falls() {
    let b = |v: f64| v.to_bits();
    assert_eq!(observe(b(2.0), b(1.0)), b(1.0));
    assert_eq!(observe(b(1.0), b(2.0)), b(1.0));
    assert_eq!(observe(b(1.0), b(f64::NAN)), b(1.0));
    assert_eq!(observe(observe(b(9.0), b(3.0)), b(5.0)), observe(observe(b(9.0), b(5.0)), b(3.0)));
}

#[test]
fn complete_results_are_kept() {
    let r = ScoreResult { score: 1.0_f64.to_bits(), n_valid: 4, first_failed: None };
    assert!(is_complete(&r, 4));
    assert!(!is_complete(&r, 5));
    let failed = ScoreResult { score: bits::INFINITY, n_valid: 1, first_failed: Some((0, 0)) };
    assert!(is_complete(&failed, 5));
}

fn point(value: f64, score: f64) -> Evaluation {
    let result = ScoreResult { score: score.to_bits(), n_valid: 1, first_failed: None };
    evaluated(value.to_bits(), lambdas(value, 0.0, 0.0), &result)
}

fn select(points: &[(f64, f64)]) -> f64 {
    let sweep = Sweep {
        axis: Axis::Time,
        fixed: lambdas(0.0, 0.0, 0.0),
        hint: bits::INFINITY,
    };
    let grid = bits_of(&points.iter().map(|p| p.0).collect::<Vec<f64>>());
    let mut best = sweep_start(&sweep, &grid);
    for &(value, score) in points {
        let diff = score - f64::from_bits(best.candidate.score);
        best.offer(point(value, score), diff.to_bits());
    }
    f64::from_bits(best.value)
}

#[test]
fn sweeps_select_the_lowest_score() {
    assert_eq!(select(&[(0.5, 3.0), (1.0, 1.0), (2.0, 2.0)]), 1.0);
    assert_eq!(select(&[(2.0, 1.0), (0.5, 1.0), (1.0, 1.0)]), 0.5);
    assert_eq!(select(&[(2.0, f64::NAN), (0.5, f64::INFINITY)]), 2.0);
    assert_eq!(select(&[(2.0, f64::INFINITY), (0.5, 7.0)]), 0.5);
}

#[test]
fn giving_up_early_keeps_the_selection() {
    let full = select(&[(0.5, 30.0), (1.0, 1.0), (2.0, 20.0)]);
    let pruned = select(&[(0.5, 30.0), (1.0, 1.0), (2.0, 1.5)]);
    assert_eq!(full, pruned);
}

#[test]
fn preference_is_antisymmetric() {
    let a = (0.1, 0.2, 0.3, 1.0);
    let b = (0.1, 0.4, 0.3, 1.0);
    assert!(better_candidate(a, b) && !better_candidate(b, a));
}

#[test]
fn points_of_a_sweep() {
    let sweep = Sweep {
        axis: Axis::Unit,
        fixed: lambdas(0.7, 5.0, f64::INFINITY),
        hint: bits::INFINITY,
    };
    let grid = bits_of(&[0.0, 2.0]);
    assert_eq!(sweep_points(&sweep, &grid), vec![lambdas(0.7, 0.0, 1e10), lambdas(0.7, 2.0, 1e10)]);
    let start = sweep_start(&sweep, &vec![]);
    assert_eq!((start.value, start.candidate.score), (0, bits::INFINITY));
}

#[test]
fn axes_by_number() {
    assert_eq!(Axis::from_index(0), Axis::Time);
    assert_eq!(Axis::from_index(1), Axis::Unit);
    assert_eq!(Axis::from_index(2), Axis::Nn);
    assert_eq!(Axis::from_index(9), Axis::Nn);
    assert_eq!(place(lambdas(1.0, 2.0, 3.0), Axis::Nn, 4.0_f64.to_bits()), lambdas(1.0, 2.0, 4.0));
}

#[test]
fn one_loop_runs_in_parallel() {
    assert_eq!(parallel_layer(8, 4), Layer::Candidates);
    assert_eq!(parallel_layer(4, 4), Layer::Candidates);
    assert_eq!(parallel_layer(3, 4), Layer::Observations);
    assert_eq!(parallel_layer(0, 0), Layer::Observations);
}

#[test]
fn combinations_vary_the_penalty_fastest() {
    let all = grid_combinations(&bits_of(&[1.0, 2.0]), &bits_of(&[3.0]), &bits_of(&[4.0, 5.0]));
    assert_eq!(
        all,
        vec![
            lambdas(1.0, 3.0, 4.0),
            lambdas(1.0, 3.0, 5.0),
            lambdas(2.0, 3.0, 4.0),
            lambdas(2.0, 3.0, 5.0),
        ]
    );
    assert!(grid_combinations(&bits_of(&[1.0]), &vec![], &bits_of(&[1.0])).is_empty());
    let start = exhaustive_start(&bits_of(&[1.0, 2.0]), &vec![], &bits_of(&[4.0]));
    assert_eq!(start.candidate.lambdas, lambdas(1.0, 0.0, 4.0));
}

#[test]
fn a_search_goes_through_its_stages() {
    let mut s = GridSearch::new(2);
    let mut stages = Vec::new();
    let mut fixed = Vec::new();
    let mut value = 1.0;
    while let Some(sweep) = s.next() {
        stages.push(s.stage);
        fixed.push(sweep.fixed);
        s.record(f64::to_bits(value), 8.0_f64.to_bits(), f64::NEG_INFINITY.to_bits());
        value += 1.0;
    }
    assert_eq!(
        stages,
        vec![
            Stage::InitTime,
            Stage::InitNn,
            Stage::InitUnit,
            Stage::CycleUnit,
            Stage::CycleTime,
            Stage::CycleNn,
            Stage::CycleUnit,
            Stage::CycleTime,
            Stage::CycleNn,
        ]
    );
    assert_eq!(fixed[0], lambdas(0.0, 0.0, f64::INFINITY));
    assert_eq!(fixed[1], lambdas(0.0, 0.0, 0.0));
    assert_eq!(fixed[3], lambdas(1.0, 0.0, 2.0));
    assert_eq!(fixed[4], lambdas(0.0, 4.0, 2.0));
    assert_eq!(fixed[5], lambdas(5.0, 4.0, 0.0));
    assert_eq!(s.initial, lambdas(1.0, 3.0, 2.0));
    assert_eq!(s.lambdas, lambdas(8.0, 7.0, 9.0));
}

#[test]
fn a_search_stops_once_the_criterion_settles() {
    let mut s = GridSearch::from_initial(lambdas(1.0, 2.0, 3.0), 5);
    let mut sweeps = 0;
    while let Some(sweep) = s.next() {
        if s.stage == Stage::CycleNn {
            assert_eq!(sweep.axis, Axis::Nn);
        }
        let change = if sweeps < 3 { -4.0_f64 } else { 1e-7 };
        s.record(sweep.fixed.time, 6.0_f64.to_bits(), change.to_bits());
        sweeps += 1;
    }
    assert_eq!(sweeps, 6);
    assert!(GridSearch::from_initial(lambdas(1.0, 2.0, 3.0), 0).next().is_none());
}

#[test]
fn cached_scores_are_found_again() {
    let mut cache = ScoreCache::new();
    let key = lambdas(0.1, 0.2, 0.3);
    assert_eq!(cache.get(key), None);
    let first = ScoreResult { score: 1, n_valid: 2, first_failed: None };
    let second = ScoreResult { score: 5, n_valid: 3, first_failed: Some((1, 1)) };
    cache.insert(key, first);
    cache.insert(lambdas(0.0, 0.2, 0.3), second);
    assert_eq!(cache.get(key), Some(first));
    cache.insert(key, second);
    assert_eq!(cache.get(key), Some(second));
    assert_eq!(cache.get(lambdas(-0.0, 0.2, 0.3)), None);
}

//! The drivers, with simple arithmetic in place of the kernels.
use std::cell::RefCell;
use trop::alternating::{estimate_model, TwostepModel};
use trop::bits;
use trop::bootstrap::classify_units;
use trop::caching::{
    evaluate_in_turn, univariate_loocv_search_cached, univariate_search_cached_by,
};
use trop::crossval::{
    leave_out, loocv_score_for_params, loocv_score_for_params_full_diagnostic, loocv_score_joint,
    loocv_score_joint_full_diagnostic, scan_cells,
};
use trop::distance::{Separation, UnitDistanceCache};
use trop::error::TropError;
use trop::estimation::{Iterations, JointCoefficients};
use trop::fit::{FitEvent, FitSettings};
use trop::inference::{
    compute_bootstrap_variance, compute_percentile_ci, read_percentile, summarize, Aggregation,
};
use trop::joint::{
    fit_joint, fit_panel, solve_joint_with_lowrank, weigh_panel, JointMethod, JointModel,
    JointProblem, Momentum,
};
use trop::kernels::{
    compute_joint_weight_vectors, compute_joint_weights, compute_joint_weights_into,
    compute_pair_distance, compute_twostep_weight_vectors, compute_unit_distance_matrix_internal,
    compute_weight_matrix, compute_weight_matrix_adaptive_cached, compute_weight_matrix_into,
    distance_row, separation_value, weight_product,
};
use trop::loocv::{observe_result, ScoreResult};
use trop::matrix::Matrix;
use trop::model::{
    max_abs_diff, max_abs_diff_2d, soft_threshold_svd, solve_joint_no_lowrank, TwostepProblem,
};
use trop::rao_wu::{
    compute_kish_deff, compute_survey_diagnostics, plan_resampling, reweight, stratum_actions,
    survey_outcome,
};
use trop::replication::{
    average_effects, conclude_twostep, estimate_joint, estimate_twostep, joint_outcome,
    model_effects, twostep_outcome,
};
use trop::search::{
    run_sweep, search_combinations, search_grids, select, Axis, Candidate, Evaluation, GridSearch,
    Layer, ScoreCache, Stage, Sweep,
};
use trop::selection::{
    cycling_search_by, exhaustive_joint_search_by, exhaustive_twostep_search_by, joint_search_by,
    twostep_search_by, univariate_search_by, JointCells,
};
use trop::survey::{Correction, LonelyPsuStrategy, StratumAction, StratumInfo, UnitScale};
use trop::tuned::{
    cycling_parameter_search, loocv_cycling_search_joint, loocv_cycling_search_joint_with_stage1,
    loocv_grid_search, loocv_grid_search_exhaustive, loocv_grid_search_joint,
    loocv_grid_search_with_stage1, score_points, univariate_loocv_search,
};
use trop::tuning::Lambdas;
use trop::twostep::{estimate_cell, fit_without, score_without, TwostepMethod, TwostepPanel};
use trop::variance::{
    bootstrap_trop_variance, bootstrap_trop_variance_full, bootstrap_trop_variance_full_weighted,
    bootstrap_trop_variance_joint, bootstrap_trop_variance_joint_full,
    bootstrap_trop_variance_joint_full_weighted, bootstrap_trop_variance_rao_wu,
    bootstrap_trop_variance_rao_wu_joint, treated_period_count, BootstrapRun, SurveyDesign,
};
use trop::weights::WeightMatrix;
use trop::workers::{loocv_score_for_params_parallel, split_cells};

fn b(v: f64) -> u64 {
    v.to_bits()
}

fn f(v: u64) -> f64 {
    f64::from_bits(v)
}

fn encoded(values: &[f64]) -> Vec<u64> {
    values.iter().map(|v| v.to_bits()).collect()
}

fn floats(values: &[u64]) -> Vec<f64> {
    values.iter().map(|&v| f64::from_bits(v)).collect()
}

fn table(rows: &[&[f64]]) -> Matrix<u64> {
    let data = rows.iter().flat_map(|r| r.iter().map(|v| v.to_bits())).collect();
    Matrix::from_rows(rows.len(), rows[0].len(), data).unwrap()
}

fn subtract(x: u64, y: u64) -> u64 {
    b(f(x) - f(y))
}

fn multiply(x: u64, y: u64) -> u64 {
    b(f(x) * f(y))
}

fn mean(values: &Vec<u64>) -> u64 {
    b(floats(values).iter().sum::<f64>() / values.len() as f64)
}

fn rms(pairs: &Vec<(u64, u64)>) -> u64 {
    let sum: f64 = pairs.iter().map(|&(x, y)| (f(x) - f(y)).powi(2)).sum();
    b((sum / pairs.len() as f64).sqrt())
}

fn average(aggregation: &Aggregation) -> u64 {
    match aggregation {
        Aggregation::Undefined => panic!("nothing is averaged"),
        Aggregation::Mean(values) => mean(values),
        Aggregation::Weighted(terms) => {
            let num: f64 = terms.iter().map(|&(w, t)| f(w) * f(t)).sum();
            let den: f64 = terms.iter().map(|&(w, _)| f(w)).sum();
            b(num / den)
        }
    }
}

fn lambdas(time: f64, unit: f64, nn: f64) -> Lambdas {
    Lambdas { time: b(time), unit: b(unit), nn: b(nn) }
}

fn result(score: f64) -> ScoreResult {
    ScoreResult { score: b(score), n_valid: 4, first_failed: None }
}

/// Lowest at `(1, 2, 3)`.
fn bowl(l: &Lambdas) -> f64 {
    (f(l.time) - 1.0).powi(2) + (f(l.unit) - 2.0).powi(2) + (f(l.nn).min(99.0) - 3.0).powi(2)
}

fn in_bowl<C>(_: &C, points: Vec<Lambdas>) -> Vec<ScoreResult> {
    points.iter().map(|l| result(bowl(l))).collect()
}

type Number1 = fn(u64) -> u64;
type Number2 = fn(u64, u64) -> u64;
type Number3 = fn(u64, u64, u64) -> u64;
type Reduced = fn(&Vec<u64>) -> u64;
type Paired = fn(&Vec<(u64, u64)>) -> u64;

fn flat_time(_: u64, _: i64) -> u64 {
    b(1.0)
}

fn flat_period(_: u64, _: u128) -> u64 {
    b(1.0)
}

fn flat_unit(_: u64, _: u64) -> u64 {
    b(1.0)
}

fn untreated_weight(t: u64, u: u64, d: u64) -> u64 {
    b(f(t) * f(u) * (1.0 - f(d)))
}

fn add_square(sum: u64, tau: u64) -> u64 {
    b(f(sum) + f(tau) * f(tau))
}

fn total(values: &Vec<u64>) -> u64 {
    b(floats(values).iter().sum())
}

fn root(v: u64) -> u64 {
    b(f(v).sqrt())
}

const RMS: Paired = rms;
const MEAN: Reduced = mean;
const TOTAL: Reduced = total;
const ROOT: Number1 = root;
const MULTIPLY: Number2 = multiply;
const SUBTRACT: Number2 = subtract;
const FLAT_TIME: fn(u64, i64) -> u64 = flat_time;
const FLAT_PERIOD: fn(u64, u128) -> u64 = flat_period;
const FLAT_UNIT: Number2 = flat_unit;
const UNTREATED: Number3 = untreated_weight;
const ADD_SQUARE: Number2 = add_square;

type Twostep<'a, F, E> = TwostepMethod<
    'a,
    Paired,
    fn(u64, i64) -> u64,
    Number2,
    Number2,
    Number2,
    Reduced,
    fn(&Vec<u64>, &Vec<u64>) -> u64,
    fn(&Vec<(u64, u64)>, u64) -> u64,
    fn(&TwostepProblem, &Matrix<u64>, &Vec<u64>) -> Vec<u64>,
    F,
    E,
    Number2,
>;

fn dot(x: &Vec<u64>, gamma: &Vec<u64>) -> u64 {
    b(floats(x).iter().zip(floats(gamma)).map(|(a, c)| a * c).sum())
}

fn no_mean(_: &Vec<(u64, u64)>, _: u64) -> u64 {
    b(0.0)
}

fn same_gamma(_: &TwostepProblem, _: &Matrix<u64>, gamma: &Vec<u64>) -> Vec<u64> {
    gamma.clone()
}

const DOT: fn(&Vec<u64>, &Vec<u64>) -> u64 = dot;
const NO_MEAN: fn(&Vec<(u64, u64)>, u64) -> u64 = no_mean;
const SAME_GAMMA: fn(&TwostepProblem, &Matrix<u64>, &Vec<u64>) -> Vec<u64> = same_gamma;

/// Flat kernels, no fixed effects and one iteration.
fn twostep_method<'a, F, E>(proximal: &'a F, effect: &'a E) -> Twostep<'a, F, E> {
    TwostepMethod {
        max_iter: 1,
        tol: b(0.1),
        rms: &RMS,
        time_decay: &FLAT_TIME,
        unit_decay: &FLAT_UNIT,
        multiply: &MULTIPLY,
        subtract: &SUBTRACT,
        sum: &TOTAL,
        dot: &DOT,
        weighted_mean: &NO_MEAN,
        covariate_fit: &SAME_GAMMA,
        proximal,
        effect,
        add_square: &ADD_SQUARE,
    }
}

fn same_values(m: &Matrix<u64>) -> Matrix<u64> {
    Matrix { rows: m.rows, cols: m.cols, data: m.data.clone() }
}

fn same_momentum(m: &Momentum) -> Momentum {
    Momentum { previous: same_values(&m.previous), factor: m.factor }
}

/// A proximal step that marks the component with a number and settles.
fn marked(l: &Matrix<u64>, m: &Momentum, mark: f64) -> (Matrix<u64>, Momentum, FitEvent) {
    let l = Matrix { rows: l.rows, cols: l.cols, data: vec![b(mark); l.data.len()] };
    (l, same_momentum(m), FitEvent::Stepped(b(-1.0), b(0.01)))
}

fn given_up(l: &Matrix<u64>, m: &Momentum) -> (Matrix<u64>, Momentum, FitEvent) {
    (same_values(l), same_momentum(m), FitEvent::Failed)
}

/// What the component of a model is marked with.
fn mark(m: &TwostepModel) -> f64 {
    f(m.l.get(0, 0))
}

/// Marks a model with the number of fits that led to it.
fn count_up(
    _: &TwostepProblem,
    _: bool,
    _: &Matrix<u64>,
    l: &Matrix<u64>,
    m: &Momentum,
) -> (Matrix<u64>, Momentum, FitEvent) {
    marked(l, m, f(l.get(0, 0)) + 1.0)
}

/// Distances of periods.
fn periods(n: usize) -> Matrix<i64> {
    let data = (0..n * n).map(|k| ((k / n) as i64 - (k % n) as i64).abs()).collect();
    Matrix { rows: n, cols: n, data }
}

type Joint<'a, L, F, E> = JointMethod<
    'a,
    Reduced,
    Paired,
    fn(u64, u128) -> u64,
    Number2,
    Number3,
    Number2,
    Reduced,
    Number1,
    Number2,
    L,
    F,
    E,
    Number2,
>;

/// Flat kernels and one iteration.
fn joint_method<'a, L, F, E>(solve: &'a L, proximal: &'a F, effect: &'a E) -> Joint<'a, L, F, E> {
    JointMethod {
        max_iter: 1,
        tol: b(0.1),
        mean: &MEAN,
        rms: &RMS,
        time_decay: &FLAT_PERIOD,
        unit_decay: &FLAT_UNIT,
        combine: &UNTREATED,
        subtract: &SUBTRACT,
        sum: &TOTAL,
        root: &ROOT,
        multiply: &MULTIPLY,
        solve,
        proximal,
        effect,
        add_square: &ADD_SQUARE,
    }
}

/// Fixed effects of zero.
fn no_effects(_: &Vec<u64>, _: &Vec<u64>, _: usize, cols: usize) -> Option<Vec<u64>> {
    Some(encoded(&vec![0.0; cols]))
}

/// Adds one to every entry of the low-rank component.
fn one_up(
    _: &JointProblem,
    _: bool,
    _: &JointCoefficients,
    _: &Matrix<u64>,
    l: &Matrix<u64>,
    m: &Momentum,
) -> (Matrix<u64>, Momentum, FitEvent) {
    let data = l.data.iter().map(|&v| b(f(v) + 1.0)).collect();
    let previous = Matrix { rows: l.rows, cols: l.cols, data: l.data.clone() };
    let next = Matrix { rows: l.rows, cols: l.cols, data };
    (next, Momentum { previous, factor: m.factor }, FitEvent::Stepped(b(1.0), b(0.01)))
}

/// Outcome of a cell less the low-rank component.
fn beyond(y: &Matrix<u64>, _: Option<&Matrix<u64>>, m: &JointModel, cell: (usize, usize)) -> u64 {
    b(f(y.get(cell.0, cell.1)) - f(m.l.get(cell.0, cell.1)))
}

#[test]
fn the_best_evaluation_is_kept() {
    let at = |value: f64, score: f64| Evaluation {
        value: b(value),
        candidate: Candidate { lambdas: lambdas(value, 0.0, 0.0), score: b(score) },
        n_valid: 1,
        first_failed: None,
    };
    let start = at(9.0, f64::INFINITY);
    let evals = vec![at(1.0, 3.0), at(2.0, 1.0), at(3.0, f64::NAN), at(4.0, 2.0)];
    assert_eq!(f(select(start, &evals, &subtract).value), 2.0);
    assert_eq!(f(select(start, &vec![], &subtract).value), 9.0);
}

#[test]
fn a_sweep_evaluates_its_points() {
    let sweep = Sweep { axis: Axis::Unit, fixed: lambdas(1.0, 7.0, 3.0), hint: bits::INFINITY };
    let best = run_sweep(&sweep, &encoded(&[0.0, 1.5, 4.0]), &(), &in_bowl, &subtract);
    assert_eq!((f(best.value), f(best.candidate.score), best.n_valid), (1.5, 0.25, 4));
    assert_eq!(best.candidate.lambdas, lambdas(1.0, 1.5, 3.0));
    let hopeless =
        |_: &(), points: Vec<Lambdas>| points.iter().map(|_| result(f64::INFINITY)).collect();
    let best = run_sweep(&sweep, &encoded(&[5.0, 1.5]), &(), &hopeless, &subtract);
    assert_eq!((f(best.value), best.n_valid), (5.0, 0));
}

#[test]
fn one_parameter_is_searched() {
    let grid = encoded(&[0.0, 2.5, 9.0]);
    let found = univariate_search_by(&grid, lambdas(1.0, 2.0, 0.0), 2, &(), &in_bowl, &subtract);
    assert_eq!((f(found.0), f(found.1)), (2.5, 0.25));
    let found = univariate_search_by(&grid, lambdas(0.0, 2.0, 3.0), 0, &(), &in_bowl, &subtract);
    assert_eq!((f(found.0), f(found.1)), (0.0, 1.0));
}

#[test]
fn all_combinations_are_searched() {
    let (time, unit, nn) = (encoded(&[0.0, 1.0]), encoded(&[2.0, 5.0]), encoded(&[9.0, 3.0]));
    let best = search_combinations(&time, &unit, &nn, &(), &in_bowl, &subtract);
    assert_eq!(best.candidate.lambdas, lambdas(1.0, 2.0, 3.0));
    assert_eq!(f(best.candidate.score), 0.0);
    let seen = RefCell::new(Vec::new());
    let evaluate = |context: &usize, points: Vec<Lambdas>| {
        assert_eq!(*context, 17);
        seen.borrow_mut().extend(points.iter().copied());
        in_bowl(context, points)
    };
    let infinite = encoded(&[f64::INFINITY]);
    let best = search_combinations(&infinite, &unit, &infinite, &17, &evaluate, &subtract);
    assert_eq!(*seen.borrow(), vec![lambdas(0.0, 2.0, 1e10), lambdas(0.0, 5.0, 1e10)]);
    assert_eq!(best.candidate.lambdas, lambdas(f64::INFINITY, 2.0, f64::INFINITY));
}

#[test]
fn a_search_runs_to_its_end() {
    let (time, unit, nn) = (
        encoded(&[0.0, 1.0, 2.0]),
        encoded(&[0.0, 2.0, 4.0]),
        encoded(&[1.0, 3.0]),
    );
    let stages = RefCell::new(Vec::new());
    let evaluate = |context: &usize, stage: Stage, _: Sweep, points: Vec<Lambdas>| {
        assert_eq!(*context, 17);
        stages.borrow_mut().push(stage);
        in_bowl(context, points)
    };
    let done = search_grids(GridSearch::new(10), &time, &unit, &nn, &17, &evaluate, &subtract);
    assert_eq!((done.stage, done.lambdas), (Stage::Done, lambdas(1.0, 2.0, 3.0)));
    assert_eq!(done.initial, lambdas(1.0, 2.0, 3.0));
    assert_eq!(stages.borrow().len(), 9);
    assert_eq!(stages.borrow()[..3], [Stage::InitTime, Stage::InitNn, Stage::InitUnit]);
    assert!(stages.borrow()[3..].iter().all(|s| s.is_cycle()));
    assert!(!Stage::InitNn.is_cycle() && !Stage::Done.is_cycle());

    let start = lambdas(2.0, 0.0, 1.0);
    let found = cycling_search_by(&time, &unit, &nn, start, 5, &17, &evaluate, &subtract);
    assert_eq!(found, lambdas(1.0, 2.0, 3.0));
    let found = cycling_search_by(&time, &unit, &nn, start, 0, &17, &evaluate, &subtract);
    assert_eq!(found, start);
}

#[test]
fn searches_diagnose_what_they_select() {
    let y = table(&[&[1.0, f64::NAN, 2.0], &[4.0, 5.0, 6.0]]);
    let d = table(&[&[0.0, 0.0, 0.0], &[0.0, 0.0, 1.0]]);
    let untreated = table(&[&[0.0, 0.0, 0.0], &[0.0, 0.0, 0.0]]);
    let controls = Matrix { rows: 2, cols: 3, data: vec![1u8, 1, 1, 1, 1, 0] };
    let cells = vec![(0, 0), (0, 2), (1, 0), (1, 1)];
    let time_dist = periods(2);
    let cache = UnitDistanceCache::build(&y, &d);
    let panel = TwostepPanel {
        y: &y,
        d: &d,
        x: None,
        control_mask: &controls,
        time_dist: &time_dist,
        cache: &cache,
    };
    let nobody = UnitDistanceCache::build(&y, &untreated);
    let idle = TwostepPanel {
        y: &y,
        d: &untreated,
        x: None,
        control_mask: &controls,
        time_dist: &time_dist,
        cache: &nobody,
    };
    let (time, unit, nn) = (encoded(&[0.0, 1.0]), encoded(&[2.0]), encoded(&[3.0]));
    let stepwise = |given: &Vec<(usize, usize)>, _: Stage, _: Sweep, points: Vec<Lambdas>| {
        assert_eq!(*given, cells);
        in_bowl(given, points)
    };
    let at_once = |given: &Vec<(usize, usize)>, points: Vec<Lambdas>| {
        assert_eq!(*given, cells);
        in_bowl(given, points)
    };
    // A model is the penalty it was fitted with, and so is the effect of a cell.
    let keep = |p: &TwostepProblem, _: bool, _: &Matrix<u64>, l: &Matrix<u64>, m: &Momentum| {
        marked(l, m, f(p.lambda_nn))
    };
    let effect =
        |_: &Matrix<u64>, _: Option<&Matrix<u64>>, m: &TwostepModel, _: (usize, usize)| b(mark(m));
    let succeed = twostep_method(&keep, &effect);
    // The fit without cell (1, 1) fails.
    let lose = |p: &TwostepProblem, _: bool, _: &Matrix<u64>, l: &Matrix<u64>, m: &Momentum| {
        if p.valid.get(1, 1) {
            marked(l, m, f(p.lambda_nn))
        } else {
            given_up(l, m)
        }
    };
    let failing = twostep_method(&lose, &effect);
    let (r, initial) =
        twostep_search_by(&panel, &time, &unit, &nn, &succeed, &stepwise, &subtract)
            .unwrap();
    assert_eq!((r.lambdas, initial), (lambdas(1.0, 2.0, 3.0), lambdas(1.0, 2.0, 3.0)));
    assert_eq!((f(r.score), r.n_valid, r.n_attempted, r.first_failed), (36.0, 4, 4, None));
    let (r, _) =
        twostep_search_by(&panel, &time, &unit, &nn, &failing, &stepwise, &subtract).unwrap();
    assert_eq!((r.score, r.n_valid, r.n_attempted), (bits::INFINITY, 3, 4));
    assert_eq!(r.first_failed, Some((1, 1)));
    let refused =
        twostep_search_by(&idle, &time, &unit, &nn, &succeed, &stepwise, &subtract);
    assert_eq!(refused.err(), Some(TropError::NoTreated));

    let infinite = encoded(&[f64::INFINITY]);
    let r = exhaustive_twostep_search_by(
        &panel, &time, &unit, &infinite, &succeed, &at_once, &subtract,
    )
    .unwrap();
    assert_eq!(r.lambdas, lambdas(1.0, 2.0, f64::INFINITY));
    assert_eq!((f(r.score), r.n_valid, r.n_attempted), (4e20, 4, 4));
    let refused =
        exhaustive_twostep_search_by(&idle, &time, &unit, &nn, &succeed, &at_once, &subtract);
    assert_eq!(refused.err(), Some(TropError::NoTreated));
}

#[test]
fn joint_searches_diagnose_what_they_select() {
    let y = table(&[&[1.0, 2.0], &[4.0, 5.0], &[7.0, 8.0]]);
    let d = table(&[&[0.0, 0.0], &[0.0, 1.0], &[0.0, 1.0]]);
    let controls = Matrix { rows: 3, cols: 2, data: vec![1u8, 1, 1, 0, 1, 0] };
    let (time, unit, nn) = (encoded(&[0.0, 1.0]), encoded(&[2.0]), encoded(&[3.0]));
    let check = |joint: &JointCells| {
        assert_eq!(joint.cells, vec![(0, 0), (0, 1), (1, 0), (2, 0)]);
        assert_eq!(joint.treated_periods, 2);
    };
    let stepwise = |joint: &JointCells, _: Stage, _: Sweep, points: Vec<Lambdas>| {
        check(joint);
        in_bowl(joint, points)
    };
    let at_once = |joint: &JointCells, points: Vec<Lambdas>| {
        check(joint);
        in_bowl(joint, points)
    };
    // Four control cells with flat weights, of which one is left out.
    let solve = |a: &Vec<u64>, _: &Vec<u64>, rows: usize, cols: usize| {
        assert_eq!((rows, cols), (6, 4));
        assert_eq!(floats(&a[..6]).iter().sum::<f64>(), 3.0);
        Some(encoded(&[0.0; 4]))
    };
    let method = joint_method(&solve, &one_up, &beyond);
    let (r, initial) = joint_search_by(
        &y, &d, None, &controls, &time, &unit, &nn, 3, &method, &stepwise, &subtract,
    );
    assert_eq!(initial, lambdas(1.0, 2.0, 3.0));
    assert_eq!(r.lambdas, lambdas(1.0, 2.0, 3.0));
    // The effects are 0, 1, 3 and 6.
    assert_eq!((f(r.score), r.n_valid, r.n_attempted), (46.0, 4, 4));
    // Without a low-rank component they are 1, 2, 4 and 7.
    let far = encoded(&[f64::INFINITY]);
    let r = exhaustive_joint_search_by(
        &y, &d, None, &controls, &time, &unit, &far, &method, &at_once, &subtract,
    );
    assert_eq!(r.lambdas, lambdas(1.0, 2.0, f64::INFINITY));
    assert_eq!((f(r.score), r.n_valid, r.first_failed), (70.0, 4, None));
    // The fit without cell (1, 0) fails.
    let lose = |a: &Vec<u64>, _: &Vec<u64>, _: usize, _: usize| {
        if f(a[2]) == 0.0 {
            None
        } else {
            Some(encoded(&[0.0; 4]))
        }
    };
    let failing = joint_method(&lose, &one_up, &beyond);
    let r = exhaustive_joint_search_by(
        &y, &d, None, &controls, &time, &unit, &nn, &failing, &at_once, &subtract,
    );
    assert_eq!((r.score, r.n_valid, r.first_failed), (bits::INFINITY, 3, Some((1, 0))));
}

#[test]
fn cells_are_left_out_in_turn() {
    let y = table(&[&[9.0, 1.0, 2.0, 3.0, 4.0], &[9.0; 5]]);
    let d = table(&[&[0.0; 5], &[0.0, 0.0, 0.0, 0.0, 1.0]]);
    let controls = Matrix { rows: 2, cols: 5, data: vec![1u8; 10] };
    let time_dist = periods(2);
    let cache = UnitDistanceCache::build(&y, &d);
    let panel = TwostepPanel {
        y: &y,
        d: &d,
        x: None,
        control_mask: &controls,
        time_dist: &time_dist,
        cache: &cache,
    };
    let cells = vec![(0, 1), (0, 2), (0, 3), (0, 4)];
    let l = lambdas(1.0, 2.0, 3.0);
    // A model is marked with the unit of the cell that was left out.
    let starts = RefCell::new(Vec::new());
    let left_out = |p: &TwostepProblem, l: &Matrix<u64>| {
        starts.borrow_mut().push(f(l.get(0, 0)));
        let out: Vec<usize> = (0..10).filter(|&k| !p.valid.data[k]).collect();
        assert_eq!((out.len(), p.lambda_nn), (1, b(3.0)));
        assert_eq!(floats(&p.y.data)[out[0]], 0.0);
        out[0] as f64
    };
    let fail_at_two = |p: &TwostepProblem, _: bool, _: &Matrix<u64>, l: &Matrix<u64>, m: &Momentum| {
        let unit = left_out(p, l);
        if unit == 2.0 {
            given_up(l, m)
        } else {
            marked(l, m, unit)
        }
    };
    let keep = |p: &TwostepProblem, _: bool, _: &Matrix<u64>, l: &Matrix<u64>, m: &Momentum| {
        marked(l, m, left_out(p, l))
    };
    // The effect of a cell is the root of its outcome.
    let effect = |y: &Matrix<u64>,
                  _: Option<&Matrix<u64>>,
                  m: &TwostepModel,
                  cell: (usize, usize)| {
        assert_eq!(mark(m), cell.1 as f64);
        root(y.get(cell.0, cell.1))
    };
    let near = |x: u64, v: f64| assert!((f(x) - v).abs() < 1e-12);
    let failing = twostep_method(&fail_at_two, &effect);
    let r = loocv_score_for_params_full_diagnostic(&panel, &cells, l, &failing);
    assert_eq!((r.score, r.n_valid, r.failed), (bits::INFINITY, 3, vec![(0, 2)]));
    assert_eq!(*starts.borrow(), vec![0.0, 1.0, 1.0, 3.0]);
    let r = loocv_score_for_params(&panel, &cells, l, &failing, bits::INFINITY);
    assert_eq!((r.score, r.n_valid, r.first_failed), (bits::INFINITY, 1, Some((0, 2))));

    let succeed = twostep_method(&keep, &effect);
    let r = loocv_score_for_params(&panel, &cells, l, &succeed, bits::INFINITY);
    near(r.score, 10.0);
    assert_eq!((r.n_valid, r.first_failed), (4, None));
    let r = loocv_score_for_params(&panel, &cells, l, &succeed, b(2.5));
    near(r.score, 3.0);
    assert_eq!((r.n_valid, r.first_failed), (2, None));
    let s = scan_cells(&panel, &vec![(0, 3)], l, &succeed, bits::INFINITY);
    near(s.sum, 3.0);
    assert_eq!((s.n_valid, s.stopped), (1, None));
    let none: Vec<(usize, usize)> = vec![];
    let r = loocv_score_for_params(&panel, &none, l, &succeed, b(1.0));
    assert_eq!(r.score, bits::INFINITY);
}

#[test]
fn weights_are_centred_on_the_cell_left_out() {
    let y = table(&[&[1.0, 2.0], &[3.0, 5.0], &[4.0, 8.0]]);
    let d = table(&[&[0.0; 2], &[0.0; 2], &[0.0, 1.0]]);
    let controls = Matrix { rows: 3, cols: 2, data: vec![1u8, 1, 1, 1, 1, 0] };
    let time_dist = periods(3);
    let cache = UnitDistanceCache::build(&y, &d);
    let panel = TwostepPanel {
        y: &y,
        d: &d,
        x: None,
        control_mask: &controls,
        time_dist: &time_dist,
        cache: &cache,
    };
    let seen = RefCell::new(Vec::new());
    let proximal = |p: &TwostepProblem, _: bool, _: &Matrix<u64>, l: &Matrix<u64>, m: &Momentum| {
        seen.borrow_mut().push(floats(&p.weights.data));
        marked(l, m, 0.0)
    };
    let effect =
        |_: &Matrix<u64>, _: Option<&Matrix<u64>>, _: &TwostepModel, _: (usize, usize)| b(2.0);
    let time_decay = |bandwidth: u64, distance: i64| b(f(bandwidth) / (1.0 + distance as f64));
    let unit_decay = |bandwidth: u64, distance: u64| b(f(bandwidth) * f(distance));
    let method = TwostepMethod {
        max_iter: 1,
        tol: b(0.1),
        rms: &rms,
        time_decay: &time_decay,
        unit_decay: &unit_decay,
        multiply: &multiply,
        subtract: &subtract,
        sum: &total,
        dot: &dot,
        weighted_mean: &no_mean,
        covariate_fit: &same_gamma,
        proximal: &proximal,
        effect: &effect,
        add_square: &add_square,
    };
    let l = lambdas(6.0, 10.0, 0.5);
    let from: Option<TwostepModel> = None;
    // Period weights 3, 6 and 3; the other unit is at a distance of one in the
    // first period, the only one left in which both are untreated.
    let fit = fit_without(&panel, l, (1, 0), Some((1, 0)), &from, &method).unwrap();
    assert_eq!((fit.1.done, fit.1.converged), (1, true));
    assert_eq!(seen.borrow()[0], vec![3.0, 30.0, 0.0, 60.0, 3.0, 0.0]);
    // Nothing is left out: the cell keeps its weight.
    let kept = estimate_cell(&panel, l, (1, 0), &from, &method).unwrap();
    assert_eq!(kept.1, b(2.0));
    assert_eq!(seen.borrow()[1], vec![3.0, 30.0, 6.0, 60.0, 3.0, 0.0]);
    let scored = score_without(&panel, l, (0, 1), &from, b(1.0), &method).unwrap();
    assert_eq!(scored.1, b(5.0));
    // The distance is two in the second period.
    assert_eq!(seen.borrow()[2], vec![120.0, 0.0, 60.0, 3.0, 40.0, 0.0]);
}

#[test]
fn joint_cells_lose_their_own_weight() {
    let y = table(&[&[1.0, 2.0], &[f64::NAN, 3.0], &[4.0, 5.0]]);
    let d = table(&[&[0.0, 0.0], &[0.0, 0.0], &[0.0, 1.0]]);
    let l = lambdas(1.0, 2.0, f64::INFINITY);
    let delta = table(&[&[1.0, 1.0], &[1.0, 0.0]]);
    let without = leave_out(&delta, (1, 0));
    assert_eq!(floats(&without.data), vec![1.0, 1.0, 0.0, 0.0]);
    let cells = vec![(0, 0), (1, 0), (2, 0)];
    let roots = RefCell::new(Vec::new());
    let solve = |a: &Vec<u64>, _: &Vec<u64>, _: usize, cols: usize| {
        roots.borrow_mut().push(floats(&a[..6]));
        Some(encoded(&vec![0.0; cols]))
    };
    let method = joint_method(&solve, &one_up, &beyond);
    let r = loocv_score_joint(&y, &d, None, &cells, l, 1, &method, bits::INFINITY);
    assert_eq!((f(r.score), r.n_valid, r.first_failed), (17.0, 2, None));
    let seen = vec![
        vec![0.0, 1.0, 0.0, 1.0, 1.0, 0.0],
        vec![1.0, 1.0, 0.0, 1.0, 1.0, 0.0],
        vec![1.0, 1.0, 0.0, 1.0, 0.0, 0.0],
    ];
    assert_eq!(*roots.borrow(), seen);
    let r = loocv_score_joint_full_diagnostic(&y, &d, None, &cells, l, 1, &method);
    assert_eq!((f(r.score), r.n_valid), (17.0, 2));
    let lose = |a: &Vec<u64>, _: &Vec<u64>, _: usize, cols: usize| {
        if floats(&a[..6]) == [1.0, 1.0, 0.0, 1.0, 1.0, 0.0] {
            None
        } else {
            Some(encoded(&vec![0.0; cols]))
        }
    };
    let failing = joint_method(&lose, &one_up, &beyond);
    let r = loocv_score_joint_full_diagnostic(&y, &d, None, &cells, l, 1, &failing);
    assert_eq!((r.score, r.failed), (bits::INFINITY, vec![(1, 0)]));
}

#[test]
fn a_penalty_decides_on_the_low_rank_component() {
    let y = table(&[&[1.0, 2.0], &[3.0, 4.0]]);
    let d = table(&[&[0.0, 0.0], &[0.0, 1.0]]);
    let method = joint_method(&no_effects, &one_up, &beyond);
    let (m, it) = fit_panel(&y, &d, None, lambdas(1.0, 2.0, 0.5), 1, &method).unwrap();
    assert_eq!((floats(&m.l.data), it.done), (vec![1.0; 4], 1));
    let (m, it) = fit_panel(&y, &d, None, lambdas(1.0, 2.0, 1e10), 1, &method).unwrap();
    assert_eq!((floats(&m.l.data), it.done, it.converged), (vec![0.0; 4], 1, true));
    let w = weigh_panel(&y, &d, lambdas(1.0, 2.0, 0.5), 1, &method);
    assert_eq!(floats(&w.data), vec![1.0, 1.0, 1.0, 0.0]);
    let give_up = |_: &Vec<u64>, _: &Vec<u64>, _: usize, _: usize| None;
    let failing = joint_method(&give_up, &one_up, &beyond);
    assert!(fit_joint(&y, &w, None, b(0.5), &failing).is_none());
    assert!(fit_joint(&y, &w, None, b(1e10), &failing).is_none());
}

#[test]
fn only_complete_evaluations_lower_the_best_score() {
    assert_eq!(observe_result(b(5.0), &result(1.0), 4), b(1.0));
    assert_eq!(observe_result(b(5.0), &result(1.0), 5), b(5.0));
    assert_eq!(observe_result(b(5.0), &result(f64::NAN), 4), b(5.0));
}

fn settings(lambda_nn: f64, max_iter: usize, covariates: bool) -> FitSettings {
    FitSettings { lambda_nn: b(lambda_nn), max_iter, tol: b(0.1), covariates }
}

/// A model with the given effects and component.
fn twostep_model(alpha: &[f64], beta: &[f64], l: Matrix<u64>) -> TwostepModel {
    TwostepModel { alpha: encoded(alpha), beta: encoded(beta), l, gamma: vec![] }
}

#[test]
fn a_twostep_fit_alternates_between_its_blocks() {
    let y = table(&[&[10.0, f64::NAN], &[30.0, 40.0], &[70.0, 80.0]]);
    let x = table(&[&[1.0], &[2.0], &[3.0], &[4.0], &[5.0], &[6.0]]);
    let mask = Matrix::from_rows(3, 2, vec![1u8, 1, 1, 1, 1, 0]).unwrap();
    let w = table(&[&[0.5, 2.0], &[3.0, 0.0], &[1.0, 4.0]]);
    // Only cell (0, 0) is left with a weight of its own, and (1, 1) without.
    let out = Some((1, 0));
    let calls = RefCell::new(Vec::new());
    let mean = |terms: &Vec<(u64, u64)>, total: u64| {
        let terms: Vec<(f64, f64)> = terms.iter().map(|&(w, r)| (f(w), f(r))).collect();
        calls.borrow_mut().push((terms, f(total)));
        b(calls.borrow().len() as f64)
    };
    let regress = |p: &TwostepProblem, r: &Matrix<u64>, gamma: &Vec<u64>| {
        assert_eq!((p.rows.clone(), floats(gamma)), (vec![0, 4], vec![0.0]));
        // Outcomes less the effects and the component.
        assert_eq!(floats(&r.data), vec![6.9, -8.2, -22.3, 12.6, 65.5, -9.6]);
        encoded(&[0.25])
    };
    let proximal = |p: &TwostepProblem,
                    fresh: bool,
                    target: &Matrix<u64>,
                    l: &Matrix<u64>,
                    m: &Momentum| {
        assert_eq!(floats(&p.y.data), vec![10.0, 0.0, 0.0, 40.0, 70.0, 0.0]);
        assert_eq!(p.valid.data, vec![true, false, false, true, true, false]);
        assert_eq!(p.support.data, vec![true, false, false, false, true, false]);
        assert_eq!(floats(&p.weights.data), vec![0.5, 0.0, 0.0, 0.0, 1.0, 0.0]);
        assert_eq!((f(p.largest), f(p.lambda_nn)), (1.0, 1.5));
        assert_eq!(p.x.as_ref().map(|v| v.data.clone()), Some(x.data.clone()));
        assert!(fresh);
        assert_eq!((floats(&m.previous.data), f(m.factor)), (vec![0.0; 6], 1.0));
        // The component itself where nothing is fitted with a weight.
        assert_eq!(floats(&target.data), vec![6.75, 0.2, 0.3, 0.4, 64.75, 0.6]);
        marked(l, m, 7.0)
    };
    let effect =
        |_: &Matrix<u64>, _: Option<&Matrix<u64>>, _: &TwostepModel, _: (usize, usize)| b(0.0);
    let method = TwostepMethod {
        max_iter: 1,
        tol: b(0.1),
        rms: &rms,
        time_decay: &flat_time,
        unit_decay: &flat_unit,
        multiply: &multiply,
        subtract: &subtract,
        sum: &total,
        dot: &dot,
        weighted_mean: &mean,
        covariate_fit: &regress,
        proximal: &proximal,
        effect: &effect,
        add_square: &add_square,
    };
    let l = table(&[&[0.1, 0.2], &[0.3, 0.4], &[0.5, 0.6]]);
    let from = Some(twostep_model(&[5.0, 6.0], &[20.0, 21.0, 22.0], l));
    let (m, it) = estimate_model(&y, Some(&x), &mask, &w, out, b(1.5), &from, None, &method).unwrap();
    assert_eq!((it.done, it.converged), (1, false));
    let calls = calls.borrow();
    // The first unit, less the period effects; the second one has no weight.
    assert_eq!(calls[0].1, 1.5);
    assert_eq!(calls[0].0, vec![(0.5, -10.1), (0.0, -21.3), (1.0, 47.5)]);
    // The first and the last period, less the new unit effects.
    assert_eq!(calls[1], (vec![(0.5, 8.9), (0.0, -6.2)], 0.5));
    assert_eq!(calls[2], (vec![(1.0, 68.5), (0.0, -6.6)], 1.0));
    assert_eq!(calls.len(), 3);
    assert_eq!(floats(&m.alpha), vec![1.0, 6.0]);
    assert_eq!(floats(&m.beta), vec![2.0, 21.0, 3.0]);
    assert_eq!((floats(&m.gamma), mark(&m)), (vec![0.25], 7.0));
    let mut idle = twostep_method(&count_up, &effect);
    idle.max_iter = 0;
    let given = encoded(&[4.5]);
    let (m, _) =
        estimate_model(&y, Some(&x), &mask, &w, out, b(1.5), &None, Some(&given), &idle).unwrap();
    assert_eq!((floats(&m.gamma), floats(&m.alpha)), (vec![4.5], vec![0.0; 2]));
}

#[test]
fn a_twostep_fit_comes_to_its_end() {
    let y = table(&[&[1.0, 2.0], &[2.0, 3.0], &[3.0, 4.0]]);
    let mask = Matrix::from_rows(3, 2, vec![1u8; 6]).unwrap();
    let w = table(&[&[1.0, 1.0], &[1.0, 1.0], &[1.0, 0.0]]);
    let effect =
        |_: &Matrix<u64>, _: Option<&Matrix<u64>>, _: &TwostepModel, _: (usize, usize)| b(0.0);
    let stay = |p: &TwostepProblem, _: bool, _: &Matrix<u64>, l: &Matrix<u64>, m: &Momentum| {
        assert_eq!(p.valid.data, vec![true; 6]);
        assert_eq!(p.support.data, vec![true, true, true, true, true, false]);
        (same_values(l), same_momentum(m), FitEvent::Stepped(b(-1.0), b(0.0)))
    };
    let mut method = twostep_method(&stay, &effect);
    method.max_iter = 9;
    let fit = |nn: f64, from: &Option<TwostepModel>, method: &Twostep<_, _>| {
        estimate_model(&y, None, &mask, &w, None, b(nn), from, None, method)
    };
    let (m, it) = fit(1.0, &None, &method).unwrap();
    assert_eq!((it.done, it.converged, floats(&m.l.data)), (1, true, vec![0.0; 6]));
    // Without a penalty the component takes over the residuals, but where there
    // is no weight.
    let (m, it) = fit(0.0, &None, &method).unwrap();
    assert_eq!((it.done, it.converged), (2, true));
    assert_eq!(floats(&m.l.data), vec![1.0, 2.0, 2.0, 3.0, 3.0, 0.0]);
    // Without an iteration the model stays where it starts.
    method.max_iter = 0;
    let l = table(&[&[1.0; 2], &[2.0; 2], &[3.0; 2]]);
    let from = Some(twostep_model(&[5.0, 6.0], &[7.0, 8.0, 9.0], l));
    let (m, it) = fit(1.0, &from, &method).unwrap();
    assert_eq!((it.done, it.converged), (0, false));
    assert_eq!((floats(&m.alpha), floats(&m.beta)), (vec![5.0, 6.0], vec![7.0, 8.0, 9.0]));
    assert_eq!(floats(&m.l.data), vec![1.0, 1.0, 2.0, 2.0, 3.0, 3.0]);
    let fail = |_: &TwostepProblem, _: bool, _: &Matrix<u64>, l: &Matrix<u64>, m: &Momentum| given_up(l, m);
    let failing = twostep_method(&fail, &effect);
    let r = estimate_model(&y, None, &mask, &w, None, b(1.0), &None, None, &failing);
    assert!(r.is_none());
}

#[test]
fn leaving_a_cell_out_is_masking_it() {
    let y = table(&[&[1.0, 2.0], &[3.0, 4.0]]);
    let other = table(&[&[1.0, 2.0], &[3.0, -7.0]]);
    let mask = Matrix::from_rows(2, 2, vec![1u8; 4]).unwrap();
    let masked = Matrix::from_rows(2, 2, vec![1u8, 1, 1, 0]).unwrap();
    let w = table(&[&[0.5, 2.0], &[3.0, 4.0]]);
    let proximal = |p: &TwostepProblem, _: bool, target: &Matrix<u64>, _: &Matrix<u64>, m: &Momentum| {
        assert_eq!(floats(&p.weights.data), vec![0.5, 2.0, 3.0, 0.0]);
        (same_values(target), same_momentum(m), FitEvent::Stepped(b(-1.0), b(0.01)))
    };
    let effect =
        |_: &Matrix<u64>, _: Option<&Matrix<u64>>, _: &TwostepModel, _: (usize, usize)| b(0.0);
    let method = twostep_method(&proximal, &effect);
    let fit = |y: &Matrix<u64>, mask: &Matrix<u8>, out: Option<(usize, usize)>| {
        let (m, it) = estimate_model(y, None, mask, &w, out, b(0.5), &None, None, &method).unwrap();
        (floats(&m.l.data), it)
    };
    let a = fit(&y, &mask, Some((1, 1)));
    assert_eq!(a, fit(&y, &masked, None));
    assert_eq!(a, fit(&other, &mask, Some((1, 1))));
    assert_eq!(a.0, vec![1.0, 2.0, 3.0, 0.0]);
}

#[test]
fn a_joint_fit_ends_with_a_solve() {
    let y = table(&[&[1.0, f64::INFINITY], &[3.0, 4.0]]);
    let w = table(&[&[0.25, 2.0], &[1.0, 0.0]]);
    let x = table(&[&[5.0], &[6.0], &[7.0], &[8.0]]);
    let responses = RefCell::new(Vec::new());
    let solve = |a: &Vec<u64>, r: &Vec<u64>, rows: usize, cols: usize| {
        assert_eq!((rows, cols), (4, 4));
        assert_eq!(floats(&a[..4]), vec![0.5, 0.0, 1.0, 0.0]);
        responses.borrow_mut().push(floats(r));
        let n = responses.borrow().len() as f64;
        Some(encoded(&[n, 10.0 * n, 100.0 * n, 0.0]))
    };
    let proximal = |p: &JointProblem,
                    fresh: bool,
                    c: &JointCoefficients,
                    from: &Matrix<u64>,
                    l: &Matrix<u64>,
                    m: &Momentum| {
        assert_eq!(floats(&p.y.data), vec![1.0, 0.0, 3.0, 4.0]);
        assert_eq!(floats(&p.weights.data), vec![0.25, 0.0, 1.0, 0.0]);
        assert_eq!((f(p.largest), f(p.lambda_nn)), (1.0, 1.0));
        assert_eq!(p.x.as_ref().map(|v| v.data.clone()), Some(x.data.clone()));
        assert!(fresh);
        assert_eq!((f(c.mu), from.data.clone(), f(m.factor)), (1.0, l.data.clone(), 1.0));
        one_up(p, fresh, c, from, l, m)
    };
    let (m, it) = solve_joint_with_lowrank(
        &y,
        &w,
        Some(&x),
        settings(1.0, 1, true),
        &subtract,
        &total,
        &root,
        &multiply,
        &solve,
        &proximal,
    )
    .unwrap();
    assert_eq!((it.done, it.converged), (1, false));
    assert_eq!(floats(&m.l.data), vec![1.0; 4]);
    // The effects are those of the outcomes less the component.
    assert_eq!((f(m.coefficients.mu), floats(&m.coefficients.beta)), (2.0, vec![0.0, 200.0]));
    assert_eq!(
        *responses.borrow(),
        vec![vec![0.5, 0.0, 3.0, 0.0], vec![0.0, 0.0, 2.0, 0.0]]
    );
    let give_up = |_: &Vec<u64>, _: &Vec<u64>, _: usize, _: usize| None;
    let failed = solve_joint_with_lowrank(
        &y,
        &w,
        None,
        settings(1.0, 9, false),
        &subtract,
        &total,
        &root,
        &multiply,
        &give_up,
        &one_up,
    );
    assert!(failed.is_none());
    // From a low-rank component that no longer changes, the fit settles.
    let stay = |_: &JointProblem,
                _: bool,
                _: &JointCoefficients,
                _: &Matrix<u64>,
                l: &Matrix<u64>,
                m: &Momentum| {
        let same = |t: &Matrix<u64>| Matrix { rows: t.rows, cols: t.cols, data: t.data.clone() };
        let momentum = Momentum { previous: same(&m.previous), factor: m.factor };
        (same(l), momentum, FitEvent::Stepped(b(0.0), b(0.0)))
    };
    let (_, it) = solve_joint_with_lowrank(
        &y,
        &w,
        None,
        settings(1.0, 9, false),
        &subtract,
        &total,
        &root,
        &multiply,
        &no_effects,
        &stay,
    )
    .unwrap();
    assert_eq!((it.done, it.converged), (1, true));
}

#[test]
fn the_least_squares_problem_is_laid_out() {
    let y = table(&[&[1.0, 2.0], &[3.0, f64::NAN]]);
    let w = table(&[&[4.0, 9.0], &[16.0, 1.0]]);
    let x = table(&[&[5.0], &[6.0], &[7.0], &[8.0]]);
    let sum = |v: &Vec<u64>| b(floats(v).iter().sum());
    let root = |v: u64| b(f(v).sqrt());
    let solve = |a: &Vec<u64>, r: &Vec<u64>, rows: usize, cols: usize| {
        assert_eq!((rows, cols), (4, 4));
        assert_eq!(
            floats(a),
            vec![
                2.0, 3.0, 4.0, 0.0, 0.0, 3.0, 0.0, 0.0, 0.0, 0.0, 4.0, 0.0, 10.0, 18.0, 28.0, 0.0
            ]
        );
        assert_eq!(floats(r), vec![2.0, 6.0, 12.0, 0.0]);
        Some(encoded(&[10.0, 20.0, 30.0, 40.0]))
    };
    let c = solve_joint_no_lowrank(&y, &w, Some(&x), &sum, &root, &multiply, &solve).unwrap();
    assert_eq!((f(c.mu), floats(&c.alpha), floats(&c.beta)), (10.0, vec![0.0, 20.0], vec![0.0, 30.0]));
    assert_eq!(c.gamma.map(|g| floats(&g)), Some(vec![40.0]));
    let give_up = |_: &Vec<u64>, _: &Vec<u64>, _: usize, _: usize| None;
    assert!(solve_joint_no_lowrank(&y, &w, None, &sum, &root, &multiply, &give_up).is_none());
    let tiny = |_: &Vec<u64>| b(1e-11);
    assert!(solve_joint_no_lowrank(&y, &w, Some(&x), &tiny, &root, &multiply, &solve).is_none());
}

#[test]
fn singular_values_are_shrunk() {
    let m = table(&[&[3.0, 0.0], &[0.0, 1.0]]);
    let decompose = |_: &Matrix<u64>| Some(((), encoded(&[3.0, 1.0])));
    let shrink = |s: u64, t: u64| b((f(s) - f(t)).max(0.0));
    let compose = |_: &(), shrunk: &Vec<u64>, kept: &Vec<usize>| {
        assert_eq!((floats(shrunk), kept.clone()), (vec![1.5, 0.0], vec![0]));
        table(&[&[1.5, 0.0], &[0.0, 0.0]])
    };
    let r = soft_threshold_svd(&m, b(1.5), &decompose, &shrink, &compose).unwrap();
    assert_eq!(floats(&r.data), vec![1.5, 0.0, 0.0, 0.0]);
    let r = soft_threshold_svd(&m, b(0.0), &decompose, &shrink, &compose).unwrap();
    assert_eq!(r.data, m.data);
    let r = soft_threshold_svd(&m, b(5.0), &decompose, &shrink, &compose).unwrap();
    assert_eq!(floats(&r.data), vec![0.0; 4]);
    let holes = table(&[&[3.0, f64::NAN]]);
    let r = soft_threshold_svd(&holes, b(1.5), &decompose, &shrink, &compose).unwrap();
    assert_eq!(floats(&r.data), vec![0.0; 2]);
    let fail = |_: &Matrix<u64>| -> Option<((), Vec<u64>)> { None };
    assert!(soft_threshold_svd(&m, b(1.5), &fail, &shrink, &compose).is_none());
}

#[test]
fn effects_are_averaged() {
    let effects = vec![(b(1.0), 0), (b(4.0), 1)];
    assert_eq!(average_effects(&effects, None, &average), Some(b(2.5)));
    let weights = encoded(&[1.0, 2.0]);
    assert_eq!(average_effects(&effects, Some(&weights), &average), Some(b(3.0)));
    assert_eq!(average_effects(&effects, Some(&encoded(&[0.0, -1.0])), &average), None);
    assert_eq!(average_effects(&vec![], None, &average), None);
}

#[test]
fn a_twostep_replicate_is_estimated() {
    let y = table(&[&[1.0, 2.0, 3.0], &[4.0, 5.0, 60.0]]);
    let d = table(&[&[0.0, 0.0, 0.0], &[0.0, 0.0, 1.0]]);
    let mask = Matrix::from_rows(2, 3, vec![1u8; 6]).unwrap();
    let c = classify_units(&d);
    let time_dist = periods(2);
    let l = lambdas(1.0, 2.0, 3.0);
    // The effect of a cell is its outcome.
    let effect = |y: &Matrix<u64>,
                  _: Option<&Matrix<u64>>,
                  m: &TwostepModel,
                  cell: (usize, usize)| {
        assert_eq!((mark(m), cell), (1.0, (1, 2)));
        y.get(1, 2)
    };
    // Nothing is left out of the fit.
    let proximal = |p: &TwostepProblem, _: bool, _: &Matrix<u64>, l: &Matrix<u64>, m: &Momentum| {
        assert_eq!((p.valid.data.clone(), f(p.lambda_nn)), (vec![true; 6], 3.0));
        marked(l, m, f(l.get(0, 0)) + 1.0)
    };
    let method = twostep_method(&proximal, &effect);
    let outcome = |weights: Option<&Vec<u64>>| {
        twostep_outcome(&y, &d, &mask, None, &time_dist, weights, &c, l, 5, 1, &method, &average)
    };
    assert_eq!(outcome(None), Some(b(60.0)));
    assert_eq!(outcome(Some(&encoded(&[1.0, 1.0, 0.5]))), Some(b(60.0)));
    assert_eq!(outcome(Some(&encoded(&[1.0, 1.0, 0.0]))), None);
    let lost =
        |_: &Matrix<u64>, _: Option<&Matrix<u64>>, _: &TwostepModel, _: (usize, usize)| b(f64::NAN);
    let nothing = twostep_method(&proximal, &lost);
    let r =
        twostep_outcome(&y, &d, &mask, None, &time_dist, None, &c, l, 5, 1, &nothing, &average);
    assert_eq!(r, None);
    let all = table(&[&[0.0, 1.0], &[1.0, 1.0]]);
    let y2 = table(&[&[1.0, 2.0], &[3.0, 4.0]]);
    let mask2 = Matrix::from_rows(2, 2, vec![1u8; 4]).unwrap();
    let c2 = classify_units(&all);
    let r =
        twostep_outcome(&y2, &all, &mask2, None, &time_dist, None, &c2, l, 5, 1, &method, &average);
    assert_eq!(r, None);
}

#[test]
fn a_joint_replicate_is_estimated() {
    let y = table(&[&[1.0, 2.0, 3.0], &[4.0, 5.0, 60.0]]);
    let d = table(&[&[0.0, 0.0, 0.0], &[0.0, 0.0, 1.0]]);
    let c = classify_units(&d);
    let method = joint_method(&no_effects, &one_up, &beyond);
    let outcome = |weights: Option<&Vec<u64>>, nn: f64| {
        let l = lambdas(1.0, 2.0, nn);
        joint_outcome(&y, &d, None, weights, &c, l, 1, 3, 2, &method, &average)
    };
    assert_eq!(outcome(None, 0.5), Some(b(59.0)));
    assert_eq!(outcome(None, 1e10), Some(b(60.0)));
    assert_eq!(outcome(Some(&encoded(&[1.0, 1.0, 3.0])), 0.5), Some(b(59.0)));
    assert_eq!(outcome(Some(&encoded(&[1.0, 1.0, f64::NAN])), 0.5), None);
    let l = lambdas(1.0, 2.0, 0.5);
    let give_up = |_: &Vec<u64>, _: &Vec<u64>, _: usize, _: usize| None;
    let failing = joint_method(&give_up, &one_up, &beyond);
    let r = joint_outcome(&y, &d, None, None, &c, l, 1, 3, 2, &failing, &average);
    assert_eq!(r, None);
    // Without a treated cell the effect is zero under a low-rank component.
    let idle = table(&[&[0.0; 3], &[0.0; 3]]);
    let c = classify_units(&idle);
    let outcome = |weights: Option<&Vec<u64>>, nn: f64| {
        let l = lambdas(1.0, 2.0, nn);
        joint_outcome(&y, &idle, None, weights, &c, l, 2, 3, 2, &method, &average)
    };
    assert_eq!(outcome(None, 0.5), Some(b(0.0)));
    assert_eq!(outcome(None, 1e10), None);
    assert_eq!(outcome(Some(&encoded(&[1.0; 3])), 0.5), None);
}

#[test]
fn twostep_estimates_need_a_fit() {
    let y = table(&[&[0.0; 3]]);
    let cells = vec![(0, 0), (0, 1), (0, 2)];
    let it = |done: usize| Iterations { done, converged: done < 3 };
    let model = |v: f64| twostep_model(&[0.0; 3], &[0.0], table(&[&[v; 3]]));
    let fits = vec![Some((model(2.0), it(2))), None, Some((model(5.0), it(5)))];
    let effect = |_: &Matrix<u64>,
                  _: Option<&Matrix<u64>>,
                  m: &TwostepModel,
                  cell: (usize, usize)| b(mark(m) + cell.1 as f64);
    let e = conclude_twostep(&y, None, &cells, &fits, None, &effect, &average).unwrap();
    assert_eq!((f(e.att), e.effects.clone()), (4.5, vec![(b(2.0), 0), (b(7.0), 2)]));
    assert_eq!((e.summary.n_successful, e.summary.max_iters), (2, 5));
    assert_eq!(e.summary.converged_by_obs, vec![1, -1, 0]);
    let weights = encoded(&[0.0, 1.0, 2.0]);
    let e = conclude_twostep(&y, None, &cells, &fits, Some(&weights), &effect, &average);
    assert_eq!(f(e.unwrap().att), 7.0);
    let zero = encoded(&[0.0; 3]);
    let e = conclude_twostep(&y, None, &cells, &fits, Some(&zero), &effect, &average);
    assert_eq!(e.err(), Some(TropError::Convergence));
    let failed: Vec<Option<(TwostepModel, Iterations)>> = vec![None, None, None];
    let e = conclude_twostep(&y, None, &cells, &failed, None, &effect, &average);
    assert_eq!(e.err(), Some(TropError::Convergence));
    let e = conclude_twostep(&y, None, &vec![], &vec![], None, &effect, &average);
    assert_eq!(e.err(), Some(TropError::NoTreated));
}

#[test]
fn treated_cells_are_estimated_one_by_one() {
    let y = table(&[&[1.0, 2.0, 3.0], &[4.0, 50.0, 60.0]]);
    let d = table(&[&[0.0; 3], &[0.0, 1.0, 1.0]]);
    let idle = table(&[&[0.0; 3], &[0.0; 3]]);
    let mask = Matrix::from_rows(2, 3, vec![1u8, 1, 1, 1, 0, 0]).unwrap();
    let time_dist = periods(2);
    // Every fit starts from zero and leaves nothing out.
    let proximal = |p: &TwostepProblem, _: bool, _: &Matrix<u64>, l: &Matrix<u64>, m: &Momentum| {
        assert_eq!(p.valid.data, vec![true, true, true, true, false, false]);
        assert_eq!((f(l.get(0, 0)), f(p.lambda_nn)), (0.0, 1e10));
        marked(l, m, 1.0)
    };
    let effect = |y: &Matrix<u64>,
                  _: Option<&Matrix<u64>>,
                  _: &TwostepModel,
                  cell: (usize, usize)| y.get(cell.0, cell.1);
    let method = twostep_method(&proximal, &effect);
    let l = lambdas(1.0, 2.0, f64::INFINITY);
    let run = |d: &Matrix<u64>| {
        let cache = UnitDistanceCache::build(&y, d);
        let panel = TwostepPanel {
            y: &y,
            d,
            x: None,
            control_mask: &mask,
            time_dist: &time_dist,
            cache: &cache,
        };
        estimate_twostep(&panel, None, l, &method, &average)
    };
    let (e, fits) = run(&d).unwrap();
    assert_eq!((f(e.att), e.effects.clone()), (55.0, vec![(b(50.0), 1), (b(60.0), 2)]));
    assert_eq!((e.summary.n_successful, fits.len()), (2, 2));
    assert_eq!(run(&idle).err(), Some(TropError::NoTreated));
}

#[test]
fn joint_estimates_fall_back() {
    let y = table(&[&[1.0, 2.0], &[4.0, f64::NAN], &[7.0, 8.0]]);
    let d = table(&[&[0.0, 0.0], &[0.0, 1.0], &[0.0, 1.0]]);
    let method = joint_method(&no_effects, &one_up, &beyond);
    let estimate = |d: &Matrix<u64>, weights: Option<&Vec<u64>>, nn: f64| {
        let l = lambdas(1.0, 2.0, nn);
        estimate_joint(&y, d, None, weights, l, &method, &average)
    };
    let e = estimate(&d, None, 0.1).unwrap();
    assert_eq!((f(e.att), e.effects.clone(), e.iterations.done), (7.0, vec![(b(7.0), 1)], 1));
    let e = estimate(&d, None, f64::INFINITY).unwrap();
    assert_eq!((f(e.att), e.effects.clone()), (8.0, vec![(b(8.0), 1)]));
    let e = estimate(&d, Some(&encoded(&[1.0, 3.0])), 0.1).unwrap();
    assert_eq!(f(e.att), 7.0);
    assert!(f(estimate(&d, Some(&encoded(&[0.0, 0.0])), 0.1).unwrap().att).is_nan());
    // Where no treated outcome is observed there is nothing to average.
    let holes = table(&[&[1.0, 2.0], &[4.0, 5.0], &[7.0, f64::NAN]]);
    let late = table(&[&[0.0, 0.0], &[0.0, 0.0], &[0.0, 1.0]]);
    for nn in [0.1, f64::INFINITY] {
        let l = lambdas(1.0, 2.0, nn);
        let e = estimate_joint(&holes, &late, None, None, l, &method, &average).unwrap();
        assert_eq!((f(e.att), e.effects.len()), (0.0, 0));
    }
    let staggered = table(&[&[0.0, 0.0], &[0.0, 1.0], &[1.0, 1.0]]);
    let refused = estimate(&staggered, None, 0.1);
    assert_eq!(refused.err(), Some(TropError::InvalidDimension));
    let give_up = |_: &Vec<u64>, _: &Vec<u64>, _: usize, _: usize| None;
    let failing = joint_method(&give_up, &one_up, &beyond);
    let l = lambdas(1.0, 2.0, 0.1);
    let failed = estimate_joint(&y, &d, None, None, l, &failing, &average);
    assert_eq!(failed.err(), Some(TropError::Convergence));
    let effect = |_: &Matrix<u64>, _: Option<&Matrix<u64>>, m: &f64, cell: (usize, usize)| {
        b(m * cell.1 as f64)
    };
    let cells = vec![(1, 0), (1, 1)];
    assert_eq!(model_effects(&y, None, &8.0, &cells, &effect), vec![(b(0.0), 0), (b(8.0), 1)]);
}

fn spread(values: &Vec<u64>, denominator: usize) -> (u64, u64, u64) {
    let m = f(mean(values));
    let v = floats(values).iter().map(|x| (x - m).powi(2)).sum::<f64>() / denominator as f64;
    (b(m), b(v), b(v.sqrt()))
}

fn blend(low: u64, high: u64, position: usize, idx: u64) -> u64 {
    let fraction = f(idx) - position as f64;
    b(f(low) * (1.0 - fraction) + f(high) * fraction)
}

#[test]
fn variances_run_over_finite_estimates() {
    let of = |v: &[f64], ddof: u8| {
        let r = compute_bootstrap_variance(&encoded(v), ddof, &spread);
        (f(r.0), f(r.1), f(r.2))
    };
    assert_eq!(of(&[1.0, f64::NAN, 5.0], 1), (3.0, 8.0, 8.0_f64.sqrt()));
    assert_eq!(of(&[1.0, 5.0], 0), (3.0, 4.0, 2.0));
    assert_eq!(of(&[7.0, f64::INFINITY], 1), (7.0, 0.0, 0.0));
    assert_eq!(of(&[], 1), (0.0, 0.0, 0.0));
}

#[test]
fn intervals_run_between_percentiles() {
    let ends = |n: usize| (b(0.25 * (n - 1) as f64), b(0.75 * (n - 1) as f64));
    let of = |v: &[f64]| {
        let r = compute_percentile_ci(&encoded(v), &ends, &blend);
        (f(r.0), f(r.1))
    };
    assert_eq!(of(&[4.0, 0.0, 2.0, 1.0, 3.0]), (1.0, 3.0));
    assert_eq!(of(&[2.0, f64::NAN, 0.0]), (0.5, 1.5));
    assert_eq!(of(&[9.0]), (9.0, 9.0));
    assert!(of(&[f64::NAN]).0.is_nan());
    let sorted = encoded(&[1.0, 2.0, 4.0]);
    assert_eq!(f(read_percentile(&sorted, b(1.5), &blend)), 3.0);
    assert_eq!(f(read_percentile(&sorted, b(9.0), &blend)), 4.0);
    assert!(f(read_percentile(&vec![], b(0.0), &blend)).is_nan());
}

#[test]
fn runs_are_summarized() {
    let outcomes = vec![Some(b(1.0)), None, Some(b(f64::NAN)), Some(b(3.0))];
    let ends = |n: usize| (b(0.0), b((n - 1) as f64));
    let r = summarize(&outcomes, 1, b(0.95), &spread, &ends, &blend);
    assert_eq!((r.n_valid, r.n_total, floats(&r.estimates)), (2, 4, vec![1.0, 3.0]));
    assert_eq!((f(r.mean), f(r.se)), (2.0, 2.0_f64.sqrt()));
    assert_eq!((f(r.ci_lower), f(r.ci_upper), f(r.level)), (1.0, 3.0, 0.95));
}

fn correction(n_psu: usize, size: u64) -> Correction {
    let fraction = n_psu as f64 / f(size);
    Correction { fraction: b(fraction), draws: b((1.0 - fraction) * (n_psu as f64 - 1.0)) }
}

#[test]
fn survey_designs_are_planned() {
    let strata = vec![1, 1, 1, 2];
    let psu = vec![10, 11, 12, 20];
    let effects = vec![(b(1.0), 0), (b(3.0), 3)];
    let plan = |effects: &Vec<(u64, usize)>, fpc: Option<&Vec<u64>>, l: LonelyPsuStrategy| {
        plan_resampling(effects, &strata, &psu, fpc, l).map(|g| g.map(|g| g.len()))
    };
    let small = encoded(&[2.0; 4]);
    assert_eq!(plan(&effects, None, LonelyPsuStrategy::Skip), Ok(Some(2)));
    assert_eq!(plan(&vec![], Some(&small), LonelyPsuStrategy::Fail), Ok(None));
    assert_eq!(
        plan(&effects, Some(&small), LonelyPsuStrategy::Fail),
        Err(TropError::InvalidFpc)
    );
    assert_eq!(plan(&effects, None, LonelyPsuStrategy::Fail), Err(TropError::SingletonPsu));

    let fpc = encoded(&[9.0, 9.0, 9.0, 1.0]);
    let groups =
        plan_resampling(&effects, &strata, &psu, Some(&fpc), LonelyPsuStrategy::Skip);
    let groups = groups.unwrap().unwrap();
    let actions = stratum_actions(&groups, LonelyPsuStrategy::Skip, &correction);
    assert_eq!(actions, vec![StratumAction::Redraw(1), StratumAction::Keep]);
    let actions = stratum_actions(&groups, LonelyPsuStrategy::Centered, &correction);
    assert_eq!(actions, vec![StratumAction::Redraw(1), StratumAction::Perturb]);
}

#[test]
fn survey_replicates_are_reweighted() {
    let scales = vec![UnitScale::Unchanged, UnitScale::Perturbed(true)];
    let rescale = |s: UnitScale, w: u64, mean: u64| match s {
        UnitScale::Perturbed(_) => b(f(w) + f(mean)),
        _ => w,
    };
    let weights = encoded(&[1.0, 2.0, 3.0]);
    assert_eq!(floats(&reweight(&weights, &scales, b(5.0), &rescale)), vec![1.0, 7.0, 3.0]);

    let strata = vec![1, 1, 1, 2];
    let psu = vec![10, 11, 12, 20];
    let effects = vec![(b(1.0), 0), (b(2.0), 1), (b(3.0), 2), (b(9.0), 3)];
    let groups = plan_resampling(&effects, &strata, &psu, None, LonelyPsuStrategy::Skip);
    let groups = groups.unwrap().unwrap();
    let actions = stratum_actions(&groups, LonelyPsuStrategy::Skip, &correction);
    assert_eq!(actions, vec![StratumAction::Redraw(2), StratumAction::Keep]);
    let weights = encoded(&[1.0; 4]);
    let total = RefCell::new(0);
    let rescale = |s: UnitScale, w: u64, _: u64| match s {
        UnitScale::Rescaled { n_psu, draws, count } => {
            assert_eq!((n_psu, draws), (3, 2));
            *total.borrow_mut() += count;
            b(f(w) * 1.5 * count as f64)
        }
        _ => w,
    };
    let outcome = |b: usize| {
        let r = survey_outcome(
            &effects,
            &groups,
            &actions,
            &strata,
            &psu,
            &weights,
            bits::ZERO,
            11,
            b,
            &rescale,
            &average,
        );
        f(r.unwrap())
    };
    let first = outcome(0);
    assert_eq!(*total.borrow(), 2);
    assert_eq!(first, outcome(0));
    assert!((1..20).any(|k| outcome(k) != first));
    assert!((0..20).all(|k| outcome(k) >= 3.0 && outcome(k) <= 4.5));
}

#[test]
fn design_effects_are_at_least_one() {
    let effect = |v: &Vec<u64>| b(v.len() as f64 - 1.5);
    assert_eq!(f(compute_kish_deff(&encoded(&[1.0, 2.0]), &effect)), 1.0);
    assert_eq!(f(compute_kish_deff(&encoded(&[1.0, 2.0, 3.0, -1.0]), &effect)), 1.5);
    assert_eq!(f(compute_kish_deff(&encoded(&[5.0, f64::NAN]), &effect)), 1.0);
    assert!(f(compute_kish_deff(&encoded(&[0.0]), &effect)).is_nan());
}

#[test]
fn survey_designs_are_diagnosed() {
    let strata = vec![2, 1, 1];
    let psu = vec![5, 6, 7];
    let weights = encoded(&[1.0; 3]);
    let effect = |_: &Vec<u64>| b(1.25);
    let fraction = |n: usize, size: u64| b(n as f64 / f(size));
    let fpc = encoded(&[10.0, 3.0, 3.0]);
    let r =
        compute_survey_diagnostics(&strata, &psu, Some(&fpc), &weights, &effect, &fraction);
    assert_eq!((f(r.deff_weights), f(r.max_fh), r.n_high_fpc), (1.25, 2.0 / 3.0, 1));
    // The stratum appears second, though its label is the smaller one.
    assert_eq!(r.high_fpc_strata[0].stratum_index, 2);
    let fpc = encoded(&[1.0, 4.0]);
    let (strata2, psu2) = (vec![20, 10], vec![1, 2]);
    let pair = encoded(&[1.0; 2]);
    let r = compute_survey_diagnostics(&strata2, &psu2, Some(&fpc), &pair, &effect, &fraction);
    let high = &r.high_fpc_strata;
    assert_eq!((high.len(), high[0].stratum_index, high[0].n_h), (1, 1, 1));
    assert_eq!((f(high[0].f_h), f(high[0].big_n_h), f(r.max_fh)), (1.0, 1.0, 1.0));
    let r = compute_survey_diagnostics(&strata, &psu, None, &weights, &effect, &fraction);
    assert!(f(r.max_fh).is_nan() && r.high_fpc_strata.is_empty());
    let r = compute_survey_diagnostics(&strata, &psu, Some(&fpc), &vec![], &effect, &fraction);
    assert!(f(r.max_fh).is_nan() && f(r.deff_weights).is_nan());
}

#[test]
fn distances_are_tabulated() {
    let y = table(&[&[0.0, 3.0, 1.0], &[0.0, 4.0, f64::NAN], &[0.0, 100.0, 7.0]]);
    let d = table(&[&[0.0, 0.0, 0.0], &[0.0, 0.0, 0.0], &[0.0, 1.0, 1.0]]);
    let m = compute_unit_distance_matrix_internal(&y, &d, &rms);
    let far = 12.5_f64.sqrt();
    assert_eq!(floats(&m.data), vec![0.0, far, 1.0, far, 0.0, 2.0, 1.0, 2.0, 0.0]);
    let cache = UnitDistanceCache::build(&y, &d);
    assert_eq!(floats(&distance_row(&cache, 0, &rms)), vec![far, 1.0]);
    assert!(distance_row(&cache, 2, &rms).is_empty());
    assert_eq!(f(compute_pair_distance(&cache, 0, 1, Some(1), &rms)), 3.0);
    assert_eq!(f(compute_pair_distance(&cache, 0, 2, Some(0), &rms)), f64::INFINITY);
    assert_eq!(f(separation_value(&cache.y, 0, 1, &Separation::Zero, &rms)), 0.0);
}

#[test]
fn weights_follow_distances() {
    let y = table(&[&[0.0, 3.0, f64::NAN], &[0.0, 4.0, 1.0]]);
    let d = table(&[&[0.0, 0.0, 0.0], &[0.0, 0.0, 1.0]]);
    let time_dist = Matrix::from_rows(2, 2, vec![0i64, 5, 5, 0]).unwrap();
    let time_decay = |bandwidth: u64, v: i64| b(v as f64 + f(bandwidth));
    let unit_decay = |bandwidth: u64, v: u64| b(f(v) * f(bandwidth) / 2.0);
    let weigh = |unit: f64| {
        compute_twostep_weight_vectors(
            &y, &d, 0, 1, b(0.5), b(unit), &time_dist, &rms, &time_decay, &unit_decay,
        )
    };
    let (time, unit) = weigh(1.0);
    assert_eq!((floats(&time), floats(&unit)), (vec![5.5, 0.5], vec![1.0, 1.5, 0.0]));
    assert_eq!(floats(&weigh(2.0).1), vec![1.0, 3.0, 0.0]);
    assert_eq!(floats(&weigh(-0.0).1), vec![1.0; 3]);
    let products = vec![5.5, 8.25, 0.0, 0.5, 0.75, 0.0];
    assert_eq!(floats(&weight_product(&time, &unit, &multiply).data), products);
    let (lt, lu) = (b(0.5), b(1.0));
    let w = compute_weight_matrix(
        &y, &d, 0, 1, lt, lu, &time_dist, &rms, &time_decay, &unit_decay, &multiply,
    );
    assert_eq!(floats(&w.data), products);
    let mut buf = table(&[&[9.0; 3], &[f64::NAN; 3]]);
    compute_weight_matrix_into(
        &mut buf, &y, &d, 0, 1, lt, lu, &time_dist, &rms, &time_decay, &unit_decay, &multiply,
    );
    assert_eq!(floats(&buf.data), products);

    // A small panel is stored densely, whatever its weights.
    let cache = UnitDistanceCache::build(&y, &d);
    let threshold = |t: u64, u: u64| b(f(t) * f(u) / 2.0);
    let share = |kept: usize, all: usize| {
        assert_eq!((kept, all), (2, 6));
        b(kept as f64 / all as f64)
    };
    let r = compute_weight_matrix_adaptive_cached(
        &cache,
        0,
        1,
        lt,
        lu,
        &time_dist,
        &rms,
        &time_decay,
        &unit_decay,
        &multiply,
        &threshold,
        &share,
    );
    assert!(matches!(r, WeightMatrix::Dense(m) if floats(&m.data) == products));
}

#[test]
fn joint_weights_follow_the_treated_trajectory() {
    let y = table(&[&[0.0, 3.0, f64::NAN], &[0.0, 4.0, 1.0], &[5.0, 6.0, 7.0]]);
    let d = table(&[&[0.0, 0.0, 0.0], &[0.0, 0.0, 0.0], &[0.0, 1.0, 1.0]]);
    let time_decay = |bandwidth: u64, doubled: u128| b(doubled as f64 * f(bandwidth));
    let unit_decay = |bandwidth: u64, v: u64| b(f(v) + f(bandwidth));
    let weigh = |treated_periods: usize| {
        compute_joint_weight_vectors(
            &y, &d, b(1.0), b(10.0), treated_periods, &mean, &rms, &time_decay, &unit_decay,
        )
    };
    let (time, unit) = weigh(1);
    assert_eq!(floats(&time), vec![5.0, 3.0, 1.0]);
    let from_control = ((9.0 + 6.25) / 2.0_f64).sqrt() + 10.0;
    let from_first = (2.25 / 2.0_f64).sqrt() + 10.0;
    assert_eq!(floats(&unit), vec![from_control, from_first, 11.5]);
    assert_eq!(floats(&weigh(3).1), vec![1.0; 3]);
    let combine = |t: u64, u: u64, v: u64| b(f(t) * f(u) * (1.0 - f(v)));
    let w = compute_joint_weights(
        &y, &d, b(1.0), b(10.0), 1, &mean, &rms, &time_decay, &unit_decay, &combine,
    );
    let expected = vec![
        5.0 * from_control,
        5.0 * from_first,
        5.0 * 11.5,
        3.0 * from_control,
        3.0 * from_first,
        3.0 * 11.5,
        from_control,
        0.0,
        0.0,
    ];
    assert_eq!(floats(&w.data), expected);
    let mut buf = table(&[&[f64::NAN; 3], &[1.0; 3], &[2.0; 3]]);
    compute_joint_weights_into(
        &mut buf, &y, &d, b(1.0), b(10.0), 1, &mean, &rms, &time_decay, &unit_decay, &combine,
    );
    assert_eq!(floats(&buf.data), expected);
}

/// Lowest and highest.
fn extremes(n: usize) -> (u64, u64) {
    (b(0.0), b((n - 1) as f64))
}

fn midway(lower: u64, upper: u64, _: usize, _: u64) -> u64 {
    b((f(lower) + f(upper)) / 2.0)
}

const RUN: BootstrapRun =
    BootstrapRun { n_bootstrap: 40, seed: 5, ddof: 0, level: 0x3FEE_6666_6666_6666 };

#[test]
fn twostep_runs_summarize_their_replicates() {
    let y = table(&[&[1.0, 2.0, 3.0, 4.0], &[4.0, 5.0, 60.0, 80.0]]);
    let d = table(&[&[0.0, 0.0, 0.0, 0.0], &[0.0, 0.0, 1.0, 1.0]]);
    let mask = Matrix::from_rows(2, 4, vec![1u8; 8]).unwrap();
    let time_dist = periods(2);
    // The effect of a cell is its outcome, and the second fit sees the first.
    let effect = |y: &Matrix<u64>,
                  _: Option<&Matrix<u64>>,
                  m: &TwostepModel,
                  cell: (usize, usize)| {
        assert_eq!(mark(m), cell.1 as f64 - 1.0);
        y.get(cell.0, cell.1)
    };
    let proximal = |p: &TwostepProblem, _: bool, _: &Matrix<u64>, l: &Matrix<u64>, m: &Momentum| {
        assert_eq!(f(p.lambda_nn), 1e10);
        marked(l, m, f(l.get(0, 0)) + 1.0)
    };
    let method = twostep_method(&proximal, &effect);
    let l = lambdas(f64::INFINITY, 2.0, f64::INFINITY);
    let full = bootstrap_trop_variance_full(
        &y, &d, &mask, None, &time_dist, l, RUN, &method, &average, &spread, &extremes, &midway,
    );
    assert_eq!((full.n_valid, full.n_total, f(full.level)), (40, 40, 0.95));
    let estimates = floats(&full.estimates);
    assert!(estimates.iter().all(|e| [60.0, 70.0, 80.0].contains(e)));
    assert!([60.0, 70.0, 80.0].iter().all(|e| estimates.contains(e)));
    assert_eq!((f(full.ci_lower), f(full.ci_upper)), (60.0, 80.0));
    let c = classify_units(&d);
    let effective = lambdas(0.0, 2.0, 1e10);
    for k in 0..40 {
        let one = twostep_outcome(
            &y, &d, &mask, None, &time_dist, None, &c, effective, 5, k, &method, &average,
        );
        assert_eq!(one, Some(full.estimates[k]));
    }
    let (same, se) = bootstrap_trop_variance(
        &y, &d, &mask, None, &time_dist, l, RUN, &method, &average, &spread, &extremes, &midway,
    );
    assert_eq!(same, full.estimates);
    assert!((f(se) / f(full.se) - (40.0_f64 / 39.0).sqrt()).abs() < 1e-12);

    // Only the last unit carries weight: samples without it give nothing.
    let weights = encoded(&[1.0, 1.0, 0.0, 2.0]);
    let r = bootstrap_trop_variance_full_weighted(
        &y, &d, &mask, None, &time_dist, &weights, l, RUN, &method, &average, &spread, &extremes,
        &midway,
    );
    let without = estimates.iter().filter(|e| **e == 60.0).count();
    assert_eq!((r.n_valid, r.n_total), (40 - without, 40));
    assert!(floats(&r.estimates).iter().all(|e| *e == 80.0));
    // Equal weights give the estimates without weights.
    let r = bootstrap_trop_variance_full_weighted(
        &y,
        &d,
        &mask,
        None,
        &time_dist,
        &encoded(&[1.0; 4]),
        l,
        RUN,
        &method,
        &average,
        &spread,
        &extremes,
        &midway,
    );
    assert_eq!(r.estimates, full.estimates);
}

#[test]
fn runs_without_both_groups_have_no_estimates() {
    let y = table(&[&[1.0, 2.0], &[4.0, 5.0]]);
    let mask = Matrix::from_rows(2, 2, vec![1u8; 4]).unwrap();
    let time_dist = periods(2);
    let effect = |y: &Matrix<u64>,
                  _: Option<&Matrix<u64>>,
                  _: &TwostepModel,
                  cell: (usize, usize)| y.get(cell.0, cell.1);
    let method = twostep_method(&count_up, &effect);
    let l = lambdas(1.0, 2.0, 0.5);
    for d in [table(&[&[0.0; 2], &[0.0; 2]]), table(&[&[0.0; 2], &[1.0; 2]])] {
        let r = bootstrap_trop_variance_full(
            &y, &d, &mask, None, &time_dist, l, RUN, &method, &average, &spread, &extremes,
            &midway,
        );
        assert_eq!((r.estimates.len(), r.n_valid, r.n_total), (0, 0, 40));
        assert_eq!((f(r.mean), f(r.se)), (0.0, 0.0));
        assert!(f(r.ci_lower).is_nan() && f(r.ci_upper).is_nan());
    }
}

#[test]
fn joint_runs_summarize_their_replicates() {
    let y = table(&[&[1.0, 2.0, 3.0, 4.0], &[4.0, 5.0, 60.0, 80.0], &[4.0, 5.0, 60.0, 80.0]]);
    let d = table(&[&[0.0; 4], &[0.0, 0.0, 1.0, 1.0], &[0.0, 0.0, 1.0, 1.0]]);
    assert_eq!(treated_period_count(&d), 2);
    assert_eq!(treated_period_count(&table(&[&[0.0], &[0.0]])), 0);
    let method = joint_method(&no_effects, &one_up, &beyond);
    let l = lambdas(1.0, f64::INFINITY, 0.5);
    let full = bootstrap_trop_variance_joint_full(
        &y, &d, None, l, RUN, &method, &average, &spread, &extremes, &midway,
    );
    assert_eq!((full.n_valid, full.n_total), (40, 40));
    assert_eq!((f(full.ci_lower), f(full.ci_upper)), (59.0, 79.0));
    let (same, se) = bootstrap_trop_variance_joint(
        &y, &d, None, l, RUN, &method, &average, &spread, &extremes, &midway,
    );
    assert_eq!(same, full.estimates);
    assert!(f(se) > f(full.se));
    // Without a low-rank component nothing is taken off.
    let plain = lambdas(1.0, f64::INFINITY, f64::INFINITY);
    let r = bootstrap_trop_variance_joint_full(
        &y, &d, None, plain, RUN, &method, &average, &spread, &extremes, &midway,
    );
    assert_eq!((f(r.ci_lower), f(r.ci_upper)), (60.0, 80.0));
    let weights = encoded(&[1.0, 1.0, 1.0, 3.0]);
    let r = bootstrap_trop_variance_joint_full_weighted(
        &y, &d, None, &weights, plain, RUN, &method, &average, &spread, &extremes, &midway,
    );
    assert!(floats(&r.estimates).iter().all(|e| [60.0, 75.0, 80.0].contains(e)));
    assert!(floats(&r.estimates).contains(&75.0));
    // Equal weights give the estimates without weights.
    let r = bootstrap_trop_variance_joint_full_weighted(
        &y,
        &d,
        None,
        &encoded(&[2.0; 4]),
        l,
        RUN,
        &method,
        &average,
        &spread,
        &extremes,
        &midway,
    );
    assert_eq!(r.estimates, full.estimates);
}

fn design(lonely_psu: LonelyPsuStrategy) -> SurveyDesign {
    SurveyDesign {
        strata: vec![1, 1, 1, 2],
        psu: vec![10, 11, 12, 20],
        fpc: None,
        weights: encoded(&[1.0, 1.0, 1.0, 3.0]),
        lonely_psu,
    }
}

/// Mean weight of a sampling unit.
fn center(groups: &Vec<StratumInfo>, weights: &Vec<u64>) -> u64 {
    let psus: Vec<&Vec<usize>> = groups.iter().flat_map(|g| g.psu_to_units.iter()).collect();
    let sum: f64 = psus.iter().flat_map(|u| u.iter()).map(|&u| f(weights[u])).sum();
    b(sum / psus.len() as f64)
}

fn rescale(scale: UnitScale, w: u64, mean: u64) -> u64 {
    match scale {
        UnitScale::Unchanged => w,
        UnitScale::Perturbed(up) => {
            let sign = if up { 1.0 } else { -1.0 };
            b((f(w) + sign * (f(w) - f(mean))).max(0.0))
        }
        UnitScale::Rescaled { n_psu, draws, count } => {
            b(f(w) * (n_psu as f64 / draws as f64) * count as f64)
        }
    }
}

#[test]
fn survey_runs_resample_weights() {
    let y = table(&[&[0.0; 4], &[0.0, 1.0, 2.0, 3.0]]);
    let d = table(&[&[0.0; 4], &[0.0, 1.0, 0.0, 1.0]]);
    let mask = Matrix::from_rows(2, 4, vec![1u8; 8]).unwrap();
    let time_dist = periods(2);
    let cache = UnitDistanceCache::build(&y, &d);
    let panel = TwostepPanel {
        y: &y,
        d: &d,
        x: None,
        control_mask: &mask,
        time_dist: &time_dist,
        cache: &cache,
    };
    // The effect of a cell is its outcome, the number of its unit.
    let effect = |y: &Matrix<u64>,
                  _: Option<&Matrix<u64>>,
                  m: &TwostepModel,
                  cell: (usize, usize)| {
        assert_eq!(mark(m), 1.0);
        y.get(cell.0, cell.1)
    };
    let method = twostep_method(&count_up, &effect);
    let l = lambdas(f64::INFINITY, 2.0, 3.0);
    let run = |design: &SurveyDesign| {
        bootstrap_trop_variance_rao_wu(
            &panel, l, design, RUN, &method, &center, &correction, &rescale, &average, &spread,
            &extremes, &midway,
        )
    };
    let r = run(&design(LonelyPsuStrategy::Skip)).unwrap();
    // The second unit is drawn never, once or twice; the fourth keeps its weight.
    let allowed = [3.0, (1.5 + 9.0) / 4.5, (3.0 + 9.0) / 6.0];
    assert_eq!((r.n_valid, r.n_total), (40, 40));
    assert!(floats(&r.estimates).iter().all(|e| allowed.contains(e)));
    assert!(allowed.iter().all(|e| floats(&r.estimates).contains(e)));
    // Centered at a mean of one and a half, the fourth weighs one and a half
    // or four and a half.
    let r = run(&design(LonelyPsuStrategy::Centered)).unwrap();
    let mut allowed = Vec::new();
    for w in [1.5, 4.5] {
        for drawn in [0.0, 1.5, 3.0] {
            allowed.push((drawn + 3.0 * w) / (drawn + w));
        }
    }
    assert!(floats(&r.estimates).iter().all(|e| allowed.contains(e)));
    assert!(floats(&r.estimates).contains(&2.0));
    assert_eq!(run(&design(LonelyPsuStrategy::Fail)).err(), Some(TropError::SingletonPsu));
    let mut small = design(LonelyPsuStrategy::Skip);
    small.fpc = Some(encoded(&[2.0, 2.0, 2.0, 5.0]));
    assert_eq!(run(&small).err(), Some(TropError::InvalidFpc));

    // Without an effect the design is not looked at.
    let fail = |_: &TwostepProblem, _: bool, _: &Matrix<u64>, l: &Matrix<u64>, m: &Momentum| given_up(l, m);
    let lost = twostep_method(&fail, &effect);
    let r = bootstrap_trop_variance_rao_wu(
        &panel, l, &small, RUN, &lost, &center, &correction, &rescale, &average, &spread,
        &extremes, &midway,
    )
    .unwrap();
    assert_eq!((r.n_valid, r.n_total, f(r.se), f(r.mean)), (0, 40, 0.0, 0.0));
    assert!(f(r.ci_lower).is_nan() && f(r.ci_upper).is_nan());
}

#[test]
fn joint_survey_runs_fit_once() {
    let y = table(&[&[1.0; 4], &[4.0, 11.0, f64::NAN, 13.0]]);
    let d = table(&[&[0.0; 4], &[0.0, 1.0, 1.0, 1.0]]);
    let l = lambdas(1.0, 2.0, f64::INFINITY);
    let fits = RefCell::new(0);
    let solve = |a: &Vec<u64>, r: &Vec<u64>, rows: usize, cols: usize| {
        *fits.borrow_mut() += 1;
        no_effects(a, r, rows, cols)
    };
    let method = joint_method(&solve, &one_up, &beyond);
    let r = bootstrap_trop_variance_rao_wu_joint(
        &y,
        &d,
        None,
        l,
        &design(LonelyPsuStrategy::Skip),
        RUN,
        &method,
        &center,
        &correction,
        &rescale,
        &average,
        &spread,
        &extremes,
        &midway,
    )
    .unwrap();
    assert_eq!(*fits.borrow(), 1);
    let allowed = [13.0, 12.0, (1.5 * 11.0 + 3.0 * 13.0) / 4.5];
    assert!(floats(&r.estimates).iter().all(|e| allowed.contains(e)));
    // Strata of one sampling unit each keep their weights.
    let mut lonely = design(LonelyPsuStrategy::Skip);
    lonely.strata = vec![1, 2, 3, 4];
    for seed in [RUN.seed, 0, 7, u64::MAX] {
        let r = bootstrap_trop_variance_rao_wu_joint(
            &y,
            &d,
            None,
            l,
            &lonely,
            BootstrapRun { seed, ..RUN },
            &method,
            &center,
            &correction,
            &rescale,
            &average,
            &spread,
            &extremes,
            &midway,
        )
        .unwrap();
        assert_eq!(floats(&r.estimates), vec![(11.0 + 3.0 * 13.0) / 4.0; 40]);
        assert_eq!((r.n_valid, r.n_total), (40, 40));
    }
    let give_up = |_: &Vec<u64>, _: &Vec<u64>, _: usize, _: usize| None;
    let failing = joint_method(&give_up, &one_up, &beyond);
    let r = bootstrap_trop_variance_rao_wu_joint(
        &y,
        &d,
        None,
        l,
        &design(LonelyPsuStrategy::Fail),
        RUN,
        &failing,
        &center,
        &correction,
        &rescale,
        &average,
        &spread,
        &extremes,
        &midway,
    )
    .unwrap();
    assert_eq!((r.n_valid, r.n_total), (0, 40));
}

#[test]
fn test_max_abs_diff() {
    let x = encoded(&[1.0, 2.0, 3.0]);
    let y = encoded(&[1.1, 1.9, 3.5]);

    let diff = f(max_abs_diff(&x, &y, &subtract));
    assert!((diff - 0.5).abs() < 1e-10);
}

#[test]
fn test_max_abs_diff_2d() {
    let x = table(&[&[1.0, 2.0], &[3.0, 4.0]]);
    let y = table(&[&[1.1, 2.2], &[2.5, 4.0]]);

    let diff = f(max_abs_diff_2d(&x, &y, &subtract));
    assert!((diff - 0.5).abs() < 1e-10);
}

#[test]
fn differences_that_are_not_numbers_are_passed_over() {
    let x = encoded(&[1.0, f64::NAN, -5.0, 100.0]);
    let y = encoded(&[4.0, 2.0, -1.0]);
    assert_eq!(f(max_abs_diff(&x, &y, &subtract)), 4.0);
    assert_eq!(f(max_abs_diff(&encoded(&[f64::NAN]), &y, &subtract)), 0.0);
}

fn evaluation(nn: f64, score: f64) -> Evaluation {
    Evaluation {
        value: b(nn),
        candidate: Candidate { lambdas: lambdas(0.0, 0.0, nn), score: b(score) },
        n_valid: 1,
        first_failed: None,
    }
}

#[test]
fn the_simplest_of_the_tied_minima_wins() {
    let start = evaluation(0.0, f64::INFINITY);
    let evals = vec![
        evaluation(9.0, 5.0),
        evaluation(1.0, 2.0 + 3e-11),
        evaluation(3.0, 2.0 + 6e-11),
        evaluation(2.0, 2.0),
        evaluation(3.0, 2.0 + 1e-11),
    ];
    let best = select(start, &evals, &subtract);
    assert_eq!((f(best.value), f(best.candidate.score)), (3.0, 2.0 + 6e-11));

    // The first was given up early, at a score that is still worse.
    let mut given = evals.clone();
    given[0] = evaluation(9.0, 3.0);
    assert_eq!(select(start, &given, &subtract), best);
}

#[test]
fn ties_may_add_up_along_a_chain() {
    let start = evaluation(0.0, f64::INFINITY);
    let chain = vec![
        evaluation(1.0, 1.0),
        evaluation(2.0, 1.0 + 9e-11),
        evaluation(3.0, 1.0 + 18e-11),
    ];
    let best = select(start, &chain, &subtract);
    assert_eq!(f(best.value), 3.0);
    assert!(f(best.candidate.score) <= 1.0 + 3.0 * 1e-10);
}

#[test]
fn cells_are_split_into_consecutive_chunks() {
    let cells: Vec<(usize, usize)> = (0..7).map(|i| (0, i)).collect();
    let chunks = split_cells(&cells, 3);
    assert_eq!(chunks, vec![cells[..3].to_vec(), cells[3..6].to_vec(), cells[6..].to_vec()]);
    assert_eq!(split_cells(&cells, 10), vec![cells.clone()]);
    assert!(split_cells(&vec![], 3).is_empty());
}

#[test]
fn chunks_start_without_a_model() {
    let y = table(&[&[0.0, 1.0, 4.0, 9.0, 16.0]]);
    let d = table(&[&[0.0; 5]]);
    let mask = Matrix::from_rows(1, 5, vec![1u8; 5]).unwrap();
    let time_dist = periods(1);
    let cache = UnitDistanceCache::build(&y, &d);
    let panel = TwostepPanel {
        y: &y,
        d: &d,
        x: None,
        control_mask: &mask,
        time_dist: &time_dist,
        cache: &cache,
    };
    let cells: Vec<(usize, usize)> = (0..5).map(|i| (0, i)).collect();
    let l = lambdas(1.0, 2.0, 3.0);
    // A model is marked with the number after the unit that was left out, and
    // the effect is the root of the number of the unit.
    let starts = RefCell::new(Vec::new());
    let unit = |p: &TwostepProblem| p.valid.data.iter().position(|v| !*v).unwrap();
    let proximal = |p: &TwostepProblem, _: bool, _: &Matrix<u64>, l: &Matrix<u64>, m: &Momentum| {
        starts.borrow_mut().push(f(l.get(0, 0)));
        marked(l, m, unit(p) as f64 + 1.0)
    };
    let effect = |_: &Matrix<u64>,
                  _: Option<&Matrix<u64>>,
                  m: &TwostepModel,
                  _: (usize, usize)| b((mark(m) - 1.0).sqrt());
    let summed = |sums: &Vec<u64>| {
        let sums = floats(sums);
        assert!((sums[0] - 1.0).abs() + (sums[1] - 5.0).abs() + (sums[2] - 4.0).abs() < 1e-12);
        b(sums.iter().sum::<f64>().round())
    };
    let method = twostep_method(&proximal, &effect);
    let r = loocv_score_for_params_parallel(&panel, &cells, l, 3, &method, &summed);
    assert_eq!((f(r.score), r.n_valid, r.first_failed), (10.0, 5, None));
    assert_eq!(*starts.borrow(), vec![0.0, 1.0, 0.0, 3.0, 0.0]);

    let fail = |p: &TwostepProblem, _: bool, _: &Matrix<u64>, l: &Matrix<u64>, m: &Momentum| {
        if unit(p) >= 3 {
            given_up(l, m)
        } else {
            marked(l, m, 1.0)
        }
    };
    let failing = twostep_method(&fail, &effect);
    let first = |sums: &Vec<u64>| sums[0];
    let r = loocv_score_for_params_parallel(&panel, &cells, l, 3, &failing, &first);
    assert_eq!((r.score, r.n_valid, r.first_failed), (bits::INFINITY, 3, Some((0, 3))));
}

#[test]
fn complete_scores_are_looked_up() {
    let points = vec![lambdas(1.0, 0.0, 0.0), lambdas(2.0, 0.0, 0.0), lambdas(1.0, 0.0, 0.0)];
    let mut cache = ScoreCache::new();
    let calls = RefCell::new(Vec::new());
    // The second point is given up, after one of four cells.
    let score = |_: Layer, l: Lambdas, bound: u64| {
        calls.borrow_mut().push((f(l.time), f(bound)));
        if f(l.time) == 2.0 {
            ScoreResult { score: b(9.0), n_valid: 1, first_failed: None }
        } else {
            result(f(l.time))
        }
    };
    let raise = |lowest: u64| b(f(lowest) + 0.5);
    let inf = bits::INFINITY;
    let layer = Layer::Candidates;
    let r = evaluate_in_turn(&points, layer, 4, inf, &mut cache, &score, &raise);
    assert_eq!(r.iter().map(|r| f(r.score)).collect::<Vec<f64>>(), vec![1.0, 9.0, 1.0]);
    assert_eq!(*calls.borrow(), vec![(1.0, f64::INFINITY), (2.0, 1.5)]);
    assert_eq!(cache.get(points[0]), Some(result(1.0)));
    assert_eq!(cache.get(points[1]), None);

    let grid = encoded(&[3.0, 1.0]);
    let fixed = lambdas(7.0, 0.0, 0.0);
    let found =
        univariate_search_cached_by(&grid, fixed, 0, 4, 2, &mut cache, &score, &raise, &subtract);
    assert_eq!((f(found.0), f(found.1)), (1.0, 1.0));
    assert_eq!(calls.borrow().len(), 3);
    assert_eq!(cache.get(lambdas(3.0, 0.0, 0.0)), Some(result(3.0)));
}

#[test]
fn the_order_of_estimates_does_not_matter() {
    let ends = |n: usize| (b(0.25 * (n - 1) as f64), b(0.75 * (n - 1) as f64));
    let sorted = encoded(&[1.0, 2.0, 4.0, 8.0, f64::NAN]);
    let shuffled = encoded(&[8.0, f64::NAN, 1.0, 4.0, 2.0]);
    let interval = compute_percentile_ci(&sorted, &ends, &blend);
    assert_eq!((f(interval.0), f(interval.1)), (1.75, 5.0));
    assert_eq!(compute_percentile_ci(&shuffled, &ends, &blend), interval);
    // Non-finite estimates and the size of the correction do not matter either.
    let finite = encoded(&[1.0, 2.0, 4.0, 8.0]);
    let v = compute_bootstrap_variance(&sorted, 1, &spread);
    assert_eq!(compute_bootstrap_variance(&finite, 1, &spread), v);
    assert_eq!(compute_bootstrap_variance(&finite, 7, &spread), v);
    assert_ne!(compute_bootstrap_variance(&finite, 0, &spread), v);
}

#[test]
fn outcomes_under_treatment_do_not_weigh() {
    let d = table(&[&[0.0; 3], &[0.0; 3], &[0.0, 0.0, 1.0]]);
    let time_decay = |l: u64, doubled: u128| b(f(l) / (1.0 + doubled as f64));
    let unit_decay = |l: u64, distance: u64| b(f(l) / (1.0 + f(distance)));
    let weights = |last: [f64; 3]| {
        let y = table(&[&[1.0, 2.0, 4.0], &[3.0, 5.0, 9.0], &last]);
        compute_joint_weights(
            &y,
            &d,
            b(1.0),
            b(2.0),
            1,
            &mean,
            &rms,
            &time_decay,
            &unit_decay,
            &untreated_weight,
        )
    };
    let w = weights([1.0, 2.0, 3.0]);
    assert_eq!(weights([-7.0, f64::NAN, 1e9]).data, w.data);
    assert_eq!(f(w.get(2, 2)), 0.0);
    assert!(f(w.get(0, 0)) > 0.0 && f(w.get(0, 0)) != f(w.get(0, 1)));
}

#[test]
fn parameters_are_judged_by_their_criterion() {
    let y = table(&[&[1.0, 2.0, 3.0], &[4.0, 5.0, 6.0]]);
    let d = table(&[&[0.0; 3], &[0.0, 0.0, 1.0]]);
    let controls = Matrix { rows: 2, cols: 3, data: vec![1u8, 1, 1, 1, 1, 0] };
    let time_dist = periods(2);
    let cache = UnitDistanceCache::build(&y, &d);
    let panel = TwostepPanel {
        y: &y,
        d: &d,
        x: None,
        control_mask: &controls,
        time_dist: &time_dist,
        cache: &cache,
    };
    let cells = vec![(0, 0), (0, 1), (0, 2), (1, 0), (1, 1)];
    // The effect of a cell is how far the penalty is from two.
    let keep = |p: &TwostepProblem, _: bool, _: &Matrix<u64>, l: &Matrix<u64>, m: &Momentum| {
        marked(l, m, f(p.lambda_nn))
    };
    let effect = |_: &Matrix<u64>,
                  _: Option<&Matrix<u64>>,
                  m: &TwostepModel,
                  _: (usize, usize)| b((mark(m) - 2.0).min(1e3));
    let method = twostep_method(&keep, &effect);
    let (time, unit) = (encoded(&[0.5]), encoded(&[1.5]));
    let nn = encoded(&[1.0, 2.5, 4.0, f64::INFINITY]);
    let points = vec![lambdas(0.5, 1.5, 1.0), lambdas(0.5, 1.5, 2.5)];
    let scores = score_points(&panel, &cells, &points, &method);
    let values: Vec<f64> = scores.iter().map(|r| f(r.score)).collect();
    assert_eq!(values, vec![5.0, 1.25]);
    let found =
        univariate_loocv_search(&panel, &cells, &nn, lambdas(0.5, 1.5, 0.0), 2, &method, &subtract);
    assert_eq!((f(found.0), f(found.1)), (2.5, 1.25));
    // Looked up, shared out among workers or not, the best value is the same.
    for n_threads in [1, 7] {
        let mut known = ScoreCache::new();
        known.insert(lambdas(0.5, 1.5, 4.0), result(77.0));
        let raise = |lowest: u64| lowest;
        let looked_up = univariate_loocv_search_cached(
            &panel,
            &cells,
            &nn,
            lambdas(0.5, 1.5, 0.0),
            2,
            n_threads,
            &mut known,
            &method,
            &total,
            &raise,
            &subtract,
        );
        assert_eq!(looked_up, found);
        assert_eq!(known.get(lambdas(0.5, 1.5, 4.0)), Some(result(77.0)));
        assert_eq!(known.get(lambdas(0.5, 1.5, 2.5)).map(|r| f(r.score)), Some(1.25));
    }
    let start = lambdas(0.5, 1.5, 4.0);
    let end = cycling_parameter_search(
        &panel, &cells, &time, &unit, &nn, start, 5, &method, &subtract,
    );
    assert_eq!(end, lambdas(0.5, 1.5, 2.5));
    let (r, initial) =
        loocv_grid_search_with_stage1(&panel, &time, &unit, &nn, &method, &subtract).unwrap();
    assert_eq!((r.lambdas, f(r.score), r.n_valid), (lambdas(0.5, 1.5, 2.5), 1.25, 5));
    assert!(nn.contains(&initial.nn) && initial.time == b(0.5) && initial.unit == b(1.5));
    let same = loocv_grid_search(&panel, &time, &unit, &nn, &method, &subtract).unwrap();
    assert_eq!(same, r);
    let all = loocv_grid_search_exhaustive(&panel, &time, &unit, &nn, &method, &subtract).unwrap();
    assert_eq!(all, r);
    let nobody = table(&[&[0.0; 3], &[0.0; 3]]);
    let idle = TwostepPanel { d: &nobody, ..panel };
    let refused = loocv_grid_search_exhaustive(&idle, &time, &unit, &nn, &method, &subtract);
    assert_eq!(refused.err(), Some(TropError::NoTreated));
}

#[test]
fn joint_parameters_are_judged_by_their_criterion() {
    let y = table(&[&[1.0, 2.0], &[4.0, 5.0], &[7.0, 8.0]]);
    let d = table(&[&[0.0, 0.0], &[0.0, 1.0], &[0.0, 1.0]]);
    let controls = Matrix { rows: 3, cols: 2, data: vec![1u8, 1, 1, 0, 1, 0] };
    let method = joint_method(&no_effects, &one_up, &beyond);
    // A low-rank component takes one off every effect, so that keeping it wins.
    let (time, unit) = (encoded(&[1.0]), encoded(&[2.0]));
    let nn = encoded(&[f64::INFINITY, 3.0]);
    let (r, initial) = loocv_cycling_search_joint_with_stage1(
        &y, &d, None, &controls, &time, &unit, &nn, 3, &method, &subtract,
    );
    assert_eq!((r.lambdas, f(r.score), r.n_valid), (lambdas(1.0, 2.0, 3.0), 46.0, 4));
    assert!(nn.contains(&initial.nn));
    let same = loocv_cycling_search_joint(
        &y, &d, None, &controls, &time, &unit, &nn, 3, &method, &subtract,
    );
    assert_eq!(same, r);
    let all =
        loocv_grid_search_joint(&y, &d, None, &controls, &time, &unit, &nn, &method, &subtract);
    assert_eq!(all, r);
}

//! The library at work, with floating-point kernels.
use faer::linalg::solvers::Svd;
use faer::Mat;
use ndarray::{arr2, Array1, Array2, ArrayView2};
use rand::distributions::{Distribution, Uniform};
use rand::SeedableRng;
use rand_xoshiro::Xoshiro256PlusPlus;
use std::cell::RefCell;
use trop::alternating::{self, TwostepModel};
use trop::bits;
use trop::caching::evaluate_in_turn;
use trop::crossval;
use trop::distance::{compute_unit_distance_for_obs, UnitDistanceCache};
use trop::error::TropError;
use trop::estimation::{
    active_mask, delta_is_masked, overlay, safe_denominator, JointCoefficients,
};
use trop::fit::{FitEvent, FitSettings};
use trop::inference::Aggregation;
use trop::joint::{self, JointMethod, JointModel, JointProblem};
use trop::kernels;
use trop::loocv::ScoreResult;
use trop::matrix::Matrix;
use trop::model::{self, TwostepProblem};
use trop::panel::observed_treated_cells;
use trop::replication::{joint_estimate, model_effects};
use trop::search::{parallel_layer, Layer, ScoreCache, Stage, Sweep, TIE_TOL};
use trop::selection::{self, JointCells};
use trop::tuned;
use trop::tuning::Lambdas;
use trop::twostep::{TwostepMethod, TwostepPanel};
use trop::variance::{
    bootstrap_trop_variance_full, bootstrap_trop_variance_full_weighted, BootstrapRun,
};
use trop::weights::{expand, WeightMatrix};
use trop::workers::loocv_score_for_params_parallel;

type View<'a> = ArrayView2<'a, f64>;
type Cell = (usize, usize);

fn mat(a: &View) -> Matrix<u64> {
    let data = a.iter().map(|v| v.to_bits()).collect();
    Matrix { rows: a.nrows(), cols: a.ncols(), data }
}

fn mask(a: &ArrayView2<u8>) -> Matrix<u8> {
    Matrix { rows: a.nrows(), cols: a.ncols(), data: a.iter().copied().collect() }
}

fn floats(values: &[u64]) -> Vec<f64> {
    values.iter().map(|&b| f64::from_bits(b)).collect()
}

fn encoded(values: &[f64]) -> Vec<u64> {
    values.iter().map(|v| v.to_bits()).collect()
}

fn arr(m: &Matrix<u64>) -> Array2<f64> {
    Array2::from_shape_vec((m.rows, m.cols), floats(&m.data)).unwrap()
}

fn largest_difference(a: &[f64], b: &[f64]) -> f64 {
    a.iter().zip(b.iter()).map(|(x, y)| (x - y).abs()).fold(0.0_f64, f64::max)
}

fn difference_2d(a: &Array2<f64>, b: &Array2<f64>) -> u64 {
    let (x, y): (Vec<f64>, Vec<f64>) = (a.iter().copied().collect(), b.iter().copied().collect());
    largest_difference(&x, &y).to_bits()
}

fn subtract(a: u64, b: u64) -> u64 {
    (f64::from_bits(a) - f64::from_bits(b)).to_bits()
}

fn multiply(a: u64, b: u64) -> u64 {
    (f64::from_bits(a) * f64::from_bits(b)).to_bits()
}

fn total(values: &Vec<u64>) -> u64 {
    floats(values).iter().sum::<f64>().to_bits()
}

fn mean(values: &Vec<u64>) -> u64 {
    (floats(values).iter().sum::<f64>() / values.len() as f64).to_bits()
}

/// Root mean square of the differences of some pairs.
fn rms(pairs: &Vec<(u64, u64)>) -> u64 {
    let sum: f64 =
        pairs.iter().map(|&(a, b)| (f64::from_bits(a) - f64::from_bits(b)).powi(2)).sum();
    (sum / pairs.len() as f64).sqrt().to_bits()
}

fn decay(bandwidth: f64, distance: f64) -> u64 {
    (-bandwidth * distance).exp().to_bits()
}

fn soft_threshold_svd(m: &Array2<f64>, threshold: f64) -> Option<Array2<f64>> {
    let (rows, cols) = m.dim();
    let decompose = |_: &Matrix<u64>| {
        let svd = Svd::new(Mat::from_fn(rows, cols, |i, j| m[[i, j]]).as_ref()).ok()?;
        let s = svd.S().column_vector();
        let k = svd.U().ncols().min(svd.V().ncols());
        let singular: Vec<u64> = (0..k).map(|i| s[i].to_bits()).collect();
        Some(((svd.U().to_owned(), svd.V().to_owned()), singular))
    };
    let shrink = |s: u64, t: u64| (f64::from_bits(s) - f64::from_bits(t)).max(0.0).to_bits();
    let compose = |w: &(Mat<f64>, Mat<f64>), shrunk: &Vec<u64>, kept: &Vec<usize>| {
        let mut result = Array2::<f64>::zeros((rows, cols));
        for &idx in kept {
            for i in 0..rows {
                for j in 0..cols {
                    result[[i, j]] += f64::from_bits(shrunk[idx]) * w.0[(i, idx)] * w.1[(j, idx)];
                }
            }
        }
        mat(&result.view())
    };
    let encoded = mat(&m.view());
    model::soft_threshold_svd(&encoded, threshold.to_bits(), &decompose, &shrink, &compose)
        .map(|r| arr(&r))
}

/// Minimum-norm least squares, `a` being stored column by column.
fn least_squares(a: &[u64], b: &[u64], rows: usize, cols: usize) -> Option<Vec<u64>> {
    let (a, b) = (floats(a), floats(b));
    let svd = Svd::new(Mat::from_fn(rows, cols, |i, j| a[j * rows + i]).as_ref()).ok()?;
    let (u, v) = (svd.U(), svd.V());
    let s = svd.S().column_vector();
    let cut = (f64::EPSILON * rows.max(cols) as f64).max(1e-12) * s[0];
    let mut x = vec![0.0_f64; rows.max(cols)];
    for k in 0..rows.min(cols) {
        if s[k] > cut {
            let projected: f64 = (0..rows).map(|i| u[(i, k)] * b[i]).sum();
            for j in 0..cols {
                x[j] += v[(j, k)] * projected / s[k];
            }
        }
    }
    Some(encoded(&x))
}

struct Momentum {
    previous: Array2<f64>,
    t: f64,
}

impl Momentum {
    fn step(
        &mut self,
        l: &mut Array2<f64>,
        target: &Array2<f64>,
        scale: &Array2<f64>,
        threshold: f64,
        fresh: bool,
    ) -> FitEvent {
        if fresh {
            self.t = 1.0;
        }
        let before = l.clone();
        let t_next = (1.0 + (1.0 + 4.0 * self.t * self.t).sqrt()) / 2.0;
        let weight = (self.t - 1.0) / t_next;
        let ahead = &*l + &((&*l - &self.previous) * weight);
        let moved = &ahead + &(scale * &(target - &ahead));
        self.previous = before.clone();
        *l = match soft_threshold_svd(&moved, threshold) {
            Some(next) => next,
            None => return FitEvent::Failed,
        };
        self.t = t_next;
        let overlap: f64 = ((&ahead - &*l) * (&*l - &before)).sum();
        FitEvent::Stepped(overlap.to_bits(), difference_2d(l, &before))
    }
}

fn proximal_threshold(lambda_nn: f64, largest: f64) -> f64 {
    if largest > 0.0 {
        lambda_nn / (2.0 * largest)
    } else {
        lambda_nn / 2.0
    }
}

type TwostepModelResult =
    Option<(Array1<f64>, Array1<f64>, Array2<f64>, usize, bool, Option<Array1<f64>>)>;

fn dot(x: &Vec<u64>, gamma: &Vec<u64>) -> u64 {
    let (x, gamma) = (Array1::from_vec(floats(x)), Array1::from_vec(floats(gamma)));
    x.dot(&gamma).to_bits()
}

fn weighted_mean(terms: &Vec<(u64, u64)>, total: u64) -> u64 {
    let sum: f64 = terms.iter().map(|&(w, r)| f64::from_bits(w) * f64::from_bits(r)).sum();
    (sum / f64::from_bits(safe_denominator(total))).to_bits()
}

fn covariate_fit(problem: &TwostepProblem, residual: &Matrix<u64>, gamma: &Vec<u64>) -> Vec<u64> {
    let xm = arr(problem.x.as_ref().unwrap());
    let (w, r) = (floats(&problem.weights.data), floats(&residual.data));
    let p = xm.ncols();
    let mut a = vec![0.0_f64; p * p];
    let mut b = vec![0.0_f64; p];
    for &k in &problem.rows {
        for j in 0..p {
            b[j] += w[k] * xm[[k, j]] * r[k];
            for m in 0..p {
                a[m * p + j] += w[k] * xm[[k, j]] * xm[[k, m]];
            }
        }
    }
    match least_squares(&encoded(&a), &encoded(&b), p, p) {
        Some(solution) => solution,
        None => gamma.clone(),
    }
}

/// One proximal step of the twostep fit.
fn shrink(
    problem: &TwostepProblem,
    fresh: bool,
    target: &Matrix<u64>,
    l: &Matrix<u64>,
    m: &joint::Momentum,
) -> (Matrix<u64>, joint::Momentum, FitEvent) {
    let w_max = f64::from_bits(problem.largest);
    let factor = if w_max > 0.0 { 1.0 / w_max } else { 1.0 };
    let scale = arr(&problem.weights).mapv(|v| v * factor);
    let threshold = proximal_threshold(f64::from_bits(problem.lambda_nn), w_max);
    proximal_step(&arr(target), l, m, &scale, threshold, fresh)
}

/// One accelerated step towards a target.
fn proximal_step(
    target: &Array2<f64>,
    l: &Matrix<u64>,
    m: &joint::Momentum,
    scale: &Array2<f64>,
    threshold: f64,
    fresh: bool,
) -> (Matrix<u64>, joint::Momentum, FitEvent) {
    let mut momentum = Momentum { previous: arr(&m.previous), t: f64::from_bits(m.factor) };
    let mut next = arr(l);
    let event = momentum.step(&mut next, target, scale, threshold, fresh);
    let kept = joint::Momentum {
        previous: mat(&momentum.previous.view()),
        factor: momentum.t.to_bits(),
    };
    (mat(&next.view()), kept, event)
}

/// Outcome of a cell less what the model explains.
fn twostep_effect(
    y: &Matrix<u64>,
    x: Option<&Matrix<u64>>,
    m: &TwostepModel,
    (t, i): Cell,
) -> u64 {
    assert!(x.is_none());
    let value = |v: u64| f64::from_bits(v);
    (value(y.get(t, i)) - value(m.alpha[i]) - value(m.beta[t]) - value(m.l.get(t, i))).to_bits()
}

fn add_square(sum: u64, tau: u64) -> u64 {
    let tau = f64::from_bits(tau);
    (f64::from_bits(sum) + tau * tau).to_bits()
}

type Number2 = fn(u64, u64) -> u64;
type Reduced = fn(&Vec<u64>) -> u64;
type Paired = fn(&Vec<(u64, u64)>) -> u64;
type DotFn = fn(&Vec<u64>, &Vec<u64>) -> u64;
type MeanFn = fn(&Vec<(u64, u64)>, u64) -> u64;
type CovariateFn = fn(&TwostepProblem, &Matrix<u64>, &Vec<u64>) -> Vec<u64>;
type ShrinkFn = fn(
    &TwostepProblem,
    bool,
    &Matrix<u64>,
    &Matrix<u64>,
    &joint::Momentum,
) -> (Matrix<u64>, joint::Momentum, FitEvent);
type EffectFn<M> = fn(&Matrix<u64>, Option<&Matrix<u64>>, &M, Cell) -> u64;

const RMS: Paired = rms;
const MULTIPLY: Number2 = multiply;
const SUBTRACT: Number2 = subtract;
const UNIT_DECAY: Number2 = unit_decay;
const TIME_DECAY: fn(u64, i64) -> u64 = time_decay;
const ADD_SQUARE: Number2 = add_square;
const TOTAL: Reduced = total;
const DOT: DotFn = dot;
const WEIGHTED_MEAN: MeanFn = weighted_mean;
const COVARIATE_FIT: CovariateFn = covariate_fit;
const SHRINK: ShrinkFn = shrink;
const TWOSTEP_EFFECT: EffectFn<TwostepModel> = twostep_effect;

type Twostep = TwostepMethod<
    'static,
    Paired,
    fn(u64, i64) -> u64,
    Number2,
    Number2,
    Number2,
    Reduced,
    DotFn,
    MeanFn,
    CovariateFn,
    ShrinkFn,
    EffectFn<TwostepModel>,
    Number2,
>;

fn twostep_method(max_iter: usize, tol: f64) -> Twostep {
    TwostepMethod {
        max_iter,
        tol: tol.to_bits(),
        rms: &RMS,
        time_decay: &TIME_DECAY,
        unit_decay: &UNIT_DECAY,
        multiply: &MULTIPLY,
        subtract: &SUBTRACT,
        sum: &TOTAL,
        dot: &DOT,
        weighted_mean: &WEIGHTED_MEAN,
        covariate_fit: &COVARIATE_FIT,
        proximal: &SHRINK,
        effect: &TWOSTEP_EFFECT,
        add_square: &ADD_SQUARE,
    }
}

/// Twostep fit.
fn estimate_model(
    y: &View,
    control_mask: &ArrayView2<u8>,
    weights: &View,
    lambda_nn: f64,
    n_periods: usize,
    n_units: usize,
    max_iter: usize,
    tol: f64,
    exclude: Option<Cell>,
    start: Option<(&Array1<f64>, &Array1<f64>, &Array2<f64>)>,
    x: Option<&View>,
    gamma_start: Option<&Array1<f64>>,
) -> TwostepModelResult {
    assert_eq!(y.dim(), (n_periods, n_units));
    let gamma_init = gamma_start.map(|g| encoded(&g.to_vec()));
    let x = x.map(mat);
    let from = start.map(|(a, b, m)| TwostepModel {
        alpha: encoded(&a.to_vec()),
        beta: encoded(&b.to_vec()),
        l: mat(&m.view()),
        gamma: vec![],
    });
    let (m, it) = alternating::estimate_model(
        &mat(y),
        x.as_ref(),
        &mask(control_mask),
        &mat(weights),
        exclude,
        lambda_nn.to_bits(),
        &from,
        gamma_init.as_ref(),
        &twostep_method(max_iter, tol),
    )?;
    let vector = |v: &Vec<u64>| Array1::from_vec(floats(v));
    let gamma = x.map(|_| vector(&m.gamma));
    Some((vector(&m.alpha), vector(&m.beta), arr(&m.l), it.done, it.converged, gamma))
}

fn square_root(w: u64) -> u64 {
    f64::from_bits(w).max(0.0).sqrt().to_bits()
}

fn solver(a: &Vec<u64>, b: &Vec<u64>, rows: usize, cols: usize) -> Option<Vec<u64>> {
    least_squares(a, b, rows, cols)
}

/// Joint fit without a low-rank component.
fn solve_joint_no_lowrank(
    y: &View,
    delta: &View,
    x: Option<&View>,
) -> Option<(f64, Array1<f64>, Array1<f64>, Option<Array1<f64>>)> {
    let x = x.map(mat);
    let c = model::solve_joint_no_lowrank(
        &mat(y),
        &mat(delta),
        x.as_ref(),
        &total,
        &square_root,
        &multiply,
        &solver,
    )?;
    Some((
        f64::from_bits(c.mu),
        Array1::from_vec(floats(&c.alpha)),
        Array1::from_vec(floats(&c.beta)),
        c.gamma.map(|g| Array1::from_vec(floats(&g))),
    ))
}

type JointLowRankResult =
    Option<(f64, Array1<f64>, Array1<f64>, Array2<f64>, f64, usize, bool, Option<Array1<f64>>)>;

/// Covariate contribution to a cell of a joint fit.
fn joint_covariate_effect(x: Option<&Matrix<u64>>, gamma: &Option<Vec<u64>>, row: usize) -> f64 {
    match (x, gamma) {
        (Some(m), Some(g)) => {
            (0..m.cols).map(|k| f64::from_bits(m.get(row, k)) * f64::from_bits(g[k])).sum()
        }
        _ => 0.0,
    }
}

fn proximal(
    problem: &JointProblem,
    fresh: bool,
    c: &JointCoefficients,
    from: &Matrix<u64>,
    l: &Matrix<u64>,
    m: &joint::Momentum,
) -> (Matrix<u64>, joint::Momentum, FitEvent) {
    let (y, masked) = (arr(&problem.y), arr(&problem.weights));
    let delta_max = f64::from_bits(problem.largest);
    let threshold = proximal_threshold(f64::from_bits(problem.lambda_nn), delta_max);
    let scale = masked.mapv(|v| if delta_max > 0.0 { v / delta_max } else { v });
    let (mu, alpha, beta) = (f64::from_bits(c.mu), floats(&c.alpha), floats(&c.beta));
    let fitted = Array2::from_shape_fn(y.dim(), |(t, i)| {
        let effect = joint_covariate_effect(problem.x.as_ref(), &c.gamma, t * y.ncols() + i);
        y[[t, i]] - mu - alpha[i] - beta[t] - effect
    });
    let active = active_mask(&mat(&scale.view()));
    let target = arr(&overlay(&active, &mat(&fitted.view()), from));
    proximal_step(&target, l, m, &scale, threshold, fresh)
}

/// Outcome of a cell less what the model explains.
fn joint_effect(
    y: &Matrix<u64>,
    x: Option<&Matrix<u64>>,
    m: &JointModel,
    (t, i): Cell,
) -> u64 {
    let c = &m.coefficients;
    (f64::from_bits(y.get(t, i))
        - f64::from_bits(c.mu)
        - f64::from_bits(c.alpha[i])
        - f64::from_bits(c.beta[t])
        - f64::from_bits(m.l.get(t, i))
        - joint_covariate_effect(x, &c.gamma, t * y.cols + i))
    .to_bits()
}

type SolveFn = fn(&Vec<u64>, &Vec<u64>, usize, usize) -> Option<Vec<u64>>;
type StepFn = fn(
    &JointProblem,
    bool,
    &JointCoefficients,
    &Matrix<u64>,
    &Matrix<u64>,
    &joint::Momentum,
) -> (Matrix<u64>, joint::Momentum, FitEvent);

const MEAN: Reduced = mean;
const DOUBLED_DECAY: fn(u64, u128) -> u64 = doubled_decay;
const COMBINE: fn(u64, u64, u64) -> u64 = combine;
const SQUARE_ROOT: fn(u64) -> u64 = square_root;
const SOLVER: SolveFn = solver;
const PROXIMAL: StepFn = proximal;
const JOINT_EFFECT: EffectFn<JointModel> = joint_effect;

type Joint = JointMethod<
    'static,
    Reduced,
    Paired,
    fn(u64, u128) -> u64,
    Number2,
    fn(u64, u64, u64) -> u64,
    Number2,
    Reduced,
    fn(u64) -> u64,
    Number2,
    SolveFn,
    StepFn,
    EffectFn<JointModel>,
    Number2,
>;

fn joint_method(max_iter: usize, tol: f64) -> Joint {
    JointMethod {
        max_iter,
        tol: tol.to_bits(),
        mean: &MEAN,
        rms: &RMS,
        time_decay: &DOUBLED_DECAY,
        unit_decay: &UNIT_DECAY,
        combine: &COMBINE,
        subtract: &SUBTRACT,
        sum: &TOTAL,
        root: &SQUARE_ROOT,
        multiply: &MULTIPLY,
        solve: &SOLVER,
        proximal: &PROXIMAL,
        effect: &JOINT_EFFECT,
        add_square: &ADD_SQUARE,
    }
}

/// Joint fit with a low-rank component.
fn solve_joint_with_lowrank(
    y: &View,
    d: &View,
    delta: &View,
    lambda_nn: f64,
    max_iter: usize,
    tol: f64,
    x: Option<&View>,
) -> JointLowRankResult {
    debug_assert_delta_is_1minus_d_masked(d, delta, "input");
    let settings = FitSettings {
        lambda_nn: lambda_nn.to_bits(),
        max_iter,
        tol: tol.to_bits(),
        covariates: x.is_some(),
    };
    let x = x.map(mat);
    let (m, it) = joint::solve_joint_with_lowrank(
        &mat(y),
        &mat(delta),
        x.as_ref(),
        settings,
        &subtract,
        &total,
        &square_root,
        &multiply,
        &solver,
        &proximal,
    )?;
    let cells = observed_treated_cells(&mat(y), &mat(d));
    let effects = model_effects(&mat(y), x.as_ref(), &m, &cells, &joint_effect);
    let tau = joint_estimate(&effects, None, lambda_nn.to_bits(), &average).unwrap();
    let c = m.coefficients;
    Some((
        f64::from_bits(c.mu),
        Array1::from_vec(floats(&c.alpha)),
        Array1::from_vec(floats(&c.beta)),
        arr(&m.l),
        f64::from_bits(tau),
        it.done,
        it.converged,
        c.gamma.map(|g| Array1::from_vec(floats(&g))),
    ))
}

fn debug_assert_delta_is_1minus_d_masked(d: &View, delta: &View, site: &str) {
    assert!(
        delta_is_masked(&mat(d), &mat(delta)),
        "{}: delta not (1-D)-masked",
        site
    );
}

/// Mean residual over observed treated cells.
fn post_hoc_tau(
    y: &View,
    d: &View,
    mu: f64,
    alpha: &Array1<f64>,
    beta: &Array1<f64>,
    l_opt: Option<&Array2<f64>>,
) -> f64 {
    let cells = observed_treated_cells(&mat(y), &mat(d));
    let sum: f64 = cells
        .iter()
        .map(|&(t, i)| y[[t, i]] - mu - alpha[i] - beta[t] - l_opt.map_or(0.0, |m| m[[t, i]]))
        .sum();
    if cells.is_empty() {
        0.0
    } else {
        sum / cells.len() as f64
    }
}

fn distances_of_time(time_dist: &ArrayView2<i64>) -> Matrix<i64> {
    let data = time_dist.iter().copied().collect();
    Matrix { rows: time_dist.nrows(), cols: time_dist.ncols(), data }
}

fn time_decay(bandwidth: u64, distance: i64) -> u64 {
    decay(f64::from_bits(bandwidth), distance as f64)
}

fn unit_decay(bandwidth: u64, distance: u64) -> u64 {
    decay(f64::from_bits(bandwidth), f64::from_bits(distance))
}

fn doubled_decay(bandwidth: u64, doubled: u128) -> u64 {
    decay(f64::from_bits(bandwidth), doubled as f64 / 2.0)
}

/// Weights centred on one cell.
fn compute_weight_matrix(
    y: &View,
    d: &View,
    _n_periods: usize,
    _n_units: usize,
    target_unit: usize,
    target_period: usize,
    lambda_time: f64,
    lambda_unit: f64,
    time_dist: &ArrayView2<i64>,
) -> Array2<f64> {
    arr(&kernels::compute_weight_matrix(
        &mat(y),
        &mat(d),
        target_unit,
        target_period,
        lambda_time.to_bits(),
        lambda_unit.to_bits(),
        &distances_of_time(time_dist),
        &rms,
        &time_decay,
        &unit_decay,
        &multiply,
    ))
}

/// As [`compute_weight_matrix`], into a buffer.
fn compute_weight_matrix_into(
    buf: &mut Array2<f64>,
    y: &View,
    d: &View,
    _n_periods: usize,
    _n_units: usize,
    target_unit: usize,
    target_period: usize,
    lambda_time: f64,
    lambda_unit: f64,
    time_dist: &ArrayView2<i64>,
) {
    let mut bits = mat(&buf.view());
    kernels::compute_weight_matrix_into(
        &mut bits,
        &mat(y),
        &mat(d),
        target_unit,
        target_period,
        lambda_time.to_bits(),
        lambda_unit.to_bits(),
        &distances_of_time(time_dist),
        &rms,
        &time_decay,
        &unit_decay,
        &multiply,
    );
    buf.assign(&arr(&bits));
}

fn build_cache(y: &View, d: &View) -> UnitDistanceCache {
    UnitDistanceCache::build(&mat(y), &mat(d))
}

/// Weights centred on one cell, with the distances from a cache.
fn compute_weight_matrix_cached(
    cache: &UnitDistanceCache,
    target_unit: usize,
    target_period: usize,
    lambda_time: f64,
    lambda_unit: f64,
    time_dist: &ArrayView2<i64>,
) -> Array2<f64> {
    arr(&kernels::compute_weight_matrix_cached(
        cache,
        target_unit,
        target_period,
        lambda_time.to_bits(),
        lambda_unit.to_bits(),
        &distances_of_time(time_dist),
        &rms,
        &time_decay,
        &unit_decay,
        &multiply,
    ))
}

/// As [`compute_weight_matrix_cached`], into a buffer.
fn compute_weight_matrix_cached_into(
    buf: &mut Array2<f64>,
    cache: &UnitDistanceCache,
    target_unit: usize,
    target_period: usize,
    lambda_time: f64,
    lambda_unit: f64,
    time_dist: &ArrayView2<i64>,
) {
    let mut bits = mat(&buf.view());
    kernels::compute_weight_matrix_cached_into(
        &mut bits,
        cache,
        target_unit,
        target_period,
        lambda_time.to_bits(),
        lambda_unit.to_bits(),
        &distances_of_time(time_dist),
        &rms,
        &time_decay,
        &unit_decay,
        &multiply,
    );
    buf.assign(&arr(&bits));
}

/// Weights centred on one cell, stored sparsely where most are negligible.
fn compute_weight_matrix_adaptive(
    y: &View,
    d: &View,
    _n_periods: usize,
    _n_units: usize,
    target_unit: usize,
    target_period: usize,
    lambda_time: f64,
    lambda_unit: f64,
    time_dist: &ArrayView2<i64>,
) -> WeightMatrix {
    let threshold = |t: u64, u: u64| {
        let largest = f64::from_bits(t) * f64::from_bits(u);
        (if largest > 0.0 { largest * 1e-6 } else { 0.0 }).to_bits()
    };
    let share = |kept: usize, all: usize| (kept as f64 / all as f64).to_bits();
    let (y, d, times) = (mat(y), mat(d), distances_of_time(time_dist));
    let (lt, lu) = (lambda_time.to_bits(), lambda_unit.to_bits());
    kernels::compute_weight_matrix_adaptive(
        &y, &d, target_unit, target_period, lt, lu, &times, &rms, &time_decay, &unit_decay,
        &multiply, &threshold, &share,
    )
}

fn dense_of(w: &WeightMatrix) -> Array2<f64> {
    match w {
        WeightMatrix::Dense(m) => arr(m),
        WeightMatrix::Sparse(s) => arr(&expand(s)),
    }
}

/// Joint time and unit weights.
fn compute_joint_weight_vectors(
    y: &View,
    d: &View,
    lambda_time: f64,
    lambda_unit: f64,
    treated_periods: usize,
) -> (Array1<f64>, Array1<f64>) {
    let (time, unit) = kernels::compute_joint_weight_vectors(
        &mat(y),
        &mat(d),
        lambda_time.to_bits(),
        lambda_unit.to_bits(),
        treated_periods,
        &mean,
        &rms,
        &doubled_decay,
        &unit_decay,
    );
    (Array1::from_vec(floats(&time)), Array1::from_vec(floats(&unit)))
}

/// Joint weights of all cells.
fn compute_joint_weights(
    y: &View,
    d: &View,
    lambda_time: f64,
    lambda_unit: f64,
    treated_periods: usize,
) -> Array2<f64> {
    arr(&kernels::compute_joint_weights(
        &mat(y),
        &mat(d),
        lambda_time.to_bits(),
        lambda_unit.to_bits(),
        treated_periods,
        &mean,
        &rms,
        &doubled_decay,
        &unit_decay,
        &combine,
    ))
}

fn combine(t: u64, u: u64, d: u64) -> u64 {
    (f64::from_bits(t) * f64::from_bits(u) * (1.0 - f64::from_bits(d))).to_bits()
}

/// As [`compute_joint_weights`], into a buffer.
fn compute_joint_weights_into(
    buf: &mut Array2<f64>,
    y: &View,
    d: &View,
    lambda_time: f64,
    lambda_unit: f64,
    treated_periods: usize,
) {
    let mut bits = mat(&buf.view());
    kernels::compute_joint_weights_into(
        &mut bits,
        &mat(y),
        &mat(d),
        lambda_time.to_bits(),
        lambda_unit.to_bits(),
        treated_periods,
        &mean,
        &rms,
        &doubled_decay,
        &unit_decay,
        &combine,
    );
    buf.assign(&arr(&bits));
}

fn lambdas(time: f64, unit: f64, nn: f64) -> Lambdas {
    Lambdas { time: time.to_bits(), unit: unit.to_bits(), nn: nn.to_bits() }
}

fn sum(values: &Vec<u64>) -> u64 {
    floats(values).iter().sum::<f64>().to_bits()
}

/// Twostep cross-validation.
struct TwostepCv<'a> {
    y: Matrix<u64>,
    d: Matrix<u64>,
    control_mask: Matrix<u8>,
    time_dist: Matrix<i64>,
    cache: &'a UnitDistanceCache,
    method: Twostep,
}

impl<'a> TwostepCv<'a> {
    fn new(
        y: &View,
        d: &View,
        control_mask: &ArrayView2<u8>,
        time_dist: &ArrayView2<i64>,
        cache: &'a UnitDistanceCache,
        max_iter: usize,
        tol: f64,
    ) -> TwostepCv<'a> {
        TwostepCv {
            y: mat(y),
            d: mat(d),
            control_mask: mask(control_mask),
            time_dist: distances_of_time(time_dist),
            cache,
            method: twostep_method(max_iter, tol),
        }
    }

    fn panel(&self) -> TwostepPanel<'_> {
        TwostepPanel {
            y: &self.y,
            d: &self.d,
            x: None,
            control_mask: &self.control_mask,
            time_dist: &self.time_dist,
            cache: self.cache,
        }
    }

    fn score(&self, cells: &Vec<Cell>, l: Lambdas, bound: u64) -> ScoreResult {
        crossval::loocv_score_for_params(&self.panel(), cells, l, &self.method, bound)
    }

    fn score_in_chunks(&self, cells: &Vec<Cell>, l: Lambdas, n_threads: usize) -> ScoreResult {
        loocv_score_for_params_parallel(&self.panel(), cells, l, n_threads, &self.method, &sum)
    }
}

type Score = (f64, usize, Option<Cell>);

fn score_tuple(r: ScoreResult) -> Score {
    (f64::from_bits(r.score), r.n_valid, r.first_failed)
}

fn loocv_score_for_params(
    y: &View,
    d: &View,
    control_mask: &ArrayView2<u8>,
    time_dist: &ArrayView2<i64>,
    cache: &UnitDistanceCache,
    cells: &[Cell],
    time: f64,
    unit: f64,
    nn: f64,
    max_iter: usize,
    tol: f64,
    bound: f64,
    _x: Option<&View>,
) -> Score {
    let cv = TwostepCv::new(y, d, control_mask, time_dist, cache, max_iter, tol);
    score_tuple(cv.score(&cells.to_vec(), lambdas(time, unit, nn), bound.to_bits()))
}

fn loocv_score_for_params_full_diagnostic(
    y: &View,
    d: &View,
    control_mask: &ArrayView2<u8>,
    time_dist: &ArrayView2<i64>,
    cache: &UnitDistanceCache,
    cells: &[Cell],
    time: f64,
    unit: f64,
    nn: f64,
    max_iter: usize,
    tol: f64,
    _x: Option<&View>,
) -> (f64, usize, Vec<Cell>) {
    let cv = TwostepCv::new(y, d, control_mask, time_dist, cache, max_iter, tol);
    let r = crossval::loocv_score_for_params_full_diagnostic(
        &cv.panel(),
        &cells.to_vec(),
        lambdas(time, unit, nn),
        &cv.method,
    );
    (f64::from_bits(r.score), r.n_valid, r.failed)
}

fn bound_above(best: u64) -> u64 {
    (f64::from_bits(best) + f64::from_bits(TIE_TOL)).to_bits()
}

/// Evaluates points one after the other, without scores from earlier.
fn evaluate_afresh<F: Fn(Layer, Lambdas, u64) -> ScoreResult>(
    points: &Vec<Lambdas>,
    n_cells: usize,
    hint: u64,
    score: &F,
) -> Vec<ScoreResult> {
    let mut cache = ScoreCache::new();
    let layer = Layer::Candidates;
    evaluate_in_turn(points, layer, n_cells, hint, &mut cache, score, &bound_above)
}

/// Selected parameters, criterion, fitted cells, cells, first failure.
type SearchResult = (f64, f64, f64, f64, usize, usize, Option<Cell>);

fn search_tuple(r: selection::LoocvGridSearchResult) -> SearchResult {
    (
        f64::from_bits(r.lambdas.time),
        f64::from_bits(r.lambdas.unit),
        f64::from_bits(r.lambdas.nn),
        f64::from_bits(r.score),
        r.n_valid,
        r.n_attempted,
        r.first_failed,
    )
}

/// Two-stage search of the twostep parameters.
fn loocv_grid_search(
    y: &View,
    d: &View,
    control_mask: &ArrayView2<u8>,
    time_dist: &ArrayView2<i64>,
    time_grid: &[f64],
    unit_grid: &[f64],
    nn_grid: &[f64],
    max_iter: usize,
    tol: f64,
    _x: Option<&View>,
) -> Result<SearchResult, TropError> {
    let cache = build_cache(y, d);
    let cv = TwostepCv::new(y, d, control_mask, time_dist, &cache, max_iter, tol);
    let n_threads = 3;
    let scores = RefCell::new(ScoreCache::new());
    let evaluate = |cells: &Vec<Cell>, stage: Stage, _: Sweep, points: Vec<Lambdas>| {
        let layer = parallel_layer(points.len(), n_threads);
        let score = |layer: Layer, l: Lambdas, bound: u64| match layer {
            Layer::Candidates => cv.score(cells, l, bound),
            Layer::Observations => cv.score_in_chunks(cells, l, n_threads),
        };
        let mut fresh = ScoreCache::new();
        let mut kept = scores.borrow_mut();
        let cache = if stage.is_cycle() { &mut *kept } else { &mut fresh };
        let n = cells.len();
        evaluate_in_turn(&points, layer, n, bits::INFINITY, cache, &score, &bound_above)
    };
    let (pruned, _) = selection::twostep_search_by(
        &cv.panel(),
        &encoded(time_grid),
        &encoded(unit_grid),
        &encoded(nn_grid),
        &cv.method,
        &evaluate,
        &subtract,
    )?;
    let r = tuned::loocv_grid_search(
        &cv.panel(),
        &encoded(time_grid),
        &encoded(unit_grid),
        &encoded(nn_grid),
        &cv.method,
        &subtract,
    )?;
    assert_eq!(r, pruned);
    Ok(search_tuple(r))
}

/// Search of all combinations of the twostep parameters.
fn loocv_grid_search_exhaustive(
    y: &View,
    d: &View,
    control_mask: &ArrayView2<u8>,
    time_dist: &ArrayView2<i64>,
    time_grid: &[f64],
    unit_grid: &[f64],
    nn_grid: &[f64],
    max_iter: usize,
    tol: f64,
    _x: Option<&View>,
) -> Result<SearchResult, TropError> {
    let cache = build_cache(y, d);
    let cv = TwostepCv::new(y, d, control_mask, time_dist, &cache, max_iter, tol);
    let evaluate = |cells: &Vec<Cell>, points: Vec<Lambdas>| {
        let score = |_: Layer, l: Lambdas, bound: u64| cv.score(cells, l, bound);
        evaluate_afresh(&points, cells.len(), bits::INFINITY, &score)
    };
    let pruned = selection::exhaustive_twostep_search_by(
        &cv.panel(),
        &encoded(time_grid),
        &encoded(unit_grid),
        &encoded(nn_grid),
        &cv.method,
        &evaluate,
        &subtract,
    )?;
    let r = tuned::loocv_grid_search_exhaustive(
        &cv.panel(),
        &encoded(time_grid),
        &encoded(unit_grid),
        &encoded(nn_grid),
        &cv.method,
        &subtract,
    )?;
    assert_eq!(r, pruned);
    Ok(search_tuple(r))
}

/// Joint cross-validation.
struct JointCv {
    y: Matrix<u64>,
    d: Matrix<u64>,
    method: Joint,
}

impl JointCv {
    fn new(y: &View, d: &View, max_iter: usize, tol: f64) -> JointCv {
        JointCv { y: mat(y), d: mat(d), method: joint_method(max_iter, tol) }
    }

    fn score(&self, joint: &JointCells, l: Lambdas, bound: u64) -> ScoreResult {
        crossval::loocv_score_joint(
            &self.y,
            &self.d,
            None,
            &joint.cells,
            l,
            joint.treated_periods,
            &self.method,
            bound,
        )
    }
}

fn loocv_score_joint(
    y: &View,
    d: &View,
    cells: &[Cell],
    time: f64,
    unit: f64,
    nn: f64,
    treated_periods: usize,
    max_iter: usize,
    tol: f64,
    bound: f64,
    _x: Option<&View>,
) -> Score {
    let cv = JointCv::new(y, d, max_iter, tol);
    let joint = JointCells { cells: cells.to_vec(), treated_periods };
    score_tuple(cv.score(&joint, lambdas(time, unit, nn), bound.to_bits()))
}

fn loocv_score_joint_full_diagnostic(
    y: &View,
    d: &View,
    cells: &[Cell],
    time: f64,
    unit: f64,
    nn: f64,
    treated_periods: usize,
    max_iter: usize,
    tol: f64,
    _x: Option<&View>,
) -> (f64, usize, Vec<Cell>) {
    let cv = JointCv::new(y, d, max_iter, tol);
    let r = crossval::loocv_score_joint_full_diagnostic(
        &cv.y,
        &cv.d,
        None,
        &cells.to_vec(),
        lambdas(time, unit, nn),
        treated_periods,
        &cv.method,
    );
    (f64::from_bits(r.score), r.n_valid, r.failed)
}

/// Search of all combinations of the joint parameters.
fn loocv_grid_search_joint(
    y: &View,
    d: &View,
    control_mask: &ArrayView2<u8>,
    time_grid: &[f64],
    unit_grid: &[f64],
    nn_grid: &[f64],
    max_iter: usize,
    tol: f64,
    _x: Option<&View>,
) -> SearchResult {
    trop::loocv::check_simultaneous_adoption(&mat(d)).unwrap();
    let cv = JointCv::new(y, d, max_iter, tol);
    let evaluate = |joint: &JointCells, points: Vec<Lambdas>| {
        let score = |_: Layer, l: Lambdas, bound: u64| cv.score(joint, l, bound);
        evaluate_afresh(&points, joint.cells.len(), bits::INFINITY, &score)
    };
    let pruned = selection::exhaustive_joint_search_by(
        &cv.y,
        &cv.d,
        None,
        &mask(control_mask),
        &encoded(time_grid),
        &encoded(unit_grid),
        &encoded(nn_grid),
        &cv.method,
        &evaluate,
        &subtract,
    );
    let r = tuned::loocv_grid_search_joint(
        &cv.y,
        &cv.d,
        None,
        &mask(control_mask),
        &encoded(time_grid),
        &encoded(unit_grid),
        &encoded(nn_grid),
        &cv.method,
        &subtract,
    );
    assert_eq!(r, pruned);
    search_tuple(r)
}

/// Two-stage search of the joint parameters.
fn loocv_cycling_search_joint(
    y: &View,
    d: &View,
    control_mask: &ArrayView2<u8>,
    time_grid: &[f64],
    unit_grid: &[f64],
    nn_grid: &[f64],
    max_iter: usize,
    tol: f64,
    max_cycles: usize,
) -> SearchResult {
    trop::loocv::check_simultaneous_adoption(&mat(d)).unwrap();
    let cv = JointCv::new(y, d, max_iter, tol);
    let evaluate = |joint: &JointCells, _: Stage, sweep: Sweep, points: Vec<Lambdas>| {
        let score = |_: Layer, l: Lambdas, bound: u64| cv.score(joint, l, bound);
        evaluate_afresh(&points, joint.cells.len(), sweep.hint, &score)
    };
    let (pruned, _) = selection::joint_search_by(
        &cv.y,
        &cv.d,
        None,
        &mask(control_mask),
        &encoded(time_grid),
        &encoded(unit_grid),
        &encoded(nn_grid),
        max_cycles,
        &cv.method,
        &evaluate,
        &subtract,
    );
    let r = tuned::loocv_cycling_search_joint(
        &cv.y,
        &cv.d,
        None,
        &mask(control_mask),
        &encoded(time_grid),
        &encoded(unit_grid),
        &encoded(nn_grid),
        max_cycles,
        &cv.method,
        &subtract,
    );
    assert_eq!(r, pruned);
    search_tuple(r)
}

fn average(aggregation: &Aggregation) -> u64 {
    match aggregation {
        Aggregation::Undefined => panic!("nothing is averaged"),
        Aggregation::Mean(taus) => mean(taus),
        Aggregation::Weighted(terms) => {
            let num: f64 =
                terms.iter().map(|&(w, t)| f64::from_bits(w) * f64::from_bits(t)).sum();
            let den: f64 = terms.iter().map(|&(w, _)| f64::from_bits(w)).sum();
            (num / den).to_bits()
        }
    }
}

fn spread(values: &Vec<u64>, denominator: usize) -> (u64, u64, u64) {
    let values = floats(values);
    let mean = values.iter().sum::<f64>() / values.len() as f64;
    let variance = values.iter().map(|v| (v - mean).powi(2)).sum::<f64>() / denominator as f64;
    (mean.to_bits(), variance.to_bits(), variance.sqrt().to_bits())
}

/// Bootstrap of the twostep method: estimates and standard error.
fn bootstrap_twostep(
    y: &View,
    d: &View,
    control_mask: &ArrayView2<u8>,
    time_dist: &ArrayView2<i64>,
    lambda_time: f64,
    lambda_unit: f64,
    lambda_nn: f64,
    n_bootstrap: usize,
    max_iter: usize,
    tol: f64,
    seed: u64,
    weights: Option<&Vec<f64>>,
) -> (Vec<f64>, f64) {
    let weights = weights.map(|w| encoded(w));
    let method = twostep_method(max_iter, tol);
    let time_dist = distances_of_time(time_dist);
    let positions = |n: usize| {
        let last = (n - 1) as f64;
        ((last * 0.025).to_bits(), (last * 0.975).to_bits())
    };
    let blend = |a: u64, b: u64, low: usize, idx: u64| {
        let fraction = f64::from_bits(idx) - low as f64;
        (f64::from_bits(a) * (1.0 - fraction) + f64::from_bits(b) * fraction).to_bits()
    };
    let (y, d, controls) = (mat(y), mat(d), mask(control_mask));
    let l = lambdas(lambda_time, lambda_unit, lambda_nn);
    let run = BootstrapRun { n_bootstrap, seed, ddof: 1, level: 0.95_f64.to_bits() };
    let r = match &weights {
        Some(w) => bootstrap_trop_variance_full_weighted(
            &y, &d, &controls, None, &time_dist, w, l, run, &method, &average, &spread,
            &positions, &blend,
        ),
        None => bootstrap_trop_variance_full(
            &y, &d, &controls, None, &time_dist, l, run, &method, &average, &spread, &positions,
            &blend,
        ),
    };
    assert!(f64::from_bits(r.ci_lower) <= f64::from_bits(r.ci_upper));
    assert_eq!((r.n_valid, r.n_total), (r.estimates.len(), n_bootstrap));
    (floats(&r.estimates), f64::from_bits(r.se))
}

#[test]
fn without_a_penalty_the_component_stays_where_there_is_no_weight() {
    let y = arr2(&[[1.0, 2.0], [2.0, 3.0], [3.0, 4.0]]);
    let control_mask = arr2(&[[1u8, 1], [1, 1], [1, 1]]);
    let w = arr2(&[[1.0, 1.0], [1.0, 1.0], [1.0, 0.0]]);
    let (_, _, l, _, converged, _) = estimate_model(
        &y.view(),
        &control_mask.view(),
        &w.view(),
        0.0,
        3,
        2,
        100,
        1e-10,
        None,
        None,
        None,
        None,
    )
    .unwrap();
    assert_eq!(l[[2, 1]], 0.0);
    assert!(converged);
}

#[test]
fn test_lambda_nn_zero_closed_form_preserves_invalid_cells() {
    let n_periods = 3_usize;
    let n_units = 2_usize;
    let y = arr2(&[[1.0, 2.0], [2.0, 3.0], [3.0, 4.0]]);
    let control_mask = arr2(&[[1u8, 1], [1, 1], [1, 0]]);
    let w = arr2(&[[1.0, 1.0], [1.0, 1.0], [1.0, 0.0]]);
    let result = estimate_model(
        &y.view(),
        &control_mask.view(),
        &w.view(),
        0.0,
        n_periods,
        n_units,
        100,
        1e-10,
        None,
        None,
        None,
        None,
    );

    let (alpha, beta, l, _n_iters, converged, _gamma) = result.expect("λ_nn=0 fit should succeed");
    assert!(converged, "λ_nn=0 closed form should converge in few iterations");
    for t in 0..n_periods {
        for i in 0..n_units {
            if w[[t, i]] > 0.0 {
                let expected = y[[t, i]] - alpha[i] - beta[t];
                assert!(
                    (l[[t, i]] - expected).abs() < 1e-8,
                    "λ_nn=0 closed form: L[{t},{i}] = {}, expected {}",
                    l[[t, i]],
                    expected,
                );
            }
        }
    }
    assert_eq!(
        l[[2, 1]],
        0.0,
        "Invalid cell (w=0) must retain the initial L value"
    );
}

#[test]
fn test_debug_assert_delta_mask_passes_for_masked_delta() {
    let d = arr2(&[[0.0, 0.0], [0.0, 1.0]]);
    let delta_ok = arr2(&[[1.0, 1.0], [1.0, 0.0]]);
    debug_assert_delta_is_1minus_d_masked(
        &d.view(),
        &delta_ok.view(),
        "test_mask_pass",
    );
    let delta_nan = arr2(&[[1.0, 1.0], [1.0, f64::NAN]]);
    debug_assert_delta_is_1minus_d_masked(
        &d.view(),
        &delta_nan.view(),
        "test_mask_pass_nan",
    );
}

#[test]
fn test_soft_threshold_svd_zero_threshold() {
    let m = arr2(&[[1.0, 2.0], [3.0, 4.0]]);
    let result = soft_threshold_svd(&m, 0.0).unwrap();

    for i in 0..2 {
        for j in 0..2 {
            assert!((result[[i, j]] - m[[i, j]]).abs() < 1e-10);
        }
    }
}

#[test]
fn test_soft_threshold_svd_correctness() {
    let m = arr2(&[[1.0, 2.0, 3.0], [2.0, 4.0, 6.0], [1.0, 2.0, 3.0]]);
    let result = soft_threshold_svd(&m, 5.0).unwrap();
    let orig_norm: f64 = m.iter().map(|x| x * x).sum::<f64>().sqrt();
    let result_norm: f64 = result.iter().map(|x| x * x).sum::<f64>().sqrt();

    assert!(result_norm <= orig_norm + 1e-10);
}

#[test]
fn test_solve_joint_no_lowrank_simple() {
    let y = arr2(&[
        [1.0, 2.0],
        [2.0, 3.0],
        [3.0, 5.0]
    ]);
    let d = arr2(&[[0.0, 0.0], [0.0, 0.0], [0.0, 1.0]]);
    let delta = arr2(&[[1.0, 1.0], [1.0, 1.0], [1.0, 1.0]]);

    let result = solve_joint_no_lowrank(&y.view(), &delta.view(), None);
    assert!(result.is_some());

    let (mu, alpha, beta, _gamma) = result.unwrap();
    let tau = post_hoc_tau(&y.view(), &d.view(), mu, &alpha, &beta, None);
    assert!(tau.is_finite());
}

#[test]
fn test_soft_threshold_svd_numerical_precision() {
    let m = arr2(&[[5.0, 0.0, 0.0], [0.0, 3.0, 0.0], [0.0, 0.0, 1.0]]);
    let result = soft_threshold_svd(&m, 2.0).unwrap();
    let expected = arr2(&[[3.0, 0.0, 0.0], [0.0, 1.0, 0.0], [0.0, 0.0, 0.0]]);

    for i in 0..3 {
        for j in 0..3 {
            let diff = (result[[i, j]] - expected[[i, j]]).abs();
            assert!(
                diff < 1e-10,
                "SVD soft threshold precision error at [{}, {}]: expected {}, got {}, diff={}",
                i,
                j,
                expected[[i, j]],
                result[[i, j]],
                diff
            );
        }
    }
}

#[test]
fn test_soft_threshold_svd_rank_reduction() {
    let m = arr2(&[[3.0, 1.0, 1.0], [1.0, 3.0, 1.0], [1.0, 1.0, 3.0]]);
    let result = soft_threshold_svd(&m, 3.0).unwrap();
    let result_frob: f64 = result.iter().map(|x| x * x).sum::<f64>().sqrt();
    let orig_frob: f64 = m.iter().map(|x| x * x).sum::<f64>().sqrt();

    assert!(
        result_frob < orig_frob,
        "Soft threshold should reduce Frobenius norm: orig={}, result={}",
        orig_frob,
        result_frob
    );
}

#[test]
fn test_soft_threshold_svd_negative_threshold() {
    let m = arr2(&[[1.0, 2.0], [3.0, 4.0]]);
    let result = soft_threshold_svd(&m, -1.0).unwrap();

    for i in 0..2 {
        for j in 0..2 {
            assert!(
                (result[[i, j]] - m[[i, j]]).abs() < 1e-10,
                "Negative threshold should return original matrix"
            );
        }
    }
}

#[test]
fn test_soft_threshold_svd_large_threshold() {
    let m = arr2(&[[1.0, 2.0], [3.0, 4.0]]);
    let result = soft_threshold_svd(&m, 100.0).unwrap();

    for i in 0..2 {
        for j in 0..2 {
            assert!(
                result[[i, j]].abs() < 1e-10,
                "Large threshold should give zero matrix, got {} at [{}, {}]",
                result[[i, j]],
                i,
                j
            );
        }
    }
}

#[test]
fn test_estimate_model_convergence() {
    let y = arr2(&[
        [1.0, 2.0, 3.0],
        [2.0, 3.0, 4.0],
        [3.0, 4.0, 5.0],
        [4.0, 5.0, 6.0]
    ]);
    let control_mask = arr2(&[
        [1u8, 1, 1],
        [1, 1, 1],
        [1, 1, 0],
        [1, 1, 0]
    ]);
    let weight_matrix = arr2(&[
        [0.1, 0.1, 0.1],
        [0.1, 0.1, 0.1],
        [0.1, 0.1, 0.1],
        [0.1, 0.1, 0.1]
    ]);

    let result = estimate_model(
        &y.view(),
        &control_mask.view(),
        &weight_matrix.view(),
        0.1,
        4,
        3,
        100,
        1e-6,
        None,
        None,
        None,
        None,
    );

    assert!(result.is_some(), "Model estimation should converge");

    let (alpha, beta, l, n_iters, converged, _gamma) = result.unwrap();
    assert_eq!(alpha.len(), 3, "Alpha should have n_units elements");
    assert_eq!(beta.len(), 4, "Beta should have n_periods elements");
    assert_eq!(l.dim(), (4, 3), "L should be n_periods x n_units");
    assert!(
        alpha.iter().all(|&x| x.is_finite()),
        "Alpha should be finite"
    );
    assert!(beta.iter().all(|&x| x.is_finite()), "Beta should be finite");
    assert!(l.iter().all(|&x| x.is_finite()), "L should be finite");
    assert!(n_iters > 0, "Should have at least 1 iteration");
    assert!(n_iters <= 100, "Should not exceed max_iter=100");
    assert!(converged, "Should converge for this simple case with lambda_nn=0.1");
}

#[test]
fn test_estimate_model_with_exclude_obs() {
    let y = arr2(&[[1.0, 2.0], [2.0, 3.0], [3.0, 4.0]]);
    let control_mask = arr2(&[[1u8, 1], [1, 1], [1, 1]]);
    let weight_matrix = arr2(&[[0.2, 0.2], [0.2, 0.2], [0.2, 0.2]]);
    let result = estimate_model(
        &y.view(),
        &control_mask.view(),
        &weight_matrix.view(),
        0.0,
        3,
        2,
        100,
        1e-6,
        Some((1, 0)),
        None,
        None,
        None,
    );

    assert!(
        result.is_some(),
        "Model should converge with excluded observation"
    );

    let (_alpha, _beta, _l, n_iters, _converged, _gamma) = result.unwrap();
    assert!(n_iters > 0, "Should have at least 1 iteration with exclude_obs");
}

#[test]
fn test_joint_estimation_att_precision() {
    let true_effect = 2.0;
    let y = arr2(&[
        [0.0, 1.0],
        [1.0, 2.0],
        [2.0, 3.0],
        [3.0, 4.0 + true_effect]
    ]);
    let d = arr2(&[
        [0.0, 0.0],
        [0.0, 0.0],
        [0.0, 0.0],
        [0.0, 1.0]
    ]);
    let delta = arr2(&[
        [1.0, 1.0],
        [1.0, 1.0],
        [1.0, 1.0],
        [1.0, 0.0]
    ]);

    let result = solve_joint_no_lowrank(&y.view(), &delta.view(), None);
    assert!(result.is_some(), "Joint estimation should succeed");

    let (mu, alpha, beta, _gamma) = result.unwrap();
    let tau = post_hoc_tau(&y.view(), &d.view(), mu, &alpha, &beta, None);
    let diff = (tau - true_effect).abs();
    assert!(
        diff < 1e-6,
        "ATT estimation precision error: expected {}, got {}, diff={}",
        true_effect,
        tau,
        diff
    );
}

#[test]
fn test_joint_with_lowrank_convergence() {
    let y = arr2(&[
        [1.0, 2.0, 3.0],
        [2.0, 3.0, 4.0],
        [3.0, 4.0, 5.0],
        [4.0, 5.0, 8.0]
    ]);
    let d = arr2(&[
        [0.0, 0.0, 0.0],
        [0.0, 0.0, 0.0],
        [0.0, 0.0, 0.0],
        [0.0, 0.0, 1.0]
    ]);
    let delta = arr2(&[
        [1.0, 1.0, 1.0],
        [1.0, 1.0, 1.0],
        [1.0, 1.0, 1.0],
        [1.0, 1.0, 0.0]
    ]);

    let result = solve_joint_with_lowrank(
        &y.view(),
        &d.view(),
        &delta.view(),
        0.1,
        100,
        1e-6,
        None,
    );

    assert!(result.is_some(), "Joint with low-rank should converge");

    let (mu, alpha, beta, l, tau, n_iters, converged, _gamma) = result.unwrap();
    assert!(mu.is_finite(), "mu should be finite");
    assert!(
        alpha.iter().all(|&x| x.is_finite()),
        "alpha should be finite"
    );
    assert!(beta.iter().all(|&x| x.is_finite()), "beta should be finite");
    assert!(l.iter().all(|&x| x.is_finite()), "L should be finite");
    assert!(tau.is_finite(), "tau should be finite");
    assert!(n_iters > 0, "Should have at least 1 iteration");
    assert!(n_iters <= 100, "Should not exceed max_iter={}", 100);
    assert!(converged, "Should converge for this simple case");
    assert!(tau > 0.0, "tau should be positive, got {}", tau);
}

#[test]
fn test_fista_inner_cap_small_lambda_nn() {
    let y = arr2(&[
        [1.0, 2.0, 3.0],
        [2.0, 3.0, 4.0],
        [3.0, 4.0, 5.0],
        [4.0, 5.0, 8.0]
    ]);
    let d = arr2(&[
        [0.0, 0.0, 0.0],
        [0.0, 0.0, 0.0],
        [0.0, 0.0, 0.0],
        [0.0, 0.0, 1.0]
    ]);
    let delta = arr2(&[
        [1.0, 1.0, 1.0],
        [1.0, 1.0, 1.0],
        [1.0, 1.0, 1.0],
        [1.0, 1.0, 0.0]
    ]);
    let result_small = solve_joint_with_lowrank(
        &y.view(),
        &d.view(),
        &delta.view(),
        0.01,
        200,
        1e-8,
        None,
    );
    assert!(result_small.is_some(), "λ_nn = 0.01 must converge under expanded cap");
    let (_mu_s, _alpha_s, _beta_s, _l_s, tau_s, _n_iters_s, converged_s, _gamma_s) =
        result_small.unwrap();
    assert!(converged_s, "λ_nn = 0.01 must report converged = true");
    assert!(tau_s.is_finite(), "τ(λ_nn = 0.01) must be finite, got {}", tau_s);
    let result_big = solve_joint_with_lowrank(
        &y.view(),
        &d.view(),
        &delta.view(),
        0.5,
        200,
        1e-8,
        None,
    );
    assert!(result_big.is_some(), "λ_nn = 0.5 baseline must converge");
    let (_mu_b, _alpha_b, _beta_b, _l_b, tau_b, _n_iters_b, _conv_b, _gamma_b) =
        result_big.unwrap();
    assert!(tau_b.is_finite(), "τ(λ_nn = 0.5) baseline must be finite");
    assert!(tau_s > 0.0 && tau_s < 10.0, "τ(λ_nn = 0.01) out of range: {}", tau_s);
    assert!(tau_b > 0.0 && tau_b < 10.0, "τ(λ_nn = 0.5) out of range: {}", tau_b);
}

#[test]
fn test_joint_no_lowrank_with_nan() {
    let y = arr2(&[[1.0, f64::NAN], [2.0, 3.0], [3.0, 4.0]]);
    let d = arr2(&[[0.0, 0.0], [0.0, 0.0], [0.0, 1.0]]);
    let delta = arr2(&[[1.0, 1.0], [1.0, 1.0], [1.0, 1.0]]);

    let result = solve_joint_no_lowrank(&y.view(), &delta.view(), None);
    assert!(result.is_some(), "Should handle NaN values");

    let (mu, alpha, beta, _gamma) = result.unwrap();
    let tau = post_hoc_tau(&y.view(), &d.view(), mu, &alpha, &beta, None);
    assert!(
        tau.is_finite(),
        "tau should be finite even with NaN in data"
    );
}

#[test]
fn test_joint_no_lowrank_with_nonfinite_delta() {
    let y = arr2(&[[1.0, 2.0], [2.0, 3.0], [3.0, 5.0]]);
    let d = arr2(&[[0.0, 0.0], [0.0, 0.0], [0.0, 1.0]]);
    let delta_clean = arr2(&[[1.0, 1.0], [1.0, 1.0], [1.0, 1.0]]);

    let result_clean = solve_joint_no_lowrank(&y.view(), &delta_clean.view(), None);
    assert!(result_clean.is_some(), "Clean case should succeed");
    let (mu_c, alpha_c, beta_c, _gamma_c) = result_clean.unwrap();
    let tau_clean = post_hoc_tau(&y.view(), &d.view(), mu_c, &alpha_c, &beta_c, None);
    assert!(tau_clean.is_finite(), "tau should be finite for clean data");
    let delta_nan = arr2(&[[f64::NAN, 1.0], [1.0, 1.0], [1.0, 1.0]]);
    let result_nan = solve_joint_no_lowrank(&y.view(), &delta_nan.view(), None);
    assert!(result_nan.is_some(), "NaN delta case should succeed");
    let (mu_n, alpha_n, beta_n, _gamma_n) = result_nan.unwrap();
    let tau_nan = post_hoc_tau(&y.view(), &d.view(), mu_n, &alpha_n, &beta_n, None);
    assert!(tau_nan.is_finite(), "tau should be finite with NaN delta");
    let delta_inf = arr2(&[[f64::INFINITY, 1.0], [1.0, 1.0], [1.0, 1.0]]);
    let result_inf = solve_joint_no_lowrank(&y.view(), &delta_inf.view(), None);
    assert!(result_inf.is_some(), "Inf delta case should succeed");
    let (mu_i, alpha_i, beta_i, _gamma_i) = result_inf.unwrap();
    let tau_inf = post_hoc_tau(&y.view(), &d.view(), mu_i, &alpha_i, &beta_i, None);
    assert!(tau_inf.is_finite(), "tau should be finite with Inf delta");
    let delta_ninf = arr2(&[[f64::NEG_INFINITY, 1.0], [1.0, 1.0], [1.0, 1.0]]);
    let result_ninf = solve_joint_no_lowrank(&y.view(), &delta_ninf.view(), None);
    assert!(result_ninf.is_some(), "NegInf delta case should succeed");
    let (mu_ni, alpha_ni, beta_ni, _gamma_ni) = result_ninf.unwrap();
    let tau_ninf = post_hoc_tau(&y.view(), &d.view(), mu_ni, &alpha_ni, &beta_ni, None);
    assert!(tau_ninf.is_finite(), "tau should be finite with NegInf delta");
}

#[test]
fn test_joint_with_lowrank_nan_delta_max() {
    let y = arr2(&[
        [1.0,     2.0, 3.0],
        [2.0,     3.0, 4.0],
        [3.0,     4.0, 5.0],
        [f64::NAN, 5.0, 8.0]
    ]);
    let d = arr2(&[
        [0.0, 0.0, 0.0],
        [0.0, 0.0, 0.0],
        [0.0, 0.0, 0.0],
        [0.0, 0.0, 1.0]
    ]);
    let delta = arr2(&[
        [1.0, 1.0, 1.0],
        [1.0, 1.0, 1.0],
        [1.0, 1.0, 1.0],
        [100.0, 1.0, 0.0]
    ]);

    let result = solve_joint_with_lowrank(
        &y.view(),
        &d.view(),
        &delta.view(),
        0.5,
        100,
        1e-6,
        None,
    );

    assert!(result.is_some(), "Should handle NaN in Y with large delta");

    let (mu, alpha, beta, l, tau, _n_iters, _converged, _gamma) = result.unwrap();
    assert!(mu.is_finite(), "mu should be finite");
    assert!(alpha.iter().all(|&x| x.is_finite()), "alpha should be finite");
    assert!(beta.iter().all(|&x| x.is_finite()), "beta should be finite");
    assert!(l.iter().all(|&x| x.is_finite()), "L should be finite");
    assert!(tau.is_finite(), "tau should be finite");
}

#[test]
fn test_joint_with_lowrank_not_converged() {
    let y = arr2(&[
        [1.0, 2.0, 3.0, 4.0],
        [2.0, 4.0, 5.0, 6.0],
        [3.0, 5.0, 8.0, 9.0],
        [4.0, 6.0, 9.0, 15.0],
        [5.0, 7.0, 10.0, 20.0]
    ]);
    let d = arr2(&[
        [0.0, 0.0, 0.0, 0.0],
        [0.0, 0.0, 0.0, 0.0],
        [0.0, 0.0, 0.0, 0.0],
        [0.0, 0.0, 0.0, 1.0],
        [0.0, 0.0, 0.0, 1.0]
    ]);
    let delta = arr2(&[
        [1.0, 1.0, 1.0, 1.0],
        [1.0, 1.0, 1.0, 1.0],
        [1.0, 1.0, 1.0, 1.0],
        [1.0, 1.0, 1.0, 0.0],
        [1.0, 1.0, 1.0, 0.0]
    ]);
    let result = solve_joint_with_lowrank(
        &y.view(), &d.view(), &delta.view(),
        0.5,
        1,
        1e-12,
        None,
    );

    assert!(result.is_some(), "Should return Some even if not converged");
    let (_mu, _alpha, _beta, _l, _tau, n_iters, converged, _gamma) = result.unwrap();
    assert_eq!(n_iters, 1, "Should report exactly 1 iteration");
    assert!(!converged, "Should NOT be converged with max_iter=1 and tight tol");
}

#[test]
fn test_joint_with_lowrank_converged_before_max_iter() {
    let y = arr2(&[
        [1.0, 2.0, 3.0],
        [2.0, 3.0, 4.0],
        [3.0, 4.0, 5.0],
        [4.0, 5.0, 8.0]
    ]);
    let d = arr2(&[
        [0.0, 0.0, 0.0],
        [0.0, 0.0, 0.0],
        [0.0, 0.0, 0.0],
        [0.0, 0.0, 1.0]
    ]);
    let delta = arr2(&[
        [1.0, 1.0, 1.0],
        [1.0, 1.0, 1.0],
        [1.0, 1.0, 1.0],
        [1.0, 1.0, 0.0]
    ]);

    let max_iter = 1000;
    let result = solve_joint_with_lowrank(
        &y.view(), &d.view(), &delta.view(),
        0.1, max_iter, 1e-6, None,
    );

    assert!(result.is_some());
    let (_mu, _alpha, _beta, _l, _tau, n_iters, converged, _gamma) = result.unwrap();
    assert!(converged, "Should converge for simple panel data");
    assert!(
        n_iters < max_iter,
        "Should converge before max_iter={}, got n_iters={}",
        max_iter, n_iters
    );
}

#[test]
fn test_joint_with_lowrank_nan_vs_no_nan_consistency() {
    let y_clean = arr2(&[
        [1.0, 2.0],
        [2.0, 3.0],
        [3.0, 4.0],
        [4.0, 6.0]
    ]);
    let y_nan = arr2(&[
        [f64::NAN, 2.0],
        [2.0, 3.0],
        [3.0, 4.0],
        [4.0, 6.0]
    ]);
    let d = arr2(&[
        [0.0, 0.0],
        [0.0, 0.0],
        [0.0, 0.0],
        [0.0, 1.0]
    ]);
    let delta = arr2(&[
        [1.0, 1.0],
        [1.0, 1.0],
        [1.0, 1.0],
        [1.0, 0.0]
    ]);

    let result_clean = solve_joint_with_lowrank(
        &y_clean.view(), &d.view(), &delta.view(), 0.5, 100, 1e-6, None,
    );
    let result_nan = solve_joint_with_lowrank(
        &y_nan.view(), &d.view(), &delta.view(), 0.5, 100, 1e-6, None,
    );

    assert!(result_clean.is_some());
    assert!(result_nan.is_some());

    let (_, _, _, _, tau_clean, _, _, _) = result_clean.unwrap();
    let (_, _, _, _, tau_nan, _, _, _) = result_nan.unwrap();
    assert!(tau_clean.is_finite());
    assert!(tau_nan.is_finite());
}

#[test]
fn test_estimate_model_residual_structure() {
    let y = arr2(&[[1.0, 2.0], [2.0, 3.0], [3.0, 4.0]]);
    let control_mask = arr2(&[[1u8, 1], [1, 1], [1, 1]]);
    let weight_matrix = arr2(&[[0.2, 0.2], [0.2, 0.2], [0.2, 0.2]]);

    let result = estimate_model(
        &y.view(),
        &control_mask.view(),
        &weight_matrix.view(),
        0.0,
        3,
        2,
        100,
        1e-6,
        None,
        None,
        None,
        None,
    );

    let (alpha, beta, l, _n_iters, _converged, _gamma) = result.unwrap();
    let mut y_hat = Array2::<f64>::zeros((3, 2));
    for t in 0..3 {
        for i in 0..2 {
            y_hat[[t, i]] = alpha[i] + beta[t] + l[[t, i]];
        }
    }
    for t in 0..3 {
        for i in 0..2 {
            let residual = (y[[t, i]] - y_hat[[t, i]]).abs();
            assert!(
                residual < 0.1,
                "Residual too large at [{}, {}]: {}",
                t,
                i,
                residual
            );
        }
    }
}

#[test]
fn test_weight_matrix_structure() {
    let y = arr2(&[[1.0, 2.0], [2.0, 3.0], [3.0, 4.0]]);
    let d = arr2(&[[0.0, 0.0], [0.0, 0.0], [0.0, 0.0]]);
    let time_dist = arr2(&[[0i64, 1, 2], [1, 0, 1], [2, 1, 0]]);

    let weights = compute_weight_matrix(
        &y.view(),
        &d.view(),
        3,
        2,
        0,
        1,
        0.5,
        0.5,
        &time_dist.view(),
    );

    let total: f64 = weights.sum();
    assert!(total > 0.0, "Weights should be positive, got {}", total);
}

#[test]
fn test_weight_matrix_zero_lambda() {
    let y = arr2(&[[1.0, 2.0, 3.0], [2.0, 3.0, 4.0], [3.0, 4.0, 5.0]]);
    let d = arr2(&[[0.0, 0.0, 0.0], [0.0, 0.0, 0.0], [0.0, 0.0, 0.0]]);
    let time_dist = arr2(&[[0i64, 1, 2], [1, 0, 1], [2, 1, 0]]);

    let weights = compute_weight_matrix(
        &y.view(),
        &d.view(),
        3,
        3,
        0,
        1,
        0.0,
        0.0,
        &time_dist.view(),
    );

    let expected = 1.0;
    for t in 0..3 {
        for i in 0..3 {
            assert!(
                (weights[[t, i]] - expected).abs() < 1e-10,
                "Expected uniform weight {}, got {} at [{}, {}]",
                expected,
                weights[[t, i]],
                t,
                i
            );
        }
    }

    let total: f64 = weights.sum();
    assert!(
        (total - 9.0).abs() < 1e-10,
        "Unnormalized weights should sum to T·N = 9, got {}",
        total
    );
}

#[test]
fn test_joint_weights_masked_at_treated() {
    let y = arr2(&[[1.0, 2.0], [2.0, 3.0], [3.0, 4.0], [4.0, 5.0]]);
    let d = arr2(&[
        [0.0, 0.0],
        [0.0, 0.0],
        [0.0, 1.0],
        [0.0, 1.0]
    ]);

    let weights = compute_joint_weights(&y.view(), &d.view(), 0.5, 0.5, 2);
    assert_eq!(weights[[2, 1]], 0.0, "δ must be 0 at treated cell (2, 1)");
    assert_eq!(weights[[3, 1]], 0.0, "δ must be 0 at treated cell (3, 1)");
    let control_sum: f64 = (0..4).flat_map(|t| (0..2).map(move |i| (t, i)))
        .filter(|(t, i)| d[[*t, *i]] == 0.0)
        .map(|(t, i)| weights[[t, i]])
        .sum();
    assert!(control_sum > 0.0, "Control weights should be positive");
}

#[test]
fn test_joint_weights_zero_pre_periods_returns_finite() {
    let y = arr2(&[[1.0, 2.0], [2.0, 3.0]]);
    let d = arr2(&[[1.0, 1.0], [1.0, 1.0]]);
    let (delta_time, delta_unit) =
        compute_joint_weight_vectors(&y.view(), &d.view(), 0.5, 0.5, 2);

    assert_eq!(delta_unit.len(), 2);
    for &w in delta_unit.iter() {
        assert_eq!(w, 1.0, "n_pre == 0 must yield uniform unit weights");
    }

    for &t in delta_time.iter() {
        assert!(t.is_finite(), "time weights must remain finite");
    }
    let weights = compute_joint_weights(&y.view(), &d.view(), 0.5, 0.5, 2);
    for &w in weights.iter() {
        assert_eq!(w, 0.0, "fully-treated panel must mask all cells to zero");
    }
}

#[test]
fn test_joint_weights_zero_pre_periods_larger_panel() {
    let y = arr2(&[
        [1.0, 2.0, 3.0, 4.0],
        [1.5, 2.5, 3.5, 4.5],
        [2.0, 3.0, 4.0, 5.0],
    ]);
    let d = arr2(&[
        [1.0, 1.0, 1.0, 1.0],
        [1.0, 1.0, 1.0, 1.0],
        [1.0, 1.0, 1.0, 1.0],
    ]);
    let (delta_time, delta_unit) =
        compute_joint_weight_vectors(&y.view(), &d.view(), 0.1, 0.5, 3);

    assert_eq!(delta_time.len(), 3);
    assert_eq!(delta_unit.len(), 4);
    for &t in delta_time.iter() {
        assert!(t.is_finite() && t > 0.0, "time weights must be finite > 0");
    }
    for &w in delta_unit.iter() {
        assert_eq!(
            w, 1.0,
            "every unit weight must be 1.0 where there is no pre-period"
        );
    }
}

#[test]
fn test_joint_weights_time_center() {
    let y = arr2(&[[1.0, 2.0], [2.0, 3.0], [3.0, 4.0], [4.0, 5.0]]);
    let d = arr2(&[[0.0, 0.0], [0.0, 0.0], [0.0, 1.0], [0.0, 1.0]]);

    let weights = compute_joint_weights(&y.view(), &d.view(), 0.0, 0.0, 2);
    let row0_sum: f64 = weights.row(0).sum();
    let row1_sum: f64 = weights.row(1).sum();
    assert!((row0_sum - row1_sum).abs() < 1e-10);
    let row2_sum: f64 = weights.row(2).sum();
    let row3_sum: f64 = weights.row(3).sum();
    assert!((row2_sum - row3_sum).abs() < 1e-10);
    assert!(row2_sum < row1_sum, "Treated row total must shrink after masking");
}

#[test]
fn test_joint_weights_outer_product_structure() {
    let y = arr2(&[
        [1.0, 2.0, 3.0],
        [2.0, 3.0, 4.0],
        [3.0, 4.0, 5.0],
        [4.0, 5.0, 6.0]
    ]);
    let d = arr2(&[
        [0.0, 0.0, 0.0],
        [0.0, 0.0, 0.0],
        [0.0, 1.0, 0.0],
        [0.0, 1.0, 0.0]
    ]);

    let delta = compute_joint_weights(&y.view(), &d.view(), 0.5, 0.5, 2);
    let (n_periods, n_units) = delta.dim();
    let is_control = |t: usize, i: usize| d[[t, i]] == 0.0;

    for t in 0..n_periods {
        for s in 0..n_periods {
            for i in 0..n_units {
                for j in 0..n_units {
                    if !(is_control(t, i) && is_control(t, j)
                        && is_control(s, i) && is_control(s, j))
                    {
                        continue;
                    }
                    if delta[[t, j]] > 1e-10 && delta[[s, j]] > 1e-10 {
                        let ratio_t = delta[[t, i]] / delta[[t, j]];
                        let ratio_s = delta[[s, i]] / delta[[s, j]];
                        assert!(
                            (ratio_t - ratio_s).abs() < 1e-8,
                            "Outer product structure violated at t={}, s={}, i={}, j={}",
                            t,
                            s,
                            i,
                            j
                        );
                    }
                }
            }
        }
    }
}

#[test]
fn test_joint_weights_time_formula() {
    let y = arr2(&[
        [1.0, 2.0],
        [2.0, 3.0],
        [3.0, 4.0],
        [4.0, 5.0],
        [5.0, 6.0],
        [6.0, 7.0]
    ]);
    let d = arr2(&[
        [0.0, 0.0],
        [0.0, 0.0],
        [0.0, 0.0],
        [0.0, 0.0],
        [0.0, 1.0],
        [0.0, 1.0]
    ]);

    let lambda_time = 0.3;
    let treated_periods = 2;
    let n_periods = 6;
    let center = n_periods as f64 - treated_periods as f64 / 2.0;

    let delta = compute_joint_weights(&y.view(), &d.view(), lambda_time, 0.0, treated_periods);
    for t in 0..n_periods {
        let expected_time_weight = (-lambda_time * (t as f64 - center).abs()).exp();
        let actual = delta[[t, 0]];
        assert!(
            (actual - expected_time_weight).abs() < 1e-8,
            "Time weight formula incorrect at t={}: expected {}, got {}",
            t,
            expected_time_weight,
            actual
        );
    }
}

#[test]
fn test_joint_weights_time_single_post_period_matches_midpoint() {
    let y = arr2(&[
        [1.0, 2.0],
        [2.0, 3.0],
        [3.0, 4.0],
        [4.0, 5.0],
        [5.0, 6.0]
    ]);
    let d = arr2(&[
        [0.0, 0.0],
        [0.0, 0.0],
        [0.0, 0.0],
        [0.0, 0.0],
        [0.0, 1.0]
    ]);

    let lambda_time = 0.4;
    let n_periods = 5usize;
    let treated_periods = 1usize;

    let delta = compute_joint_weights(&y.view(), &d.view(), lambda_time, 0.0, treated_periods);
    let center = n_periods as f64 - treated_periods as f64 / 2.0;
    for s in 0..n_periods {
        let expected = (-lambda_time * (s as f64 - center).abs()).exp();
        let actual = delta[[s, 0]];
        assert!(
            (actual - expected).abs() < 1e-10,
            "joint δ_time[s={}] must use the post-block midpoint center (T − T_post/2): \
             expected {}, got {}",
            s,
            expected,
            actual
        );
    }
    let expected_at_treated = (-lambda_time * 0.5f64).exp();
    assert!(
        (delta[[n_periods - 1, 0]] - expected_at_treated).abs() < 1e-12,
        "joint δ_time at the treated period must equal exp(−λ_time · 0.5) \
         under post-block midpoint convention; got {}, expected {}",
        delta[[n_periods - 1, 0]],
        expected_at_treated
    );
}

#[test]
fn test_joint_weights_unit_formula() {
    let y = arr2(&[
        [1.0, 1.0, 10.0],
        [2.0, 2.0, 20.0],
        [3.0, 3.0, 30.0],
        [4.0, 5.0, 40.0]
    ]);
    let d = arr2(&[
        [0.0, 0.0, 0.0],
        [0.0, 0.0, 0.0],
        [0.0, 0.0, 0.0],
        [0.0, 1.0, 0.0]
    ]);

    let lambda_unit = 0.1;
    let delta = compute_joint_weights(&y.view(), &d.view(), 0.0, lambda_unit, 1);

    assert!(
        delta[[0, 2]] < delta[[0, 0]],
        "Unit far from treated average should have lower weight"
    );
}

#[test]
fn test_joint_weights_non_negative() {
    let y = arr2(&[
        [1.0, 2.0, 3.0],
        [2.0, 3.0, 4.0],
        [3.0, 4.0, 5.0],
        [4.0, 5.0, 6.0]
    ]);
    let d = arr2(&[
        [0.0, 0.0, 0.0],
        [0.0, 0.0, 0.0],
        [0.0, 1.0, 0.0],
        [0.0, 1.0, 0.0]
    ]);

    for lambda_time in [0.0, 0.5, 1.0, 2.0] {
        for lambda_unit in [0.0, 0.5, 1.0, 2.0] {
            let delta =
                compute_joint_weights(&y.view(), &d.view(), lambda_time, lambda_unit, 2);

            for t in 0..4 {
                for i in 0..3 {
                    assert!(
                        delta[[t, i]] >= 0.0,
                        "Weight should be non-negative at [{}, {}] with λ_t={}, λ_u={}",
                        t,
                        i,
                        lambda_time,
                        lambda_unit
                    );
                }
            }
        }
    }
}

#[test]
fn test_twostep_weight_non_negative() {
    let y = arr2(&[
        [1.0, 2.0, 3.0, 4.0],
        [2.0, 3.0, 4.0, 5.0],
        [3.0, 4.0, 5.0, 6.0],
        [4.0, 5.0, 6.0, 7.0],
        [5.0, 6.0, 7.0, 8.0]
    ]);
    let d = arr2(&[
        [0.0, 0.0, 0.0, 0.0],
        [0.0, 0.0, 0.0, 0.0],
        [0.0, 0.0, 0.0, 0.0],
        [0.0, 0.0, 0.0, 1.0],
        [0.0, 0.0, 0.0, 1.0]
    ]);
    let time_dist = arr2(&[
        [0i64, 1, 2, 3, 4],
        [1, 0, 1, 2, 3],
        [2, 1, 0, 1, 2],
        [3, 2, 1, 0, 1],
        [4, 3, 2, 1, 0]
    ]);
    for lambda_time in [0.0, 0.5, 1.0, 2.0] {
        for lambda_unit in [0.0, 0.5, 1.0, 2.0] {
            let weights = compute_weight_matrix(
                &y.view(),
                &d.view(),
                5,
                4,
                3,
                4,
                lambda_time,
                lambda_unit,
                &time_dist.view(),
            );

            for t in 0..5 {
                for i in 0..4 {
                    assert!(
                        weights[[t, i]] >= 0.0,
                        "Twostep weight should be non-negative at [{}, {}] with λ_t={}, λ_u={}",
                        t,
                        i,
                        lambda_time,
                        lambda_unit
                    );
                }
            }
        }
    }
}

#[test]
fn test_twostep_weight_positive() {
    let y = arr2(&[
        [1.0, 2.0, 3.0],
        [2.0, 3.0, 4.0],
        [3.0, 4.0, 5.0],
        [4.0, 5.0, 6.0]
    ]);
    let d = arr2(&[
        [0.0, 0.0, 0.0],
        [0.0, 0.0, 0.0],
        [0.0, 0.0, 1.0],
        [0.0, 0.0, 1.0]
    ]);
    let time_dist = arr2(&[[0i64, 1, 2, 3], [1, 0, 1, 2], [2, 1, 0, 1], [3, 2, 1, 0]]);

    for lambda_time in [0.0, 0.5, 1.0, 2.0] {
        for lambda_unit in [0.0, 0.5, 1.0, 2.0] {
            let weights = compute_weight_matrix(
                &y.view(),
                &d.view(),
                4,
                3,
                2,
                3,
                lambda_time,
                lambda_unit,
                &time_dist.view(),
            );

            let total: f64 = weights.sum();
            assert!(
                total > 0.0,
                "Twostep weights should be positive, got {} with λ_t={}, λ_u={}",
                total,
                lambda_time,
                lambda_unit
            );
        }
    }
}

#[test]
fn test_twostep_time_weight_formula() {
    let y = arr2(&[[1.0, 2.0], [2.0, 3.0], [3.0, 4.0], [4.0, 5.0], [5.0, 6.0]]);
    let d = arr2(&[[0.0, 0.0], [0.0, 0.0], [0.0, 0.0], [0.0, 1.0], [0.0, 1.0]]);
    let time_dist = arr2(&[
        [0i64, 1, 2, 3, 4],
        [1, 0, 1, 2, 3],
        [2, 1, 0, 1, 2],
        [3, 2, 1, 0, 1],
        [4, 3, 2, 1, 0]
    ]);

    let lambda_time = 0.5;
    let target_period = 3;
    let mut expected_time_weights = [0.0f64; 5];
    for (s, weight) in expected_time_weights.iter_mut().enumerate() {
        let dist = (target_period as i64 - s as i64).abs() as f64;
        *weight = (-lambda_time * dist).exp();
    }
    let weights = compute_weight_matrix(
        &y.view(),
        &d.view(),
        5,
        2,
        1,
        target_period,
        lambda_time,
        0.0,
        &time_dist.view(),
    );

    for (t, &expected_weight) in expected_time_weights.iter().enumerate() {
        let row_sum: f64 = weights.row(t).sum();
        let expected_row_sum = expected_weight * 2.0;
        assert!(
            (row_sum - expected_row_sum).abs() < 1e-10,
            "Time weight mismatch at t={}: expected {}, got {}",
            t,
            expected_row_sum,
            row_sum
        );
    }
}

#[test]
fn test_twostep_lambda_decay_behavior() {
    let y = arr2(&[
        [1.0, 2.0, 3.0],
        [2.0, 3.0, 4.0],
        [3.0, 4.0, 5.0],
        [4.0, 5.0, 6.0],
        [5.0, 6.0, 7.0]
    ]);
    let d = arr2(&[
        [0.0, 0.0, 0.0],
        [0.0, 0.0, 0.0],
        [0.0, 0.0, 0.0],
        [0.0, 0.0, 0.0],
        [0.0, 0.0, 1.0]
    ]);
    let time_dist = arr2(&[
        [0i64, 1, 2, 3, 4],
        [1, 0, 1, 2, 3],
        [2, 1, 0, 1, 2],
        [3, 2, 1, 0, 1],
        [4, 3, 2, 1, 0]
    ]);

    let target_period = 4;
    let weights_low = compute_weight_matrix(
        &y.view(),
        &d.view(),
        5,
        3,
        2,
        target_period,
        0.1,
        0.0,
        &time_dist.view(),
    );
    let weights_high = compute_weight_matrix(
        &y.view(),
        &d.view(),
        5,
        3,
        2,
        target_period,
        2.0,
        0.0,
        &time_dist.view(),
    );
    let weight_at_target_low: f64 = weights_low.row(target_period).sum();
    let weight_at_target_high: f64 = weights_high.row(target_period).sum();

    let distant_period = 0;
    let weight_at_distant_low: f64 = weights_low.row(distant_period).sum();
    let weight_at_distant_high: f64 = weights_high.row(distant_period).sum();

    let ratio_low = weight_at_target_low / weight_at_distant_low;
    let ratio_high = weight_at_target_high / weight_at_distant_high;

    assert!(
        ratio_high > ratio_low,
        "Larger λ should increase target/distant ratio: low={}, high={}",
        ratio_low,
        ratio_high
    );

    assert!(
        weight_at_distant_high < weight_at_distant_low,
        "Larger λ should reduce weight at distant periods: low={}, high={}",
        weight_at_distant_low,
        weight_at_distant_high
    );
}

#[test]
fn test_twostep_weight_outer_product_structure() {
    let y = arr2(&[
        [1.0, 2.0, 3.0],
        [2.0, 3.0, 4.0],
        [3.0, 4.0, 5.0],
        [4.0, 5.0, 6.0]
    ]);
    let d = arr2(&[
        [0.0, 0.0, 0.0],
        [0.0, 0.0, 0.0],
        [0.0, 0.0, 1.0],
        [0.0, 0.0, 1.0]
    ]);
    let time_dist = arr2(&[[0i64, 1, 2, 3], [1, 0, 1, 2], [2, 1, 0, 1], [3, 2, 1, 0]]);

    let weights = compute_weight_matrix(
        &y.view(),
        &d.view(),
        4,
        3,
        2,
        3,
        0.5,
        0.5,
        &time_dist.view(),
    );
    for t in 0..4 {
        for s in 0..4 {
            for i in 0..3 {
                for j in 0..3 {
                    if weights[[t, j]] > 1e-10 && weights[[s, j]] > 1e-10 {
                        let ratio_t = weights[[t, i]] / weights[[t, j]];
                        let ratio_s = weights[[s, i]] / weights[[s, j]];
                        assert!(
                            (ratio_t - ratio_s).abs() < 1e-10,
                            "Outer product structure violated at t={}, s={}, i={}, j={}",
                            t,
                            s,
                            i,
                            j
                        );
                    }
                }
            }
        }
    }
}

#[test]
fn test_joint_weights_infinite_distance_guard() {
    let y = arr2(&[
        [1.0, 2.0, f64::NAN],
        [2.0, 3.0, f64::NAN],
        [3.0, 4.0, 5.0],
        [4.0, 5.0, 6.0]
    ]);
    let d = arr2(&[
        [0.0, 0.0, 0.0],
        [0.0, 0.0, 0.0],
        [0.0, 1.0, 0.0],
        [0.0, 1.0, 0.0]
    ]);

    let weights = compute_joint_weights(&y.view(), &d.view(), 0.5, 0.0, 2);

    for t in 0..4 {
        for i in 0..3 {
            assert!(
                !weights[[t, i]].is_nan(),
                "NaN weight at [{}, {}] with lambda_unit=0 and NaN unit",
                t, i
            );
            assert!(
                weights[[t, i]] >= 0.0,
                "Weight should be non-negative at [{}, {}]", t, i
            );
        }
    }
    for t in 0..4 {
        assert!(
            weights[[t, 2]] == 0.0,
            "Unit with no valid pre-period data should have zero weight, got {} at t={}",
            weights[[t, 2]], t
        );
    }
    assert!(weights[[0, 0]] > 0.0, "Unit 0 should have positive weight");
    assert!(weights[[0, 1]] > 0.0, "Unit 1 should have positive weight");
}

#[test]
fn test_joint_weight_vectors_infinite_distance_guard() {
    let y = arr2(&[
        [1.0, 2.0, f64::NAN],
        [2.0, 3.0, f64::NAN],
        [3.0, 4.0, 5.0],
        [4.0, 5.0, 6.0]
    ]);
    let d = arr2(&[
        [0.0, 0.0, 0.0],
        [0.0, 0.0, 0.0],
        [0.0, 1.0, 0.0],
        [0.0, 1.0, 0.0]
    ]);

    let (delta_time, delta_unit) =
        compute_joint_weight_vectors(&y.view(), &d.view(), 0.5, 0.0, 2);
    assert!(
        !delta_unit[2].is_nan(),
        "delta_unit NaN for unit with no valid pre-period data"
    );
    assert_eq!(
        delta_unit[2], 0.0,
        "Unit with no valid pre-period data should have zero weight"
    );
    assert!(delta_unit[0] > 0.0);
    assert!(delta_unit[1] > 0.0);
    for t in 0..4 {
        assert!(delta_time[t].is_finite() && delta_time[t] > 0.0);
    }
}

#[test]
fn test_weight_matrix_reference_values() {
    let y = arr2(&[
        [ 0.496714153011233,  0.361735698828815,  1.647688538100692,  3.023029856408026],
        [-0.234153374723336,  0.265863043050819,  2.579212815507391,  2.267434729152909],
        [-0.469474385934952,  1.042560043585965,  0.536582307187538,  1.034270246429743],
        [ 0.241962271566034, -1.413280244657798, -0.724917832513033,  0.937712470759027],
        [-1.012831120334424,  0.814247332595274,  0.091975924478789,  0.087696298664708]
    ]);
    let d = arr2(&[
        [0.0, 0.0, 0.0, 0.0],
        [0.0, 0.0, 0.0, 0.0],
        [0.0, 0.0, 0.0, 0.0],
        [0.0, 0.0, 1.0, 0.0],
        [0.0, 0.0, 1.0, 0.0]
    ]);
    let time_dist = arr2(&[
        [0i64, 1, 2, 3, 4],
        [1, 0, 1, 2, 3],
        [2, 1, 0, 1, 2],
        [3, 2, 1, 0, 1],
        [4, 3, 2, 1, 0]
    ]);

    let weights = compute_weight_matrix(
        &y.view(), &d.view(), 5, 4, 2, 3, 0.5, 0.5, &time_dist.view(),
    );
    let reference = [
        [0.088540252840800, 0.102500687323097, 0.223130160148430, 0.144900482487827],
        [0.145978198171795, 0.168995063450973, 0.367879441171442, 0.238900507612393],
        [0.240677360384317, 0.278625755754937, 0.606530659712633, 0.393880348481609],
        [0.396809883441583, 0.459376210078063, 1.000000000000000, 0.649398908652408],
        [0.240677360384317, 0.278625755754937, 0.606530659712633, 0.393880348481609],
    ];

    for t in 0..5 {
        for i in 0..4 {
            assert!(
                (weights[[t, i]] - reference[t][i]).abs() < 1e-10,
                "Weight mismatch at [{}, {}]: got={:.15} expected={:.15}",
                t, i, weights[[t, i]], reference[t][i]
            );
        }
    }
}

#[test]
fn test_weight_numerical_precision() {
    let y = arr2(&[[1.0, 2.0], [2.0, 3.0], [3.0, 4.0]]);
    let d = arr2(&[[0.0, 0.0], [0.0, 0.0], [0.0, 1.0]]);
    let time_dist = arr2(&[[0i64, 1, 2], [1, 0, 1], [2, 1, 0]]);

    let lambda_time = 1.0;
    let target_period = 2;
    let target_unit = 1;
    let expected_time = [
        (-lambda_time * 2.0_f64).exp(),
        (-lambda_time * 1.0_f64).exp(),
        (-lambda_time * 0.0_f64).exp(),
    ];
    let weights = compute_weight_matrix(
        &y.view(),
        &d.view(),
        3,
        2,
        target_unit,
        target_period,
        lambda_time,
        0.0,
        &time_dist.view(),
    );

    for (t, &expected_t) in expected_time.iter().enumerate() {
        let row_sum: f64 = weights.row(t).sum();
        assert!(
            (row_sum - expected_t * 2.0).abs() < 1e-10,
            "Row sum precision error at t={}: expected {}, got {}",
            t, expected_t * 2.0, row_sum
        );

        for j in 0..2 {
            let expected_w = expected_t * 1.0;
            assert!(
                (weights[[t, j]] - expected_w).abs() < 1e-10,
                "Weight precision error at [{}, {}]: expected {}, got {}",
                t, j, expected_w, weights[[t, j]]
            );
        }
    }
}

#[test]
fn test_loocv_score_joint_basic() {
    let y = arr2(&[
        [1.0, 2.0, 3.0],
        [2.0, 3.0, 4.0],
        [3.0, 4.0, 5.0],
        [4.0, 6.0, 6.0]
    ]);
    let d = arr2(&[
        [0.0, 0.0, 0.0],
        [0.0, 0.0, 0.0],
        [0.0, 0.0, 0.0],
        [0.0, 1.0, 0.0]
    ]);
    let control_obs: Vec<(usize, usize)> = vec![
        (0, 0),
        (0, 1),
        (0, 2),
        (1, 0),
        (1, 1),
        (1, 2),
        (2, 0),
        (2, 1),
        (2, 2),
        (3, 0),
        (3, 2),
    ];

    let (score, n_valid, first_failed) = loocv_score_joint(
        &y.view(),
        &d.view(),
        &control_obs,
        0.0,
        0.0,
        1e10,
        1,
        100,
        1e-6,
        f64::INFINITY,
        None,
    );
    assert!(score.is_finite(), "Score should be finite");
    assert!(score >= 0.0, "Score should be non-negative");
    assert_eq!(
        n_valid,
        control_obs.len(),
        "All control obs should be valid"
    );
    assert!(first_failed.is_none(), "No observation should fail");
}

#[test]
fn test_loocv_score_joint_full_diagnostic_matches_short_circuit_no_failures() {
    let y = arr2(&[
        [1.0, 2.0, 3.0],
        [2.0, 3.0, 4.0],
        [3.0, 4.0, 5.0],
        [4.0, 6.0, 6.0]
    ]);
    let d = arr2(&[
        [0.0, 0.0, 0.0],
        [0.0, 0.0, 0.0],
        [0.0, 0.0, 0.0],
        [0.0, 1.0, 0.0]
    ]);

    let control_obs: Vec<(usize, usize)> = vec![
        (0, 0), (0, 1), (0, 2),
        (1, 0), (1, 1), (1, 2),
        (2, 0), (2, 1), (2, 2),
        (3, 0), (3, 2),
    ];

    let (score_short, n_valid_short, first_failed_short) = loocv_score_joint(
        &y.view(),
        &d.view(),
        &control_obs,
        0.5,
        0.5,
        1e10,
        1,
        100,
        1e-6,
        f64::INFINITY,
        None,
    );

    let (score_full, n_valid_full, failed_full) = loocv_score_joint_full_diagnostic(
        &y.view(),
        &d.view(),
        &control_obs,
        0.5,
        0.5,
        1e10,
        1,
        100,
        1e-6,
        None,
    );
    assert!(
        (score_short - score_full).abs() < 1e-12,
        "full_diagnostic score must match short-circuit when no failures: \
         short={} full={}",
        score_short,
        score_full
    );
    assert_eq!(
        n_valid_short, n_valid_full,
        "n_valid must match between short-circuit and full_diagnostic paths"
    );
    assert!(first_failed_short.is_none(), "short-circuit expected no failure");
    assert!(failed_full.is_empty(), "full_diagnostic expected empty failed_obs list");
}

#[test]
fn test_loocv_grid_search_joint_completeness() {
    let y = arr2(&[
        [1.0, 2.0],
        [2.0, 3.0],
        [3.0, 4.0],
        [4.0, 6.0]
    ]);
    let d = arr2(&[[0.0, 0.0], [0.0, 0.0], [0.0, 0.0], [0.0, 1.0]]);
    let control_mask = arr2(&[[1u8, 1], [1, 1], [1, 1], [1, 0]]);

    let lambda_time_grid = &[0.0, 0.5];
    let lambda_unit_grid = &[0.0, 0.5];
    let lambda_nn_grid = &[1e10];

    let (
        best_lt,
        best_lu,
        best_ln,
        best_score,
        n_valid,
        n_attempted,
        _,
    ) = loocv_grid_search_joint(
        &y.view(),
        &d.view(),
        &control_mask.view(),
        lambda_time_grid,
        lambda_unit_grid,
        lambda_nn_grid,
        100,
        1e-6,
        None,
    );
    assert!(
        lambda_time_grid.contains(&best_lt),
        "Best λ_time should be from grid"
    );
    assert!(
        lambda_unit_grid.contains(&best_lu),
        "Best λ_unit should be from grid"
    );
    assert!(
        lambda_nn_grid.contains(&best_ln),
        "Best λ_nn should be from grid"
    );
    assert!(best_score.is_finite(), "Best score should be finite");
    assert!(n_attempted > 0, "Should have attempted some observations");
    assert!(n_valid > 0, "Should have valid observations");
}

#[test]
fn test_loocv_joint_determinism() {
    let y = arr2(&[
        [1.0, 2.0, 3.0],
        [2.0, 3.0, 4.0],
        [3.0, 4.0, 5.0],
        [4.0, 5.0, 7.0]
    ]);
    let d = arr2(&[
        [0.0, 0.0, 0.0],
        [0.0, 0.0, 0.0],
        [0.0, 0.0, 0.0],
        [0.0, 0.0, 1.0]
    ]);
    let control_mask = arr2(&[[1u8, 1, 1], [1, 1, 1], [1, 1, 1], [1, 1, 0]]);

    let lambda_time_grid = &[0.0, 0.5];
    let lambda_unit_grid = &[0.0];
    let lambda_nn_grid = &[1e10];

    let result1 = loocv_grid_search_joint(
        &y.view(),
        &d.view(),
        &control_mask.view(),
        lambda_time_grid,
        lambda_unit_grid,
        lambda_nn_grid,
        100,
        1e-6,
        None,
    );

    let result2 = loocv_grid_search_joint(
        &y.view(),
        &d.view(),
        &control_mask.view(),
        lambda_time_grid,
        lambda_unit_grid,
        lambda_nn_grid,
        100,
        1e-6,
        None,
    );

    assert_eq!(result1.0, result2.0, "λ_time should match");
    assert_eq!(result1.1, result2.1, "λ_unit should match");
    assert_eq!(result1.2, result2.2, "λ_nn should match");
    assert_eq!(result1.3, result2.3, "Score should match");
}

#[test]
fn test_loocv_joint_infinity_handling() {
    let y = arr2(&[[1.0, 2.0], [2.0, 3.0], [3.0, 4.0], [4.0, 6.0]]);
    let d = arr2(&[[0.0, 0.0], [0.0, 0.0], [0.0, 0.0], [0.0, 1.0]]);
    let control_mask = arr2(&[[1u8, 1], [1, 1], [1, 1], [1, 0]]);
    let lambda_time_grid = &[f64::INFINITY, 0.5];
    let lambda_unit_grid = &[0.0];
    let lambda_nn_grid = &[f64::INFINITY];

    let (best_lt, _best_lu, best_ln, best_score, _, _, _) = loocv_grid_search_joint(
        &y.view(),
        &d.view(),
        &control_mask.view(),
        lambda_time_grid,
        lambda_unit_grid,
        lambda_nn_grid,
        100,
        1e-6,
        None,
    );
    assert!(
        best_score.is_finite(),
        "Score should be finite even with ∞ params"
    );
    if best_lt.is_infinite() {
        assert!(best_lt == f64::INFINITY, "Should return original ∞ value");
    }
    if best_ln.is_infinite() {
        assert!(best_ln == f64::INFINITY, "Should return original ∞ value");
    }
}

#[test]
fn test_joint_weights_non_normalization() {
    let y = arr2(&[
        [1.0, 2.0, 3.0],
        [2.0, 3.0, 4.0],
        [3.0, 4.0, 5.0],
        [4.0, 5.0, 7.0]
    ]);
    let d = arr2(&[
        [0.0, 0.0, 0.0],
        [0.0, 0.0, 0.0],
        [0.0, 0.0, 0.0],
        [0.0, 0.0, 1.0]
    ]);

    let lambda_time = 0.5;
    let lambda_unit = 0.5;
    let treated_periods = 1;

    let delta = compute_joint_weights(
        &y.view(),
        &d.view(),
        lambda_time,
        lambda_unit,
        treated_periods,
    );
    let weight_sum: f64 = delta.iter().sum();
    assert!(
        (weight_sum - 1.0).abs() > 1e-6,
        "Weights should NOT sum to 1, got sum = {}",
        weight_sum
    );
    for &w in delta.iter() {
        assert!(w >= 0.0, "All weights should be non-negative");
    }
}

#[test]
fn test_joint_model_includes_intercept() {
    let y = arr2(&[
        [10.0, 12.0],
        [11.0, 13.0],
        [12.0, 14.0],
        [13.0, 16.0]
    ]);
    let d = arr2(&[[0.0, 0.0], [0.0, 0.0], [0.0, 0.0], [0.0, 1.0]]);

    let control_obs: Vec<(usize, usize)> =
        vec![(0, 0), (0, 1), (1, 0), (1, 1), (2, 0), (2, 1), (3, 0)];
    let (score, n_valid, _) = loocv_score_joint(
        &y.view(),
        &d.view(),
        &control_obs,
        0.0,
        0.0,
        1e10,
        1,
        100,
        1e-6,
        f64::INFINITY,
        None,
    );
    assert!(score.is_finite(), "Score should be finite with intercept");
    assert!(n_valid == control_obs.len(), "All obs should be valid");
    assert!(
        score < 100.0,
        "Score should be reasonable with intercept, got {}",
        score
    );
}

#[test]
fn test_loocv_twostep_diagnostic_completeness() {
    let y = arr2(&[
        [1.0, 2.0, 3.0],
        [2.0, 3.0, 4.0],
        [3.0, 4.0, 5.0],
        [4.0, 5.0, 7.0]
    ]);
    let d = arr2(&[
        [0.0, 0.0, 0.0],
        [0.0, 0.0, 0.0],
        [0.0, 0.0, 0.0],
        [0.0, 0.0, 1.0]
    ]);
    let control_mask = arr2(&[[1u8, 1, 1], [1, 1, 1], [1, 1, 1], [1, 1, 0]]);
    let time_dist = arr2(&[[0i64, 1, 2, 3], [1, 0, 1, 2], [2, 1, 0, 1], [3, 2, 1, 0]]);

    let lambda_time_grid = &[0.0, 0.5];
    let lambda_unit_grid = &[0.0];
    let lambda_nn_grid = &[1e10];

    let (_, _, _, best_score, n_valid, n_attempted, _) = loocv_grid_search(
        &y.view(),
        &d.view(),
        &control_mask.view(),
        &time_dist.view(),
        lambda_time_grid,
        lambda_unit_grid,
        lambda_nn_grid,
        100,
        1e-6,
        None,
    ).unwrap();
    assert!(
        best_score.is_finite() && best_score >= 0.0,
        "Score should be finite and non-negative"
    );
    assert!(
        n_valid <= n_attempted,
        "n_valid ({}) should be <= n_attempted ({})",
        n_valid,
        n_attempted
    );
    assert_eq!(n_attempted, 11, "n_attempted should cover every D=0 cell");
}

#[test]
fn test_loocv_twostep_uses_all_control_observations() {
    let y = arr2(&[
        [1.0, 2.0, 3.0, 4.0, 5.0],
        [2.0, 3.0, 4.0, 5.0, 6.0],
        [3.0, 4.0, 5.0, 6.0, 7.0],
        [4.0, 5.0, 6.0, 7.0, 9.0]
    ]);
    let d = arr2(&[
        [0.0, 0.0, 0.0, 0.0, 0.0],
        [0.0, 0.0, 0.0, 0.0, 0.0],
        [0.0, 0.0, 0.0, 0.0, 0.0],
        [0.0, 0.0, 0.0, 0.0, 1.0]
    ]);
    let control_mask = arr2(&[
        [1u8, 1, 1, 1, 1],
        [1, 1, 1, 1, 1],
        [1, 1, 1, 1, 1],
        [1, 1, 1, 1, 0]
    ]);
    let time_dist = arr2(&[[0i64, 1, 2, 3], [1, 0, 1, 2], [2, 1, 0, 1], [3, 2, 1, 0]]);

    let lambda_time_grid = &[0.0];
    let lambda_unit_grid = &[0.0];
    let lambda_nn_grid = &[1e10];

    let (_, _, _, _, n_valid, n_attempted, _) = loocv_grid_search(
        &y.view(),
        &d.view(),
        &control_mask.view(),
        &time_dist.view(),
        lambda_time_grid,
        lambda_unit_grid,
        lambda_nn_grid,
        100,
        1e-6,
        None,
    ).unwrap();

    assert_eq!(n_attempted, 19, "Must enumerate all D=0 cells");
    assert!(n_valid <= n_attempted, "n_valid should be <= n_attempted");
}

#[test]
fn test_loocv_score_precision() {
    let y = arr2(&[
        [1.0, 2.0, 3.0],
        [2.0, 3.0, 4.0],
        [3.0, 4.0, 5.0],
        [4.0, 5.0, 7.0]
    ]);
    let d = arr2(&[
        [0.0, 0.0, 0.0],
        [0.0, 0.0, 0.0],
        [0.0, 0.0, 0.0],
        [0.0, 0.0, 1.0]
    ]);
    let control_mask = arr2(&[[1u8, 1, 1], [1, 1, 1], [1, 1, 1], [1, 1, 0]]);
    let time_dist = arr2(&[[0i64, 1, 2, 3], [1, 0, 1, 2], [2, 1, 0, 1], [3, 2, 1, 0]]);

    let control_obs: Vec<(usize, usize)> = vec![
        (0, 0),
        (0, 1),
        (0, 2),
        (1, 0),
        (1, 1),
        (1, 2),
        (2, 0),
        (2, 1),
        (2, 2),
        (3, 0),
        (3, 1),
    ];
    let dist_cache = build_cache(&y.view(), &d.view());
    let (score1, n_valid1, _) = loocv_score_for_params(
        &y.view(),
        &d.view(),
        &control_mask.view(),
        &time_dist.view(),
        &dist_cache,
        &control_obs,
        0.5,
        0.5,
        0.1,
        100,
        1e-6,
        f64::INFINITY,
        None,
    );

    let (score2, n_valid2, _) = loocv_score_for_params(
        &y.view(),
        &d.view(),
        &control_mask.view(),
        &time_dist.view(),
        &dist_cache,
        &control_obs,
        0.5,
        0.5,
        0.1,
        100,
        1e-6,
        f64::INFINITY,
        None,
    );
    let diff = (score1 - score2).abs();
    assert!(
        diff < 1e-8,
        "LOOCV score should be deterministic: score1={}, score2={}, diff={}",
        score1,
        score2,
        diff
    );
    assert_eq!(n_valid1, n_valid2, "n_valid should be identical");
}

#[test]
fn test_loocv_score_finite_and_nonnegative() {
    let y = arr2(&[[1.0, 2.0], [2.0, 3.0], [3.0, 4.0], [4.0, 6.0]]);
    let d = arr2(&[[0.0, 0.0], [0.0, 0.0], [0.0, 0.0], [0.0, 1.0]]);
    let control_mask = arr2(&[[1u8, 1], [1, 1], [1, 1], [1, 0]]);
    let time_dist = arr2(&[[0i64, 1, 2, 3], [1, 0, 1, 2], [2, 1, 0, 1], [3, 2, 1, 0]]);

    let control_obs: Vec<(usize, usize)> =
        vec![(0, 0), (0, 1), (1, 0), (1, 1), (2, 0), (2, 1), (3, 0)];
    let test_params = vec![
        (0.0, 0.0, 0.0),
        (0.5, 0.0, 0.0),
        (0.0, 0.5, 0.0),
        (0.0, 0.0, 0.1),
        (0.5, 0.5, 0.1),
        (1.0, 1.0, 1.0),
    ];

    let dist_cache = build_cache(&y.view(), &d.view());
    for (lt, lu, ln) in test_params {
        let (score, n_valid, first_failed) = loocv_score_for_params(
            &y.view(),
            &d.view(),
            &control_mask.view(),
            &time_dist.view(),
            &dist_cache,
            &control_obs,
            lt,
            lu,
            ln,
            100,
            1e-6,
            f64::INFINITY,
            None,
        );

        if first_failed.is_none() {
            assert!(
                score.is_finite(),
                "Score should be finite for λ_t={}, λ_u={}, λ_nn={}",
                lt,
                lu,
                ln
            );
            assert!(
                score >= 0.0,
                "Score should be non-negative for λ_t={}, λ_u={}, λ_nn={}, got {}",
                lt,
                lu,
                ln,
                score
            );
            assert!(
                n_valid > 0,
                "Should have valid observations for λ_t={}, λ_u={}, λ_nn={}",
                lt,
                lu,
                ln
            );
        }
    }
}

#[test]
fn test_loocv_score_diagnostic_matches_short_circuit() {
    let y = arr2(&[[1.0, 2.0], [2.0, 3.0], [3.0, 4.0], [4.0, 6.0]]);
    let d = arr2(&[[0.0, 0.0], [0.0, 0.0], [0.0, 0.0], [0.0, 1.0]]);
    let control_mask = arr2(&[[1u8, 1], [1, 1], [1, 1], [1, 0]]);
    let time_dist = arr2(&[[0i64, 1, 2, 3], [1, 0, 1, 2], [2, 1, 0, 1], [3, 2, 1, 0]]);
    let control_obs: Vec<(usize, usize)> =
        vec![(0, 0), (0, 1), (1, 0), (1, 1), (2, 0), (2, 1), (3, 0)];

    let dist_cache = build_cache(&y.view(), &d.view());
    let (score_short, n_valid_short, first_failed_short) = loocv_score_for_params(
        &y.view(),
        &d.view(),
        &control_mask.view(),
        &time_dist.view(),
        &dist_cache,
        &control_obs,
        0.5, 0.5, 0.1, 100, 1e-6,
        f64::INFINITY,
        None,
    );
    let (score_full, n_valid_full, failed_full) = loocv_score_for_params_full_diagnostic(
        &y.view(),
        &d.view(),
        &control_mask.view(),
        &time_dist.view(),
        &dist_cache,
        &control_obs,
        0.5, 0.5, 0.1, 100, 1e-6,
        None,
    );

    assert!(first_failed_short.is_none(), "expected zero failures at healthy λ");
    assert!(failed_full.is_empty(), "diagnostic variant should report no failures");
    assert_eq!(n_valid_short, n_valid_full);
    assert!((score_short - score_full).abs() < 1e-12);
}

#[test]
fn test_loocv_parameter_selection_in_grid() {
    let y = arr2(&[
        [1.0, 2.0, 3.0],
        [2.0, 3.0, 4.0],
        [3.0, 4.0, 5.0],
        [4.0, 5.0, 7.0]
    ]);
    let d = arr2(&[
        [0.0, 0.0, 0.0],
        [0.0, 0.0, 0.0],
        [0.0, 0.0, 0.0],
        [0.0, 0.0, 1.0]
    ]);
    let control_mask = arr2(&[[1u8, 1, 1], [1, 1, 1], [1, 1, 1], [1, 1, 0]]);
    let time_dist = arr2(&[[0i64, 1, 2, 3], [1, 0, 1, 2], [2, 1, 0, 1], [3, 2, 1, 0]]);

    let lambda_time_grid = vec![0.0, 0.5, 1.0, 2.0];
    let lambda_unit_grid = vec![0.0, 0.5, 1.0];
    let lambda_nn_grid = vec![0.0, 0.1, 1.0];

    let (best_lt, best_lu, best_ln, _, _, _, _) = loocv_grid_search(
        &y.view(),
        &d.view(),
        &control_mask.view(),
        &time_dist.view(),
        &lambda_time_grid,
        &lambda_unit_grid,
        &lambda_nn_grid,
        100,
        1e-6,
        None,
    ).unwrap();

    assert!(
        lambda_time_grid.contains(&best_lt),
        "Selected λ_time={} should be in grid {:?}",
        best_lt,
        lambda_time_grid
    );
    assert!(
        lambda_unit_grid.contains(&best_lu),
        "Selected λ_unit={} should be in grid {:?}",
        best_lu,
        lambda_unit_grid
    );
    assert!(
        lambda_nn_grid.contains(&best_ln),
        "Selected λ_nn={} should be in grid {:?}",
        best_ln,
        lambda_nn_grid
    );
}

#[test]
fn test_loocv_grid_search_exhaustive_twostep_agrees_with_cycling() {
    let y = arr2(&[
        [1.0, 2.0, 3.0],
        [2.0, 3.0, 4.0],
        [3.0, 4.0, 5.0],
        [4.0, 5.0, 7.0]
    ]);
    let d = arr2(&[
        [0.0, 0.0, 0.0],
        [0.0, 0.0, 0.0],
        [0.0, 0.0, 0.0],
        [0.0, 0.0, 1.0]
    ]);
    let control_mask = arr2(&[[1u8, 1, 1], [1, 1, 1], [1, 1, 1], [1, 1, 0]]);
    let time_dist = arr2(&[[0i64, 1, 2, 3], [1, 0, 1, 2], [2, 1, 0, 1], [3, 2, 1, 0]]);

    let lambda_time_grid = vec![0.0, 0.1, 0.5, 1.0];
    let lambda_unit_grid = vec![0.0, 0.1, 0.5];
    let lambda_nn_grid = vec![0.01, 0.1, 1.0];

    let cycling = loocv_grid_search(
        &y.view(),
        &d.view(),
        &control_mask.view(),
        &time_dist.view(),
        &lambda_time_grid,
        &lambda_unit_grid,
        &lambda_nn_grid,
        100,
        1e-6,
        None,
    ).unwrap();
    let exhaustive = loocv_grid_search_exhaustive(
        &y.view(),
        &d.view(),
        &control_mask.view(),
        &time_dist.view(),
        &lambda_time_grid,
        &lambda_unit_grid,
        &lambda_nn_grid,
        100,
        1e-6,
        None,
    ).unwrap();
    for (name, val, grid) in [
        ("λ_time exhaustive", exhaustive.0, &lambda_time_grid),
        ("λ_time cycling", cycling.0, &lambda_time_grid),
        ("λ_unit exhaustive", exhaustive.1, &lambda_unit_grid),
        ("λ_unit cycling", cycling.1, &lambda_unit_grid),
        ("λ_nn exhaustive", exhaustive.2, &lambda_nn_grid),
        ("λ_nn cycling", cycling.2, &lambda_nn_grid),
    ] {
        assert!(grid.contains(&val), "{name} value {val} not in grid");
    }
    assert!(
        exhaustive.3 <= cycling.3 + 1e-9,
        "exhaustive score {} should be ≤ cycling score {}",
        exhaustive.3,
        cycling.3,
    );
    assert_eq!(exhaustive.5, cycling.5, "n_attempted should match");
}

#[test]
fn test_loocv_grid_search_exhaustive_twostep_determinism() {
    let y = arr2(&[
        [1.0, 2.0, 3.0],
        [2.0, 3.0, 4.0],
        [3.0, 4.0, 5.0],
        [4.0, 5.0, 7.0]
    ]);
    let d = arr2(&[
        [0.0, 0.0, 0.0],
        [0.0, 0.0, 0.0],
        [0.0, 0.0, 0.0],
        [0.0, 0.0, 1.0]
    ]);
    let control_mask = arr2(&[[1u8, 1, 1], [1, 1, 1], [1, 1, 1], [1, 1, 0]]);
    let time_dist = arr2(&[[0i64, 1, 2, 3], [1, 0, 1, 2], [2, 1, 0, 1], [3, 2, 1, 0]]);

    let lambda_time_grid = vec![0.0, 0.5];
    let lambda_unit_grid = vec![0.0, 0.5];
    let lambda_nn_grid = vec![0.01, 0.1, 1.0];

    let r1 = loocv_grid_search_exhaustive(
        &y.view(),
        &d.view(),
        &control_mask.view(),
        &time_dist.view(),
        &lambda_time_grid,
        &lambda_unit_grid,
        &lambda_nn_grid,
        100,
        1e-6,
        None,
    ).unwrap();
    let r2 = loocv_grid_search_exhaustive(
        &y.view(),
        &d.view(),
        &control_mask.view(),
        &time_dist.view(),
        &lambda_time_grid,
        &lambda_unit_grid,
        &lambda_nn_grid,
        100,
        1e-6,
        None,
    ).unwrap();

    assert_eq!(r1.0, r2.0, "λ_time must match");
    assert_eq!(r1.1, r2.1, "λ_unit must match");
    assert_eq!(r1.2, r2.2, "λ_nn must match");
    assert!((r1.3 - r2.3).abs() < 1e-12, "score must be bit-identical");
}

#[test]
fn test_loocv_joint_score_precision() {
    let y = arr2(&[
        [1.0, 2.0, 3.0],
        [2.0, 3.0, 4.0],
        [3.0, 4.0, 5.0],
        [4.0, 6.0, 6.0]
    ]);
    let d = arr2(&[
        [0.0, 0.0, 0.0],
        [0.0, 0.0, 0.0],
        [0.0, 0.0, 0.0],
        [0.0, 1.0, 0.0]
    ]);

    let control_obs: Vec<(usize, usize)> = vec![
        (0, 0),
        (0, 1),
        (0, 2),
        (1, 0),
        (1, 1),
        (1, 2),
        (2, 0),
        (2, 1),
        (2, 2),
        (3, 0),
        (3, 2),
    ];
    let (score1, _, _) = loocv_score_joint(
        &y.view(),
        &d.view(),
        &control_obs,
        0.5,
        0.5,
        1e10,
        1,
        100,
        1e-6,
        f64::INFINITY,
        None,
    );

    let (score2, _, _) = loocv_score_joint(
        &y.view(),
        &d.view(),
        &control_obs,
        0.5,
        0.5,
        1e10,
        1,
        100,
        1e-6,
        f64::INFINITY,
        None,
    );

    let diff = (score1 - score2).abs();
    assert!(
        diff < 1e-8,
        "Joint LOOCV score should be deterministic: diff={}",
        diff
    );
}

#[test]
#[should_panic(expected = "delta not (1-D)-masked")]
fn test_debug_assert_delta_mask_panics_for_unmasked_delta() {
    let d = arr2(&[[0.0, 0.0], [0.0, 1.0]]);
    let delta_bad = arr2(&[[1.0, 1.0], [1.0, 1.0]]);
    debug_assert_delta_is_1minus_d_masked(&d.view(), &delta_bad.view(), "test_mask_fail");
}

#[test]
fn test_weight_matrix_into_bit_exact() {
    let y = arr2(&[[1.0, 2.0, 3.0], [2.0, 3.0, 4.0], [3.0, 4.0, 5.0], [4.0, 5.0, 6.0]]);
    let d = arr2(&[[0.0, 0.0, 0.0], [0.0, 0.0, 0.0], [0.0, 0.0, 1.0], [0.0, 0.0, 1.0]]);
    let time_dist = arr2(&[[0i64, 1, 2, 3], [1, 0, 1, 2], [2, 1, 0, 1], [3, 2, 1, 0]]);

    let expected =
        compute_weight_matrix(&y.view(), &d.view(), 4, 3, 2, 3, 0.7, 0.3, &time_dist.view());

    let mut buf = Array2::<f64>::from_elem((4, 3), f64::NAN);
    compute_weight_matrix_into(
        &mut buf, &y.view(), &d.view(), 4, 3, 2, 3, 0.7, 0.3, &time_dist.view(),
    );

    assert_eq!(buf, expected, "compute_weight_matrix_into must be bit-exact");
}

#[test]
fn test_weight_matrix_cached_into_bit_exact() {
    let y = arr2(&[[1.0, 2.0, 3.0], [2.0, 3.0, 4.0], [3.0, 4.0, 5.0], [4.0, 5.0, 6.0]]);
    let d = arr2(&[[0.0, 0.0, 0.0], [0.0, 0.0, 0.0], [0.0, 0.0, 1.0], [0.0, 0.0, 1.0]]);
    let time_dist = arr2(&[[0i64, 1, 2, 3], [1, 0, 1, 2], [2, 1, 0, 1], [3, 2, 1, 0]]);
    let cache = build_cache(&y.view(), &d.view());

    let expected = compute_weight_matrix_cached(&cache, 2, 3, 0.7, 0.3, &time_dist.view());

    let mut buf = Array2::<f64>::from_elem((4, 3), f64::NAN);
    compute_weight_matrix_cached_into(&mut buf, &cache, 2, 3, 0.7, 0.3, &time_dist.view());

    assert_eq!(buf, expected, "compute_weight_matrix_cached_into must be bit-exact");
}

#[test]
fn test_joint_weights_into_bit_exact() {
    let y = arr2(&[[1.0, 2.0, 3.0], [2.0, 3.0, 4.0], [3.0, 4.0, 5.0], [4.0, 5.0, 6.0]]);
    let d = arr2(&[[0.0, 0.0, 0.0], [0.0, 0.0, 0.0], [0.0, 0.0, 1.0], [0.0, 0.0, 1.0]]);

    let expected = compute_joint_weights(&y.view(), &d.view(), 0.4, 0.6, 2);

    let mut buf = Array2::<f64>::from_elem((4, 3), f64::NAN);
    compute_joint_weights_into(&mut buf, &y.view(), &d.view(), 0.4, 0.6, 2);

    assert_eq!(buf, expected, "compute_joint_weights_into must be bit-exact");
}

/// The distances of a cache are those of the panel.
#[test]
fn cached_and_direct_weights_are_bit_exact() {
    let y = arr2(&[[1.0, 2.0, 3.0], [2.0, 3.0, 4.0], [3.0, 4.0, 5.0], [4.0, 5.0, 6.0]]);
    let d = arr2(&[[0.0, 0.0, 0.0], [0.0, 0.0, 0.0], [0.0, 0.0, 1.0], [0.0, 0.0, 1.0]]);
    let time_dist = arr2(&[[0i64, 1, 2, 3], [1, 0, 1, 2], [2, 1, 0, 1], [3, 2, 1, 0]]);
    let cache = build_cache(&y.view(), &d.view());
    let direct =
        compute_weight_matrix(&y.view(), &d.view(), 4, 3, 2, 3, 0.7, 0.3, &time_dist.view());
    assert_eq!(compute_weight_matrix_cached(&cache, 2, 3, 0.7, 0.3, &time_dist.view()), direct);
    let (y, d) = (mat(&y.view()), mat(&d.view()));
    let s = compute_unit_distance_for_obs(&y, &d, 0, 2, 3);
    let distance = kernels::separation_value(&y, 0, 2, &s, &rms);
    assert_eq!(direct[[3, 0]].to_bits(), unit_decay(0.3_f64.to_bits(), distance));
}

fn build_large_panel_views(
    n_periods: usize,
    n_units: usize,
) -> (Array2<f64>, Array2<f64>, Array2<i64>) {
    let y = Array2::from_shape_fn((n_periods, n_units), |(t, i)| {
        (t as f64) * 0.1 + (i as f64) * 0.01
    });
    let d = Array2::<f64>::zeros((n_periods, n_units));
    let time_dist =
        Array2::from_shape_fn((n_periods, n_periods), |(t, s)| (t as i64 - s as i64).abs());
    (y, d, time_dist)
}

#[test]
fn test_adaptive_small_lambda_returns_dense() {
    let n_periods = 5;
    let n_units = 3;
    let (y, d, time_dist) = build_large_panel_views(n_periods, n_units);

    let result = compute_weight_matrix_adaptive(
        &y.view(),
        &d.view(),
        n_periods,
        n_units,
        0,
        1,
        0.0,
        0.0,
        &time_dist.view(),
    );

    assert!(
        matches!(result, WeightMatrix::Dense(_)),
        "small panel (N < SPARSE_MIN_UNITS) should always return Dense"
    );
}

#[test]
fn test_adaptive_small_panel_always_dense() {
    let n_periods = 5;
    let n_units = 3;
    let (y, d, time_dist) = build_large_panel_views(n_periods, n_units);

    for &lambda in &[0.0_f64, 1.0, 10.0, 100.0] {
        let result = compute_weight_matrix_adaptive(
            &y.view(),
            &d.view(),
            n_periods,
            n_units,
            0,
            2,
            lambda,
            lambda,
            &time_dist.view(),
        );
        assert!(
            matches!(result, WeightMatrix::Dense(_)),
            "small panel (N={}) should always return Dense, lambda={}",
            n_units,
            lambda
        );
    }
}

#[test]
fn test_adaptive_dense_path_matches_original() {
    let y = arr2(&[[1.0, 2.0, 3.0], [2.0, 3.0, 4.0], [3.0, 4.0, 5.0], [4.0, 5.0, 6.0]]);
    let d = arr2(&[[0.0, 0.0, 0.0], [0.0, 0.0, 0.0], [0.0, 0.0, 1.0], [0.0, 0.0, 1.0]]);
    let time_dist = arr2(&[[0i64, 1, 2, 3], [1, 0, 1, 2], [2, 1, 0, 1], [3, 2, 1, 0]]);

    let expected =
        compute_weight_matrix(&y.view(), &d.view(), 4, 3, 2, 3, 0.5, 0.5, &time_dist.view());
    let result = compute_weight_matrix_adaptive(
        &y.view(),
        &d.view(),
        4,
        3,
        2,
        3,
        0.5,
        0.5,
        &time_dist.view(),
    );

    match result {
        WeightMatrix::Dense(m) => {
            let found = arr(&m);
            for t in 0..4 {
                for i in 0..3 {
                    assert!(
                        (found[[t, i]] - expected[[t, i]]).abs() < 1e-10,
                        "Dense path mismatch at [{}, {}]: {} vs {}",
                        t,
                        i,
                        found[[t, i]],
                        expected[[t, i]]
                    );
                }
            }
        }
        WeightMatrix::Sparse(sparse) => {
            panic!(
                "small panel (N=3 < SPARSE_MIN_UNITS) should not return Sparse, but nnz={}",
                sparse.indices.len()
            );
        }
    }
}

#[test]
fn test_adaptive_sparse_dense_numerical_equivalence() {
    let n_periods = 8;
    let n_units = 110;
    let target_unit = 5;
    let target_period = 6;

    let y = Array2::from_shape_fn((n_periods, n_units), |(t, i)| ((t * 7 + i * 13) as f64) * 0.01);
    let d = Array2::<f64>::zeros((n_periods, n_units));
    let time_dist =
        Array2::from_shape_fn((n_periods, n_periods), |(t, s)| (t as i64 - s as i64).abs());

    let lambda_time = 5.0;
    let lambda_unit = 5.0;

    let dense_ref = compute_weight_matrix(
        &y.view(),
        &d.view(),
        n_periods,
        n_units,
        target_unit,
        target_period,
        lambda_time,
        lambda_unit,
        &time_dist.view(),
    );
    let adaptive = compute_weight_matrix_adaptive(
        &y.view(),
        &d.view(),
        n_periods,
        n_units,
        target_unit,
        target_period,
        lambda_time,
        lambda_unit,
        &time_dist.view(),
    );

    assert!(matches!(adaptive, WeightMatrix::Sparse(_)));
    let sparse_threshold = match &adaptive {
        WeightMatrix::Dense(_) => 0.0,
        WeightMatrix::Sparse(s) => f64::from_bits(s.threshold),
    };
    let adaptive_dense = dense_of(&adaptive);

    for t in 0..n_periods {
        for i in 0..n_units {
            let diff = (adaptive_dense[[t, i]] - dense_ref[[t, i]]).abs();
            let ref_val = dense_ref[[t, i]];
            if ref_val >= sparse_threshold {
                assert!(
                    diff < 1e-10,
                    "sparse expansion mismatch at [{}, {}]: adaptive={}, ref={}",
                    t,
                    i,
                    adaptive_dense[[t, i]],
                    ref_val
                );
            } else {
                assert!(
                    diff <= ref_val + 1e-15,
                    "sparse expansion truncation residual too large at [{}, {}]: {} and {}",
                    t,
                    i,
                    diff,
                    ref_val
                );
            }
        }
    }
}

#[test]
fn test_sparse_weights_metadata_consistency() {
    let n_periods = 8;
    let n_units = 110;
    let (y, d, time_dist) = build_large_panel_views(n_periods, n_units);

    let result = compute_weight_matrix_adaptive(
        &y.view(),
        &d.view(),
        n_periods,
        n_units,
        0,
        4,
        5.0,
        5.0,
        &time_dist.view(),
    );

    match result {
        WeightMatrix::Dense(_) => {}
        WeightMatrix::Sparse(sp) => {
            assert_eq!(
                sp.indices.len(),
                sp.values.len(),
                "SparseWeights: indices and values must have equal length"
            );
            assert_eq!(sp.n_rows, n_periods);
            assert_eq!(sp.n_cols, n_units);
            let threshold = f64::from_bits(sp.threshold);
            for v in floats(&sp.values) {
                assert!(v >= threshold, "stored weight {} should be >= threshold {}", v, threshold);
                assert!(v >= 0.0, "sparse weight should be non-negative: {}", v);
            }
            for &(r, c) in &sp.indices {
                assert!(r < n_periods, "row index out of bounds: r={}", r);
                assert!(c < n_units, "col index out of bounds: c={}", c);
            }
        }
    }
}

#[test]
fn test_estimate_model_sparse_dense_att_equivalence() {
    let y = arr2(&[[1.0, 2.0, 3.0], [2.0, 3.0, 4.0], [3.0, 4.0, 5.0], [4.0, 5.0, 6.0]]);
    let d = arr2(&[[0.0, 0.0, 0.0], [0.0, 0.0, 0.0], [0.0, 0.0, 1.0], [0.0, 0.0, 1.0]]);
    let control_mask = d.mapv(|v: f64| u8::from(v == 0.0));
    let time_dist = arr2(&[[0i64, 1, 2, 3], [1, 0, 1, 2], [2, 1, 0, 1], [3, 2, 1, 0]]);

    let w_dense =
        compute_weight_matrix(&y.view(), &d.view(), 4, 3, 2, 3, 0.5, 0.5, &time_dist.view());
    let (alpha_d, beta_d, l_d, _, _, _) = estimate_model(
        &y.view(),
        &control_mask.view(),
        &w_dense.view(),
        0.1,
        4,
        3,
        50,
        1e-8,
        None,
        None,
        None,
        None,
    )
    .expect("dense estimation should succeed");

    let w_adaptive = compute_weight_matrix_adaptive(
        &y.view(),
        &d.view(),
        4,
        3,
        2,
        3,
        0.5,
        0.5,
        &time_dist.view(),
    );
    let (alpha_a, beta_a, l_a, _, _, _) = estimate_model(
        &y.view(),
        &control_mask.view(),
        &dense_of(&w_adaptive).view(),
        0.1,
        4,
        3,
        50,
        1e-8,
        None,
        None,
        None,
        None,
    )
    .expect("adaptive estimation should succeed");

    let att = |alpha: &Array1<f64>, beta: &Array1<f64>, l: &Array2<f64>| {
        (0..4)
            .flat_map(|t| (0..3).map(move |i| (t, i)))
            .filter(|&(t, i)| d[[t, i]] == 1.0)
            .map(|(t, i)| y[[t, i]] - alpha[i] - beta[t] - l[[t, i]])
            .sum::<f64>()
            / 2.0
    };
    let att_dense = att(&alpha_d, &beta_d, &l_d);
    let att_adaptive = att(&alpha_a, &beta_a, &l_a);

    assert!(
        (att_dense - att_adaptive).abs() < 1e-10,
        "dense and adaptive ATT should be equal: dense={}, adaptive={}",
        att_dense,
        att_adaptive
    );
}

fn build_tiny_panel(
    n_periods: usize,
    n_control: usize,
    n_treated: usize,
    first_treated_period: usize,
    seed: u64,
) -> (Array2<f64>, Array2<f64>, Array2<u8>, Array2<i64>) {
    let n_units = n_control + n_treated;
    let mut rng = Xoshiro256PlusPlus::seed_from_u64(seed);
    let dist = Uniform::new(-0.5_f64, 0.5);

    let mut y = Array2::<f64>::zeros((n_periods, n_units));
    let mut d = Array2::<f64>::zeros((n_periods, n_units));
    let mut cm = Array2::<u8>::zeros((n_periods, n_units));

    for i in 0..n_units {
        let alpha = (i as f64) * 0.1;
        for t in 0..n_periods {
            let beta = (t as f64) * 0.05;
            let noise = dist.sample(&mut rng);
            let treated = (i >= n_control) && (t >= first_treated_period);
            let tau = if treated { 1.0 } else { 0.0 };
            y[[t, i]] = alpha + beta + tau + noise;
            d[[t, i]] = if treated { 1.0 } else { 0.0 };
            cm[[t, i]] = if treated { 0 } else { 1 };
        }
    }

    let time_dist =
        Array2::from_shape_fn((n_periods, n_periods), |(t, s)| (t as i64 - s as i64).abs());
    (y, d, cm, time_dist)
}

#[test]
fn test_bootstrap_full_weighted_equal_weights_match_unweighted() {
    let (y, d, cm, td) = build_tiny_panel(8, 6, 3, 5, 42);
    let n_units = y.ncols();

    let n_boot = 15;
    let seed = 7;

    let unweighted = bootstrap_twostep(
        &y.view(),
        &d.view(),
        &cm.view(),
        &td.view(),
        0.5,
        1.0,
        0.1,
        n_boot,
        50,
        1e-6,
        seed,
        None,
    );

    let weights = vec![1.0_f64; n_units];
    let weighted = bootstrap_twostep(
        &y.view(),
        &d.view(),
        &cm.view(),
        &td.view(),
        0.5,
        1.0,
        0.1,
        n_boot,
        50,
        1e-6,
        seed,
        Some(&weights),
    );

    assert_eq!(unweighted.0.len(), weighted.0.len());
    for (u, w) in unweighted.0.iter().zip(weighted.0.iter()) {
        assert!(
            (u - w).abs() < 1e-10,
            "equal-weight bootstrap must match unweighted pointwise: {} vs {}",
            u,
            w
        );
    }
    assert!((unweighted.1 - weighted.1).abs() < 1e-12);
    assert_eq!(unweighted.0.len(), n_boot);
    assert!(unweighted.1 > 0.0);
}

#[test]
fn joint_search_selects_from_its_grids() {
    let y = arr2(&[[1.0, 2.0, 3.0], [2.0, 3.0, 4.5], [3.0, 4.0, 5.0], [4.0, 5.0, 7.0]]);
    let d = arr2(&[[0.0, 0.0, 0.0], [0.0, 0.0, 0.0], [0.0, 0.0, 0.0], [0.0, 0.0, 1.0]]);
    let control_mask = arr2(&[[1u8, 1, 1], [1, 1, 1], [1, 1, 1], [1, 1, 0]]);
    let (time, unit, nn) = ([0.0, 0.5], [0.0, 0.3], [0.2, 1e10]);
    let cycling = loocv_cycling_search_joint(
        &y.view(),
        &d.view(),
        &control_mask.view(),
        &time,
        &unit,
        &nn,
        50,
        1e-6,
        5,
    );
    let all = loocv_grid_search_joint(
        &y.view(),
        &d.view(),
        &control_mask.view(),
        &time,
        &unit,
        &nn,
        50,
        1e-6,
        None,
    );
    assert!(time.contains(&cycling.0) && unit.contains(&cycling.1) && nn.contains(&cycling.2));
    assert_eq!((cycling.5, all.5), (11, 11));
    assert!(all.3 <= cycling.3 + 1e-9);
    assert!(cycling.6.is_none());
}

#[test]
fn covariates_are_fitted_and_netted_out() {
    let x = Array2::from_shape_fn((12, 1), |(k, _)| ((k * 7) % 5) as f64 - 2.0);
    let y = Array2::from_shape_fn((4, 3), |(t, i)| {
        1.0 + 0.5 * i as f64 + 0.25 * t as f64 + 2.0 * x[[t * 3 + i, 0]]
    });
    let delta = Array2::<f64>::from_elem((4, 3), 1.0);
    let (_, _, _, gamma) =
        solve_joint_no_lowrank(&y.view(), &delta.view(), Some(&x.view())).unwrap();
    assert!((gamma.unwrap()[0] - 2.0).abs() < 1e-9);

    let control_mask = Array2::<u8>::from_elem((4, 3), 1);
    let (alpha, beta, l, _, converged, gamma) = estimate_model(
        &y.view(),
        &control_mask.view(),
        &delta.view(),
        1e6,
        4,
        3,
        2000,
        1e-10,
        None,
        None,
        Some(&x.view()),
        None,
    )
    .unwrap();
    let gamma = gamma.unwrap();
    assert!(converged);
    assert!((gamma[0] - 2.0).abs() < 1e-6);
    for t in 0..4 {
        for i in 0..3 {
            let fitted = alpha[i] + beta[t] + l[[t, i]] + gamma[0] * x[[t * 3 + i, 0]];
            assert!((y[[t, i]] - fitted).abs() < 1e-6);
        }
    }
}

#[test]
fn vanishing_weights_leave_nothing_to_fit() {
    let y = arr2(&[[1.0, 2.0], [2.0, 3.0]]);
    let delta = Array2::<f64>::zeros((2, 2));
    assert!(solve_joint_no_lowrank(&y.view(), &delta.view(), None).is_none());
    let nan = Array2::<f64>::from_elem((2, 2), f64::NAN);
    assert!(solve_joint_no_lowrank(&y.view(), &nan.view(), None).is_none());
}

#[test]
fn no_iteration_leaves_the_start() {
    let y = arr2(&[[1.0, 2.0], [2.0, 3.0]]);
    let control_mask = arr2(&[[1u8, 1], [1, 1]]);
    let w = Array2::<f64>::from_elem((2, 2), 1.0);
    let (alpha, _, l, n_iters, converged, _) = estimate_model(
        &y.view(),
        &control_mask.view(),
        &w.view(),
        0.5,
        2,
        2,
        0,
        1e-6,
        None,
        None,
        None,
        None,
    )
    .unwrap();
    assert_eq!((n_iters, converged), (0, false));
    assert!(alpha.iter().chain(l.iter()).all(|&v| v == 0.0));
}

#[test]
fn a_panel_without_treatment_is_refused() {
    let y = arr2(&[[1.0, 2.0], [2.0, 3.0]]);
    let d = Array2::<f64>::zeros((2, 2));
    let control_mask = arr2(&[[1u8, 1], [1, 1]]);
    let time_dist = arr2(&[[0i64, 1], [1, 0]]);
    let r = loocv_grid_search(
        &y.view(),
        &d.view(),
        &control_mask.view(),
        &time_dist.view(),
        &[0.0],
        &[0.0],
        &[1.0],
        10,
        1e-6,
        None,
    );
    assert_eq!(r.err(), Some(TropError::NoTreated));
}

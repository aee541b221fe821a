//! Cross-validation, given the arithmetic.
//!
//! Every control cell is left out in turn, and its effect under the fit without
//! it enters the sum of squares that parameters are judged by.
use crate::alternating::{
    CovariateFit, Dot, TwostepModel, TwostepProximal, WeightedMean,
};
use crate::arithmetic::{
    Binary, CellEffect, DoubledDecay, PairSummary, Solver, Summary, Ternary, TimeDecay, Unary,
};
use crate::bits;
use crate::estimation::{masked_at_treated, Iterations};
use crate::joint::{fit_joint, weigh_panel, JointMethod, JointModel, ProximalStep};
use crate::loocv::{
    diagnose, scan_of, scan_result, sum_of, Diagnosis, Fit, ScoreResult, ScoreScan,
};
use crate::matrix::Matrix;
use crate::model::regressable;
use crate::panel::{same_shape, treated};
use crate::tuning::Lambdas;
use crate::twostep::{score_without, TwostepMethod, TwostepPanel};
use vstd::prelude::*;

verus! {

/// One cell left out by the twostep method: the model that the fit started
/// from, the sum so far, and the model and the sum that came of it.
pub struct Trial {
    pub start: Option<TwostepModel>,
    pub sum: u64,
    pub outcome: Option<(TwostepModel, u64)>,
}

impl Trial {
    /// What leaving out the cell gave.
    pub open spec fn fit(self) -> Fit {
        match self.outcome {
            Some((model, sum)) => Fit::Effect(sum),
            None => Fit::Failed,
        }
    }
}

/// What leaving out each of some cells gave.
pub open spec fn trial_fits(trials: Seq<Trial>) -> Seq<Fit> {
    Seq::new(trials.len(), |k: int| trials[k].fit())
}

/// Model that the next fit starts from: that of the last fit that succeeded.
pub open spec fn warm_start(trials: Seq<Trial>) -> Option<TwostepModel>
    decreases trials.len(),
{
    if trials.len() == 0 {
        None
    } else {
        match trials.last().outcome {
            Some((model, sum)) => Some(model),
            None => warm_start(trials.drop_last()),
        }
    }
}

/// `trials` is what came of fitting the first cells one after the other, each
/// from the model of the last success and with the sum so far.
pub open spec fn tried<
    R: PairSummary,
    T: TimeDecay,
    U: Binary,
    P: Binary,
    B: Binary,
    Z: Summary,
    O: Dot,
    C: WeightedMean,
    Q: CovariateFit,
    F: TwostepProximal,
    E: CellEffect<TwostepModel>,
    S: Binary,
>(
    panel: &TwostepPanel,
    cells: Seq<(usize, usize)>,
    lambdas: Lambdas,
    method: &TwostepMethod<R, T, U, P, B, Z, O, C, Q, F, E, S>,
    trials: Seq<Trial>,
) -> bool {
    &&& trials.len() <= cells.len()
    &&& forall|k: int|
        0 <= k < trials.len() ==> {
            let trial = #[trigger] trials[k];
            &&& trial.start == warm_start(trials.take(k))
            &&& trial.sum == sum_of(trial_fits(trials.take(k)))
            &&& method.scores(trial.outcome, panel, lambdas, cells[k], trial.start, trial.sum)
        }
}

pub proof fn lemma_scan_prefix(
    cells: Seq<(usize, usize)>,
    fits: Seq<Fit>,
    more: Seq<Fit>,
    bound: u64,
    n: int,
)
    requires
        n <= fits.len() <= more.len(),
        forall|k: int| 0 <= k < fits.len() ==> fits[k] == #[trigger] more[k],
    ensures
        scan_of(cells, fits, bound, n) == scan_of(cells, more, bound, n),
    decreases n,
{
    if n > 0 {
        lemma_scan_prefix(cells, fits, more, bound, n - 1);
        assert(fits[n - 1] == more[n - 1]);
    }
}

proof fn lemma_tried_push<
    R: PairSummary,
    T: TimeDecay,
    U: Binary,
    P: Binary,
    B: Binary,
    Z: Summary,
    O: Dot,
    C: WeightedMean,
    Q: CovariateFit,
    F: TwostepProximal,
    E: CellEffect<TwostepModel>,
    S: Binary,
>(
    panel: &TwostepPanel,
    cells: Seq<(usize, usize)>,
    lambdas: Lambdas,
    method: &TwostepMethod<R, T, U, P, B, Z, O, C, Q, F, E, S>,
    trials: Seq<Trial>,
    trial: Trial,
)
    requires
        tried(panel, cells, lambdas, method, trials),
        trials.len() < cells.len(),
        trial.start == warm_start(trials),
        trial.sum == sum_of(trial_fits(trials)),
        method.scores(
            trial.outcome,
            panel,
            lambdas,
            cells[trials.len() as int],
            trial.start,
            trial.sum,
        ),
    ensures
        tried(panel, cells, lambdas, method, trials.push(trial)),
        trial_fits(trials.push(trial)) == trial_fits(trials).push(trial.fit()),
        warm_start(trials.push(trial)) == match trial.outcome {
            Some((model, sum)) => Some(model),
            None => warm_start(trials),
        },
{
    let more = trials.push(trial);
    assert(more.drop_last() =~= trials);
    assert(trial_fits(more) =~= trial_fits(trials).push(trial.fit()));
    assert forall|k: int| 0 <= k < more.len() implies {
        let t = #[trigger] more[k];
        &&& t.start == warm_start(more.take(k))
        &&& t.sum == sum_of(trial_fits(more.take(k)))
        &&& method.scores(t.outcome, panel, lambdas, cells[k], t.start, t.sum)
    } by {
        if k < trials.len() {
            assert(more.take(k) =~= trials.take(k));
            assert(more[k] == trials[k]);
        } else {
            assert(more.take(k) =~= trials);
        }
    }
}

/// `r` is what came of leaving out the cells one after the other, until a fit
/// failed or the sum exceeded the bound.
pub open spec fn scanned<
    R: PairSummary,
    T: TimeDecay,
    U: Binary,
    P: Binary,
    B: Binary,
    Z: Summary,
    O: Dot,
    C: WeightedMean,
    Q: CovariateFit,
    F: TwostepProximal,
    E: CellEffect<TwostepModel>,
    S: Binary,
>(
    r: ScoreScan,
    panel: &TwostepPanel,
    cells: Seq<(usize, usize)>,
    lambdas: Lambdas,
    method: &TwostepMethod<R, T, U, P, B, Z, O, C, Q, F, E, S>,
    bound: u64,
) -> bool {
    exists|trials: Seq<Trial>| #[trigger]
        tried(panel, cells, lambdas, method, trials) && r == scan_of(
            cells,
            trial_fits(trials),
            bound,
            trials.len() as int,
        ) && (r.stopped is None ==> trials.len() == cells.len())
}

/// Leaves out the cells one after the other, until a fit fails or the sum
/// exceeds the bound.
pub fn scan_cells<
    R: PairSummary,
    T: TimeDecay,
    U: Binary,
    P: Binary,
    B: Binary,
    Z: Summary,
    O: Dot,
    C: WeightedMean,
    Q: CovariateFit,
    F: TwostepProximal,
    E: CellEffect<TwostepModel>,
    S: Binary,
>(
    panel: &TwostepPanel,
    cells: &Vec<(usize, usize)>,
    lambdas: Lambdas,
    method: &TwostepMethod<R, T, U, P, B, Z, O, C, Q, F, E, S>,
    bound: u64,
) -> (r: ScoreScan)
    requires
        panel.wf(),
        cells_in(cells@, panel.y),
        method.ready(),
    ensures
        scanned(r, panel, cells@, lambdas, method, bound),
        r.n_valid <= cells@.len(),
{
    let mut scan: ScoreScan = ScoreScan::new();
    let mut start: Option<TwostepModel> = None;
    let ghost mut trials: Seq<Trial> = Seq::empty();
    let mut k: usize = 0;
    while k < cells.len() && scan.stopped.is_none()
        invariant
            panel.wf(),
            cells_in(cells@, panel.y),
            method.ready(),
            k <= cells@.len(),
            k == trials.len(),
            tried(panel, cells@, lambdas, method, trials),
            start == warm_start(trials),
            start matches Some(m) ==> m.fits(panel.y, m.gamma@.len()),
            scan == scan_of(cells@, trial_fits(trials), bound, k as int),
            scan.n_valid <= k,
            scan.stopped is None ==> scan.sum == sum_of(trial_fits(trials)),
        decreases cells@.len() - k,
    {
        let ghost before = trials;
        let ghost from = start;
        let sum: u64 = scan.sum;
        let outcome: Option<(TwostepModel, u64)> = score_without(
            panel,
            lambdas,
            cells[k],
            &start,
            sum,
            method,
        );
        proof {
            let trial = Trial { start: from, sum, outcome };
            lemma_tried_push(panel, cells@, lambdas, method, trials, trial);
            trials = trials.push(trial);
            let (fits, more) = (trial_fits(before), trial_fits(trials));
            lemma_scan_prefix(cells@, fits, more, bound, k as int);
            assert(more.drop_last() =~= fits);
            assert(more[k as int] == trial.fit());
        }
        match outcome {
            Some((model, sum)) => {
                start = Some(model);
                scan.record(cells[k], Fit::Effect(sum), bound);
            },
            None => {
                scan.record(cells[k], Fit::Failed, bound);
            },
        }
        k = k + 1;
    }
    scan
}

/// Criterion of the twostep method at some parameters, given up at the first
/// failure and above `bound`.
pub fn loocv_score_for_params<
    R: PairSummary,
    T: TimeDecay,
    U: Binary,
    P: Binary,
    B: Binary,
    Z: Summary,
    O: Dot,
    C: WeightedMean,
    Q: CovariateFit,
    F: TwostepProximal,
    E: CellEffect<TwostepModel>,
    S: Binary,
>(
    panel: &TwostepPanel,
    cells: &Vec<(usize, usize)>,
    lambdas: Lambdas,
    method: &TwostepMethod<R, T, U, P, B, Z, O, C, Q, F, E, S>,
    bound: u64,
) -> (r: ScoreResult)
    requires
        panel.wf(),
        cells_in(cells@, panel.y),
        method.ready(),
    ensures
        exists|scan: ScoreScan| #[trigger]
            scanned(scan, panel, cells@, lambdas, method, bound) && r
                == scan_result(scan),
{
    let scan: ScoreScan = scan_cells(
        panel,
        cells,
        lambdas,
        method,
        bound,
    );
    scan.finish()
}

/// `r` is the criterion of the twostep method at some parameters, with a record
/// of every failure.
pub open spec fn diagnosed<
    R: PairSummary,
    T: TimeDecay,
    U: Binary,
    P: Binary,
    B: Binary,
    Z: Summary,
    O: Dot,
    C: WeightedMean,
    Q: CovariateFit,
    F: TwostepProximal,
    E: CellEffect<TwostepModel>,
    S: Binary,
>(
    r: Diagnosis,
    panel: &TwostepPanel,
    cells: Seq<(usize, usize)>,
    lambdas: Lambdas,
    method: &TwostepMethod<R, T, U, P, B, Z, O, C, Q, F, E, S>,
) -> bool {
    exists|trials: Seq<Trial>| #[trigger]
        tried(panel, cells, lambdas, method, trials) && trials.len() == cells.len() && r.diagnoses(
            cells,
            trial_fits(trials),
        )
}

/// Criterion of the twostep method at some parameters, with a record of every
/// failure.
pub fn loocv_score_for_params_full_diagnostic<
    R: PairSummary,
    T: TimeDecay,
    U: Binary,
    P: Binary,
    B: Binary,
    Z: Summary,
    O: Dot,
    C: WeightedMean,
    Q: CovariateFit,
    F: TwostepProximal,
    E: CellEffect<TwostepModel>,
    S: Binary,
>(
    panel: &TwostepPanel,
    cells: &Vec<(usize, usize)>,
    lambdas: Lambdas,
    method: &TwostepMethod<R, T, U, P, B, Z, O, C, Q, F, E, S>,
) -> (r: Diagnosis)
    requires
        panel.wf(),
        cells_in(cells@, panel.y),
        method.ready(),
    ensures
        diagnosed(r, panel, cells@, lambdas, method),
{
    let mut fits: Vec<Fit> = Vec::new();
    let mut sum: u64 = bits::ZERO;
    let mut start: Option<TwostepModel> = None;
    let ghost mut trials: Seq<Trial> = Seq::empty();
    let mut k: usize = 0;
    while k < cells.len()
        invariant
            panel.wf(),
            cells_in(cells@, panel.y),
            method.ready(),
            k <= cells@.len(),
            k == trials.len(),
            tried(panel, cells@, lambdas, method, trials),
            start == warm_start(trials),
            start matches Some(m) ==> m.fits(panel.y, m.gamma@.len()),
            fits@ == trial_fits(trials),
            sum == sum_of(trial_fits(trials)),
        decreases cells@.len() - k,
    {
        let ghost from = start;
        let outcome: Option<(TwostepModel, u64)> = score_without(
            panel,
            lambdas,
            cells[k],
            &start,
            sum,
            method,
        );
        proof {
            let trial = Trial { start: from, sum, outcome };
            lemma_tried_push(panel, cells@, lambdas, method, trials, trial);
            trials = trials.push(trial);
            assert(trial_fits(trials).drop_last() =~= fits@);
        }
        match outcome {
            Some((model, total)) => {
                start = Some(model);
                sum = total;
                fits.push(Fit::Effect(total));
            },
            None => {
                fits.push(Fit::Failed);
            },
        }
        k = k + 1;
    }
    diagnose(cells, &fits)
}

/// `r` is `delta` with the weight of one cell set to zero.
pub open spec fn left_out(r: &Matrix<u64>, delta: &Matrix<u64>, cell: (usize, usize)) -> bool {
    &&& r.wf()
    &&& r.rows == delta.rows
    &&& r.cols == delta.cols
    &&& r.at(cell.0 as int, cell.1 as int) == bits::ZERO
    &&& forall|t: int, i: int|
        0 <= t < r.rows && 0 <= i < r.cols && (t != cell.0 || i != cell.1) ==> #[trigger] r.at(t, i)
            == delta.at(t, i)
}

/// Weights without one cell.
pub fn leave_out(delta: &Matrix<u64>, cell: (usize, usize)) -> (r: Matrix<u64>)
    requires
        delta.has(cell.0, cell.1),
    ensures
        left_out(&r, delta, cell),
{
    let mut r: Matrix<u64> = Matrix {
        rows: delta.rows,
        cols: delta.cols,
        data: delta.data.clone(),
    };
    assert(r.data@ =~= delta.data@);
    r.set(cell.0, cell.1, bits::ZERO);
    r
}

/// Leaving a cell out keeps treated cells out of the fit, and the cell itself
/// carries no weight in it.
pub proof fn law_left_out_stays_masked(
    d: &Matrix<u64>,
    delta: &Matrix<u64>,
    r: &Matrix<u64>,
    cell: (usize, usize),
)
    requires
        d.rows == delta.rows,
        d.cols == delta.cols,
        masked_at_treated(d, delta),
        left_out(r, delta, cell),
    ensures
        masked_at_treated(d, r),
        bits::zero(r.at(cell.0 as int, cell.1 as int)),
{
    assert forall|t: usize, i: usize|
        t < d.rows && i < d.cols && #[trigger] treated(d, t as int, i as int) implies
    !bits::finite(r.at(t as int, i as int)) || bits::zero(r.at(t as int, i as int)) by {
        if t != cell.0 || i != cell.1 {
            assert(r.at(t as int, i as int) == delta.at(t as int, i as int));
        }
    }
}

/// One cell left out by the joint method: the weights without it, the sum so
/// far, and the sum that came of the fit.
pub struct JointTrial {
    pub without: Matrix<u64>,
    pub sum: u64,
    pub outcome: Option<u64>,
}

/// What leaving out a cell of the joint method gave: the fit must succeed, and
/// the outcome of the cell must be finite for its effect to count.
pub open spec fn joint_fit_of(y: &Matrix<u64>, cell: (usize, usize), outcome: Option<u64>) -> Fit {
    match outcome {
        None => Fit::Failed,
        Some(sum) => if bits::finite(y.at(cell.0 as int, cell.1 as int)) {
            Fit::Effect(sum)
        } else {
            Fit::Unobserved
        },
    }
}

/// What leaving out each of some cells gave.
pub open spec fn joint_trial_fits(
    y: &Matrix<u64>,
    cells: Seq<(usize, usize)>,
    trials: Seq<JointTrial>,
) -> Seq<Fit> {
    Seq::new(trials.len(), |k: int| joint_fit_of(y, cells[k], trials[k].outcome))
}

/// `r` is what comes of leaving out `cell` under the weights without it: the sum
/// with the square of the effect of the cell added; nothing where the fit fails.
pub open spec fn scores_jointly<
    A: Summary,
    R: PairSummary,
    T: DoubledDecay,
    U: Binary,
    C: Ternary,
    S: Binary,
    Z: Summary,
    Q: Unary,
    P: Binary,
    L: Solver,
    F: ProximalStep,
    E: CellEffect<JointModel>,
    D: Binary,
>(
    r: Option<u64>,
    y: &Matrix<u64>,
    x: Option<&Matrix<u64>>,
    without: &Matrix<u64>,
    lambdas: Lambdas,
    cell: (usize, usize),
    sum: u64,
    method: &JointMethod<A, R, T, U, C, S, Z, Q, P, L, F, E, D>,
) -> bool {
    exists|fit: Option<(JointModel, Iterations)>|
        {
            &&& #[trigger] method.fits(fit, y, without, x, lambdas.nn)
            &&& match fit {
                Some((model, it)) => r matches Some(total) && exists|tau: u64|
                    {
                        &&& #[trigger] call_ensures(*method.effect, (y, x, &model, cell), tau)
                        &&& call_ensures(*method.add_square, (sum, tau), total)
                    },
                None => r is None,
            }
        }
}

/// Leaves out a cell under the weights without it: the sum with the square of
/// its effect added.
pub fn score_jointly_without<
    A: Summary,
    R: PairSummary,
    T: DoubledDecay,
    U: Binary,
    C: Ternary,
    S: Binary,
    Z: Summary,
    Q: Unary,
    P: Binary,
    L: Solver,
    F: ProximalStep,
    E: CellEffect<JointModel>,
    D: Binary,
>(
    y: &Matrix<u64>,
    x: Option<&Matrix<u64>>,
    without: &Matrix<u64>,
    lambdas: Lambdas,
    cell: (usize, usize),
    sum: u64,
    method: &JointMethod<A, R, T, U, C, S, Z, Q, P, L, F, E, D>,
) -> (r: Option<u64>)
    requires
        same_shape(y, without),
        regressable(y, x),
        method.ready(),
    ensures
        scores_jointly(r, y, x, without, lambdas, cell, sum, method),
{
    let fit: Option<(JointModel, Iterations)> = fit_joint(y, without, x, lambdas.nn, method);
    assert(method.fits(fit, y, without, x, lambdas.nn));
    match fit {
        Some((model, _)) => {
            let tau: u64 = (*method.effect)(y, x, &model, cell);
            assert(call_ensures(*method.effect, (y, x, &model, cell), tau));
            Some((*method.add_square)(sum, tau))
        },
        None => None,
    }
}

/// `trials` is what came of fitting the first cells one after the other, each
/// with its own weight set to zero and with the sum so far.
pub open spec fn jointly_tried<
    A: Summary,
    R: PairSummary,
    T: DoubledDecay,
    U: Binary,
    C: Ternary,
    S: Binary,
    Z: Summary,
    Q: Unary,
    P: Binary,
    L: Solver,
    F: ProximalStep,
    E: CellEffect<JointModel>,
    D: Binary,
>(
    y: &Matrix<u64>,
    x: Option<&Matrix<u64>>,
    delta: &Matrix<u64>,
    cells: Seq<(usize, usize)>,
    lambdas: Lambdas,
    method: &JointMethod<A, R, T, U, C, S, Z, Q, P, L, F, E, D>,
    trials: Seq<JointTrial>,
) -> bool {
    &&& trials.len() <= cells.len()
    &&& forall|k: int|
        0 <= k < trials.len() ==> {
            let trial = #[trigger] trials[k];
            &&& left_out(&trial.without, delta, cells[k])
            &&& trial.sum == sum_of(joint_trial_fits(y, cells, trials.take(k)))
            &&& scores_jointly(
                trial.outcome,
                y,
                x,
                &trial.without,
                lambdas,
                cells[k],
                trial.sum,
                method,
            )
        }
}

proof fn lemma_jointly_tried_push<
    A: Summary,
    R: PairSummary,
    T: DoubledDecay,
    U: Binary,
    C: Ternary,
    S: Binary,
    Z: Summary,
    Q: Unary,
    P: Binary,
    L: Solver,
    F: ProximalStep,
    E: CellEffect<JointModel>,
    D: Binary,
>(
    y: &Matrix<u64>,
    x: Option<&Matrix<u64>>,
    delta: &Matrix<u64>,
    cells: Seq<(usize, usize)>,
    lambdas: Lambdas,
    method: &JointMethod<A, R, T, U, C, S, Z, Q, P, L, F, E, D>,
    trials: Seq<JointTrial>,
    trial: JointTrial,
)
    requires
        jointly_tried(y, x, delta, cells, lambdas, method, trials),
        trials.len() < cells.len(),
        left_out(&trial.without, delta, cells[trials.len() as int]),
        trial.sum == sum_of(joint_trial_fits(y, cells, trials)),
        scores_jointly(
            trial.outcome,
            y,
            x,
            &trial.without,
            lambdas,
            cells[trials.len() as int],
            trial.sum,
            method,
        ),
    ensures
        jointly_tried(y, x, delta, cells, lambdas, method, trials.push(trial)),
        joint_trial_fits(y, cells, trials.push(trial)) == joint_trial_fits(y, cells, trials).push(
            joint_fit_of(y, cells[trials.len() as int], trial.outcome),
        ),
{
    let more = trials.push(trial);
    assert(joint_trial_fits(y, cells, more) =~= joint_trial_fits(y, cells, trials).push(
        joint_fit_of(y, cells[trials.len() as int], trial.outcome),
    ));
    assert forall|k: int| 0 <= k < more.len() implies {
        let t = #[trigger] more[k];
        &&& left_out(&t.without, delta, cells[k])
        &&& t.sum == sum_of(joint_trial_fits(y, cells, more.take(k)))
        &&& scores_jointly(t.outcome, y, x, &t.without, lambdas, cells[k], t.sum, method)
    } by {
        if k < trials.len() {
            assert(more.take(k) =~= trials.take(k));
            assert(more[k] == trials[k]);
        } else {
            assert(more.take(k) =~= trials);
        }
    }
}

/// All cells lie in a panel.
pub open spec fn cells_in<T>(cells: Seq<(usize, usize)>, m: &Matrix<T>) -> bool {
    forall|k: int| 0 <= k < cells.len() ==> (#[trigger] cells[k]).0 < m.rows && cells[k].1 < m.cols
}

fn joint_fit(y: &Matrix<u64>, cell: (usize, usize), outcome: Option<u64>) -> (r: Fit)
    requires
        y.has(cell.0, cell.1),
    ensures
        r == joint_fit_of(y, cell, outcome),
{
    match outcome {
        None => Fit::Failed,
        Some(sum) => if bits::is_finite(y.get(cell.0, cell.1)) {
            Fit::Effect(sum)
        } else {
            Fit::Unobserved
        },
    }
}

/// `r` is the criterion of the joint method at some parameters, given up at the
/// first failure and above `bound`.
pub open spec fn jointly_scored<
    A: Summary,
    R: PairSummary,
    T: DoubledDecay,
    U: Binary,
    C: Ternary,
    S: Binary,
    Z: Summary,
    Q: Unary,
    P: Binary,
    L: Solver,
    F: ProximalStep,
    E: CellEffect<JointModel>,
    D: Binary,
>(
    r: ScoreResult,
    y: &Matrix<u64>,
    d: &Matrix<u64>,
    x: Option<&Matrix<u64>>,
    cells: Seq<(usize, usize)>,
    lambdas: Lambdas,
    treated_periods: usize,
    method: &JointMethod<A, R, T, U, C, S, Z, Q, P, L, F, E, D>,
    bound: u64,
) -> bool {
    exists|delta: Matrix<u64>, trials: Seq<JointTrial>|
        {
            let s = scan_of(
                cells,
                joint_trial_fits(y, cells, trials),
                bound,
                trials.len() as int,
            );
            &&& #[trigger] method.weighs(&delta, y, d, lambdas, treated_periods)
            &&& #[trigger] jointly_tried(y, x, &delta, cells, lambdas, method, trials)
            &&& r == scan_result(s)
            &&& s.stopped is None ==> trials.len() == cells.len()
        }
}

/// Criterion of the joint method at some parameters, given up at the first
/// failure and above `bound`.  Every cell is left out of the joint weights of
/// the panel, and its effect is that under the fit without it.
pub fn loocv_score_joint<
    A: Summary,
    R: PairSummary,
    T: DoubledDecay,
    U: Binary,
    C: Ternary,
    S: Binary,
    Z: Summary,
    Q: Unary,
    P: Binary,
    L: Solver,
    F: ProximalStep,
    E: CellEffect<JointModel>,
    D: Binary,
>(
    y: &Matrix<u64>,
    d: &Matrix<u64>,
    x: Option<&Matrix<u64>>,
    cells: &Vec<(usize, usize)>,
    lambdas: Lambdas,
    treated_periods: usize,
    method: &JointMethod<A, R, T, U, C, S, Z, Q, P, L, F, E, D>,
    bound: u64,
) -> (r: ScoreResult)
    requires
        same_shape(y, d),
        regressable(y, x),
        cells_in(cells@, y),
        method.ready(),
    ensures
        jointly_scored(r, y, d, x, cells@, lambdas, treated_periods, method, bound),
{
    let delta: Matrix<u64> = weigh_panel(y, d, lambdas, treated_periods, method);
    let mut scan: ScoreScan = ScoreScan::new();
    let ghost mut trials: Seq<JointTrial> = Seq::empty();
    let mut k: usize = 0;
    while k < cells.len() && scan.stopped.is_none()
        invariant
            same_shape(y, &delta),
            cells_in(cells@, y),
            regressable(y, x),
            method.ready(),
            k <= cells@.len(),
            k == trials.len(),
            jointly_tried(y, x, &delta, cells@, lambdas, method, trials),
            scan == scan_of(cells@, joint_trial_fits(y, cells@, trials), bound, k as int),
            scan.n_valid <= k,
            scan.stopped is None ==> scan.sum == sum_of(joint_trial_fits(y, cells@, trials)),
        decreases cells@.len() - k,
    {
        let ghost before = trials;
        let cell: (usize, usize) = cells[k];
        let sum: u64 = scan.sum;
        let without: Matrix<u64> = leave_out(&delta, cell);
        let outcome: Option<u64> = score_jointly_without(
            y,
            x,
            &without,
            lambdas,
            cell,
            sum,
            method,
        );
        let fitted: Fit = joint_fit(y, cell, outcome);
        proof {
            let trial = JointTrial { without, sum, outcome };
            lemma_jointly_tried_push(y, x, &delta, cells@, lambdas, method, trials, trial);
            trials = trials.push(trial);
            let (fits, more) = (
                joint_trial_fits(y, cells@, before),
                joint_trial_fits(y, cells@, trials),
            );
            lemma_scan_prefix(cells@, fits, more, bound, k as int);
            assert(more.drop_last() =~= fits);
            assert(more[k as int] == fitted);
        }
        scan.record(cell, fitted, bound);
        k = k + 1;
    }
    scan.finish()
}

/// `r` is the criterion of the joint method at some parameters, with a record
/// of every failure.
pub open spec fn jointly_diagnosed<
    A: Summary,
    R: PairSummary,
    T: DoubledDecay,
    U: Binary,
    C: Ternary,
    S: Binary,
    Z: Summary,
    Q: Unary,
    P: Binary,
    L: Solver,
    F: ProximalStep,
    E: CellEffect<JointModel>,
    D: Binary,
>(
    r: Diagnosis,
    y: &Matrix<u64>,
    d: &Matrix<u64>,
    x: Option<&Matrix<u64>>,
    cells: Seq<(usize, usize)>,
    lambdas: Lambdas,
    treated_periods: usize,
    method: &JointMethod<A, R, T, U, C, S, Z, Q, P, L, F, E, D>,
) -> bool {
    exists|delta: Matrix<u64>, trials: Seq<JointTrial>|
        {
            &&& #[trigger] method.weighs(&delta, y, d, lambdas, treated_periods)
            &&& #[trigger] jointly_tried(y, x, &delta, cells, lambdas, method, trials)
            &&& trials.len() == cells.len()
            &&& r.diagnoses(cells, joint_trial_fits(y, cells, trials))
        }
}

/// Criterion of the joint method at some parameters, with a record of every
/// failure.
pub fn loocv_score_joint_full_diagnostic<
    A: Summary,
    R: PairSummary,
    T: DoubledDecay,
    U: Binary,
    C: Ternary,
    S: Binary,
    Z: Summary,
    Q: Unary,
    P: Binary,
    L: Solver,
    F: ProximalStep,
    E: CellEffect<JointModel>,
    D: Binary,
>(
    y: &Matrix<u64>,
    d: &Matrix<u64>,
    x: Option<&Matrix<u64>>,
    cells: &Vec<(usize, usize)>,
    lambdas: Lambdas,
    treated_periods: usize,
    method: &JointMethod<A, R, T, U, C, S, Z, Q, P, L, F, E, D>,
) -> (r: Diagnosis)
    requires
        same_shape(y, d),
        regressable(y, x),
        cells_in(cells@, y),
        method.ready(),
    ensures
        jointly_diagnosed(r, y, d, x, cells@, lambdas, treated_periods, method),
{
    let delta: Matrix<u64> = weigh_panel(y, d, lambdas, treated_periods, method);
    let mut fits: Vec<Fit> = Vec::new();
    let mut sum: u64 = bits::ZERO;
    let ghost mut trials: Seq<JointTrial> = Seq::empty();
    let mut k: usize = 0;
    while k < cells.len()
        invariant
            same_shape(y, &delta),
            cells_in(cells@, y),
            regressable(y, x),
            method.ready(),
            k <= cells@.len(),
            k == trials.len(),
            jointly_tried(y, x, &delta, cells@, lambdas, method, trials),
            fits@ == joint_trial_fits(y, cells@, trials),
            sum == sum_of(fits@),
        decreases cells@.len() - k,
    {
        let cell: (usize, usize) = cells[k];
        let without: Matrix<u64> = leave_out(&delta, cell);
        let outcome: Option<u64> = score_jointly_without(
            y,
            x,
            &without,
            lambdas,
            cell,
            sum,
            method,
        );
        let fitted: Fit = joint_fit(y, cell, outcome);
        proof {
            let trial = JointTrial { without, sum, outcome };
            lemma_jointly_tried_push(y, x, &delta, cells@, lambdas, method, trials, trial);
            trials = trials.push(trial);
            assert(fits@.push(fitted).drop_last() =~= fits@);
        }
        if let Fit::Effect(total) = fitted {
            sum = total;
        }
        fits.push(fitted);
        k = k + 1;
    }
    diagnose(cells, &fits)
}

/// The next fit starts from the model of the last one that succeeded: one that
/// succeeds takes over, one that fails changes nothing.
pub proof fn law_fits_start_from_the_last_success(trials: Seq<Trial>, trial: Trial)
    ensures
        warm_start(Seq::<Trial>::empty()) is None,
        trial.outcome is None ==> warm_start(trials.push(trial)) == warm_start(trials),
        trial.outcome matches Some((model, sum)) ==> warm_start(trials.push(trial)) == Some(model),
        trial_fits(trials.push(trial)) == trial_fits(trials).push(
            match trial.outcome {
                Some((model, sum)) => Fit::Effect(sum),
                None => Fit::Failed,
            },
        ),
{
    assert(trials.push(trial).drop_last() =~= trials);
    assert(trial_fits(trials.push(trial)) =~= trial_fits(trials).push(trial.fit()));
}

/// Cells are left out one after the other, without a gap: each scores itself, from
/// the model of the last success and with the sum so far.
pub proof fn law_cells_are_left_out_in_turn<
    R: PairSummary,
    T: TimeDecay,
    U: Binary,
    P: Binary,
    B: Binary,
    Z: Summary,
    O: Dot,
    C: WeightedMean,
    Q: CovariateFit,
    F: TwostepProximal,
    E: CellEffect<TwostepModel>,
    S: Binary,
>(
    panel: &TwostepPanel,
    cells: Seq<(usize, usize)>,
    lambdas: Lambdas,
    method: &TwostepMethod<R, T, U, P, B, Z, O, C, Q, F, E, S>,
    trials: Seq<Trial>,
    k: int,
)
    requires
        tried(panel, cells, lambdas, method, trials),
        0 <= k < trials.len(),
    ensures
        trials.len() <= cells.len(),
        trials[k].start == warm_start(trials.take(k)),
        trials[k].sum == sum_of(trial_fits(trials.take(k))),
        method.scores(
            trials[k].outcome,
            panel,
            lambdas,
            cells[k],
            trials[k].start,
            trials[k].sum,
        ),
{
    assert(trials[k] == trials[k]);
}

proof fn lemma_scan_counts_all(
    cells: Seq<(usize, usize)>,
    fits: Seq<Fit>,
    bound: u64,
    n: int,
)
    requires
        0 <= n <= fits.len(),
        fits.len() <= usize::MAX,
        forall|k: int| 0 <= k < fits.len() ==> #[trigger] fits[k] != Fit::Unobserved,
    ensures
        ({
            let s = scan_of(cells, fits, bound, n);
            &&& s.n_valid <= n
            &&& s.stopped is None ==> s.n_valid == n
            &&& s.stopped matches Some(r) ==> r.first_failed is Some || bits::lt(bound, r.score)
        }),
    decreases n,
{
    if n > 0 {
        lemma_scan_counts_all(cells, fits, bound, n - 1);
        assert(fits[n - 1] != Fit::Unobserved);
    }
}

/// An evaluation that reports neither a failure nor a criterion above its bound
/// left out every one of the cells, and counted every one.
pub proof fn law_criterion_counts_every_cell<
    R: PairSummary,
    T: TimeDecay,
    U: Binary,
    P: Binary,
    B: Binary,
    Z: Summary,
    O: Dot,
    C: WeightedMean,
    Q: CovariateFit,
    F: TwostepProximal,
    E: CellEffect<TwostepModel>,
    S: Binary,
>(
    panel: &TwostepPanel,
    cells: &Vec<(usize, usize)>,
    lambdas: Lambdas,
    method: &TwostepMethod<R, T, U, P, B, Z, O, C, Q, F, E, S>,
    bound: u64,
    r: ScoreResult,
)
    requires
        call_ensures(
            loocv_score_for_params::<R, T, U, P, B, Z, O, C, Q, F, E, S>,
            (panel, cells, lambdas, method, bound),
            r,
        ),
    ensures
        r.first_failed is None && !bits::lt(bound, r.score) ==> r.n_valid == cells@.len(),
        r.n_valid <= cells@.len(),
        exists|trials: Seq<Trial>|
            {
                &&& #[trigger] tried(panel, cells@, lambdas, method, trials)
                &&& r.first_failed is None && !bits::lt(bound, r.score) ==> trials.len()
                    == cells@.len()
                &&& r.first_failed is None && !bits::lt(bound, r.score) && r.n_valid > 0
                    ==> r.score == sum_of(trial_fits(trials))
            },
{
    let scan = choose|scan: ScoreScan| #[trigger]
        scanned(scan, panel, cells@, lambdas, method, bound) && r == scan_result(scan);
    lemma_scan_of_cells(scan, panel, cells, lambdas, method, bound);
}

proof fn lemma_scan_of_cells<
    R: PairSummary,
    T: TimeDecay,
    U: Binary,
    P: Binary,
    B: Binary,
    Z: Summary,
    O: Dot,
    C: WeightedMean,
    Q: CovariateFit,
    F: TwostepProximal,
    E: CellEffect<TwostepModel>,
    S: Binary,
>(
    scan: ScoreScan,
    panel: &TwostepPanel,
    cells: &Vec<(usize, usize)>,
    lambdas: Lambdas,
    method: &TwostepMethod<R, T, U, P, B, Z, O, C, Q, F, E, S>,
    bound: u64,
)
    requires
        scanned(scan, panel, cells@, lambdas, method, bound),
    ensures
        scan_result(scan).n_valid <= cells@.len(),
        scan.stopped matches Some(r) ==> r.first_failed is Some || bits::lt(bound, r.score),
        scan.stopped is None ==> scan.n_valid == cells@.len(),
        exists|trials: Seq<Trial>|
            {
                &&& #[trigger] tried(panel, cells@, lambdas, method, trials)
                &&& scan.stopped is None ==> trials.len() == cells@.len() && scan.sum == sum_of(
                    trial_fits(trials),
                )
            },
{
    let trials = choose|trials: Seq<Trial>| #[trigger]
        tried(panel, cells@, lambdas, method, trials) && scan == scan_of(
            cells@,
            trial_fits(trials),
            bound,
            trials.len() as int,
        ) && (scan.stopped is None ==> trials.len() == cells@.len());
    let n = trials.len() as int;
    assert(cells.len() == cells@.len());
    lemma_scan_of_fits(scan, cells@, trial_fits(trials), bound, n);
    assert(tried(panel, cells@, lambdas, method, trials));
}

proof fn lemma_scan_of_fits(
    scan: ScoreScan,
    cells: Seq<(usize, usize)>,
    fits: Seq<Fit>,
    bound: u64,
    n: int,
)
    requires
        n == fits.len(),
        fits.len() <= usize::MAX,
        scan == scan_of(cells, fits, bound, n),
        forall|k: int| 0 <= k < fits.len() ==> #[trigger] fits[k] != Fit::Unobserved,
    ensures
        scan.stopped matches Some(r) ==> r.first_failed is Some || bits::lt(bound, r.score),
        scan.stopped is None ==> scan.n_valid == n && scan.sum == sum_of(fits),
        scan_result(scan).n_valid <= n,
{
    lemma_scan_counts_all(cells, fits, bound, n);
    lemma_scan_sum(cells, fits, bound, n);
    lemma_stopped_in_range(cells, fits, bound, n);
}

proof fn lemma_stopped_in_range(
    cells: Seq<(usize, usize)>,
    fits: Seq<Fit>,
    bound: u64,
    n: int,
)
    requires
        0 <= n <= fits.len(),
        fits.len() <= usize::MAX,
    ensures
        scan_of(cells, fits, bound, n).n_valid <= n,
        scan_of(cells, fits, bound, n).stopped matches Some(r) ==> r.n_valid <= n,
    decreases n,
{
    if n > 0 {
        lemma_stopped_in_range(cells, fits, bound, n - 1);
    }
}

proof fn lemma_scan_sum(cells: Seq<(usize, usize)>, fits: Seq<Fit>, bound: u64, n: int)
    requires
        n == fits.len(),
        fits.len() <= usize::MAX,
        forall|k: int| 0 <= k < fits.len() ==> #[trigger] fits[k] != Fit::Unobserved,
    ensures
        scan_of(cells, fits, bound, n).stopped is None ==> scan_of(cells, fits, bound, n).sum
            == sum_of(fits),
    decreases n,
{
    if n > 0 {
        let rest = fits.drop_last();
        lemma_scan_prefix(cells, rest, fits, bound, n - 1);
        assert forall|k: int| 0 <= k < rest.len() implies #[trigger] rest[k] != Fit::Unobserved by {
            assert(rest[k] == fits[k]);
        }
        lemma_scan_sum(cells, rest, bound, n - 1);
        assert(fits[n - 1] != Fit::Unobserved);
        assert(fits[n - 1] == fits.last());
    }
}

/// A diagnosis leaves out every one of the cells, and each is counted or reported
/// as failed.
pub proof fn law_diagnosis_counts_every_cell<
    R: PairSummary,
    T: TimeDecay,
    U: Binary,
    P: Binary,
    B: Binary,
    Z: Summary,
    O: Dot,
    C: WeightedMean,
    Q: CovariateFit,
    F: TwostepProximal,
    E: CellEffect<TwostepModel>,
    S: Binary,
>(
    panel: &TwostepPanel,
    cells: &Vec<(usize, usize)>,
    lambdas: Lambdas,
    method: &TwostepMethod<R, T, U, P, B, Z, O, C, Q, F, E, S>,
    r: Diagnosis,
)
    requires
        call_ensures(
            loocv_score_for_params_full_diagnostic::<R, T, U, P, B, Z, O, C, Q, F, E, S>,
            (panel, cells, lambdas, method),
            r,
        ),
    ensures
        r.n_valid + r.failed@.len() == cells@.len(),
        r.failed@.len() > 0 || cells@.len() == 0 ==> r.score == bits::INFINITY,
        exists|trials: Seq<Trial>|
            {
                &&& #[trigger] tried(panel, cells@, lambdas, method, trials)
                &&& trials.len() == cells@.len()
                &&& r.failed@.len() == 0 && cells@.len() > 0 ==> r.score == sum_of(
                    trial_fits(trials),
                )
            },
{
    let trials = choose|trials: Seq<Trial>| #[trigger]
        tried(panel, cells@, lambdas, method, trials) && trials.len() == cells@.len()
            && r.diagnoses(cells@, trial_fits(trials));
    assert(cells.len() == cells@.len());
    let fits = trial_fits(trials);
    crate::loocv::law_diagnosis_accounts_for_cells(r, cells@, fits);
    assert forall|k: int| 0 <= k < fits.len() implies #[trigger] fits[k] != Fit::Unobserved by {}
}

/// Weights without one cell are the weights, but for that cell, which has none.
pub proof fn law_one_cell_is_left_out(
    delta: &Matrix<u64>,
    cell: (usize, usize),
    r: Matrix<u64>,
    t: usize,
    i: usize,
)
    requires
        call_ensures(leave_out, (delta, cell), r),
        t < delta.rows,
        i < delta.cols,
    ensures
        r.rows == delta.rows && r.cols == delta.cols,
        (t, i) == cell ==> r.at(t as int, i as int) == bits::ZERO,
        (t, i) != cell ==> r.at(t as int, i as int) == delta.at(t as int, i as int),
{
}

/// A cell is scored by its own effect under the joint fit, squared and added to the
/// sum; there is nothing exactly where the fit fails.
pub proof fn law_cells_are_scored_jointly<
    A: Summary,
    R: PairSummary,
    T: DoubledDecay,
    U: Binary,
    C: Ternary,
    S: Binary,
    Z: Summary,
    Q: Unary,
    P: Binary,
    L: Solver,
    F: ProximalStep,
    E: CellEffect<JointModel>,
    D: Binary,
>(
    y: &Matrix<u64>,
    x: Option<&Matrix<u64>>,
    without: &Matrix<u64>,
    lambdas: Lambdas,
    cell: (usize, usize),
    sum: u64,
    method: &JointMethod<A, R, T, U, C, S, Z, Q, P, L, F, E, D>,
    r: Option<u64>,
)
    requires
        call_ensures(
            score_jointly_without::<A, R, T, U, C, S, Z, Q, P, L, F, E, D>,
            (y, x, without, lambdas, cell, sum, method),
            r,
        ),
    ensures
        exists|fit: Option<(JointModel, Iterations)>|
            {
                &&& #[trigger] method.fits(fit, y, without, x, lambdas.nn)
                &&& r is None <==> fit is None
                &&& fit matches Some((model, it)) ==> exists|tau: u64, total: u64|
                    {
                        &&& #[trigger] call_ensures(*method.effect, (y, x, &model, cell), tau)
                        &&& #[trigger] call_ensures(*method.add_square, (sum, tau), total)
                        &&& r == Some(total)
                    }
            },
{
}

/// The joint method leaves out every one of the cells, each from the joint weights
/// of the panel without it, unless a fit fails or the bound is exceeded; where all
/// outcomes are finite, it counts every one.
pub proof fn law_joint_criterion_counts_every_cell<
    A: Summary,
    R: PairSummary,
    T: DoubledDecay,
    U: Binary,
    C: Ternary,
    S: Binary,
    Z: Summary,
    Q: Unary,
    P: Binary,
    L: Solver,
    F: ProximalStep,
    E: CellEffect<JointModel>,
    D: Binary,
>(
    y: &Matrix<u64>,
    d: &Matrix<u64>,
    x: Option<&Matrix<u64>>,
    cells: &Vec<(usize, usize)>,
    lambdas: Lambdas,
    treated_periods: usize,
    method: &JointMethod<A, R, T, U, C, S, Z, Q, P, L, F, E, D>,
    bound: u64,
    r: ScoreResult,
)
    requires
        call_ensures(
            loocv_score_joint::<A, R, T, U, C, S, Z, Q, P, L, F, E, D>,
            (y, d, x, cells, lambdas, treated_periods, method, bound),
            r,
        ),
        forall|k: int|
            0 <= k < cells@.len() ==> bits::finite(
                y.at((#[trigger] cells@[k]).0 as int, cells@[k].1 as int),
            ),
    ensures
        r.first_failed is None && !bits::lt(bound, r.score) ==> r.n_valid == cells@.len(),
        exists|delta: Matrix<u64>, trials: Seq<JointTrial>|
            {
                &&& #[trigger] method.weighs(&delta, y, d, lambdas, treated_periods)
                &&& trials.len() <= cells@.len()
                &&& r.first_failed is None && !bits::lt(bound, r.score) ==> trials.len()
                    == cells@.len()
                &&& #[trigger] jointly_tried(y, x, &delta, cells@, lambdas, method, trials)
            },
{
    let (delta, trials) = choose|delta: Matrix<u64>, trials: Seq<JointTrial>|
        {
            let s = scan_of(
                cells@,
                joint_trial_fits(y, cells@, trials),
                bound,
                trials.len() as int,
            );
            &&& #[trigger] method.weighs(&delta, y, d, lambdas, treated_periods)
            &&& #[trigger] jointly_tried(y, x, &delta, cells@, lambdas, method, trials)
            &&& r == scan_result(s)
            &&& s.stopped is None ==> trials.len() == cells@.len()
        };
    let fits = joint_trial_fits(y, cells@, trials);
    assert(cells.len() == cells@.len());
    assert forall|k: int| 0 <= k < fits.len() implies #[trigger] fits[k] != Fit::Unobserved by {
        assert(bits::finite(y.at(cells@[k].0 as int, cells@[k].1 as int)));
    }
    lemma_scan_counts_all(cells@, fits, bound, trials.len() as int);
}

/// Cells are left out of the joint fit one after the other, without a gap: each
/// from the weights without it, and with the sum so far.
pub proof fn law_cells_are_left_out_jointly<
    A: Summary,
    R: PairSummary,
    T: DoubledDecay,
    U: Binary,
    C: Ternary,
    S: Binary,
    Z: Summary,
    Q: Unary,
    P: Binary,
    L: Solver,
    F: ProximalStep,
    E: CellEffect<JointModel>,
    D: Binary,
>(
    y: &Matrix<u64>,
    x: Option<&Matrix<u64>>,
    delta: &Matrix<u64>,
    cells: Seq<(usize, usize)>,
    lambdas: Lambdas,
    method: &JointMethod<A, R, T, U, C, S, Z, Q, P, L, F, E, D>,
    trials: Seq<JointTrial>,
    k: int,
)
    requires
        jointly_tried(y, x, delta, cells, lambdas, method, trials),
        0 <= k < trials.len(),
    ensures
        trials.len() <= cells.len(),
        trials[k].without.rows == delta.rows && trials[k].without.cols == delta.cols,
        trials[k].without.at(cells[k].0 as int, cells[k].1 as int) == bits::ZERO,
        forall|t: int, i: int|
            0 <= t < delta.rows && 0 <= i < delta.cols && (t != cells[k].0 || i != cells[k].1)
                ==> #[trigger] trials[k].without.at(t, i) == delta.at(t, i),
        scores_jointly(
            trials[k].outcome,
            y,
            x,
            &trials[k].without,
            lambdas,
            cells[k],
            trials[k].sum,
            method,
        ),
        trials[k].sum == sum_of(joint_trial_fits(y, cells, trials.take(k))),
        joint_trial_fits(y, cells, trials).len() == trials.len(),
        trials[k].outcome is None <==> joint_trial_fits(y, cells, trials)[k] == Fit::Failed,
        trials[k].outcome matches Some(sum) ==> joint_trial_fits(y, cells, trials)[k]
            == if bits::finite(y.at(cells[k].0 as int, cells[k].1 as int)) {
            Fit::Effect(sum)
        } else {
            Fit::Unobserved
        },
{
    assert(left_out(&trials[k].without, delta, cells[k]));
}

/// The joint diagnosis leaves out every one of the cells; where all outcomes are
/// finite, each is counted or reported as failed.
pub proof fn law_joint_diagnosis_counts_every_cell<
    A: Summary,
    R: PairSummary,
    T: DoubledDecay,
    U: Binary,
    C: Ternary,
    S: Binary,
    Z: Summary,
    Q: Unary,
    P: Binary,
    L: Solver,
    F: ProximalStep,
    E: CellEffect<JointModel>,
    D: Binary,
>(
    y: &Matrix<u64>,
    d: &Matrix<u64>,
    x: Option<&Matrix<u64>>,
    cells: &Vec<(usize, usize)>,
    lambdas: Lambdas,
    treated_periods: usize,
    method: &JointMethod<A, R, T, U, C, S, Z, Q, P, L, F, E, D>,
    r: Diagnosis,
)
    requires
        jointly_diagnosed(r, y, d, x, cells@, lambdas, treated_periods, method),
        forall|k: int|
            0 <= k < cells@.len() ==> bits::finite(
                y.at((#[trigger] cells@[k]).0 as int, cells@[k].1 as int),
            ),
    ensures
        r.n_valid + r.failed@.len() == cells@.len(),
        r.failed@.len() > 0 || cells@.len() == 0 ==> r.score == bits::INFINITY,
        exists|delta: Matrix<u64>, trials: Seq<JointTrial>|
            {
                &&& #[trigger] method.weighs(&delta, y, d, lambdas, treated_periods)
                &&& #[trigger] jointly_tried(y, x, &delta, cells@, lambdas, method, trials)
                &&& trials.len() == cells@.len()
            },
{
    let (delta, trials) = choose|delta: Matrix<u64>, trials: Seq<JointTrial>|
        {
            &&& #[trigger] method.weighs(&delta, y, d, lambdas, treated_periods)
            &&& #[trigger] jointly_tried(y, x, &delta, cells@, lambdas, method, trials)
            &&& trials.len() == cells@.len()
            &&& r.diagnoses(cells@, joint_trial_fits(y, cells@, trials))
        };
    let fits = joint_trial_fits(y, cells@, trials);
    assert(cells.len() == cells@.len());
    assert forall|k: int| 0 <= k < fits.len() implies #[trigger] fits[k] != Fit::Unobserved by {
        assert(bits::finite(y.at(cells@[k].0 as int, cells@[k].1 as int)));
    }
    crate::loocv::law_diagnosis_accounts_for_cells(r, cells@, fits);
}

pub(crate) proof fn lemma_scanned_counts<
    R: PairSummary,
    T: TimeDecay,
    U: Binary,
    P: Binary,
    B: Binary,
    Z: Summary,
    O: Dot,
    C: WeightedMean,
    Q: CovariateFit,
    F: TwostepProximal,
    E: CellEffect<TwostepModel>,
    S: Binary,
>(
    scan: ScoreScan,
    panel: &TwostepPanel,
    cells: &Vec<(usize, usize)>,
    lambdas: Lambdas,
    method: &TwostepMethod<R, T, U, P, B, Z, O, C, Q, F, E, S>,
    bound: u64,
)
    requires
        scanned(scan, panel, cells@, lambdas, method, bound),
    ensures
        scan.stopped is None ==> scan.n_valid == cells@.len(),
        scan.stopped matches Some(r) ==> r.first_failed is Some || bits::lt(bound, r.score),
{
    let trials = choose|trials: Seq<Trial>| #[trigger]
        tried(panel, cells@, lambdas, method, trials) && scan == scan_of(
            cells@,
            trial_fits(trials),
            bound,
            trials.len() as int,
        ) && (scan.stopped is None ==> trials.len() == cells@.len());
    let fits = trial_fits(trials);
    assert(cells.len() == cells@.len());
    assert forall|k: int| 0 <= k < fits.len() implies #[trigger] fits[k] != Fit::Unobserved by {}
    lemma_scan_counts_all(cells@, fits, bound, trials.len() as int);
}

} // verus!

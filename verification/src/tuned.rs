//! Selection of the tuning parameters by cross-validation.
//!
//! Parameters are judged by the leave-one-out criterion of their method,
//! evaluated at one point after the other.
use crate::alternating::{
    CovariateFit, Dot, TwostepModel, TwostepProximal, WeightedMean,
};
use crate::arithmetic::{
    Binary, CellEffect, DoubledDecay, PairSummary, Solver, Summary, Ternary, TimeDecay, Unary,
};
use crate::bits;
use crate::crossval::{
    cells_in, diagnosed, jointly_diagnosed, jointly_scored, loocv_score_joint, scan_cells, scanned,
};
use crate::error::{TropError, TropResult};
use crate::joint::{JointMethod, JointModel, ProximalStep};
use crate::loocv::{
    lists_controls, scan_result, simultaneous, Diagnosis, ScoreResult, ScoreScan,
};
use crate::matrix::Matrix;
use crate::model::regressable;
use crate::panel::{any_treated, same_shape};
use crate::search::{
    after, carries_out, completed, descent, evaluations, exhaustive_selects, grid_of, in_grids,
    scratch, selects, sweep_of, sweep_points_of, sweep_start_of, Evaluation, GridSearch, Stage,
    Step, Sweep,
};
use crate::selection::{
    best_of_all, cycling_search_by, exhaustive_joint_search_by, exhaustive_twostep_search_by,
    joint_exhausted, joint_search_by, joint_searched, result_of, twostep_exhausted,
    twostep_search_by, twostep_searched, univariate, univariate_search_by, JointCells,
    LoocvGridSearchResult, LoocvGridSearchResultWithStage1, TWOSTEP_CYCLES,
};
use crate::tuning::{effective_of, Lambdas};
use crate::twostep::{TwostepMethod, TwostepPanel};
use vstd::prelude::*;

verus! {

/// `r` is the criterion of the twostep method at some parameters.
pub open spec fn scored_at<
    R: PairSummary,
    T: TimeDecay,
    U: Binary,
    P: Binary,
    B: Binary,
    Z: Summary,
    O: Dot,
    C: WeightedMean,
    Q: CovariateFit,
    F: TwostepProximal,
    E: CellEffect<TwostepModel>,
    S: Binary,
>(
    r: ScoreResult,
    panel: &TwostepPanel,
    cells: Seq<(usize, usize)>,
    lambdas: Lambdas,
    method: &TwostepMethod<R, T, U, P, B, Z, O, C, Q, F, E, S>,
) -> bool {
    exists|scan: ScoreScan| #[trigger]
        scanned(
            scan,
            panel,
            cells,
            lambdas,
            method,
            bits::INFINITY,
        ) && r == scan_result(scan)
}

/// How the twostep method scores a list of parameters: each by its criterion.
pub open spec fn twostep_scorer<
    R: PairSummary,
    T: TimeDecay,
    U: Binary,
    P: Binary,
    B: Binary,
    Z: Summary,
    O: Dot,
    C: WeightedMean,
    Q: CovariateFit,
    F: TwostepProximal,
    E: CellEffect<TwostepModel>,
    S: Binary,
>(
    panel: &TwostepPanel,
    cells: Seq<(usize, usize)>,
    method: &TwostepMethod<R, T, U, P, B, Z, O, C, Q, F, E, S>,
) -> spec_fn(Seq<Lambdas>, Seq<ScoreResult>) -> bool {
    |points: Seq<Lambdas>, out: Seq<ScoreResult>|
        {
            &&& out.len() == points.len()
            &&& forall|k: int|
                0 <= k < points.len() ==> scored_at(
                    #[trigger] out[k],
                    panel,
                    cells,
                    points[k],
                    method,
                )
        }
}

/// Criterion of the twostep method at each of some parameters.
pub fn score_points<
    R: PairSummary,
    T: TimeDecay,
    U: Binary,
    P: Binary,
    B: Binary,
    Z: Summary,
    O: Dot,
    C: WeightedMean,
    Q: CovariateFit,
    F: TwostepProximal,
    E: CellEffect<TwostepModel>,
    S: Binary,
>(
    panel: &TwostepPanel,
    cells: &Vec<(usize, usize)>,
    points: &Vec<Lambdas>,
    method: &TwostepMethod<R, T, U, P, B, Z, O, C, Q, F, E, S>,
) -> (r: Vec<ScoreResult>)
    requires
        panel.wf(),
        cells_in(cells@, panel.y),
        method.ready(),
    ensures
        twostep_scorer(panel, cells@, method)(points@, r@),
{
    let mut r: Vec<ScoreResult> = Vec::new();
    let mut k: usize = 0;
    while k < points.len()
        invariant
            panel.wf(),
            cells_in(cells@, panel.y),
            method.ready(),
            k <= points@.len(),
            r@.len() == k,
            forall|j: int|
                0 <= j < k ==> scored_at(
                    #[trigger] r@[j],
                    panel,
                    cells@,
                    points@[j],
                    method,
                ),
        decreases points@.len() - k,
    {
        let scan: ScoreScan = scan_cells(
            panel,
            cells,
            points[k],
            method,
            bits::INFINITY,
        );
        let score: ScoreResult = scan.finish();
        assert(scored_at(
            score,
            panel,
            cells@,
            points@[k as int],
            method,
        ));
        r.push(score);
        k = k + 1;
    }
    r
}

/// How the joint method scores a list of parameters: each by its criterion.
pub open spec fn joint_scorer<
    A: Summary,
    R: PairSummary,
    T: DoubledDecay,
    U: Binary,
    C: Ternary,
    S: Binary,
    Z: Summary,
    Q: Unary,
    P: Binary,
    L: Solver,
    F: ProximalStep,
    E: CellEffect<JointModel>,
    D: Binary,
>(
    y: &Matrix<u64>,
    d: &Matrix<u64>,
    x: Option<&Matrix<u64>>,
    joint: &JointCells,
    method: &JointMethod<A, R, T, U, C, S, Z, Q, P, L, F, E, D>,
) -> spec_fn(Seq<Lambdas>, Seq<ScoreResult>) -> bool {
    |points: Seq<Lambdas>, out: Seq<ScoreResult>|
        {
            &&& out.len() == points.len()
            &&& forall|k: int|
                0 <= k < points.len() ==> jointly_scored(
                    #[trigger] out[k],
                    y,
                    d,
                    x,
                    joint.cells@,
                    points[k],
                    joint.treated_periods,
                    method,
                    bits::INFINITY,
                )
        }
}

/// Criterion of the joint method at each of some parameters.
pub fn score_points_jointly<
    A: Summary,
    R: PairSummary,
    T: DoubledDecay,
    U: Binary,
    C: Ternary,
    S: Binary,
    Z: Summary,
    Q: Unary,
    P: Binary,
    L: Solver,
    F: ProximalStep,
    E: CellEffect<JointModel>,
    D: Binary,
>(
    y: &Matrix<u64>,
    d: &Matrix<u64>,
    x: Option<&Matrix<u64>>,
    joint: &JointCells,
    points: &Vec<Lambdas>,
    method: &JointMethod<A, R, T, U, C, S, Z, Q, P, L, F, E, D>,
) -> (r: Vec<ScoreResult>)
    requires
        same_shape(y, d),
        regressable(y, x),
        cells_in(joint.cells@, y),
        method.ready(),
    ensures
        joint_scorer(y, d, x, joint, method)(points@, r@),
{
    let mut r: Vec<ScoreResult> = Vec::new();
    let mut k: usize = 0;
    while k < points.len()
        invariant
            same_shape(y, d),
            regressable(y, x),
            cells_in(joint.cells@, y),
            method.ready(),
            k <= points@.len(),
            r@.len() == k,
            forall|j: int|
                0 <= j < k ==> jointly_scored(
                    #[trigger] r@[j],
                    y,
                    d,
                    x,
                    joint.cells@,
                    points@[j],
                    joint.treated_periods,
                    method,
                    bits::INFINITY,
                ),
        decreases points@.len() - k,
    {
        let score: ScoreResult = loocv_score_joint(
            y,
            d,
            x,
            &joint.cells,
            points[k],
            joint.treated_periods,
            method,
            bits::INFINITY,
        );
        r.push(score);
        k = k + 1;
    }
    r
}

/// `step` is the sweep that `at` asks for, with its points scored by `scorer`.
pub open spec fn sweeps<W: Binary>(
    at: GridSearch,
    step: Step,
    time_grid: Seq<u64>,
    unit_grid: Seq<u64>,
    nn_grid: Seq<u64>,
    scorer: spec_fn(Seq<Lambdas>, Seq<ScoreResult>) -> bool,
    subtract: W,
) -> bool {
    let sweep = sweep_of(at)->0;
    let grid = grid_of(sweep.axis, time_grid, unit_grid, nn_grid);
    &&& sweep_of(at) is Some
    &&& step.points@ == sweep_points_of(sweep, grid)
    &&& scorer(step.points@, step.results@)
    &&& selects(
        step.best,
        sweep_start_of(sweep, grid),
        evaluations(grid, step.points@, step.results@),
        subtract,
    )
    &&& call_ensures(subtract, (step.best.candidate.score, at.prev_score), step.change)
}

/// `r` is `start` after the sweeps that it asks for, one after the other, with
/// their points scored by `scorer`.
pub open spec fn searched<W: Binary>(
    start: GridSearch,
    r: GridSearch,
    time_grid: Seq<u64>,
    unit_grid: Seq<u64>,
    nn_grid: Seq<u64>,
    scorer: spec_fn(Seq<Lambdas>, Seq<ScoreResult>) -> bool,
    subtract: W,
) -> bool {
    exists|steps: Seq<Step>|
        {
            &&& r == #[trigger] after(start, steps)
            &&& forall|k: int|
                0 <= k < steps.len() ==> sweeps(
                    after(start, steps.take(k)),
                    #[trigger] steps[k],
                    time_grid,
                    unit_grid,
                    nn_grid,
                    scorer,
                    subtract,
                )
        }
}

proof fn lemma_searched<
    K,
    V: Fn(&K, Stage, Sweep, Vec<Lambdas>) -> Vec<ScoreResult>,
    W: Binary,
>(
    start: GridSearch,
    r: GridSearch,
    time_grid: Seq<u64>,
    unit_grid: Seq<u64>,
    nn_grid: Seq<u64>,
    context: &K,
    evaluate: V,
    scorer: spec_fn(Seq<Lambdas>, Seq<ScoreResult>) -> bool,
    subtract: W,
)
    requires
        completed(start, r, time_grid, unit_grid, nn_grid, context, evaluate, subtract),
        forall|stage: Stage, sweep: Sweep, points: Vec<Lambdas>, out: Vec<ScoreResult>| #[trigger]
            call_ensures(evaluate, (context, stage, sweep, points), out) ==> scorer(points@, out@),
    ensures
        searched(start, r, time_grid, unit_grid, nn_grid, scorer, subtract),
{
    let steps = choose|steps: Seq<Step>|
        {
            &&& r == #[trigger] after(start, steps)
            &&& forall|k: int|
                0 <= k < steps.len() ==> carries_out(
                    after(start, steps.take(k)),
                    #[trigger] steps[k],
                    time_grid,
                    unit_grid,
                    nn_grid,
                    context,
                    evaluate,
                    subtract,
                )
        };
    assert forall|k: int| 0 <= k < steps.len() implies sweeps(
        after(start, steps.take(k)),
        #[trigger] steps[k],
        time_grid,
        unit_grid,
        nn_grid,
        scorer,
        subtract,
    ) by {
        assert(carries_out(
            after(start, steps.take(k)),
            steps[k],
            time_grid,
            unit_grid,
            nn_grid,
            context,
            evaluate,
            subtract,
        ));
    }
}

/// `best` is the best of all combinations of three grids, scored by `scorer`.
pub open spec fn best_scored<W: Binary>(
    best: Evaluation,
    time_grid: Seq<u64>,
    unit_grid: Seq<u64>,
    nn_grid: Seq<u64>,
    scorer: spec_fn(Seq<Lambdas>, Seq<ScoreResult>) -> bool,
    subtract: W,
) -> bool {
    exists|given: Seq<Lambdas>, results: Seq<ScoreResult>| #[trigger]
        scorer(given, results) && exhaustive_selects(
            best,
            time_grid,
            unit_grid,
            nn_grid,
            given,
            results,
            subtract,
        )
}

/// Best value of one parameter of the twostep method and the criterion there,
/// the others held fixed.
pub fn univariate_loocv_search<
    R: PairSummary,
    T: TimeDecay,
    U: Binary,
    P: Binary,
    B: Binary,
    Z: Summary,
    O: Dot,
    C: WeightedMean,
    Q: CovariateFit,
    F: TwostepProximal,
    E: CellEffect<TwostepModel>,
    S: Binary,
    W: Binary,
>(
    panel: &TwostepPanel,
    cells: &Vec<(usize, usize)>,
    grid: &Vec<u64>,
    fixed: Lambdas,
    param_type: usize,
    method: &TwostepMethod<R, T, U, P, B, Z, O, C, Q, F, E, S>,
    subtract: &W,
) -> (r: (u64, u64))
    requires
        panel.wf(),
        cells_in(cells@, panel.y),
        method.ready(),
        forall|a: u64, b: u64| #[trigger] call_requires(*subtract, (a, b)),
    ensures
        exists|results: Seq<ScoreResult>, best: Evaluation|
            {
                &&& twostep_scorer(panel, cells@, method)(
                    sweep_points_of(univariate(param_type, fixed), grid@),
                    results,
                )
                &&& #[trigger] selects(
                    best,
                    sweep_start_of(univariate(param_type, fixed), grid@),
                    evaluations(
                        grid@,
                        sweep_points_of(univariate(param_type, fixed), grid@),
                        results,
                    ),
                    *subtract,
                )
                &&& r == (best.value, best.candidate.score)
            },
        grid@.len() > 0 ==> grid@.contains(r.0),
{
    let evaluate = |cells: &Vec<(usize, usize)>, points: Vec<Lambdas>| -> (out: Vec<ScoreResult>)
        requires
            panel.wf() && cells_in(cells@, panel.y) && method.ready(),
        ensures
            twostep_scorer(panel, cells@, method)(points@, out@),
        { score_points(panel, cells, &points, method) };
    univariate_search_by(grid, fixed, param_type, cells, &evaluate, subtract)
}

/// Coordinate descent of the twostep method from given starting values.
pub fn cycling_parameter_search<
    R: PairSummary,
    T: TimeDecay,
    U: Binary,
    P: Binary,
    B: Binary,
    Z: Summary,
    O: Dot,
    C: WeightedMean,
    Q: CovariateFit,
    F: TwostepProximal,
    E: CellEffect<TwostepModel>,
    S: Binary,
    W: Binary,
>(
    panel: &TwostepPanel,
    cells: &Vec<(usize, usize)>,
    time_grid: &Vec<u64>,
    unit_grid: &Vec<u64>,
    nn_grid: &Vec<u64>,
    initial: Lambdas,
    max_cycles: usize,
    method: &TwostepMethod<R, T, U, P, B, Z, O, C, Q, F, E, S>,
    subtract: &W,
) -> (r: Lambdas)
    requires
        panel.wf(),
        cells_in(cells@, panel.y),
        method.ready(),
        forall|a: u64, b: u64| #[trigger] call_requires(*subtract, (a, b)),
    ensures
        exists|search: GridSearch|
            search.lambdas == r && search.stage == Stage::Done && #[trigger] searched(
                descent(initial, max_cycles),
                search,
                time_grid@,
                unit_grid@,
                nn_grid@,
                twostep_scorer(panel, cells@, method),
                *subtract,
            ),
        max_cycles == 0 ==> r == initial,
{
    let evaluate = |
        cells: &Vec<(usize, usize)>,
        stage: Stage,
        sweep: Sweep,
        points: Vec<Lambdas>,
    | -> (out: Vec<ScoreResult>)
        requires
            panel.wf() && cells_in(cells@, panel.y) && method.ready(),
        ensures
            twostep_scorer(panel, cells@, method)(points@, out@),
        { score_points(panel, cells, &points, method) };
    let r: Lambdas = cycling_search_by(
        time_grid,
        unit_grid,
        nn_grid,
        initial,
        max_cycles,
        cells,
        &evaluate,
        subtract,
    );
    proof {
        let search = choose|search: GridSearch|
            search.lambdas == r && search.stage == Stage::Done && #[trigger] completed(
                descent(initial, max_cycles),
                search,
                time_grid@,
                unit_grid@,
                nn_grid@,
                cells,
                evaluate,
                *subtract,
            );
        lemma_searched(
            descent(initial, max_cycles),
            search,
            time_grid@,
            unit_grid@,
            nn_grid@,
            cells,
            evaluate,
            twostep_scorer(panel, cells@, method),
            *subtract,
        );
    }
    r
}

/// `r` is what the two-stage search of the twostep method selects: the
/// parameters that it ends with, judged by the criterion and diagnosed on the
/// control cells.
pub open spec fn twostep_selected<
    R: PairSummary,
    T: TimeDecay,
    U: Binary,
    P: Binary,
    B: Binary,
    Z: Summary,
    O: Dot,
    C: WeightedMean,
    Q: CovariateFit,
    F: TwostepProximal,
    E: CellEffect<TwostepModel>,
    S: Binary,
    W: Binary,
>(
    r: LoocvGridSearchResultWithStage1,
    panel: &TwostepPanel,
    time_grid: Seq<u64>,
    unit_grid: Seq<u64>,
    nn_grid: Seq<u64>,
    method: &TwostepMethod<R, T, U, P, B, Z, O, C, Q, F, E, S>,
    subtract: W,
) -> bool {
    exists|cells: Vec<(usize, usize)>, search: GridSearch, diagnosis: Diagnosis|
        {
            &&& lists_controls(cells@, panel.y, panel.control_mask)
            &&& #[trigger] searched(
                scratch(TWOSTEP_CYCLES),
                search,
                time_grid,
                unit_grid,
                nn_grid,
                twostep_scorer(panel, cells@, method),
                subtract,
            )
            &&& search.stage == Stage::Done
            &&& #[trigger] diagnosed(
                diagnosis,
                panel,
                cells@,
                search.lambdas,
                method,
            )
            &&& r.0 == result_of(search.lambdas, diagnosis, cells.len())
            &&& r.1 == search.initial
        }
}

/// Two-stage search of the twostep method: univariate starting values, then
/// coordinate descent.  A panel without a treated cell is refused.
pub fn loocv_grid_search_with_stage1<
    R: PairSummary,
    T: TimeDecay,
    U: Binary,
    P: Binary,
    B: Binary,
    Z: Summary,
    O: Dot,
    C: WeightedMean,
    Q: CovariateFit,
    F: TwostepProximal,
    E: CellEffect<TwostepModel>,
    S: Binary,
    W: Binary,
>(
    panel: &TwostepPanel,
    time_grid: &Vec<u64>,
    unit_grid: &Vec<u64>,
    nn_grid: &Vec<u64>,
    method: &TwostepMethod<R, T, U, P, B, Z, O, C, Q, F, E, S>,
    subtract: &W,
) -> (r: TropResult<LoocvGridSearchResultWithStage1>)
    requires
        panel.wf(),
        method.ready(),
        forall|a: u64, b: u64| #[trigger] call_requires(*subtract, (a, b)),
    ensures
        r is Ok <==> any_treated(panel.d),
        r is Err ==> r->Err_0 == TropError::NoTreated,
        r is Ok ==> twostep_selected(
            r->Ok_0,
            panel,
            time_grid@,
            unit_grid@,
            nn_grid@,
            method,
            *subtract,
        ),
        r is Ok && time_grid@.len() > 0 && unit_grid@.len() > 0 && nn_grid@.len() > 0 ==> in_grids(
            r->Ok_0.0.lambdas,
            time_grid@,
            unit_grid@,
            nn_grid@,
        ) && in_grids(r->Ok_0.1, time_grid@, unit_grid@, nn_grid@),
{
    let evaluate = |
        cells: &Vec<(usize, usize)>,
        stage: Stage,
        sweep: Sweep,
        points: Vec<Lambdas>,
    | -> (out: Vec<ScoreResult>)
        requires
            panel.wf() && cells_in(cells@, panel.y) && method.ready(),
        ensures
            twostep_scorer(panel, cells@, method)(points@, out@),
        { score_points(panel, cells, &points, method) };
    let r: TropResult<LoocvGridSearchResultWithStage1> = twostep_search_by(
        panel,
        time_grid,
        unit_grid,
        nn_grid,
        method,
        &evaluate,
        subtract,
    );
    proof {
        if let Ok(found) = r {
            assert(twostep_searched(
                found,
                panel,
                time_grid@,
                unit_grid@,
                nn_grid@,
                method,
                evaluate,
                *subtract,
            ));
            let (cells, search, diagnosis) = choose|
                cells: Vec<(usize, usize)>,
                search: GridSearch,
                diagnosis: Diagnosis,
            |
                {
                    &&& lists_controls(cells@, panel.y, panel.control_mask)
                    &&& #[trigger] completed(
                        scratch(TWOSTEP_CYCLES),
                        search,
                        time_grid@,
                        unit_grid@,
                        nn_grid@,
                        &cells,
                        evaluate,
                        *subtract,
                    )
                    &&& search.stage == Stage::Done
                    &&& #[trigger] diagnosed(
                        diagnosis,
                        panel,
                        cells@,
                        search.lambdas,
                        method,
                    )
                    &&& found.0 == result_of(search.lambdas, diagnosis, cells.len())
                    &&& found.1 == search.initial
                };
            lemma_searched(
                scratch(TWOSTEP_CYCLES),
                search,
                time_grid@,
                unit_grid@,
                nn_grid@,
                &cells,
                evaluate,
                twostep_scorer(panel, cells@, method),
                *subtract,
            );
            assert(diagnosed(
                diagnosis,
                panel,
                cells@,
                search.lambdas,
                method,
            ));
        }
    }
    r
}

/// As [`loocv_grid_search_with_stage1`], without the starting values.
pub fn loocv_grid_search<
    R: PairSummary,
    T: TimeDecay,
    U: Binary,
    P: Binary,
    B: Binary,
    Z: Summary,
    O: Dot,
    C: WeightedMean,
    Q: CovariateFit,
    F: TwostepProximal,
    E: CellEffect<TwostepModel>,
    S: Binary,
    W: Binary,
>(
    panel: &TwostepPanel,
    time_grid: &Vec<u64>,
    unit_grid: &Vec<u64>,
    nn_grid: &Vec<u64>,
    method: &TwostepMethod<R, T, U, P, B, Z, O, C, Q, F, E, S>,
    subtract: &W,
) -> (r: TropResult<LoocvGridSearchResult>)
    requires
        panel.wf(),
        method.ready(),
        forall|a: u64, b: u64| #[trigger] call_requires(*subtract, (a, b)),
    ensures
        r is Ok <==> any_treated(panel.d),
        r is Err ==> r->Err_0 == TropError::NoTreated,
        r is Ok ==> exists|initial: Lambdas| #[trigger]
            twostep_selected(
                (r->Ok_0, initial),
                panel,
                time_grid@,
                unit_grid@,
                nn_grid@,
                method,
                *subtract,
            ),
        r is Ok && time_grid@.len() > 0 && unit_grid@.len() > 0 && nn_grid@.len() > 0 ==> in_grids(
            r->Ok_0.lambdas,
            time_grid@,
            unit_grid@,
            nn_grid@,
        ),
{
    match loocv_grid_search_with_stage1(
        panel,
        time_grid,
        unit_grid,
        nn_grid,
        method,
        subtract,
    ) {
        Ok((r, _)) => Ok(r),
        Err(e) => Err(e),
    }
}

/// `r` is what the search of all combinations of the twostep method selects: the
/// best one by the criterion, diagnosed on the control cells at the parameters
/// that stand for it in computation.
pub open spec fn twostep_best<
    R: PairSummary,
    T: TimeDecay,
    U: Binary,
    P: Binary,
    B: Binary,
    Z: Summary,
    O: Dot,
    C: WeightedMean,
    Q: CovariateFit,
    F: TwostepProximal,
    E: CellEffect<TwostepModel>,
    S: Binary,
    W: Binary,
>(
    r: LoocvGridSearchResult,
    panel: &TwostepPanel,
    time_grid: Seq<u64>,
    unit_grid: Seq<u64>,
    nn_grid: Seq<u64>,
    method: &TwostepMethod<R, T, U, P, B, Z, O, C, Q, F, E, S>,
    subtract: W,
) -> bool {
    exists|cells: Vec<(usize, usize)>, best: Evaluation, diagnosis: Diagnosis|
        {
            &&& lists_controls(cells@, panel.y, panel.control_mask)
            &&& #[trigger] best_scored(
                best,
                time_grid,
                unit_grid,
                nn_grid,
                twostep_scorer(panel, cells@, method),
                subtract,
            )
            &&& #[trigger] diagnosed(
                diagnosis,
                panel,
                cells@,
                effective_of(best.candidate.lambdas),
                method,
            )
            &&& r == result_of(best.candidate.lambdas, diagnosis, cells.len())
        }
}

/// Search of all combinations of the twostep method.  A panel without a treated
/// cell is refused.
pub fn loocv_grid_search_exhaustive<
    R: PairSummary,
    T: TimeDecay,
    U: Binary,
    P: Binary,
    B: Binary,
    Z: Summary,
    O: Dot,
    C: WeightedMean,
    Q: CovariateFit,
    F: TwostepProximal,
    E: CellEffect<TwostepModel>,
    S: Binary,
    W: Binary,
>(
    panel: &TwostepPanel,
    time_grid: &Vec<u64>,
    unit_grid: &Vec<u64>,
    nn_grid: &Vec<u64>,
    method: &TwostepMethod<R, T, U, P, B, Z, O, C, Q, F, E, S>,
    subtract: &W,
) -> (r: TropResult<LoocvGridSearchResult>)
    requires
        panel.wf(),
        method.ready(),
        forall|a: u64, b: u64| #[trigger] call_requires(*subtract, (a, b)),
    ensures
        r is Ok <==> any_treated(panel.d),
        r is Err ==> r->Err_0 == TropError::NoTreated,
        r is Ok ==> twostep_best(
            r->Ok_0,
            panel,
            time_grid@,
            unit_grid@,
            nn_grid@,
            method,
            *subtract,
        ),
        r is Ok && time_grid@.len() > 0 && unit_grid@.len() > 0 && nn_grid@.len() > 0 ==> in_grids(
            r->Ok_0.lambdas,
            time_grid@,
            unit_grid@,
            nn_grid@,
        ),
{
    let evaluate = |cells: &Vec<(usize, usize)>, points: Vec<Lambdas>| -> (out: Vec<ScoreResult>)
        requires
            panel.wf() && cells_in(cells@, panel.y) && method.ready(),
        ensures
            twostep_scorer(panel, cells@, method)(points@, out@),
        { score_points(panel, cells, &points, method) };
    let r: TropResult<LoocvGridSearchResult> = exhaustive_twostep_search_by(
        panel,
        time_grid,
        unit_grid,
        nn_grid,
        method,
        &evaluate,
        subtract,
    );
    proof {
        if let Ok(found) = r {
            assert(twostep_exhausted(
                found,
                panel,
                time_grid@,
                unit_grid@,
                nn_grid@,
                method,
                evaluate,
                *subtract,
            ));
            let (cells, best, diagnosis) = choose|
                cells: Vec<(usize, usize)>,
                best: Evaluation,
                diagnosis: Diagnosis,
            |
                {
                    let l = best.candidate.lambdas;
                    &&& lists_controls(cells@, panel.y, panel.control_mask)
                    &&& #[trigger] best_of_all(
                        best,
                        time_grid@,
                        unit_grid@,
                        nn_grid@,
                        &cells,
                        evaluate,
                        *subtract,
                    )
                    &&& #[trigger] diagnosed(
                        diagnosis,
                        panel,
                        cells@,
                        effective_of(best.candidate.lambdas),
                        method,
                    )
                    &&& found == result_of(l, diagnosis, cells.len())
                };
            let (given, results) = choose|given: Vec<Lambdas>, results: Vec<ScoreResult>| #[trigger]
                call_ensures(evaluate, (&cells, given), results) && exhaustive_selects(
                    best,
                    time_grid@,
                    unit_grid@,
                    nn_grid@,
                    given@,
                    results@,
                    *subtract,
                );
            let scorer = twostep_scorer(panel, cells@, method);
            assert(scorer(given@, results@));
            assert(best_scored(best, time_grid@, unit_grid@, nn_grid@, scorer, *subtract));
            assert(diagnosed(
                diagnosis,
                panel,
                cells@,
                effective_of(best.candidate.lambdas),
                method,
            ));
        }
    }
    r
}

/// `r` is what the two-stage search of the joint method selects: the parameters
/// that it ends with, judged by the criterion and diagnosed on the control
/// cells.
pub open spec fn joint_selected<
    A: Summary,
    R: PairSummary,
    T: DoubledDecay,
    U: Binary,
    C: Ternary,
    S: Binary,
    Z: Summary,
    Q: Unary,
    P: Binary,
    L: Solver,
    F: ProximalStep,
    E: CellEffect<JointModel>,
    D: Binary,
    W: Binary,
>(
    r: LoocvGridSearchResultWithStage1,
    y: &Matrix<u64>,
    d: &Matrix<u64>,
    x: Option<&Matrix<u64>>,
    control_mask: &Matrix<u8>,
    time_grid: Seq<u64>,
    unit_grid: Seq<u64>,
    nn_grid: Seq<u64>,
    max_cycles: usize,
    method: &JointMethod<A, R, T, U, C, S, Z, Q, P, L, F, E, D>,
    subtract: W,
) -> bool {
    exists|joint: JointCells, search: GridSearch, diagnosis: Diagnosis|
        {
            &&& joint.describe(y, d, control_mask)
            &&& #[trigger] searched(
                scratch(max_cycles),
                search,
                time_grid,
                unit_grid,
                nn_grid,
                joint_scorer(y, d, x, &joint, method),
                subtract,
            )
            &&& search.stage == Stage::Done
            &&& #[trigger] jointly_diagnosed(
                diagnosis,
                y,
                d,
                x,
                joint.cells@,
                search.lambdas,
                joint.treated_periods,
                method,
            )
            &&& r.0 == result_of(search.lambdas, diagnosis, joint.cells.len())
            &&& r.1 == search.initial
        }
}

/// Two-stage search of the joint method: univariate starting values, then
/// coordinate descent.  Adoption must be simultaneous.
pub fn loocv_cycling_search_joint_with_stage1<
    A: Summary,
    R: PairSummary,
    T: DoubledDecay,
    U: Binary,
    C: Ternary,
    S: Binary,
    Z: Summary,
    Q: Unary,
    P: Binary,
    L: Solver,
    F: ProximalStep,
    E: CellEffect<JointModel>,
    D: Binary,
    W: Binary,
>(
    y: &Matrix<u64>,
    d: &Matrix<u64>,
    x: Option<&Matrix<u64>>,
    control_mask: &Matrix<u8>,
    time_grid: &Vec<u64>,
    unit_grid: &Vec<u64>,
    nn_grid: &Vec<u64>,
    max_cycles: usize,
    method: &JointMethod<A, R, T, U, C, S, Z, Q, P, L, F, E, D>,
    subtract: &W,
) -> (r: LoocvGridSearchResultWithStage1)
    requires
        same_shape(y, d),
        simultaneous(d),
        same_shape(y, control_mask),
        regressable(y, x),
        method.ready(),
        forall|a: u64, b: u64| #[trigger] call_requires(*subtract, (a, b)),
    ensures
        joint_selected(
            r,
            y,
            d,
            x,
            control_mask,
            time_grid@,
            unit_grid@,
            nn_grid@,
            max_cycles,
            method,
            *subtract,
        ),
        time_grid@.len() > 0 && unit_grid@.len() > 0 && nn_grid@.len() > 0 ==> in_grids(
            r.0.lambdas,
            time_grid@,
            unit_grid@,
            nn_grid@,
        ) && in_grids(r.1, time_grid@, unit_grid@, nn_grid@),
{
    let evaluate = |joint: &JointCells, stage: Stage, sweep: Sweep, points: Vec<Lambdas>| -> (out:
        Vec<ScoreResult>)
        requires
            same_shape(y, d) && regressable(y, x) && cells_in(joint.cells@, y) && method.ready(),
        ensures
            joint_scorer(y, d, x, joint, method)(points@, out@),
        { score_points_jointly(y, d, x, joint, &points, method) };
    let r: LoocvGridSearchResultWithStage1 = joint_search_by(
        y,
        d,
        x,
        control_mask,
        time_grid,
        unit_grid,
        nn_grid,
        max_cycles,
        method,
        &evaluate,
        subtract,
    );
    proof {
        assert(joint_searched(
            r,
            y,
            d,
            x,
            control_mask,
            time_grid@,
            unit_grid@,
            nn_grid@,
            max_cycles,
            method,
            evaluate,
            *subtract,
        ));
        let (joint, search, diagnosis) = choose|
            joint: JointCells,
            search: GridSearch,
            diagnosis: Diagnosis,
        |
            {
                &&& joint.describe(y, d, control_mask)
                &&& #[trigger] completed(
                    scratch(max_cycles),
                    search,
                    time_grid@,
                    unit_grid@,
                    nn_grid@,
                    &joint,
                    evaluate,
                    *subtract,
                )
                &&& search.stage == Stage::Done
                &&& #[trigger] jointly_diagnosed(
                    diagnosis,
                    y,
                    d,
                    x,
                    joint.cells@,
                    search.lambdas,
                    joint.treated_periods,
                    method,
                )
                &&& r.0 == result_of(search.lambdas, diagnosis, joint.cells.len())
                &&& r.1 == search.initial
            };
        lemma_searched(
            scratch(max_cycles),
            search,
            time_grid@,
            unit_grid@,
            nn_grid@,
            &joint,
            evaluate,
            joint_scorer(y, d, x, &joint, method),
            *subtract,
        );
        assert(jointly_diagnosed(
            diagnosis,
            y,
            d,
            x,
            joint.cells@,
            search.lambdas,
            joint.treated_periods,
            method,
        ));
    }
    r
}

/// As [`loocv_cycling_search_joint_with_stage1`], without the starting values.
pub fn loocv_cycling_search_joint<
    A: Summary,
    R: PairSummary,
    T: DoubledDecay,
    U: Binary,
    C: Ternary,
    S: Binary,
    Z: Summary,
    Q: Unary,
    P: Binary,
    L: Solver,
    F: ProximalStep,
    E: CellEffect<JointModel>,
    D: Binary,
    W: Binary,
>(
    y: &Matrix<u64>,
    d: &Matrix<u64>,
    x: Option<&Matrix<u64>>,
    control_mask: &Matrix<u8>,
    time_grid: &Vec<u64>,
    unit_grid: &Vec<u64>,
    nn_grid: &Vec<u64>,
    max_cycles: usize,
    method: &JointMethod<A, R, T, U, C, S, Z, Q, P, L, F, E, D>,
    subtract: &W,
) -> (r: LoocvGridSearchResult)
    requires
        same_shape(y, d),
        simultaneous(d),
        same_shape(y, control_mask),
        regressable(y, x),
        method.ready(),
        forall|a: u64, b: u64| #[trigger] call_requires(*subtract, (a, b)),
    ensures
        exists|initial: Lambdas| #[trigger]
            joint_selected(
                (r, initial),
                y,
                d,
                x,
                control_mask,
                time_grid@,
                unit_grid@,
                nn_grid@,
                max_cycles,
                method,
                *subtract,
            ),
        time_grid@.len() > 0 && unit_grid@.len() > 0 && nn_grid@.len() > 0 ==> in_grids(
            r.lambdas,
            time_grid@,
            unit_grid@,
            nn_grid@,
        ),
{
    let (r, initial): LoocvGridSearchResultWithStage1 = loocv_cycling_search_joint_with_stage1(
        y,
        d,
        x,
        control_mask,
        time_grid,
        unit_grid,
        nn_grid,
        max_cycles,
        method,
        subtract,
    );
    r
}

/// `r` is what the search of all combinations of the joint method selects: the
/// best one by the criterion, diagnosed on the control cells at the parameters
/// that stand for it in computation.
pub open spec fn joint_best<
    A: Summary,
    R: PairSummary,
    T: DoubledDecay,
    U: Binary,
    C: Ternary,
    S: Binary,
    Z: Summary,
    Q: Unary,
    P: Binary,
    L: Solver,
    F: ProximalStep,
    E: CellEffect<JointModel>,
    D: Binary,
    W: Binary,
>(
    r: LoocvGridSearchResult,
    y: &Matrix<u64>,
    d: &Matrix<u64>,
    x: Option<&Matrix<u64>>,
    control_mask: &Matrix<u8>,
    time_grid: Seq<u64>,
    unit_grid: Seq<u64>,
    nn_grid: Seq<u64>,
    method: &JointMethod<A, R, T, U, C, S, Z, Q, P, L, F, E, D>,
    subtract: W,
) -> bool {
    exists|joint: JointCells, best: Evaluation, diagnosis: Diagnosis|
        {
            &&& joint.describe(y, d, control_mask)
            &&& #[trigger] best_scored(
                best,
                time_grid,
                unit_grid,
                nn_grid,
                joint_scorer(y, d, x, &joint, method),
                subtract,
            )
            &&& #[trigger] jointly_diagnosed(
                diagnosis,
                y,
                d,
                x,
                joint.cells@,
                effective_of(best.candidate.lambdas),
                joint.treated_periods,
                method,
            )
            &&& r == result_of(best.candidate.lambdas, diagnosis, joint.cells.len())
        }
}

/// Search of all combinations of the joint method.  Adoption must be
/// simultaneous.
pub fn loocv_grid_search_joint<
    A: Summary,
    R: PairSummary,
    T: DoubledDecay,
    U: Binary,
    C: Ternary,
    S: Binary,
    Z: Summary,
    Q: Unary,
    P: Binary,
    L: Solver,
    F: ProximalStep,
    E: CellEffect<JointModel>,
    D: Binary,
    W: Binary,
>(
    y: &Matrix<u64>,
    d: &Matrix<u64>,
    x: Option<&Matrix<u64>>,
    control_mask: &Matrix<u8>,
    time_grid: &Vec<u64>,
    unit_grid: &Vec<u64>,
    nn_grid: &Vec<u64>,
    method: &JointMethod<A, R, T, U, C, S, Z, Q, P, L, F, E, D>,
    subtract: &W,
) -> (r: LoocvGridSearchResult)
    requires
        same_shape(y, d),
        simultaneous(d),
        same_shape(y, control_mask),
        regressable(y, x),
        method.ready(),
        forall|a: u64, b: u64| #[trigger] call_requires(*subtract, (a, b)),
    ensures
        joint_best(
            r,
            y,
            d,
            x,
            control_mask,
            time_grid@,
            unit_grid@,
            nn_grid@,
            method,
            *subtract,
        ),
        time_grid@.len() > 0 && unit_grid@.len() > 0 && nn_grid@.len() > 0 ==> in_grids(
            r.lambdas,
            time_grid@,
            unit_grid@,
            nn_grid@,
        ),
{
    let evaluate = |joint: &JointCells, points: Vec<Lambdas>| -> (out: Vec<ScoreResult>)
        requires
            same_shape(y, d) && regressable(y, x) && cells_in(joint.cells@, y) && method.ready(),
        ensures
            joint_scorer(y, d, x, joint, method)(points@, out@),
        { score_points_jointly(y, d, x, joint, &points, method) };
    let r: LoocvGridSearchResult = exhaustive_joint_search_by(
        y,
        d,
        x,
        control_mask,
        time_grid,
        unit_grid,
        nn_grid,
        method,
        &evaluate,
        subtract,
    );
    proof {
        assert(joint_exhausted(
            r,
            y,
            d,
            x,
            control_mask,
            time_grid@,
            unit_grid@,
            nn_grid@,
            method,
            evaluate,
            *subtract,
        ));
        let (joint, best, diagnosis) = choose|
            joint: JointCells,
            best: Evaluation,
            diagnosis: Diagnosis,
        |
            {
                let l = best.candidate.lambdas;
                &&& joint.describe(y, d, control_mask)
                &&& #[trigger] best_of_all(
                    best,
                    time_grid@,
                    unit_grid@,
                    nn_grid@,
                    &joint,
                    evaluate,
                    *subtract,
                )
                &&& #[trigger] jointly_diagnosed(
                    diagnosis,
                    y,
                    d,
                    x,
                    joint.cells@,
                    effective_of(best.candidate.lambdas),
                    joint.treated_periods,
                    method,
                )
                &&& r == result_of(l, diagnosis, joint.cells.len())
            };
        let (given, results) = choose|given: Vec<Lambdas>, results: Vec<ScoreResult>| #[trigger]
            call_ensures(evaluate, (&joint, given), results) && exhaustive_selects(
                best,
                time_grid@,
                unit_grid@,
                nn_grid@,
                given@,
                results@,
                *subtract,
            );
        let scorer = joint_scorer(y, d, x, &joint, method);
        assert(scorer(given@, results@));
        assert(best_scored(best, time_grid@, unit_grid@, nn_grid@, scorer, *subtract));
        assert(jointly_diagnosed(
            diagnosis,
            y,
            d,
            x,
            joint.cells@,
            effective_of(best.candidate.lambdas),
            joint.treated_periods,
            method,
        ));
    }
    r
}

/// A search of the twostep method validates on every control cell of the panel, in
/// two stages with up to ten cycles.  It reports the diagnosis of what it ends with,
/// in which each of these cells is counted or failed.
pub proof fn law_twostep_search_validates_on_every_control_cell<
    R: PairSummary,
    T: TimeDecay,
    U: Binary,
    P: Binary,
    B: Binary,
    Z: Summary,
    O: Dot,
    C: WeightedMean,
    Q: CovariateFit,
    F: TwostepProximal,
    E: CellEffect<TwostepModel>,
    S: Binary,
    W: Binary,
>(
    r: LoocvGridSearchResultWithStage1,
    panel: &TwostepPanel,
    time_grid: Seq<u64>,
    unit_grid: Seq<u64>,
    nn_grid: Seq<u64>,
    method: &TwostepMethod<R, T, U, P, B, Z, O, C, Q, F, E, S>,
    subtract: W,
    cells: Vec<(usize, usize)>,
)
    requires
        twostep_selected(r, panel, time_grid, unit_grid, nn_grid, method, subtract),
        call_ensures(crate::loocv::get_control_observations, (panel.y, panel.control_mask), cells),
    ensures
        r.0.n_attempted == cells@.len(),
        r.0.n_valid <= cells@.len(),
        r.0.first_failed is None <==> r.0.n_valid == cells@.len(),
        exists|search: GridSearch, diagnosis: Diagnosis|
            {
                &&& #[trigger] searched(
                    scratch(10),
                    search,
                    time_grid,
                    unit_grid,
                    nn_grid,
                    twostep_scorer(panel, cells@, method),
                    subtract,
                )
                &&& search.stage == Stage::Done
                &&& #[trigger] diagnosed(diagnosis, panel, cells@, search.lambdas, method)
                &&& r.0.lambdas == search.lambdas
                &&& r.0.score == diagnosis.score
                &&& r.0.n_valid == diagnosis.n_valid
                &&& r.1 == search.initial
            },
{
    let (own, search, diagnosis) = choose|
        own: Vec<(usize, usize)>,
        search: GridSearch,
        diagnosis: Diagnosis,
    |
        {
            &&& lists_controls(own@, panel.y, panel.control_mask)
            &&& #[trigger] searched(
                scratch(TWOSTEP_CYCLES),
                search,
                time_grid,
                unit_grid,
                nn_grid,
                twostep_scorer(panel, own@, method),
                subtract,
            )
            &&& search.stage == Stage::Done
            &&& #[trigger] diagnosed(diagnosis, panel, own@, search.lambdas, method)
            &&& r.0 == result_of(search.lambdas, diagnosis, own.len())
            &&& r.1 == search.initial
        };
    crate::matrix::law_listing_unique(
        own@,
        cells@,
        panel.y.rows as int,
        panel.y.cols as int,
        |t: int, i: int| crate::loocv::control_cell(panel.y, panel.control_mask, t, i),
    );
    assert(own.len() == own@.len());
    lemma_diagnosis_counts(diagnosis, panel, &own, search.lambdas, method);
    assert(searched(
        scratch(10),
        search,
        time_grid,
        unit_grid,
        nn_grid,
        twostep_scorer(panel, cells@, method),
        subtract,
    ));
    assert(diagnosed(diagnosis, panel, cells@, search.lambdas, method));
}

proof fn lemma_diagnosis_counts<
    R: PairSummary,
    T: TimeDecay,
    U: Binary,
    P: Binary,
    B: Binary,
    Z: Summary,
    O: Dot,
    C: WeightedMean,
    Q: CovariateFit,
    F: TwostepProximal,
    E: CellEffect<TwostepModel>,
    S: Binary,
>(
    diagnosis: Diagnosis,
    panel: &TwostepPanel,
    cells: &Vec<(usize, usize)>,
    lambdas: Lambdas,
    method: &TwostepMethod<R, T, U, P, B, Z, O, C, Q, F, E, S>,
)
    requires
        diagnosed(diagnosis, panel, cells@, lambdas, method),
    ensures
        diagnosis.n_valid + diagnosis.failed@.len() == cells@.len(),
{
    let trials = choose|trials: Seq<crate::crossval::Trial>| #[trigger]
        crate::crossval::tried(panel, cells@, lambdas, method, trials) && trials.len()
            == cells@.len() && diagnosis.diagnoses(
            cells@,
            crate::crossval::trial_fits(trials),
        );
    assert(cells.len() == cells@.len());
    let fits = crate::crossval::trial_fits(trials);
    crate::loocv::law_diagnosis_accounts_for_cells(diagnosis, cells@, fits);
    assert forall|k: int| 0 <= k < fits.len() implies #[trigger] fits[k]
        != crate::loocv::Fit::Unobserved by {}
}

/// A search of all combinations of the twostep method validates on every control
/// cell of the panel, and reports the diagnosis of the best combination, at the
/// parameters used in computation.
pub proof fn law_exhaustive_search_validates_on_every_control_cell<
    R: PairSummary,
    T: TimeDecay,
    U: Binary,
    P: Binary,
    B: Binary,
    Z: Summary,
    O: Dot,
    C: WeightedMean,
    Q: CovariateFit,
    F: TwostepProximal,
    E: CellEffect<TwostepModel>,
    S: Binary,
    W: Binary,
>(
    r: LoocvGridSearchResult,
    panel: &TwostepPanel,
    time_grid: Seq<u64>,
    unit_grid: Seq<u64>,
    nn_grid: Seq<u64>,
    method: &TwostepMethod<R, T, U, P, B, Z, O, C, Q, F, E, S>,
    subtract: W,
    cells: Vec<(usize, usize)>,
)
    requires
        twostep_best(r, panel, time_grid, unit_grid, nn_grid, method, subtract),
        call_ensures(crate::loocv::get_control_observations, (panel.y, panel.control_mask), cells),
    ensures
        r.n_attempted == cells@.len(),
        r.first_failed is None <==> r.n_valid == cells@.len(),
        exists|best: Evaluation, diagnosis: Diagnosis|
            {
                &&& #[trigger] best_scored(
                    best,
                    time_grid,
                    unit_grid,
                    nn_grid,
                    twostep_scorer(panel, cells@, method),
                    subtract,
                )
                &&& #[trigger] diagnosed(
                    diagnosis,
                    panel,
                    cells@,
                    effective_of(best.candidate.lambdas),
                    method,
                )
                &&& r.lambdas == best.candidate.lambdas
                &&& r.score == diagnosis.score
            },
{
    let (own, best, diagnosis) = choose|
        own: Vec<(usize, usize)>,
        best: Evaluation,
        diagnosis: Diagnosis,
    |
        {
            &&& lists_controls(own@, panel.y, panel.control_mask)
            &&& #[trigger] best_scored(
                best,
                time_grid,
                unit_grid,
                nn_grid,
                twostep_scorer(panel, own@, method),
                subtract,
            )
            &&& #[trigger] diagnosed(
                diagnosis,
                panel,
                own@,
                effective_of(best.candidate.lambdas),
                method,
            )
            &&& r == result_of(best.candidate.lambdas, diagnosis, own.len())
        };
    crate::matrix::law_listing_unique(
        own@,
        cells@,
        panel.y.rows as int,
        panel.y.cols as int,
        |t: int, i: int| crate::loocv::control_cell(panel.y, panel.control_mask, t, i),
    );
    assert(own.len() == own@.len());
    lemma_diagnosis_counts(
        diagnosis,
        panel,
        &own,
        effective_of(best.candidate.lambdas),
        method,
    );
    assert(best_scored(
        best,
        time_grid,
        unit_grid,
        nn_grid,
        twostep_scorer(panel, cells@, method),
        subtract,
    ));
}

/// Each of a list of parameters is scored by its criterion over all cells, without
/// a bound: one that reports no failure counted every cell.
pub proof fn law_every_point_is_scored<
    R: PairSummary,
    T: TimeDecay,
    U: Binary,
    P: Binary,
    B: Binary,
    Z: Summary,
    O: Dot,
    C: WeightedMean,
    Q: CovariateFit,
    F: TwostepProximal,
    E: CellEffect<TwostepModel>,
    S: Binary,
>(
    panel: &TwostepPanel,
    cells: &Vec<(usize, usize)>,
    points: &Vec<Lambdas>,
    method: &TwostepMethod<R, T, U, P, B, Z, O, C, Q, F, E, S>,
    r: Vec<ScoreResult>,
    k: int,
)
    requires
        call_ensures(
            score_points::<R, T, U, P, B, Z, O, C, Q, F, E, S>,
            (panel, cells, points, method),
            r,
        ),
        0 <= k < points@.len(),
    ensures
        r@.len() == points@.len(),
        r@[k].first_failed is None ==> r@[k].n_valid == cells@.len(),
        exists|scan: ScoreScan| #[trigger]
            scanned(scan, panel, cells@, points@[k], method, bits::INFINITY) && r@[k]
                == scan_result(scan),
{
    assert(scored_at(r@[k], panel, cells@, points@[k], method));
    let scan = choose|scan: ScoreScan| #[trigger]
        scanned(scan, panel, cells@, points@[k], method, bits::INFINITY) && r@[k]
            == scan_result(scan);
    crate::crossval::lemma_scanned_counts(
        scan,
        panel,
        cells,
        points@[k],
        method,
        bits::INFINITY,
    );
}

/// A sweep of a search scores every point of its grid and selects among them; the
/// search takes in what it selected.
pub proof fn law_sweeps_of_a_search<W: Binary>(
    at: GridSearch,
    step: Step,
    time_grid: Seq<u64>,
    unit_grid: Seq<u64>,
    nn_grid: Seq<u64>,
    scorer: spec_fn(Seq<Lambdas>, Seq<ScoreResult>) -> bool,
    subtract: W,
)
    requires
        sweeps(at, step, time_grid, unit_grid, nn_grid, scorer, subtract),
    ensures
        sweep_of(at) matches Some(sweep) && {
            let grid = match sweep.axis {
                crate::search::Axis::Time => time_grid,
                crate::search::Axis::Unit => unit_grid,
                crate::search::Axis::Nn => nn_grid,
            };
            &&& step.points@.len() == grid.len()
            &&& step.points@ == sweep_points_of(sweep, grid)
            &&& scorer(step.points@, step.results@)
            &&& selects(
                step.best,
                sweep_start_of(sweep, grid),
                evaluations(grid, step.points@, step.results@),
                subtract,
            )
        },
        call_ensures(subtract, (step.best.candidate.score, at.prev_score), step.change),
{
}

/// A search of the joint method validates on every control cell of the panel, in two
/// stages with as many cycles as it is given, and reports the diagnosis of what it
/// ends with.
pub proof fn law_joint_search_validates_on_every_control_cell<
    A: Summary,
    R: PairSummary,
    T: DoubledDecay,
    U: Binary,
    C: Ternary,
    S: Binary,
    Z: Summary,
    Q: Unary,
    P: Binary,
    L: Solver,
    F: ProximalStep,
    E: CellEffect<JointModel>,
    D: Binary,
    W: Binary,
>(
    r: LoocvGridSearchResultWithStage1,
    y: &Matrix<u64>,
    d: &Matrix<u64>,
    x: Option<&Matrix<u64>>,
    control_mask: &Matrix<u8>,
    time_grid: Seq<u64>,
    unit_grid: Seq<u64>,
    nn_grid: Seq<u64>,
    max_cycles: usize,
    method: &JointMethod<A, R, T, U, C, S, Z, Q, P, L, F, E, D>,
    subtract: W,
    cells: Vec<(usize, usize)>,
)
    requires
        joint_selected(
            r,
            y,
            d,
            x,
            control_mask,
            time_grid,
            unit_grid,
            nn_grid,
            max_cycles,
            method,
            subtract,
        ),
        call_ensures(crate::loocv::get_control_observations, (y, control_mask), cells),
    ensures
        r.0.n_attempted == cells@.len(),
        r.0.first_failed is None <==> r.0.n_valid == cells@.len(),
        exists|joint: JointCells, search: GridSearch, diagnosis: Diagnosis|
            {
                &&& joint.cells@ == cells@
                &&& #[trigger] searched(
                    scratch(max_cycles),
                    search,
                    time_grid,
                    unit_grid,
                    nn_grid,
                    joint_scorer(y, d, x, &joint, method),
                    subtract,
                )
                &&& search.stage == Stage::Done
                &&& #[trigger] jointly_diagnosed(
                    diagnosis,
                    y,
                    d,
                    x,
                    cells@,
                    search.lambdas,
                    joint.treated_periods,
                    method,
                )
                &&& r.0.lambdas == search.lambdas
                &&& r.0.score == diagnosis.score
                &&& r.1 == search.initial
            },
{
    let (joint, search, diagnosis) = choose|
        joint: JointCells,
        search: GridSearch,
        diagnosis: Diagnosis,
    |
        {
            &&& joint.describe(y, d, control_mask)
            &&& #[trigger] searched(
                scratch(max_cycles),
                search,
                time_grid,
                unit_grid,
                nn_grid,
                joint_scorer(y, d, x, &joint, method),
                subtract,
            )
            &&& search.stage == Stage::Done
            &&& #[trigger] jointly_diagnosed(
                diagnosis,
                y,
                d,
                x,
                joint.cells@,
                search.lambdas,
                joint.treated_periods,
                method,
            )
            &&& r.0 == result_of(search.lambdas, diagnosis, joint.cells.len())
            &&& r.1 == search.initial
        };
    crate::selection::law_joint_cells(&joint, y, d, control_mask, cells);
    assert(joint.cells.len() == joint.cells@.len());
    lemma_controls_observed(&cells, y, control_mask);
    crate::crossval::law_joint_diagnosis_counts_every_cell(
        y,
        d,
        x,
        &cells,
        search.lambdas,
        joint.treated_periods,
        method,
        diagnosis,
    );
    assert(jointly_diagnosed(
        diagnosis,
        y,
        d,
        x,
        cells@,
        search.lambdas,
        joint.treated_periods,
        method,
    ));
}

proof fn lemma_controls_observed(
    cells: &Vec<(usize, usize)>,
    y: &Matrix<u64>,
    control_mask: &Matrix<u8>,
)
    requires
        lists_controls(cells@, y, control_mask),
    ensures
        forall|k: int|
            0 <= k < cells@.len() ==> bits::finite(
                y.at((#[trigger] cells@[k]).0 as int, cells@[k].1 as int),
            ),
{
    let p = |t: int, i: int| crate::loocv::control_cell(y, control_mask, t, i);
    assert forall|k: int| 0 <= k < cells@.len() implies bits::finite(
        y.at((#[trigger] cells@[k]).0 as int, cells@[k].1 as int),
    ) by {
        assert(p(cells@[k].0 as int, cells@[k].1 as int));
    }
}

/// A search of all combinations of the joint method validates on every control cell
/// of the panel, and reports the diagnosis of the best combination.
pub proof fn law_exhaustive_joint_search_validates_on_every_control_cell<
    A: Summary,
    R: PairSummary,
    T: DoubledDecay,
    U: Binary,
    C: Ternary,
    S: Binary,
    Z: Summary,
    Q: Unary,
    P: Binary,
    L: Solver,
    F: ProximalStep,
    E: CellEffect<JointModel>,
    D: Binary,
    W: Binary,
>(
    r: LoocvGridSearchResult,
    y: &Matrix<u64>,
    d: &Matrix<u64>,
    x: Option<&Matrix<u64>>,
    control_mask: &Matrix<u8>,
    time_grid: Seq<u64>,
    unit_grid: Seq<u64>,
    nn_grid: Seq<u64>,
    method: &JointMethod<A, R, T, U, C, S, Z, Q, P, L, F, E, D>,
    subtract: W,
    cells: Vec<(usize, usize)>,
)
    requires
        joint_best(
            r,
            y,
            d,
            x,
            control_mask,
            time_grid,
            unit_grid,
            nn_grid,
            method,
            subtract,
        ),
        call_ensures(crate::loocv::get_control_observations, (y, control_mask), cells),
    ensures
        r.n_attempted == cells@.len(),
        r.first_failed is None <==> r.n_valid == cells@.len(),
        exists|joint: JointCells, best: Evaluation, diagnosis: Diagnosis|
            {
                &&& joint.cells@ == cells@
                &&& #[trigger] best_scored(
                    best,
                    time_grid,
                    unit_grid,
                    nn_grid,
                    joint_scorer(y, d, x, &joint, method),
                    subtract,
                )
                &&& #[trigger] jointly_diagnosed(
                    diagnosis,
                    y,
                    d,
                    x,
                    cells@,
                    effective_of(best.candidate.lambdas),
                    joint.treated_periods,
                    method,
                )
                &&& r.lambdas == best.candidate.lambdas
                &&& r.score == diagnosis.score
            },
{
    let (joint, best, diagnosis) = choose|
        joint: JointCells,
        best: Evaluation,
        diagnosis: Diagnosis,
    |
        {
            &&& joint.describe(y, d, control_mask)
            &&& #[trigger] best_scored(
                best,
                time_grid,
                unit_grid,
                nn_grid,
                joint_scorer(y, d, x, &joint, method),
                subtract,
            )
            &&& #[trigger] jointly_diagnosed(
                diagnosis,
                y,
                d,
                x,
                joint.cells@,
                effective_of(best.candidate.lambdas),
                joint.treated_periods,
                method,
            )
            &&& r == result_of(best.candidate.lambdas, diagnosis, joint.cells.len())
        };
    crate::selection::law_joint_cells(&joint, y, d, control_mask, cells);
    assert(joint.cells.len() == joint.cells@.len());
    lemma_controls_observed(&cells, y, control_mask);
    crate::crossval::law_joint_diagnosis_counts_every_cell(
        y,
        d,
        x,
        &cells,
        effective_of(best.candidate.lambdas),
        joint.treated_periods,
        method,
        diagnosis,
    );
    assert(jointly_diagnosed(
        diagnosis,
        y,
        d,
        x,
        cells@,
        effective_of(best.candidate.lambdas),
        joint.treated_periods,
        method,
    ));
}

/// Each of a list of parameters of the joint method is scored by its criterion over
/// all cells, without a bound.
pub proof fn law_every_point_is_scored_jointly<
    A: Summary,
    R: PairSummary,
    T: DoubledDecay,
    U: Binary,
    C: Ternary,
    S: Binary,
    Z: Summary,
    Q: Unary,
    P: Binary,
    L: Solver,
    F: ProximalStep,
    E: CellEffect<JointModel>,
    D: Binary,
>(
    y: &Matrix<u64>,
    d: &Matrix<u64>,
    x: Option<&Matrix<u64>>,
    joint: &JointCells,
    points: &Vec<Lambdas>,
    method: &JointMethod<A, R, T, U, C, S, Z, Q, P, L, F, E, D>,
    r: Vec<ScoreResult>,
    k: int,
)
    requires
        call_ensures(
            score_points_jointly::<A, R, T, U, C, S, Z, Q, P, L, F, E, D>,
            (y, d, x, joint, points, method),
            r,
        ),
        0 <= k < points@.len(),
    ensures
        r@.len() == points@.len(),
        jointly_scored(
            r@[k],
            y,
            d,
            x,
            joint.cells@,
            points@[k],
            joint.treated_periods,
            method,
            bits::INFINITY,
        ),
{
}

/// The searches of the twostep method refuse exactly a panel in which no indicator is
/// one, attempt every control cell of any other, select among the grid values, and
/// report no failure exactly where every cell entered the criterion.
pub proof fn law_twostep_searches<
    R: PairSummary,
    T: TimeDecay,
    U: Binary,
    P: Binary,
    B: Binary,
    Z: Summary,
    O: Dot,
    C: WeightedMean,
    Q: CovariateFit,
    F: TwostepProximal,
    E: CellEffect<TwostepModel>,
    S: Binary,
    W: Binary,
>(
    panel: &TwostepPanel,
    time_grid: &Vec<u64>,
    unit_grid: &Vec<u64>,
    nn_grid: &Vec<u64>,
    method: &TwostepMethod<R, T, U, P, B, Z, O, C, Q, F, E, S>,
    subtract: &W,
    cells: Vec<(usize, usize)>,
    descent: TropResult<LoocvGridSearchResult>,
    exhaustive: TropResult<LoocvGridSearchResult>,
)
    requires
        call_ensures(
            loocv_grid_search::<R, T, U, P, B, Z, O, C, Q, F, E, S, W>,
            (panel, time_grid, unit_grid, nn_grid, method, subtract),
            descent,
        ),
        call_ensures(
            loocv_grid_search_exhaustive::<R, T, U, P, B, Z, O, C, Q, F, E, S, W>,
            (panel, time_grid, unit_grid, nn_grid, method, subtract),
            exhaustive,
        ),
        call_ensures(crate::loocv::get_control_observations, (panel.y, panel.control_mask), cells),
        time_grid@.len() > 0,
        unit_grid@.len() > 0,
        nn_grid@.len() > 0,
    ensures
        descent is Ok <==> exists|t: int, i: int|
            0 <= t < panel.d.rows && 0 <= i < panel.d.cols && bits::same(
                #[trigger] panel.d.at(t, i),
                bits::ONE,
            ),
        exhaustive is Ok <==> descent is Ok,
        descent is Err ==> descent->Err_0 == TropError::NoTreated,
        exhaustive is Err ==> exhaustive->Err_0 == TropError::NoTreated,
        descent matches Ok(r) ==> {
            &&& r.n_attempted == cells@.len()
            &&& r.first_failed is None <==> r.n_valid == cells@.len()
            &&& time_grid@.contains(r.lambdas.time)
            &&& unit_grid@.contains(r.lambdas.unit)
            &&& nn_grid@.contains(r.lambdas.nn)
        },
        exhaustive matches Ok(r) ==> {
            &&& r.n_attempted == cells@.len()
            &&& r.first_failed is None <==> r.n_valid == cells@.len()
            &&& time_grid@.contains(r.lambdas.time)
            &&& unit_grid@.contains(r.lambdas.unit)
            &&& nn_grid@.contains(r.lambdas.nn)
        },
{
    lemma_any_treated(panel.d);
    if let Ok(r) = descent {
        let initial = choose|initial: Lambdas| #[trigger]
            twostep_selected(
                (r, initial),
                panel,
                time_grid@,
                unit_grid@,
                nn_grid@,
                method,
                *subtract,
            );
        law_twostep_search_validates_on_every_control_cell(
            (r, initial),
            panel,
            time_grid@,
            unit_grid@,
            nn_grid@,
            method,
            *subtract,
            cells,
        );
    }
    if let Ok(r) = exhaustive {
        law_exhaustive_search_validates_on_every_control_cell(
            r,
            panel,
            time_grid@,
            unit_grid@,
            nn_grid@,
            method,
            *subtract,
            cells,
        );
    }
}

proof fn lemma_any_treated(d: &Matrix<u64>)
    ensures
        any_treated(d) <==> exists|t: int, i: int|
            0 <= t < d.rows && 0 <= i < d.cols && bits::same(#[trigger] d.at(t, i), bits::ONE),
{
    if any_treated(d) {
        let t = choose|t: int| 0 <= t < d.rows && #[trigger] crate::panel::treated_row(d, t);
        let i = choose|i: int| 0 <= i < d.cols && #[trigger] crate::panel::treated(d, t, i);
        assert(bits::same(d.at(t, i), bits::ONE));
    }
    if exists|t: int, i: int|
        0 <= t < d.rows && 0 <= i < d.cols && bits::same(#[trigger] d.at(t, i), bits::ONE) {
        let (t, i) = choose|t: int, i: int|
            0 <= t < d.rows && 0 <= i < d.cols && bits::same(#[trigger] d.at(t, i), bits::ONE);
        assert(crate::panel::treated(d, t, i));
        assert(crate::panel::treated_row(d, t));
    }
}

/// The searches of the joint method attempt every control cell, select among the grid
/// values, and report no failure exactly where every cell entered the criterion.
pub proof fn law_joint_searches<
    A: Summary,
    R: PairSummary,
    T: DoubledDecay,
    U: Binary,
    C: Ternary,
    S: Binary,
    Z: Summary,
    Q: Unary,
    P: Binary,
    L: Solver,
    F: ProximalStep,
    E: CellEffect<JointModel>,
    D: Binary,
    W: Binary,
>(
    y: &Matrix<u64>,
    d: &Matrix<u64>,
    x: Option<&Matrix<u64>>,
    control_mask: &Matrix<u8>,
    time_grid: &Vec<u64>,
    unit_grid: &Vec<u64>,
    nn_grid: &Vec<u64>,
    max_cycles: usize,
    method: &JointMethod<A, R, T, U, C, S, Z, Q, P, L, F, E, D>,
    subtract: &W,
    cells: Vec<(usize, usize)>,
    descent: LoocvGridSearchResultWithStage1,
    exhaustive: LoocvGridSearchResult,
)
    requires
        call_ensures(
            loocv_cycling_search_joint_with_stage1::<A, R, T, U, C, S, Z, Q, P, L, F, E, D, W>,
            (
                y,
                d,
                x,
                control_mask,
                time_grid,
                unit_grid,
                nn_grid,
                max_cycles,
                method,
                subtract,
            ),
            descent,
        ),
        call_ensures(
            loocv_grid_search_joint::<A, R, T, U, C, S, Z, Q, P, L, F, E, D, W>,
            (y, d, x, control_mask, time_grid, unit_grid, nn_grid, method, subtract),
            exhaustive,
        ),
        call_ensures(crate::loocv::get_control_observations, (y, control_mask), cells),
        time_grid@.len() > 0,
        unit_grid@.len() > 0,
        nn_grid@.len() > 0,
    ensures
        descent.0.n_attempted == cells@.len(),
        descent.0.first_failed is None <==> descent.0.n_valid == cells@.len(),
        exhaustive.n_attempted == cells@.len(),
        exhaustive.first_failed is None <==> exhaustive.n_valid == cells@.len(),
        time_grid@.contains(descent.0.lambdas.time),
        unit_grid@.contains(descent.0.lambdas.unit),
        nn_grid@.contains(descent.0.lambdas.nn),
        time_grid@.contains(descent.1.time),
        unit_grid@.contains(descent.1.unit),
        nn_grid@.contains(descent.1.nn),
        time_grid@.contains(exhaustive.lambdas.time),
        unit_grid@.contains(exhaustive.lambdas.unit),
        nn_grid@.contains(exhaustive.lambdas.nn),
{
    law_joint_search_validates_on_every_control_cell(
        descent,
        y,
        d,
        x,
        control_mask,
        time_grid@,
        unit_grid@,
        nn_grid@,
        max_cycles,
        method,
        *subtract,
        cells,
    );
    law_exhaustive_joint_search_validates_on_every_control_cell(
        exhaustive,
        y,
        d,
        x,
        control_mask,
        time_grid@,
        unit_grid@,
        nn_grid@,
        method,
        *subtract,
        cells,
    );
}

/// A search scores the points of every sweep that it asks for, one after the other,
/// and a search of all combinations scores those of all of them.
pub proof fn law_searches_score_every_sweep<W: Binary>(
    start: GridSearch,
    r: GridSearch,
    best: Evaluation,
    time_grid: Seq<u64>,
    unit_grid: Seq<u64>,
    nn_grid: Seq<u64>,
    scorer: spec_fn(Seq<Lambdas>, Seq<ScoreResult>) -> bool,
    subtract: W,
)
    requires
        searched(start, r, time_grid, unit_grid, nn_grid, scorer, subtract),
        best_scored(best, time_grid, unit_grid, nn_grid, scorer, subtract),
    ensures
        exists|steps: Seq<Step>|
            {
                &&& r == #[trigger] after(start, steps)
                &&& forall|k: int|
                    0 <= k < steps.len() ==> sweeps(
                        after(start, steps.take(k)),
                        #[trigger] steps[k],
                        time_grid,
                        unit_grid,
                        nn_grid,
                        scorer,
                        subtract,
                    )
            },
        exists|given: Seq<Lambdas>, results: Seq<ScoreResult>|
            {
                &&& #[trigger] scorer(given, results)
                &&& given.len() == (time_grid.len() * unit_grid.len()) * nn_grid.len()
                &&& exhaustive_selects(
                    best,
                    time_grid,
                    unit_grid,
                    nn_grid,
                    given,
                    results,
                    subtract,
                )
            },
{
}

} // verus!

//! Searches of the parameter grids, given how the criterion is evaluated.
//!
//! The caller supplies the evaluation at a list of parameters, which may be
//! shared out among workers, and the arithmetic.
use crate::alternating::{
    CovariateFit, Dot, TwostepModel, TwostepProximal, WeightedMean,
};
use crate::arithmetic::{
    Binary, CellEffect, DoubledDecay, PairSummary, Solver, Summary, Ternary, TimeDecay, Unary,
};
use crate::bits;
use crate::crossval::{
    cells_in, diagnosed, jointly_diagnosed, loocv_score_for_params_full_diagnostic,
    loocv_score_joint_full_diagnostic,
};
use crate::error::{TropError, TropResult};
use crate::joint::{JointMethod, JointModel, ProximalStep};
use crate::loocv::{
    adopts_together, check_simultaneous_adoption, first_failed, get_control_observations,
    lists_controls, simultaneous, validate_has_treated_units, Diagnosis, ScoreResult,
};
use crate::matrix::Matrix;
use crate::model::regressable;
use crate::panel::{any_treated, same_shape};
use crate::search::{
    after, carries_out, completed, descent, evaluations, exhaustive_selects, in_grids,
    law_selection_is_a_combination, run_sweep, scratch, search_combinations, search_grids,
    selectable, selects, sweep_points_of, sweep_start_of, Axis, Evaluation, GridSearch, Stage,
    Step, Sweep,
};
use crate::tuning::{effective, effective_of, Lambdas};
use crate::twostep::{TwostepMethod, TwostepPanel};
use vstd::prelude::*;

verus! {

/// Cycles of the coordinate descent of the twostep method, at most.
pub const TWOSTEP_CYCLES: usize = 10;

/// Outcome of a search.
#[derive(Debug, Clone, Copy, PartialEq, Eq)]
pub struct LoocvGridSearchResult {
    /// Parameters selected.
    pub lambdas: Lambdas,
    /// Criterion at the parameters selected.
    pub score: u64,
    /// Cells that were fitted and entered the criterion.
    pub n_valid: usize,
    /// Cells that were left out.
    pub n_attempted: usize,
    /// First cell whose fit failed.
    pub first_failed: Option<(usize, usize)>,
}

/// Outcome of a two-stage search, with the univariate starting values.
pub type LoocvGridSearchResultWithStage1 = (LoocvGridSearchResult, Lambdas);

/// Outcome of a search that selected `lambdas`.
pub open spec fn result_of(
    lambdas: Lambdas,
    diagnosis: Diagnosis,
    n_attempted: usize,
) -> LoocvGridSearchResult {
    LoocvGridSearchResult {
        lambdas,
        score: diagnosis.score,
        n_valid: diagnosis.n_valid,
        n_attempted,
        first_failed: if diagnosis.failed@.len() > 0 {
            Some(diagnosis.failed@[0])
        } else {
            None
        },
    }
}

fn conclude(
    lambdas: Lambdas,
    diagnosis: &Diagnosis,
    n_attempted: usize,
) -> (r: LoocvGridSearchResult)
    ensures
        r == result_of(lambdas, *diagnosis, n_attempted),
{
    LoocvGridSearchResult {
        lambdas,
        score: diagnosis.score,
        n_valid: diagnosis.n_valid,
        n_attempted,
        first_failed: first_failed(diagnosis),
    }
}

/// Sweep of one parameter, the others held fixed.
pub open spec fn univariate(param_type: usize, fixed: Lambdas) -> Sweep {
    Sweep {
        axis: if param_type == 0 {
            Axis::Time
        } else if param_type == 1 {
            Axis::Unit
        } else {
            Axis::Nn
        },
        fixed,
        hint: bits::INFINITY,
    }
}

/// Best value of one parameter and the criterion there, the others held fixed:
/// `evaluate` gets the context and a list of parameters.
pub fn univariate_search_by<
    C,
    E: Fn(&C, Vec<Lambdas>) -> Vec<ScoreResult>,
    S: Fn(u64, u64) -> u64,
>(
    grid: &Vec<u64>,
    fixed: Lambdas,
    param_type: usize,
    context: &C,
    evaluate: &E,
    subtract: &S,
) -> (r: (u64, u64))
    requires
        forall|points: Vec<Lambdas>| #[trigger] call_requires(*evaluate, (context, points)),
        forall|points: Vec<Lambdas>, out: Vec<ScoreResult>| #[trigger]
            call_ensures(*evaluate, (context, points), out) ==> out@.len() == points@.len(),
        forall|a: u64, b: u64| #[trigger] call_requires(*subtract, (a, b)),
    ensures
        exists|points: Vec<Lambdas>, results: Vec<ScoreResult>, best: Evaluation|
            {
                &&& #[trigger] call_ensures(*evaluate, (context, points), results)
                &&& points@ == sweep_points_of(univariate(param_type, fixed), grid@)
                &&& #[trigger] selects(
                    best,
                    sweep_start_of(univariate(param_type, fixed), grid@),
                    evaluations(grid@, points@, results@),
                    *subtract,
                )
                &&& r == (best.value, best.candidate.score)
            },
        grid@.len() > 0 ==> grid@.contains(r.0),
{
    let sweep: Sweep = Sweep {
        axis: Axis::from_index(param_type),
        fixed,
        hint: bits::INFINITY,
    };
    let best: Evaluation = run_sweep(&sweep, grid, context, evaluate, subtract);
    (best.value, best.candidate.score)
}

/// Coordinate descent from given starting values: `evaluate` gets the context
/// and a sweep.
pub fn cycling_search_by<
    C,
    E: Fn(&C, Stage, Sweep, Vec<Lambdas>) -> Vec<ScoreResult>,
    S: Fn(u64, u64) -> u64,
>(
    time_grid: &Vec<u64>,
    unit_grid: &Vec<u64>,
    nn_grid: &Vec<u64>,
    initial: Lambdas,
    max_cycles: usize,
    context: &C,
    evaluate: &E,
    subtract: &S,
) -> (r: Lambdas)
    requires
        forall|stage: Stage, sweep: Sweep, points: Vec<Lambdas>| #[trigger]
            call_requires(*evaluate, (context, stage, sweep, points)),
        forall|stage: Stage, sweep: Sweep, points: Vec<Lambdas>, out: Vec<ScoreResult>| #[trigger]
            call_ensures(*evaluate, (context, stage, sweep, points), out) ==> out@.len()
                == points@.len(),
        forall|a: u64, b: u64| #[trigger] call_requires(*subtract, (a, b)),
    ensures
        exists|search: GridSearch|
            search.lambdas == r && search.stage == Stage::Done && #[trigger] completed(
                descent(initial, max_cycles),
                search,
                time_grid@,
                unit_grid@,
                nn_grid@,
                context,
                *evaluate,
                *subtract,
            ),
        max_cycles == 0 ==> r == initial,
{
    let start: GridSearch = GridSearch::from_initial(initial, max_cycles);
    let search: GridSearch = search_grids(
        start,
        time_grid,
        unit_grid,
        nn_grid,
        context,
        evaluate,
        subtract,
    );
    proof {
        if max_cycles == 0 {
            lemma_done_stays(
                start,
                search,
                time_grid@,
                unit_grid@,
                nn_grid@,
                context,
                *evaluate,
                *subtract,
            );
        }
    }
    search.lambdas
}

proof fn lemma_done_stays<
    C,
    E: Fn(&C, Stage, Sweep, Vec<Lambdas>) -> Vec<ScoreResult>,
    S: Fn(u64, u64) -> u64,
>(
    start: GridSearch,
    r: GridSearch,
    time_grid: Seq<u64>,
    unit_grid: Seq<u64>,
    nn_grid: Seq<u64>,
    context: &C,
    evaluate: E,
    subtract: S,
)
    requires
        start.stage == Stage::Done,
        completed(start, r, time_grid, unit_grid, nn_grid, context, evaluate, subtract),
    ensures
        r == start,
{
    let steps = choose|steps: Seq<Step>|
        {
            &&& r == #[trigger] after(start, steps)
            &&& forall|k: int|
                0 <= k < steps.len() ==> carries_out(
                    after(start, steps.take(k)),
                    #[trigger] steps[k],
                    time_grid,
                    unit_grid,
                    nn_grid,
                    context,
                    evaluate,
                    subtract,
                )
        };
    if steps.len() > 0 {
        let first = after(start, steps.take(0));
        assert(first == start);
        assert(carries_out(
            first,
            steps[0],
            time_grid,
            unit_grid,
            nn_grid,
            context,
            evaluate,
            subtract,
        ));
        lemma_not_done(
            first,
            steps[0],
            time_grid,
            unit_grid,
            nn_grid,
            context,
            evaluate,
            subtract,
        );
    }
}

proof fn lemma_not_done<
    C,
    E: Fn(&C, Stage, Sweep, Vec<Lambdas>) -> Vec<ScoreResult>,
    S: Fn(u64, u64) -> u64,
>(
    at: GridSearch,
    step: Step,
    time_grid: Seq<u64>,
    unit_grid: Seq<u64>,
    nn_grid: Seq<u64>,
    context: &C,
    evaluate: E,
    subtract: S,
)
    requires
        carries_out(at, step, time_grid, unit_grid, nn_grid, context, evaluate, subtract),
    ensures
        at.stage != Stage::Done,
{
}

proof fn lemma_combination<
    C,
    E: Fn(&C, Stage, Sweep, Vec<Lambdas>) -> Vec<ScoreResult>,
    S: Fn(u64, u64) -> u64,
>(
    max_cycles: usize,
    r: GridSearch,
    time_grid: Seq<u64>,
    unit_grid: Seq<u64>,
    nn_grid: Seq<u64>,
    context: &C,
    evaluate: E,
    subtract: S,
)
    requires
        completed(
            scratch(max_cycles),
            r,
            time_grid,
            unit_grid,
            nn_grid,
            context,
            evaluate,
            subtract,
        ),
        r.stage == Stage::Done,
        time_grid.len() > 0,
        unit_grid.len() > 0,
        nn_grid.len() > 0,
    ensures
        in_grids(r.lambdas, time_grid, unit_grid, nn_grid),
        in_grids(r.initial, time_grid, unit_grid, nn_grid),
{
    let start = scratch(max_cycles);
    let steps = choose|steps: Seq<Step>|
        {
            &&& r == #[trigger] after(start, steps)
            &&& forall|k: int|
                0 <= k < steps.len() ==> carries_out(
                    after(start, steps.take(k)),
                    #[trigger] steps[k],
                    time_grid,
                    unit_grid,
                    nn_grid,
                    context,
                    evaluate,
                    subtract,
                )
        };
    assert forall|k: int| 0 <= k < steps.len() implies selectable(
        after(start, steps.take(k)),
        (#[trigger] steps[k]).best.value,
        time_grid,
        unit_grid,
        nn_grid,
    ) by {
        assert(carries_out(
            after(start, steps.take(k)),
            steps[k],
            time_grid,
            unit_grid,
            nn_grid,
            context,
            evaluate,
            subtract,
        ));
    }
    law_selection_is_a_combination(max_cycles, steps, time_grid, unit_grid, nn_grid);
}

/// Searches from scratch, in two stages.
fn search_two_stages<
    C,
    E: Fn(&C, Stage, Sweep, Vec<Lambdas>) -> Vec<ScoreResult>,
    S: Fn(u64, u64) -> u64,
>(
    time_grid: &Vec<u64>,
    unit_grid: &Vec<u64>,
    nn_grid: &Vec<u64>,
    max_cycles: usize,
    context: &C,
    evaluate: &E,
    subtract: &S,
) -> (r: GridSearch)
    requires
        forall|stage: Stage, sweep: Sweep, points: Vec<Lambdas>| #[trigger]
            call_requires(*evaluate, (context, stage, sweep, points)),
        forall|stage: Stage, sweep: Sweep, points: Vec<Lambdas>, out: Vec<ScoreResult>| #[trigger]
            call_ensures(*evaluate, (context, stage, sweep, points), out) ==> out@.len()
                == points@.len(),
        forall|a: u64, b: u64| #[trigger] call_requires(*subtract, (a, b)),
    ensures
        r.stage == Stage::Done,
        completed(
            scratch(max_cycles),
            r,
            time_grid@,
            unit_grid@,
            nn_grid@,
            context,
            *evaluate,
            *subtract,
        ),
        time_grid@.len() > 0 && unit_grid@.len() > 0 && nn_grid@.len() > 0 ==> in_grids(
            r.lambdas,
            time_grid@,
            unit_grid@,
            nn_grid@,
        ) && in_grids(r.initial, time_grid@, unit_grid@, nn_grid@),
{
    let start: GridSearch = GridSearch::new(max_cycles);
    let search: GridSearch = search_grids(
        start,
        time_grid,
        unit_grid,
        nn_grid,
        context,
        evaluate,
        subtract,
    );
    proof {
        if time_grid@.len() > 0 && unit_grid@.len() > 0 && nn_grid@.len() > 0 {
            lemma_combination(
                max_cycles,
                search,
                time_grid@,
                unit_grid@,
                nn_grid@,
                context,
                *evaluate,
                *subtract,
            );
        }
    }
    search
}

/// `r` is the outcome of a two-stage search of the twostep method: the
/// parameters that it ends with, diagnosed on the control cells.
pub open spec fn twostep_searched<
    R: PairSummary,
    T: TimeDecay,
    U: Binary,
    P: Binary,
    B: Binary,
    Z: Summary,
    O: Dot,
    C: WeightedMean,
    Q: CovariateFit,
    F: TwostepProximal,
    E: CellEffect<TwostepModel>,
    S: Binary,
    V: Fn(&Vec<(usize, usize)>, Stage, Sweep, Vec<Lambdas>) -> Vec<ScoreResult>,
    W: Binary,
>(
    r: LoocvGridSearchResultWithStage1,
    panel: &TwostepPanel,
    time_grid: Seq<u64>,
    unit_grid: Seq<u64>,
    nn_grid: Seq<u64>,
    method: &TwostepMethod<R, T, U, P, B, Z, O, C, Q, F, E, S>,
    evaluate: V,
    subtract: W,
) -> bool {
    exists|cells: Vec<(usize, usize)>, search: GridSearch, diagnosis: Diagnosis|
        {
            &&& lists_controls(cells@, panel.y, panel.control_mask)
            &&& #[trigger] completed(
                scratch(TWOSTEP_CYCLES),
                search,
                time_grid,
                unit_grid,
                nn_grid,
                &cells,
                evaluate,
                subtract,
            )
            &&& search.stage == Stage::Done
            &&& #[trigger] diagnosed(
                diagnosis,
                panel,
                cells@,
                search.lambdas,
                method,
            )
            &&& r.0 == result_of(search.lambdas, diagnosis, cells.len())
            &&& r.1 == search.initial
        }
}

/// Two-stage search of the twostep method: univariate starting values, then
/// coordinate descent.  A panel without a treated cell is refused.
/// `evaluate` gets the control cells and a sweep.
pub fn twostep_search_by<
    R: PairSummary,
    T: TimeDecay,
    U: Binary,
    P: Binary,
    B: Binary,
    Z: Summary,
    O: Dot,
    C: WeightedMean,
    Q: CovariateFit,
    F: TwostepProximal,
    E: CellEffect<TwostepModel>,
    S: Binary,
    V: Fn(&Vec<(usize, usize)>, Stage, Sweep, Vec<Lambdas>) -> Vec<ScoreResult>,
    W: Binary,
>(
    panel: &TwostepPanel,
    time_grid: &Vec<u64>,
    unit_grid: &Vec<u64>,
    nn_grid: &Vec<u64>,
    method: &TwostepMethod<R, T, U, P, B, Z, O, C, Q, F, E, S>,
    evaluate: &V,
    subtract: &W,
) -> (r: TropResult<LoocvGridSearchResultWithStage1>)
    requires
        panel.wf(),
        method.ready(),
        forall|cells: &Vec<(usize, usize)>, stage: Stage, sweep: Sweep, points: Vec<Lambdas>|
            cells_in(cells@, panel.y) ==> #[trigger] call_requires(
                *evaluate,
                (cells, stage, sweep, points),
            ),
        forall|
            cells: &Vec<(usize, usize)>,
            stage: Stage,
            sweep: Sweep,
            points: Vec<Lambdas>,
            out: Vec<ScoreResult>,
        | #[trigger]
            call_ensures(*evaluate, (cells, stage, sweep, points), out) ==> out@.len()
                == points@.len(),
        forall|a: u64, b: u64| #[trigger] call_requires(*subtract, (a, b)),
    ensures
        r is Ok <==> any_treated(panel.d),
        r is Err ==> r->Err_0 == TropError::NoTreated,
        r is Ok ==> twostep_searched(
            r->Ok_0,
            panel,
            time_grid@,
            unit_grid@,
            nn_grid@,
            method,
            *evaluate,
            *subtract,
        ),
        r is Ok && time_grid@.len() > 0 && unit_grid@.len() > 0 && nn_grid@.len() > 0 ==> in_grids(
            r->Ok_0.0.lambdas,
            time_grid@,
            unit_grid@,
            nn_grid@,
        ) && in_grids(r->Ok_0.1, time_grid@, unit_grid@, nn_grid@),
{
    if let Err(e) = validate_has_treated_units(panel.d) {
        return Err(e);
    }
    let cells: Vec<(usize, usize)> = get_control_observations(panel.y, panel.control_mask);
    let search: GridSearch = search_two_stages(
        time_grid,
        unit_grid,
        nn_grid,
        TWOSTEP_CYCLES,
        &cells,
        evaluate,
        subtract,
    );
    let l: Lambdas = search.lambdas;
    let diagnosis: Diagnosis = loocv_score_for_params_full_diagnostic(panel, &cells, l, method);
    Ok((conclude(l, &diagnosis, cells.len()), search.initial))
}

/// What the joint method is validated on.
#[derive(Debug)]
pub struct JointCells {
    /// Control cells.
    pub cells: Vec<(usize, usize)>,
    /// Periods in which treatment is on.
    pub treated_periods: usize,
}

impl JointCells {
    /// These are the control cells and the treated periods of a panel.
    pub open spec fn describe(
        &self,
        y: &Matrix<u64>,
        d: &Matrix<u64>,
        control_mask: &Matrix<u8>,
    ) -> bool {
        &&& lists_controls(self.cells@, y, control_mask)
        &&& self.treated_periods <= d.rows
        &&& adopts_together(d, d.rows - self.treated_periods)
        &&& self.treated_periods > 0 <==> any_treated(d)
    }

    fn new(y: &Matrix<u64>, d: &Matrix<u64>, control_mask: &Matrix<u8>) -> (r: JointCells)
        requires
            d.wf(),
            simultaneous(d),
            same_shape(y, control_mask),
        ensures
            r.describe(y, d, control_mask),
            cells_in(r.cells@, y),
    {
        let treated_periods: usize = match check_simultaneous_adoption(d) {
            Ok(n) => n,
            Err(_) => 0,
        };
        JointCells { cells: get_control_observations(y, control_mask), treated_periods }
    }
}

/// `r` is the outcome of a two-stage search of the joint method: the parameters
/// that it ends with, diagnosed on the control cells.
pub open spec fn joint_searched<
    A: Summary,
    R: PairSummary,
    T: DoubledDecay,
    U: Binary,
    C: Ternary,
    S: Binary,
    Z: Summary,
    Q: Unary,
    P: Binary,
    L: Solver,
    F: ProximalStep,
    E: CellEffect<JointModel>,
    D: Binary,
    V: Fn(&JointCells, Stage, Sweep, Vec<Lambdas>) -> Vec<ScoreResult>,
    W: Binary,
>(
    r: LoocvGridSearchResultWithStage1,
    y: &Matrix<u64>,
    d: &Matrix<u64>,
    x: Option<&Matrix<u64>>,
    control_mask: &Matrix<u8>,
    time_grid: Seq<u64>,
    unit_grid: Seq<u64>,
    nn_grid: Seq<u64>,
    max_cycles: usize,
    method: &JointMethod<A, R, T, U, C, S, Z, Q, P, L, F, E, D>,
    evaluate: V,
    subtract: W,
) -> bool {
    exists|joint: JointCells, search: GridSearch, diagnosis: Diagnosis|
        {
            &&& joint.describe(y, d, control_mask)
            &&& #[trigger] completed(
                scratch(max_cycles),
                search,
                time_grid,
                unit_grid,
                nn_grid,
                &joint,
                evaluate,
                subtract,
            )
            &&& search.stage == Stage::Done
            &&& #[trigger] jointly_diagnosed(
                diagnosis,
                y,
                d,
                x,
                joint.cells@,
                search.lambdas,
                joint.treated_periods,
                method,
            )
            &&& r.0 == result_of(search.lambdas, diagnosis, joint.cells.len())
            &&& r.1 == search.initial
        }
}

/// Two-stage search of the joint method: univariate starting values, then
/// coordinate descent.  Adoption must be simultaneous.
/// `evaluate` gets what the method is validated on and a sweep.
pub fn joint_search_by<
    A: Summary,
    R: PairSummary,
    T: DoubledDecay,
    U: Binary,
    C: Ternary,
    S: Binary,
    Z: Summary,
    Q: Unary,
    P: Binary,
    L: Solver,
    F: ProximalStep,
    E: CellEffect<JointModel>,
    D: Binary,
    V: Fn(&JointCells, Stage, Sweep, Vec<Lambdas>) -> Vec<ScoreResult>,
    W: Binary,
>(
    y: &Matrix<u64>,
    d: &Matrix<u64>,
    x: Option<&Matrix<u64>>,
    control_mask: &Matrix<u8>,
    time_grid: &Vec<u64>,
    unit_grid: &Vec<u64>,
    nn_grid: &Vec<u64>,
    max_cycles: usize,
    method: &JointMethod<A, R, T, U, C, S, Z, Q, P, L, F, E, D>,
    evaluate: &V,
    subtract: &W,
) -> (r: LoocvGridSearchResultWithStage1)
    requires
        same_shape(y, d),
        simultaneous(d),
        same_shape(y, control_mask),
        regressable(y, x),
        method.ready(),
        forall|joint: &JointCells, stage: Stage, sweep: Sweep, points: Vec<Lambdas>|
            cells_in(joint.cells@, y) ==> #[trigger] call_requires(
                *evaluate,
                (joint, stage, sweep, points),
            ),
        forall|
            joint: &JointCells,
            stage: Stage,
            sweep: Sweep,
            points: Vec<Lambdas>,
            out: Vec<ScoreResult>,
        | #[trigger]
            call_ensures(*evaluate, (joint, stage, sweep, points), out) ==> out@.len()
                == points@.len(),
        forall|a: u64, b: u64| #[trigger] call_requires(*subtract, (a, b)),
    ensures
        joint_searched(
            r,
            y,
            d,
            x,
            control_mask,
            time_grid@,
            unit_grid@,
            nn_grid@,
            max_cycles,
            method,
            *evaluate,
            *subtract,
        ),
        time_grid@.len() > 0 && unit_grid@.len() > 0 && nn_grid@.len() > 0 ==> in_grids(
            r.0.lambdas,
            time_grid@,
            unit_grid@,
            nn_grid@,
        ) && in_grids(r.1, time_grid@, unit_grid@, nn_grid@),
{
    let joint: JointCells = JointCells::new(y, d, control_mask);
    let search: GridSearch = search_two_stages(
        time_grid,
        unit_grid,
        nn_grid,
        max_cycles,
        &joint,
        evaluate,
        subtract,
    );
    let l: Lambdas = search.lambdas;
    let diagnosis: Diagnosis = loocv_score_joint_full_diagnostic(
        y,
        d,
        x,
        &joint.cells,
        l,
        joint.treated_periods,
        method,
    );
    (conclude(l, &diagnosis, joint.cells.len()), search.initial)
}

/// `best` is the best of all combinations of three grids.
pub open spec fn best_of_all<
    C,
    E: Fn(&C, Vec<Lambdas>) -> Vec<ScoreResult>,
    S: Fn(u64, u64) -> u64,
>(
    best: Evaluation,
    time_grid: Seq<u64>,
    unit_grid: Seq<u64>,
    nn_grid: Seq<u64>,
    context: &C,
    evaluate: E,
    subtract: S,
) -> bool {
    exists|given: Vec<Lambdas>, results: Vec<ScoreResult>| #[trigger]
        call_ensures(evaluate, (context, given), results) && exhaustive_selects(
            best,
            time_grid,
            unit_grid,
            nn_grid,
            given@,
            results@,
            subtract,
        )
}

/// `r` is the outcome of a search of all combinations of the twostep method:
/// the best one, diagnosed on the control cells at the parameters that stand
/// for it in computation.
pub open spec fn twostep_exhausted<
    R: PairSummary,
    T: TimeDecay,
    U: Binary,
    P: Binary,
    B: Binary,
    Z: Summary,
    O: Dot,
    C: WeightedMean,
    Q: CovariateFit,
    F: TwostepProximal,
    E: CellEffect<TwostepModel>,
    S: Binary,
    V: Fn(&Vec<(usize, usize)>, Vec<Lambdas>) -> Vec<ScoreResult>,
    W: Binary,
>(
    r: LoocvGridSearchResult,
    panel: &TwostepPanel,
    time_grid: Seq<u64>,
    unit_grid: Seq<u64>,
    nn_grid: Seq<u64>,
    method: &TwostepMethod<R, T, U, P, B, Z, O, C, Q, F, E, S>,
    evaluate: V,
    subtract: W,
) -> bool {
    exists|cells: Vec<(usize, usize)>, best: Evaluation, diagnosis: Diagnosis|
        {
            let l = best.candidate.lambdas;
            &&& lists_controls(cells@, panel.y, panel.control_mask)
            &&& #[trigger] best_of_all(
                best,
                time_grid,
                unit_grid,
                nn_grid,
                &cells,
                evaluate,
                subtract,
            )
            &&& #[trigger] diagnosed(
                diagnosis,
                panel,
                cells@,
                effective_of(best.candidate.lambdas),
                method,
            )
            &&& r == result_of(l, diagnosis, cells.len())
        }
}

/// Search of all combinations of the twostep method.  A panel without a
/// treated cell is refused.
/// `evaluate` gets the control cells and a list of parameters.
pub fn exhaustive_twostep_search_by<
    R: PairSummary,
    T: TimeDecay,
    U: Binary,
    P: Binary,
    B: Binary,
    Z: Summary,
    O: Dot,
    C: WeightedMean,
    Q: CovariateFit,
    F: TwostepProximal,
    E: CellEffect<TwostepModel>,
    S: Binary,
    V: Fn(&Vec<(usize, usize)>, Vec<Lambdas>) -> Vec<ScoreResult>,
    W: Binary,
>(
    panel: &TwostepPanel,
    time_grid: &Vec<u64>,
    unit_grid: &Vec<u64>,
    nn_grid: &Vec<u64>,
    method: &TwostepMethod<R, T, U, P, B, Z, O, C, Q, F, E, S>,
    evaluate: &V,
    subtract: &W,
) -> (r: TropResult<LoocvGridSearchResult>)
    requires
        panel.wf(),
        method.ready(),
        forall|cells: &Vec<(usize, usize)>, points: Vec<Lambdas>|
            cells_in(cells@, panel.y) ==> #[trigger] call_requires(*evaluate, (cells, points)),
        forall|cells: &Vec<(usize, usize)>, points: Vec<Lambdas>, out: Vec<ScoreResult>| #[trigger]
            call_ensures(*evaluate, (cells, points), out) ==> out@.len() == points@.len(),
        forall|a: u64, b: u64| #[trigger] call_requires(*subtract, (a, b)),
    ensures
        r is Ok <==> any_treated(panel.d),
        r is Err ==> r->Err_0 == TropError::NoTreated,
        r is Ok ==> twostep_exhausted(
            r->Ok_0,
            panel,
            time_grid@,
            unit_grid@,
            nn_grid@,
            method,
            *evaluate,
            *subtract,
        ),
        r is Ok && time_grid@.len() > 0 && unit_grid@.len() > 0 && nn_grid@.len() > 0 ==> in_grids(
            r->Ok_0.lambdas,
            time_grid@,
            unit_grid@,
            nn_grid@,
        ),
{
    if let Err(e) = validate_has_treated_units(panel.d) {
        return Err(e);
    }
    let cells: Vec<(usize, usize)> = get_control_observations(panel.y, panel.control_mask);
    let best: Evaluation = search_combinations(
        time_grid,
        unit_grid,
        nn_grid,
        &cells,
        evaluate,
        subtract,
    );
    assert(best_of_all(
        best,
        time_grid@,
        unit_grid@,
        nn_grid@,
        &cells,
        *evaluate,
        *subtract,
    ));
    let l: Lambdas = best.candidate.lambdas;
    let diagnosis: Diagnosis = loocv_score_for_params_full_diagnostic(panel, &cells, effective(l), method);
    Ok(conclude(l, &diagnosis, cells.len()))
}

/// `r` is the outcome of a search of all combinations of the joint method: the
/// best one, diagnosed on the control cells at the parameters that stand for it
/// in computation.
pub open spec fn joint_exhausted<
    A: Summary,
    R: PairSummary,
    T: DoubledDecay,
    U: Binary,
    C: Ternary,
    S: Binary,
    Z: Summary,
    Q: Unary,
    P: Binary,
    L: Solver,
    F: ProximalStep,
    E: CellEffect<JointModel>,
    D: Binary,
    V: Fn(&JointCells, Vec<Lambdas>) -> Vec<ScoreResult>,
    W: Binary,
>(
    r: LoocvGridSearchResult,
    y: &Matrix<u64>,
    d: &Matrix<u64>,
    x: Option<&Matrix<u64>>,
    control_mask: &Matrix<u8>,
    time_grid: Seq<u64>,
    unit_grid: Seq<u64>,
    nn_grid: Seq<u64>,
    method: &JointMethod<A, R, T, U, C, S, Z, Q, P, L, F, E, D>,
    evaluate: V,
    subtract: W,
) -> bool {
    exists|joint: JointCells, best: Evaluation, diagnosis: Diagnosis|
        {
            let l = best.candidate.lambdas;
            &&& joint.describe(y, d, control_mask)
            &&& #[trigger] best_of_all(
                best,
                time_grid,
                unit_grid,
                nn_grid,
                &joint,
                evaluate,
                subtract,
            )
            &&& #[trigger] jointly_diagnosed(
                diagnosis,
                y,
                d,
                x,
                joint.cells@,
                effective_of(best.candidate.lambdas),
                joint.treated_periods,
                method,
            )
            &&& r == result_of(l, diagnosis, joint.cells.len())
        }
}

/// Search of all combinations of the joint method.  Adoption must be
/// simultaneous.
/// `evaluate` gets what the method is validated on and a list of parameters.
pub fn exhaustive_joint_search_by<
    A: Summary,
    R: PairSummary,
    T: DoubledDecay,
    U: Binary,
    C: Ternary,
    S: Binary,
    Z: Summary,
    Q: Unary,
    P: Binary,
    L: Solver,
    F: ProximalStep,
    E: CellEffect<JointModel>,
    D: Binary,
    V: Fn(&JointCells, Vec<Lambdas>) -> Vec<ScoreResult>,
    W: Binary,
>(
    y: &Matrix<u64>,
    d: &Matrix<u64>,
    x: Option<&Matrix<u64>>,
    control_mask: &Matrix<u8>,
    time_grid: &Vec<u64>,
    unit_grid: &Vec<u64>,
    nn_grid: &Vec<u64>,
    method: &JointMethod<A, R, T, U, C, S, Z, Q, P, L, F, E, D>,
    evaluate: &V,
    subtract: &W,
) -> (r: LoocvGridSearchResult)
    requires
        same_shape(y, d),
        simultaneous(d),
        same_shape(y, control_mask),
        regressable(y, x),
        method.ready(),
        forall|joint: &JointCells, points: Vec<Lambdas>|
            cells_in(joint.cells@, y) ==> #[trigger] call_requires(*evaluate, (joint, points)),
        forall|joint: &JointCells, points: Vec<Lambdas>, out: Vec<ScoreResult>| #[trigger]
            call_ensures(*evaluate, (joint, points), out) ==> out@.len() == points@.len(),
        forall|a: u64, b: u64| #[trigger] call_requires(*subtract, (a, b)),
    ensures
        joint_exhausted(
            r,
            y,
            d,
            x,
            control_mask,
            time_grid@,
            unit_grid@,
            nn_grid@,
            method,
            *evaluate,
            *subtract,
        ),
        time_grid@.len() > 0 && unit_grid@.len() > 0 && nn_grid@.len() > 0 ==> in_grids(
            r.lambdas,
            time_grid@,
            unit_grid@,
            nn_grid@,
        ),
{
    let joint: JointCells = JointCells::new(y, d, control_mask);
    let best: Evaluation = search_combinations(
        time_grid,
        unit_grid,
        nn_grid,
        &joint,
        evaluate,
        subtract,
    );
    assert(best_of_all(
        best,
        time_grid@,
        unit_grid@,
        nn_grid@,
        &joint,
        *evaluate,
        *subtract,
    ));
    let l: Lambdas = best.candidate.lambdas;
    let diagnosis: Diagnosis = loocv_score_joint_full_diagnostic(
        y,
        d,
        x,
        &joint.cells,
        effective(l),
        joint.treated_periods,
        method,
    );
    conclude(l, &diagnosis, joint.cells.len())
}

/// What a search reports is the diagnosis of the parameters that it selected, over
/// all cells that it left out.
pub proof fn law_search_reports_its_diagnosis(
    lambdas: Lambdas,
    diagnosis: Diagnosis,
    n_attempted: usize,
)
    ensures
        ({
            let r = result_of(lambdas, diagnosis, n_attempted);
            &&& r.lambdas == lambdas
            &&& r.score == diagnosis.score
            &&& r.n_valid == diagnosis.n_valid
            &&& r.n_attempted == n_attempted
            &&& r.first_failed is None <==> diagnosis.failed@.len() == 0
            &&& diagnosis.failed@.len() > 0 ==> r.first_failed == Some(diagnosis.failed@[0])
        }),
{
}

/// A univariate search sweeps the parameter of its number: the time bandwidth, the
/// unit bandwidth or the penalty.
pub proof fn law_univariate_sweep(param_type: usize, fixed: Lambdas)
    ensures
        univariate(param_type, fixed).fixed == fixed,
        univariate(param_type, fixed).hint == bits::INFINITY,
        univariate(param_type, fixed).axis == Axis::Time <==> param_type == 0,
        univariate(param_type, fixed).axis == Axis::Unit <==> param_type == 1,
        univariate(param_type, fixed).axis == Axis::Nn <==> param_type > 1,
{
}

/// The joint method is validated on every control cell of the panel, and knows the
/// period from which treated units are treated.
pub proof fn law_joint_cells(
    joint: &JointCells,
    y: &Matrix<u64>,
    d: &Matrix<u64>,
    control_mask: &Matrix<u8>,
    cells: Vec<(usize, usize)>,
)
    requires
        joint.describe(y, d, control_mask),
        call_ensures(get_control_observations, (y, control_mask), cells),
    ensures
        joint.cells@ == cells@,
        joint.treated_periods <= d.rows,
        forall|s: int, t: int, i: int|
            0 <= s < d.rows && 0 <= t < d.rows && 0 <= i < d.cols && bits::same(
                #[trigger] d.at(s, i),
                bits::ONE,
            ) ==> {
                &&& t < d.rows - joint.treated_periods ==> bits::zero(#[trigger] d.at(t, i))
                &&& t >= d.rows - joint.treated_periods ==> bits::same(d.at(t, i), bits::ONE)
            },
{
    crate::matrix::law_listing_unique(
        joint.cells@,
        cells@,
        y.rows as int,
        y.cols as int,
        |t: int, i: int| crate::loocv::control_cell(y, control_mask, t, i),
    );
    let start = d.rows - joint.treated_periods;
    assert forall|s: int, t: int, i: int|
        0 <= s < d.rows && 0 <= t < d.rows && 0 <= i < d.cols && bits::same(
            #[trigger] d.at(s, i),
            bits::ONE,
        ) implies {
        &&& t < d.rows - joint.treated_periods ==> bits::zero(#[trigger] d.at(t, i))
        &&& t >= d.rows - joint.treated_periods ==> bits::same(d.at(t, i), bits::ONE)
    } by {
        assert(crate::panel::treated(d, s, i));
        assert(crate::panel::ever_treated(d, i));
        assert(crate::loocv::adopts_at(d, i, start));
        assert(crate::loocv::on_schedule(d, t, i, start));
    }
}

} // verus!

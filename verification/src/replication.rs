//! Estimates and bootstrap estimates, given the arithmetic.
//!
//! Drawing a sample, fitting its cells, choosing the cells whose effects count
//! and combining them happens here.
use crate::alternating::{
    CovariateFit, Dot, TwostepModel, TwostepProximal, WeightedMean,
};
use crate::arithmetic::{
    average_ready, effect_ready, Average, Binary, CellEffect, DoubledDecay, PairSummary, Solver,
    Summary, Ternary, TimeDecay, Unary,
};
use crate::bits;
use crate::bootstrap::{
    covariates_fit, in_panel, joint_replicate, resample_weights, stratified_units,
    twostep_replicate, usable, weight_of, JointReplicate, TwostepReplicate, UnitClassification,
};
use crate::crossval::cells_in;
use crate::distance::UnitDistanceCache;
use crate::entry::{successful_of, twostep_status, CellFit, FitSummary};
use crate::error::{TropError, TropResult};
use crate::estimation::Iterations;
use crate::inference::{
    aggregate_att, contents, finite_effects, finite_effects_of, law_equal_weights_keep_all,
    Aggregation,
};
use crate::joint::{fit_panel, JointMethod, JointModel, ProximalStep};
use crate::loocv::{adopts_together, check_simultaneous_adoption, simultaneous};
use crate::matrix::{lists_cells, Matrix};
use crate::model::{design_of, regressable};
use crate::panel::{
    any_treated, observed_treated, observed_treated_cells, same_shape, treated, treated_cells,
    treated_row,
};
use crate::tuning::{drops_low_rank, effective, effective_of, without_low_rank, Lambdas};
use crate::twostep::{
    estimate_cell, fit_without, TwostepMethod, TwostepPanel,
};
use vstd::prelude::*;

verus! {

/// The fit of one cell: the model that it started from, and the model and the
/// effect that came of it.
pub struct CellTrial {
    pub start: Option<TwostepModel>,
    pub outcome: Option<(TwostepModel, u64)>,
}

/// Effects that some fits gave.
pub open spec fn trial_effects(trials: Seq<CellTrial>) -> Seq<Option<u64>> {
    Seq::new(
        trials.len(),
        |k: int|
            match trials[k].outcome {
                Some((model, effect)) => Some(effect),
                None => None,
            },
    )
}

/// Model that the next fit starts from: that of the last fit that succeeded.
pub open spec fn last_model(trials: Seq<CellTrial>) -> Option<TwostepModel>
    decreases trials.len(),
{
    if trials.len() == 0 {
        None
    } else {
        match trials.last().outcome {
            Some((model, effect)) => Some(model),
            None => last_model(trials.drop_last()),
        }
    }
}

/// `trials` is what came of fitting the first cells one after the other, each
/// under weights of its own and from the model of the last success.
pub open spec fn fitted_in_turn<
    R: PairSummary,
    T: TimeDecay,
    U: Binary,
    P: Binary,
    B: Binary,
    Z: Summary,
    O: Dot,
    C: WeightedMean,
    Q: CovariateFit,
    F: TwostepProximal,
    E: CellEffect<TwostepModel>,
    S: Binary,
>(
    panel: &TwostepPanel,
    cells: Seq<(usize, usize)>,
    lambdas: Lambdas,
    method: &TwostepMethod<R, T, U, P, B, Z, O, C, Q, F, E, S>,
    trials: Seq<CellTrial>,
) -> bool {
    &&& trials.len() <= cells.len()
    &&& forall|k: int|
        0 <= k < trials.len() ==> {
            let trial = #[trigger] trials[k];
            &&& trial.start == last_model(trials.take(k))
            &&& method.estimates(trial.outcome, panel, lambdas, cells[k], trial.start)
        }
}

proof fn lemma_fitted_push<
    R: PairSummary,
    T: TimeDecay,
    U: Binary,
    P: Binary,
    B: Binary,
    Z: Summary,
    O: Dot,
    C: WeightedMean,
    Q: CovariateFit,
    F: TwostepProximal,
    E: CellEffect<TwostepModel>,
    S: Binary,
>(
    panel: &TwostepPanel,
    cells: Seq<(usize, usize)>,
    lambdas: Lambdas,
    method: &TwostepMethod<R, T, U, P, B, Z, O, C, Q, F, E, S>,
    trials: Seq<CellTrial>,
    trial: CellTrial,
)
    requires
        fitted_in_turn(panel, cells, lambdas, method, trials),
        trials.len() < cells.len(),
        trial.start == last_model(trials),
        method.estimates(
            trial.outcome,
            panel,
            lambdas,
            cells[trials.len() as int],
            trial.start,
        ),
    ensures
        fitted_in_turn(panel, cells, lambdas, method, trials.push(trial)),
        trial_effects(trials.push(trial)) == trial_effects(trials).push(
            match trial.outcome {
                Some((model, effect)) => Some(effect),
                None => None,
            },
        ),
        last_model(trials.push(trial)) == match trial.outcome {
            Some((model, effect)) => Some(model),
            None => last_model(trials),
        },
{
    let more = trials.push(trial);
    assert(more.drop_last() =~= trials);
    assert(trial_effects(more) =~= trial_effects(trials).push(
        match trial.outcome {
            Some((model, effect)) => Some(effect),
            None => None,
        },
    ));
    assert forall|k: int| 0 <= k < more.len() implies {
        let t = #[trigger] more[k];
        &&& t.start == last_model(more.take(k))
        &&& method.estimates(t.outcome, panel, lambdas, cells[k], t.start)
    } by {
        if k < trials.len() {
            assert(more.take(k) =~= trials.take(k));
            assert(more[k] == trials[k]);
        } else {
            assert(more.take(k) =~= trials);
        }
    }
}

/// Fits the cells one after the other and keeps their effects.
fn effects_in_turn<
    R: PairSummary,
    T: TimeDecay,
    U: Binary,
    P: Binary,
    B: Binary,
    Z: Summary,
    O: Dot,
    C: WeightedMean,
    Q: CovariateFit,
    F: TwostepProximal,
    E: CellEffect<TwostepModel>,
    S: Binary,
>(
    panel: &TwostepPanel,
    cells: &Vec<(usize, usize)>,
    lambdas: Lambdas,
    method: &TwostepMethod<R, T, U, P, B, Z, O, C, Q, F, E, S>,
) -> (r: Vec<Option<u64>>)
    requires
        panel.wf(),
        cells_in(cells@, panel.y),
        method.ready(),
    ensures
        exists|trials: Seq<CellTrial>| #[trigger]
            fitted_in_turn(panel, cells@, lambdas, method, trials) && trials.len() == cells@.len()
                && r@ == trial_effects(trials),
{
    let mut effects: Vec<Option<u64>> = Vec::new();
    let mut start: Option<TwostepModel> = None;
    let ghost mut trials: Seq<CellTrial> = Seq::empty();
    let mut k: usize = 0;
    while k < cells.len()
        invariant
            panel.wf(),
            cells_in(cells@, panel.y),
            method.ready(),
            k <= cells@.len(),
            k == trials.len(),
            fitted_in_turn(panel, cells@, lambdas, method, trials),
            start == last_model(trials),
            start matches Some(m) ==> m.fits(panel.y, m.gamma@.len()),
            effects@ == trial_effects(trials),
        decreases cells@.len() - k,
    {
        let ghost from = start;
        let outcome: Option<(TwostepModel, u64)> = estimate_cell(panel, lambdas, cells[k], &start, method);
        proof {
            let trial = CellTrial { start: from, outcome };
            lemma_fitted_push(panel, cells@, lambdas, method, trials, trial);
            trials = trials.push(trial);
        }
        match outcome {
            Some((model, effect)) => {
                start = Some(model);
                effects.push(Some(effect));
            },
            None => {
                effects.push(None);
            },
        }
        assert(effects@ =~= trial_effects(trials));
        k = k + 1;
    }
    effects
}

/// `r` is the average of some effects: nothing where there is nothing to
/// average.
pub open spec fn averages<A: Average>(
    r: Option<u64>,
    effects: Seq<(u64, usize)>,
    weights: Option<Seq<u64>>,
    average: A,
) -> bool {
    exists|aggregation: Aggregation| #[trigger]
        aggregation.aggregates(effects, weights) && match r {
            Some(v) => !(aggregation is Undefined) && call_ensures(average, (&aggregation,), v),
            None => aggregation is Undefined,
        }
}

/// Average of some effects; `average` is called where there is something to
/// average.
pub fn average_effects<A: Average>(
    effects: &Vec<(u64, usize)>,
    weights: Option<&Vec<u64>>,
    average: &A,
) -> (r: Option<u64>)
    requires
        average_ready(*average),
    ensures
        averages(r, effects@, contents(weights), *average),
{
    let aggregation: Aggregation = aggregate_att(effects, weights);
    match aggregation {
        Aggregation::Undefined => None,
        _ => Some((*average)(&aggregation)),
    }
}

/// Two aggregations run over the same numbers in the same way.
pub open spec fn same_terms(a: Aggregation, b: Aggregation) -> bool {
    match (a, b) {
        (Aggregation::Mean(p), Aggregation::Mean(q)) => p@ == q@,
        (Aggregation::Weighted(p), Aggregation::Weighted(q)) => p@ == q@,
        (Aggregation::Undefined, Aggregation::Undefined) => true,
        _ => false,
    }
}

/// The same numbers always have the same average.
pub open spec fn one_average<A: Average>(average: A) -> bool {
    forall|a: Aggregation, b: Aggregation, u: u64, v: u64|
        same_terms(a, b) && #[trigger] call_ensures(average, (&a,), u) && #[trigger] call_ensures(
            average,
            (&b,),
            v,
        ) ==> u == v
}

/// Where every number has the weight `w`, the weighted average is the ordinary
/// one.
pub open spec fn levels_weights<A: Average>(average: A, w: u64) -> bool {
    forall|a: Vec<u64>, b: Vec<(u64, u64)>, u: u64, v: u64|
        b@ == a@.map_values(|x: u64| (w, x)) && #[trigger] call_ensures(
            average,
            (&Aggregation::Mean(a),),
            u,
        ) && #[trigger] call_ensures(average, (&Aggregation::Weighted(b),), v) ==> u == v
}

/// The same effects with the same weights have one average.
pub proof fn law_one_average<A: Average>(
    r: Option<u64>,
    other: Option<u64>,
    effects: Seq<(u64, usize)>,
    weights: Option<Seq<u64>>,
    average: A,
)
    requires
        averages(r, effects, weights, average),
        averages(other, effects, weights, average),
        one_average(average),
    ensures
        r == other,
{
    let a = choose|aggregation: Aggregation| #[trigger]
        aggregation.aggregates(effects, weights) && match r {
            Some(v) => !(aggregation is Undefined) && call_ensures(average, (&aggregation,), v),
            None => aggregation is Undefined,
        };
    let b = choose|aggregation: Aggregation| #[trigger]
        aggregation.aggregates(effects, weights) && match other {
            Some(v) => !(aggregation is Undefined) && call_ensures(average, (&aggregation,), v),
            None => aggregation is Undefined,
        };
    assert(same_terms(a, b));
}

/// Equal weights give the average without weights.
pub proof fn law_equal_weights_give_the_mean<A: Average>(
    r: Option<u64>,
    weighted: Option<u64>,
    effects: Seq<(u64, usize)>,
    weights: Seq<u64>,
    w: u64,
    average: A,
)
    requires
        averages(r, effects, None, average),
        averages(weighted, effects, Some(weights), average),
        bits::positive_finite(w),
        forall|k: int| 0 <= k < effects.len() ==> (#[trigger] effects[k]).1 < weights.len(),
        forall|i: int| 0 <= i < weights.len() ==> #[trigger] weights[i] == w,
        levels_weights(average, w),
    ensures
        r == weighted,
{
    let a = choose|aggregation: Aggregation| #[trigger]
        aggregation.aggregates(effects, None) && match r {
            Some(v) => !(aggregation is Undefined) && call_ensures(average, (&aggregation,), v),
            None => aggregation is Undefined,
        };
    let b = choose|aggregation: Aggregation| #[trigger]
        aggregation.aggregates(effects, Some(weights)) && match weighted {
            Some(v) => !(aggregation is Undefined) && call_ensures(average, (&aggregation,), v),
            None => aggregation is Undefined,
        };
    law_equal_weights_keep_all(effects, weights, w);
    if effects.len() > 0 {
        assert(a matches Aggregation::Mean(p) && b matches Aggregation::Weighted(q) && q@
            =~= p@.map_values(|x: u64| (w, x)));
    }
}

/// Weights of the units of a sample, where there are weights.
pub open spec fn sample_weights(weights: Option<&Vec<u64>>, units: Seq<usize>) -> Option<Seq<u64>> {
    match weights {
        Some(w) => Some(Seq::new(units.len(), |j: int| weight_of(w@, units[j] as int))),
        None => None,
    }
}

fn average_in_sample<A: Average>(
    effects: &Vec<(u64, usize)>,
    weights: Option<&Vec<u64>>,
    units: &Vec<usize>,
    average: &A,
) -> (r: Option<u64>)
    requires
        average_ready(*average),
    ensures
        averages(r, effects@, sample_weights(weights, units@), *average),
{
    match weights {
        Some(w) => {
            let drawn: Vec<u64> = resample_weights(w, units);
            average_effects(effects, Some(&drawn), average)
        },
        None => average_effects(effects, None, average),
    }
}

/// Columns that replicate `b` of a run consists of.
pub open spec fn replicate_units(
    classification: &UnitClassification,
    seed: u64,
    b: usize,
) -> Seq<usize> {
    stratified_units(classification, ((seed + b) % 0x1_0000_0000_0000_0000) as u64)
}

/// The sample of a replicate as a panel that cells are fitted on.
pub open spec fn sample_panel<'a>(
    replicate: &'a TwostepReplicate,
    time_dist: &'a Matrix<i64>,
    cache: &'a UnitDistanceCache,
) -> TwostepPanel<'a> {
    TwostepPanel {
        y: &replicate.y,
        d: &replicate.d,
        x: match replicate.x {
            Some(m) => Some(&m),
            None => None,
        },
        control_mask: &replicate.control_mask,
        time_dist,
        cache,
    }
}

/// `r` is the estimate of the twostep method on a replicate: the average of
/// the finite effects of its treated cells, each under the fit whose weights
/// are centred on it.
pub open spec fn estimates_twostep<
    R: PairSummary,
    T: TimeDecay,
    U: Binary,
    P: Binary,
    B: Binary,
    Z: Summary,
    O: Dot,
    C: WeightedMean,
    Q: CovariateFit,
    F: TwostepProximal,
    E: CellEffect<TwostepModel>,
    S: Binary,
    G: Average,
>(
    r: Option<u64>,
    replicate: TwostepReplicate,
    time_dist: &Matrix<i64>,
    weights: Option<&Vec<u64>>,
    lambdas: Lambdas,
    method: &TwostepMethod<R, T, U, P, B, Z, O, C, Q, F, E, S>,
    average: G,
) -> bool {
    exists|cache: UnitDistanceCache, trials: Seq<CellTrial>|
        {
            &&& cache.caches(&replicate.y, &replicate.d)
            &&& #[trigger] fitted_in_turn(
                &sample_panel(&replicate, time_dist, &cache),
                replicate.treated@,
                lambdas,
                method,
                trials,
            )
            &&& trials.len() == replicate.treated@.len()
            &&& averages(
                r,
                finite_effects_of(replicate.treated@, trial_effects(trials)),
                sample_weights(weights, replicate.units@),
                average,
            )
        }
}

/// `r` is the estimate of the twostep method on replicate `b` of a run; nothing
/// where the sample cannot be estimated on or no effect counts.
pub open spec fn gives_twostep<
    R: PairSummary,
    T: TimeDecay,
    U: Binary,
    P: Binary,
    B: Binary,
    Z: Summary,
    O: Dot,
    C: WeightedMean,
    Q: CovariateFit,
    F: TwostepProximal,
    E: CellEffect<TwostepModel>,
    S: Binary,
    G: Average,
>(
    r: Option<u64>,
    y: &Matrix<u64>,
    d: &Matrix<u64>,
    control_mask: &Matrix<u8>,
    x: Option<&Matrix<u64>>,
    time_dist: &Matrix<i64>,
    weights: Option<&Vec<u64>>,
    classification: &UnitClassification,
    lambdas: Lambdas,
    seed: u64,
    b: usize,
    method: &TwostepMethod<R, T, U, P, B, Z, O, C, Q, F, E, S>,
    average: G,
) -> bool {
    let units = replicate_units(classification, seed, b);
    &&& in_panel(units, d.cols)
    &&& if usable(d, units) {
        exists|replicate: TwostepReplicate| #[trigger]
            replicate.replicates(y, d, control_mask, x, units)
                && estimates_twostep(
                r,
                replicate,
                time_dist,
                weights,
                lambdas,
                method,
                average,
            )
    } else {
        r is None
    }
}

/// There is one distance for each pair of periods of a panel.
pub open spec fn pairs_periods(time_dist: &Matrix<i64>, y: &Matrix<u64>) -> bool {
    &&& time_dist.wf()
    &&& time_dist.rows == y.rows
    &&& time_dist.cols == y.rows
}

/// Estimate of the twostep method on replicate `b` of a run.
pub fn twostep_outcome<
    R: PairSummary,
    T: TimeDecay,
    U: Binary,
    P: Binary,
    B: Binary,
    Z: Summary,
    O: Dot,
    C: WeightedMean,
    Q: CovariateFit,
    F: TwostepProximal,
    E: CellEffect<TwostepModel>,
    S: Binary,
    G: Average,
>(
    y: &Matrix<u64>,
    d: &Matrix<u64>,
    control_mask: &Matrix<u8>,
    x: Option<&Matrix<u64>>,
    time_dist: &Matrix<i64>,
    weights: Option<&Vec<u64>>,
    classification: &UnitClassification,
    lambdas: Lambdas,
    seed: u64,
    b: usize,
    method: &TwostepMethod<R, T, U, P, B, Z, O, C, Q, F, E, S>,
    average: &G,
) -> (r: Option<u64>)
    requires
        same_shape(y, d),
        same_shape(y, control_mask),
        covariates_fit(y, x),
        pairs_periods(time_dist, y),
        classification.classifies(d),
        method.ready(),
        average_ready(*average),
    ensures
        gives_twostep(
            r,
            y,
            d,
            control_mask,
            x,
            time_dist,
            weights,
            classification,
            lambdas,
            seed,
            b,
            method,
            *average,
        ),
{
    let replicate: TwostepReplicate = match twostep_replicate(
        y,
        d,
        control_mask,
        x,
        classification,
        seed,
        b,
    ) {
        Some(replicate) => replicate,
        None => {
            return None;
        },
    };
    let cache: UnitDistanceCache = UnitDistanceCache::build(&replicate.y, &replicate.d);
    let panel: TwostepPanel = TwostepPanel {
        y: &replicate.y,
        d: &replicate.d,
        x: replicate.x.as_ref(),
        control_mask: &replicate.control_mask,
        time_dist,
        cache: &cache,
    };
    let effects: Vec<Option<u64>> = effects_in_turn(
        &panel,
        &replicate.treated,
        lambdas,
        method,
    );
    let kept: Vec<(u64, usize)> = finite_effects(&replicate.treated, &effects);
    let r: Option<u64> = average_in_sample(&kept, weights, &replicate.units, average);
    proof {
        assert(panel == sample_panel(&replicate, time_dist, &cache));
        assert(estimates_twostep(
            r,
            replicate,
            time_dist,
            weights,
            lambdas,
            method,
            *average,
        ));
    }
    r
}

/// Effects of some cells of a panel under a model, each with the unit of its
/// cell.
pub open spec fn gives_effects<M, E: CellEffect<M>>(
    effects: Seq<(u64, usize)>,
    y: &Matrix<u64>,
    x: Option<&Matrix<u64>>,
    model: &M,
    cells: Seq<(usize, usize)>,
    effect: E,
) -> bool {
    &&& effects.len() == cells.len()
    &&& forall|k: int|
        0 <= k < cells.len() ==> (#[trigger] effects[k]).1 == cells[k].1 && call_ensures(
            effect,
            (y, x, model, cells[k]),
            effects[k].0,
        )
}

/// Effects of some cells of a panel under a model.
pub fn model_effects<M, E: CellEffect<M>>(
    y: &Matrix<u64>,
    x: Option<&Matrix<u64>>,
    model: &M,
    cells: &Vec<(usize, usize)>,
    effect: &E,
) -> (r: Vec<(u64, usize)>)
    requires
        effect_ready::<M, E>(*effect),
    ensures
        gives_effects(r@, y, x, model, cells@, *effect),
{
    let mut r: Vec<(u64, usize)> = Vec::new();
    let mut k: usize = 0;
    while k < cells.len()
        invariant
            effect_ready::<M, E>(*effect),
            k <= cells@.len(),
            r@.len() == k,
            forall|j: int|
                0 <= j < k ==> (#[trigger] r@[j]).1 == cells@[j].1 && call_ensures(
                    *effect,
                    (y, x, model, cells@[j]),
                    r@[j].0,
                ),
        decreases cells@.len() - k,
    {
        let tau: u64 = (*effect)(y, x, model, cells[k]);
        r.push((tau, cells[k].1));
        k = k + 1;
    }
    r
}

/// `r` is the estimate that the effects of the treated cells under a joint model
/// give: their average.  Where there is nothing to average it is zero with a
/// low-rank component and without weights, and nothing otherwise.
pub open spec fn estimates_joint<G: Average>(
    r: Option<u64>,
    effects: Seq<(u64, usize)>,
    weights: Option<Seq<u64>>,
    lambda_nn: u64,
    average: G,
) -> bool {
    exists|v: Option<u64>| #[trigger]
        averages(v, effects, weights, average) && r == if v is None && weights is None
            && !without_low_rank(lambda_nn) {
            Some(bits::ZERO)
        } else {
            v
        }
}

/// Estimate that the effects of the treated cells under a joint model give.
pub fn joint_estimate<G: Average>(
    effects: &Vec<(u64, usize)>,
    weights: Option<&Vec<u64>>,
    lambda_nn: u64,
    average: &G,
) -> (r: Option<u64>)
    requires
        average_ready(*average),
    ensures
        estimates_joint(r, effects@, contents(weights), lambda_nn, *average),
{
    let v: Option<u64> = average_effects(effects, weights, average);
    assert(averages(v, effects@, contents(weights), *average));
    if v.is_none() && weights.is_none() && !drops_low_rank(lambda_nn) {
        Some(bits::ZERO)
    } else {
        v
    }
}

/// Covariates of a replicate.
pub open spec fn sample_covariates(replicate: &JointReplicate) -> Option<&Matrix<u64>> {
    match replicate.x {
        Some(m) => Some(&m),
        None => None,
    }
}

/// `r` is the estimate of the joint method on replicate `b` of a run: that of
/// the effects of its treated cells under the fit of the sample with its joint
/// weights; nothing where the fit fails or there is nothing to average.
pub open spec fn gives_joint<
    A: Summary,
    R: PairSummary,
    T: DoubledDecay,
    U: Binary,
    C: Ternary,
    S: Binary,
    Z: Summary,
    Q: Unary,
    P: Binary,
    L: Solver,
    F: ProximalStep,
    E: CellEffect<JointModel>,
    D: Binary,
    G: Average,
>(
    r: Option<u64>,
    y: &Matrix<u64>,
    d: &Matrix<u64>,
    x: Option<&Matrix<u64>>,
    weights: Option<&Vec<u64>>,
    classification: &UnitClassification,
    lambdas: Lambdas,
    treated_periods: usize,
    seed: u64,
    b: usize,
    method: &JointMethod<A, R, T, U, C, S, Z, Q, P, L, F, E, D>,
    average: G,
) -> bool {
    exists|replicate: JointReplicate, fit: Option<(JointModel, Iterations)>|
        {
            &&& in_panel(replicate.units@, d.cols)
            &&& #[trigger] replicate.replicates(
                y,
                d,
                x,
                replicate_units(classification, seed, b),
            )
            &&& #[trigger] method.fits_panel(
                fit,
                &replicate.y,
                &replicate.d,
                sample_covariates(&replicate),
                lambdas,
                treated_periods,
            )
            &&& match fit {
                Some((model, it)) => exists|effects: Seq<(u64, usize)>|
                    {
                        &&& #[trigger] gives_effects(
                            effects,
                            &replicate.y,
                            sample_covariates(&replicate),
                            &model,
                            replicate.treated@,
                            *method.effect,
                        )
                        &&& estimates_joint(
                            r,
                            effects,
                            sample_weights(weights, replicate.units@),
                            lambdas.nn,
                            average,
                        )
                    },
                None => r is None,
            }
        }
}

proof fn lemma_replicate_regressable(
    y: &Matrix<u64>,
    d: &Matrix<u64>,
    x: Option<&Matrix<u64>>,
    units: Seq<usize>,
    replicate: &JointReplicate,
)
    requires
        same_shape(y, d),
        regressable(y, x),
        replicate.replicates(y, d, x, units),
        units.len() == y.cols,
    ensures
        same_shape(&replicate.y, &replicate.d),
        regressable(&replicate.y, sample_covariates(replicate)),
        design_of(&replicate.y, sample_covariates(replicate)) == design_of(y, x),
{
}

/// Estimate of the joint method on replicate `b` of a run.
pub fn joint_outcome<
    A: Summary,
    R: PairSummary,
    T: DoubledDecay,
    U: Binary,
    C: Ternary,
    S: Binary,
    Z: Summary,
    Q: Unary,
    P: Binary,
    L: Solver,
    F: ProximalStep,
    E: CellEffect<JointModel>,
    D: Binary,
    G: Average,
>(
    y: &Matrix<u64>,
    d: &Matrix<u64>,
    x: Option<&Matrix<u64>>,
    weights: Option<&Vec<u64>>,
    classification: &UnitClassification,
    lambdas: Lambdas,
    treated_periods: usize,
    seed: u64,
    b: usize,
    method: &JointMethod<A, R, T, U, C, S, Z, Q, P, L, F, E, D>,
    average: &G,
) -> (r: Option<u64>)
    requires
        same_shape(y, d),
        regressable(y, x),
        classification.classifies(d),
        method.ready(),
        average_ready(*average),
    ensures
        gives_joint(
            r,
            y,
            d,
            x,
            weights,
            classification,
            lambdas,
            treated_periods,
            seed,
            b,
            method,
            *average,
        ),
{
    let replicate: JointReplicate = joint_replicate(y, d, x, classification, seed, b);
    proof {
        lemma_replicate_regressable(
            y,
            d,
            x,
            replicate_units(classification, seed, b),
            &replicate,
        );
    }
    let covariates: Option<&Matrix<u64>> = replicate.x.as_ref();
    assert(covariates == sample_covariates(&replicate));
    let fit: Option<(JointModel, Iterations)> = fit_panel(
        &replicate.y,
        &replicate.d,
        covariates,
        lambdas,
        treated_periods,
        method,
    );
    let drawn: Option<Vec<u64>> = match weights {
        Some(w) => Some(resample_weights(w, &replicate.units)),
        None => None,
    };
    assert(contents(
        match drawn {
            Some(w) => Some(&w),
            None => None,
        },
    ) == sample_weights(weights, replicate.units@));
    match &fit {
        Some((model, _)) => {
            let effects: Vec<(u64, usize)> = model_effects(
                &replicate.y,
                covariates,
                model,
                &replicate.treated,
                method.effect,
            );
            let r: Option<u64> = joint_estimate(&effects, drawn.as_ref(), lambdas.nn, average);
            assert(gives_effects(
                effects@,
                &replicate.y,
                sample_covariates(&replicate),
                model,
                replicate.treated@,
                *method.effect,
            ));
            assert(method.fits_panel(
                fit,
                &replicate.y,
                &replicate.d,
                sample_covariates(&replicate),
                lambdas,
                treated_periods,
            ));
            r
        },
        None => None,
    }
}

/// Effects that came of the cells whose fit succeeded, each with the unit of
/// its cell, in the order of the cells.
pub open spec fn successful_effects_of(
    cells: Seq<(usize, usize)>,
    effects: Seq<Option<u64>>,
) -> Seq<(u64, usize)>
    decreases cells.len(),
{
    if cells.len() == 0 {
        Seq::empty()
    } else {
        let rest = successful_effects_of(cells.drop_last(), effects.drop_last());
        match effects.last() {
            Some(tau) => rest.push((tau, cells.last().1)),
            None => rest,
        }
    }
}

/// `effects` are the effects of the cells whose fit succeeded.
pub open spec fn gives_cell_effects<E: CellEffect<TwostepModel>>(
    effects: Seq<Option<u64>>,
    y: &Matrix<u64>,
    x: Option<&Matrix<u64>>,
    fits: Seq<Option<(TwostepModel, Iterations)>>,
    cells: Seq<(usize, usize)>,
    effect: E,
) -> bool {
    &&& effects.len() == cells.len()
    &&& forall|k: int|
        0 <= k < cells.len() ==> match fits[k] {
            Some((m, it)) => #[trigger] effects[k] matches Some(tau) && call_ensures(
                effect,
                (y, x, &m, cells[k]),
                tau,
            ),
            None => effects[k] is None,
        }
}

/// How the fit of each cell went.
pub open spec fn cell_fits(fits: Seq<Option<(TwostepModel, Iterations)>>) -> Seq<Option<CellFit>> {
    Seq::new(
        fits.len(),
        |k: int|
            match fits[k] {
                Some((m, it)) => Some(CellFit { n_iters: it.done, converged: it.converged }),
                None => None,
            },
    )
}

/// Estimate of the twostep method.
#[derive(Debug)]
pub struct TwostepEstimate {
    /// Effects of the cells whose fit succeeded, each with the unit of its cell.
    pub effects: Vec<(u64, usize)>,
    /// Their average.
    pub att: u64,
    /// How the fits went.
    pub summary: FitSummary,
}

fn fits_of(fits: &Vec<Option<(TwostepModel, Iterations)>>) -> (r: Vec<Option<CellFit>>)
    ensures
        r@ == cell_fits(fits@),
{
    let mut r: Vec<Option<CellFit>> = Vec::new();
    let mut k: usize = 0;
    while k < fits.len()
        invariant
            k <= fits@.len(),
            r@ == cell_fits(fits@.take(k as int)),
        decreases fits@.len() - k,
    {
        let fit: Option<CellFit> = match &fits[k] {
            Some((_, it)) => Some(CellFit { n_iters: it.done, converged: it.converged }),
            None => None,
        };
        r.push(fit);
        assert(r@ =~= cell_fits(fits@.take(k + 1)));
        k = k + 1;
    }
    assert(fits@.take(k as int) =~= fits@);
    r
}

fn successful_effects<E: CellEffect<TwostepModel>>(
    y: &Matrix<u64>,
    x: Option<&Matrix<u64>>,
    cells: &Vec<(usize, usize)>,
    fits: &Vec<Option<(TwostepModel, Iterations)>>,
    effect: &E,
) -> (r: Vec<(u64, usize)>)
    requires
        cells@.len() == fits@.len(),
        effect_ready::<TwostepModel, E>(*effect),
    ensures
        exists|effects: Seq<Option<u64>>| #[trigger]
            gives_cell_effects(effects, y, x, fits@, cells@, *effect) && r@
                == successful_effects_of(cells@, effects),
{
    let mut r: Vec<(u64, usize)> = Vec::new();
    let ghost mut effects: Seq<Option<u64>> = Seq::empty();
    let mut k: usize = 0;
    while k < cells.len()
        invariant
            cells@.len() == fits@.len(),
            effect_ready::<TwostepModel, E>(*effect),
            k <= cells@.len(),
            effects.len() == k,
            forall|j: int|
                0 <= j < k ==> match fits@[j] {
                    Some((m, it)) => #[trigger] effects[j] matches Some(tau) && call_ensures(
                        *effect,
                        (y, x, &m, cells@[j]),
                        tau,
                    ),
                    None => effects[j] is None,
                },
            r@ == successful_effects_of(cells@.take(k as int), effects),
        decreases cells@.len() - k,
    {
        let tau: Option<u64> = match &fits[k] {
            Some((m, _)) => Some((*effect)(y, x, m, cells[k])),
            None => None,
        };
        proof {
            let more = effects.push(tau);
            assert(more.drop_last() =~= effects);
            assert(cells@.take(k + 1).drop_last() =~= cells@.take(k as int));
            effects = more;
        }
        if let Some(v) = tau {
            r.push((v, cells[k].1));
        }
        k = k + 1;
    }
    assert(cells@.take(k as int) =~= cells@);
    assert(gives_cell_effects(effects, y, x, fits@, cells@, *effect));
    r
}

/// `r` is the estimate from the fits of some cells: the average of the effects
/// of those whose fit succeeded.  It is refused where there is no cell, no fit
/// succeeded, or there is nothing to average.
pub open spec fn concludes<E: CellEffect<TwostepModel>, G: Average>(
    r: TropResult<TwostepEstimate>,
    y: &Matrix<u64>,
    x: Option<&Matrix<u64>>,
    cells: Seq<(usize, usize)>,
    fits: Seq<Option<(TwostepModel, Iterations)>>,
    weights: Option<Seq<u64>>,
    effect: E,
    average: G,
) -> bool {
    if cells.len() == 0 {
        r is Err && r->Err_0 == TropError::NoTreated
    } else if successful_of(cell_fits(fits)) == 0 {
        r is Err && r->Err_0 == TropError::Convergence
    } else {
        exists|effects: Seq<Option<u64>>, att: Option<u64>|
            {
                &&& #[trigger] gives_cell_effects(effects, y, x, fits, cells, effect)
                &&& #[trigger] averages(
                    att,
                    successful_effects_of(cells, effects),
                    weights,
                    average,
                )
                &&& match att {
                    Some(v) => r matches Ok(e) && e.effects@ == successful_effects_of(
                        cells,
                        effects,
                    ) && e.att == v && e.summary.summarizes(cell_fits(fits)),
                    None => r is Err && r->Err_0 == TropError::Convergence,
                }
            }
    }
}

/// Estimate of the twostep method, given the fits of the treated cells.
pub fn conclude_twostep<E: CellEffect<TwostepModel>, G: Average>(
    y: &Matrix<u64>,
    x: Option<&Matrix<u64>>,
    cells: &Vec<(usize, usize)>,
    fits: &Vec<Option<(TwostepModel, Iterations)>>,
    weights: Option<&Vec<u64>>,
    effect: &E,
    average: &G,
) -> (r: TropResult<TwostepEstimate>)
    requires
        cells@.len() == fits@.len(),
        forall|k: int|
            0 <= k < fits@.len() ==> (#[trigger] fits@[k] matches Some((m, it)) ==> it.done
                <= i32::MAX),
        effect_ready::<TwostepModel, E>(*effect),
        average_ready(*average),
    ensures
        concludes(r, y, x, cells@, fits@, contents(weights), *effect, *average),
{
    let described: Vec<Option<CellFit>> = fits_of(fits);
    match twostep_status(&described) {
        Err(e) => Err(e),
        Ok(summary) => {
            let effects: Vec<(u64, usize)> = successful_effects(y, x, cells, fits, effect);
            match average_effects(&effects, weights, average) {
                Some(att) => Ok(TwostepEstimate { effects, att, summary }),
                None => Err(TropError::Convergence),
            }
        },
    }
}

/// `fits` are the fits of some cells: each under the weights centred on its
/// cell, from zero.
pub open spec fn fits_cells<
    R: PairSummary,
    T: TimeDecay,
    U: Binary,
    P: Binary,
    B: Binary,
    Z: Summary,
    O: Dot,
    C: WeightedMean,
    Q: CovariateFit,
    F: TwostepProximal,
    E: CellEffect<TwostepModel>,
    S: Binary,
>(
    fits: Seq<Option<(TwostepModel, Iterations)>>,
    panel: &TwostepPanel,
    cells: Seq<(usize, usize)>,
    lambdas: Lambdas,
    method: &TwostepMethod<R, T, U, P, B, Z, O, C, Q, F, E, S>,
) -> bool {
    &&& fits.len() == cells.len()
    &&& forall|k: int|
        0 <= k < cells.len() ==> method.fits(
            #[trigger] fits[k],
            panel,
            lambdas,
            cells[k],
            None,
            None,
        )
}

/// Fits some cells, each from zero.
pub fn fit_cells<
    R: PairSummary,
    T: TimeDecay,
    U: Binary,
    P: Binary,
    B: Binary,
    Z: Summary,
    O: Dot,
    C: WeightedMean,
    Q: CovariateFit,
    F: TwostepProximal,
    E: CellEffect<TwostepModel>,
    S: Binary,
>(
    panel: &TwostepPanel,
    cells: &Vec<(usize, usize)>,
    lambdas: Lambdas,
    method: &TwostepMethod<R, T, U, P, B, Z, O, C, Q, F, E, S>,
) -> (r: Vec<Option<(TwostepModel, Iterations)>>)
    requires
        panel.wf(),
        cells_in(cells@, panel.y),
        method.ready(),
    ensures
        fits_cells(r@, panel, cells@, lambdas, method),
        forall|k: int|
            0 <= k < r@.len() ==> (#[trigger] r@[k] matches Some((m, it)) ==> it.done
                <= method.max_iter),
{
    let mut r: Vec<Option<(TwostepModel, Iterations)>> = Vec::new();
    let mut k: usize = 0;
    while k < cells.len()
        invariant
            panel.wf(),
            cells_in(cells@, panel.y),
            method.ready(),
            k <= cells@.len(),
            r@.len() == k,
            forall|j: int|
                0 <= j < k ==> method.fits(
                    #[trigger] r@[j],
                    panel,
                    lambdas,
                    cells@[j],
                    None,
                    None,
                ),
            forall|j: int|
                0 <= j < k ==> (#[trigger] r@[j] matches Some((m, it)) ==> it.done
                    <= method.max_iter),
        decreases cells@.len() - k,
    {
        let fit: Option<(TwostepModel, Iterations)> = fit_without(
            panel,
            lambdas,
            cells[k],
            None,
            &None,
            method,
        );
        r.push(fit);
        k = k + 1;
    }
    r
}

/// Estimate of the twostep method on a panel, with the fits of its treated
/// cells: the effect of each treated cell under the fit whose weights are
/// centred on it, and their average.
pub fn estimate_twostep<
    R: PairSummary,
    T: TimeDecay,
    U: Binary,
    P: Binary,
    B: Binary,
    Z: Summary,
    O: Dot,
    C: WeightedMean,
    Q: CovariateFit,
    F: TwostepProximal,
    E: CellEffect<TwostepModel>,
    S: Binary,
    G: Average,
>(
    panel: &TwostepPanel,
    weights: Option<&Vec<u64>>,
    lambdas: Lambdas,
    method: &TwostepMethod<R, T, U, P, B, Z, O, C, Q, F, E, S>,
    average: &G,
) -> (r: TropResult<(TwostepEstimate, Vec<Option<(TwostepModel, Iterations)>>)>)
    requires
        panel.wf(),
        method.ready(),
        method.max_iter <= i32::MAX,
        average_ready(*average),
    ensures
        exists|cells: Seq<(usize, usize)>, fits: Vec<Option<(TwostepModel, Iterations)>>|
            {
                &&& lists_cells(
                    cells,
                    panel.d.rows as int,
                    panel.d.cols as int,
                    |t: int, i: int| treated(panel.d, t, i),
                )
                &&& #[trigger] fits_cells(
                    fits@,
                    panel,
                    cells,
                    effective_of(lambdas),
                    method,
                )
                &&& concludes(
                    match r {
                        Ok(e) => Ok(e.0),
                        Err(e) => Err(e),
                    },
                    panel.y,
                    panel.x,
                    cells,
                    fits@,
                    contents(weights),
                    *method.effect,
                    *average,
                )
                &&& r matches Ok(e) ==> e.1 == fits
            },
        !any_treated(panel.d) ==> r is Err && r->Err_0 == TropError::NoTreated,
{
    let l: Lambdas = effective(lambdas);
    let cells: Vec<(usize, usize)> = treated_cells(panel.d);
    let fits: Vec<Option<(TwostepModel, Iterations)>> = fit_cells(panel, &cells, l, method);
    let concluded: TropResult<TwostepEstimate> = conclude_twostep(
        panel.y,
        panel.x,
        &cells,
        &fits,
        weights,
        method.effect,
        average,
    );
    proof {
        assert(fits_cells(fits@, panel, cells@, effective_of(lambdas), method));
        if !any_treated(panel.d) && cells@.len() > 0 {
            let cell = cells@[0];
            assert(treated(panel.d, cell.0 as int, cell.1 as int));
            assert(treated_row(panel.d, cell.0 as int));
        }
    }
    match concluded {
        Ok(estimate) => Ok((estimate, fits)),
        Err(e) => Err(e),
    }
}

/// Estimate of the joint method.
#[derive(Debug)]
pub struct JointEstimate {
    pub model: JointModel,
    pub iterations: Iterations,
    /// Effects of the treated cells whose outcome is observed, each with the
    /// unit of its cell.
    pub effects: Vec<(u64, usize)>,
    /// Their average.
    pub att: u64,
}

/// `e` is the estimate that a joint model gives: the effects of the treated
/// cells whose outcome is observed, and their average.  Where there is nothing
/// to average, it is undefined with weights and zero without.
pub open spec fn reports_joint<E: CellEffect<JointModel>, G: Average>(
    e: JointEstimate,
    y: &Matrix<u64>,
    d: &Matrix<u64>,
    x: Option<&Matrix<u64>>,
    weights: Option<Seq<u64>>,
    lambda_nn: u64,
    effect: E,
    average: G,
) -> bool {
    exists|cells: Seq<(usize, usize)>, v: Option<u64>|
        {
            &&& lists_cells(
                cells,
                d.rows as int,
                d.cols as int,
                |t: int, i: int| observed_treated(y, d, t, i),
            )
            &&& #[trigger] gives_effects(e.effects@, y, x, &e.model, cells, effect)
            &&& #[trigger] estimates_joint(v, e.effects@, weights, lambda_nn, average)
            &&& e.att == match v {
                Some(att) => att,
                None => if weights is Some {
                    bits::NAN
                } else {
                    bits::ZERO
                },
            }
        }
}

/// Estimate of the joint method on a panel: the fit with its joint weights, the
/// effects of its treated cells, and their average.  Adoption that is not
/// simultaneous is refused, and so is a fit that fails.
pub fn estimate_joint<
    A: Summary,
    R: PairSummary,
    T: DoubledDecay,
    U: Binary,
    C: Ternary,
    S: Binary,
    Z: Summary,
    Q: Unary,
    P: Binary,
    L: Solver,
    F: ProximalStep,
    E: CellEffect<JointModel>,
    D: Binary,
    G: Average,
>(
    y: &Matrix<u64>,
    d: &Matrix<u64>,
    x: Option<&Matrix<u64>>,
    weights: Option<&Vec<u64>>,
    lambdas: Lambdas,
    method: &JointMethod<A, R, T, U, C, S, Z, Q, P, L, F, E, D>,
    average: &G,
) -> (r: TropResult<JointEstimate>)
    requires
        same_shape(y, d),
        regressable(y, x),
        method.ready(),
        average_ready(*average),
    ensures
        !simultaneous(d) ==> r is Err && r->Err_0 == TropError::InvalidDimension,
        simultaneous(d) ==> exists|
            treated_periods: usize,
            fit: Option<(JointModel, Iterations)>,
        |
            {
                &&& treated_periods <= d.rows
                &&& adopts_together(d, d.rows - treated_periods)
                &&& treated_periods > 0 <==> any_treated(d)
                &&& #[trigger] method.fits_panel(
                    fit,
                    y,
                    d,
                    x,
                    effective_of(lambdas),
                    treated_periods,
                )
                &&& match fit {
                    Some((model, it)) => r matches Ok(e) && e.model == model && e.iterations == it
                        && reports_joint(
                        e,
                        y,
                        d,
                        x,
                        contents(weights),
                        effective_of(lambdas).nn,
                        *method.effect,
                        *average,
                    ),
                    None => r is Err && r->Err_0 == TropError::Convergence,
                }
            },
{
    let l: Lambdas = effective(lambdas);
    let treated_periods: usize = match check_simultaneous_adoption(d) {
        Ok(n) => n,
        Err(e) => {
            return Err(e);
        },
    };
    let fit: Option<(JointModel, Iterations)> = fit_panel(y, d, x, l, treated_periods, method);
    assert(method.fits_panel(fit, y, d, x, effective_of(lambdas), treated_periods));
    let (model, iterations): (JointModel, Iterations) = match fit {
        Some(fitted) => fitted,
        None => {
            return Err(TropError::Convergence);
        },
    };
    let cells: Vec<(usize, usize)> = observed_treated_cells(y, d);
    let effects: Vec<(u64, usize)> = model_effects(y, x, &model, &cells, method.effect);
    let v: Option<u64> = joint_estimate(&effects, weights, l.nn, average);
    let att: u64 = match v {
        Some(att) => att,
        None => if weights.is_some() {
            bits::NAN
        } else {
            bits::ZERO
        },
    };
    let e: JointEstimate = JointEstimate { model, iterations, effects, att };
    proof {
        assert(gives_effects(e.effects@, y, x, &e.model, cells@, *method.effect));
        assert(estimates_joint(
            v,
            e.effects@,
            contents(weights),
            effective_of(lambdas).nn,
            *average,
        ));
    }
    Ok(e)
}

/// On a replicate, the next fit starts from the model of the last one that
/// succeeded, and every fit contributes its own effect.
pub proof fn law_replicate_fits_start_from_the_last_success(
    trials: Seq<CellTrial>,
    trial: CellTrial,
)
    ensures
        last_model(Seq::<CellTrial>::empty()) is None,
        trial.outcome is None ==> last_model(trials.push(trial)) == last_model(trials),
        trial.outcome matches Some((model, effect)) ==> last_model(trials.push(trial)) == Some(
            model,
        ),
        trial.outcome is None ==> trial_effects(trials.push(trial)) == trial_effects(trials).push(
            None,
        ),
        trial.outcome matches Some((model, effect)) ==> trial_effects(trials.push(trial))
            == trial_effects(trials).push(Some(effect)),
{
    assert(trials.push(trial).drop_last() =~= trials);
    let effect = match trial.outcome {
        Some((model, effect)) => Some(effect),
        None => None,
    };
    assert(trial_effects(trials.push(trial)) =~= trial_effects(trials).push(effect));
}

/// The treated cells of a replicate are estimated one after the other, without a
/// gap.
pub proof fn law_replicate_cells_are_estimated_in_turn<
    R: PairSummary,
    T: TimeDecay,
    U: Binary,
    P: Binary,
    B: Binary,
    Z: Summary,
    O: Dot,
    C: WeightedMean,
    Q: CovariateFit,
    F: TwostepProximal,
    E: CellEffect<TwostepModel>,
    S: Binary,
>(
    panel: &TwostepPanel,
    cells: Seq<(usize, usize)>,
    lambdas: Lambdas,
    method: &TwostepMethod<R, T, U, P, B, Z, O, C, Q, F, E, S>,
    trials: Seq<CellTrial>,
    k: int,
)
    requires
        fitted_in_turn(panel, cells, lambdas, method, trials),
        0 <= k < trials.len(),
    ensures
        trials.len() <= cells.len(),
        trials[k].start == last_model(trials.take(k)),
        method.estimates(trials[k].outcome, panel, lambdas, cells[k], trials[k].start),
{
    assert(trials[k] == trials[k]);
}

/// The average of some effects is taken over all of them without weights, and over
/// all that carry weight with weights; there is none exactly where these are none.
pub proof fn law_average_runs_over_every_effect<A: Average>(
    effects: &Vec<(u64, usize)>,
    weights: Option<&Vec<u64>>,
    average: &A,
    r: Option<u64>,
    terms: Vec<(u64, u64)>,
)
    requires
        call_ensures(average_effects::<A>, (effects, weights, average), r),
        weights matches Some(w) ==> call_ensures(
            crate::inference::weighted_effects,
            (effects, w),
            terms,
        ),
    ensures
        weights is None ==> (r is None <==> effects@.len() == 0),
        weights is Some ==> (r is None <==> terms@.len() == 0),
        weights is None && effects@.len() > 0 ==> exists|values: Vec<u64>|
            {
                &&& values@.len() == effects@.len()
                &&& forall|k: int|
                    0 <= k < effects@.len() ==> #[trigger] values@[k] == effects@[k].0
                &&& #[trigger] call_ensures(*average, (&Aggregation::Mean(values),), r->0)
            },
        weights is Some && terms@.len() > 0 ==> exists|kept: Vec<(u64, u64)>|
            {
                &&& kept@ == terms@
                &&& #[trigger] call_ensures(*average, (&Aggregation::Weighted(kept),), r->0)
            },
{
    let aggregation = choose|aggregation: Aggregation| #[trigger]
        aggregation.aggregates(effects@, contents(weights)) && match r {
            Some(v) => !(aggregation is Undefined) && call_ensures(*average, (&aggregation,), v),
            None => aggregation is Undefined,
        };
    match aggregation {
        Aggregation::Mean(values) => {
            assert(call_ensures(*average, (&Aggregation::Mean(values),), r->0));
        },
        Aggregation::Weighted(kept) => {
            assert(call_ensures(*average, (&Aggregation::Weighted(kept),), r->0));
        },
        Aggregation::Undefined => {},
    }
}

/// Replicate `b` of a run consists of the units that a sample with the base seed
/// plus `b`, modulo `2^64`, draws, and these bring their own weights.
pub proof fn law_replicate_units_and_weights(
    c: &UnitClassification,
    seed: u64,
    b: usize,
    own: u64,
    units: Vec<usize>,
    weights: &Vec<u64>,
    drawn: Vec<u64>,
)
    requires
        own == (seed + b) % 0x1_0000_0000_0000_0000,
        call_ensures(crate::bootstrap::stratified_sample, (c, own), units),
        call_ensures(resample_weights, (weights, &units), drawn),
    ensures
        replicate_units(c, seed, b) == units@,
        sample_weights(Some(weights), units@) == Some(drawn@),
        sample_weights(None, units@) is None,
{
    assert(sample_weights(Some(weights), units@)->0 =~= drawn@);
}

/// The estimate on a replicate is the average of the finite effects of all of its
/// treated cells, under the weights of the units drawn.
pub proof fn law_replicate_estimates_every_treated_cell<
    R: PairSummary,
    T: TimeDecay,
    U: Binary,
    P: Binary,
    B: Binary,
    Z: Summary,
    O: Dot,
    C: WeightedMean,
    Q: CovariateFit,
    F: TwostepProximal,
    E: CellEffect<TwostepModel>,
    S: Binary,
    W: Average,
>(
    r: Option<u64>,
    replicate: TwostepReplicate,
    time_dist: &Matrix<i64>,
    weights: Option<&Vec<u64>>,
    lambdas: Lambdas,
    method: &TwostepMethod<R, T, U, P, B, Z, O, C, Q, F, E, S>,
    average: W,
)
    requires
        estimates_twostep(r, replicate, time_dist, weights, lambdas, method, average),
    ensures
        exists|cache: UnitDistanceCache, trials: Seq<CellTrial>|
            {
                &&& cache.caches(&replicate.y, &replicate.d)
                &&& #[trigger] fitted_in_turn(
                    &sample_panel(&replicate, time_dist, &cache),
                    replicate.treated@,
                    lambdas,
                    method,
                    trials,
                )
                &&& trials.len() == replicate.treated@.len()
                &&& averages(
                    r,
                    finite_effects_of(replicate.treated@, trial_effects(trials)),
                    sample_weights(weights, replicate.units@),
                    average,
                )
            },
{
}

/// The panel of a replicate holds the tables of its sample.
pub proof fn law_sample_panel(
    replicate: &TwostepReplicate,
    time_dist: &Matrix<i64>,
    cache: &UnitDistanceCache,
)
    ensures
        ({
            let panel = sample_panel(replicate, time_dist, cache);
            &&& *panel.y == replicate.y
            &&& *panel.d == replicate.d
            &&& *panel.control_mask == replicate.control_mask
            &&& *panel.time_dist == *time_dist
            &&& *panel.cache == *cache
            &&& panel.x is Some <==> replicate.x is Some
            &&& panel.x matches Some(m) ==> replicate.x == Some(*m)
        }),
{
}

/// A replicate is estimated on exactly where its sample can be: where the units
/// drawn make up a replicate, the estimate is that of such a one.
pub proof fn law_replicates_are_estimated<
    R: PairSummary,
    T: TimeDecay,
    U: Binary,
    P: Binary,
    B: Binary,
    Z: Summary,
    O: Dot,
    C: WeightedMean,
    Q: CovariateFit,
    F: TwostepProximal,
    E: CellEffect<TwostepModel>,
    S: Binary,
    W: Average,
>(
    r: Option<u64>,
    y: &Matrix<u64>,
    d: &Matrix<u64>,
    control_mask: &Matrix<u8>,
    x: Option<&Matrix<u64>>,
    time_dist: &Matrix<i64>,
    weights: Option<&Vec<u64>>,
    c: &UnitClassification,
    lambdas: Lambdas,
    seed: u64,
    b: usize,
    method: &TwostepMethod<R, T, U, P, B, Z, O, C, Q, F, E, S>,
    average: W,
    replicate: Option<TwostepReplicate>,
)
    requires
        gives_twostep(
            r,
            y,
            d,
            control_mask,
            x,
            time_dist,
            weights,
            c,
            lambdas,
            seed,
            b,
            method,
            average,
        ),
        call_ensures(
            crate::bootstrap::twostep_replicate,
            (y, d, control_mask, x, c, seed, b),
            replicate,
        ),
    ensures
        replicate is None ==> r is None,
        replicate matches Some(s) ==> exists|sample: TwostepReplicate|
            {
                &&& #[trigger] sample.replicates(y, d, control_mask, x, s.units@)
                &&& estimates_twostep(
                    r,
                    sample,
                    time_dist,
                    weights,
                    lambdas,
                    method,
                    average,
                )
            },
{
}

/// Every one of some cells has its own effect under a model, with its unit.
pub proof fn law_every_cell_has_its_effect<M, E: CellEffect<M>>(
    y: &Matrix<u64>,
    x: Option<&Matrix<u64>>,
    model: &M,
    cells: &Vec<(usize, usize)>,
    effect: &E,
    r: Vec<(u64, usize)>,
    k: int,
)
    requires
        call_ensures(model_effects::<M, E>, (y, x, model, cells, effect), r),
        0 <= k < cells@.len(),
    ensures
        r@.len() == cells@.len(),
        r@[k].1 == cells@[k].1,
        call_ensures(*effect, (y, x, model, cells@[k]), r@[k].0),
{
}

/// A joint estimate is the average of the effects; where there is none, it is zero
/// exactly without weights and under a penalty below `1e10`.
pub proof fn law_joint_estimate_is_an_average<W: Average>(
    effects: &Vec<(u64, usize)>,
    weights: Option<&Vec<u64>>,
    lambda_nn: u64,
    average: &W,
    r: Option<u64>,
)
    requires
        call_ensures(joint_estimate::<W>, (effects, weights, lambda_nn, average), r),
    ensures
        exists|v: Option<u64>|
            {
                &&& #[trigger] averages(v, effects@, contents(weights), *average)
                &&& v is Some ==> r == v
                &&& v is None && (weights is Some || bits::le(0x4202_A05F_2000_0000, lambda_nn))
                    ==> r is None
                &&& v is None && weights is None && !bits::le(0x4202_A05F_2000_0000, lambda_nn)
                    ==> r == Some(bits::ZERO)
            },
{
}

/// Effects are collected cell by cell: one more cell adds its effect, with its
/// unit, exactly where its fit succeeded, whatever precedes it.
pub proof fn law_every_successful_effect_is_kept(
    cells: Seq<(usize, usize)>,
    effects: Seq<Option<u64>>,
    cell: (usize, usize),
    effect: Option<u64>,
)
    requires
        cells.len() == effects.len(),
    ensures
        successful_effects_of(Seq::<(usize, usize)>::empty(), Seq::<Option<u64>>::empty()).len()
            == 0,
        effect is None ==> successful_effects_of(cells.push(cell), effects.push(effect))
            == successful_effects_of(cells, effects),
        effect matches Some(tau) ==> successful_effects_of(
            cells.push(cell),
            effects.push(effect),
        ) == successful_effects_of(cells, effects).push((tau, cell.1)),
{
    assert(cells.push(cell).drop_last() =~= cells);
    assert(effects.push(effect).drop_last() =~= effects);
}

/// How the fit of each cell went is taken over from it.
pub proof fn law_cell_fits(fits: Seq<Option<(TwostepModel, Iterations)>>, k: int)
    requires
        0 <= k < fits.len(),
    ensures
        cell_fits(fits).len() == fits.len(),
        fits[k] is None <==> cell_fits(fits)[k] is None,
        fits[k] matches Some((m, it)) ==> cell_fits(fits)[k]->0.n_iters == it.done
            && cell_fits(fits)[k]->0.converged == it.converged,
{
}

/// Every one of some cells is fitted, each from zero and with nothing left out, and
/// has its own effect where its fit succeeded.
pub proof fn law_every_cell_is_fitted<
    R: PairSummary,
    T: TimeDecay,
    U: Binary,
    P: Binary,
    B: Binary,
    Z: Summary,
    O: Dot,
    C: WeightedMean,
    Q: CovariateFit,
    F: TwostepProximal,
    E: CellEffect<TwostepModel>,
    S: Binary,
>(
    fits: Seq<Option<(TwostepModel, Iterations)>>,
    panel: &TwostepPanel,
    cells: Seq<(usize, usize)>,
    lambdas: Lambdas,
    method: &TwostepMethod<R, T, U, P, B, Z, O, C, Q, F, E, S>,
    effects: Seq<Option<u64>>,
    k: int,
)
    requires
        fits_cells(fits, panel, cells, lambdas, method),
        gives_cell_effects(effects, panel.y, panel.x, fits, cells, *method.effect),
        0 <= k < cells.len(),
    ensures
        fits.len() == cells.len(),
        effects.len() == cells.len(),
        method.fits(fits[k], panel, lambdas, cells[k], None, None),
        fits[k] is None ==> effects[k] is None,
        fits[k] matches Some((model, it)) ==> (effects[k] matches Some(tau) && call_ensures(
            *method.effect,
            (panel.y, panel.x, &model, cells[k]),
            tau,
        )),
{
    assert(fits[k] == fits[k]);
    assert(effects[k] == effects[k]);
}

/// An estimate reports the effects of all cells whose fit succeeded and describes
/// all fits; it is refused for want of treated cells exactly where there is none.
pub proof fn law_estimate_reports_every_cell<E: CellEffect<TwostepModel>, W: Average>(
    r: TropResult<TwostepEstimate>,
    y: &Matrix<u64>,
    x: Option<&Matrix<u64>>,
    cells: Seq<(usize, usize)>,
    fits: Seq<Option<(TwostepModel, Iterations)>>,
    weights: Option<Seq<u64>>,
    effect: E,
    average: W,
)
    requires
        concludes(r, y, x, cells, fits, weights, effect, average),
        cells.len() == fits.len(),
    ensures
        r is Err && r->Err_0 == TropError::NoTreated <==> cells.len() == 0,
        r is Err ==> r->Err_0 == TropError::NoTreated || r->Err_0 == TropError::Convergence,
        r matches Ok(e) ==> {
            &&& e.summary.n_successful == e.effects@.len()
            &&& e.summary.converged_by_obs@.len() == cells.len()
            &&& e.summary.n_iters_by_obs@.len() == cells.len()
            &&& averages(Some(e.att), e.effects@, weights, average)
            &&& (forall|k: int| 0 <= k < fits.len() ==> (#[trigger] fits[k]) is Some)
                ==> e.effects@.len() == cells.len()
        },
        (forall|k: int| 0 <= k < fits.len() ==> (#[trigger] fits[k]) is None) ==> r is Err,
{
    if cells.len() > 0 {
        lemma_none_succeeds(cell_fits(fits));
        if successful_of(cell_fits(fits)) > 0 {
            let (effects, att) = choose|effects: Seq<Option<u64>>, att: Option<u64>|
                {
                    &&& #[trigger] gives_cell_effects(effects, y, x, fits, cells, effect)
                    &&& #[trigger] averages(
                        att,
                        successful_effects_of(cells, effects),
                        weights,
                        average,
                    )
                    &&& match att {
                        Some(v) => r matches Ok(e) && e.effects@ == successful_effects_of(
                            cells,
                            effects,
                        ) && e.att == v && e.summary.summarizes(cell_fits(fits)),
                        None => r is Err && r->Err_0 == TropError::Convergence,
                    }
                };
            assert forall|k: int| 0 <= k < cells.len() implies (#[trigger] effects[k]) is Some
                == cell_fits(fits)[k] is Some by {}
            lemma_successes_match(cells, effects, cell_fits(fits), cells.len() as int);
            assert(cells.take(cells.len() as int) =~= cells);
            assert(effects.take(cells.len() as int) =~= effects);
            assert(cell_fits(fits).take(cells.len() as int) =~= cell_fits(fits));
        }
    }
}

proof fn lemma_successes_match(
    cells: Seq<(usize, usize)>,
    effects: Seq<Option<u64>>,
    fits: Seq<Option<CellFit>>,
    n: int,
)
    requires
        0 <= n <= cells.len(),
        cells.len() == effects.len(),
        cells.len() == fits.len(),
        forall|k: int| 0 <= k < cells.len() ==> (#[trigger] effects[k]) is Some == fits[k] is Some,
    ensures
        successful_effects_of(cells.take(n), effects.take(n)).len() == successful_of(fits.take(n)),
        (forall|k: int| 0 <= k < n ==> (#[trigger] fits[k]) is Some) ==> successful_of(
            fits.take(n),
        ) == n,
    decreases n,
{
    if n > 0 {
        lemma_successes_match(cells, effects, fits, n - 1);
        assert(cells.take(n).drop_last() =~= cells.take(n - 1));
        assert(effects.take(n).drop_last() =~= effects.take(n - 1));
        assert(fits.take(n).drop_last() =~= fits.take(n - 1));
        assert(effects[n - 1] is Some == fits[n - 1] is Some);
    }
}

proof fn lemma_none_succeeds(fits: Seq<Option<CellFit>>)
    ensures
        successful_of(fits) >= 0,
        (forall|k: int| 0 <= k < fits.len() ==> (#[trigger] fits[k]) is None) ==> successful_of(
            fits,
        ) == 0,
    decreases fits.len(),
{
    if fits.len() > 0 {
        let init = fits.drop_last();
        lemma_none_succeeds(init);
        if forall|k: int| 0 <= k < fits.len() ==> (#[trigger] fits[k]) is None {
            assert forall|k: int| 0 <= k < init.len() implies (#[trigger] init[k]) is None by {
                assert(init[k] == fits[k]);
            }
            assert(fits[fits.len() - 1] is None);
        }
    }
}

/// The joint estimate reports the effect of every treated cell with a finite
/// outcome, and their average; where there is nothing to average, it is undefined
/// with weights and zero without.
pub proof fn law_joint_estimate_reports_every_cell<E: CellEffect<JointModel>, W: Average>(
    e: JointEstimate,
    y: &Matrix<u64>,
    d: &Matrix<u64>,
    x: Option<&Matrix<u64>>,
    weights: Option<Seq<u64>>,
    lambda_nn: u64,
    effect: E,
    average: W,
    cells: Vec<(usize, usize)>,
)
    requires
        reports_joint(e, y, d, x, weights, lambda_nn, effect, average),
        call_ensures(observed_treated_cells, (y, d), cells),
    ensures
        e.effects@.len() == cells@.len(),
        forall|k: int|
            0 <= k < cells@.len() ==> (#[trigger] e.effects@[k]).1 == cells@[k].1 && call_ensures(
                effect,
                (y, x, &e.model, cells@[k]),
                e.effects@[k].0,
            ),
        exists|v: Option<u64>|
            {
                &&& #[trigger] estimates_joint(v, e.effects@, weights, lambda_nn, average)
                &&& v is Some ==> v == Some(e.att)
                &&& v is None && weights is Some ==> e.att == bits::NAN
                &&& v is None && weights is None ==> e.att == bits::ZERO
            },
{
    let (own, v) = choose|own: Seq<(usize, usize)>, v: Option<u64>|
        {
            &&& lists_cells(
                own,
                d.rows as int,
                d.cols as int,
                |t: int, i: int| observed_treated(y, d, t, i),
            )
            &&& #[trigger] gives_effects(e.effects@, y, x, &e.model, own, effect)
            &&& #[trigger] estimates_joint(v, e.effects@, weights, lambda_nn, average)
            &&& e.att == match v {
                Some(att) => att,
                None => if weights is Some {
                    bits::NAN
                } else {
                    bits::ZERO
                },
            }
        };
    crate::matrix::law_listing_unique(
        own,
        cells@,
        d.rows as int,
        d.cols as int,
        |t: int, i: int| observed_treated(y, d, t, i),
    );
}

/// The joint estimate on a replicate is that of the fit of its sample, with the
/// treated periods of the panel: over the effects of all of its treated cells, under
/// the weights of the units drawn, and nothing where the fit fails.
pub proof fn law_joint_replicates_are_estimated<
    A: Summary,
    R: PairSummary,
    T: DoubledDecay,
    U: Binary,
    C: Ternary,
    S: Binary,
    Z: Summary,
    Q: Unary,
    P: Binary,
    L: Solver,
    F: ProximalStep,
    E: CellEffect<JointModel>,
    D: Binary,
    W: Average,
>(
    r: Option<u64>,
    y: &Matrix<u64>,
    d: &Matrix<u64>,
    x: Option<&Matrix<u64>>,
    weights: Option<&Vec<u64>>,
    c: &UnitClassification,
    lambdas: Lambdas,
    treated_periods: usize,
    seed: u64,
    b: usize,
    method: &JointMethod<A, R, T, U, C, S, Z, Q, P, L, F, E, D>,
    average: W,
    units: Vec<usize>,
)
    requires
        gives_joint(
            r,
            y,
            d,
            x,
            weights,
            c,
            lambdas,
            treated_periods,
            seed,
            b,
            method,
            average,
        ),
        call_ensures(
            crate::bootstrap::stratified_sample,
            (c, ((seed + b) % 0x1_0000_0000_0000_0000) as u64),
            units,
        ),
    ensures
        exists|replicate: JointReplicate, fit: Option<(JointModel, Iterations)>|
            {
                &&& #[trigger] replicate.replicates(y, d, x, units@)
                &&& #[trigger] method.fits_panel(
                    fit,
                    &replicate.y,
                    &replicate.d,
                    sample_covariates(&replicate),
                    lambdas,
                    treated_periods,
                )
                &&& fit is None ==> r is None
                &&& fit matches Some((model, it)) ==> exists|effects: Seq<(u64, usize)>|
                    {
                        &&& effects.len() == replicate.treated@.len()
                        &&& #[trigger] gives_effects(
                            effects,
                            &replicate.y,
                            sample_covariates(&replicate),
                            &model,
                            replicate.treated@,
                            *method.effect,
                        )
                        &&& estimates_joint(
                            r,
                            effects,
                            sample_weights(weights, replicate.units@),
                            lambdas.nn,
                            average,
                        )
                    }
            },
{
}

/// The twostep estimate of a panel fits every treated cell, at the parameters used in
/// computation, and reports how each of the fits went; where all of them succeed it
/// reports an effect for every treated cell.
pub proof fn law_twostep_estimate<
    R: PairSummary,
    T: TimeDecay,
    U: Binary,
    P: Binary,
    B: Binary,
    Z: Summary,
    O: Dot,
    C: WeightedMean,
    Q: CovariateFit,
    F: TwostepProximal,
    E: CellEffect<TwostepModel>,
    S: Binary,
    W: Average,
>(
    panel: &TwostepPanel,
    weights: Option<&Vec<u64>>,
    lambdas: Lambdas,
    method: &TwostepMethod<R, T, U, P, B, Z, O, C, Q, F, E, S>,
    average: &W,
    r: TropResult<(TwostepEstimate, Vec<Option<(TwostepModel, Iterations)>>)>,
    cells: Vec<(usize, usize)>,
    l: Lambdas,
)
    requires
        call_ensures(
            estimate_twostep::<R, T, U, P, B, Z, O, C, Q, F, E, S, W>,
            (panel, weights, lambdas, method, average),
            r,
        ),
        call_ensures(treated_cells, (panel.d,), cells),
        call_ensures(effective, (lambdas,), l),
    ensures
        r is Err && r->Err_0 == TropError::NoTreated <==> cells@.len() == 0,
        r matches Ok((e, fits)) ==> {
            &&& fits_cells(fits@, panel, cells@, l, method)
            &&& e.summary.n_successful == e.effects@.len()
            &&& e.summary.converged_by_obs@.len() == cells@.len()
            &&& averages(Some(e.att), e.effects@, contents(weights), *average)
            &&& (forall|k: int| 0 <= k < fits@.len() ==> (#[trigger] fits@[k]) is Some)
                ==> e.effects@.len() == cells@.len()
        },
{
    let (own, fits) = choose|
        own: Seq<(usize, usize)>,
        fits: Vec<Option<(TwostepModel, Iterations)>>,
    |
        {
            &&& lists_cells(
                own,
                panel.d.rows as int,
                panel.d.cols as int,
                |t: int, i: int| treated(panel.d, t, i),
            )
            &&& #[trigger] fits_cells(fits@, panel, own, effective_of(lambdas), method)
            &&& concludes(
                match r {
                    Ok(e) => Ok(e.0),
                    Err(e) => Err(e),
                },
                panel.y,
                panel.x,
                own,
                fits@,
                contents(weights),
                *method.effect,
                *average,
            )
            &&& r matches Ok(e) ==> e.1 == fits
        };
    crate::matrix::law_listing_unique(
        own,
        cells@,
        panel.d.rows as int,
        panel.d.cols as int,
        |t: int, i: int| treated(panel.d, t, i),
    );
    let concluded: TropResult<TwostepEstimate> = match r {
        Ok(e) => Ok(e.0),
        Err(e) => Err(e),
    };
    law_estimate_reports_every_cell(
        concluded,
        panel.y,
        panel.x,
        own,
        fits@,
        contents(weights),
        *method.effect,
        *average,
    );
}

/// The joint estimate of a panel is refused exactly where adoption is not
/// simultaneous or the fit fails; otherwise it is that of the fit with the treated
/// periods of the panel, at the parameters used in computation, and has an effect for
/// every treated cell with a finite outcome.
pub proof fn law_joint_estimate<
    A: Summary,
    R: PairSummary,
    T: DoubledDecay,
    U: Binary,
    C: Ternary,
    S: Binary,
    Z: Summary,
    Q: Unary,
    P: Binary,
    L: Solver,
    F: ProximalStep,
    E: CellEffect<JointModel>,
    D: Binary,
    W: Average,
>(
    y: &Matrix<u64>,
    d: &Matrix<u64>,
    x: Option<&Matrix<u64>>,
    weights: Option<&Vec<u64>>,
    lambdas: Lambdas,
    method: &JointMethod<A, R, T, U, C, S, Z, Q, P, L, F, E, D>,
    average: &W,
    r: TropResult<JointEstimate>,
    adopted: TropResult<usize>,
    cells: Vec<(usize, usize)>,
    l: Lambdas,
)
    requires
        call_ensures(
            estimate_joint::<A, R, T, U, C, S, Z, Q, P, L, F, E, D, W>,
            (y, d, x, weights, lambdas, method, average),
            r,
        ),
        call_ensures(check_simultaneous_adoption, (d,), adopted),
        call_ensures(observed_treated_cells, (y, d), cells),
        call_ensures(effective, (lambdas,), l),
    ensures
        adopted is Err <==> r is Err && r->Err_0 == TropError::InvalidDimension,
        adopted is Ok && r is Err ==> r->Err_0 == TropError::Convergence,
        r matches Ok(e) ==> {
            &&& e.effects@.len() == cells@.len()
            &&& forall|k: int|
                0 <= k < cells@.len() ==> (#[trigger] e.effects@[k]).1 == cells@[k].1
                    && call_ensures(
                    *method.effect,
                    (y, x, &e.model, cells@[k]),
                    e.effects@[k].0,
                )
            &&& exists|n: usize| #[trigger]
                method.fits_panel(Some((e.model, e.iterations)), y, d, x, l, n) && n <= d.rows
                    && adopts_together(d, d.rows - n)
        },
{
    if simultaneous(d) {
        let (n, fit) = choose|n: usize, fit: Option<(JointModel, Iterations)>|
            {
                &&& n <= d.rows
                &&& adopts_together(d, d.rows - n)
                &&& n > 0 <==> any_treated(d)
                &&& #[trigger] method.fits_panel(fit, y, d, x, effective_of(lambdas), n)
                &&& match fit {
                    Some((model, it)) => r matches Ok(e) && e.model == model && e.iterations == it
                        && reports_joint(
                        e,
                        y,
                        d,
                        x,
                        contents(weights),
                        effective_of(lambdas).nn,
                        *method.effect,
                        *average,
                    ),
                    None => r is Err && r->Err_0 == TropError::Convergence,
                }
            };
        if let Ok(e) = r {
            law_joint_estimate_reports_every_cell(
                e,
                y,
                d,
                x,
                contents(weights),
                effective_of(lambdas).nn,
                *method.effect,
                *average,
                cells,
            );
            assert(method.fits_panel(Some((e.model, e.iterations)), y, d, x, l, n));
        }
    }
}

/// The covariates of a replicate are those of its sample.
pub proof fn law_sample_covariates(replicate: &JointReplicate)
    ensures
        sample_covariates(replicate) is Some <==> replicate.x is Some,
        sample_covariates(replicate) matches Some(m) ==> replicate.x == Some(*m),
{
}

} // verus!

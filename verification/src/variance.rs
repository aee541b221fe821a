//! Bootstrap runs, given the arithmetic.
//!
//! A run draws its replicates, estimates on each of them and summarizes what
//! came of it.  Every replicate has its own seed, so that its estimate depends
//! on no other replicate.
use crate::alternating::{
    CovariateFit, Dot, TwostepModel, TwostepProximal, WeightedMean,
};
use crate::arithmetic::{
    average_ready, summary_ready, Average, Binary, Blend, CellEffect, DoubledDecay, PairSummary,
    Positions, Solver, Spread, Summary, Ternary, TimeDecay, Unary,
};
use crate::bits;
use crate::bootstrap::{
    classify_units, covariates_fit, in_panel, usable, JointReplicate, UnitClassification,
};
use crate::crossval::cells_in;
use crate::error::{TropError, TropResult};
use crate::estimation::Iterations;
use crate::inference::{
    finite_effects, finite_effects_of, kept_estimates_of, law_positive_weights_keep_all,
    summarize, weighted_effects_of, Aggregation, BootstrapResult,
};
use crate::joint::{fit_panel, JointMethod, JointModel, ProximalStep};
use crate::matrix::{lists_cells, Matrix};
use crate::model::regressable;
use crate::panel::{
    any_treated, ever_treated, first_treated_period, never_treated, observed_treated,
    observed_treated_cells, same_shape, treated, treated_cells, treated_row,
};
use crate::rao_wu::{
    acts, gives_survey, law_kept_strata_keep_weights, plan_resampling, redraws_possible,
    stratum_actions, survey_outcome,
};
use crate::replication::{
    averages, estimates_joint, gives_effects, gives_joint, gives_twostep, joint_outcome,
    law_one_average, one_average, pairs_periods, replicate_units, sample_covariates,
    sample_weights, twostep_outcome,
};
use crate::survey::{
    describes_design, fpc_valid, groups_design, no_singletons, psus_of, sizes_of, Correction,
    LonelyPsuStrategy, StratumAction, StratumInfo, UnitScale,
};
use crate::tuning::{effective, effective_of, without_low_rank, Lambdas};
use crate::twostep::{estimate_cell, TwostepMethod, TwostepPanel};
use vstd::prelude::*;

verus! {

/// Parameters of a bootstrap run.
#[derive(Debug, Clone, Copy)]
pub struct BootstrapRun {
    /// Replicates to draw.
    pub n_bootstrap: usize,
    pub seed: u64,
    /// One for the sample variance of the estimates, zero for the population
    /// variance.
    pub ddof: u8,
    /// Nominal confidence level.
    pub level: u64,
}

/// `outcomes` are the estimates of the twostep method on the first replicates of
/// a run.
pub open spec fn twostep_replicates<
    R: PairSummary,
    T: TimeDecay,
    U: Binary,
    P: Binary,
    B: Binary,
    Z: Summary,
    O: Dot,
    C: WeightedMean,
    Q: CovariateFit,
    F: TwostepProximal,
    E: CellEffect<TwostepModel>,
    S: Binary,
    G: Average,
>(
    outcomes: Seq<Option<u64>>,
    y: &Matrix<u64>,
    d: &Matrix<u64>,
    control_mask: &Matrix<u8>,
    x: Option<&Matrix<u64>>,
    time_dist: &Matrix<i64>,
    weights: Option<&Vec<u64>>,
    classification: &UnitClassification,
    lambdas: Lambdas,
    seed: u64,
    method: &TwostepMethod<R, T, U, P, B, Z, O, C, Q, F, E, S>,
    average: G,
) -> bool {
    forall|b: int|
        0 <= b < outcomes.len() ==> gives_twostep(
            #[trigger] outcomes[b],
            y,
            d,
            control_mask,
            x,
            time_dist,
            weights,
            classification,
            lambdas,
            seed,
            b as usize,
            method,
            average,
        )
}

/// `r` is the outcome of a run of the twostep method at some parameters: the
/// summary of its estimates on the replicates.
pub open spec fn ran_twostep<
    R: PairSummary,
    T: TimeDecay,
    U: Binary,
    P: Binary,
    B: Binary,
    Z: Summary,
    O: Dot,
    C: WeightedMean,
    Q: CovariateFit,
    F: TwostepProximal,
    E: CellEffect<TwostepModel>,
    S: Binary,
    G: Average,
    V: Spread,
    N: Positions,
    X: Blend,
>(
    r: BootstrapResult,
    y: &Matrix<u64>,
    d: &Matrix<u64>,
    control_mask: &Matrix<u8>,
    x: Option<&Matrix<u64>>,
    time_dist: &Matrix<i64>,
    weights: Option<&Vec<u64>>,
    lambdas: Lambdas,
    run: BootstrapRun,
    method: &TwostepMethod<R, T, U, P, B, Z, O, C, Q, F, E, S>,
    average: G,
    spread: V,
    positions: N,
    blend: X,
) -> bool {
    exists|classification: UnitClassification, outcomes: Seq<Option<u64>>|
        {
            &&& #[trigger] classification.classifies(d)
            &&& outcomes.len() == run.n_bootstrap
            &&& twostep_replicates(
                outcomes,
                y,
                d,
                control_mask,
                x,
                time_dist,
                weights,
                &classification,
                effective_of(lambdas),
                run.seed,
                method,
                average,
            )
            &&& #[trigger] r.summarizes(outcomes, run.ddof, run.level, spread, positions, blend)
        }
}

/// A panel has a unit that is treated at some time, and one that is untreated
/// throughout.
pub open spec fn has_both_groups(d: &Matrix<u64>) -> bool {
    &&& exists|i: int| 0 <= i < d.cols && #[trigger] ever_treated(d, i)
    &&& exists|i: int| 0 <= i < d.cols && #[trigger] never_treated(d, i)
}

proof fn lemma_nothing_kept(outcomes: Seq<Option<u64>>)
    requires
        forall|b: int| 0 <= b < outcomes.len() ==> #[trigger] outcomes[b] is None,
    ensures
        kept_estimates_of(outcomes).len() == 0,
    decreases outcomes.len(),
{
    if outcomes.len() > 0 {
        let rest = outcomes.drop_last();
        assert forall|b: int| 0 <= b < rest.len() implies #[trigger] rest[b] is None by {
            assert(rest[b] == outcomes[b]);
        }
        lemma_nothing_kept(rest);
        assert(outcomes[outcomes.len() - 1] is None);
    }
}

/// Without a treated unit, or without one that is untreated throughout, a run of
/// the twostep method has no estimates.
pub proof fn law_no_estimates_without_both_groups<
    R: PairSummary,
    T: TimeDecay,
    U: Binary,
    P: Binary,
    B: Binary,
    Z: Summary,
    O: Dot,
    C: WeightedMean,
    Q: CovariateFit,
    F: TwostepProximal,
    E: CellEffect<TwostepModel>,
    S: Binary,
    G: Average,
    V: Spread,
    N: Positions,
    X: Blend,
>(
    r: BootstrapResult,
    y: &Matrix<u64>,
    d: &Matrix<u64>,
    control_mask: &Matrix<u8>,
    x: Option<&Matrix<u64>>,
    time_dist: &Matrix<i64>,
    weights: Option<&Vec<u64>>,
    lambdas: Lambdas,
    run: BootstrapRun,
    method: &TwostepMethod<R, T, U, P, B, Z, O, C, Q, F, E, S>,
    average: G,
    spread: V,
    positions: N,
    blend: X,
)
    requires
        ran_twostep(
            r,
            y,
            d,
            control_mask,
            x,
            time_dist,
            weights,
            lambdas,
            run,
            method,
            average,
            spread,
            positions,
            blend,
        ),
        !has_both_groups(d),
    ensures
        r.estimates@.len() == 0,
{
    let (classification, outcomes) = choose|
        classification: UnitClassification,
        outcomes: Seq<Option<u64>>,
    |
        {
            &&& #[trigger] classification.classifies(d)
            &&& outcomes.len() == run.n_bootstrap
            &&& twostep_replicates(
                outcomes,
                y,
                d,
                control_mask,
                x,
                time_dist,
                weights,
                &classification,
                effective_of(lambdas),
                run.seed,
                method,
                average,
            )
            &&& #[trigger] r.summarizes(outcomes, run.ddof, run.level, spread, positions, blend)
        };
    assert forall|b: int| 0 <= b < outcomes.len() implies #[trigger] outcomes[b] is None by {
        let units = replicate_units(&classification, run.seed, b as usize);
        assert(gives_twostep(
            outcomes[b],
            y,
            d,
            control_mask,
            x,
            time_dist,
            weights,
            &classification,
            effective_of(lambdas),
            run.seed,
            b as usize,
            method,
            average,
        ));
        if usable(d, units) {
            let j = choose|j: int|
                0 <= j < units.len() && ever_treated(d, #[trigger] units[j] as int);
            let k = choose|k: int|
                0 <= k < units.len() && never_treated(d, #[trigger] units[k] as int);
            assert(units[j] < d.cols && units[k] < d.cols);
            assert(has_both_groups(d));
        }
    }
    lemma_nothing_kept(outcomes);
}

fn run_twostep<
    R: PairSummary,
    T: TimeDecay,
    U: Binary,
    P: Binary,
    B: Binary,
    Z: Summary,
    O: Dot,
    C: WeightedMean,
    Q: CovariateFit,
    F: TwostepProximal,
    E: CellEffect<TwostepModel>,
    S: Binary,
    G: Average,
    V: Spread,
    N: Positions,
    X: Blend,
>(
    y: &Matrix<u64>,
    d: &Matrix<u64>,
    control_mask: &Matrix<u8>,
    x: Option<&Matrix<u64>>,
    time_dist: &Matrix<i64>,
    weights: Option<&Vec<u64>>,
    lambdas: Lambdas,
    run: BootstrapRun,
    method: &TwostepMethod<R, T, U, P, B, Z, O, C, Q, F, E, S>,
    average: &G,
    spread: &V,
    positions: &N,
    blend: &X,
) -> (r: BootstrapResult)
    requires
        same_shape(y, d),
        same_shape(y, control_mask),
        covariates_fit(y, x),
        pairs_periods(time_dist, y),
        method.ready(),
        average_ready(*average),
        summary_ready(*spread, *positions, *blend),
    ensures
        ran_twostep(
            r,
            y,
            d,
            control_mask,
            x,
            time_dist,
            weights,
            lambdas,
            run,
            method,
            *average,
            *spread,
            *positions,
            *blend,
        ),
        !has_both_groups(d) ==> r.estimates@.len() == 0,
{
    let l: Lambdas = effective(lambdas);
    let classification: UnitClassification = classify_units(d);
    let mut outcomes: Vec<Option<u64>> = Vec::new();
    let mut b: usize = 0;
    while b < run.n_bootstrap
        invariant
            same_shape(y, d),
            same_shape(y, control_mask),
            covariates_fit(y, x),
            classification.classifies(d),
            pairs_periods(time_dist, y),
            method.ready(),
            average_ready(*average),
            b <= run.n_bootstrap,
            b == outcomes@.len(),
            twostep_replicates(
                outcomes@,
                y,
                d,
                control_mask,
                x,
                time_dist,
                weights,
                &classification,
                l,
                run.seed,
                method,
                *average,
            ),
        decreases run.n_bootstrap - b,
    {
        let outcome: Option<u64> = twostep_outcome(
            y,
            d,
            control_mask,
            x,
            time_dist,
            weights,
            &classification,
            l,
            run.seed,
            b,
            method,
            average,
        );
        outcomes.push(outcome);
        b = b + 1;
    }
    let r: BootstrapResult = summarize(
        &outcomes,
        run.ddof,
        run.level,
        spread,
        positions,
        blend,
    );
    proof {
        assert(classification.classifies(d));
        assert(r.summarizes(outcomes@, run.ddof, run.level, *spread, *positions, *blend));
        if !has_both_groups(d) {
            law_no_estimates_without_both_groups(
                r,
                y,
                d,
                control_mask,
                x,
                time_dist,
                weights,
                lambdas,
                run,
                method,
                *average,
                *spread,
                *positions,
                *blend,
            );
        }
    }
    r
}

/// Bootstrap of the twostep method, every effect counting alike.
pub fn bootstrap_trop_variance_full<
    R: PairSummary,
    T: TimeDecay,
    U: Binary,
    P: Binary,
    B: Binary,
    Z: Summary,
    O: Dot,
    C: WeightedMean,
    Q: CovariateFit,
    F: TwostepProximal,
    E: CellEffect<TwostepModel>,
    S: Binary,
    G: Average,
    V: Spread,
    N: Positions,
    X: Blend,
>(
    y: &Matrix<u64>,
    d: &Matrix<u64>,
    control_mask: &Matrix<u8>,
    x: Option<&Matrix<u64>>,
    time_dist: &Matrix<i64>,
    lambdas: Lambdas,
    run: BootstrapRun,
    method: &TwostepMethod<R, T, U, P, B, Z, O, C, Q, F, E, S>,
    average: &G,
    spread: &V,
    positions: &N,
    blend: &X,
) -> (r: BootstrapResult)
    requires
        same_shape(y, d),
        same_shape(y, control_mask),
        covariates_fit(y, x),
        pairs_periods(time_dist, y),
        method.ready(),
        average_ready(*average),
        summary_ready(*spread, *positions, *blend),
    ensures
        ran_twostep(
            r,
            y,
            d,
            control_mask,
            x,
            time_dist,
            None,
            lambdas,
            run,
            method,
            *average,
            *spread,
            *positions,
            *blend,
        ),
        !has_both_groups(d) ==> r.estimates@.len() == 0,
{
    run_twostep(
        y,
        d,
        control_mask,
        x,
        time_dist,
        None,
        lambdas,
        run,
        method,
        average,
        spread,
        positions,
        blend,
    )
}

/// Bootstrap of the twostep method, an effect counting by the weight of its
/// unit.
pub fn bootstrap_trop_variance_full_weighted<
    R: PairSummary,
    T: TimeDecay,
    U: Binary,
    P: Binary,
    B: Binary,
    Z: Summary,
    O: Dot,
    C: WeightedMean,
    Q: CovariateFit,
    F: TwostepProximal,
    E: CellEffect<TwostepModel>,
    S: Binary,
    G: Average,
    V: Spread,
    N: Positions,
    X: Blend,
>(
    y: &Matrix<u64>,
    d: &Matrix<u64>,
    control_mask: &Matrix<u8>,
    x: Option<&Matrix<u64>>,
    time_dist: &Matrix<i64>,
    weights: &Vec<u64>,
    lambdas: Lambdas,
    run: BootstrapRun,
    method: &TwostepMethod<R, T, U, P, B, Z, O, C, Q, F, E, S>,
    average: &G,
    spread: &V,
    positions: &N,
    blend: &X,
) -> (r: BootstrapResult)
    requires
        same_shape(y, d),
        same_shape(y, control_mask),
        covariates_fit(y, x),
        pairs_periods(time_dist, y),
        method.ready(),
        average_ready(*average),
        summary_ready(*spread, *positions, *blend),
    ensures
        ran_twostep(
            r,
            y,
            d,
            control_mask,
            x,
            time_dist,
            Some(weights),
            lambdas,
            run,
            method,
            *average,
            *spread,
            *positions,
            *blend,
        ),
        !has_both_groups(d) ==> r.estimates@.len() == 0,
{
    run_twostep(
        y,
        d,
        control_mask,
        x,
        time_dist,
        Some(weights),
        lambdas,
        run,
        method,
        average,
        spread,
        positions,
        blend,
    )
}

/// Estimates of a bootstrap of the twostep method, and their standard error by
/// the sample variance, whatever variance the parameters ask for.
pub fn bootstrap_trop_variance<
    R: PairSummary,
    T: TimeDecay,
    U: Binary,
    P: Binary,
    B: Binary,
    Z: Summary,
    O: Dot,
    C: WeightedMean,
    Q: CovariateFit,
    F: TwostepProximal,
    E: CellEffect<TwostepModel>,
    S: Binary,
    G: Average,
    V: Spread,
    N: Positions,
    X: Blend,
>(
    y: &Matrix<u64>,
    d: &Matrix<u64>,
    control_mask: &Matrix<u8>,
    x: Option<&Matrix<u64>>,
    time_dist: &Matrix<i64>,
    lambdas: Lambdas,
    run: BootstrapRun,
    method: &TwostepMethod<R, T, U, P, B, Z, O, C, Q, F, E, S>,
    average: &G,
    spread: &V,
    positions: &N,
    blend: &X,
) -> (r: (Vec<u64>, u64))
    requires
        same_shape(y, d),
        same_shape(y, control_mask),
        covariates_fit(y, x),
        pairs_periods(time_dist, y),
        method.ready(),
        average_ready(*average),
        summary_ready(*spread, *positions, *blend),
    ensures
        exists|full: BootstrapResult|
            r == (full.estimates, full.se)
                && #[trigger] ran_twostep(
                full,
                y,
                d,
                control_mask,
                x,
                time_dist,
                None,
                lambdas,
                (BootstrapRun { ddof: 1, ..run }),
                method,
                *average,
                *spread,
                *positions,
                *blend,
            ),
        !has_both_groups(d) ==> r.0@.len() == 0,
{
    let full: BootstrapResult =
        bootstrap_trop_variance_full(
        y,
        d,
        control_mask,
        x,
        time_dist,
        lambdas,
        BootstrapRun { ddof: 1, ..run },
        method,
        average,
        spread,
        positions,
        blend,
    );
    let ghost whole = full;
    let r: (Vec<u64>, u64) = (full.estimates, full.se);
    assert(r == (whole.estimates, whole.se));
    r
}

/// Treatment is on somewhere in the last `n` periods and no earlier, from the
/// first of them on where there is one.
pub open spec fn counts_treated_periods(d: &Matrix<u64>, n: usize) -> bool {
    &&& n <= d.rows
    &&& forall|t: int| 0 <= t < d.rows - n ==> !#[trigger] treated_row(d, t)
    &&& n > 0 ==> treated_row(d, d.rows - n)
}

/// Periods from the first treated one on.
pub fn treated_period_count(d: &Matrix<u64>) -> (r: usize)
    requires
        d.wf(),
    ensures
        counts_treated_periods(d, r),
{
    let first: usize = first_treated_period(d);
    d.rows - first
}

/// `outcomes` are the estimates of the joint method on the first replicates of a
/// run.
pub open spec fn joint_replicates<
    A: Summary,
    R: PairSummary,
    T: DoubledDecay,
    U: Binary,
    C: Ternary,
    S: Binary,
    Z: Summary,
    Q: Unary,
    P: Binary,
    L: Solver,
    F: ProximalStep,
    E: CellEffect<JointModel>,
    D: Binary,
    G: Average,
>(
    outcomes: Seq<Option<u64>>,
    y: &Matrix<u64>,
    d: &Matrix<u64>,
    x: Option<&Matrix<u64>>,
    weights: Option<&Vec<u64>>,
    classification: &UnitClassification,
    lambdas: Lambdas,
    treated_periods: usize,
    seed: u64,
    method: &JointMethod<A, R, T, U, C, S, Z, Q, P, L, F, E, D>,
    average: G,
) -> bool {
    forall|b: int|
        0 <= b < outcomes.len() ==> gives_joint(
            #[trigger] outcomes[b],
            y,
            d,
            x,
            weights,
            classification,
            lambdas,
            treated_periods,
            seed,
            b as usize,
            method,
            average,
        )
}

/// `r` is the outcome of a run of the joint method at some parameters: the
/// summary of its estimates on the replicates.  The periods in which treatment
/// is on are counted on the panel, not on the replicates.
pub open spec fn ran_joint<
    A: Summary,
    R: PairSummary,
    T: DoubledDecay,
    U: Binary,
    C: Ternary,
    S: Binary,
    Z: Summary,
    Q: Unary,
    P: Binary,
    L: Solver,
    F: ProximalStep,
    E: CellEffect<JointModel>,
    D: Binary,
    G: Average,
    V: Spread,
    N: Positions,
    X: Blend,
>(
    r: BootstrapResult,
    y: &Matrix<u64>,
    d: &Matrix<u64>,
    x: Option<&Matrix<u64>>,
    weights: Option<&Vec<u64>>,
    lambdas: Lambdas,
    run: BootstrapRun,
    method: &JointMethod<A, R, T, U, C, S, Z, Q, P, L, F, E, D>,
    average: G,
    spread: V,
    positions: N,
    blend: X,
) -> bool {
    exists|classification: UnitClassification, treated_periods: usize, outcomes: Seq<Option<u64>>|
        {
            &&& #[trigger] classification.classifies(d)
            &&& #[trigger] counts_treated_periods(d, treated_periods)
            &&& outcomes.len() == run.n_bootstrap
            &&& joint_replicates(
                outcomes,
                y,
                d,
                x,
                weights,
                &classification,
                effective_of(lambdas),
                treated_periods,
                run.seed,
                method,
                average,
            )
            &&& #[trigger] r.summarizes(outcomes, run.ddof, run.level, spread, positions, blend)
        }
}

/// Without a treated cell, a run of the joint method has no estimates where the
/// effects are weighted or the low-rank component is dropped, and only zeros
/// otherwise.
pub proof fn law_joint_estimates_without_treatment<
    A: Summary,
    R: PairSummary,
    T: DoubledDecay,
    U: Binary,
    C: Ternary,
    S: Binary,
    Z: Summary,
    Q: Unary,
    P: Binary,
    L: Solver,
    F: ProximalStep,
    E: CellEffect<JointModel>,
    D: Binary,
    G: Average,
    V: Spread,
    N: Positions,
    X: Blend,
>(
    r: BootstrapResult,
    y: &Matrix<u64>,
    d: &Matrix<u64>,
    x: Option<&Matrix<u64>>,
    weights: Option<&Vec<u64>>,
    lambdas: Lambdas,
    run: BootstrapRun,
    method: &JointMethod<A, R, T, U, C, S, Z, Q, P, L, F, E, D>,
    average: G,
    spread: V,
    positions: N,
    blend: X,
)
    requires
        ran_joint(
            r,
            y,
            d,
            x,
            weights,
            lambdas,
            run,
            method,
            average,
            spread,
            positions,
            blend,
        ),
        same_shape(y, d),
        !any_treated(d),
    ensures
        weights is Some || without_low_rank(effective_of(lambdas).nn) ==> r.estimates@.len() == 0,
        forall|k: int| 0 <= k < r.estimates@.len() ==> #[trigger] r.estimates@[k] == bits::ZERO,
{
    let (classification, treated_periods, outcomes) = choose|
        classification: UnitClassification,
        treated_periods: usize,
        outcomes: Seq<Option<u64>>,
    |
        {
            &&& #[trigger] classification.classifies(d)
            &&& #[trigger] counts_treated_periods(d, treated_periods)
            &&& outcomes.len() == run.n_bootstrap
            &&& joint_replicates(
                outcomes,
                y,
                d,
                x,
                weights,
                &classification,
                effective_of(lambdas),
                treated_periods,
                run.seed,
                method,
                average,
            )
            &&& #[trigger] r.summarizes(outcomes, run.ddof, run.level, spread, positions, blend)
        };
    let l = effective_of(lambdas);
    assert forall|b: int| 0 <= b < outcomes.len() implies (#[trigger] outcomes[b] is None
        || outcomes[b] == Some(bits::ZERO)) && (weights is Some || without_low_rank(l.nn)
        ==> outcomes[b] is None) by {
        assert(gives_joint(
            outcomes[b],
            y,
            d,
            x,
            weights,
            &classification,
            l,
            treated_periods,
            run.seed,
            b as usize,
            method,
            average,
        ));
        lemma_untreated_outcome(
            outcomes[b],
            y,
            d,
            x,
            weights,
            &classification,
            l,
            treated_periods,
            run.seed,
            b as usize,
            method,
            average,
        );
    }
    if weights is Some || without_low_rank(l.nn) {
        lemma_nothing_kept(outcomes);
    }
    lemma_only_zeros_kept(outcomes);
}

proof fn lemma_only_zeros_kept(outcomes: Seq<Option<u64>>)
    requires
        forall|b: int|
            0 <= b < outcomes.len() ==> (#[trigger] outcomes[b] is None || outcomes[b] == Some(
                bits::ZERO,
            )),
    ensures
        forall|k: int|
            0 <= k < kept_estimates_of(outcomes).len() ==> #[trigger] kept_estimates_of(outcomes)[k]
                == bits::ZERO,
    decreases outcomes.len(),
{
    if outcomes.len() > 0 {
        let rest = outcomes.drop_last();
        assert forall|b: int| 0 <= b < rest.len() implies (#[trigger] rest[b] is None || rest[b]
            == Some(bits::ZERO)) by {
            assert(rest[b] == outcomes[b]);
        }
        lemma_only_zeros_kept(rest);
        assert(outcomes[outcomes.len() - 1] is None || outcomes[outcomes.len() - 1] == Some(
            bits::ZERO,
        ));
        let (kept, before) = (kept_estimates_of(outcomes), kept_estimates_of(rest));
        assert forall|k: int| 0 <= k < kept.len() implies #[trigger] kept[k] == bits::ZERO by {
            if k < before.len() {
                assert(kept[k] == before[k]);
            }
        }
    }
}

proof fn lemma_untreated_outcome<
    A: Summary,
    R: PairSummary,
    T: DoubledDecay,
    U: Binary,
    C: Ternary,
    S: Binary,
    Z: Summary,
    Q: Unary,
    P: Binary,
    L: Solver,
    F: ProximalStep,
    E: CellEffect<JointModel>,
    D: Binary,
    G: Average,
>(
    r: Option<u64>,
    y: &Matrix<u64>,
    d: &Matrix<u64>,
    x: Option<&Matrix<u64>>,
    weights: Option<&Vec<u64>>,
    classification: &UnitClassification,
    lambdas: Lambdas,
    treated_periods: usize,
    seed: u64,
    b: usize,
    method: &JointMethod<A, R, T, U, C, S, Z, Q, P, L, F, E, D>,
    average: G,
)
    requires
        gives_joint(
            r,
            y,
            d,
            x,
            weights,
            classification,
            lambdas,
            treated_periods,
            seed,
            b,
            method,
            average,
        ),
        same_shape(y, d),
        !any_treated(d),
    ensures
        r is None || r == Some(bits::ZERO),
        weights is Some || without_low_rank(lambdas.nn) ==> r is None,
{
    let (replicate, fit) = choose|
        replicate: JointReplicate,
        fit: Option<(JointModel, Iterations)>,
    |
        {
            &&& in_panel(replicate.units@, d.cols)
            &&& #[trigger] replicate.replicates(
                y,
                d,
                x,
                replicate_units(classification, seed, b),
            )
            &&& #[trigger] method.fits_panel(
                fit,
                &replicate.y,
                &replicate.d,
                sample_covariates(&replicate),
                lambdas,
                treated_periods,
            )
            &&& match fit {
                Some((model, it)) => exists|effects: Seq<(u64, usize)>|
                    {
                        &&& #[trigger] gives_effects(
                            effects,
                            &replicate.y,
                            sample_covariates(&replicate),
                            &model,
                            replicate.treated@,
                            *method.effect,
                        )
                        &&& estimates_joint(
                            r,
                            effects,
                            sample_weights(weights, replicate.units@),
                            lambdas.nn,
                            average,
                        )
                    },
                None => r is None,
            }
        };
    if replicate.treated@.len() > 0 {
        let cell = replicate.treated@[0];
        let i = replicate.units@[cell.1 as int] as int;
        assert(observed_treated(y, d, cell.0 as int, i));
        assert(treated(d, cell.0 as int, i));
        assert(treated_row(d, cell.0 as int));
    }
    if let Some((model, it)) = fit {
        let effects = choose|effects: Seq<(u64, usize)>|
            {
                &&& #[trigger] gives_effects(
                    effects,
                    &replicate.y,
                    sample_covariates(&replicate),
                    &model,
                    replicate.treated@,
                    *method.effect,
                )
                &&& estimates_joint(
                    r,
                    effects,
                    sample_weights(weights, replicate.units@),
                    lambdas.nn,
                    average,
                )
            };
        let sampled = sample_weights(weights, replicate.units@);
        let v = choose|v: Option<u64>| #[trigger]
            averages(v, effects, sampled, average) && r == if v is None && sampled is None
                && !without_low_rank(lambdas.nn) {
                Some(bits::ZERO)
            } else {
                v
            };
        assert(effects.len() == 0);
        let aggregation = choose|aggregation: Aggregation| #[trigger]
            aggregation.aggregates(effects, sampled) && match v {
                Some(att) => !(aggregation is Undefined) && call_ensures(
                    average,
                    (&aggregation,),
                    att,
                ),
                None => aggregation is Undefined,
            };
        if let Some(w) = sampled {
            assert(weighted_effects_of(effects, w).len() == 0);
        }
        assert(aggregation is Undefined);
        assert(v is None);
    }
}

fn run_joint<
    A: Summary,
    R: PairSummary,
    T: DoubledDecay,
    U: Binary,
    C: Ternary,
    S: Binary,
    Z: Summary,
    Q: Unary,
    P: Binary,
    L: Solver,
    F: ProximalStep,
    E: CellEffect<JointModel>,
    D: Binary,
    G: Average,
    V: Spread,
    N: Positions,
    X: Blend,
>(
    y: &Matrix<u64>,
    d: &Matrix<u64>,
    x: Option<&Matrix<u64>>,
    weights: Option<&Vec<u64>>,
    lambdas: Lambdas,
    run: BootstrapRun,
    method: &JointMethod<A, R, T, U, C, S, Z, Q, P, L, F, E, D>,
    average: &G,
    spread: &V,
    positions: &N,
    blend: &X,
) -> (r: BootstrapResult)
    requires
        same_shape(y, d),
        regressable(y, x),
        method.ready(),
        average_ready(*average),
        summary_ready(*spread, *positions, *blend),
    ensures
        ran_joint(
            r,
            y,
            d,
            x,
            weights,
            lambdas,
            run,
            method,
            *average,
            *spread,
            *positions,
            *blend,
        ),
{
    let l: Lambdas = effective(lambdas);
    let classification: UnitClassification = classify_units(d);
    let treated_periods: usize = treated_period_count(d);
    let mut outcomes: Vec<Option<u64>> = Vec::new();
    let mut b: usize = 0;
    while b < run.n_bootstrap
        invariant
            same_shape(y, d),
            regressable(y, x),
            classification.classifies(d),
            method.ready(),
            average_ready(*average),
            b <= run.n_bootstrap,
            b == outcomes@.len(),
            joint_replicates(
                outcomes@,
                y,
                d,
                x,
                weights,
                &classification,
                l,
                treated_periods,
                run.seed,
                method,
                *average,
            ),
        decreases run.n_bootstrap - b,
    {
        let outcome: Option<u64> = joint_outcome(
            y,
            d,
            x,
            weights,
            &classification,
            l,
            treated_periods,
            run.seed,
            b,
            method,
            average,
        );
        outcomes.push(outcome);
        b = b + 1;
    }
    summarize(&outcomes, run.ddof, run.level, spread, positions, blend)
}

/// Bootstrap of the joint method, every effect counting alike.
pub fn bootstrap_trop_variance_joint_full<
    A: Summary,
    R: PairSummary,
    T: DoubledDecay,
    U: Binary,
    C: Ternary,
    S: Binary,
    Z: Summary,
    Q: Unary,
    P: Binary,
    L: Solver,
    F: ProximalStep,
    E: CellEffect<JointModel>,
    D: Binary,
    G: Average,
    V: Spread,
    N: Positions,
    X: Blend,
>(
    y: &Matrix<u64>,
    d: &Matrix<u64>,
    x: Option<&Matrix<u64>>,
    lambdas: Lambdas,
    run: BootstrapRun,
    method: &JointMethod<A, R, T, U, C, S, Z, Q, P, L, F, E, D>,
    average: &G,
    spread: &V,
    positions: &N,
    blend: &X,
) -> (r: BootstrapResult)
    requires
        same_shape(y, d),
        regressable(y, x),
        method.ready(),
        average_ready(*average),
        summary_ready(*spread, *positions, *blend),
    ensures
        ran_joint(
            r,
            y,
            d,
            x,
            None,
            lambdas,
            run,
            method,
            *average,
            *spread,
            *positions,
            *blend,
        ),
{
    run_joint(
        y,
        d,
        x,
        None,
        lambdas,
        run,
        method,
        average,
        spread,
        positions,
        blend,
    )
}

/// Bootstrap of the joint method, an effect counting by the weight of its unit.
pub fn bootstrap_trop_variance_joint_full_weighted<
    A: Summary,
    R: PairSummary,
    T: DoubledDecay,
    U: Binary,
    C: Ternary,
    S: Binary,
    Z: Summary,
    Q: Unary,
    P: Binary,
    L: Solver,
    F: ProximalStep,
    E: CellEffect<JointModel>,
    D: Binary,
    G: Average,
    V: Spread,
    N: Positions,
    X: Blend,
>(
    y: &Matrix<u64>,
    d: &Matrix<u64>,
    x: Option<&Matrix<u64>>,
    weights: &Vec<u64>,
    lambdas: Lambdas,
    run: BootstrapRun,
    method: &JointMethod<A, R, T, U, C, S, Z, Q, P, L, F, E, D>,
    average: &G,
    spread: &V,
    positions: &N,
    blend: &X,
) -> (r: BootstrapResult)
    requires
        same_shape(y, d),
        regressable(y, x),
        method.ready(),
        average_ready(*average),
        summary_ready(*spread, *positions, *blend),
    ensures
        ran_joint(
            r,
            y,
            d,
            x,
            Some(weights),
            lambdas,
            run,
            method,
            *average,
            *spread,
            *positions,
            *blend,
        ),
{
    run_joint(
        y,
        d,
        x,
        Some(weights),
        lambdas,
        run,
        method,
        average,
        spread,
        positions,
        blend,
    )
}

/// Estimates of a bootstrap of the joint method, and their standard error by the
/// sample variance, whatever variance the parameters ask for.
pub fn bootstrap_trop_variance_joint<
    A: Summary,
    R: PairSummary,
    T: DoubledDecay,
    U: Binary,
    C: Ternary,
    S: Binary,
    Z: Summary,
    Q: Unary,
    P: Binary,
    L: Solver,
    F: ProximalStep,
    E: CellEffect<JointModel>,
    D: Binary,
    G: Average,
    V: Spread,
    N: Positions,
    X: Blend,
>(
    y: &Matrix<u64>,
    d: &Matrix<u64>,
    x: Option<&Matrix<u64>>,
    lambdas: Lambdas,
    run: BootstrapRun,
    method: &JointMethod<A, R, T, U, C, S, Z, Q, P, L, F, E, D>,
    average: &G,
    spread: &V,
    positions: &N,
    blend: &X,
) -> (r: (Vec<u64>, u64))
    requires
        same_shape(y, d),
        regressable(y, x),
        method.ready(),
        average_ready(*average),
        summary_ready(*spread, *positions, *blend),
    ensures
        exists|full: BootstrapResult|
            r == (full.estimates, full.se) && #[trigger] ran_joint(
                full,
                y,
                d,
                x,
                None,
                lambdas,
                (BootstrapRun { ddof: 1, ..run }),
                method,
                *average,
                *spread,
                *positions,
                *blend,
            ),
{
    let full: BootstrapResult = bootstrap_trop_variance_joint_full(
        y,
        d,
        x,
        lambdas,
        BootstrapRun { ddof: 1, ..run },
        method,
        average,
        spread,
        positions,
        blend,
    );
    let ghost whole = full;
    let r: (Vec<u64>, u64) = (full.estimates, full.se);
    assert(r == (whole.estimates, whole.se));
    r
}

/// Survey design of the units of a panel.
#[derive(Debug)]
pub struct SurveyDesign {
    /// Stratum of each unit.
    pub strata: Vec<i64>,
    /// Sampling unit that each unit belongs to.
    pub psu: Vec<i64>,
    /// Size of the population of the stratum of each unit.
    pub fpc: Option<Vec<u64>>,
    /// Weight of each unit.
    pub weights: Vec<u64>,
    pub lonely_psu: LonelyPsuStrategy,
}

impl SurveyDesign {
    /// Every unit with a stratum has all that a design says of a unit.
    pub open spec fn wf(&self) -> bool {
        &&& self.strata@.len() == self.psu@.len()
        &&& self.weights@.len() >= self.strata@.len()
        &&& self.fpc is Some ==> self.fpc->0@.len() >= self.strata@.len()
    }

    /// Sizes of the populations.
    pub open spec fn sizes(&self) -> Option<&Vec<u64>> {
        match self.fpc {
            Some(v) => Some(&v),
            None => None,
        }
    }

    /// A population is smaller than the sample drawn from it.
    pub open spec fn oversampled(&self) -> bool {
        self.fpc is Some && !fpc_valid(self.strata@, self.psu@, self.fpc->0@)
    }

    /// A stratum has a single sampling unit, and that is not allowed.
    pub open spec fn lonely(&self) -> bool {
        self.lonely_psu == LonelyPsuStrategy::Fail && !no_singletons(self.strata@, self.psu@)
    }
}

/// `mean` is the mean weight of a sampling unit, zero where nothing is centered
/// at it.
pub open spec fn centers<H: Fn(&Vec<StratumInfo>, &Vec<u64>) -> u64>(
    mean: u64,
    groups: &Vec<StratumInfo>,
    design: &SurveyDesign,
    center: H,
) -> bool {
    if design.lonely_psu == LonelyPsuStrategy::Centered {
        call_ensures(center, (groups, &design.weights), mean)
    } else {
        mean == bits::ZERO
    }
}

/// `outcomes` are the estimates on the first replicates of a survey bootstrap.
pub open spec fn survey_replicates<
    W: Fn(UnitScale, u64, u64) -> u64,
    G: Average,
>(
    outcomes: Seq<Option<u64>>,
    effects: Seq<(u64, usize)>,
    groups: Seq<StratumInfo>,
    actions: Seq<StratumAction>,
    design: &SurveyDesign,
    mean: u64,
    seed: u64,
    rescale: W,
    average: G,
) -> bool {
    forall|b: int|
        0 <= b < outcomes.len() ==> gives_survey(
            #[trigger] outcomes[b],
            effects,
            groups,
            actions,
            design.strata@.len(),
            design.weights@,
            mean,
            seed,
            b as usize,
            rescale,
            average,
        )
}

/// `r` is the outcome of a survey bootstrap over some effects: the summary of
/// the estimates on the replicates.
pub open spec fn resampled<
    H: Fn(&Vec<StratumInfo>, &Vec<u64>) -> u64,
    K: Fn(usize, u64) -> Correction,
    W: Fn(UnitScale, u64, u64) -> u64,
    G: Average,
    V: Spread,
    N: Positions,
    X: Blend,
>(
    r: BootstrapResult,
    effects: Seq<(u64, usize)>,
    design: &SurveyDesign,
    run: BootstrapRun,
    center: H,
    correct: K,
    rescale: W,
    average: G,
    spread: V,
    positions: N,
    blend: X,
) -> bool {
    exists|
        groups: Vec<StratumInfo>,
        actions: Seq<StratumAction>,
        mean: u64,
        outcomes: Seq<Option<u64>>,
    |
        {
            &&& describes_design(groups@, design.strata@, design.psu@, sizes_of(design.sizes()))
            &&& actions.len() == groups@.len()
            &&& forall|h: int|
                0 <= h < actions.len() ==> acts(
                    #[trigger] actions[h],
                    groups@[h],
                    design.lonely_psu,
                    correct,
                )
            &&& #[trigger] centers(mean, &groups, design, center)
            &&& outcomes.len() == run.n_bootstrap
            &&& #[trigger] survey_replicates(
                outcomes,
                effects,
                groups@,
                actions,
                design,
                mean,
                run.seed,
                rescale,
                average,
            )
            &&& r.summarizes(outcomes, run.ddof, run.level, spread, positions, blend)
        }
}

/// `r` is the outcome of a survey bootstrap over some effects.  Where there is
/// no effect, nothing is estimated and the design is not looked at.
pub open spec fn ran_survey<
    H: Fn(&Vec<StratumInfo>, &Vec<u64>) -> u64,
    K: Fn(usize, u64) -> Correction,
    W: Fn(UnitScale, u64, u64) -> u64,
    G: Average,
    V: Spread,
    N: Positions,
    X: Blend,
>(
    r: TropResult<BootstrapResult>,
    effects: Seq<(u64, usize)>,
    design: &SurveyDesign,
    run: BootstrapRun,
    center: H,
    correct: K,
    rescale: W,
    average: G,
    spread: V,
    positions: N,
    blend: X,
) -> bool {
    if effects.len() == 0 {
        r matches Ok(e) && e.is_empty(run.n_bootstrap, run.level)
    } else if design.oversampled() {
        r is Err && r->Err_0 == TropError::InvalidFpc
    } else if design.lonely() {
        r is Err && r->Err_0 == TropError::SingletonPsu
    } else {
        r matches Ok(e) && resampled(
            e,
            effects,
            design,
            run,
            center,
            correct,
            rescale,
            average,
            spread,
            positions,
            blend,
        )
    }
}

fn run_survey<
    H: Fn(&Vec<StratumInfo>, &Vec<u64>) -> u64,
    K: Fn(usize, u64) -> Correction,
    W: Fn(UnitScale, u64, u64) -> u64,
    G: Average,
    V: Spread,
    N: Positions,
    X: Blend,
>(
    effects: &Vec<(u64, usize)>,
    design: &SurveyDesign,
    run: BootstrapRun,
    center: &H,
    correct: &K,
    rescale: &W,
    average: &G,
    spread: &V,
    positions: &N,
    blend: &X,
) -> (r: TropResult<BootstrapResult>)
    requires
        design.wf(),
        forall|groups: &Vec<StratumInfo>, weights: &Vec<u64>| #[trigger]
            call_requires(*center, (groups, weights)),
        forall|n: usize, size: u64| #[trigger] call_requires(*correct, (n, size)),
        forall|scale: UnitScale, w: u64, mean: u64| #[trigger]
            call_requires(*rescale, (scale, w, mean)),
        average_ready(*average),
        summary_ready(*spread, *positions, *blend),
    ensures
        ran_survey(
            r,
            effects@,
            design,
            run,
            *center,
            *correct,
            *rescale,
            *average,
            *spread,
            *positions,
            *blend,
        ),
{
    let planned: Option<Vec<StratumInfo>> = match plan_resampling(
        effects,
        &design.strata,
        &design.psu,
        design.fpc.as_ref(),
        design.lonely_psu,
    ) {
        Ok(planned) => planned,
        Err(e) => {
            return Err(e);
        },
    };
    let groups: Vec<StratumInfo> = match planned {
        Some(groups) => groups,
        None => {
            return Ok(BootstrapResult::empty(run.n_bootstrap, run.level));
        },
    };
    let actions: Vec<StratumAction> = stratum_actions(&groups, design.lonely_psu, correct);
    let mean: u64 = match design.lonely_psu {
        LonelyPsuStrategy::Centered => (*center)(&groups, &design.weights),
        _ => bits::ZERO,
    };
    let mut outcomes: Vec<Option<u64>> = Vec::new();
    let mut b: usize = 0;
    while b < run.n_bootstrap
        invariant
            design.wf(),
            groups_design(groups@, design.strata@, design.psu@),
            actions@.len() == groups@.len(),
            redraws_possible(actions@, groups@),
            forall|scale: UnitScale, w: u64, mean: u64| #[trigger]
                call_requires(*rescale, (scale, w, mean)),
            average_ready(*average),
            b <= run.n_bootstrap,
            b == outcomes@.len(),
            survey_replicates(
                outcomes@,
                effects@,
                groups@,
                actions@,
                design,
                mean,
                run.seed,
                *rescale,
                *average,
            ),
        decreases run.n_bootstrap - b,
    {
        let outcome: Option<u64> = survey_outcome(
            effects,
            &groups,
            &actions,
            &design.strata,
            &design.psu,
            &design.weights,
            mean,
            run.seed,
            b,
            rescale,
            average,
        );
        outcomes.push(outcome);
        b = b + 1;
    }
    let r: BootstrapResult = summarize(
        &outcomes,
        run.ddof,
        run.level,
        spread,
        positions,
        blend,
    );
    assert(centers(mean, &groups, design, *center));
    Ok(r)
}

/// Every stratum of a design has a single sampling unit.
pub open spec fn single_psus(strata: Seq<i64>, psu: Seq<i64>) -> bool {
    forall|i: int, j: int|
        0 <= i < strata.len() && 0 <= j < strata.len() && #[trigger] strata[i]
            == #[trigger] strata[j] ==> psu[i] == psu[j]
}

proof fn lemma_single_psu(group: StratumInfo, strata: Seq<i64>, psu: Seq<i64>)
    requires
        group.groups_stratum(strata, psu),
        single_psus(strata, psu),
    ensures
        group.n_psu == 1,
{
    if group.n_psu >= 2 {
        let (p, q) = (group.psu_labels@[0], group.psu_labels@[1]);
        assert(group.psu_labels@.contains(p) && group.psu_labels@.contains(q));
        assert(psus_of(strata, psu, group.label).contains(p));
        assert(psus_of(strata, psu, group.label).contains(q));
        let i = choose|i: int|
            0 <= i < strata.len() && #[trigger] strata[i] == group.label && psu[i] == p;
        let j = choose|j: int|
            0 <= j < strata.len() && #[trigger] strata[j] == group.label && psu[j] == q;
        assert(strata[i] == strata[j]);
    }
}

/// Estimates of a run in which every replicate gives `att`.
pub open spec fn repeated(att: Option<u64>, n: nat) -> Seq<u64> {
    match att {
        Some(v) => if bits::finite(v) {
            Seq::new(n, |b: int| v)
        } else {
            Seq::empty()
        },
        None => Seq::empty(),
    }
}

proof fn lemma_repeated(outcomes: Seq<Option<u64>>, att: Option<u64>)
    requires
        forall|b: int| 0 <= b < outcomes.len() ==> #[trigger] outcomes[b] == att,
    ensures
        kept_estimates_of(outcomes) == repeated(att, outcomes.len()),
    decreases outcomes.len(),
{
    if outcomes.len() > 0 {
        let rest = outcomes.drop_last();
        assert forall|b: int| 0 <= b < rest.len() implies #[trigger] rest[b] == att by {
            assert(rest[b] == outcomes[b]);
        }
        lemma_repeated(rest, att);
        assert(outcomes[outcomes.len() - 1] == att);
    }
    assert(kept_estimates_of(outcomes) =~= repeated(att, outcomes.len()));
}

/// Where every stratum has a single sampling unit and such strata are skipped, a
/// survey bootstrap resamples nothing: every replicate gives the average of the
/// effects under the weights of the design.
pub proof fn law_skipped_strata_repeat_the_estimate<
    H: Fn(&Vec<StratumInfo>, &Vec<u64>) -> u64,
    K: Fn(usize, u64) -> Correction,
    W: Fn(UnitScale, u64, u64) -> u64,
    G: Average,
    V: Spread,
    N: Positions,
    X: Blend,
>(
    r: BootstrapResult,
    effects: Seq<(u64, usize)>,
    design: &SurveyDesign,
    run: BootstrapRun,
    center: H,
    correct: K,
    rescale: W,
    average: G,
    spread: V,
    positions: N,
    blend: X,
)
    requires
        resampled(
            r,
            effects,
            design,
            run,
            center,
            correct,
            rescale,
            average,
            spread,
            positions,
            blend,
        ),
        design.wf(),
        design.lonely_psu == LonelyPsuStrategy::Skip,
        single_psus(design.strata@, design.psu@),
        run.n_bootstrap > 0,
        one_average(average),
    ensures
        exists|att: Option<u64>| #[trigger]
            averages(att, effects, Some(design.weights@), average) && r.estimates@ == repeated(
                att,
                run.n_bootstrap as nat,
            ),
{
    let (groups, actions, mean, outcomes) = choose|
        groups: Vec<StratumInfo>,
        actions: Seq<StratumAction>,
        mean: u64,
        outcomes: Seq<Option<u64>>,
    |
        {
            &&& describes_design(groups@, design.strata@, design.psu@, sizes_of(design.sizes()))
            &&& actions.len() == groups@.len()
            &&& forall|h: int|
                0 <= h < actions.len() ==> acts(
                    #[trigger] actions[h],
                    groups@[h],
                    design.lonely_psu,
                    correct,
                )
            &&& #[trigger] centers(mean, &groups, design, center)
            &&& outcomes.len() == run.n_bootstrap
            &&& #[trigger] survey_replicates(
                outcomes,
                effects,
                groups@,
                actions,
                design,
                mean,
                run.seed,
                rescale,
                average,
            )
            &&& r.summarizes(outcomes, run.ddof, run.level, spread, positions, blend)
        };
    assert forall|h: int| 0 <= h < actions.len() implies #[trigger] actions[h]
        == StratumAction::Keep by {
        lemma_single_psu(groups@[h], design.strata@, design.psu@);
        assert(acts(actions[h], groups@[h], design.lonely_psu, correct));
    }
    assert(design.strata@.len() == design.strata.len());
    assert forall|b: int| 0 <= b < outcomes.len() implies averages(
        #[trigger] outcomes[b],
        effects,
        Some(design.weights@),
        average,
    ) by {
        law_kept_strata_keep_weights(
            outcomes[b],
            effects,
            groups@,
            actions,
            design.strata@,
            design.psu@,
            design.weights@,
            mean,
            run.seed,
            b as usize,
            rescale,
            average,
        );
    }
    let att = outcomes[0];
    assert forall|b: int| 0 <= b < outcomes.len() implies #[trigger] outcomes[b] == att by {
        law_one_average(outcomes[b], att, effects, Some(design.weights@), average);
    }
    lemma_repeated(outcomes, att);
    assert(averages(att, effects, Some(design.weights@), average));
}

/// `att` is the weighted mean of all effects, each with the weight of its unit.
pub open spec fn weighted_mean_of<G: Average>(
    att: u64,
    effects: Seq<(u64, usize)>,
    weights: Seq<u64>,
    average: G,
) -> bool {
    exists|terms: Vec<(u64, u64)>|
        {
            &&& terms@ == effects.map_values(|e: (u64, usize)| (weights[e.1 as int], e.0))
            &&& #[trigger] call_ensures(average, (&Aggregation::Weighted(terms),), att)
        }
}

/// A survey bootstrap whose strata all have a single sampling unit, and skip it,
/// succeeds and resamples nothing: whatever the seed, each of its estimates is
/// the mean of all effects under the weights of the design.
pub proof fn law_single_psus_resample_nothing<
    H: Fn(&Vec<StratumInfo>, &Vec<u64>) -> u64,
    K: Fn(usize, u64) -> Correction,
    W: Fn(UnitScale, u64, u64) -> u64,
    G: Average,
    V: Spread,
    N: Positions,
    X: Blend,
>(
    r: TropResult<BootstrapResult>,
    other: TropResult<BootstrapResult>,
    effects: Seq<(u64, usize)>,
    design: &SurveyDesign,
    run: BootstrapRun,
    seed: u64,
    center: H,
    correct: K,
    rescale: W,
    average: G,
    spread: V,
    positions: N,
    blend: X,
)
    requires
        ran_survey(
            r,
            effects,
            design,
            run,
            center,
            correct,
            rescale,
            average,
            spread,
            positions,
            blend,
        ),
        ran_survey(
            other,
            effects,
            design,
            (BootstrapRun { seed, ..run }),
            center,
            correct,
            rescale,
            average,
            spread,
            positions,
            blend,
        ),
        effects.len() > 0,
        forall|k: int|
            0 <= k < effects.len() ==> (#[trigger] effects[k]).1 < design.weights@.len()
                && bits::positive_finite(design.weights@[effects[k].1 as int]),
        design.wf(),
        design.fpc is None,
        design.lonely_psu == LonelyPsuStrategy::Skip,
        single_psus(design.strata@, design.psu@),
        run.n_bootstrap > 0,
        one_average(average),
    ensures
        r is Ok,
        other is Ok,
        r->Ok_0.estimates@ == other->Ok_0.estimates@,
        exists|att: u64|
            {
                &&& #[trigger] weighted_mean_of(att, effects, design.weights@, average)
                &&& r->Ok_0.estimates@ == repeated(Some(att), run.n_bootstrap as nat)
            },
{
    let again = BootstrapRun { seed, ..run };
    law_skipped_strata_repeat_the_estimate(
        r->Ok_0,
        effects,
        design,
        run,
        center,
        correct,
        rescale,
        average,
        spread,
        positions,
        blend,
    );
    law_skipped_strata_repeat_the_estimate(
        other->Ok_0,
        effects,
        design,
        again,
        center,
        correct,
        rescale,
        average,
        spread,
        positions,
        blend,
    );
    let weights = Some(design.weights@);
    let n = run.n_bootstrap as nat;
    let u = choose|att: Option<u64>| #[trigger]
        averages(att, effects, weights, average) && r->Ok_0.estimates@ == repeated(att, n);
    let v = choose|att: Option<u64>| #[trigger]
        averages(att, effects, weights, average) && other->Ok_0.estimates@ == repeated(att, n);
    law_one_average(u, v, effects, weights, average);
    law_positive_weights_keep_all(effects, design.weights@);
    let aggregation = choose|aggregation: Aggregation| #[trigger]
        aggregation.aggregates(effects, weights) && match u {
            Some(att) => !(aggregation is Undefined) && call_ensures(average, (&aggregation,), att),
            None => aggregation is Undefined,
        };
    assert(aggregation is Weighted);
    assert(u is Some);
    assert(weighted_mean_of(u->0, effects, design.weights@, average)) by {
        if let Aggregation::Weighted(terms) = aggregation {
            assert(call_ensures(average, (&Aggregation::Weighted(terms),), u->0));
        }
    }
}

/// `effect` is the effect of a cell under the fit whose weights are centred on
/// it, from zero; none where the fit failed.
pub open spec fn gives_cell<
    R: PairSummary,
    T: TimeDecay,
    U: Binary,
    P: Binary,
    B: Binary,
    Z: Summary,
    O: Dot,
    C: WeightedMean,
    Q: CovariateFit,
    F: TwostepProximal,
    E: CellEffect<TwostepModel>,
    S: Binary,
>(
    effect: Option<u64>,
    panel: &TwostepPanel,
    lambdas: Lambdas,
    cell: (usize, usize),
    method: &TwostepMethod<R, T, U, P, B, Z, O, C, Q, F, E, S>,
) -> bool {
    exists|outcome: Option<(TwostepModel, u64)>| #[trigger]
        method.estimates(outcome, panel, lambdas, cell, None) && effect == match outcome {
            Some((model, tau)) => Some(tau),
            None => None,
        }
}

/// `effects` are the effects of some cells, each under the fit whose weights are
/// centred on it, from zero; none where the fit failed.
pub open spec fn gives_cells<
    R: PairSummary,
    T: TimeDecay,
    U: Binary,
    P: Binary,
    B: Binary,
    Z: Summary,
    O: Dot,
    C: WeightedMean,
    Q: CovariateFit,
    F: TwostepProximal,
    E: CellEffect<TwostepModel>,
    S: Binary,
>(
    effects: Seq<Option<u64>>,
    panel: &TwostepPanel,
    lambdas: Lambdas,
    cells: Seq<(usize, usize)>,
    method: &TwostepMethod<R, T, U, P, B, Z, O, C, Q, F, E, S>,
) -> bool {
    &&& effects.len() == cells.len()
    &&& forall|k: int|
        0 <= k < cells.len() ==> gives_cell(
            #[trigger] effects[k],
            panel,
            lambdas,
            cells[k],
            method,
        )
}

/// Survey bootstrap of the twostep method: the effects of the treated cells are
/// estimated once, and their weights are resampled.
pub fn bootstrap_trop_variance_rao_wu<
    R: PairSummary,
    T: TimeDecay,
    U: Binary,
    P: Binary,
    B: Binary,
    Z: Summary,
    O: Dot,
    C: WeightedMean,
    Q: CovariateFit,
    F: TwostepProximal,
    E: CellEffect<TwostepModel>,
    S: Binary,
    H: Fn(&Vec<StratumInfo>, &Vec<u64>) -> u64,
    K: Fn(usize, u64) -> Correction,
    W: Fn(UnitScale, u64, u64) -> u64,
    G: Average,
    V: Spread,
    N: Positions,
    X: Blend,
>(
    panel: &TwostepPanel,
    lambdas: Lambdas,
    design: &SurveyDesign,
    run: BootstrapRun,
    method: &TwostepMethod<R, T, U, P, B, Z, O, C, Q, F, E, S>,
    center: &H,
    correct: &K,
    rescale: &W,
    average: &G,
    spread: &V,
    positions: &N,
    blend: &X,
) -> (r: TropResult<BootstrapResult>)
    requires
        panel.wf(),
        design.wf(),
        method.ready(),
        forall|groups: &Vec<StratumInfo>, weights: &Vec<u64>| #[trigger]
            call_requires(*center, (groups, weights)),
        forall|n: usize, size: u64| #[trigger] call_requires(*correct, (n, size)),
        forall|scale: UnitScale, w: u64, mean: u64| #[trigger]
            call_requires(*rescale, (scale, w, mean)),
        average_ready(*average),
        summary_ready(*spread, *positions, *blend),
    ensures
        exists|cells: Seq<(usize, usize)>, effects: Seq<Option<u64>>|
            {
                &&& lists_cells(
                    cells,
                    panel.d.rows as int,
                    panel.d.cols as int,
                    |t: int, i: int| treated(panel.d, t, i),
                )
                &&& #[trigger] gives_cells(
                    effects,
                    panel,
                    effective_of(lambdas),
                    cells,
                    method,
                )
                &&& ran_survey(
                    r,
                    finite_effects_of(cells, effects),
                    design,
                    run,
                    *center,
                    *correct,
                    *rescale,
                    *average,
                    *spread,
                    *positions,
                    *blend,
                )
            },
{
    let l: Lambdas = effective(lambdas);
    let cells: Vec<(usize, usize)> = treated_cells(panel.d);
    let effects: Vec<Option<u64>> = cell_effects(
        panel,
        l,
        &cells,
        method,
    );
    assert(gives_cells(effects@, panel, l, cells@, method));
    resample_effects(
        &cells,
        &effects,
        design,
        run,
        center,
        correct,
        rescale,
        average,
        spread,
        positions,
        blend,
    )
}

/// Effects of some cells, each under the fit whose weights are centred on it.
pub fn cell_effects<
    R: PairSummary,
    T: TimeDecay,
    U: Binary,
    P: Binary,
    B: Binary,
    Z: Summary,
    O: Dot,
    C: WeightedMean,
    Q: CovariateFit,
    F: TwostepProximal,
    E: CellEffect<TwostepModel>,
    S: Binary,
>(
    panel: &TwostepPanel,
    lambdas: Lambdas,
    cells: &Vec<(usize, usize)>,
    method: &TwostepMethod<R, T, U, P, B, Z, O, C, Q, F, E, S>,
) -> (r: Vec<Option<u64>>)
    requires
        panel.wf(),
        cells_in(cells@, panel.y),
        method.ready(),
    ensures
        gives_cells(r@, panel, lambdas, cells@, method),
{
    let mut effects: Vec<Option<u64>> = Vec::new();
    let mut k: usize = 0;
    while k < cells.len()
        invariant
            panel.wf(),
            cells_in(cells@, panel.y),
            method.ready(),
            k <= cells@.len(),
            gives_cells(
                effects@,
                panel,
                lambdas,
                cells@.take(k as int),
                method,
            ),
        decreases cells@.len() - k,
    {
        let outcome: Option<(TwostepModel, u64)> = estimate_cell(panel, lambdas, cells[k], &None, method);
        let ghost before = effects@;
        let effect: Option<u64> = match &outcome {
            Some((_, tau)) => Some(*tau),
            None => None,
        };
        effects.push(effect);
        proof {
            assert(method.estimates(outcome, panel, lambdas, cells@[k as int], None));
            assert(gives_cell(
                effect,
                panel,
                lambdas,
                cells@[k as int],
                method,
            ));
            assert forall|j: int| 0 <= j < k + 1 implies gives_cell(
                #[trigger] effects@[j],
                panel,
                lambdas,
                cells@.take(k + 1)[j],
                method,
            ) by {
                if j < k {
                    assert(before[j] == effects@[j]);
                }
            }
        }
        k = k + 1;
    }
    assert(cells@.take(k as int) =~= cells@);
    effects
}

/// Survey bootstrap of the effects of some cells: those that are finite count.
pub fn resample_effects<
    H: Fn(&Vec<StratumInfo>, &Vec<u64>) -> u64,
    K: Fn(usize, u64) -> Correction,
    W: Fn(UnitScale, u64, u64) -> u64,
    G: Average,
    V: Spread,
    N: Positions,
    X: Blend,
>(
    cells: &Vec<(usize, usize)>,
    effects: &Vec<Option<u64>>,
    design: &SurveyDesign,
    run: BootstrapRun,
    center: &H,
    correct: &K,
    rescale: &W,
    average: &G,
    spread: &V,
    positions: &N,
    blend: &X,
) -> (r: TropResult<BootstrapResult>)
    requires
        effects@.len() == cells@.len(),
        design.wf(),
        forall|groups: &Vec<StratumInfo>, weights: &Vec<u64>| #[trigger]
            call_requires(*center, (groups, weights)),
        forall|n: usize, size: u64| #[trigger] call_requires(*correct, (n, size)),
        forall|scale: UnitScale, w: u64, mean: u64| #[trigger]
            call_requires(*rescale, (scale, w, mean)),
        average_ready(*average),
        summary_ready(*spread, *positions, *blend),
    ensures
        ran_survey(
            r,
            finite_effects_of(cells@, effects@),
            design,
            run,
            *center,
            *correct,
            *rescale,
            *average,
            *spread,
            *positions,
            *blend,
        ),
{
    run_survey(
        &finite_effects(cells, effects),
        design,
        run,
        center,
        correct,
        rescale,
        average,
        spread,
        positions,
        blend,
    )
}

/// Effects of some cells under a joint fit: none where it failed.
pub open spec fn gives_joint_cells<E: CellEffect<JointModel>>(
    effects: Seq<Option<u64>>,
    y: &Matrix<u64>,
    x: Option<&Matrix<u64>>,
    fit: Option<(JointModel, Iterations)>,
    cells: Seq<(usize, usize)>,
    effect: E,
) -> bool {
    &&& effects.len() == cells.len()
    &&& forall|k: int|
        0 <= k < cells.len() ==> match fit {
            Some((model, it)) => #[trigger] effects[k] matches Some(v) && call_ensures(
                effect,
                (y, x, &model, cells[k]),
                v,
            ),
            None => effects[k] is None,
        }
}

/// Survey bootstrap of the joint method: the model is fitted once, under the
/// joint weights of the panel, and the weights of the effects of the treated
/// cells are resampled.
pub fn bootstrap_trop_variance_rao_wu_joint<
    A: Summary,
    R: PairSummary,
    T: DoubledDecay,
    U: Binary,
    C: Ternary,
    S: Binary,
    Z: Summary,
    Q: Unary,
    P: Binary,
    L: Solver,
    F: ProximalStep,
    E: CellEffect<JointModel>,
    D: Binary,
    H: Fn(&Vec<StratumInfo>, &Vec<u64>) -> u64,
    K: Fn(usize, u64) -> Correction,
    W: Fn(UnitScale, u64, u64) -> u64,
    G: Average,
    V: Spread,
    N: Positions,
    X: Blend,
>(
    y: &Matrix<u64>,
    d: &Matrix<u64>,
    x: Option<&Matrix<u64>>,
    lambdas: Lambdas,
    design: &SurveyDesign,
    run: BootstrapRun,
    method: &JointMethod<A, R, T, U, C, S, Z, Q, P, L, F, E, D>,
    center: &H,
    correct: &K,
    rescale: &W,
    average: &G,
    spread: &V,
    positions: &N,
    blend: &X,
) -> (r: TropResult<BootstrapResult>)
    requires
        same_shape(y, d),
        regressable(y, x),
        design.wf(),
        method.ready(),
        forall|groups: &Vec<StratumInfo>, weights: &Vec<u64>| #[trigger]
            call_requires(*center, (groups, weights)),
        forall|n: usize, size: u64| #[trigger] call_requires(*correct, (n, size)),
        forall|scale: UnitScale, w: u64, mean: u64| #[trigger]
            call_requires(*rescale, (scale, w, mean)),
        average_ready(*average),
        summary_ready(*spread, *positions, *blend),
    ensures
        exists|
            treated_periods: usize,
            fit: Option<(JointModel, Iterations)>,
            cells: Seq<(usize, usize)>,
            effects: Seq<Option<u64>>,
        |
            {
                &&& counts_treated_periods(d, treated_periods)
                &&& #[trigger] method.fits_panel(
                    fit,
                    y,
                    d,
                    x,
                    effective_of(lambdas),
                    treated_periods,
                )
                &&& lists_cells(
                    cells,
                    d.rows as int,
                    d.cols as int,
                    |t: int, i: int| observed_treated(y, d, t, i),
                )
                &&& #[trigger] gives_joint_cells(effects, y, x, fit, cells, *method.effect)
                &&& ran_survey(
                    r,
                    finite_effects_of(cells, effects),
                    design,
                    run,
                    *center,
                    *correct,
                    *rescale,
                    *average,
                    *spread,
                    *positions,
                    *blend,
                )
            },
{
    let l: Lambdas = effective(lambdas);
    let treated_periods: usize = treated_period_count(d);
    let fit: Option<(JointModel, Iterations)> = fit_panel(y, d, x, l, treated_periods, method);
    let cells: Vec<(usize, usize)> = observed_treated_cells(y, d);
    let mut effects: Vec<Option<u64>> = Vec::new();
    let mut k: usize = 0;
    while k < cells.len()
        invariant
            method.ready(),
            k <= cells@.len(),
            gives_joint_cells(effects@, y, x, fit, cells@.take(k as int), *method.effect),
        decreases cells@.len() - k,
    {
        let v: Option<u64> = match &fit {
            Some((model, _)) => Some((*method.effect)(y, x, model, cells[k])),
            None => None,
        };
        effects.push(v);
        k = k + 1;
    }
    assert(cells@.take(k as int) =~= cells@);
    assert(method.fits_panel(fit, y, d, x, l, treated_periods));
    assert(gives_joint_cells(effects@, y, x, fit, cells@, *method.effect));
    resample_effects(
        &cells,
        &effects,
        design,
        run,
        center,
        correct,
        rescale,
        average,
        spread,
        positions,
        blend,
    )
}

/// A run of the twostep method draws every one of its replicates, each with its own
/// number, and summarises what all of them gave.
pub proof fn law_run_draws_every_replicate<
    R: PairSummary,
    T: TimeDecay,
    U: Binary,
    P: Binary,
    B: Binary,
    Z: Summary,
    O: Dot,
    C: WeightedMean,
    Q: CovariateFit,
    F: TwostepProximal,
    E: CellEffect<TwostepModel>,
    S: Binary,
    G: Average,
    V: Spread,
    N: Positions,
    X: Blend,
>(
    r: BootstrapResult,
    y: &Matrix<u64>,
    d: &Matrix<u64>,
    control_mask: &Matrix<u8>,
    x: Option<&Matrix<u64>>,
    time_dist: &Matrix<i64>,
    weights: Option<&Vec<u64>>,
    lambdas: Lambdas,
    run: BootstrapRun,
    method: &TwostepMethod<R, T, U, P, B, Z, O, C, Q, F, E, S>,
    average: G,
    spread: V,
    positions: N,
    blend: X,
)
    requires
        ran_twostep(
            r,
            y,
            d,
            control_mask,
            x,
            time_dist,
            weights,
            lambdas,
            run,
            method,
            average,
            spread,
            positions,
            blend,
        ),
    ensures
        r.n_total == run.n_bootstrap,
        r.n_valid == r.estimates@.len(),
        r.level == run.level,
        exists|classification: UnitClassification, outcomes: Seq<Option<u64>>|
            {
                &&& #[trigger] classification.classifies(d)
                &&& outcomes.len() == run.n_bootstrap
                &&& forall|b: int|
                    0 <= b < run.n_bootstrap ==> gives_twostep(
                        #[trigger] outcomes[b],
                        y,
                        d,
                        control_mask,
                        x,
                        time_dist,
                        weights,
                        &classification,
                        effective_of(lambdas),
                        run.seed,
                        b as usize,
                        method,
                        average,
                    )
                &&& #[trigger] r.summarizes(
                    outcomes,
                    run.ddof,
                    run.level,
                    spread,
                    positions,
                    blend,
                )
            },
{
}

/// A run of the joint method draws every one of its replicates, each with its own
/// number and with the treated periods of the panel, and summarises what all of
/// them gave.
pub proof fn law_joint_run_draws_every_replicate<
    A: Summary,
    R: PairSummary,
    T: DoubledDecay,
    U: Binary,
    C: Ternary,
    S: Binary,
    Z: Summary,
    Q: Unary,
    P: Binary,
    L: Solver,
    F: ProximalStep,
    E: CellEffect<JointModel>,
    D: Binary,
    G: Average,
    V: Spread,
    N: Positions,
    X: Blend,
>(
    r: BootstrapResult,
    y: &Matrix<u64>,
    d: &Matrix<u64>,
    x: Option<&Matrix<u64>>,
    weights: Option<&Vec<u64>>,
    lambdas: Lambdas,
    run: BootstrapRun,
    method: &JointMethod<A, R, T, U, C, S, Z, Q, P, L, F, E, D>,
    average: G,
    spread: V,
    positions: N,
    blend: X,
)
    requires
        ran_joint(
            r,
            y,
            d,
            x,
            weights,
            lambdas,
            run,
            method,
            average,
            spread,
            positions,
            blend,
        ),
    ensures
        r.n_total == run.n_bootstrap,
        r.n_valid == r.estimates@.len(),
        r.level == run.level,
        exists|classification: UnitClassification, n: usize, outcomes: Seq<Option<u64>>|
            {
                &&& #[trigger] classification.classifies(d)
                &&& #[trigger] counts_treated_periods(d, n)
                &&& outcomes.len() == run.n_bootstrap
                &&& forall|b: int|
                    0 <= b < run.n_bootstrap ==> gives_joint(
                        #[trigger] outcomes[b],
                        y,
                        d,
                        x,
                        weights,
                        &classification,
                        effective_of(lambdas),
                        n,
                        run.seed,
                        b as usize,
                        method,
                        average,
                    )
                &&& #[trigger] r.summarizes(
                    outcomes,
                    run.ddof,
                    run.level,
                    spread,
                    positions,
                    blend,
                )
            },
{
    let (c, n, outcomes) = choose|
        c: UnitClassification,
        n: usize,
        outcomes: Seq<Option<u64>>,
    |
        {
            &&& #[trigger] c.classifies(d)
            &&& #[trigger] counts_treated_periods(d, n)
            &&& outcomes.len() == run.n_bootstrap
            &&& joint_replicates(
                outcomes,
                y,
                d,
                x,
                weights,
                &c,
                effective_of(lambdas),
                n,
                run.seed,
                method,
                average,
            )
            &&& #[trigger] r.summarizes(outcomes, run.ddof, run.level, spread, positions, blend)
        };
    assert(c.classifies(d) && counts_treated_periods(d, n));
}

/// The treated periods of a panel are counted from the first with an indicator of
/// one, whatever the length of the panel.
pub proof fn law_treated_periods_are_counted(d: &Matrix<u64>, r: usize)
    requires
        call_ensures(treated_period_count, (d,), r),
    ensures
        r <= d.rows,
        forall|t: int, i: int|
            0 <= t < d.rows - r && 0 <= i < d.cols ==> !bits::same(#[trigger] d.at(t, i), bits::ONE),
        r > 0 ==> exists|i: int|
            0 <= i < d.cols && bits::same(#[trigger] d.at(d.rows - r, i), bits::ONE),
{
    assert forall|t: int, i: int| 0 <= t < d.rows - r && 0 <= i < d.cols implies !bits::same(
        #[trigger] d.at(t, i),
        bits::ONE,
    ) by {
        assert(!treated_row(d, t));
        assert(!treated(d, t, i));
    }
    if r > 0 {
        let i = choose|i: int| 0 <= i < d.cols && #[trigger] treated(d, d.rows - r, i);
        assert(bits::same(d.at(d.rows - r, i), bits::ONE));
    }
}

/// A survey bootstrap refuses a design exactly where the sizes of its population do
/// not fit, or a stratum has a single sampling unit and that is to be refused;
/// otherwise it plans an action for every stratum and draws every replicate, each
/// with its own number, over all effects.
pub proof fn law_survey_run_draws_every_replicate<
    H: Fn(&Vec<StratumInfo>, &Vec<u64>) -> u64,
    K: Fn(usize, u64) -> Correction,
    W: Fn(UnitScale, u64, u64) -> u64,
    G: Average,
    V: Spread,
    N: Positions,
    X: Blend,
>(
    r: TropResult<BootstrapResult>,
    effects: Seq<(u64, usize)>,
    design: &SurveyDesign,
    run: BootstrapRun,
    center: H,
    correct: K,
    rescale: W,
    average: G,
    spread: V,
    positions: N,
    blend: X,
    prepared: TropResult<Vec<StratumInfo>>,
)
    requires
        design.strata@.len() == design.psu@.len(),
        ran_survey(
            r,
            effects,
            design,
            run,
            center,
            correct,
            rescale,
            average,
            spread,
            positions,
            blend,
        ),
        call_ensures(
            crate::survey::prepare_design,
            (&design.strata, &design.psu, design.sizes(), design.lonely_psu),
            prepared,
        ),
        effects.len() > 0,
    ensures
        prepared matches Err(e) ==> r is Err && r->Err_0 == e,
        prepared is Ok ==> r is Ok && r->Ok_0.n_total == run.n_bootstrap && exists|
            groups: Vec<StratumInfo>,
            actions: Seq<StratumAction>,
            mean: u64,
            outcomes: Seq<Option<u64>>,
        |
            {
                &&& describes_design(groups@, design.strata@, design.psu@, sizes_of(design.sizes()))
                &&& actions.len() == groups@.len()
                &&& forall|h: int|
                    0 <= h < actions.len() ==> acts(
                        #[trigger] actions[h],
                        groups@[h],
                        design.lonely_psu,
                        correct,
                    )
                &&& #[trigger] centers(mean, &groups, design, center)
                &&& outcomes.len() == run.n_bootstrap
                &&& #[trigger] survey_replicates(
                    outcomes,
                    effects,
                    groups@,
                    actions,
                    design,
                    mean,
                    run.seed,
                    rescale,
                    average,
                )
                &&& r->Ok_0.summarizes(outcomes, run.ddof, run.level, spread, positions, blend)
            },
{
}

/// The estimate on replicate `b` of a survey bootstrap is made from that replicate;
/// the mean weight of a sampling unit is asked for exactly where strata with a
/// single one are perturbed about it.
pub proof fn law_survey_replicates<W: Fn(UnitScale, u64, u64) -> u64, G: Average, H: Fn(
    &Vec<StratumInfo>,
    &Vec<u64>,
) -> u64>(
    outcomes: Seq<Option<u64>>,
    effects: Seq<(u64, usize)>,
    groups: &Vec<StratumInfo>,
    actions: Seq<StratumAction>,
    design: &SurveyDesign,
    mean: u64,
    seed: u64,
    rescale: W,
    average: G,
    center: H,
    b: int,
)
    requires
        survey_replicates(
            outcomes,
            effects,
            groups@,
            actions,
            design,
            mean,
            seed,
            rescale,
            average,
        ),
        centers(mean, groups, design, center),
        0 <= b < outcomes.len(),
    ensures
        gives_survey(
            outcomes[b],
            effects,
            groups@,
            actions,
            design.strata@.len(),
            design.weights@,
            mean,
            seed,
            b as usize,
            rescale,
            average,
        ),
        design.lonely_psu == LonelyPsuStrategy::Centered ==> call_ensures(
            center,
            (groups, &design.weights),
            mean,
        ),
        design.lonely_psu != LonelyPsuStrategy::Centered ==> mean == bits::ZERO,
{
}

/// A survey bootstrap without an effect estimates nothing, whatever the design.
pub proof fn law_survey_without_effects<
    H: Fn(&Vec<StratumInfo>, &Vec<u64>) -> u64,
    K: Fn(usize, u64) -> Correction,
    W: Fn(UnitScale, u64, u64) -> u64,
    G: Average,
    V: Spread,
    N: Positions,
    X: Blend,
>(
    r: TropResult<BootstrapResult>,
    design: &SurveyDesign,
    run: BootstrapRun,
    center: H,
    correct: K,
    rescale: W,
    average: G,
    spread: V,
    positions: N,
    blend: X,
)
    requires
        ran_survey(
            r,
            Seq::empty(),
            design,
            run,
            center,
            correct,
            rescale,
            average,
            spread,
            positions,
            blend,
        ),
    ensures
        r is Ok,
        r->Ok_0.estimates@.len() == 0,
        r->Ok_0.n_valid == 0,
        r->Ok_0.n_total == run.n_bootstrap,
        r->Ok_0.se == bits::ZERO,
        r->Ok_0.ci_lower == bits::NAN && r->Ok_0.ci_upper == bits::NAN,
{
}

/// Every one of the treated cells of a survey has its own effect: that under the fit
/// centred on it, from zero, or under the one joint fit; none where the fit fails.
pub proof fn law_survey_effects<
    R: PairSummary,
    T: TimeDecay,
    U: Binary,
    P: Binary,
    B: Binary,
    Z: Summary,
    O: Dot,
    C: WeightedMean,
    Q: CovariateFit,
    F: TwostepProximal,
    E: CellEffect<TwostepModel>,
    S: Binary,
    J: CellEffect<JointModel>,
>(
    effects: Seq<Option<u64>>,
    panel: &TwostepPanel,
    lambdas: Lambdas,
    cells: Seq<(usize, usize)>,
    method: &TwostepMethod<R, T, U, P, B, Z, O, C, Q, F, E, S>,
    joint: Seq<Option<u64>>,
    fit: Option<(JointModel, Iterations)>,
    effect: J,
    k: int,
)
    requires
        gives_cells(effects, panel, lambdas, cells, method),
        gives_joint_cells(joint, panel.y, panel.x, fit, cells, effect),
        0 <= k < cells.len(),
    ensures
        effects.len() == cells.len(),
        joint.len() == cells.len(),
        exists|outcome: Option<(TwostepModel, u64)>| #[trigger]
            method.estimates(outcome, panel, lambdas, cells[k], None) && (outcome is None
                <==> effects[k] is None) && (outcome matches Some((model, tau)) ==> effects[k]
                == Some(tau)),
        fit is None ==> joint[k] is None,
        fit matches Some((model, it)) ==> (joint[k] matches Some(v) && call_ensures(
            effect,
            (panel.y, panel.x, &model, cells[k]),
            v,
        )),
{
    assert(gives_cell(effects[k], panel, lambdas, cells[k], method));
    assert(joint[k] == joint[k]);
}

/// The bootstraps of the twostep method are runs without weights, the short one with
/// the sample variance: they report as many replicates as asked for.  A panel in which
/// no indicator is one has no estimate.
pub proof fn law_twostep_bootstraps<
    R: PairSummary,
    T: TimeDecay,
    U: Binary,
    P: Binary,
    B: Binary,
    Z: Summary,
    O: Dot,
    C: WeightedMean,
    Q: CovariateFit,
    F: TwostepProximal,
    E: CellEffect<TwostepModel>,
    S: Binary,
    G: Average,
    V: Spread,
    N: Positions,
    X: Blend,
>(
    y: &Matrix<u64>,
    d: &Matrix<u64>,
    control_mask: &Matrix<u8>,
    x: Option<&Matrix<u64>>,
    time_dist: &Matrix<i64>,
    lambdas: Lambdas,
    run: BootstrapRun,
    method: &TwostepMethod<R, T, U, P, B, Z, O, C, Q, F, E, S>,
    average: &G,
    spread: &V,
    positions: &N,
    blend: &X,
    plain: BootstrapResult,
    short: (Vec<u64>, u64),
)
    requires
        call_ensures(
            bootstrap_trop_variance_full::<R, T, U, P, B, Z, O, C, Q, F, E, S, G, V, N, X>,
            (
                y,
                d,
                control_mask,
                x,
                time_dist,
                lambdas,
                run,
                method,
                average,
                spread,
                positions,
                blend,
            ),
            plain,
        ),
        call_ensures(
            bootstrap_trop_variance::<R, T, U, P, B, Z, O, C, Q, F, E, S, G, V, N, X>,
            (
                y,
                d,
                control_mask,
                x,
                time_dist,
                lambdas,
                run,
                method,
                average,
                spread,
                positions,
                blend,
            ),
            short,
        ),
    ensures
        plain.n_total == run.n_bootstrap,
        plain.n_valid == plain.estimates@.len(),
        plain.level == run.level,
        ran_twostep(
            plain,
            y,
            d,
            control_mask,
            x,
            time_dist,
            None,
            lambdas,
            run,
            method,
            *average,
            *spread,
            *positions,
            *blend,
        ),
        exists|full: BootstrapResult|
            {
                &&& short.0 == full.estimates
                &&& short.1 == full.se
                &&& #[trigger] ran_twostep(
                    full,
                    y,
                    d,
                    control_mask,
                    x,
                    time_dist,
                    None,
                    lambdas,
                    (BootstrapRun { ddof: 1, ..run }),
                    method,
                    *average,
                    *spread,
                    *positions,
                    *blend,
                )
            },
        (forall|t: int, i: int|
            0 <= t < d.rows && 0 <= i < d.cols ==> !bits::same(#[trigger] d.at(t, i), bits::ONE))
            ==> plain.estimates@.len() == 0 && short.0@.len() == 0,
{
    if forall|t: int, i: int|
        0 <= t < d.rows && 0 <= i < d.cols ==> !bits::same(#[trigger] d.at(t, i), bits::ONE) {
        assert(!has_both_groups(d)) by {
            if has_both_groups(d) {
                let i = choose|i: int| 0 <= i < d.cols && #[trigger] ever_treated(d, i);
                let t = choose|t: int| 0 <= t < d.rows && #[trigger] treated(d, t, i);
                assert(bits::same(d.at(t, i), bits::ONE));
            }
        }
    }
}

/// The survey bootstraps resample the finite effects of every treated cell: each under
/// the fit centred on it, or all under one joint fit of the observed ones, at the
/// parameters used in computation.
pub proof fn law_survey_bootstraps<
    R: PairSummary,
    T: TimeDecay,
    U: Binary,
    P: Binary,
    B: Binary,
    Z: Summary,
    O: Dot,
    C: WeightedMean,
    Q: CovariateFit,
    F: TwostepProximal,
    E: CellEffect<TwostepModel>,
    S: Binary,
    H: Fn(&Vec<StratumInfo>, &Vec<u64>) -> u64,
    K: Fn(usize, u64) -> Correction,
    W: Fn(UnitScale, u64, u64) -> u64,
    G: Average,
    V: Spread,
    N: Positions,
    X: Blend,
>(
    panel: &TwostepPanel,
    lambdas: Lambdas,
    design: &SurveyDesign,
    run: BootstrapRun,
    method: &TwostepMethod<R, T, U, P, B, Z, O, C, Q, F, E, S>,
    center: &H,
    correct: &K,
    rescale: &W,
    average: &G,
    spread: &V,
    positions: &N,
    blend: &X,
    r: TropResult<BootstrapResult>,
    cells: Vec<(usize, usize)>,
    l: Lambdas,
)
    requires
        call_ensures(
            bootstrap_trop_variance_rao_wu::<R, T, U, P, B, Z, O, C, Q, F, E, S, H, K, W, G, V, N, X>,
            (
                panel,
                lambdas,
                design,
                run,
                method,
                center,
                correct,
                rescale,
                average,
                spread,
                positions,
                blend,
            ),
            r,
        ),
        call_ensures(treated_cells, (panel.d,), cells),
        call_ensures(effective, (lambdas,), l),
    ensures
        exists|effects: Seq<Option<u64>>|
            {
                &&& effects.len() == cells@.len()
                &&& #[trigger] gives_cells(effects, panel, l, cells@, method)
                &&& ran_survey(
                    r,
                    finite_effects_of(cells@, effects),
                    design,
                    run,
                    *center,
                    *correct,
                    *rescale,
                    *average,
                    *spread,
                    *positions,
                    *blend,
                )
            },
{
    let (own, effects) = choose|own: Seq<(usize, usize)>, effects: Seq<Option<u64>>|
        {
            &&& lists_cells(
                own,
                panel.d.rows as int,
                panel.d.cols as int,
                |t: int, i: int| treated(panel.d, t, i),
            )
            &&& #[trigger] gives_cells(effects, panel, effective_of(lambdas), own, method)
            &&& ran_survey(
                r,
                finite_effects_of(own, effects),
                design,
                run,
                *center,
                *correct,
                *rescale,
                *average,
                *spread,
                *positions,
                *blend,
            )
        };
    crate::matrix::law_listing_unique(
        own,
        cells@,
        panel.d.rows as int,
        panel.d.cols as int,
        |t: int, i: int| treated(panel.d, t, i),
    );
    assert(gives_cells(effects, panel, l, cells@, method));
}

/// The joint survey bootstrap fits the panel once, with its treated periods and at the
/// parameters used in computation, and resamples the finite effects of every treated
/// cell with a finite outcome.
pub proof fn law_joint_survey_bootstrap<
    A: Summary,
    R: PairSummary,
    T: DoubledDecay,
    U: Binary,
    C: Ternary,
    S: Binary,
    Z: Summary,
    Q: Unary,
    P: Binary,
    L: Solver,
    F: ProximalStep,
    E: CellEffect<JointModel>,
    D: Binary,
    H: Fn(&Vec<StratumInfo>, &Vec<u64>) -> u64,
    K: Fn(usize, u64) -> Correction,
    W: Fn(UnitScale, u64, u64) -> u64,
    G: Average,
    V: Spread,
    N: Positions,
    X: Blend,
>(
    y: &Matrix<u64>,
    d: &Matrix<u64>,
    x: Option<&Matrix<u64>>,
    lambdas: Lambdas,
    design: &SurveyDesign,
    run: BootstrapRun,
    method: &JointMethod<A, R, T, U, C, S, Z, Q, P, L, F, E, D>,
    center: &H,
    correct: &K,
    rescale: &W,
    average: &G,
    spread: &V,
    positions: &N,
    blend: &X,
    r: TropResult<BootstrapResult>,
    cells: Vec<(usize, usize)>,
    l: Lambdas,
)
    requires
        call_ensures(
            bootstrap_trop_variance_rao_wu_joint::<A, R, T, U, C, S, Z, Q, P, L, F, E, D, H, K, W, G, V, N, X>,
            (
                y,
                d,
                x,
                lambdas,
                design,
                run,
                method,
                center,
                correct,
                rescale,
                average,
                spread,
                positions,
                blend,
            ),
            r,
        ),
        call_ensures(observed_treated_cells, (y, d), cells),
        call_ensures(effective, (lambdas,), l),
    ensures
        exists|n: usize, fit: Option<(JointModel, Iterations)>, effects: Seq<Option<u64>>|
            {
                &&& counts_treated_periods(d, n)
                &&& #[trigger] method.fits_panel(fit, y, d, x, l, n)
                &&& effects.len() == cells@.len()
                &&& #[trigger] gives_joint_cells(effects, y, x, fit, cells@, *method.effect)
                &&& ran_survey(
                    r,
                    finite_effects_of(cells@, effects),
                    design,
                    run,
                    *center,
                    *correct,
                    *rescale,
                    *average,
                    *spread,
                    *positions,
                    *blend,
                )
            },
{
    let (n, fit, own, effects) = choose|
        n: usize,
        fit: Option<(JointModel, Iterations)>,
        own: Seq<(usize, usize)>,
        effects: Seq<Option<u64>>,
    |
        {
            &&& counts_treated_periods(d, n)
            &&& #[trigger] method.fits_panel(fit, y, d, x, effective_of(lambdas), n)
            &&& lists_cells(
                own,
                d.rows as int,
                d.cols as int,
                |t: int, i: int| observed_treated(y, d, t, i),
            )
            &&& #[trigger] gives_joint_cells(effects, y, x, fit, own, *method.effect)
            &&& ran_survey(
                r,
                finite_effects_of(own, effects),
                design,
                run,
                *center,
                *correct,
                *rescale,
                *average,
                *spread,
                *positions,
                *blend,
            )
        };
    crate::matrix::law_listing_unique(
        own,
        cells@,
        d.rows as int,
        d.cols as int,
        |t: int, i: int| observed_treated(y, d, t, i),
    );
    assert(method.fits_panel(fit, y, d, x, l, n));
    assert(gives_joint_cells(effects, y, x, fit, cells@, *method.effect));
}

/// The weighted bootstrap is a run with the weights given, and reports as many
/// replicates as asked for.
pub proof fn law_weighted_bootstrap<
    R: PairSummary,
    T: TimeDecay,
    U: Binary,
    P: Binary,
    B: Binary,
    Z: Summary,
    O: Dot,
    C: WeightedMean,
    Q: CovariateFit,
    F: TwostepProximal,
    E: CellEffect<TwostepModel>,
    S: Binary,
    G: Average,
    V: Spread,
    N: Positions,
    X: Blend,
>(
    y: &Matrix<u64>,
    d: &Matrix<u64>,
    control_mask: &Matrix<u8>,
    x: Option<&Matrix<u64>>,
    time_dist: &Matrix<i64>,
    lambdas: Lambdas,
    run: BootstrapRun,
    weights: &Vec<u64>,
    method: &TwostepMethod<R, T, U, P, B, Z, O, C, Q, F, E, S>,
    average: &G,
    spread: &V,
    positions: &N,
    blend: &X,
    r: BootstrapResult,
)
    requires
        call_ensures(
            bootstrap_trop_variance_full_weighted::<R, T, U, P, B, Z, O, C, Q, F, E, S, G, V, N, X>,
            (
                y,
                d,
                control_mask,
                x,
                time_dist,
                weights,
                lambdas,
                run,
                method,
                average,
                spread,
                positions,
                blend,
            ),
            r,
        ),
    ensures
        r.n_total == run.n_bootstrap,
        r.n_valid == r.estimates@.len(),
        ran_twostep(
            r,
            y,
            d,
            control_mask,
            x,
            time_dist,
            Some(weights),
            lambdas,
            run,
            method,
            *average,
            *spread,
            *positions,
            *blend,
        ),
{
}

/// The bootstrap of the joint method is a run of it without weights, and reports as
/// many replicates as asked for.
pub proof fn law_joint_bootstrap<
    A: Summary,
    R: PairSummary,
    T: DoubledDecay,
    U: Binary,
    C: Ternary,
    S: Binary,
    Z: Summary,
    Q: Unary,
    P: Binary,
    L: Solver,
    F: ProximalStep,
    E: CellEffect<JointModel>,
    D: Binary,
    G: Average,
    V: Spread,
    N: Positions,
    X: Blend,
>(
    y: &Matrix<u64>,
    d: &Matrix<u64>,
    x: Option<&Matrix<u64>>,
    lambdas: Lambdas,
    run: BootstrapRun,
    method: &JointMethod<A, R, T, U, C, S, Z, Q, P, L, F, E, D>,
    average: &G,
    spread: &V,
    positions: &N,
    blend: &X,
    r: BootstrapResult,
)
    requires
        call_ensures(
            bootstrap_trop_variance_joint_full::<A, R, T, U, C, S, Z, Q, P, L, F, E, D, G, V, N, X>,
            (y, d, x, lambdas, run, method, average, spread, positions, blend),
            r,
        ),
    ensures
        r.n_total == run.n_bootstrap,
        r.n_valid == r.estimates@.len(),
        ran_joint(
            r,
            y,
            d,
            x,
            None,
            lambdas,
            run,
            method,
            *average,
            *spread,
            *positions,
            *blend,
        ),
{
}

} // verus!

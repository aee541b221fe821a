//! Laws that relate runs to each other.
//!
//! They hold where every supplied function gives one result for the same
//! arguments.
use crate::alternating::{
    CovariateFit, Dot, TwostepModel, TwostepProximal, WeightedMean,
};
use crate::arithmetic::{
    Average, Binary, Blend, CellEffect, DoubledDecay, PairSummary, Positions, Solver, Spread,
    Summary, Ternary, TimeDecay, Unary,
};
use crate::bits;
use crate::bootstrap::{
    covariates_fit, in_panel, selects_covariates, usable, weight_of, JointReplicate,
    TwostepReplicate, UnitClassification,
};
use crate::crossval::{
    cells_in, diagnosed, lemma_scan_prefix, scanned, trial_fits, tried, warm_start, Trial,
};
use crate::determined::{
    law_one_estimate, law_one_score, lemma_one_listing, same_columns, same_outcome, same_panel,
    same_start, same_values,
};
use crate::distance::UnitDistanceCache;
use crate::estimation::Iterations;
use crate::inference::{
    finite_effects_of, law_one_summary, one_spread, BootstrapResult,
};
use crate::joint::{JointMethod, JointModel, ProximalStep};
use crate::joint_determined::{law_one_joint_fit, same_joint_model};
use crate::loocv::{
    control_cell, law_diagnosis_accounts_for_cells, law_giving_up_is_safe, lists_controls, picks,
    scan_of, scan_result, sum_of, sums_grow, Diagnosis, Fit, ScoreResult, ScoreScan,
};
use crate::matrix::{law_listing_unique, offset, Matrix};
use crate::minimum::{law_search_nears_minimum, measures, score_of, subtracts, tolerance};
use crate::panel::{ever_treated, observed_treated, same_shape, treated};
use crate::replication::{
    averages, estimates_joint, estimates_twostep, fitted_in_turn, gives_effects, gives_joint,
    gives_twostep, last_model, law_equal_weights_give_the_mean, levels_weights, pairs_periods,
    replicate_units, sample_covariates, sample_panel, sample_weights, trial_effects, CellTrial,
};
use crate::search::{
    combination_index, differences, effective_points, evaluations, exhaustive_selects,
    exhaustive_start_of, in_grids, law_reduction_selects, lemma_combination_index,
    lists_combinations, no_values, reduced, selects, Evaluation, NEG_TIE_TOL, TIE_TOL,
};
use crate::selection::{result_of, LoocvGridSearchResult};
use crate::tuned::{best_scored, scored_at, twostep_best, twostep_scorer};
use crate::tuning::{effective_of, without_low_rank, Lambdas};
use crate::twostep::{TwostepMethod, TwostepPanel};
use crate::variance::{ran_twostep, twostep_replicates, BootstrapRun};
use vstd::arithmetic::div_mod::{lemma_div_pos_is_pos, lemma_fundamental_div_mod};
use vstd::prelude::*;

verus! {

/// Two lists of fits have the same effects, and lead on to the same model.
spec fn same_trials(a: Seq<CellTrial>, b: Seq<CellTrial>) -> bool {
    trial_effects(a) == trial_effects(b) && same_start(last_model(a), last_model(b))
}

proof fn lemma_trials_push(a: Seq<CellTrial>, b: Seq<CellTrial>, k: int)
    requires
        0 <= k < a.len(),
        k < b.len(),
        same_trials(a.take(k), b.take(k)),
        same_outcome(a[k].outcome, b[k].outcome),
    ensures
        same_trials(a.take(k + 1), b.take(k + 1)),
{
    let n = k + 1;
    assert(a.take(n).drop_last() =~= a.take(k));
    assert(b.take(n).drop_last() =~= b.take(k));
    let (u, v) = (trial_effects(a.take(n)), trial_effects(b.take(n)));
    let (g, h) = (trial_effects(a.take(k)), trial_effects(b.take(k)));
    assert forall|j: int| 0 <= j < n implies u[j] == v[j] by {
        if j < k {
            assert(u[j] == g[j]);
            assert(v[j] == h[j]);
        }
    }
    assert(u =~= v);
}

proof fn lemma_trials_agree<
    R: PairSummary,
    T: TimeDecay,
    U: Binary,
    P: Binary,
    B: Binary,
    Z: Summary,
    O: Dot,
    C: WeightedMean,
    Q: CovariateFit,
    F: TwostepProximal,
    E: CellEffect<TwostepModel>,
    S: Binary,
>(
    p: &TwostepPanel,
    q: &TwostepPanel,
    cells: Seq<(usize, usize)>,
    lambdas: Lambdas,
    method: &TwostepMethod<R, T, U, P, B, Z, O, C, Q, F, E, S>,
    a: Seq<CellTrial>,
    b: Seq<CellTrial>,
    n: int,
)
    requires
        same_panel(p, q),
        cells_in(cells, p.y),
        method.steady(),
        fitted_in_turn(p, cells, lambdas, method, a),
        fitted_in_turn(q, cells, lambdas, method, b),
        0 <= n <= a.len(),
        n <= b.len(),
    ensures
        same_trials(a.take(n), b.take(n)),
    decreases n,
{
    if n > 0 {
        let k = n - 1;
        lemma_trials_agree(p, q, cells, lambdas, method, a, b, k);
        assert(a[k].start == last_model(a.take(k)));
        assert(b[k].start == last_model(b.take(k)));
        assert(p.has(cells[k]));
        law_one_estimate(
            a[k].outcome,
            b[k].outcome,
            p,
            q,
            lambdas,
            cells[k],
            a[k].start,
            b[k].start,
            method,
        );
        lemma_trials_push(a, b, k);
    } else {
        assert(trial_effects(a.take(n)) =~= trial_effects(b.take(n)));
    }
}

/// A panel has one classification, so that the replicates of a run consist of
/// the same units whatever else is run on the panel.
pub proof fn law_one_classification(
    c: &UnitClassification,
    e: &UnitClassification,
    d: &Matrix<u64>,
    seed: u64,
    b: usize,
)
    requires
        c.classifies(d),
        e.classifies(d),
    ensures
        replicate_units(c, seed, b) == replicate_units(e, seed, b),
{
    lemma_one_listing(
        c.control_units@,
        e.control_units@,
        d.cols as int,
        |i: int| !ever_treated(d, i),
    );
    lemma_one_listing(
        c.treated_units@,
        e.treated_units@,
        d.cols as int,
        |i: int| ever_treated(d, i),
    );
}

proof fn lemma_same_rows(
    a: &Matrix<u64>,
    b: &Matrix<u64>,
    x: &Matrix<u64>,
    n_periods: usize,
    n_units: usize,
    units: Seq<usize>,
)
    requires
        selects_covariates(a, x, n_periods, n_units, units),
        selects_covariates(b, x, n_periods, n_units, units),
        units.len() <= usize::MAX,
    ensures
        same_values(a, b),
{
    let n = units.len() as int;
    assert forall|r: usize, k: usize| r < a.rows && k < a.cols implies #[trigger] a.at(
        r as int,
        k as int,
    ) == b.at(r as int, k as int) by {
        assert(n > 0) by {
            if n == 0 {
                assert(n_periods * n == 0) by (nonlinear_arith)
                    requires
                        n == 0,
                ;
            }
        }
        lemma_fundamental_div_mod(r as int, n);
        let (t, j) = (r as int / n, r as int % n);
        assert(0 <= j < n);
        assert(0 <= t) by {
            lemma_div_pos_is_pos(r as int, n);
        }
        assert(t < n_periods) by (nonlinear_arith)
            requires
                r < n_periods * n,
                r == n * t + j,
                0 <= j,
                n > 0,
        ;
        assert(offset(n, t, j) == r) by (nonlinear_arith)
            requires
                r == n * t + j,
                offset(n, t, j) == t * n + j,
        ;
        let (tt, jj) = (t as usize, j as usize);
        assert(a.at(offset(n, tt as int, jj as int), k as int) == x.at(
            offset(n_units as int, tt as int, units[jj as int] as int),
            k as int,
        ));
        assert(b.at(offset(n, tt as int, jj as int), k as int) == x.at(
            offset(n_units as int, tt as int, units[jj as int] as int),
            k as int,
        ));
    }
}

proof fn lemma_same_sample(
    a: &TwostepReplicate,
    b: &TwostepReplicate,
    y: &Matrix<u64>,
    d: &Matrix<u64>,
    control_mask: &Matrix<u8>,
    x: Option<&Matrix<u64>>,
    units: Seq<usize>,
    time_dist: &Matrix<i64>,
    cache: &UnitDistanceCache,
    other: &UnitDistanceCache,
)
    requires
        same_shape(y, d),
        same_shape(y, control_mask),
        covariates_fit(y, x),
        pairs_periods(time_dist, y),
        a.replicates(y, d, control_mask, x, units),
        b.replicates(y, d, control_mask, x, units),
        cache.caches(&a.y, &a.d),
        other.caches(&b.y, &b.d),
        units.len() <= usize::MAX,
    ensures
        same_panel(&sample_panel(a, time_dist, cache), &sample_panel(b, time_dist, other)),
        a.treated@ == b.treated@,
{
    assert(same_values(&a.y, &b.y)) by {
        assert forall|t: usize, j: usize| t < a.y.rows && j < a.y.cols implies #[trigger] a.y.at(
            t as int,
            j as int,
        ) == b.y.at(t as int, j as int) by {
            assert(b.y.at(t as int, j as int) == y.at(t as int, units[j as int] as int));
        }
    }
    assert(same_values(&a.d, &b.d)) by {
        assert forall|t: usize, j: usize| t < a.d.rows && j < a.d.cols implies #[trigger] a.d.at(
            t as int,
            j as int,
        ) == b.d.at(t as int, j as int) by {
            assert(b.d.at(t as int, j as int) == d.at(t as int, units[j as int] as int));
        }
    }
    assert(same_values(&a.control_mask, &b.control_mask)) by {
        assert forall|t: usize, j: usize|
            t < a.control_mask.rows && j < a.control_mask.cols implies #[trigger] a.control_mask.at(
            t as int,
            j as int,
        ) == b.control_mask.at(t as int, j as int) by {
            assert(b.control_mask.at(t as int, j as int) == control_mask.at(
                t as int,
                units[j as int] as int,
            ));
        }
    }
    if let Some(m) = x {
        lemma_same_rows(&a.x->0, &b.x->0, m, y.rows, y.cols, units);
    }
    law_listing_unique(
        a.treated@,
        b.treated@,
        d.rows as int,
        units.len() as int,
        |t: int, j: int| treated(d, t, units[j] as int),
    );
}

proof fn lemma_effects_in_sample(
    cells: Seq<(usize, usize)>,
    effects: Seq<Option<u64>>,
    bound: int,
)
    requires
        cells.len() == effects.len(),
        forall|k: int| 0 <= k < cells.len() ==> (#[trigger] cells[k]).1 < bound,
    ensures
        forall|k: int|
            0 <= k < finite_effects_of(cells, effects).len() ==> (#[trigger] finite_effects_of(
                cells,
                effects,
            )[k]).1 < bound,
    decreases cells.len(),
{
    if cells.len() > 0 {
        let (c, e) = (cells.drop_last(), effects.drop_last());
        assert forall|k: int| 0 <= k < c.len() implies (#[trigger] c[k]).1 < bound by {
            assert(c[k] == cells[k]);
        }
        lemma_effects_in_sample(c, e, bound);
        let (all, rest) = (finite_effects_of(cells, effects), finite_effects_of(c, e));
        assert(cells[cells.len() - 1].1 < bound);
        assert forall|k: int| 0 <= k < all.len() implies (#[trigger] all[k]).1 < bound by {
            if k < rest.len() {
                assert(all[k] == rest[k]);
            }
        }
    }
}

/// On a replicate, equal weights give the estimate without weights.
pub proof fn law_equal_weights_give_the_unweighted_estimate<
    R: PairSummary,
    T: TimeDecay,
    U: Binary,
    P: Binary,
    B: Binary,
    Z: Summary,
    O: Dot,
    C: WeightedMean,
    Q: CovariateFit,
    F: TwostepProximal,
    E: CellEffect<TwostepModel>,
    S: Binary,
    G: Average,
>(
    plain: Option<u64>,
    weighted: Option<u64>,
    y: &Matrix<u64>,
    d: &Matrix<u64>,
    control_mask: &Matrix<u8>,
    x: Option<&Matrix<u64>>,
    time_dist: &Matrix<i64>,
    weights: &Vec<u64>,
    w: u64,
    c: &UnitClassification,
    e: &UnitClassification,
    lambdas: Lambdas,
    seed: u64,
    b: usize,
    method: &TwostepMethod<R, T, U, P, B, Z, O, C, Q, F, E, S>,
    average: G,
)
    requires
        same_shape(y, d),
        same_shape(y, control_mask),
        covariates_fit(y, x),
        pairs_periods(time_dist, y),
        c.classifies(d),
        e.classifies(d),
        gives_twostep(
            plain,
            y,
            d,
            control_mask,
            x,
            time_dist,
            None,
            c,
            lambdas,
            seed,
            b,
            method,
            average,
        ),
        gives_twostep(
            weighted,
            y,
            d,
            control_mask,
            x,
            time_dist,
            Some(weights),
            e,
            lambdas,
            seed,
            b,
            method,
            average,
        ),
        weights@.len() >= d.cols,
        bits::positive_finite(w),
        forall|i: int| 0 <= i < weights@.len() ==> #[trigger] weights@[i] == w,
        method.steady(),
        levels_weights(average, w),
    ensures
        plain == weighted,
{
    law_one_classification(c, e, d, seed, b);
    let units = replicate_units(c, seed, b);
    if usable(d, units) {
        let a = choose|replicate: TwostepReplicate| #[trigger]
            replicate.replicates(y, d, control_mask, x, units)
                && estimates_twostep(
                plain,
                replicate,
                time_dist,
                None,
                lambdas,
                method,
                average,
            );
        let o = choose|replicate: TwostepReplicate| #[trigger]
            replicate.replicates(y, d, control_mask, x, units)
                && estimates_twostep(
                weighted,
                replicate,
                time_dist,
                Some(weights),
                lambdas,
                method,
                average,
            );
        let (cache, trials) = choose|cache: UnitDistanceCache, trials: Seq<CellTrial>|
            {
                &&& cache.caches(&a.y, &a.d)
                &&& #[trigger] fitted_in_turn(
                    &sample_panel(&a, time_dist, &cache),
                    a.treated@,
                    lambdas,
                    method,
                    trials,
                )
                &&& trials.len() == a.treated@.len()
                &&& averages(
                    plain,
                    finite_effects_of(a.treated@, trial_effects(trials)),
                    sample_weights(None, a.units@),
                    average,
                )
            };
        let (other, others) = choose|cache: UnitDistanceCache, trials: Seq<CellTrial>|
            {
                &&& cache.caches(&o.y, &o.d)
                &&& #[trigger] fitted_in_turn(
                    &sample_panel(&o, time_dist, &cache),
                    o.treated@,
                    lambdas,
                    method,
                    trials,
                )
                &&& trials.len() == o.treated@.len()
                &&& averages(
                    weighted,
                    finite_effects_of(o.treated@, trial_effects(trials)),
                    sample_weights(Some(weights), o.units@),
                    average,
                )
            };
        assert(units.len() == a.y.cols);
        lemma_same_sample(&a, &o, y, d, control_mask, x, units, time_dist, &cache, &other);
        assert(cells_in(a.treated@, &a.y));
        let (p, q) = (
            sample_panel(&a, time_dist, &cache),
            sample_panel(&o, time_dist, &other),
        );
        lemma_trials_agree(
            &p,
            &q,
            a.treated@,
            lambdas,
            method,
            trials,
            others,
            trials.len() as int,
        );
        assert(trials.take(trials.len() as int) =~= trials);
        assert(others.take(trials.len() as int) =~= others);
        let effects = finite_effects_of(a.treated@, trial_effects(trials));
        let drawn = sample_weights(Some(weights), units)->0;
        assert forall|j: int| 0 <= j < drawn.len() implies #[trigger] drawn[j] == w by {
            assert(in_panel(units, d.cols));
            assert(units[j] < d.cols);
            assert(drawn[j] == weight_of(weights@, units[j] as int));
        }
        assert forall|k: int| 0 <= k < a.treated@.len() implies (#[trigger] a.treated@[k]).1
            < units.len() by {}
        lemma_effects_in_sample(a.treated@, trial_effects(trials), units.len() as int);
        law_equal_weights_give_the_mean(plain, weighted, effects, drawn, w, average);
    }
}

/// A run with equal weights has the estimates of the run without weights, and so
/// its mean and its standard error.
pub proof fn law_equal_weights_give_the_unweighted_run<
    R: PairSummary,
    T: TimeDecay,
    U: Binary,
    P: Binary,
    B: Binary,
    Z: Summary,
    O: Dot,
    C: WeightedMean,
    Q: CovariateFit,
    F: TwostepProximal,
    E: CellEffect<TwostepModel>,
    S: Binary,
    G: Average,
    V: Spread,
    N: Positions,
    X: Blend,
>(
    plain: BootstrapResult,
    weighted: BootstrapResult,
    y: &Matrix<u64>,
    d: &Matrix<u64>,
    control_mask: &Matrix<u8>,
    x: Option<&Matrix<u64>>,
    time_dist: &Matrix<i64>,
    weights: &Vec<u64>,
    w: u64,
    lambdas: Lambdas,
    run: BootstrapRun,
    method: &TwostepMethod<R, T, U, P, B, Z, O, C, Q, F, E, S>,
    average: G,
    spread: V,
    positions: N,
    blend: X,
)
    requires
        same_shape(y, d),
        same_shape(y, control_mask),
        covariates_fit(y, x),
        pairs_periods(time_dist, y),
        ran_twostep(
            plain,
            y,
            d,
            control_mask,
            x,
            time_dist,
            None,
            lambdas,
            run,
            method,
            average,
            spread,
            positions,
            blend,
        ),
        ran_twostep(
            weighted,
            y,
            d,
            control_mask,
            x,
            time_dist,
            Some(weights),
            lambdas,
            run,
            method,
            average,
            spread,
            positions,
            blend,
        ),
        weights@.len() >= d.cols,
        bits::positive_finite(w),
        forall|i: int| 0 <= i < weights@.len() ==> #[trigger] weights@[i] == w,
        method.steady(),
        levels_weights(average, w),
    ensures
        plain.estimates@ == weighted.estimates@,
        plain.n_valid == weighted.n_valid,
        plain.n_total == weighted.n_total,
        one_spread(spread) ==> plain.mean == weighted.mean && plain.se == weighted.se,
{
    let l = effective_of(lambdas);
    let (c, first) = choose|c: UnitClassification, outcomes: Seq<Option<u64>>|
        {
            &&& #[trigger] c.classifies(d)
            &&& outcomes.len() == run.n_bootstrap
            &&& twostep_replicates(
                outcomes,
                y,
                d,
                control_mask,
                x,
                time_dist,
                None,
                &c,
                l,
                run.seed,
                method,
                average,
            )
            &&& #[trigger] plain.summarizes(
                outcomes,
                run.ddof,
                run.level,
                spread,
                positions,
                blend,
            )
        };
    let (e, second) = choose|e: UnitClassification, outcomes: Seq<Option<u64>>|
        {
            &&& #[trigger] e.classifies(d)
            &&& outcomes.len() == run.n_bootstrap
            &&& twostep_replicates(
                outcomes,
                y,
                d,
                control_mask,
                x,
                time_dist,
                Some(weights),
                &e,
                l,
                run.seed,
                method,
                average,
            )
            &&& #[trigger] weighted.summarizes(
                outcomes,
                run.ddof,
                run.level,
                spread,
                positions,
                blend,
            )
        };
    assert forall|b: int| 0 <= b < first.len() implies first[b] == second[b] by {
        law_equal_weights_give_the_unweighted_estimate(
            first[b],
            second[b],
            y,
            d,
            control_mask,
            x,
            time_dist,
            weights,
            w,
            &c,
            &e,
            l,
            run.seed,
            b as usize,
            method,
            average,
        );
    }
    assert(first =~= second);
    if one_spread(spread) {
        law_one_summary(&plain, &weighted, first, run.ddof, run.level, spread, positions, blend);
    }
}

/// Two lists of evaluations have the same sums, and lead on to the same model.
spec fn same_tries(a: Seq<Trial>, b: Seq<Trial>) -> bool {
    trial_fits(a) == trial_fits(b) && same_start(warm_start(a), warm_start(b))
}

proof fn lemma_tried_push(a: Seq<Trial>, b: Seq<Trial>, k: int)
    requires
        0 <= k < a.len(),
        k < b.len(),
        same_tries(a.take(k), b.take(k)),
        same_outcome(a[k].outcome, b[k].outcome),
    ensures
        same_tries(a.take(k + 1), b.take(k + 1)),
{
    let n = k + 1;
    assert(a.take(n).drop_last() =~= a.take(k));
    assert(b.take(n).drop_last() =~= b.take(k));
    let (u, v) = (trial_fits(a.take(n)), trial_fits(b.take(n)));
    let (g, h) = (trial_fits(a.take(k)), trial_fits(b.take(k)));
    assert forall|j: int| 0 <= j < n implies u[j] == v[j] by {
        if j < k {
            assert(u[j] == g[j]);
            assert(v[j] == h[j]);
        }
    }
    assert(u =~= v);
}

proof fn lemma_tried_agree<
    R: PairSummary,
    T: TimeDecay,
    U: Binary,
    P: Binary,
    B: Binary,
    Z: Summary,
    O: Dot,
    C: WeightedMean,
    Q: CovariateFit,
    F: TwostepProximal,
    E: CellEffect<TwostepModel>,
    S: Binary,
>(
    panel: &TwostepPanel,
    cells: Seq<(usize, usize)>,
    lambdas: Lambdas,
    method: &TwostepMethod<R, T, U, P, B, Z, O, C, Q, F, E, S>,
    a: Seq<Trial>,
    b: Seq<Trial>,
    n: int,
)
    requires
        panel.wf(),
        cells_in(cells, panel.y),
        method.steady(),
        tried(panel, cells, lambdas, method, a),
        tried(panel, cells, lambdas, method, b),
        0 <= n <= a.len(),
        n <= b.len(),
    ensures
        same_tries(a.take(n), b.take(n)),
    decreases n,
{
    if n > 0 {
        let k = n - 1;
        lemma_tried_agree(panel, cells, lambdas, method, a, b, k);
        assert(a[k].start == warm_start(a.take(k)) && a[k].sum == sum_of(trial_fits(a.take(k))));
        assert(b[k].start == warm_start(b.take(k)) && b[k].sum == sum_of(trial_fits(b.take(k))));
        assert(panel.has(cells[k]));
        law_one_score(
            a[k].outcome,
            b[k].outcome,
            panel,
            panel,
            lambdas,
            cells[k],
            a[k].start,
            b[k].start,
            a[k].sum,
            method,
        );
        lemma_tried_push(a, b, k);
    } else {
        assert(trial_fits(a.take(n)) =~= trial_fits(b.take(n)));
    }
}

proof fn lemma_scan_continues(
    cells: Seq<(usize, usize)>,
    fits: Seq<Fit>,
    bound: u64,
    n: int,
    m: int,
)
    requires
        0 <= n <= m,
        scan_of(cells, fits, bound, n).stopped is Some,
    ensures
        scan_of(cells, fits, bound, m) == scan_of(cells, fits, bound, n),
    decreases m,
{
    if n < m {
        lemma_scan_continues(cells, fits, bound, n, m - 1);
    }
}

/// Adding a square never makes a sum smaller.
pub open spec fn adds_squares<S: Binary>(add_square: S) -> bool {
    forall|sum: u64, effect: u64, total: u64| #[trigger]
        call_ensures(add_square, (sum, effect), total) ==> bits::nan(total) || bits::le(sum, total)
}

proof fn lemma_sums_grow(fits: Seq<Fit>, n: int)
    requires
        0 <= n <= fits.len(),
        forall|k: int|
            0 <= k < fits.len() ==> ((#[trigger] fits[k]) matches Fit::Effect(total) ==> bits::nan(
                total,
            ) || bits::le(sum_of(fits.take(k)), total)),
    ensures
        sums_grow(fits.take(n)),
        forall|i: int|
            0 <= i < n && (#[trigger] fits[i]) is Effect ==> bits::nan(sum_of(fits.take(n)))
                || bits::le(fits[i]->Effect_0, sum_of(fits.take(n))),
    decreases n,
{
    if n > 0 {
        let k = n - 1;
        lemma_sums_grow(fits, k);
        let (f, g) = (fits.take(n), fits.take(k));
        assert(f.drop_last() =~= g);
        assert(f.last() == fits[k]);
        assert forall|i: int, j: int|
            0 <= i <= j < f.len() && f[i] is Effect && f[j] is Effect implies bits::nan(
            (#[trigger] f[j])->Effect_0,
        ) || bits::le((#[trigger] f[i])->Effect_0, f[j]->Effect_0) by {
            assert(f[i] == fits[i] && f[j] == fits[j]);
            if j < k {
                assert(f[i] == g[i] && f[j] == g[j]);
            }
        }
    }
}

proof fn lemma_sum_not_smaller<
    R: PairSummary,
    T: TimeDecay,
    U: Binary,
    P: Binary,
    B: Binary,
    Z: Summary,
    O: Dot,
    C: WeightedMean,
    Q: CovariateFit,
    F: TwostepProximal,
    E: CellEffect<TwostepModel>,
    S: Binary,
>(
    r: Option<(TwostepModel, u64)>,
    panel: &TwostepPanel,
    lambdas: Lambdas,
    cell: (usize, usize),
    from: Option<TwostepModel>,
    sum: u64,
    method: &TwostepMethod<R, T, U, P, B, Z, O, C, Q, F, E, S>,
)
    requires
        method.scores(r, panel, lambdas, cell, from, sum),
        adds_squares(*method.add_square),
    ensures
        r matches Some((model, total)) ==> bits::nan(total) || bits::le(sum, total),
{
}

proof fn lemma_tried_sums_grow<
    R: PairSummary,
    T: TimeDecay,
    U: Binary,
    P: Binary,
    B: Binary,
    Z: Summary,
    O: Dot,
    C: WeightedMean,
    Q: CovariateFit,
    F: TwostepProximal,
    E: CellEffect<TwostepModel>,
    S: Binary,
>(
    panel: &TwostepPanel,
    cells: Seq<(usize, usize)>,
    lambdas: Lambdas,
    method: &TwostepMethod<R, T, U, P, B, Z, O, C, Q, F, E, S>,
    trials: Seq<Trial>,
)
    requires
        tried(panel, cells, lambdas, method, trials),
        adds_squares(*method.add_square),
    ensures
        sums_grow(trial_fits(trials)),
{
    let fits = trial_fits(trials);
    assert forall|k: int| 0 <= k < fits.len() implies ((#[trigger] fits[k]) matches Fit::Effect(
        total,
    ) ==> bits::nan(total) || bits::le(sum_of(fits.take(k)), total)) by {
        let trial = trials[k];
        assert(trial_fits(trials.take(k)) =~= fits.take(k));
        lemma_sum_not_smaller(
            trial.outcome,
            panel,
            lambdas,
            cells[k],
            trial.start,
            trial.sum,
            method,
        );
    }
    let n = fits.len() as int;
    lemma_sums_grow(fits, n);
    assert(fits.take(n) =~= fits);
}

/// The fits that are known, and failures in place of the others.
spec fn padded(known: Seq<Fit>, n: nat) -> Seq<Fit> {
    Seq::new(
        n,
        |k: int|
            if k < known.len() {
                known[k]
            } else {
                Fit::Failed
            },
    )
}

proof fn lemma_padded_grow(known: Seq<Fit>, n: nat)
    requires
        sums_grow(known),
    ensures
        sums_grow(padded(known, n)),
{
    let fits = padded(known, n);
    assert forall|i: int, j: int|
        0 <= i <= j < fits.len() && fits[i] is Effect && fits[j] is Effect implies bits::nan(
        (#[trigger] fits[j])->Effect_0,
    ) || bits::le((#[trigger] fits[i])->Effect_0, fits[j]->Effect_0) by {
        assert(fits[i] == known[i] && fits[j] == known[j]);
    }
}

proof fn lemma_scan_of_longer(
    scan: ScoreScan,
    cells: Seq<(usize, usize)>,
    part: Seq<Fit>,
    fits: Seq<Fit>,
    bound: u64,
)
    requires
        part.len() <= cells.len(),
        fits.len() == cells.len(),
        forall|k: int| 0 <= k < part.len() ==> part[k] == #[trigger] fits[k],
        scan == scan_of(cells, part, bound, part.len() as int),
        scan.stopped is None ==> part.len() == cells.len(),
    ensures
        scan == scan_of(cells, fits, bound, cells.len() as int),
{
    let n = part.len() as int;
    lemma_scan_prefix(cells, part, fits, bound, n);
    if scan.stopped is Some {
        lemma_scan_continues(cells, fits, bound, n, cells.len() as int);
    }
}

/// What leaving out each cell gives, with failures in place of what two
/// evaluations did not come to.
proof fn lemma_common_fits<
    R: PairSummary,
    T: TimeDecay,
    U: Binary,
    P: Binary,
    B: Binary,
    Z: Summary,
    O: Dot,
    C: WeightedMean,
    Q: CovariateFit,
    F: TwostepProximal,
    E: CellEffect<TwostepModel>,
    S: Binary,
>(
    scan: ScoreScan,
    other: ScoreScan,
    panel: &TwostepPanel,
    cells: Seq<(usize, usize)>,
    lambdas: Lambdas,
    method: &TwostepMethod<R, T, U, P, B, Z, O, C, Q, F, E, S>,
    bound: u64,
    limit: u64,
) -> (fits: Seq<Fit>)
    requires
        panel.wf(),
        cells_in(cells, panel.y),
        method.steady(),
        scanned(scan, panel, cells, lambdas, method, bound),
        scanned(other, panel, cells, lambdas, method, limit),
    ensures
        fits.len() == cells.len(),
        scan == scan_of(cells, fits, bound, cells.len() as int),
        other == scan_of(cells, fits, limit, cells.len() as int),
        forall|k: int| 0 <= k < fits.len() ==> #[trigger] fits[k] != Fit::Unobserved,
        adds_squares(*method.add_square) ==> sums_grow(fits),
{
    let a = choose|trials: Seq<Trial>| #[trigger]
        tried(panel, cells, lambdas, method, trials) && scan == scan_of(
            cells,
            trial_fits(trials),
            bound,
            trials.len() as int,
        ) && (scan.stopped is None ==> trials.len() == cells.len());
    let b = choose|trials: Seq<Trial>| #[trigger]
        tried(panel, cells, lambdas, method, trials) && other == scan_of(
            cells,
            trial_fits(trials),
            limit,
            trials.len() as int,
        ) && (other.stopped is None ==> trials.len() == cells.len());
    if a.len() <= b.len() {
        lemma_padded_fits(scan, other, a, b, panel, cells, lambdas, method, bound, limit)
    } else {
        lemma_padded_fits(other, scan, b, a, panel, cells, lambdas, method, limit, bound)
    }
}

proof fn lemma_padded_fits<
    R: PairSummary,
    T: TimeDecay,
    U: Binary,
    P: Binary,
    B: Binary,
    Z: Summary,
    O: Dot,
    C: WeightedMean,
    Q: CovariateFit,
    F: TwostepProximal,
    E: CellEffect<TwostepModel>,
    S: Binary,
>(
    scan: ScoreScan,
    other: ScoreScan,
    a: Seq<Trial>,
    b: Seq<Trial>,
    panel: &TwostepPanel,
    cells: Seq<(usize, usize)>,
    lambdas: Lambdas,
    method: &TwostepMethod<R, T, U, P, B, Z, O, C, Q, F, E, S>,
    bound: u64,
    limit: u64,
) -> (fits: Seq<Fit>)
    requires
        panel.wf(),
        cells_in(cells, panel.y),
        method.steady(),
        tried(panel, cells, lambdas, method, a),
        tried(panel, cells, lambdas, method, b),
        a.len() <= b.len(),
        scan == scan_of(cells, trial_fits(a), bound, a.len() as int),
        scan.stopped is None ==> a.len() == cells.len(),
        other == scan_of(cells, trial_fits(b), limit, b.len() as int),
        other.stopped is None ==> b.len() == cells.len(),
    ensures
        fits.len() == cells.len(),
        scan == scan_of(cells, fits, bound, cells.len() as int),
        other == scan_of(cells, fits, limit, cells.len() as int),
        forall|k: int| 0 <= k < fits.len() ==> #[trigger] fits[k] != Fit::Unobserved,
        adds_squares(*method.add_square) ==> sums_grow(fits),
{
    let known = trial_fits(b);
    let fits = padded(known, cells.len());
    lemma_same_prefix(panel, cells, lambdas, method, a, b);
    lemma_scan_of_longer(scan, cells, trial_fits(a), fits, bound);
    lemma_scan_of_longer(other, cells, known, fits, limit);
    if adds_squares(*method.add_square) {
        lemma_tried_sums_grow(panel, cells, lambdas, method, b);
        lemma_padded_grow(known, cells.len());
    }
    fits
}

proof fn lemma_same_prefix<
    R: PairSummary,
    T: TimeDecay,
    U: Binary,
    P: Binary,
    B: Binary,
    Z: Summary,
    O: Dot,
    C: WeightedMean,
    Q: CovariateFit,
    F: TwostepProximal,
    E: CellEffect<TwostepModel>,
    S: Binary,
>(
    panel: &TwostepPanel,
    cells: Seq<(usize, usize)>,
    lambdas: Lambdas,
    method: &TwostepMethod<R, T, U, P, B, Z, O, C, Q, F, E, S>,
    a: Seq<Trial>,
    b: Seq<Trial>,
)
    requires
        panel.wf(),
        cells_in(cells, panel.y),
        method.steady(),
        tried(panel, cells, lambdas, method, a),
        tried(panel, cells, lambdas, method, b),
        a.len() <= b.len(),
    ensures
        forall|k: int| 0 <= k < a.len() ==> trial_fits(a)[k] == #[trigger] trial_fits(b)[k],
{
    let n = a.len() as int;
    lemma_tried_agree(panel, cells, lambdas, method, a, b, n);
    assert forall|k: int| 0 <= k < n implies trial_fits(a)[k] == #[trigger] trial_fits(b)[k] by {
        assert(trial_fits(a.take(n))[k] == trial_fits(b.take(n))[k]);
    }
}

/// `r` is the criterion of the twostep method at some parameters, given up above
/// a bound.
pub open spec fn scored_within<
    R: PairSummary,
    T: TimeDecay,
    U: Binary,
    P: Binary,
    B: Binary,
    Z: Summary,
    O: Dot,
    C: WeightedMean,
    Q: CovariateFit,
    F: TwostepProximal,
    E: CellEffect<TwostepModel>,
    S: Binary,
>(
    r: ScoreResult,
    panel: &TwostepPanel,
    cells: Seq<(usize, usize)>,
    lambdas: Lambdas,
    method: &TwostepMethod<R, T, U, P, B, Z, O, C, Q, F, E, S>,
    bound: u64,
) -> bool {
    exists|scan: ScoreScan| #[trigger]
        scanned(scan, panel, cells, lambdas, method, bound) && r == scan_result(scan)
}

/// Stopping early is safe.  A criterion within the bound, and a failure, are
/// what the evaluation without a bound gives, and within the bound every cell
/// entered the sum.  Where adding a square never makes a sum smaller, a
/// criterion above the bound is at most the one without a bound, unless that is
/// no number, and parameters whose criterion without a bound is within the bound
/// are evaluated in full.  Without a cell the criterion is infinite.
pub proof fn law_stopping_early_is_safe<
    R: PairSummary,
    T: TimeDecay,
    U: Binary,
    P: Binary,
    B: Binary,
    Z: Summary,
    O: Dot,
    C: WeightedMean,
    Q: CovariateFit,
    F: TwostepProximal,
    E: CellEffect<TwostepModel>,
    S: Binary,
>(
    r: ScoreResult,
    full: ScoreResult,
    panel: &TwostepPanel,
    cells: &Vec<(usize, usize)>,
    lambdas: Lambdas,
    method: &TwostepMethod<R, T, U, P, B, Z, O, C, Q, F, E, S>,
    bound: u64,
)
    requires
        panel.wf(),
        cells_in(cells@, panel.y),
        scored_within(r, panel, cells@, lambdas, method, bound),
        scored_at(full, panel, cells@, lambdas, method),
        method.steady(),
    ensures
        bits::le(r.score, bound) || r.first_failed is Some ==> r == full,
        bits::le(r.score, bound) && r.first_failed is None ==> r.n_valid == cells@.len(),
        adds_squares(*method.add_square) && bits::lt(bound, r.score) ==> bits::nan(full.score)
            || bits::le(r.score, full.score),
        adds_squares(*method.add_square) && bits::le(full.score, bound) ==> r == full,
        cells@.len() == 0 ==> r == (ScoreResult {
            score: bits::INFINITY,
            n_valid: 0,
            first_failed: None,
        }),
{
    let scan = choose|scan: ScoreScan| #[trigger]
        scanned(scan, panel, cells@, lambdas, method, bound) && r == scan_result(scan);
    let other = choose|scan: ScoreScan| #[trigger]
        scanned(scan, panel, cells@, lambdas, method, bits::INFINITY) && full == scan_result(scan);
    let fits = lemma_common_fits(
        scan,
        other,
        panel,
        cells@,
        lambdas,
        method,
        bound,
        bits::INFINITY,
    );
    assert(cells@.len() == cells.len());
    law_giving_up_is_safe(cells@, fits, bound);
    lemma_unstopped_counts(cells@, fits, bound, cells@.len() as int);
    if scan.stopped is Some && r.first_failed is None {
        assert(bits::lt(bound, r.score)) by {
            lemma_given_up_above(cells@, fits, bound, cells@.len() as int);
        }
    }
}

proof fn lemma_unstopped_counts(
    cells: Seq<(usize, usize)>,
    fits: Seq<Fit>,
    bound: u64,
    n: int,
)
    requires
        cells.len() == fits.len(),
        0 <= n <= cells.len(),
        cells.len() <= usize::MAX,
        forall|k: int| 0 <= k < fits.len() ==> #[trigger] fits[k] != Fit::Unobserved,
    ensures
        scan_of(cells, fits, bound, n).stopped is None ==> scan_of(cells, fits, bound, n).n_valid
            == n,
    decreases n,
{
    if n > 0 {
        lemma_unstopped_counts(cells, fits, bound, n - 1);
        assert(fits[n - 1] != Fit::Unobserved);
    }
}

proof fn lemma_given_up_above(
    cells: Seq<(usize, usize)>,
    fits: Seq<Fit>,
    bound: u64,
    n: int,
)
    requires
        scan_of(cells, fits, bound, n).stopped matches Some(r) && r.first_failed is None,
    ensures
        bits::lt(bound, scan_result(scan_of(cells, fits, bound, n)).score),
    decreases n,
{
    if n > 0 && scan_of(cells, fits, bound, n - 1).stopped is Some {
        lemma_given_up_above(cells, fits, bound, n - 1);
    }
}

/// The full diagnosis has the criterion of the evaluation without a bound.  Each
/// cell either entered the sum or is among the failed ones, which are listed in
/// order; the evaluation without a bound reports the first of these.
pub proof fn law_diagnosis_is_the_criterion<
    R: PairSummary,
    T: TimeDecay,
    U: Binary,
    P: Binary,
    B: Binary,
    Z: Summary,
    O: Dot,
    C: WeightedMean,
    Q: CovariateFit,
    F: TwostepProximal,
    E: CellEffect<TwostepModel>,
    S: Binary,
>(
    full: ScoreResult,
    diagnosis: Diagnosis,
    panel: &TwostepPanel,
    cells: &Vec<(usize, usize)>,
    lambdas: Lambdas,
    method: &TwostepMethod<R, T, U, P, B, Z, O, C, Q, F, E, S>,
)
    requires
        panel.wf(),
        cells_in(cells@, panel.y),
        scored_at(full, panel, cells@, lambdas, method),
        diagnosed(diagnosis, panel, cells@, lambdas, method),
        method.steady(),
    ensures
        diagnosis.n_valid + diagnosis.failed@.len() == cells@.len(),
        exists|at: Seq<int>| #[trigger] picks(diagnosis.failed@, cells@, at),
        diagnosis.failed@.len() > 0 || cells@.len() == 0 ==> diagnosis.score == bits::INFINITY,
        full.score == diagnosis.score,
        diagnosis.failed@.len() == 0 <==> full.first_failed is None,
        diagnosis.failed@.len() == 0 ==> full.n_valid == diagnosis.n_valid,
        diagnosis.failed@.len() > 0 ==> full.first_failed == Some(diagnosis.failed@[0]),
{
    let scan = choose|scan: ScoreScan| #[trigger]
        scanned(scan, panel, cells@, lambdas, method, bits::INFINITY) && full == scan_result(scan);
    let some = choose|trials: Seq<Trial>| #[trigger]
        tried(panel, cells@, lambdas, method, trials) && scan == scan_of(
            cells@,
            trial_fits(trials),
            bits::INFINITY,
            trials.len() as int,
        ) && (scan.stopped is None ==> trials.len() == cells@.len());
    let all = choose|trials: Seq<Trial>| #[trigger]
        tried(panel, cells@, lambdas, method, trials) && trials.len() == cells@.len()
            && diagnosis.diagnoses(cells@, trial_fits(trials));
    lemma_same_prefix(panel, cells@, lambdas, method, some, all);
    let fits = trial_fits(all);
    lemma_scan_of_longer(scan, cells@, trial_fits(some), fits, bits::INFINITY);
    assert(cells@.len() == cells.len());
    law_diagnosis_accounts_for_cells(diagnosis, cells@, fits);
    assert forall|k: int| 0 <= k < fits.len() implies #[trigger] fits[k] != Fit::Unobserved by {}
}

/// A difference exceeds the tolerance exactly where the two numbers differ by
/// more.
pub open spec fn measured(diff: u64, new: u64, best: u64) -> bool {
    let (a, b, tol) = (
        bits::signed_numerator(new),
        bits::signed_numerator(best),
        bits::signed_numerator(TIE_TOL),
    );
    bits::finite(new) && bits::finite(best) ==> {
        &&& bits::lt(diff, NEG_TIE_TOL) <==> a < b - tol
        &&& bits::lt(TIE_TOL, diff) <==> a > b + tol
    }
}

/// `score` is the criterion of a panel at some parameters, over all of its
/// control cells.
pub open spec fn criterion_at<
    R: PairSummary,
    T: TimeDecay,
    U: Binary,
    P: Binary,
    B: Binary,
    Z: Summary,
    O: Dot,
    C: WeightedMean,
    Q: CovariateFit,
    F: TwostepProximal,
    E: CellEffect<TwostepModel>,
    S: Binary,
>(
    score: u64,
    panel: &TwostepPanel,
    lambdas: Lambdas,
    method: &TwostepMethod<R, T, U, P, B, Z, O, C, Q, F, E, S>,
) -> bool {
    exists|cells: Vec<(usize, usize)>, result: ScoreResult|
        {
            &&& lists_controls(cells@, panel.y, panel.control_mask)
            &&& #[trigger] scored_at(result, panel, cells@, lambdas, method)
            &&& score == result.score
        }
}

/// `score` is the criterion of a panel at some parameters of the grids.
pub open spec fn criterion_in<
    R: PairSummary,
    T: TimeDecay,
    U: Binary,
    P: Binary,
    B: Binary,
    Z: Summary,
    O: Dot,
    C: WeightedMean,
    Q: CovariateFit,
    F: TwostepProximal,
    E: CellEffect<TwostepModel>,
    S: Binary,
>(
    score: u64,
    panel: &TwostepPanel,
    time_grid: Seq<u64>,
    unit_grid: Seq<u64>,
    nn_grid: Seq<u64>,
    method: &TwostepMethod<R, T, U, P, B, Z, O, C, Q, F, E, S>,
) -> bool {
    exists|l: Lambdas| #[trigger]
        in_grids(l, time_grid, unit_grid, nn_grid) && criterion_at(
            score,
            panel,
            effective_of(l),
            method,
        )
}

/// A panel has one criterion at given parameters.
pub proof fn law_one_criterion<
    R: PairSummary,
    T: TimeDecay,
    U: Binary,
    P: Binary,
    B: Binary,
    Z: Summary,
    O: Dot,
    C: WeightedMean,
    Q: CovariateFit,
    F: TwostepProximal,
    E: CellEffect<TwostepModel>,
    S: Binary,
>(
    a: u64,
    b: u64,
    panel: &TwostepPanel,
    lambdas: Lambdas,
    method: &TwostepMethod<R, T, U, P, B, Z, O, C, Q, F, E, S>,
)
    requires
        panel.wf(),
        criterion_at(a, panel, lambdas, method),
        criterion_at(b, panel, lambdas, method),
        method.steady(),
    ensures
        a == b,
{
    let (c, p) = choose|cells: Vec<(usize, usize)>, result: ScoreResult|
        {
            &&& lists_controls(cells@, panel.y, panel.control_mask)
            &&& #[trigger] scored_at(result, panel, cells@, lambdas, method)
            &&& a == result.score
        };
    let (e, q) = choose|cells: Vec<(usize, usize)>, result: ScoreResult|
        {
            &&& lists_controls(cells@, panel.y, panel.control_mask)
            &&& #[trigger] scored_at(result, panel, cells@, lambdas, method)
            &&& b == result.score
        };
    law_listing_unique(
        c@,
        e@,
        panel.y.rows as int,
        panel.y.cols as int,
        |t: int, i: int| control_cell(panel.y, panel.control_mask, t, i),
    );
    assert(cells_in(c@, panel.y));
    let u = choose|scan: ScoreScan| #[trigger]
        scanned(scan, panel, c@, lambdas, method, bits::INFINITY) && p == scan_result(scan);
    let v = choose|scan: ScoreScan| #[trigger]
        scanned(scan, panel, c@, lambdas, method, bits::INFINITY) && q == scan_result(scan);
    let fits = lemma_common_fits(
        u,
        v,
        panel,
        c@,
        lambdas,
        method,
        bits::INFINITY,
        bits::INFINITY,
    );
}

/// The search of all combinations finds the minimum of the criterion, up to one
/// tolerance for each combination, and reports the criterion at what it selects.
/// The difference of two values of the criterion has to tell whether they differ
/// by more than the tolerance.
pub proof fn law_exhaustive_search_nears_minimum<
    R: PairSummary,
    T: TimeDecay,
    U: Binary,
    P: Binary,
    B: Binary,
    Z: Summary,
    O: Dot,
    C: WeightedMean,
    Q: CovariateFit,
    F: TwostepProximal,
    E: CellEffect<TwostepModel>,
    S: Binary,
    W: Binary,
>(
    r: LoocvGridSearchResult,
    panel: &TwostepPanel,
    time_grid: Seq<u64>,
    unit_grid: Seq<u64>,
    nn_grid: Seq<u64>,
    method: &TwostepMethod<R, T, U, P, B, Z, O, C, Q, F, E, S>,
    subtract: W,
    other: Lambdas,
    score: u64,
)
    requires
        panel.wf(),
        twostep_best(
            r,
            panel,
            time_grid,
            unit_grid,
            nn_grid,
            method,
            subtract,
        ),
        method.steady(),
        forall|a: u64, b: u64, diff: u64|
            criterion_in(a, panel, time_grid, unit_grid, nn_grid, method) && criterion_in(
                b,
                panel,
                time_grid,
                unit_grid,
                nn_grid,
                method,
            ) && #[trigger] call_ensures(subtract, (a, b), diff) ==> measured(diff, a, b),
        in_grids(other, time_grid, unit_grid, nn_grid),
        criterion_at(score, panel, effective_of(other), method),
        bits::finite(score),
    ensures
        in_grids(r.lambdas, time_grid, unit_grid, nn_grid),
        criterion_at(r.score, panel, effective_of(r.lambdas), method),
        bits::finite(r.score),
        bits::signed_numerator(r.score) <= bits::signed_numerator(score) + ((time_grid.len()
            * unit_grid.len()) * nn_grid.len()) * bits::signed_numerator(TIE_TOL),
{
    let (cells, best, diagnosis) = choose|
        cells: Vec<(usize, usize)>,
        best: Evaluation,
        diagnosis: Diagnosis,
    |
        {
            &&& lists_controls(cells@, panel.y, panel.control_mask)
            &&& #[trigger] best_scored(
                best,
                time_grid,
                unit_grid,
                nn_grid,
                twostep_scorer(panel, cells@, method),
                subtract,
            )
            &&& #[trigger] diagnosed(
                diagnosis,
                panel,
                cells@,
                effective_of(best.candidate.lambdas),
                method,
            )
            &&& r == result_of(best.candidate.lambdas, diagnosis, cells.len())
        };
    let scorer = twostep_scorer(panel, cells@, method);
    let (given, results) = choose|given: Seq<Lambdas>, results: Seq<ScoreResult>| #[trigger]
        scorer(given, results) && exhaustive_selects(
            best,
            time_grid,
            unit_grid,
            nn_grid,
            given,
            results,
            subtract,
        );
    let points = choose|points: Seq<Lambdas>| #[trigger]
        lists_combinations(points, time_grid, unit_grid, nn_grid) && given == effective_points(
            points,
        ) && selects(
            best,
            exhaustive_start_of(time_grid, unit_grid, nn_grid),
            evaluations(no_values(points.len()), points, results),
            subtract,
        );
    let start = exhaustive_start_of(time_grid, unit_grid, nn_grid);
    let evals = evaluations(no_values(points.len()), points, results);
    assert(cells_in(cells@, panel.y));
    assert forall|k: int| 0 <= k < evals.len() implies criterion_at(
        (#[trigger] evals[k]).candidate.score,
        panel,
        effective_of(evals[k].candidate.lambdas),
        method,
    ) && in_grids(evals[k].candidate.lambdas, time_grid, unit_grid, nn_grid) by {
        assert(scored_at(results[k], panel, cells@, given[k], method));
        lemma_points_in_grids(points, time_grid, unit_grid, nn_grid, k);
    }
    assert(subtracts(subtract, evals)) by {
        reveal(score_of);
        reveal(tolerance);
        assert forall|i: int, j: int, diff: u64|
            0 <= i < evals.len() && 0 <= j < evals.len() && #[trigger] call_ensures(
                subtract,
                (evals[i].candidate.score, evals[j].candidate.score),
                diff,
            ) implies measures(diff, evals[i], evals[j]) by {
            let (a, b) = (evals[i].candidate.score, evals[j].candidate.score);
            assert(criterion_in(a, panel, time_grid, unit_grid, nn_grid, method));
            assert(criterion_in(b, panel, time_grid, unit_grid, nn_grid, method));
            assert(measured(diff, a, b));
        }
    }
    let k = lemma_point_of(points, time_grid, unit_grid, nn_grid, other);
    assert(evals[k].candidate.lambdas == other);
    law_one_criterion(evals[k].candidate.score, score, panel, effective_of(other), method);
    law_search_nears_minimum(best, start, evals, subtract, k);
    let diffs = choose|diffs: Seq<u64>| #[trigger]
        differences(subtract, start, evals, diffs) && best == reduced(start, evals, diffs);
    law_reduction_selects(start, evals, diffs);
    assert(best != start) by {
        assert(!bits::finite(bits::INFINITY));
    }
    assert(evals.contains(best));
    let j = choose|j: int| 0 <= j < evals.len() && evals[j] == best;
    assert(scored_at(results[j], panel, cells@, given[j], method));
    law_diagnosis_is_the_criterion(
        results[j],
        diagnosis,
        panel,
        &cells,
        effective_of(best.candidate.lambdas),
        method,
    );
    reveal(score_of);
    reveal(tolerance);
}

proof fn lemma_point_of(
    points: Seq<Lambdas>,
    time_grid: Seq<u64>,
    unit_grid: Seq<u64>,
    nn_grid: Seq<u64>,
    l: Lambdas,
) -> (k: int)
    requires
        lists_combinations(points, time_grid, unit_grid, nn_grid),
        in_grids(l, time_grid, unit_grid, nn_grid),
    ensures
        0 <= k < points.len(),
        points[k] == l,
{
    let a = choose|a: int| 0 <= a < time_grid.len() && time_grid[a] == l.time;
    let b = choose|b: int| 0 <= b < unit_grid.len() && unit_grid[b] == l.unit;
    let c = choose|c: int| 0 <= c < nn_grid.len() && nn_grid[c] == l.nn;
    let (m, n) = (unit_grid.len() as int, nn_grid.len() as int);
    let k = combination_index(m, n, a, b, c);
    assert(points[k] == l);
    lemma_combination_index(m, n, a, b, c, time_grid.len() as int, 0);
    k
}

proof fn lemma_points_in_grids(
    points: Seq<Lambdas>,
    time_grid: Seq<u64>,
    unit_grid: Seq<u64>,
    nn_grid: Seq<u64>,
    k: int,
)
    requires
        lists_combinations(points, time_grid, unit_grid, nn_grid),
        0 <= k < points.len(),
    ensures
        in_grids(points[k], time_grid, unit_grid, nn_grid),
{
    let (l, m, n) = (time_grid.len() as int, unit_grid.len() as int, nn_grid.len() as int);
    assert(l > 0 && m > 0 && n > 0) by (nonlinear_arith)
        requires
            0 <= k < (l * m) * n,
            l >= 0,
            m >= 0,
            n >= 0,
    ;
    lemma_fundamental_div_mod(k, n);
    let (p, c) = (k / n, k % n);
    lemma_fundamental_div_mod(p, m);
    let (a, b) = (p / m, p % m);
    assert(0 <= p) by {
        lemma_div_pos_is_pos(k, n);
    }
    assert(0 <= a) by {
        lemma_div_pos_is_pos(p, m);
    }
    assert(p < l * m) by (nonlinear_arith)
        requires
            k < (l * m) * n,
            k == n * p + c,
            0 <= c,
            n > 0,
    ;
    assert(a < l) by (nonlinear_arith)
        requires
            p < l * m,
            p == m * a + b,
            0 <= b,
            m > 0,
    ;
    assert((a * m + b) * n + c == k) by (nonlinear_arith)
        requires
            k == n * p + c,
            p == m * a + b,
    ;
    assert(combination_index(m, n, a, b, c) == k);
    assert(points[combination_index(m, n, a, b, c)] == (Lambdas {
        time: time_grid[a],
        unit: unit_grid[b],
        nn: nn_grid[c],
    }));
}

proof fn lemma_nothing_to_average<G: Average>(
    r: Option<u64>,
    effects: Seq<(u64, usize)>,
    weights: Option<Seq<u64>>,
    lambda_nn: u64,
    average: G,
)
    requires
        estimates_joint(r, effects, weights, lambda_nn, average),
        effects.len() == 0,
    ensures
        r == if weights is None && !without_low_rank(lambda_nn) {
            Some(bits::ZERO)
        } else {
            None
        },
{
}

proof fn lemma_same_joint_sample(
    a: &JointReplicate,
    o: &JointReplicate,
    y: &Matrix<u64>,
    d: &Matrix<u64>,
    x: Option<&Matrix<u64>>,
    units: Seq<usize>,
)
    requires
        same_shape(y, d),
        a.replicates(y, d, x, units),
        o.replicates(y, d, x, units),
    ensures
        same_values(&a.y, &o.y),
        same_values(&a.d, &o.d),
        same_columns(sample_covariates(a), sample_covariates(o)),
        a.treated@ == o.treated@,
{
    assert(units.len() == a.y.cols);
    assert forall|t: usize, j: usize| t < a.y.rows && j < a.y.cols implies #[trigger] a.y.at(
        t as int,
        j as int,
    ) == o.y.at(t as int, j as int) by {
        assert(o.y.at(t as int, j as int) == y.at(t as int, units[j as int] as int));
    }
    assert forall|t: usize, j: usize| t < a.d.rows && j < a.d.cols implies #[trigger] a.d.at(
        t as int,
        j as int,
    ) == o.d.at(t as int, j as int) by {
        assert(o.d.at(t as int, j as int) == d.at(t as int, units[j as int] as int));
    }
    if let Some(m) = x {
        lemma_same_rows(&a.x->0, &o.x->0, m, y.rows, y.cols, units);
    }
    law_listing_unique(
        a.treated@,
        o.treated@,
        d.rows as int,
        units.len() as int,
        |t: int, j: int| observed_treated(y, d, t, units[j] as int),
    );
}

proof fn lemma_same_effects<
    A: Summary,
    R: PairSummary,
    T: DoubledDecay,
    U: Binary,
    C: Ternary,
    S: Binary,
    Z: Summary,
    Q: Unary,
    P: Binary,
    L: Solver,
    F: ProximalStep,
    E: CellEffect<JointModel>,
    D: Binary,
>(
    a: Seq<(u64, usize)>,
    o: Seq<(u64, usize)>,
    y: &Matrix<u64>,
    z: &Matrix<u64>,
    x: Option<&Matrix<u64>>,
    w: Option<&Matrix<u64>>,
    m: &JointModel,
    n: &JointModel,
    cells: Seq<(usize, usize)>,
    method: &JointMethod<A, R, T, U, C, S, Z, Q, P, L, F, E, D>,
)
    requires
        gives_effects(a, y, x, m, cells, *method.effect),
        gives_effects(o, z, w, n, cells, *method.effect),
        same_values(y, z),
        same_columns(x, w),
        same_joint_model(*m, *n),
        method.steady(),
    ensures
        a == o,
{
    reveal(JointMethod::steady);
    assert forall|k: int| 0 <= k < a.len() implies a[k] == o[k] by {
        assert(call_ensures(*method.effect, (y, x, m, cells[k]), a[k].0));
        assert(call_ensures(*method.effect, (z, w, n, cells[k]), o[k].0));
        assert(a[k].1 == o[k].1);
    }
    assert(a =~= o);
}

proof fn lemma_joint_averages_agree<G: Average>(
    plain: Option<u64>,
    weighted: Option<u64>,
    effects: Seq<(u64, usize)>,
    cells: Seq<(usize, usize)>,
    units: Seq<usize>,
    cols: usize,
    weights: &Vec<u64>,
    w: u64,
    lambda_nn: u64,
    average: G,
)
    requires
        estimates_joint(plain, effects, sample_weights(None, units), lambda_nn, average),
        estimates_joint(weighted, effects, sample_weights(Some(weights), units), lambda_nn, average),
        effects.len() == cells.len(),
        forall|k: int| 0 <= k < cells.len() ==> (#[trigger] effects[k]).1 == cells[k].1,
        forall|k: int| 0 <= k < cells.len() ==> (#[trigger] cells[k]).1 < units.len(),
        in_panel(units, cols),
        weights@.len() >= cols,
        bits::positive_finite(w),
        forall|i: int| 0 <= i < weights@.len() ==> #[trigger] weights@[i] == w,
        levels_weights(average, w),
    ensures
        plain == weighted || (weighted is None && plain == Some(bits::ZERO)),
        without_low_rank(lambda_nn) ==> plain == weighted,
{
    let drawn = sample_weights(Some(weights), units)->0;
    assert forall|j: int| 0 <= j < drawn.len() implies #[trigger] drawn[j] == w by {
        assert(units[j] < cols);
        assert(drawn[j] == weight_of(weights@, units[j] as int));
    }
    assert forall|k: int| 0 <= k < effects.len() implies (#[trigger] effects[k]).1
        < drawn.len() by {
        assert(effects[k].1 == cells[k].1);
    }
    let p = choose|v: Option<u64>| #[trigger]
        averages(v, effects, None, average) && plain == if v is None && !without_low_rank(
            lambda_nn,
        ) {
            Some(bits::ZERO)
        } else {
            v
        };
    assert(averages(weighted, effects, Some(drawn), average));
    law_equal_weights_give_the_mean(p, weighted, effects, drawn, w, average);
}

/// On a replicate of the joint method, equal weights give the estimate without
/// weights, but where no treated outcome is observed: there the estimate without
/// weights is nothing or zero, and there is none with weights.
#[verifier::rlimit(50)]
pub proof fn law_equal_weights_give_the_unweighted_joint_estimate<
    A: Summary,
    R: PairSummary,
    T: DoubledDecay,
    U: Binary,
    C: Ternary,
    S: Binary,
    Z: Summary,
    Q: Unary,
    P: Binary,
    L: Solver,
    F: ProximalStep,
    E: CellEffect<JointModel>,
    D: Binary,
    G: Average,
>(
    plain: Option<u64>,
    weighted: Option<u64>,
    y: &Matrix<u64>,
    d: &Matrix<u64>,
    x: Option<&Matrix<u64>>,
    weights: &Vec<u64>,
    w: u64,
    c: &UnitClassification,
    e: &UnitClassification,
    lambdas: Lambdas,
    treated_periods: usize,
    seed: u64,
    b: usize,
    method: &JointMethod<A, R, T, U, C, S, Z, Q, P, L, F, E, D>,
    average: G,
)
    requires
        same_shape(y, d),
        c.classifies(d),
        e.classifies(d),
        gives_joint(
            plain,
            y,
            d,
            x,
            None,
            c,
            lambdas,
            treated_periods,
            seed,
            b,
            method,
            average,
        ),
        gives_joint(
            weighted,
            y,
            d,
            x,
            Some(weights),
            e,
            lambdas,
            treated_periods,
            seed,
            b,
            method,
            average,
        ),
        weights@.len() >= d.cols,
        bits::positive_finite(w),
        forall|i: int| 0 <= i < weights@.len() ==> #[trigger] weights@[i] == w,
        method.steady(),
        levels_weights(average, w),
    ensures
        plain == weighted || (weighted is None && plain == Some(bits::ZERO)),
        without_low_rank(lambdas.nn) ==> plain == weighted,
{
    law_one_classification(c, e, d, seed, b);
    let units = replicate_units(c, seed, b);
    let (a, a_fit) = choose|
        replicate: JointReplicate,
        fit: Option<(JointModel, Iterations)>,
    |
        {
            &&& in_panel(replicate.units@, d.cols)
            &&& #[trigger] replicate.replicates(y, d, x, replicate_units(c, seed, b))
            &&& #[trigger] method.fits_panel(
                fit,
                &replicate.y,
                &replicate.d,
                sample_covariates(&replicate),
                lambdas,
                treated_periods,
            )
            &&& match fit {
                Some((model, it)) => exists|effects: Seq<(u64, usize)>|
                    {
                        &&& #[trigger] gives_effects(
                            effects,
                            &replicate.y,
                            sample_covariates(&replicate),
                            &model,
                            replicate.treated@,
                            *method.effect,
                        )
                        &&& estimates_joint(
                            plain,
                            effects,
                            sample_weights(None, replicate.units@),
                            lambdas.nn,
                            average,
                        )
                    },
                None => plain is None,
            }
        };
    let (o, o_fit) = choose|
        replicate: JointReplicate,
        fit: Option<(JointModel, Iterations)>,
    |
        {
            &&& in_panel(replicate.units@, d.cols)
            &&& #[trigger] replicate.replicates(y, d, x, replicate_units(e, seed, b))
            &&& #[trigger] method.fits_panel(
                fit,
                &replicate.y,
                &replicate.d,
                sample_covariates(&replicate),
                lambdas,
                treated_periods,
            )
            &&& match fit {
                Some((model, it)) => exists|effects: Seq<(u64, usize)>|
                    {
                        &&& #[trigger] gives_effects(
                            effects,
                            &replicate.y,
                            sample_covariates(&replicate),
                            &model,
                            replicate.treated@,
                            *method.effect,
                        )
                        &&& estimates_joint(
                            weighted,
                            effects,
                            sample_weights(Some(weights), replicate.units@),
                            lambdas.nn,
                            average,
                        )
                    },
                None => weighted is None,
            }
        };
    lemma_same_joint_sample(&a, &o, y, d, x, units);
    if y.rows == 0 || units.len() == 0 {
        assert(a.treated@.len() == 0) by {
            if a.treated@.len() > 0 {
                assert(a.treated@[0].0 < d.rows && a.treated@[0].1 < units.len());
            }
        }
        if let Some((model, it)) = a_fit {
            let effects = choose|effects: Seq<(u64, usize)>|
                {
                    &&& #[trigger] gives_effects(
                        effects,
                        &a.y,
                        sample_covariates(&a),
                        &model,
                        a.treated@,
                        *method.effect,
                    )
                    &&& estimates_joint(
                        plain,
                        effects,
                        sample_weights(None, a.units@),
                        lambdas.nn,
                        average,
                    )
                };
            lemma_nothing_to_average(plain, effects, None, lambdas.nn, average);
        }
        if let Some((model, it)) = o_fit {
            let drawn = sample_weights(Some(weights), o.units@);
            let effects = choose|effects: Seq<(u64, usize)>|
                {
                    &&& #[trigger] gives_effects(
                        effects,
                        &o.y,
                        sample_covariates(&o),
                        &model,
                        o.treated@,
                        *method.effect,
                    )
                    &&& estimates_joint(weighted, effects, drawn, lambdas.nn, average)
                };
            lemma_nothing_to_average(weighted, effects, drawn, lambdas.nn, average);
        }
    } else {
        law_one_joint_fit(
            a_fit,
            o_fit,
            &a.y,
            &o.y,
            &a.d,
            &o.d,
            sample_covariates(&a),
            sample_covariates(&o),
            lambdas,
            treated_periods,
            method,
        );
    }
    if let (Some((a_model, i)), Some((o_model, j))) = (a_fit, o_fit) {
        let a_effects = choose|effects: Seq<(u64, usize)>|
            {
                &&& #[trigger] gives_effects(
                    effects,
                    &a.y,
                    sample_covariates(&a),
                    &a_model,
                    a.treated@,
                    *method.effect,
                )
                &&& estimates_joint(
                    plain,
                    effects,
                    sample_weights(None, a.units@),
                    lambdas.nn,
                    average,
                )
            };
        let o_effects = choose|effects: Seq<(u64, usize)>|
            {
                &&& #[trigger] gives_effects(
                    effects,
                    &o.y,
                    sample_covariates(&o),
                    &o_model,
                    o.treated@,
                    *method.effect,
                )
                &&& estimates_joint(
                    weighted,
                    effects,
                    sample_weights(Some(weights), o.units@),
                    lambdas.nn,
                    average,
                )
            };
        if a.treated@.len() > 0 {
            lemma_same_effects(
                a_effects,
                o_effects,
                &a.y,
                &o.y,
                sample_covariates(&a),
                sample_covariates(&o),
                &a_model,
                &o_model,
                a.treated@,
                method,
            );
        }
        assert(a_effects =~= o_effects);
        lemma_joint_averages_agree(
            plain,
            weighted,
            a_effects,
            a.treated@,
            units,
            d.cols,
            weights,
            w,
            lambdas.nn,
            average,
        );
    }
}

} // verus!

//! Sweeps that look scores up before they evaluate them.
//!
//! A score is kept for reuse where its evaluation is complete; one that was
//! given up above a bound is not, since the bound differs from sweep to sweep.
use crate::alternating::{
    CovariateFit, Dot, TwostepModel, TwostepProximal, WeightedMean,
};
use crate::arithmetic::{Binary, CellEffect, PairSummary, Summary, TimeDecay, Unary};
use crate::bits;
use crate::crossval::{cells_in, loocv_score_for_params, scanned};
use crate::loocv::{
    is_complete, lower_of, observe_result, scan_result, ScoreResult, ScoreScan,
};
use crate::search::{
    evaluations, parallel_layer, select_point, selects, sweep_points, sweep_points_of,
    sweep_start_of, Axis, Evaluation, Layer, ScoreCache, Sweep,
};
use crate::selection::univariate;
use crate::tuning::Lambdas;
use crate::twostep::{TwostepMethod, TwostepPanel};
use crate::workers::{loocv_score_for_params_parallel, scored_in_chunks, suits};
use vstd::prelude::*;

verus! {

/// An evaluation is complete: every cell entered the sum, or the criterion is
/// infinite.
pub open spec fn complete(r: ScoreResult, n_control: usize) -> bool {
    r.n_valid == n_control || bits::same(r.score, bits::INFINITY)
}

/// Only complete evaluations are kept.
pub open spec fn keeps_complete(
    cache: Map<Lambdas, ScoreResult>,
    n_control: usize,
) -> bool {
    forall|key: Lambdas| #[trigger]
        cache.dom().contains(key) ==> complete(cache[key], n_control)
}

/// Lowest complete score and scores kept, before or after a point of a sweep.
pub struct Progress {
    pub lowest: u64,
    pub known: Map<Lambdas, ScoreResult>,
}

/// Lowest complete score once `r` was obtained.
pub open spec fn lowered(lowest: u64, r: ScoreResult, n_control: usize) -> u64 {
    if r.n_valid == n_control {
        lower_of(lowest, r.score)
    } else {
        lowest
    }
}

/// Scores that a function gives at some parameters, given up above a bound.
pub open spec fn given_by<V: Fn(Layer, Lambdas, u64) -> ScoreResult>(score: V) -> spec_fn(
    Layer,
    Lambdas,
    u64,
    ScoreResult,
) -> bool {
    |layer: Layer, l: Lambdas, bound: u64, r: ScoreResult|
        call_ensures(score, (layer, l, bound), r)
}

/// A point of a sweep gave `r`: the score that is kept for it, or else one that
/// `scorer` allows, given up above the bound that `raise` makes of the lowest
/// score so far.  A complete evaluation is kept.
pub open spec fn visits<K: Unary>(
    point: Lambdas,
    r: ScoreResult,
    layer: Layer,
    n_control: usize,
    before: Progress,
    after: Progress,
    scorer: spec_fn(Layer, Lambdas, u64, ScoreResult) -> bool,
    raise: K,
) -> bool {
    &&& after.lowest == lowered(before.lowest, r, n_control)
    &&& if before.known.dom().contains(point) {
        r == before.known[point] && after.known == before.known
    } else {
        &&& exists|bound: u64| #[trigger]
            call_ensures(raise, (before.lowest,), bound) && scorer(layer, point, bound, r)
        &&& after.known == if complete(r, n_control) {
            before.known.insert(point, r)
        } else {
            before.known
        }
    }
}

/// `results` are what the points of a sweep gave, one after the other, and
/// `states` the progress before each of them and at the end.
pub open spec fn visited<K: Unary>(
    states: Seq<Progress>,
    points: Seq<Lambdas>,
    results: Seq<ScoreResult>,
    layer: Layer,
    n_control: usize,
    scorer: spec_fn(Layer, Lambdas, u64, ScoreResult) -> bool,
    raise: K,
) -> bool {
    &&& states.len() == results.len() + 1
    &&& results.len() <= points.len()
    &&& forall|k: int|
        0 <= k < results.len() ==> visits(
            points[k],
            #[trigger] results[k],
            layer,
            n_control,
            states[k],
            states[k + 1],
            scorer,
            raise,
        )
}

/// Evaluates the points of a sweep one after the other.
pub fn evaluate_in_turn<
    V: Fn(Layer, Lambdas, u64) -> ScoreResult,
    K: Unary,
>(
    points: &Vec<Lambdas>,
    layer: Layer,
    n_control: usize,
    hint: u64,
    cache: &mut ScoreCache,
    score: &V,
    raise: &K,
) -> (r: Vec<ScoreResult>)
    requires
        forall|l: Lambdas, bound: u64| #[trigger] call_requires(*score, (layer, l, bound)),
        forall|lowest: u64| #[trigger] call_requires(*raise, (lowest,)),
    ensures
        r@.len() == points@.len(),
        exists|states: Seq<Progress>|
            {
                &&& #[trigger] visited(
                    states,
                    points@,
                    r@,
                    layer,
                    n_control,
                    given_by(*score),
                    *raise,
                )
                &&& states[0] == (Progress { lowest: hint, known: old(cache)@ })
                &&& states.last().known == final(cache)@
            },
        keeps_complete(old(cache)@, n_control) ==> keeps_complete(final(cache)@, n_control),
{
    let mut results: Vec<ScoreResult> = Vec::new();
    let mut lowest: u64 = hint;
    let ghost mut states: Seq<Progress> = seq![Progress { lowest: hint, known: cache@ }];
    let mut k: usize = 0;
    while k < points.len()
        invariant
            forall|l: Lambdas, bound: u64| #[trigger] call_requires(*score, (layer, l, bound)),
            forall|lowest: u64| #[trigger] call_requires(*raise, (lowest,)),
            k <= points@.len(),
            k == results@.len(),
            visited(states, points@, results@, layer, n_control, given_by(*score), *raise),
            states[0] == (Progress { lowest: hint, known: old(cache)@ }),
            states.last() == (Progress { lowest, known: cache@ }),
            keeps_complete(old(cache)@, n_control) ==> keeps_complete(cache@, n_control),
        decreases points@.len() - k,
    {
        let ghost (seen, before) = (results@, states);
        let ghost now = Progress { lowest, known: cache@ };
        let result: ScoreResult = match cache.get(points[k]) {
            Some(known) => known,
            None => {
                let bound: u64 = (*raise)(lowest);
                let result: ScoreResult = (*score)(layer, points[k], bound);
                assert(call_ensures(*raise, (now.lowest,), bound));
                if is_complete(&result, n_control) {
                    cache.insert(points[k], result);
                }
                result
            },
        };
        lowest = observe_result(lowest, &result, n_control);
        results.push(result);
        proof {
            let next = Progress { lowest, known: cache@ };
            states = states.push(next);
            assert(visits(
                points@[k as int],
                result,
                layer,
                n_control,
                now,
                next,
                given_by(*score),
                *raise,
            ));
            assert forall|j: int| 0 <= j < results@.len() implies visits(
                points@[j],
                #[trigger] results@[j],
                layer,
                n_control,
                states[j],
                states[j + 1],
                given_by(*score),
                *raise,
            ) by {
                if j < k {
                    assert(results@[j] == seen[j]);
                    assert(states[j] == before[j]);
                    assert(states[j + 1] == before[j + 1]);
                } else {
                    assert(states[j] == now);
                    assert(states[j + 1] == next);
                }
            }
        }
        k = k + 1;
    }
    results
}

/// Loop of a sweep that runs in parallel, for a grid of `n` values.
pub open spec fn layer_of(n: nat, n_threads: usize) -> Layer {
    if n >= n_threads && n > 0 {
        Layer::Candidates
    } else {
        Layer::Observations
    }
}

/// As [`univariate_search_by`](crate::selection::univariate_search_by), with
/// scores looked up first: `score` evaluates the criterion at some
/// parameters, given up above a bound, and `raise` makes that bound of the
/// lowest score so far.
pub fn univariate_search_cached_by<
    V: Fn(Layer, Lambdas, u64) -> ScoreResult,
    K: Unary,
    W: Binary,
>(
    grid: &Vec<u64>,
    fixed: Lambdas,
    param_type: usize,
    n_control: usize,
    n_threads: usize,
    cache: &mut ScoreCache,
    score: &V,
    raise: &K,
    subtract: &W,
) -> (r: (u64, u64))
    requires
        forall|layer: Layer, l: Lambdas, bound: u64| #[trigger]
            call_requires(*score, (layer, l, bound)),
        forall|lowest: u64| #[trigger] call_requires(*raise, (lowest,)),
        forall|a: u64, b: u64| #[trigger] call_requires(*subtract, (a, b)),
    ensures
        exists|states: Seq<Progress>, results: Seq<ScoreResult>, best: Evaluation|
            {
                &&& #[trigger] visited(
                    states,
                    sweep_points_of(univariate(param_type, fixed), grid@),
                    results,
                    layer_of(grid@.len(), n_threads),
                    n_control,
                    given_by(*score),
                    *raise,
                )
                &&& results.len() == grid@.len()
                &&& states[0] == (Progress { lowest: bits::INFINITY, known: old(cache)@ })
                &&& states.last().known == final(cache)@
                &&& #[trigger] selects(
                    best,
                    sweep_start_of(univariate(param_type, fixed), grid@),
                    evaluations(
                        grid@,
                        sweep_points_of(univariate(param_type, fixed), grid@),
                        results,
                    ),
                    *subtract,
                )
                &&& r == (best.value, best.candidate.score)
            },
        grid@.len() > 0 ==> grid@.contains(r.0),
        keeps_complete(old(cache)@, n_control) ==> keeps_complete(final(cache)@, n_control),
{
    let sweep: Sweep = Sweep {
        axis: Axis::from_index(param_type),
        fixed,
        hint: bits::INFINITY,
    };
    let layer: Layer = parallel_layer(grid.len(), n_threads);
    let points: Vec<Lambdas> = sweep_points(&sweep, grid);
    let results: Vec<ScoreResult> = evaluate_in_turn(
        &points,
        layer,
        n_control,
        sweep.hint,
        cache,
        score,
        raise,
    );
    let best: Evaluation = select_point(&sweep, grid, &results, subtract);
    (best.value, best.candidate.score)
}

/// How the twostep method scores parameters: cell by cell and given up above a
/// bound, or with the cells in chunks for `n_threads` workers.
pub open spec fn layer_scorer<
    R: PairSummary,
    T: TimeDecay,
    U: Binary,
    P: Binary,
    B: Binary,
    Z: Summary,
    O: Dot,
    C: WeightedMean,
    Q: CovariateFit,
    F: TwostepProximal,
    E: CellEffect<TwostepModel>,
    S: Binary,
    A: Summary,
>(
    panel: &TwostepPanel,
    cells: Seq<(usize, usize)>,
    n_threads: usize,
    method: &TwostepMethod<R, T, U, P, B, Z, O, C, Q, F, E, S>,
    total: A,
) -> spec_fn(Layer, Lambdas, u64, ScoreResult) -> bool {
    |layer: Layer, l: Lambdas, bound: u64, r: ScoreResult|
        match layer {
            Layer::Candidates => exists|scan: ScoreScan| #[trigger]
                scanned(scan, panel, cells, l, method, bound) && r
                    == scan_result(scan),
            Layer::Observations => exists|size: usize|
                suits(size, cells.len(), n_threads)
                    && #[trigger] scored_in_chunks(
                    r,
                    panel,
                    cells,
                    size,
                    l,
                    method,
                    total,
                ),
        }
}

proof fn lemma_visited<V: Fn(Layer, Lambdas, u64) -> ScoreResult, K: Unary>(
    states: Seq<Progress>,
    points: Seq<Lambdas>,
    results: Seq<ScoreResult>,
    layer: Layer,
    n_control: usize,
    score: V,
    scorer: spec_fn(Layer, Lambdas, u64, ScoreResult) -> bool,
    raise: K,
)
    requires
        visited(states, points, results, layer, n_control, given_by(score), raise),
        forall|layer: Layer, l: Lambdas, bound: u64, r: ScoreResult| #[trigger]
            call_ensures(score, (layer, l, bound), r) ==> scorer(layer, l, bound, r),
    ensures
        visited(states, points, results, layer, n_control, scorer, raise),
{
    assert forall|k: int| 0 <= k < results.len() implies visits(
        points[k],
        #[trigger] results[k],
        layer,
        n_control,
        states[k],
        states[k + 1],
        scorer,
        raise,
    ) by {
        assert(visits(
            points[k],
            results[k],
            layer,
            n_control,
            states[k],
            states[k + 1],
            given_by(score),
            raise,
        ));
        if !states[k].known.dom().contains(points[k]) {
            let bound = choose|bound: u64| #[trigger]
                call_ensures(raise, (states[k].lowest,), bound) && given_by(score)(
                    layer,
                    points[k],
                    bound,
                    results[k],
                );
            assert(call_ensures(score, (layer, points[k], bound), results[k]));
            assert(scorer(layer, points[k], bound, results[k]));
        }
    }
}

/// Best value of one parameter of the twostep method and the criterion there,
/// the others held fixed, with scores looked up first.  `raise` makes the bound
/// above which parameters are given up of the lowest score so far.
pub fn univariate_loocv_search_cached<
    R: PairSummary,
    T: TimeDecay,
    U: Binary,
    P: Binary,
    B: Binary,
    Z: Summary,
    O: Dot,
    C: WeightedMean,
    Q: CovariateFit,
    F: TwostepProximal,
    E: CellEffect<TwostepModel>,
    S: Binary,
    A: Summary,
    K: Unary,
    W: Binary,
>(
    panel: &TwostepPanel,
    cells: &Vec<(usize, usize)>,
    grid: &Vec<u64>,
    fixed: Lambdas,
    param_type: usize,
    n_threads: usize,
    cache: &mut ScoreCache,
    method: &TwostepMethod<R, T, U, P, B, Z, O, C, Q, F, E, S>,
    total: &A,
    raise: &K,
    subtract: &W,
) -> (r: (u64, u64))
    requires
        panel.wf(),
        cells_in(cells@, panel.y),
        method.ready(),
        forall|sums: &Vec<u64>| #[trigger] call_requires(*total, (sums,)),
        forall|lowest: u64| #[trigger] call_requires(*raise, (lowest,)),
        forall|a: u64, b: u64| #[trigger] call_requires(*subtract, (a, b)),
    ensures
        exists|states: Seq<Progress>, results: Seq<ScoreResult>, best: Evaluation|
            {
                &&& #[trigger] visited(
                    states,
                    sweep_points_of(univariate(param_type, fixed), grid@),
                    results,
                    layer_of(grid@.len(), n_threads),
                    cells.len(),
                    layer_scorer(
                        panel,
                        cells@,
                        n_threads,
                        method,
                        *total,
                    ),
                    *raise,
                )
                &&& results.len() == grid@.len()
                &&& states[0] == (Progress { lowest: bits::INFINITY, known: old(cache)@ })
                &&& states.last().known == final(cache)@
                &&& #[trigger] selects(
                    best,
                    sweep_start_of(univariate(param_type, fixed), grid@),
                    evaluations(
                        grid@,
                        sweep_points_of(univariate(param_type, fixed), grid@),
                        results,
                    ),
                    *subtract,
                )
                &&& r == (best.value, best.candidate.score)
            },
        grid@.len() > 0 ==> grid@.contains(r.0),
        keeps_complete(old(cache)@, cells.len()) ==> keeps_complete(final(cache)@, cells.len()),
{
    let score = |layer: Layer, l: Lambdas, bound: u64| -> (out: ScoreResult)
        requires
            panel.wf() && cells_in(cells@, panel.y) && method.ready() && (forall|
                sums: &Vec<u64>,
            | #[trigger]
                call_requires(*total, (sums,))),
        ensures
            layer_scorer(panel, cells@, n_threads, method, *total)(
                layer,
                l,
                bound,
                out,
            ),
        {
            match layer {
                Layer::Candidates => loocv_score_for_params(
                    panel,
                    cells,
                    l,
                    method,
                    bound,
                ),
                Layer::Observations => loocv_score_for_params_parallel(
                    panel,
                    cells,
                    l,
                    n_threads,
                    method,
                    total,
                ),
            }
        };
    let r: (u64, u64) = univariate_search_cached_by(
        grid,
        fixed,
        param_type,
        cells.len(),
        n_threads,
        cache,
        &score,
        raise,
        subtract,
    );
    proof {
        let points = sweep_points_of(univariate(param_type, fixed), grid@);
        let layer = layer_of(grid@.len(), n_threads);
        let (states, results, best) = choose|
            states: Seq<Progress>,
            results: Seq<ScoreResult>,
            best: Evaluation,
        |
            {
                &&& #[trigger] visited(
                    states,
                    sweep_points_of(univariate(param_type, fixed), grid@),
                    results,
                    layer_of(grid@.len(), n_threads),
                    cells.len(),
                    given_by(score),
                    *raise,
                )
                &&& results.len() == grid@.len()
                &&& states[0] == (Progress { lowest: bits::INFINITY, known: old(cache)@ })
                &&& states.last().known == final(cache)@
                &&& #[trigger] selects(
                    best,
                    sweep_start_of(univariate(param_type, fixed), grid@),
                    evaluations(
                        grid@,
                        sweep_points_of(univariate(param_type, fixed), grid@),
                        results,
                    ),
                    *subtract,
                )
                &&& r == (best.value, best.candidate.score)
            };
        lemma_visited(
            states,
            points,
            results,
            layer,
            cells.len(),
            score,
            layer_scorer(panel, cells@, n_threads, method, *total),
            *raise,
        );
    }
    r
}

/// A point of a sweep gives the score that is kept for it, and is evaluated
/// otherwise, given up above a bound made of the lowest complete score so far.  Its
/// score is kept where every cell entered it or it is infinite, and lowers the
/// lowest score where every cell entered it and it is lower.
pub proof fn law_points_are_visited<K: Unary>(
    point: Lambdas,
    r: ScoreResult,
    layer: Layer,
    n_control: usize,
    before: Progress,
    after: Progress,
    scorer: spec_fn(Layer, Lambdas, u64, ScoreResult) -> bool,
    raise: K,
)
    requires
        visits(point, r, layer, n_control, before, after, scorer, raise),
    ensures
        before.known.dom().contains(point) ==> r == before.known[point] && after.known
            == before.known,
        !before.known.dom().contains(point) ==> exists|bound: u64| #[trigger]
            call_ensures(raise, (before.lowest,), bound) && scorer(layer, point, bound, r),
        !before.known.dom().contains(point) && (r.n_valid == n_control || r.score
            == bits::INFINITY) ==> after.known == before.known.insert(point, r),
        !before.known.dom().contains(point) && r.n_valid != n_control && r.score
            != bits::INFINITY ==> after.known == before.known,
        r.n_valid == n_control && bits::lt(r.score, before.lowest) ==> after.lowest == r.score,
        r.n_valid != n_control || !bits::lt(r.score, before.lowest) ==> after.lowest
            == before.lowest,
{
}

/// The points of a sweep are visited one after the other, without a gap.
pub proof fn law_every_point_is_visited<K: Unary>(
    states: Seq<Progress>,
    points: Seq<Lambdas>,
    results: Seq<ScoreResult>,
    layer: Layer,
    n_control: usize,
    scorer: spec_fn(Layer, Lambdas, u64, ScoreResult) -> bool,
    raise: K,
    k: int,
)
    requires
        visited(states, points, results, layer, n_control, scorer, raise),
        0 <= k < results.len(),
    ensures
        states.len() == results.len() + 1,
        visits(
            points[k],
            results[k],
            layer,
            n_control,
            states[k],
            states[k + 1],
            scorer,
            raise,
        ),
{
}

/// The grid points of a sweep are shared out where there are at least as many as
/// workers, and the cells of each otherwise.
pub proof fn law_layer(n: usize, n_threads: usize, r: Layer)
    requires
        call_ensures(parallel_layer, (n, n_threads), r),
    ensures
        layer_of(n as nat, n_threads) == r,
        r == Layer::Candidates <==> n >= n_threads && n > 0,
{
}

/// Parameters are scored cell by cell, given up above a bound, where the grid points
/// are shared out, and in chunks over all cells where the cells are.
pub proof fn law_layers_score<
    R: PairSummary,
    T: TimeDecay,
    U: Binary,
    P: Binary,
    B: Binary,
    Z: Summary,
    O: Dot,
    C: WeightedMean,
    Q: CovariateFit,
    F: TwostepProximal,
    E: CellEffect<TwostepModel>,
    S: Binary,
    A: Summary,
>(
    panel: &TwostepPanel,
    cells: Seq<(usize, usize)>,
    n_threads: usize,
    method: &TwostepMethod<R, T, U, P, B, Z, O, C, Q, F, E, S>,
    total: A,
    layer: Layer,
    l: Lambdas,
    bound: u64,
    r: ScoreResult,
)
    requires
        layer_scorer(panel, cells, n_threads, method, total)(layer, l, bound, r),
    ensures
        layer == Layer::Candidates ==> exists|scan: ScoreScan| #[trigger]
            scanned(scan, panel, cells, l, method, bound) && r == scan_result(scan),
        layer == Layer::Observations ==> exists|size: usize|
            suits(size, cells.len(), n_threads) && #[trigger] scored_in_chunks(
                r,
                panel,
                cells,
                size,
                l,
                method,
                total,
            ),
{
}

} // verus!

//! Search for the tuning parameters that minimise the cross-validation
//! criterion.
//!
//! Evaluating the criterion is left to the caller.  The searches here are told
//! each value, with the floating-point differences that the comparisons call
//! for, and say what to evaluate next.
use crate::bits;
use crate::loocv::ScoreResult;
use crate::tuning::{effective, effective_of, Lambdas};
use vstd::prelude::*;

verus! {

/// `1e-10`: scores this close are tied.
pub const TIE_TOL: u64 = 0x3DDB_7CDF_D9D7_BDBB;

/// `-1e-10`.
pub const NEG_TIE_TOL: u64 = 0xBDDB_7CDF_D9D7_BDBB;

/// `1e-6`: cycling stops once the criterion changes by less.
pub const CYCLE_TOL: u64 = 0x3EB0_C6F7_A0B5_ED8D;

/// Parameters with the value of the criterion at them.
#[derive(Debug, Clone, Copy, PartialEq, Eq, Structural)]
pub struct Candidate {
    pub lambdas: Lambdas,
    pub score: u64,
}

/// Order among candidates with tied scores: larger penalty first, then smaller
/// time bandwidth, then smaller unit bandwidth.
pub open spec fn simpler(a: Lambdas, b: Lambdas) -> bool {
    ||| bits::total_key(a.nn) > bits::total_key(b.nn)
    ||| a.nn == b.nn && bits::total_key(a.time) < bits::total_key(b.time)
    ||| a.nn == b.nn && a.time == b.time && bits::total_key(a.unit) < bits::total_key(b.unit)
}

/// `new` replaces `best`, the difference of their scores being `diff`.
pub open spec fn preferred(new: Candidate, best: Candidate, diff: u64) -> bool {
    bits::finite(new.score) && (!bits::finite(best.score) || bits::lt(diff, NEG_TIE_TOL) || (
    !bits::lt(TIE_TOL, diff) && simpler(new.lambdas, best.lambdas)))
}

/// Whether `new` replaces the incumbent `best`.  `diff` is the score of `new`
/// minus that of `best`; it matters only where both are finite.
pub fn better_candidate(new: Candidate, best: Candidate, diff: u64) -> (r: bool)
    ensures
        r == preferred(new, best, diff),
{
    if !bits::is_finite(new.score) {
        return false;
    }
    if !bits::is_finite(best.score) {
        return true;
    }
    if bits::less_than(diff, NEG_TIE_TOL) {
        return true;
    }
    if bits::less_than(TIE_TOL, diff) {
        return false;
    }
    let (a, b) = (new.lambdas, best.lambdas);
    proof {
        bits::law_total_order(a.nn, b.nn);
        bits::law_total_order(a.time, b.time);
    }
    if a.nn != b.nn {
        return bits::total_less(b.nn, a.nn);
    }
    if a.time != b.time {
        return bits::total_less(a.time, b.time);
    }
    bits::total_less(a.unit, b.unit)
}

/// A candidate whose score is not finite never wins; one whose score is finite
/// always beats an incumbent whose score is not.
pub proof fn law_finite_wins(new: Candidate, best: Candidate, diff: u64)
    ensures
        !bits::finite(new.score) ==> !preferred(new, best, diff),
        bits::finite(new.score) && !bits::finite(best.score) ==> preferred(new, best, diff),
{
}

/// Beyond the tolerance the lower score wins whatever the parameters.
pub proof fn law_lower_score_wins(new: Candidate, best: Candidate, diff: u64)
    requires
        bits::finite(new.score),
        bits::finite(best.score),
    ensures
        bits::lt(diff, NEG_TIE_TOL) ==> preferred(new, best, diff),
        bits::lt(TIE_TOL, diff) ==> !preferred(new, best, diff),
{
}

/// A duplicate of the incumbent does not replace it, so the first of several
/// equal candidates is kept.
pub proof fn law_duplicate_rejected(c: Candidate, diff: u64)
    requires
        bits::finite(c.score) ==> bits::zero(diff),
    ensures
        !preferred(c, c, diff),
{
}

/// Of two candidates with opposite differences at most one is preferred; if
/// they are tied on finite scores and differ in a parameter, exactly one is.
pub proof fn law_preference_antisymmetric(a: Candidate, b: Candidate, ab: u64, ba: u64)
    requires
        !bits::nan(ab),
        !bits::nan(ba),
        bits::value_key(ba) == -bits::value_key(ab),
    ensures
        !(preferred(a, b, ab) && preferred(b, a, ba)),
        bits::finite(a.score) && bits::finite(b.score) && !bits::lt(ab, NEG_TIE_TOL) && !bits::lt(
            TIE_TOL,
            ab,
        ) && a.lambdas != b.lambdas ==> preferred(a, b, ab) || preferred(b, a, ba),
{
    bits::law_total_order(a.lambdas.nn, b.lambdas.nn);
    bits::law_total_order(a.lambdas.time, b.lambdas.time);
    bits::law_total_order(a.lambdas.unit, b.lambdas.unit);
}

/// One evaluated grid point.
#[derive(Debug, Clone, Copy, PartialEq, Eq)]
pub struct Evaluation {
    /// Grid value of the parameter under search.
    pub value: u64,
    pub candidate: Candidate,
    pub n_valid: usize,
    pub first_failed: Option<(usize, usize)>,
}

/// Incumbent after one more evaluation.
pub open spec fn improved(best: Evaluation, new: Evaluation, diff: u64) -> Evaluation {
    if preferred(new.candidate, best.candidate, diff) {
        new
    } else {
        best
    }
}

/// Incumbent after a sequence of evaluations, each with the difference of its
/// score from the incumbent it met.
pub open spec fn reduced(start: Evaluation, evals: Seq<Evaluation>, diffs: Seq<u64>) -> Evaluation
    decreases evals.len(),
{
    if evals.len() == 0 {
        start
    } else {
        improved(
            reduced(start, evals.drop_last(), diffs.drop_last()),
            evals.last(),
            diffs.last(),
        )
    }
}

impl Evaluation {
    /// Replaces this incumbent by `new` if it is preferred.
    pub fn offer(&mut self, new: Evaluation, diff: u64)
        ensures
            *final(self) == improved(*old(self), new, diff),
    {
        if better_candidate(new.candidate, self.candidate, diff) {
            *self = new;
        }
    }
}

/// The outcome of a search is its starting point or one of the evaluations,
/// and it is finite if any of them is.
pub proof fn law_reduction_selects(start: Evaluation, evals: Seq<Evaluation>, diffs: Seq<u64>)
    requires
        diffs.len() == evals.len(),
    ensures
        reduced(start, evals, diffs) == start || evals.contains(reduced(start, evals, diffs)),
        (exists|k: int|
            0 <= k < evals.len() && bits::finite((#[trigger] evals[k]).candidate.score))
            ==> bits::finite(reduced(start, evals, diffs).candidate.score) && evals.contains(
            reduced(start, evals, diffs),
        ) || bits::finite(start.candidate.score),
        bits::finite(start.candidate.score) ==> bits::finite(
            reduced(start, evals, diffs).candidate.score,
        ),
    decreases evals.len(),
{
    if evals.len() > 0 {
        let (e0, d0) = (evals.drop_last(), diffs.drop_last());
        law_reduction_selects(start, e0, d0);
        let prev = reduced(start, e0, d0);
        let last = evals.last();
        assert(evals[evals.len() - 1] == last);
        assert(evals.contains(last));
        if e0.contains(prev) {
            let j = choose|j: int| 0 <= j < e0.len() && e0[j] == prev;
            assert(evals[j] == prev);
        }
        if exists|k: int| 0 <= k < evals.len() && bits::finite((#[trigger] evals[k]).candidate.score) {
            let k = choose|k: int|
                0 <= k < evals.len() && bits::finite((#[trigger] evals[k]).candidate.score);
            if k < e0.len() {
                assert(bits::finite(e0[k].candidate.score));
            }
        }
    }
}

/// Differences of scores, as `subtract` gives them, between each evaluation and
/// the incumbent that it meets.
pub open spec fn differences<S: Fn(u64, u64) -> u64>(
    subtract: S,
    start: Evaluation,
    evals: Seq<Evaluation>,
    diffs: Seq<u64>,
) -> bool {
    &&& diffs.len() == evals.len()
    &&& forall|k: int|
        0 <= k < evals.len() ==> call_ensures(
            subtract,
            (
                evals[k].candidate.score,
                reduced(start, evals.take(k), diffs.take(k)).candidate.score,
            ),
            #[trigger] diffs[k],
        )
}

/// `r` is what is left of `start` once every evaluation was offered.
pub open spec fn selects<S: Fn(u64, u64) -> u64>(
    r: Evaluation,
    start: Evaluation,
    evals: Seq<Evaluation>,
    subtract: S,
) -> bool {
    exists|diffs: Seq<u64>| #[trigger]
        differences(subtract, start, evals, diffs) && r == reduced(start, evals, diffs)
}

/// Goes through evaluations in order and keeps the best one.  `subtract` is the
/// subtraction of floating-point numbers.
pub fn select<S: Fn(u64, u64) -> u64>(
    start: Evaluation,
    evals: &Vec<Evaluation>,
    subtract: &S,
) -> (r: Evaluation)
    requires
        forall|a: u64, b: u64| #[trigger] call_requires(*subtract, (a, b)),
    ensures
        selects(r, start, evals@, *subtract),
{
    let mut best: Evaluation = start;
    let ghost mut diffs: Seq<u64> = Seq::empty();
    let mut k: usize = 0;
    while k < evals.len()
        invariant
            k <= evals@.len(),
            forall|a: u64, b: u64| #[trigger] call_requires(*subtract, (a, b)),
            differences(*subtract, start, evals@.take(k as int), diffs),
            best == reduced(start, evals@.take(k as int), diffs),
        decreases evals@.len() - k,
    {
        let diff: u64 = (*subtract)(evals[k].candidate.score, best.candidate.score);
        let ghost before = diffs;
        proof {
            diffs = diffs.push(diff);
            let taken = evals@.take(k + 1);
            assert(taken.drop_last() =~= evals@.take(k as int));
            assert(diffs.drop_last() =~= before);
            assert forall|j: int| 0 <= j < taken.len() implies call_ensures(
                *subtract,
                (
                    taken[j].candidate.score,
                    reduced(start, taken.take(j), diffs.take(j)).candidate.score,
                ),
                #[trigger] diffs[j],
            ) by {
                assert(taken.take(j) =~= evals@.take(k as int).take(j));
                assert(diffs.take(j) =~= before.take(j));
                if j < k {
                    assert(diffs[j] == before[j]);
                } else {
                    assert(evals@.take(k as int).take(j) =~= evals@.take(k as int));
                    assert(before.take(j) =~= before);
                }
            }
        }
        best.offer(evals[k], diff);
        k = k + 1;
    }
    proof {
        assert(evals@.take(k as int) =~= evals@);
    }
    best
}

/// Parameter under search.
#[derive(Debug, Clone, Copy, PartialEq, Eq, Structural)]
pub enum Axis {
    Time,
    Unit,
    Nn,
}

impl Axis {
    /// Axis with the given number; any but 0 and 1 is the penalty.
    pub fn from_index(index: usize) -> (r: Axis)
        ensures
            r == if index == 0 {
                Axis::Time
            } else if index == 1 {
                Axis::Unit
            } else {
                Axis::Nn
            },
    {
        match index {
            0 => Axis::Time,
            1 => Axis::Unit,
            _ => Axis::Nn,
        }
    }
}

/// Parameters with the one on `axis` replaced by `value`.
pub open spec fn with_value(l: Lambdas, axis: Axis, value: u64) -> Lambdas {
    match axis {
        Axis::Time => Lambdas { time: value, ..l },
        Axis::Unit => Lambdas { unit: value, ..l },
        Axis::Nn => Lambdas { nn: value, ..l },
    }
}

/// Replaces the parameter on `axis`.
pub fn place(l: Lambdas, axis: Axis, value: u64) -> (r: Lambdas)
    ensures
        r == with_value(l, axis, value),
{
    match axis {
        Axis::Time => Lambdas { time: value, unit: l.unit, nn: l.nn },
        Axis::Unit => Lambdas { time: l.time, unit: value, nn: l.nn },
        Axis::Nn => Lambdas { time: l.time, unit: l.unit, nn: value },
    }
}

/// A sweep of one parameter over its grid, the others held fixed.
#[derive(Debug, Clone, Copy, PartialEq, Eq, Structural)]
pub struct Sweep {
    pub axis: Axis,
    pub fixed: Lambdas,
    /// Score from which candidates may be given up early.
    pub hint: u64,
}

/// Grid points of a sweep: each grid value with the effective values of the
/// parameters held fixed.
pub fn sweep_points(sweep: &Sweep, grid: &Vec<u64>) -> (r: Vec<Lambdas>)
    ensures
        r@ == Seq::new(
            grid@.len(),
            |k: int| with_value(effective_of(sweep.fixed), sweep.axis, grid@[k]),
        ),
{
    let fixed: Lambdas = effective(sweep.fixed);
    let mut r: Vec<Lambdas> = Vec::new();
    let mut k: usize = 0;
    while k < grid.len()
        invariant
            k <= grid@.len(),
            fixed == effective_of(sweep.fixed),
            r@ == Seq::new(
                grid@.len(),
                |k: int| with_value(effective_of(sweep.fixed), sweep.axis, grid@[k]),
            ).take(k as int),
        decreases grid@.len() - k,
    {
        r.push(place(fixed, sweep.axis, grid[k]));
        k = k + 1;
    }
    r
}

/// First value of a grid, zero where it is empty.
pub open spec fn head_of(grid: Seq<u64>) -> u64 {
    if grid.len() > 0 {
        grid[0]
    } else {
        bits::ZERO
    }
}

fn head(grid: &Vec<u64>) -> (r: u64)
    ensures
        r == head_of(grid@),
{
    if grid.len() > 0 {
        grid[0]
    } else {
        bits::ZERO
    }
}

/// Incumbent that a sweep starts from: the first grid value, with the fixed
/// parameters and an infinite score.
pub open spec fn sweep_start_of(sweep: Sweep, grid: Seq<u64>) -> Evaluation {
    Evaluation {
        value: head_of(grid),
        candidate: Candidate { lambdas: effective_of(sweep.fixed), score: bits::INFINITY },
        n_valid: 0,
        first_failed: None,
    }
}

/// Incumbent that a sweep starts from.
pub fn sweep_start(sweep: &Sweep, grid: &Vec<u64>) -> (r: Evaluation)
    ensures
        r == sweep_start_of(*sweep, grid@),
{
    Evaluation {
        value: head(grid),
        candidate: Candidate { lambdas: effective(sweep.fixed), score: bits::INFINITY },
        n_valid: 0,
        first_failed: None,
    }
}

/// Evaluation of a grid point.
pub fn evaluated(value: u64, lambdas: Lambdas, result: &ScoreResult) -> (r: Evaluation)
    ensures
        r == (Evaluation {
            value,
            candidate: Candidate { lambdas, score: result.score },
            n_valid: result.n_valid,
            first_failed: result.first_failed,
        }),
{
    Evaluation {
        value,
        candidate: Candidate { lambdas, score: result.score },
        n_valid: result.n_valid,
        first_failed: result.first_failed,
    }
}

/// Evaluations of grid points: each with its grid value, its parameters and
/// the result at it.
pub open spec fn evaluations(
    values: Seq<u64>,
    points: Seq<Lambdas>,
    results: Seq<ScoreResult>,
) -> Seq<Evaluation> {
    Seq::new(
        points.len(),
        |k: int|
            Evaluation {
                value: values[k],
                candidate: Candidate { lambdas: points[k], score: results[k].score },
                n_valid: results[k].n_valid,
                first_failed: results[k].first_failed,
            },
    )
}

fn collect_evaluations(
    values: &Vec<u64>,
    points: &Vec<Lambdas>,
    results: &Vec<ScoreResult>,
) -> (r: Vec<Evaluation>)
    requires
        values@.len() == points@.len(),
        results@.len() == points@.len(),
    ensures
        r@ == evaluations(values@, points@, results@),
{
    let mut r: Vec<Evaluation> = Vec::new();
    let mut k: usize = 0;
    while k < points.len()
        invariant
            k <= points@.len(),
            values@.len() == points@.len(),
            results@.len() == points@.len(),
            r@ == evaluations(values@, points@, results@).take(k as int),
        decreases points@.len() - k,
    {
        r.push(evaluated(values[k], points[k], &results[k]));
        k = k + 1;
    }
    r
}

/// Points of a sweep over `grid`.
pub open spec fn sweep_points_of(sweep: Sweep, grid: Seq<u64>) -> Seq<Lambdas> {
    Seq::new(grid.len(), |k: int| with_value(effective_of(sweep.fixed), sweep.axis, grid[k]))
}

/// Picks the best point of a sweep, given the results at its points.
pub fn select_point<S: Fn(u64, u64) -> u64>(
    sweep: &Sweep,
    grid: &Vec<u64>,
    results: &Vec<ScoreResult>,
    subtract: &S,
) -> (r: Evaluation)
    requires
        results@.len() == grid@.len(),
        forall|a: u64, b: u64| #[trigger] call_requires(*subtract, (a, b)),
    ensures
        selects(
            r,
            sweep_start_of(*sweep, grid@),
            evaluations(grid@, sweep_points_of(*sweep, grid@), results@),
            *subtract,
        ),
        grid@.len() > 0 ==> grid@.contains(r.value),
        !bits::finite(r.candidate.score) ==> r == sweep_start_of(*sweep, grid@),
{
    let start: Evaluation = sweep_start(sweep, grid);
    let points: Vec<Lambdas> = sweep_points(sweep, grid);
    let evals: Vec<Evaluation> = collect_evaluations(grid, &points, results);
    let r: Evaluation = select(start, &evals, subtract);
    proof {
        assert(points@ == sweep_points_of(*sweep, grid@));
        let diffs = choose|diffs: Seq<u64>| #[trigger]
            differences(*subtract, start, evals@, diffs) && r == reduced(start, evals@, diffs);
        if grid@.len() > 0 {
            assert forall|k: int| 0 <= k < evals@.len() implies grid@.contains(
                (#[trigger] evals@[k]).value,
            ) by {
                assert(evals@[k].value == grid@[k]);
            }
            law_sweep_stays_in_grid(*sweep, grid@, evals@, diffs);
        }
        lemma_infinite_start_stays(start, evals@, diffs);
    }
    r
}

/// Carries out a sweep: `evaluate` gets the context and a list of parameters
/// and gives the criterion at each, `subtract` is the subtraction of
/// floating-point numbers.
pub fn run_sweep<C, E: Fn(&C, Vec<Lambdas>) -> Vec<ScoreResult>, S: Fn(u64, u64) -> u64>(
    sweep: &Sweep,
    grid: &Vec<u64>,
    context: &C,
    evaluate: &E,
    subtract: &S,
) -> (r: Evaluation)
    requires
        forall|points: Vec<Lambdas>| #[trigger] call_requires(*evaluate, (context, points)),
        forall|points: Vec<Lambdas>, out: Vec<ScoreResult>| #[trigger]
            call_ensures(*evaluate, (context, points), out) ==> out@.len() == points@.len(),
        forall|a: u64, b: u64| #[trigger] call_requires(*subtract, (a, b)),
    ensures
        exists|points: Vec<Lambdas>, results: Vec<ScoreResult>| #[trigger]
            call_ensures(*evaluate, (context, points), results) && points@ == sweep_points_of(*sweep, grid@)
                && selects(
                r,
                sweep_start_of(*sweep, grid@),
                evaluations(grid@, points@, results@),
                *subtract,
            ),
        grid@.len() > 0 ==> grid@.contains(r.value),
        !bits::finite(r.candidate.score) ==> r == sweep_start_of(*sweep, grid@),
{
    let points: Vec<Lambdas> = sweep_points(sweep, grid);
    let results: Vec<ScoreResult> = (*evaluate)(context, points);
    assert(points@ == sweep_points_of(*sweep, grid@));
    select_point(sweep, grid, &results, subtract)
}

proof fn lemma_infinite_start_stays(start: Evaluation, evals: Seq<Evaluation>, diffs: Seq<u64>)
    requires
        diffs.len() == evals.len(),
    ensures
        !bits::finite(reduced(start, evals, diffs).candidate.score) ==> reduced(start, evals, diffs)
            == start,
    decreases evals.len(),
{
    if evals.len() > 0 {
        lemma_infinite_start_stays(start, evals.drop_last(), diffs.drop_last());
    }
}

/// A sweep over a non-empty grid selects a value of the grid.
pub proof fn law_sweep_stays_in_grid(
    sweep: Sweep,
    grid: Seq<u64>,
    evals: Seq<Evaluation>,
    diffs: Seq<u64>,
)
    requires
        grid.len() > 0,
        diffs.len() == evals.len(),
        forall|k: int| 0 <= k < evals.len() ==> grid.contains((#[trigger] evals[k]).value),
    ensures
        grid.contains(reduced(sweep_start_of(sweep, grid), evals, diffs).value),
{
    let start = sweep_start_of(sweep, grid);
    law_reduction_selects(start, evals, diffs);
    assert(grid.contains(grid[0]));
    let best = reduced(start, evals, diffs);
    if evals.contains(best) {
        let k = choose|k: int| 0 <= k < evals.len() && evals[k] == best;
        assert(grid.contains(evals[k].value));
    }
}

/// Which loop of a sweep runs in parallel.
#[derive(Debug, Clone, Copy, PartialEq, Eq, Structural)]
pub enum Layer {
    /// The grid points.
    Candidates,
    /// The control cells of one grid point.
    Observations,
}

/// Picks the loop to run in parallel: the grid points where there are at least
/// as many as workers, the cells of each otherwise.
pub fn parallel_layer(grid_len: usize, n_threads: usize) -> (r: Layer)
    ensures
        r == if grid_len >= n_threads && grid_len > 0 {
            Layer::Candidates
        } else {
            Layer::Observations
        },
{
    let threads: usize = if n_threads < 1 {
        1
    } else {
        n_threads
    };
    if grid_len >= threads {
        Layer::Candidates
    } else {
        Layer::Observations
    }
}

/// Position of a combination in the list of all.
pub open spec fn combination_index(
    n_unit: int,
    n_nn: int,
    a: int,
    b: int,
    c: int,
) -> int {
    (a * n_unit + b) * n_nn + c
}

pub proof fn lemma_combination_index(n_unit: int, n_nn: int, a: int, b: int, c: int, a2: int, b2: int)
    requires
        0 <= b < n_unit,
        0 <= c < n_nn,
        0 <= a,
        a < a2 || (a == a2 && b < b2),
        0 <= b2,
    ensures
        0 <= combination_index(n_unit, n_nn, a, b, c) < (a2 * n_unit + b2) * n_nn,
{
    let p = a * n_unit + b;
    let q = a2 * n_unit + b2;
    if a < a2 {
        assert(a * n_unit + n_unit <= a2 * n_unit) by (nonlinear_arith)
            requires
                a + 1 <= a2,
                0 <= n_unit,
        ;
    }
    assert(0 <= a * n_unit) by (nonlinear_arith)
        requires
            0 <= a,
            0 <= n_unit,
    ;
    assert(0 <= p * n_nn && p * n_nn + n_nn <= q * n_nn) by (nonlinear_arith)
        requires
            0 <= p,
            p + 1 <= q,
            0 <= n_nn,
    ;
}

/// `points` are all combinations of three grids; the time bandwidth varies
/// slowest, the penalty fastest.
pub open spec fn lists_combinations(
    points: Seq<Lambdas>,
    time_grid: Seq<u64>,
    unit_grid: Seq<u64>,
    nn_grid: Seq<u64>,
) -> bool {
    &&& points.len() == (time_grid.len() * unit_grid.len()) * nn_grid.len()
    &&& forall|a: int, b: int, c: int|
        0 <= a < time_grid.len() && 0 <= b < unit_grid.len() && 0 <= c < nn_grid.len()
            ==> points[#[trigger] combination_index(
            unit_grid.len() as int,
            nn_grid.len() as int,
            a,
            b,
            c,
        )] == (Lambdas { time: time_grid[a], unit: unit_grid[b], nn: nn_grid[c] })
}

/// Each parameter is a value of its grid.
pub open spec fn in_grids(
    l: Lambdas,
    time_grid: Seq<u64>,
    unit_grid: Seq<u64>,
    nn_grid: Seq<u64>,
) -> bool {
    time_grid.contains(l.time) && unit_grid.contains(l.unit) && nn_grid.contains(l.nn)
}

/// All combinations of three grids.
pub fn grid_combinations(
    time_grid: &Vec<u64>,
    unit_grid: &Vec<u64>,
    nn_grid: &Vec<u64>,
) -> (r: Vec<Lambdas>)
    ensures
        lists_combinations(r@, time_grid@, unit_grid@, nn_grid@),
        forall|k: int|
            0 <= k < r@.len() ==> in_grids(#[trigger] r@[k], time_grid@, unit_grid@, nn_grid@),
{
    let ghost nu: int = unit_grid@.len() as int;
    let ghost nn: int = nn_grid@.len() as int;
    let mut r: Vec<Lambdas> = Vec::new();
    let mut i: usize = 0;
    assert((0 * nu) * nn == 0) by (nonlinear_arith);
    while i < time_grid.len()
        invariant
            i <= time_grid@.len(),
            nu == unit_grid@.len(),
            nn == nn_grid@.len(),
            forall|k: int|
                0 <= k < r@.len() ==> in_grids(#[trigger] r@[k], time_grid@, unit_grid@, nn_grid@),
            r@.len() == (i * nu) * nn,
            forall|a: int, b: int, c: int|
                0 <= a < i && 0 <= b < nu && 0 <= c < nn ==> r@[#[trigger] combination_index(
                    nu,
                    nn,
                    a,
                    b,
                    c,
                )] == (Lambdas { time: time_grid@[a], unit: unit_grid@[b], nn: nn_grid@[c] }),
        decreases time_grid@.len() - i,
    {
        let mut j: usize = 0;
        while j < unit_grid.len()
            invariant
                i < time_grid@.len(),
                j <= unit_grid@.len(),
                nu == unit_grid@.len(),
                nn == nn_grid@.len(),
                forall|k: int|
                    0 <= k < r@.len() ==> in_grids(#[trigger] r@[k], time_grid@, unit_grid@, nn_grid@),
                r@.len() == (i * nu + j) * nn,
                forall|a: int, b: int, c: int|
                    (0 <= a < i && 0 <= b < nu || a == i && 0 <= b < j) && 0 <= c < nn
                        ==> r@[#[trigger] combination_index(nu, nn, a, b, c)] == (Lambdas {
                        time: time_grid@[a],
                        unit: unit_grid@[b],
                        nn: nn_grid@[c],
                    }),
            decreases unit_grid@.len() - j,
        {
            let mut k: usize = 0;
            while k < nn_grid.len()
                invariant
                    i < time_grid@.len(),
                    j < unit_grid@.len(),
                    k <= nn_grid@.len(),
                    nu == unit_grid@.len(),
                    nn == nn_grid@.len(),
                    forall|m: int|
                        0 <= m < r@.len() ==> in_grids(#[trigger] r@[m], time_grid@, unit_grid@, nn_grid@),
                    r@.len() == (i * nu + j) * nn + k,
                    forall|a: int, b: int, c: int|
                        (0 <= a < i && 0 <= b < nu || a == i && 0 <= b < j) && 0 <= c < nn
                            ==> r@[#[trigger] combination_index(nu, nn, a, b, c)] == (Lambdas {
                            time: time_grid@[a],
                            unit: unit_grid@[b],
                            nn: nn_grid@[c],
                        }),
                    forall|c: int|
                        0 <= c < k ==> r@[#[trigger] combination_index(
                            nu,
                            nn,
                            i as int,
                            j as int,
                            c,
                        )] == (Lambdas {
                            time: time_grid@[i as int],
                            unit: unit_grid@[j as int],
                            nn: nn_grid@[c],
                        }),
                decreases nn_grid@.len() - k,
            {
                let ghost prev = r@;
                r.push(Lambdas { time: time_grid[i], unit: unit_grid[j], nn: nn_grid[k] });
                proof {
                    assert forall|m: int| 0 <= m < r@.len() implies in_grids(
                        #[trigger] r@[m],
                        time_grid@,
                        unit_grid@,
                        nn_grid@,
                    ) by {
                        if m < prev.len() {
                            assert(prev[m] == r@[m]);
                        }
                    }
                    assert((i * nu + j) * nn >= 0) by (nonlinear_arith)
                        requires
                            i >= 0,
                            nu >= 0,
                            j >= 0,
                            nn >= 0,
                    ;
                    assert forall|a: int, b: int, c: int|
                        (0 <= a < i && 0 <= b < nu || a == i && 0 <= b < j) && 0 <= c
                            < nn implies r@[#[trigger] combination_index(nu, nn, a, b, c)] == (
                    Lambdas { time: time_grid@[a], unit: unit_grid@[b], nn: nn_grid@[c] }) by {
                        lemma_combination_index(nu, nn, a, b, c, i as int, j as int);
                        assert(prev[combination_index(nu, nn, a, b, c)]
                            == r@[combination_index(nu, nn, a, b, c)]);
                    }
                    assert forall|c: int| 0 <= c < k + 1 implies r@[#[trigger] combination_index(
                        nu,
                        nn,
                        i as int,
                        j as int,
                        c,
                    )] == (Lambdas {
                        time: time_grid@[i as int],
                        unit: unit_grid@[j as int],
                        nn: nn_grid@[c],
                    }) by {
                        if c < k {
                            assert(prev[combination_index(nu, nn, i as int, j as int, c)]
                                == r@[combination_index(nu, nn, i as int, j as int, c)]);
                        }
                    }
                }
                k = k + 1;
            }
            proof {
                assert((i * nu + (j + 1)) * nn == (i * nu + j) * nn + nn) by (nonlinear_arith);
            }
            j = j + 1;
        }
        proof {
            assert((i + 1) * nu == i * nu + nu) by (nonlinear_arith);
        }
        i = i + 1;
    }
    r
}

/// Incumbent that a search over all combinations starts from: the first value
/// of each grid, with an infinite score.
pub open spec fn exhaustive_start_of(
    time_grid: Seq<u64>,
    unit_grid: Seq<u64>,
    nn_grid: Seq<u64>,
) -> Evaluation {
    Evaluation {
        value: bits::ZERO,
        candidate: Candidate {
            lambdas: Lambdas {
                time: head_of(time_grid),
                unit: head_of(unit_grid),
                nn: head_of(nn_grid),
            },
            score: bits::INFINITY,
        },
        n_valid: 0,
        first_failed: None,
    }
}

/// Incumbent that a search over all combinations starts from.
pub fn exhaustive_start(
    time_grid: &Vec<u64>,
    unit_grid: &Vec<u64>,
    nn_grid: &Vec<u64>,
) -> (r: Evaluation)
    ensures
        r == exhaustive_start_of(time_grid@, unit_grid@, nn_grid@),
{
    Evaluation {
        value: bits::ZERO,
        candidate: Candidate {
            lambdas: Lambdas {
                time: head(time_grid),
                unit: head(unit_grid),
                nn: head(nn_grid),
            },
            score: bits::INFINITY,
        },
        n_valid: 0,
        first_failed: None,
    }
}

/// Parameters at which the criterion of each of a list of points is evaluated.
pub open spec fn effective_points(points: Seq<Lambdas>) -> Seq<Lambdas> {
    Seq::new(points.len(), |k: int| effective_of(points[k]))
}

/// Values of points that belong to no single grid.
pub open spec fn no_values(n: nat) -> Seq<u64> {
    Seq::new(n, |k: int| bits::ZERO)
}

/// Outcome of a search over all combinations: `given` are the points as handed
/// to `evaluate`, `results` is what came back.
pub open spec fn exhaustive_selects<S: Fn(u64, u64) -> u64>(
    r: Evaluation,
    time_grid: Seq<u64>,
    unit_grid: Seq<u64>,
    nn_grid: Seq<u64>,
    given: Seq<Lambdas>,
    results: Seq<ScoreResult>,
    subtract: S,
) -> bool {
    exists|points: Seq<Lambdas>| #[trigger]
        lists_combinations(points, time_grid, unit_grid, nn_grid) && given == effective_points(
            points,
        ) && selects(
            r,
            exhaustive_start_of(time_grid, unit_grid, nn_grid),
            evaluations(no_values(points.len()), points, results),
            subtract,
        )
}

/// Searches all combinations of three grids: `evaluate` gets the context and a
/// list of parameters and gives the criterion at each, `subtract` is the
/// subtraction of floating-point numbers.
pub fn search_combinations<
    C,
    E: Fn(&C, Vec<Lambdas>) -> Vec<ScoreResult>,
    S: Fn(u64, u64) -> u64,
>(
    time_grid: &Vec<u64>,
    unit_grid: &Vec<u64>,
    nn_grid: &Vec<u64>,
    context: &C,
    evaluate: &E,
    subtract: &S,
) -> (r: Evaluation)
    requires
        forall|points: Vec<Lambdas>| #[trigger] call_requires(*evaluate, (context, points)),
        forall|points: Vec<Lambdas>, out: Vec<ScoreResult>| #[trigger]
            call_ensures(*evaluate, (context, points), out) ==> out@.len() == points@.len(),
        forall|a: u64, b: u64| #[trigger] call_requires(*subtract, (a, b)),
    ensures
        exists|given: Vec<Lambdas>, results: Vec<ScoreResult>| #[trigger]
            call_ensures(*evaluate, (context, given), results) && exhaustive_selects(
                r,
                time_grid@,
                unit_grid@,
                nn_grid@,
                given@,
                results@,
                *subtract,
            ),
        !bits::finite(r.candidate.score) ==> r == exhaustive_start_of(
            time_grid@,
            unit_grid@,
            nn_grid@,
        ),
        time_grid@.len() > 0 && unit_grid@.len() > 0 && nn_grid@.len() > 0 ==> in_grids(
            r.candidate.lambdas,
            time_grid@,
            unit_grid@,
            nn_grid@,
        ),
{
    let start: Evaluation = exhaustive_start(time_grid, unit_grid, nn_grid);
    let points: Vec<Lambdas> = grid_combinations(time_grid, unit_grid, nn_grid);
    let mut given: Vec<Lambdas> = Vec::new();
    let mut values: Vec<u64> = Vec::new();
    let mut k: usize = 0;
    while k < points.len()
        invariant
            k <= points@.len(),
            given@ == effective_points(points@).take(k as int),
            values@ == no_values(k as nat),
        decreases points@.len() - k,
    {
        given.push(effective(points[k]));
        values.push(bits::ZERO);
        k = k + 1;
    }
    let results: Vec<ScoreResult> = (*evaluate)(context, given);
    let evals: Vec<Evaluation> = collect_evaluations(&values, &points, &results);
    let r: Evaluation = select(start, &evals, subtract);
    proof {
        assert(given@ == effective_points(points@));
        assert(exhaustive_selects(
            r,
            time_grid@,
            unit_grid@,
            nn_grid@,
            given@,
            results@,
            *subtract,
        ));
        let diffs = choose|diffs: Seq<u64>| #[trigger]
            differences(*subtract, start, evals@, diffs) && r == reduced(start, evals@, diffs);
        lemma_infinite_start_stays(start, evals@, diffs);
        if time_grid@.len() > 0 && unit_grid@.len() > 0 && nn_grid@.len() > 0 {
            law_reduction_selects(start, evals@, diffs);
            if r != start {
                let k = choose|k: int| 0 <= k < evals@.len() && r == #[trigger] evals@[k];
                assert(r.candidate.lambdas == points@[k]);
            }
        }
    }
    r
}

/// Stage of a two-stage search.
#[derive(Debug, Clone, Copy, PartialEq, Eq, Structural)]
pub enum Stage {
    /// Univariate starting value of the time bandwidth.
    InitTime,
    /// Univariate starting value of the penalty.
    InitNn,
    /// Univariate starting value of the unit bandwidth.
    InitUnit,
    /// Coordinate descent: unit bandwidth.
    CycleUnit,
    /// Coordinate descent: time bandwidth.
    CycleTime,
    /// Coordinate descent: penalty.
    CycleNn,
    /// The parameters are selected.
    Done,
}

/// Two-stage search: univariate starting values, then coordinate descent until
/// the criterion settles or the cycles are used up.
#[derive(Debug, Clone, Copy, PartialEq, Eq, Structural)]
pub struct GridSearch {
    pub stage: Stage,
    /// Parameters selected so far.
    pub lambdas: Lambdas,
    /// Starting values.
    pub initial: Lambdas,
    /// Criterion at the end of the last cycle.
    pub prev_score: u64,
    /// Cycles left, the current one included.
    pub cycles_left: usize,
}

/// All parameters zero.
pub open spec fn zero_lambdas() -> Lambdas {
    Lambdas { time: bits::ZERO, unit: bits::ZERO, nn: bits::ZERO }
}

/// Uniform weights and no low-rank component.
pub open spec fn did_lambdas() -> Lambdas {
    Lambdas { time: bits::ZERO, unit: bits::ZERO, nn: bits::INFINITY }
}

/// First stage of the coordinate descent, given the cycles left.
pub open spec fn cycle_stage(cycles_left: usize) -> Stage {
    if cycles_left == 0 {
        Stage::Done
    } else {
        Stage::CycleUnit
    }
}

/// Sweep that a search asks for next.
pub open spec fn sweep_of(s: GridSearch) -> Option<Sweep> {
    let l = s.lambdas;
    match s.stage {
        Stage::InitTime => Some(
            Sweep { axis: Axis::Time, fixed: did_lambdas(), hint: bits::INFINITY },
        ),
        Stage::InitNn => Some(
            Sweep { axis: Axis::Nn, fixed: zero_lambdas(), hint: bits::INFINITY },
        ),
        Stage::InitUnit => Some(
            Sweep { axis: Axis::Unit, fixed: did_lambdas(), hint: bits::INFINITY },
        ),
        Stage::CycleUnit => Some(
            Sweep {
                axis: Axis::Unit,
                fixed: with_value(l, Axis::Unit, bits::ZERO),
                hint: s.prev_score,
            },
        ),
        Stage::CycleTime => Some(
            Sweep {
                axis: Axis::Time,
                fixed: with_value(l, Axis::Time, bits::ZERO),
                hint: s.prev_score,
            },
        ),
        Stage::CycleNn => Some(
            Sweep {
                axis: Axis::Nn,
                fixed: with_value(l, Axis::Nn, bits::ZERO),
                hint: s.prev_score,
            },
        ),
        Stage::Done => None,
    }
}

/// The search after the sweep it asked for selected `value` with criterion
/// `score`; `change` is that criterion minus the one of the last cycle.
pub open spec fn advanced(s: GridSearch, value: u64, score: u64, change: u64) -> GridSearch {
    match s.stage {
        Stage::InitTime => GridSearch {
            stage: Stage::InitNn,
            lambdas: with_value(s.lambdas, Axis::Time, value),
            initial: with_value(s.initial, Axis::Time, value),
            ..s
        },
        Stage::InitNn => GridSearch {
            stage: Stage::InitUnit,
            lambdas: with_value(s.lambdas, Axis::Nn, value),
            initial: with_value(s.initial, Axis::Nn, value),
            ..s
        },
        Stage::InitUnit => GridSearch {
            stage: cycle_stage(s.cycles_left),
            lambdas: with_value(s.lambdas, Axis::Unit, value),
            initial: with_value(s.initial, Axis::Unit, value),
            ..s
        },
        Stage::CycleUnit => GridSearch {
            stage: Stage::CycleTime,
            lambdas: with_value(s.lambdas, Axis::Unit, value),
            ..s
        },
        Stage::CycleTime => GridSearch {
            stage: Stage::CycleNn,
            lambdas: with_value(s.lambdas, Axis::Time, value),
            ..s
        },
        Stage::CycleNn => {
            let lambdas = with_value(s.lambdas, Axis::Nn, value);
            if bits::lt(bits::magnitude(change) as u64, CYCLE_TOL) {
                GridSearch { stage: Stage::Done, lambdas, ..s }
            } else {
                let cycles_left = (s.cycles_left - 1) as usize;
                GridSearch {
                    stage: cycle_stage(cycles_left),
                    lambdas,
                    prev_score: score,
                    cycles_left,
                    ..s
                }
            }
        },
        Stage::Done => s,
    }
}

/// A search from scratch, with at most `max_cycles` cycles.
pub open spec fn scratch(max_cycles: usize) -> GridSearch {
    GridSearch {
        stage: Stage::InitTime,
        lambdas: zero_lambdas(),
        initial: zero_lambdas(),
        prev_score: bits::INFINITY,
        cycles_left: max_cycles,
    }
}

/// A coordinate descent from given starting values.
pub open spec fn descent(initial: Lambdas, max_cycles: usize) -> GridSearch {
    GridSearch {
        stage: cycle_stage(max_cycles),
        lambdas: initial,
        initial,
        prev_score: bits::INFINITY,
        cycles_left: max_cycles,
    }
}

impl Stage {
    /// Scores are looked up and kept in the coordinate descent of the twostep
    /// search only.
    pub fn is_cycle(&self) -> (r: bool)
        ensures
            r == (*self == Stage::CycleUnit || *self == Stage::CycleTime || *self
                == Stage::CycleNn),
    {
        match self {
            Stage::CycleUnit | Stage::CycleTime | Stage::CycleNn => true,
            _ => false,
        }
    }
}

impl GridSearch {
    /// A coordinate descent under way has a cycle left.
    pub open spec fn wf(&self) -> bool {
        match self.stage {
            Stage::CycleUnit | Stage::CycleTime | Stage::CycleNn => self.cycles_left > 0,
            _ => true,
        }
    }

    /// A search from scratch, with at most `max_cycles` cycles.
    pub fn new(max_cycles: usize) -> (r: GridSearch)
        ensures
            r.wf(),
            r == scratch(max_cycles),
    {
        let zero: Lambdas = Lambdas { time: bits::ZERO, unit: bits::ZERO, nn: bits::ZERO };
        GridSearch {
            stage: Stage::InitTime,
            lambdas: zero,
            initial: zero,
            prev_score: bits::INFINITY,
            cycles_left: max_cycles,
        }
    }

    /// A coordinate descent from the given starting values.
    pub fn from_initial(initial: Lambdas, max_cycles: usize) -> (r: GridSearch)
        ensures
            r.wf(),
            r == descent(initial, max_cycles),
    {
        GridSearch {
            stage: if max_cycles == 0 {
                Stage::Done
            } else {
                Stage::CycleUnit
            },
            lambdas: initial,
            initial,
            prev_score: bits::INFINITY,
            cycles_left: max_cycles,
        }
    }

    /// Sweep to carry out next; `None` once the parameters are selected.
    pub fn next(&self) -> (r: Option<Sweep>)
        ensures
            r == sweep_of(*self),
    {
        let zero: Lambdas = Lambdas { time: bits::ZERO, unit: bits::ZERO, nn: bits::ZERO };
        let did: Lambdas = Lambdas { time: bits::ZERO, unit: bits::ZERO, nn: bits::INFINITY };
        let (axis, fixed, hint) = match self.stage {
            Stage::InitTime => (Axis::Time, did, bits::INFINITY),
            Stage::InitNn => (Axis::Nn, zero, bits::INFINITY),
            Stage::InitUnit => (Axis::Unit, did, bits::INFINITY),
            Stage::CycleUnit => (
                Axis::Unit,
                place(self.lambdas, Axis::Unit, bits::ZERO),
                self.prev_score,
            ),
            Stage::CycleTime => (
                Axis::Time,
                place(self.lambdas, Axis::Time, bits::ZERO),
                self.prev_score,
            ),
            Stage::CycleNn => (
                Axis::Nn,
                place(self.lambdas, Axis::Nn, bits::ZERO),
                self.prev_score,
            ),
            Stage::Done => {
                return None;
            },
        };
        Some(Sweep { axis, fixed, hint })
    }

    /// Takes in the outcome of the sweep that [`GridSearch::next`] asked for.
    pub fn record(&mut self, value: u64, score: u64, change: u64)
        requires
            old(self).wf(),
            old(self).stage != Stage::Done,
        ensures
            final(self).wf(),
            *final(self) == advanced(*old(self), value, score, change),
    {
        match self.stage {
            Stage::InitTime => {
                self.lambdas = place(self.lambdas, Axis::Time, value);
                self.initial = place(self.initial, Axis::Time, value);
                self.stage = Stage::InitNn;
            },
            Stage::InitNn => {
                self.lambdas = place(self.lambdas, Axis::Nn, value);
                self.initial = place(self.initial, Axis::Nn, value);
                self.stage = Stage::InitUnit;
            },
            Stage::InitUnit => {
                self.lambdas = place(self.lambdas, Axis::Unit, value);
                self.initial = place(self.initial, Axis::Unit, value);
                self.stage = if self.cycles_left == 0 {
                    Stage::Done
                } else {
                    Stage::CycleUnit
                };
            },
            Stage::CycleUnit => {
                self.lambdas = place(self.lambdas, Axis::Unit, value);
                self.stage = Stage::CycleTime;
            },
            Stage::CycleTime => {
                self.lambdas = place(self.lambdas, Axis::Time, value);
                self.stage = Stage::CycleNn;
            },
            Stage::CycleNn => {
                self.lambdas = place(self.lambdas, Axis::Nn, value);
                if bits::less_than(bits::abs(change), CYCLE_TOL) {
                    self.stage = Stage::Done;
                } else {
                    self.prev_score = score;
                    self.cycles_left = self.cycles_left - 1;
                    self.stage = if self.cycles_left == 0 {
                        Stage::Done
                    } else {
                        Stage::CycleUnit
                    };
                }
            },
            Stage::Done => {},
        }
    }
}

/// Sweeps that a search can still ask for.
pub open spec fn sweeps_left(s: GridSearch) -> int {
    match s.stage {
        Stage::InitTime => 3 + 3 * s.cycles_left,
        Stage::InitNn => 2 + 3 * s.cycles_left,
        Stage::InitUnit => 1 + 3 * s.cycles_left,
        Stage::CycleUnit => 3 * s.cycles_left,
        Stage::CycleTime => 3 * s.cycles_left - 1,
        Stage::CycleNn => 3 * s.cycles_left - 2,
        Stage::Done => 0,
    }
}

/// A search ends: every sweep leaves fewer to ask for, and it asks for none
/// exactly when it is done.  So a search from scratch takes at most three
/// sweeps for the starting values and three per cycle.
pub proof fn law_search_ends(s: GridSearch, value: u64, score: u64, change: u64)
    requires
        s.wf(),
    ensures
        sweeps_left(s) >= 0,
        s.stage == Stage::Done <==> sweep_of(s) is None,
        s.stage != Stage::Done ==> advanced(s, value, score, change).wf() && sweeps_left(
            advanced(s, value, score, change),
        ) < sweeps_left(s),
{
}

/// A parameter is a value of its grid, or was not swept yet.
pub open spec fn in_grid(v: u64, grid: Seq<u64>, start: u64) -> bool {
    v == start || grid.contains(v)
}

/// Sweeping keeps every parameter within its grid: where each sweep returns a
/// value of the grid of its axis, so does the search.
pub proof fn law_search_stays_in_grids(
    s: GridSearch,
    time_grid: Seq<u64>,
    unit_grid: Seq<u64>,
    nn_grid: Seq<u64>,
    start: Lambdas,
    value: u64,
    score: u64,
    change: u64,
)
    requires
        s.stage != Stage::Done,
        in_grid(s.lambdas.time, time_grid, start.time),
        in_grid(s.lambdas.unit, unit_grid, start.unit),
        in_grid(s.lambdas.nn, nn_grid, start.nn),
        match sweep_of(s)->0.axis {
            Axis::Time => time_grid.contains(value),
            Axis::Unit => unit_grid.contains(value),
            Axis::Nn => nn_grid.contains(value),
        },
    ensures
        ({
            let next = advanced(s, value, score, change);
            &&& in_grid(next.lambdas.time, time_grid, start.time)
            &&& in_grid(next.lambdas.unit, unit_grid, start.unit)
            &&& in_grid(next.lambdas.nn, nn_grid, start.nn)
            &&& with_value(next.lambdas, sweep_of(s)->0.axis, value) == next.lambdas
        }),
{
}

/// One sweep of a search: the results at its points, what was selected from
/// them, and by how much the criterion differs from that of the last cycle.
pub struct Step {
    pub points: Vec<Lambdas>,
    pub results: Vec<ScoreResult>,
    pub best: Evaluation,
    pub change: u64,
}

/// The search after some steps.
pub open spec fn after(s: GridSearch, steps: Seq<Step>) -> GridSearch
    decreases steps.len(),
{
    if steps.len() == 0 {
        s
    } else {
        let last = steps.last();
        advanced(
            after(s, steps.drop_last()),
            last.best.value,
            last.best.candidate.score,
            last.change,
        )
    }
}

/// Grid of an axis.
pub open spec fn grid_of(
    axis: Axis,
    time_grid: Seq<u64>,
    unit_grid: Seq<u64>,
    nn_grid: Seq<u64>,
) -> Seq<u64> {
    match axis {
        Axis::Time => time_grid,
        Axis::Unit => unit_grid,
        Axis::Nn => nn_grid,
    }
}

/// `step` is the sweep that `at` asks for, carried out over the grid of its
/// axis.
pub open spec fn carries_out<
    C,
    E: Fn(&C, Stage, Sweep, Vec<Lambdas>) -> Vec<ScoreResult>,
    S: Fn(u64, u64) -> u64,
>(
    at: GridSearch,
    step: Step,
    time_grid: Seq<u64>,
    unit_grid: Seq<u64>,
    nn_grid: Seq<u64>,
    context: &C,
    evaluate: E,
    subtract: S,
) -> bool {
    let sweep = sweep_of(at)->0;
    let grid = grid_of(sweep.axis, time_grid, unit_grid, nn_grid);
    &&& sweep_of(at) is Some
    &&& step.points@ == sweep_points_of(sweep, grid)
    &&& call_ensures(evaluate, (context, at.stage, sweep, step.points), step.results)
    &&& selects(
        step.best,
        sweep_start_of(sweep, grid),
        evaluations(grid, step.points@, step.results@),
        subtract,
    )
    &&& call_ensures(subtract, (step.best.candidate.score, at.prev_score), step.change)
    &&& grid.len() > 0 ==> grid.contains(step.best.value)
}

/// `r` is `start` after the sweeps that it asks for, one after the other.
pub open spec fn completed<
    C,
    E: Fn(&C, Stage, Sweep, Vec<Lambdas>) -> Vec<ScoreResult>,
    S: Fn(u64, u64) -> u64,
>(
    start: GridSearch,
    r: GridSearch,
    time_grid: Seq<u64>,
    unit_grid: Seq<u64>,
    nn_grid: Seq<u64>,
    context: &C,
    evaluate: E,
    subtract: S,
) -> bool {
    exists|steps: Seq<Step>|
        {
            &&& r == #[trigger] after(start, steps)
            &&& forall|k: int|
                0 <= k < steps.len() ==> carries_out(
                    after(start, steps.take(k)),
                    #[trigger] steps[k],
                    time_grid,
                    unit_grid,
                    nn_grid,
                    context,
                    evaluate,
                    subtract,
                )
        }
}

/// Carries a search out to its end: `evaluate` gets the context and a sweep and
/// gives the criterion at each of its points, `subtract` is the subtraction of
/// floating-point numbers.
pub fn search_grids<
    C,
    E: Fn(&C, Stage, Sweep, Vec<Lambdas>) -> Vec<ScoreResult>,
    S: Fn(u64, u64) -> u64,
>(
    start: GridSearch,
    time_grid: &Vec<u64>,
    unit_grid: &Vec<u64>,
    nn_grid: &Vec<u64>,
    context: &C,
    evaluate: &E,
    subtract: &S,
) -> (r: GridSearch)
    requires
        start.wf(),
        forall|stage: Stage, sweep: Sweep, points: Vec<Lambdas>| #[trigger]
            call_requires(*evaluate, (context, stage, sweep, points)),
        forall|stage: Stage, sweep: Sweep, points: Vec<Lambdas>, out: Vec<ScoreResult>| #[trigger]
            call_ensures(*evaluate, (context, stage, sweep, points), out) ==> out@.len() == points@.len(),
        forall|a: u64, b: u64| #[trigger] call_requires(*subtract, (a, b)),
    ensures
        r.stage == Stage::Done,
        completed(start, r, time_grid@, unit_grid@, nn_grid@, context, *evaluate, *subtract),
{
    let mut search: GridSearch = start;
    let ghost mut steps: Seq<Step> = Seq::empty();
    loop
        invariant
            search.wf(),
            forall|stage: Stage, sweep: Sweep, points: Vec<Lambdas>| #[trigger]
                call_requires(*evaluate, (context, stage, sweep, points)),
            forall|stage: Stage, sweep: Sweep, points: Vec<Lambdas>, out: Vec<ScoreResult>|
                #[trigger]
                call_ensures(*evaluate, (context, stage, sweep, points), out) ==> out@.len()
                    == points@.len(),
            forall|a: u64, b: u64| #[trigger] call_requires(*subtract, (a, b)),
            search == after(start, steps),
            forall|k: int|
                0 <= k < steps.len() ==> carries_out(
                    after(start, steps.take(k)),
                    #[trigger] steps[k],
                    time_grid@,
                    unit_grid@,
                    nn_grid@,
                    context,
                    *evaluate,
                    *subtract,
                ),
        ensures
            search.stage == Stage::Done,
        decreases sweeps_left(search),
    {
        let sweep: Sweep = match search.next() {
            Some(sweep) => sweep,
            None => {
                break;
            },
        };
        let grid: &Vec<u64> = match sweep.axis {
            Axis::Time => time_grid,
            Axis::Unit => unit_grid,
            Axis::Nn => nn_grid,
        };
        let points: Vec<Lambdas> = sweep_points(&sweep, grid);
        let results: Vec<ScoreResult> = (*evaluate)(context, search.stage, sweep, points);
        let best: Evaluation = select_point(&sweep, grid, &results, subtract);
        let change: u64 = (*subtract)(best.candidate.score, search.prev_score);
        let ghost before = steps;
        proof {
            let step = Step { points, results, best, change };
            assert(points@ == sweep_points_of(sweep, grid@));
            assert(carries_out(
                search,
                step,
                time_grid@,
                unit_grid@,
                nn_grid@,
                context,
                *evaluate,
                *subtract,
            ));
            steps = steps.push(step);
            assert(steps.drop_last() =~= before);
            assert forall|k: int| 0 <= k < steps.len() implies carries_out(
                after(start, steps.take(k)),
                #[trigger] steps[k],
                time_grid@,
                unit_grid@,
                nn_grid@,
                context,
                *evaluate,
                *subtract,
            ) by {
                if k < before.len() {
                    assert(steps.take(k) =~= before.take(k));
                    assert(steps[k] == before[k]);
                } else {
                    assert(steps.take(k) =~= before);
                }
            }
            law_search_ends(search, best.value, best.candidate.score, change);
        }
        search.record(best.value, best.candidate.score, change);
    }
    search
}

/// Parameters that a search has swept are values of their grids.
pub open spec fn swept(
    s: GridSearch,
    time_grid: Seq<u64>,
    unit_grid: Seq<u64>,
    nn_grid: Seq<u64>,
) -> bool {
    let time = time_grid.contains(s.lambdas.time) && time_grid.contains(s.initial.time);
    let nn = nn_grid.contains(s.lambdas.nn) && nn_grid.contains(s.initial.nn);
    let unit = unit_grid.contains(s.lambdas.unit) && unit_grid.contains(s.initial.unit);
    match s.stage {
        Stage::InitTime => true,
        Stage::InitNn => time,
        Stage::InitUnit => time && nn,
        _ => time && nn && unit,
    }
}

/// The sweep that `at` asks for may select `value`.
pub open spec fn selectable(
    at: GridSearch,
    value: u64,
    time_grid: Seq<u64>,
    unit_grid: Seq<u64>,
    nn_grid: Seq<u64>,
) -> bool {
    sweep_of(at) is Some && grid_of(
        sweep_of(at)->0.axis,
        time_grid,
        unit_grid,
        nn_grid,
    ).contains(value)
}

proof fn lemma_swept(
    s: GridSearch,
    value: u64,
    score: u64,
    change: u64,
    time_grid: Seq<u64>,
    unit_grid: Seq<u64>,
    nn_grid: Seq<u64>,
)
    requires
        swept(s, time_grid, unit_grid, nn_grid),
        selectable(s, value, time_grid, unit_grid, nn_grid),
    ensures
        swept(advanced(s, value, score, change), time_grid, unit_grid, nn_grid),
{
}

/// A search from scratch selects a combination of the grids: whatever the
/// criterion, the parameters of a finished search are values of their grids, and
/// so are the starting values of its second stage.
pub proof fn law_selection_is_a_combination(
    max_cycles: usize,
    steps: Seq<Step>,
    time_grid: Seq<u64>,
    unit_grid: Seq<u64>,
    nn_grid: Seq<u64>,
)
    requires
        forall|k: int|
            0 <= k < steps.len() ==> selectable(
                after(scratch(max_cycles), steps.take(k)),
                (#[trigger] steps[k]).best.value,
                time_grid,
                unit_grid,
                nn_grid,
            ),
    ensures
        swept(after(scratch(max_cycles), steps), time_grid, unit_grid, nn_grid),
    decreases steps.len(),
{
    if steps.len() > 0 {
        let init = steps.drop_last();
        let last = steps[steps.len() - 1];
        assert forall|k: int| 0 <= k < init.len() implies selectable(
            after(scratch(max_cycles), init.take(k)),
            (#[trigger] init[k]).best.value,
            time_grid,
            unit_grid,
            nn_grid,
        ) by {
            assert(init.take(k) =~= steps.take(k));
            assert(init[k] == steps[k]);
        }
        law_selection_is_a_combination(max_cycles, init, time_grid, unit_grid, nn_grid);
        assert(steps.take(steps.len() - 1) =~= init);
        lemma_swept(
            after(scratch(max_cycles), init),
            last.best.value,
            last.best.candidate.score,
            last.change,
            time_grid,
            unit_grid,
            nn_grid,
        );
    }
}

/// Scores of parameters that were evaluated completely.
#[derive(Debug)]
pub struct ScoreCache {
    pub entries: Vec<(Lambdas, ScoreResult)>,
}

impl View for ScoreCache {
    type V = Map<Lambdas, ScoreResult>;

    open spec fn view(&self) -> Map<Lambdas, ScoreResult> {
        entries_map(self.entries@)
    }
}

/// Map that a list of entries stands for; a later entry hides an earlier one.
pub open spec fn entries_map(entries: Seq<(Lambdas, ScoreResult)>) -> Map<Lambdas, ScoreResult>
    decreases entries.len(),
{
    if entries.len() == 0 {
        Map::empty()
    } else {
        entries_map(entries.drop_last()).insert(entries.last().0, entries.last().1)
    }
}

impl ScoreCache {
    pub fn new() -> (r: ScoreCache)
        ensures
            r@ == Map::<Lambdas, ScoreResult>::empty(),
    {
        ScoreCache { entries: Vec::new() }
    }

    /// Result recorded for `key`.
    pub fn get(&self, key: Lambdas) -> (r: Option<ScoreResult>)
        ensures
            r == if self@.dom().contains(key) {
                Some(self@[key])
            } else {
                None
            },
    {
        let mut k: usize = self.entries.len();
        assert(self.entries@.take(k as int) =~= self.entries@);
        while k > 0
            invariant
                k <= self.entries@.len(),
                self@.dom().contains(key) <==> entries_map(
                    self.entries@.take(k as int),
                ).dom().contains(key),
                self@.dom().contains(key) ==> self@[key] == entries_map(
                    self.entries@.take(k as int),
                )[key],
            decreases k,
        {
            proof {
                let taken = self.entries@.take(k as int);
                assert(taken.drop_last() =~= self.entries@.take(k - 1));
                assert(taken.last() == self.entries@[k - 1]);
            }
            if self.entries[k - 1].0 == key {
                return Some(self.entries[k - 1].1);
            }
            k = k - 1;
        }
        None
    }

    /// Records the result for `key`.
    pub fn insert(&mut self, key: Lambdas, result: ScoreResult)
        ensures
            final(self)@ == old(self)@.insert(key, result),
    {
        self.entries.push((key, result));
        proof {
            assert(self.entries@.drop_last() =~= old(self).entries@);
        }
    }
}

/// A candidate replaces the incumbent where only its own score is finite, and
/// where its score is lower by more than `1e-10`; it does not where its score is
/// not finite or is higher by more.  In between the larger penalty wins, under
/// equal penalties the smaller time bandwidth, under equal time bandwidths the
/// smaller unit bandwidth, and an equal candidate does not.
pub proof fn law_preference(new: Candidate, best: Candidate, diff: u64, r: bool)
    requires
        call_ensures(better_candidate, (new, best, diff), r),
    ensures
        !bits::finite(new.score) ==> !r,
        bits::finite(new.score) && !bits::finite(best.score) ==> r,
        bits::finite(new.score) && bits::finite(best.score) ==> {
            let (a, b) = (new.lambdas, best.lambdas);
            let tied = !bits::lt(diff, 0xBDDB_7CDF_D9D7_BDBB) && !bits::lt(
                0x3DDB_7CDF_D9D7_BDBB,
                diff,
            );
            &&& bits::lt(diff, 0xBDDB_7CDF_D9D7_BDBB) ==> r
            &&& bits::lt(0x3DDB_7CDF_D9D7_BDBB, diff) ==> !r
            &&& tied && bits::lt(b.nn, a.nn) ==> r
            &&& tied && bits::lt(a.nn, b.nn) ==> !r
            &&& tied && a.nn == b.nn && bits::lt(a.time, b.time) ==> r
            &&& tied && a.nn == b.nn && bits::lt(b.time, a.time) ==> !r
            &&& tied && a.nn == b.nn && a.time == b.time && bits::lt(a.unit, b.unit) ==> r
            &&& tied && a.nn == b.nn && a.time == b.time && bits::lt(b.unit, a.unit) ==> !r
            &&& tied && a == b ==> !r
        },
{
}

/// Evaluations are offered one after the other, all of them: the last one replaces
/// what the others left exactly where it is preferred to it.
pub proof fn law_every_evaluation_is_offered<S: Fn(u64, u64) -> u64>(
    start: Evaluation,
    evals: &Vec<Evaluation>,
    subtract: &S,
    r: Evaluation,
)
    requires
        call_ensures(select::<S>, (start, evals, subtract), r),
    ensures
        evals@.len() == 0 ==> r == start,
        evals@.len() > 0 ==> exists|prev: Evaluation, diff: u64|
            {
                &&& selects(prev, start, evals@.drop_last(), *subtract)
                &&& #[trigger] call_ensures(
                    *subtract,
                    (evals@.last().candidate.score, prev.candidate.score),
                    diff,
                )
                &&& preferred(evals@.last().candidate, prev.candidate, diff) ==> r
                    == evals@.last()
                &&& !preferred(evals@.last().candidate, prev.candidate, diff) ==> r == prev
            },
{
    let diffs = choose|diffs: Seq<u64>| #[trigger]
        differences(*subtract, start, evals@, diffs) && r == reduced(start, evals@, diffs);
    if evals@.len() > 0 {
        let n = evals@.len() - 1;
        let (e, d) = (evals@.drop_last(), diffs.drop_last());
        let prev = reduced(start, e, d);
        assert(evals@.take(n) =~= e);
        assert(diffs.take(n) =~= d);
        assert(call_ensures(
            *subtract,
            (evals@[n].candidate.score, prev.candidate.score),
            diffs[n],
        ));
        assert(differences(*subtract, start, e, d)) by {
            assert forall|k: int| 0 <= k < e.len() implies call_ensures(
                *subtract,
                (e[k].candidate.score, reduced(start, e.take(k), d.take(k)).candidate.score),
                #[trigger] d[k],
            ) by {
                assert(e.take(k) =~= evals@.take(k));
                assert(d.take(k) =~= diffs.take(k));
                assert(d[k] == diffs[k]);
            }
        }
        assert(selects(prev, start, e, *subtract));
    }
}

/// Placing a value changes the parameter on its axis and no other.
pub proof fn law_placing(l: Lambdas, axis: Axis, value: u64, r: Lambdas)
    requires
        call_ensures(place, (l, axis, value), r),
    ensures
        axis == Axis::Time ==> r.time == value && r.unit == l.unit && r.nn == l.nn,
        axis == Axis::Unit ==> r.time == l.time && r.unit == value && r.nn == l.nn,
        axis == Axis::Nn ==> r.time == l.time && r.unit == l.unit && r.nn == value,
{
}

/// A sweep has a point for every value of its grid, in order: the value on its
/// axis, and on the others the effective values of the parameters held fixed.
pub proof fn law_sweep_has_every_value(
    sweep: &Sweep,
    grid: &Vec<u64>,
    r: Vec<Lambdas>,
    fixed: Lambdas,
    k: int,
)
    requires
        call_ensures(sweep_points, (sweep, grid), r),
        call_ensures(effective, (sweep.fixed,), fixed),
        0 <= k < grid@.len(),
    ensures
        r@.len() == grid@.len(),
        r@[k].time == if sweep.axis == Axis::Time {
            grid@[k]
        } else {
            fixed.time
        },
        r@[k].unit == if sweep.axis == Axis::Unit {
            grid@[k]
        } else {
            fixed.unit
        },
        r@[k].nn == if sweep.axis == Axis::Nn {
            grid@[k]
        } else {
            fixed.nn
        },
        sweep_points_of(*sweep, grid@) == r@,
{
}

/// A sweep starts from the first value of its grid with an infinite criterion, so
/// that any finite one replaces it.
pub proof fn law_sweep_starts_infinite(sweep: &Sweep, grid: &Vec<u64>, r: Evaluation)
    requires
        call_ensures(sweep_start, (sweep, grid), r),
    ensures
        r.candidate.score == bits::INFINITY,
        grid@.len() > 0 ==> r.value == grid@[0],
        r.n_valid == 0,
        r.first_failed is None,
{
}

/// What a sweep selects is the incumbent that it starts from or the point of one
/// of its values, with the result that belongs to that value; a finite result is
/// never passed over for an infinite one.
pub proof fn law_sweep_selects_a_point<S: Fn(u64, u64) -> u64>(
    sweep: &Sweep,
    grid: &Vec<u64>,
    results: &Vec<ScoreResult>,
    subtract: &S,
    r: Evaluation,
)
    requires
        call_ensures(select_point::<S>, (sweep, grid, results, subtract), r),
        results@.len() == grid@.len(),
    ensures
        bits::finite(r.candidate.score) ==> exists|k: int|
            {
                &&& 0 <= k < grid@.len()
                &&& r.value == #[trigger] grid@[k]
                &&& r.candidate.score == results@[k].score
                &&& r.n_valid == results@[k].n_valid
                &&& r.first_failed == results@[k].first_failed
                &&& sweep.axis == Axis::Time ==> r.candidate.lambdas.time == grid@[k]
                &&& sweep.axis == Axis::Unit ==> r.candidate.lambdas.unit == grid@[k]
                &&& sweep.axis == Axis::Nn ==> r.candidate.lambdas.nn == grid@[k]
            },
        !bits::finite(r.candidate.score) ==> forall|k: int|
            0 <= k < grid@.len() ==> !bits::finite((#[trigger] results@[k]).score),
{
    let start = sweep_start_of(*sweep, grid@);
    let evals = evaluations(grid@, sweep_points_of(*sweep, grid@), results@);
    let diffs = choose|diffs: Seq<u64>| #[trigger]
        differences(*subtract, start, evals, diffs) && r == reduced(start, evals, diffs);
    law_reduction_selects(start, evals, diffs);
    assert(!bits::finite(bits::INFINITY));
    if bits::finite(r.candidate.score) {
        assert(evals.contains(r));
        let k = choose|k: int| 0 <= k < evals.len() && evals[k] == r;
        assert(r.value == grid@[k]);
    } else {
        assert forall|k: int| 0 <= k < grid@.len() implies !bits::finite(
            (#[trigger] results@[k]).score,
        ) by {
            assert(evals[k].candidate.score == results@[k].score);
        }
    }
}

/// Every combination of the three grids is listed: the time bandwidth varies
/// slowest, the penalty fastest, and there are as many as the product of their
/// lengths.
pub proof fn law_every_combination_is_listed(
    time_grid: &Vec<u64>,
    unit_grid: &Vec<u64>,
    nn_grid: &Vec<u64>,
    r: Vec<Lambdas>,
    a: int,
    b: int,
    c: int,
)
    requires
        call_ensures(grid_combinations, (time_grid, unit_grid, nn_grid), r),
        0 <= a < time_grid@.len(),
        0 <= b < unit_grid@.len(),
        0 <= c < nn_grid@.len(),
    ensures
        r@.len() == (time_grid@.len() * unit_grid@.len()) * nn_grid@.len(),
        0 <= (a * unit_grid@.len() + b) * nn_grid@.len() + c < r@.len(),
        r@[(a * unit_grid@.len() + b) * nn_grid@.len() + c].time == time_grid@[a],
        r@[(a * unit_grid@.len() + b) * nn_grid@.len() + c].unit == unit_grid@[b],
        r@[(a * unit_grid@.len() + b) * nn_grid@.len() + c].nn == nn_grid@[c],
{
    let (m, n) = (unit_grid@.len() as int, nn_grid@.len() as int);
    let k = combination_index(m, n, a, b, c);
    lemma_combination_index(m, n, a, b, c, time_grid@.len() as int, 0);
}

/// A search of all combinations evaluates the effective parameters of every
/// combination; a finite outcome is one of the combinations, with the criterion
/// that came back for it, and an infinite one means that every criterion was.
pub proof fn law_every_combination_is_evaluated<
    C,
    E: Fn(&C, Vec<Lambdas>) -> Vec<ScoreResult>,
    S: Fn(u64, u64) -> u64,
>(
    time_grid: &Vec<u64>,
    unit_grid: &Vec<u64>,
    nn_grid: &Vec<u64>,
    context: &C,
    evaluate: &E,
    subtract: &S,
    r: Evaluation,
)
    requires
        call_ensures(
            search_combinations::<C, E, S>,
            (time_grid, unit_grid, nn_grid, context, evaluate, subtract),
            r,
        ),
        forall|points: Vec<Lambdas>, out: Vec<ScoreResult>| #[trigger]
            call_ensures(*evaluate, (context, points), out) ==> out@.len() == points@.len(),
    ensures
        exists|given: Vec<Lambdas>, results: Vec<ScoreResult>|
            {
                &&& #[trigger] call_ensures(*evaluate, (context, given), results)
                &&& given@.len() == (time_grid@.len() * unit_grid@.len()) * nn_grid@.len()
                &&& forall|a: int, b: int, c: int|
                    #![trigger time_grid@[a], unit_grid@[b], nn_grid@[c]]
                    0 <= a < time_grid@.len() && 0 <= b < unit_grid@.len() && 0 <= c
                        < nn_grid@.len() ==> given@[(a * unit_grid@.len() + b) * nn_grid@.len() + c]
                        == effective_of(
                        Lambdas { time: time_grid@[a], unit: unit_grid@[b], nn: nn_grid@[c] },
                    )
                &&& bits::finite(r.candidate.score) ==> exists|k: int|
                    0 <= k < results@.len() && r.candidate.score == (#[trigger] results@[k]).score
                        && effective_of(r.candidate.lambdas) == given@[k] && r.n_valid
                        == results@[k].n_valid
                &&& !bits::finite(r.candidate.score) ==> forall|k: int|
                    0 <= k < results@.len() ==> !bits::finite((#[trigger] results@[k]).score)
            },
{
    let (given, results) = choose|given: Vec<Lambdas>, results: Vec<ScoreResult>| #[trigger]
        call_ensures(*evaluate, (context, given), results) && exhaustive_selects(
            r,
            time_grid@,
            unit_grid@,
            nn_grid@,
            given@,
            results@,
            *subtract,
        );
    let points = choose|points: Seq<Lambdas>| #[trigger]
        lists_combinations(points, time_grid@, unit_grid@, nn_grid@) && given@ == effective_points(
            points,
        ) && selects(
            r,
            exhaustive_start_of(time_grid@, unit_grid@, nn_grid@),
            evaluations(no_values(points.len()), points, results@),
            *subtract,
        );
    let start = exhaustive_start_of(time_grid@, unit_grid@, nn_grid@);
    let evals = evaluations(no_values(points.len()), points, results@);
    let diffs = choose|diffs: Seq<u64>| #[trigger]
        differences(*subtract, start, evals, diffs) && r == reduced(start, evals, diffs);
    law_reduction_selects(start, evals, diffs);
    assert(!bits::finite(bits::INFINITY));
    assert forall|a: int, b: int, c: int|
        #![trigger time_grid@[a], unit_grid@[b], nn_grid@[c]]
        0 <= a < time_grid@.len() && 0 <= b < unit_grid@.len() && 0 <= c
            < nn_grid@.len() implies given@[(a * unit_grid@.len() + b) * nn_grid@.len() + c]
        == effective_of(
        Lambdas { time: time_grid@[a], unit: unit_grid@[b], nn: nn_grid@[c] },
    ) by {
        let (m, n) = (unit_grid@.len() as int, nn_grid@.len() as int);
        lemma_combination_index(m, n, a, b, c, time_grid@.len() as int, 0);
        assert(points[combination_index(m, n, a, b, c)] == (Lambdas {
            time: time_grid@[a],
            unit: unit_grid@[b],
            nn: nn_grid@[c],
        }));
    }
    if bits::finite(r.candidate.score) {
        assert(evals.contains(r));
        let k = choose|k: int| 0 <= k < evals.len() && evals[k] == r;
        assert(r.candidate.score == results@[k].score);
    } else {
        assert forall|k: int| 0 <= k < results@.len() implies !bits::finite(
            (#[trigger] results@[k]).score,
        ) by {
            assert(evals[k].candidate.score == results@[k].score);
        }
    }
}

/// The sweeps of a search: for starting values, the time bandwidth and the unit
/// bandwidth with uniform weights and no low-rank component, and the penalty with
/// uniform weights; then, in each cycle, one parameter with the others as selected
/// so far.
pub proof fn law_sweeps_asked_for(s: &GridSearch, r: Option<Sweep>)
    requires
        call_ensures(GridSearch::next, (s,), r),
    ensures
        r is None <==> s.stage == Stage::Done,
        r matches Some(sweep) ==> {
            let (axis, fixed) = (sweep.axis, sweep.fixed);
            let first = s.stage == Stage::InitTime || s.stage == Stage::InitNn || s.stage
                == Stage::InitUnit;
            &&& axis == Axis::Time <==> s.stage == Stage::InitTime || s.stage == Stage::CycleTime
            &&& axis == Axis::Unit <==> s.stage == Stage::InitUnit || s.stage == Stage::CycleUnit
            &&& axis == Axis::Nn <==> s.stage == Stage::InitNn || s.stage == Stage::CycleNn
            &&& first ==> sweep.hint == bits::INFINITY && fixed.time == 0 && fixed.unit == 0
            &&& first && axis != Axis::Nn ==> fixed.nn == bits::INFINITY
            &&& first && axis == Axis::Nn ==> fixed.nn == 0
            &&& !first ==> sweep.hint == s.prev_score
            &&& !first && axis != Axis::Time ==> fixed.time == s.lambdas.time
            &&& !first && axis != Axis::Unit ==> fixed.unit == s.lambdas.unit
            &&& !first && axis != Axis::Nn ==> fixed.nn == s.lambdas.nn
        },
{
}

/// A sweep sets its own parameter and leaves the others.  The starting values come
/// from time bandwidth, penalty and unit bandwidth in turn; a cycle goes through
/// unit bandwidth, time bandwidth and penalty, and is the last exactly where the
/// criterion changed by less than `1e-6` or no cycle is left.
pub proof fn law_sweeps_follow(s: GridSearch, value: u64, score: u64, change: u64)
    requires
        s.wf(),
        s.stage != Stage::Done,
    ensures
        ({
            let next = advanced(s, value, score, change);
            let settled = !bits::nan(change) && bits::magnitude(change) < 0x3EB0_C6F7_A0B5_ED8D;
            let on_time = s.stage == Stage::InitTime || s.stage == Stage::CycleTime;
            let on_unit = s.stage == Stage::InitUnit || s.stage == Stage::CycleUnit;
            let on_nn = s.stage == Stage::InitNn || s.stage == Stage::CycleNn;
            &&& on_time ==> next.lambdas == (Lambdas { time: value, ..s.lambdas })
            &&& on_unit ==> next.lambdas == (Lambdas { unit: value, ..s.lambdas })
            &&& on_nn ==> next.lambdas == (Lambdas { nn: value, ..s.lambdas })
            &&& s.stage == Stage::InitTime ==> next.stage == Stage::InitNn && next.initial.time
                == value
            &&& s.stage == Stage::InitNn ==> next.stage == Stage::InitUnit && next.initial.nn
                == value
            &&& s.stage == Stage::InitUnit ==> next.initial.unit == value
            &&& s.stage == Stage::InitUnit && s.cycles_left > 0 ==> next.stage == Stage::CycleUnit
            &&& s.stage == Stage::InitUnit && s.cycles_left == 0 ==> next.stage == Stage::Done
            &&& s.stage == Stage::CycleUnit ==> next.stage == Stage::CycleTime
            &&& s.stage == Stage::CycleTime ==> next.stage == Stage::CycleNn
            &&& s.stage == Stage::CycleNn ==> {
                &&& next.stage == Stage::Done <==> settled || s.cycles_left == 1
                &&& next.stage == Stage::Done || next.stage == Stage::CycleUnit
                &&& !settled ==> next.prev_score == score && next.cycles_left + 1 == s.cycles_left
            }
            &&& s.stage != Stage::CycleNn ==> next.prev_score == s.prev_score && next.cycles_left
                == s.cycles_left
        }),
{
}

/// A search from scratch begins with the starting values, a descent with its first
/// cycle, and either has as many cycles as it is given.
pub proof fn law_searches_begin(
    max_cycles: usize,
    initial: Lambdas,
    r: GridSearch,
    s: GridSearch,
)
    requires
        call_ensures(GridSearch::new, (max_cycles,), r),
        call_ensures(GridSearch::from_initial, (initial, max_cycles), s),
    ensures
        r.stage == Stage::InitTime,
        r.cycles_left == max_cycles,
        r.prev_score == bits::INFINITY,
        s.stage == Stage::Done <==> max_cycles == 0,
        s.stage == Stage::CycleUnit <==> max_cycles > 0,
        s.cycles_left == max_cycles,
        s.lambdas == initial,
        s.prev_score == bits::INFINITY,
{
}

/// A search goes on for as long as it asks for sweeps: carrying out more of them
/// goes on from where fewer left it.
pub proof fn law_search_takes_in_every_sweep(s: GridSearch, steps: Seq<Step>, step: Step)
    ensures
        after(s, Seq::<Step>::empty()) == s,
        after(s, steps.push(step)) == advanced(
            after(s, steps),
            step.best.value,
            step.best.candidate.score,
            step.change,
        ),
{
    assert(steps.push(step).drop_last() =~= steps);
}

/// A kept score is found exactly under the parameters that it was recorded for,
/// and the latest of several is.
pub proof fn law_kept_scores_are_found(
    cache: &ScoreCache,
    key: Lambdas,
    r: Option<ScoreResult>,
    k: int,
)
    requires
        call_ensures(ScoreCache::get, (cache, key), r),
        0 <= k < cache.entries@.len(),
        forall|j: int| k < j < cache.entries@.len() ==> (#[trigger] cache.entries@[j]).0 != key,
    ensures
        cache.entries@[k].0 == key ==> r == Some(cache.entries@[k].1),
        k == 0 && cache.entries@[k].0 != key ==> r is None,
{
    lemma_latest_entry(cache.entries@, key, k);
}

proof fn lemma_latest_entry(entries: Seq<(Lambdas, ScoreResult)>, key: Lambdas, k: int)
    requires
        -1 <= k < entries.len(),
        forall|j: int| k < j < entries.len() ==> (#[trigger] entries[j]).0 != key,
    ensures
        k >= 0 && entries[k].0 == key ==> entries_map(entries).dom().contains(key)
            && entries_map(entries)[key] == entries[k].1,
        k <= 0 && (k == 0 ==> entries[0].0 != key) ==> !entries_map(entries).dom().contains(key),
    decreases entries.len(),
{
    if entries.len() > 0 {
        let rest = entries.drop_last();
        if k < rest.len() {
            assert forall|j: int| k < j < rest.len() implies (#[trigger] rest[j]).0 != key by {
                assert(rest[j] == entries[j]);
            }
            lemma_latest_entry(rest, key, k);
            assert(entries[entries.len() - 1].0 != key);
            if k >= 0 {
                assert(rest[k] == entries[k]);
            }
        } else if k == 0 {
            assert(rest.len() == 0);
            assert(entries_map(rest) == Map::<Lambdas, ScoreResult>::empty());
            assert(entries.last() == entries[0]);
        }
    }
}

/// An evaluation carries the value, the parameters and the result that it is made of.
pub proof fn law_evaluated(value: u64, lambdas: Lambdas, result: &ScoreResult, r: Evaluation)
    requires
        call_ensures(evaluated, (value, lambdas, result), r),
    ensures
        r.value == value,
        r.candidate.lambdas == lambdas,
        r.candidate.score == result.score,
        r.n_valid == result.n_valid,
        r.first_failed == result.first_failed,
{
}

/// The parameters are numbered: time bandwidth, unit bandwidth, penalty.
pub proof fn law_axis_of_a_number(index: usize, r: Axis)
    requires
        call_ensures(Axis::from_index, (index,), r),
    ensures
        r == Axis::Time <==> index == 0,
        r == Axis::Unit <==> index == 1,
        r == Axis::Nn <==> index >= 2,
{
}

/// A search of all combinations starts from the first values of the grids with an
/// infinite criterion.
pub proof fn law_exhaustive_search_starts_infinite(
    time_grid: &Vec<u64>,
    unit_grid: &Vec<u64>,
    nn_grid: &Vec<u64>,
    r: Evaluation,
)
    requires
        call_ensures(exhaustive_start, (time_grid, unit_grid, nn_grid), r),
    ensures
        r.candidate.score == bits::INFINITY,
        time_grid@.len() > 0 ==> r.candidate.lambdas.time == time_grid@[0],
        unit_grid@.len() > 0 ==> r.candidate.lambdas.unit == unit_grid@[0],
        nn_grid@.len() > 0 ==> r.candidate.lambdas.nn == nn_grid@[0],
        r.n_valid == 0,
{
}

/// Tied candidates are told apart by the total order of encodings: by the larger
/// penalty, then by the smaller time bandwidth, then by the smaller unit bandwidth.
pub proof fn law_ties_are_broken(
    new: Candidate,
    best: Candidate,
    diff: u64,
    r: bool,
    by_penalty: bool,
    by_time: bool,
    by_unit: bool,
)
    requires
        call_ensures(better_candidate, (new, best, diff), r),
        call_ensures(bits::total_less, (best.lambdas.nn, new.lambdas.nn), by_penalty),
        call_ensures(bits::total_less, (new.lambdas.time, best.lambdas.time), by_time),
        call_ensures(bits::total_less, (new.lambdas.unit, best.lambdas.unit), by_unit),
        bits::finite(new.score),
        bits::finite(best.score),
        !bits::lt(diff, 0xBDDB_7CDF_D9D7_BDBB),
        !bits::lt(0x3DDB_7CDF_D9D7_BDBB, diff),
    ensures
        new.lambdas.nn != best.lambdas.nn ==> r == by_penalty,
        new.lambdas.nn == best.lambdas.nn && new.lambdas.time != best.lambdas.time ==> r
            == by_time,
        new.lambdas.nn == best.lambdas.nn && new.lambdas.time == best.lambdas.time ==> r
            == by_unit,
{
    bits::law_total_order(new.lambdas.nn, best.lambdas.nn);
    bits::law_total_order(new.lambdas.time, best.lambdas.time);
}

/// A sweep that a search asks for evaluates every value of its own grid and selects
/// among them.
pub proof fn law_sweeps_are_carried_out<
    C,
    E: Fn(&C, Stage, Sweep, Vec<Lambdas>) -> Vec<ScoreResult>,
    S: Fn(u64, u64) -> u64,
>(
    at: GridSearch,
    step: Step,
    time_grid: Seq<u64>,
    unit_grid: Seq<u64>,
    nn_grid: Seq<u64>,
    context: &C,
    evaluate: E,
    subtract: S,
)
    requires
        carries_out(at, step, time_grid, unit_grid, nn_grid, context, evaluate, subtract),
    ensures
        at.stage != Stage::Done,
        sweep_of(at) matches Some(sweep) && {
            let grid = match sweep.axis {
                Axis::Time => time_grid,
                Axis::Unit => unit_grid,
                Axis::Nn => nn_grid,
            };
            &&& step.points@ == sweep_points_of(sweep, grid)
            &&& call_ensures(evaluate, (context, at.stage, sweep, step.points), step.results)
            &&& selects(
                step.best,
                sweep_start_of(sweep, grid),
                evaluations(grid, step.points@, step.results@),
                subtract,
            )
            &&& grid.len() > 0 ==> grid.contains(step.best.value)
        },
        call_ensures(subtract, (step.best.candidate.score, at.prev_score), step.change),
{
}

/// Every point of a sweep is evaluated with its own value, parameters and result.
pub proof fn law_evaluations(
    values: Seq<u64>,
    points: Seq<Lambdas>,
    results: Seq<ScoreResult>,
    k: int,
)
    requires
        0 <= k < points.len(),
    ensures
        evaluations(values, points, results).len() == points.len(),
        evaluations(values, points, results)[k].value == values[k],
        evaluations(values, points, results)[k].candidate.lambdas == points[k],
        evaluations(values, points, results)[k].candidate.score == results[k].score,
        evaluations(values, points, results)[k].n_valid == results[k].n_valid,
        evaluations(values, points, results)[k].first_failed == results[k].first_failed,
{
}

/// A search carries out every sweep that it asks for, one after the other.
pub proof fn law_search_is_carried_out<
    C,
    E: Fn(&C, Stage, Sweep, Vec<Lambdas>) -> Vec<ScoreResult>,
    S: Fn(u64, u64) -> u64,
>(
    start: GridSearch,
    r: GridSearch,
    time_grid: Seq<u64>,
    unit_grid: Seq<u64>,
    nn_grid: Seq<u64>,
    context: &C,
    evaluate: E,
    subtract: S,
)
    requires
        completed(start, r, time_grid, unit_grid, nn_grid, context, evaluate, subtract),
    ensures
        exists|steps: Seq<Step>|
            {
                &&& r == #[trigger] after(start, steps)
                &&& forall|k: int|
                    0 <= k < steps.len() ==> carries_out(
                        after(start, steps.take(k)),
                        #[trigger] steps[k],
                        time_grid,
                        unit_grid,
                        nn_grid,
                        context,
                        evaluate,
                        subtract,
                    )
            },
        start.stage == Stage::Done ==> r == start,
{
    let steps = choose|steps: Seq<Step>|
        {
            &&& r == #[trigger] after(start, steps)
            &&& forall|k: int|
                0 <= k < steps.len() ==> carries_out(
                    after(start, steps.take(k)),
                    #[trigger] steps[k],
                    time_grid,
                    unit_grid,
                    nn_grid,
                    context,
                    evaluate,
                    subtract,
                )
        };
    if start.stage == Stage::Done && steps.len() > 0 {
        let first = after(start, steps.take(0));
        let step = steps[0];
        assert(first == start);
        assert(carries_out(
            first,
            step,
            time_grid,
            unit_grid,
            nn_grid,
            context,
            evaluate,
            subtract,
        ));
        law_sweeps_are_carried_out(
            first,
            step,
            time_grid,
            unit_grid,
            nn_grid,
            context,
            evaluate,
            subtract,
        );
    }
}

} // verus!

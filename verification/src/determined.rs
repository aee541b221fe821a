//! Fits of the twostep method are determined by their data.
//!
//! Where every supplied function gives one result for the same arguments, the
//! same panel and parameters lead to the same model, cell by cell.
use crate::alternating::{
    column_of, covariate_count, leaves, row_of, same_model, starts_from, sums_to, takes_away, twostep_at,
    twostep_state_at, CovariateFit, Dot, Totals, TwostepModel, TwostepProximal, TwostepState,
    TwostepStep, WeightedMean,
};
use crate::arithmetic::{Binary, CellEffect, PairSummary, Summary, TimeDecay};
use crate::bits;
use crate::distance::{sanitized, separates, Separation, UnitDistanceCache};
use crate::estimation::{fitted_cell, Changes, Iterations};
use crate::fit::{FitEvent, FitSettings, TwostepFit, TwostepPhase};
use crate::joint::{same_table, Momentum};
use crate::kernels::{
    distance_of, gives_distance, gives_kernel, is_product, paired, weighs_cell, weighs_cells,
    weighs_unit,
};
use crate::matrix::{lists_units, offset, Matrix};
use crate::model::{differs_by, fit_outcome, fitted_value, magnitudes, TwostepProblem};
use crate::panel::{observed_untreated, same_shape};
use crate::tuning::Lambdas;
use crate::twostep::{TwostepMethod, TwostepPanel};
use crate::weights::{largest_or_zero, twostep_kernel};
use vstd::arithmetic::div_mod::{lemma_div_pos_is_pos, lemma_fundamental_div_mod};
use vstd::prelude::*;

verus! {

/// Two tables hold the same values.
pub open spec fn same_values<T: Copy>(a: &Matrix<T>, b: &Matrix<T>) -> bool {
    &&& a.rows == b.rows
    &&& a.cols == b.cols
    &&& forall|t: usize, i: usize|
        t < a.rows && i < a.cols ==> #[trigger] a.at(t as int, i as int) == b.at(
            t as int,
            i as int,
        )
}

/// Two panels hold the same data.
pub open spec fn same_panel(p: &TwostepPanel, q: &TwostepPanel) -> bool {
    &&& p.wf()
    &&& q.wf()
    &&& same_values(p.y, q.y)
    &&& same_values(p.d, q.d)
    &&& same_values(p.control_mask, q.control_mask)
    &&& match (p.x, q.x) {
        (Some(a), Some(b)) => same_values(a, b),
        (None, None) => true,
        _ => false,
    }
    &&& p.time_dist == q.time_dist
}

proof fn lemma_listed_prefix(
    a: Seq<usize>,
    b: Seq<usize>,
    bound: int,
    p: spec_fn(int) -> bool,
    n: int,
)
    requires
        lists_units(a, bound, p),
        lists_units(b, bound, p),
        0 <= n <= a.len(),
    ensures
        n <= b.len(),
        forall|k: int| 0 <= k < n ==> #[trigger] a[k] == b[k],
    decreases n,
{
    if n > 0 {
        lemma_listed_prefix(a, b, bound, p, n - 1);
        let k = n - 1;
        assert(b.contains(a[k]));
        let m = choose|m: int| 0 <= m < b.len() && b[m] == a[k];
        if m < k {
            assert(a[m] == b[m]);
            assert(a[m] < a[k]);
        }
        assert(k <= m);
        assert(a.contains(b[k]));
        let j = choose|j: int| 0 <= j < a.len() && a[j] == b[k];
        if j < k {
            assert(a[j] == b[j]);
            assert(b[j] < b[k]);
        }
        if k < m {
            assert(b[k] < b[m]);
            if k < j {
                assert(a[k] < a[j]);
            }
        }
    }
}

pub proof fn lemma_one_listing(a: Seq<usize>, b: Seq<usize>, bound: int, p: spec_fn(int) -> bool)
    requires
        lists_units(a, bound, p),
        lists_units(b, bound, p),
    ensures
        a == b,
{
    lemma_listed_prefix(a, b, bound, p, a.len() as int);
    lemma_listed_prefix(b, a, bound, p, b.len() as int);
    assert(a =~= b);
}

/// The same two numbers always give the same number.
pub open spec fn one_number<P: Binary>(f: P) -> bool {
    forall|a: u64, b: u64, u: u64, v: u64| #[trigger]
        call_ensures(f, (a, b), u) && #[trigger] call_ensures(f, (a, b), v) ==> u == v
}

/// The same distance in periods always gives the same weight.
pub open spec fn one_time_weight<T: TimeDecay>(f: T) -> bool {
    forall|a: u64, b: i64, u: u64, v: u64| #[trigger]
        call_ensures(f, (a, b), u) && #[trigger] call_ensures(f, (a, b), v) ==> u == v
}

/// The same pairs always give the same number.
pub open spec fn one_pair_summary<R: PairSummary>(f: R) -> bool {
    forall|a: Vec<(u64, u64)>, b: Vec<(u64, u64)>, u: u64, v: u64|
        a@ == b@ && #[trigger] call_ensures(f, (&a,), u) && #[trigger] call_ensures(f, (&b,), v)
            ==> u == v
}

pub proof fn lemma_listed_alike(
    s: Seq<usize>,
    n: int,
    p: spec_fn(int) -> bool,
    q: spec_fn(int) -> bool,
)
    requires
        lists_units(s, n, p),
        forall|t: int| 0 <= t < n ==> #[trigger] p(t) == q(t),
    ensures
        lists_units(s, n, q),
{
    assert forall|i: usize| i < n && q(i as int) implies #[trigger] s.contains(i) by {
        assert(p(i as int));
    }
}

/// Two units of a panel have one distance.
pub proof fn law_one_distance<R: PairSummary>(
    v: u64,
    w: u64,
    cache: &UnitDistanceCache,
    other: &UnitDistanceCache,
    y: &Matrix<u64>,
    d: &Matrix<u64>,
    i: usize,
    j: usize,
    exclude: Option<usize>,
    rms: R,
)
    requires
        cache.caches(y, d),
        other.caches(y, d),
        i < y.cols,
        j < y.cols,
        distance_of(v, cache, i, j, exclude, rms),
        distance_of(w, other, i, j, exclude, rms),
        one_pair_summary(rms),
    ensures
        v == w,
{
    let a = choose|s: Separation| #[trigger]
        cache.separated(s, i, j, exclude) && gives_distance(v, &cache.y, i, j, s, rms);
    let b = choose|s: Separation| #[trigger]
        other.separated(s, i, j, exclude) && gives_distance(w, &other.y, i, j, s, rms);
    if i != j {
        let n = y.rows as int;
        let p = |t: int|
            exclude != Some(t as usize) && cache.valid.at(t, i as int) && cache.valid.at(
                t,
                j as int,
            );
        let q = |t: int|
            exclude != Some(t as usize) && other.valid.at(t, i as int) && other.valid.at(
                t,
                j as int,
            );
        assert forall|t: int| 0 <= t < n implies #[trigger] p(t) == q(t) by {
            let u = t as usize;
            assert(cache.valid.at(u as int, i as int) == observed_untreated(y, d, t, i as int));
            assert(other.valid.at(u as int, i as int) == observed_untreated(y, d, t, i as int));
            assert(cache.valid.at(u as int, j as int) == observed_untreated(y, d, t, j as int));
            assert(other.valid.at(u as int, j as int) == observed_untreated(y, d, t, j as int));
        }
        assert(separates(a, n, p));
        assert(separates(b, n, q));
        if let Separation::Periods(x) = a {
            lemma_listed_alike(x@, n, p, q);
            if let Separation::Periods(z) = b {
                lemma_one_listing(x@, z@, n, q);
                let first = choose|pairs: Vec<(u64, u64)>|
                    pairs@ == paired(&cache.y, i, j, x@) && #[trigger] call_ensures(
                        rms,
                        (&pairs,),
                        v,
                    );
                let second = choose|pairs: Vec<(u64, u64)>|
                    pairs@ == paired(&other.y, i, j, z@) && #[trigger] call_ensures(
                        rms,
                        (&pairs,),
                        w,
                    );
                assert forall|k: int| 0 <= k < first@.len() implies first@[k] == second@[k] by {
                    let t = x@[k];
                    assert(cache.y.at(t as int, i as int) == other.y.at(t as int, i as int));
                    assert(cache.y.at(t as int, j as int) == other.y.at(t as int, j as int));
                }
                assert(first@ =~= second@);
            } else {
                assert(q(x@[0] as int));
                assert(b is Unreachable);
            }
        } else {
            assert(a is Unreachable);
            if let Separation::Periods(z) = b {
                assert(q(z@[0] as int));
                assert(p(z@[0] as int));
            }
        }
    }
}

/// A panel has one table of weights centred on a cell: weights are the same
/// whether they are computed afresh, into a buffer, or with distances kept from
/// earlier.
pub proof fn law_one_weight_table<R: PairSummary, T: TimeDecay, U: Binary, P: Binary>(
    a: &Matrix<u64>,
    b: &Matrix<u64>,
    cache: &UnitDistanceCache,
    other: &UnitDistanceCache,
    y: &Matrix<u64>,
    d: &Matrix<u64>,
    cell: (usize, usize),
    lambdas: Lambdas,
    time_dist: &Matrix<i64>,
    rms: R,
    time_decay: T,
    unit_decay: U,
    multiply: P,
)
    requires
        cache.caches(y, d),
        other.caches(y, d),
        cell.0 < y.rows,
        cell.1 < y.cols,
        weighs_cells(
            a,
            cache,
            cell.1,
            cell.0,
            lambdas.time,
            lambdas.unit,
            time_dist,
            rms,
            time_decay,
            unit_decay,
            multiply,
        ),
        weighs_cells(
            b,
            other,
            cell.1,
            cell.0,
            lambdas.time,
            lambdas.unit,
            time_dist,
            rms,
            time_decay,
            unit_decay,
            multiply,
        ),
        one_pair_summary(rms),
        one_time_weight(time_decay),
        one_number(unit_decay),
        one_number(multiply),
    ensures
        same_values(a, b),
{
    let v = choose|vectors: (Vec<u64>, Vec<u64>)| #[trigger]
        weighs_cell(
            vectors,
            cache,
            cell.1,
            cell.0,
            lambdas.time,
            lambdas.unit,
            time_dist,
            rms,
            time_decay,
            unit_decay,
        ) && is_product(a, vectors.0@, vectors.1@, multiply);
    let w = choose|vectors: (Vec<u64>, Vec<u64>)| #[trigger]
        weighs_cell(
            vectors,
            other,
            cell.1,
            cell.0,
            lambdas.time,
            lambdas.unit,
            time_dist,
            rms,
            time_decay,
            unit_decay,
        ) && is_product(b, vectors.0@, vectors.1@, multiply);
    assert forall|s: int| 0 <= s < v.0@.len() implies v.0@[s] == w.0@[s] by {
        assert(call_ensures(
            time_decay,
            (lambdas.time, time_dist.at(cell.0 as int, s)),
            v.0@[s],
        ));
        assert(call_ensures(
            time_decay,
            (lambdas.time, time_dist.at(cell.0 as int, s)),
            w.0@[s],
        ));
    }
    assert(v.0@ =~= w.0@);
    assert forall|j: int| 0 <= j < v.1@.len() implies v.1@[j] == w.1@[j] by {
        lemma_one_unit_weight(
            v.1@[j],
            w.1@[j],
            cache,
            other,
            y,
            d,
            j as usize,
            cell,
            lambdas.unit,
            rms,
            unit_decay,
        );
    }
    assert(v.1@ =~= w.1@);
    assert forall|t: usize, i: usize| t < a.rows && i < a.cols implies #[trigger] a.at(
        t as int,
        i as int,
    ) == b.at(t as int, i as int) by {
        assert(call_ensures(
            multiply,
            (v.0@[t as int], v.1@[i as int]),
            b.at(t as int, i as int),
        ));
    }
}

proof fn lemma_one_unit_weight<R: PairSummary, U: Binary>(
    v: u64,
    w: u64,
    cache: &UnitDistanceCache,
    other: &UnitDistanceCache,
    y: &Matrix<u64>,
    d: &Matrix<u64>,
    j: usize,
    cell: (usize, usize),
    lambda_unit: u64,
    rms: R,
    unit_decay: U,
)
    requires
        cache.caches(y, d),
        other.caches(y, d),
        j < y.cols,
        cell.1 < y.cols,
        weighs_unit(v, cache, j, cell.1, cell.0, lambda_unit, rms, unit_decay),
        weighs_unit(w, other, j, cell.1, cell.0, lambda_unit, rms, unit_decay),
        one_pair_summary(rms),
        one_number(unit_decay),
    ensures
        v == w,
{
    if !(j == cell.1 || bits::zero(lambda_unit)) {
        let p = choose|distance: u64| #[trigger]
            distance_of(distance, cache, j, cell.1, Some(cell.0), rms) && gives_kernel(
                v,
                twostep_kernel(lambda_unit, cell.1, j as int, distance),
                lambda_unit,
                unit_decay,
            );
        let q = choose|distance: u64| #[trigger]
            distance_of(distance, other, j, cell.1, Some(cell.0), rms) && gives_kernel(
                w,
                twostep_kernel(lambda_unit, cell.1, j as int, distance),
                lambda_unit,
                unit_decay,
            );
        law_one_distance(p, q, cache, other, y, d, j, cell.1, Some(cell.0), rms);
    }
}

/// The same numbers always have the same sum.
pub open spec fn one_sum<Z: Summary>(f: Z) -> bool {
    forall|a: Vec<u64>, b: Vec<u64>, u: u64, v: u64|
        a@ == b@ && #[trigger] call_ensures(f, (&a,), u) && #[trigger] call_ensures(f, (&b,), v)
            ==> u == v
}

/// The same rows and coefficients always have the same product.
pub open spec fn one_product<O: Dot>(f: O) -> bool {
    forall|a: Vec<u64>, b: Vec<u64>, g: Vec<u64>, h: Vec<u64>, u: u64, v: u64|
        a@ == b@ && g@ == h@ && #[trigger] call_ensures(f, (&a, &g), u) && #[trigger] call_ensures(
            f,
            (&b, &h),
            v,
        ) ==> u == v
}

/// The same terms always have the same weighted mean.
pub open spec fn one_mean<C: WeightedMean>(f: C) -> bool {
    forall|a: Vec<(u64, u64)>, b: Vec<(u64, u64)>, total: u64, u: u64, v: u64|
        a@ == b@ && #[trigger] call_ensures(f, (&a, total), u) && #[trigger] call_ensures(
            f,
            (&b, total),
            v,
        ) ==> u == v
}

/// Two tables, where there are any, hold the same values.
pub open spec fn same_covariate_tables(a: Option<Matrix<u64>>, b: Option<Matrix<u64>>) -> bool {
    match (a, b) {
        (Some(p), Some(q)) => same_table(&p, &q),
        (None, None) => true,
        _ => false,
    }
}

/// Two problems hold the same data.
pub open spec fn same_problem(p: TwostepProblem, q: TwostepProblem) -> bool {
    &&& same_table(&p.y, &q.y)
    &&& same_values(&p.valid, &q.valid)
    &&& same_values(&p.support, &q.support)
    &&& same_table(&p.weights, &q.weights)
    &&& same_covariate_tables(p.x, q.x)
    &&& p.rows@ == q.rows@
    &&& p.largest == q.largest
    &&& p.lambda_nn == q.lambda_nn
}

/// Two momenta hold the same numbers.
pub open spec fn same_momentum(a: Momentum, b: Momentum) -> bool {
    same_table(&a.previous, &b.previous) && a.factor == b.factor
}

/// The same problem, residuals and coefficients always give the same
/// coefficients.
pub open spec fn one_covariate_fit<Q: CovariateFit>(f: Q) -> bool {
    forall|
        p: TwostepProblem,
        q: TwostepProblem,
        a: Matrix<u64>,
        b: Matrix<u64>,
        g: Vec<u64>,
        h: Vec<u64>,
        u: Vec<u64>,
        v: Vec<u64>,
    |
        same_problem(p, q) && same_table(&a, &b) && g@ == h@ && #[trigger] call_ensures(
            f,
            (&p, &a, &g),
            u,
        ) && #[trigger] call_ensures(f, (&q, &b, &h), v) ==> u@ == v@
}

/// The same problem, target, component and momentum always give the same step.
pub open spec fn one_proximal_step<F: TwostepProximal>(f: F) -> bool {
    forall|
        p: TwostepProblem,
        q: TwostepProblem,
        fresh: bool,
        a: Matrix<u64>,
        b: Matrix<u64>,
        l: Matrix<u64>,
        k: Matrix<u64>,
        m: Momentum,
        n: Momentum,
        u: (Matrix<u64>, Momentum, FitEvent),
        v: (Matrix<u64>, Momentum, FitEvent),
    |
        same_problem(p, q) && same_table(&a, &b) && same_table(&l, &k) && same_momentum(m, n)
            && #[trigger] call_ensures(f, (&p, fresh, &a, &l, &m), u) && #[trigger] call_ensures(
            f,
            (&q, fresh, &b, &k, &n),
            v,
        ) ==> same_table(&u.0, &v.0) && same_momentum(u.1, v.1) && u.2 == v.2
}

/// The same panel, model and cell always have the same effect.
pub open spec fn one_cell_effect<E: CellEffect<TwostepModel>>(f: E) -> bool {
    forall|
        y: &Matrix<u64>,
        z: &Matrix<u64>,
        x: Option<&Matrix<u64>>,
        w: Option<&Matrix<u64>>,
        m: TwostepModel,
        n: TwostepModel,
        cell: (usize, usize),
        u: u64,
        v: u64,
    |
        same_values(y, z) && same_columns(x, w) && same_model(m, n) && #[trigger] call_ensures(
            f,
            (y, x, &m, cell),
            u,
        ) && #[trigger] call_ensures(f, (z, w, &n, cell), v) ==> u == v
}

/// Two tables of covariates hold the same values.
pub open spec fn same_columns(a: Option<&Matrix<u64>>, b: Option<&Matrix<u64>>) -> bool {
    match (a, b) {
        (Some(p), Some(q)) => same_values(p, q),
        (None, None) => true,
        _ => false,
    }
}

impl<
    'a,
    R: PairSummary,
    T: TimeDecay,
    U: Binary,
    P: Binary,
    B: Binary,
    Z: Summary,
    O: Dot,
    C: WeightedMean,
    Q: CovariateFit,
    F: TwostepProximal,
    E: CellEffect<TwostepModel>,
    S: Binary,
> TwostepMethod<'a, R, T, U, P, B, Z, O, C, Q, F, E, S> {
    /// Every supplied function gives one result for the same arguments.
    #[verifier::opaque]
    pub open spec fn steady(&self) -> bool {
        &&& one_pair_summary(*self.rms)
        &&& one_time_weight(*self.time_decay)
        &&& one_number(*self.unit_decay)
        &&& one_number(*self.multiply)
        &&& one_number(*self.subtract)
        &&& one_sum(*self.sum)
        &&& one_product(*self.dot)
        &&& one_mean(*self.weighted_mean)
        &&& one_covariate_fit(*self.covariate_fit)
        &&& one_proximal_step(*self.proximal)
        &&& one_cell_effect(*self.effect)
        &&& one_number(*self.add_square)
    }
}

pub proof fn lemma_same_data<T: Copy>(a: &Matrix<T>, b: &Matrix<T>)
    requires
        same_values(a, b),
        a.wf(),
        b.wf(),
    ensures
        a.data@ == b.data@,
{
    let (rows, cols) = (a.rows as int, a.cols as int);
    assert forall|k: int| 0 <= k < a.data@.len() implies a.data@[k] == b.data@[k] by {
        assert(cols > 0) by (nonlinear_arith)
            requires
                0 <= k < rows * cols,
                rows >= 0,
                cols >= 0,
        ;
        lemma_fundamental_div_mod(k, cols);
        lemma_div_pos_is_pos(k, cols);
        let (t, i) = (k / cols, k % cols);
        assert(t < rows) by (nonlinear_arith)
            requires
                k < rows * cols,
                k == cols * t + i,
                0 <= i,
                cols > 0,
        ;
        assert(offset(cols, t, i) == k) by (nonlinear_arith)
            requires
                k == cols * t + i,
                offset(cols, t, i) == t * cols + i,
        ;
        let (u, j) = (t as usize, i as usize);
        assert(a.at(u as int, j as int) == b.at(u as int, j as int));
    }
    assert(a.data@ =~= b.data@);
}

proof fn lemma_one_remainder<B: Binary>(
    v: u64,
    w: u64,
    first: u64,
    rest: Seq<u64>,
    subtract: B,
)
    requires
        takes_away(v, first, rest, subtract),
        takes_away(w, first, rest, subtract),
        one_number(subtract),
    ensures
        v == w,
    decreases rest.len(),
{
    if rest.len() > 0 {
        let a = choose|a: u64|
            takes_away(a, first, rest.drop_last(), subtract) && #[trigger] call_ensures(
                subtract,
                (a, rest.last()),
                v,
            );
        let b = choose|a: u64|
            takes_away(a, first, rest.drop_last(), subtract) && #[trigger] call_ensures(
                subtract,
                (a, rest.last()),
                w,
            );
        lemma_one_remainder(a, b, first, rest.drop_last(), subtract);
    }
}

proof fn lemma_one_rest<B: Binary, O: Dot>(
    v: u64,
    w: u64,
    first: u64,
    rest: Seq<u64>,
    x: Option<Matrix<u64>>,
    z: Option<Matrix<u64>>,
    k: int,
    gamma: Vec<u64>,
    delta: Vec<u64>,
    subtract: B,
    dot: O,
)
    requires
        leaves(v, first, rest, x, k, gamma, subtract, dot),
        leaves(w, first, rest, z, k, delta, subtract, dot),
        same_covariate_tables(x, z),
        gamma@ == delta@,
        one_number(subtract),
        one_product(dot),
    ensures
        v == w,
{
    match (x, z) {
        (Some(m), Some(n)) => {
            assert(row_of(&m, k) =~= row_of(&n, k));
            let (a, e) = choose|covariates: Vec<u64>, e: u64|
                {
                    &&& covariates@ == row_of(&m, k)
                    &&& #[trigger] call_ensures(dot, (&covariates, &gamma), e)
                    &&& takes_away(v, first, rest.push(e), subtract)
                };
            let (b, f) = choose|covariates: Vec<u64>, e: u64|
                {
                    &&& covariates@ == row_of(&n, k)
                    &&& #[trigger] call_ensures(dot, (&covariates, &delta), e)
                    &&& takes_away(w, first, rest.push(e), subtract)
                };
            assert(e == f);
            lemma_one_remainder(v, w, first, rest.push(e), subtract);
        },
        _ => {
            lemma_one_remainder(v, w, first, rest, subtract);
        },
    }
}

pub proof fn lemma_one_difference<B: Binary>(
    v: u64,
    w: u64,
    a: Seq<u64>,
    b: Seq<u64>,
    subtract: B,
)
    requires
        differs_by(v, a, b, subtract),
        differs_by(w, a, b, subtract),
        one_number(subtract),
    ensures
        v == w,
{
    let n = if a.len() <= b.len() {
        a.len()
    } else {
        b.len()
    };
    let p = choose|diffs: Seq<u64>|
        {
            &&& diffs.len() == n
            &&& forall|k: int|
                0 <= k < diffs.len() ==> call_ensures(subtract, (a[k], b[k]), #[trigger] diffs[k])
            &&& v == #[trigger] largest_or_zero(magnitudes(diffs))
        };
    let q = choose|diffs: Seq<u64>|
        {
            &&& diffs.len() == n
            &&& forall|k: int|
                0 <= k < diffs.len() ==> call_ensures(subtract, (a[k], b[k]), #[trigger] diffs[k])
            &&& w == #[trigger] largest_or_zero(magnitudes(diffs))
        };
    assert forall|k: int| 0 <= k < p.len() implies p[k] == q[k] by {
        assert(call_ensures(subtract, (a[k], b[k]), p[k]));
        assert(call_ensures(subtract, (a[k], b[k]), q[k]));
    }
    assert(p =~= q);
}

proof fn lemma_one_average<
    R: PairSummary,
    T: TimeDecay,
    U: Binary,
    P: Binary,
    B: Binary,
    Z: Summary,
    O: Dot,
    C: WeightedMean,
    Q: CovariateFit,
    F: TwostepProximal,
    E: CellEffect<TwostepModel>,
    S: Binary,
>(
    v: u64,
    w: u64,
    weights: Seq<u64>,
    residuals: Seq<u64>,
    others: Seq<u64>,
    total: u64,
    method: &TwostepMethod<R, T, U, P, B, Z, O, C, Q, F, E, S>,
)
    requires
        method.averages(v, weights, residuals, others, total),
        method.averages(w, weights, residuals, others, total),
        method.steady(),
    ensures
        v == w,
{
    reveal(TwostepMethod::steady);
    let a = choose|terms: Vec<(u64, u64)>|
        {
            &&& terms@.len() == weights.len()
            &&& forall|k: int|
                0 <= k < weights.len() ==> (#[trigger] terms@[k]).0 == weights[k] && call_ensures(
                    *method.subtract,
                    (residuals[k], others[k]),
                    terms@[k].1,
                )
            &&& #[trigger] call_ensures(*method.weighted_mean, (&terms, total), v)
        };
    let b = choose|terms: Vec<(u64, u64)>|
        {
            &&& terms@.len() == weights.len()
            &&& forall|k: int|
                0 <= k < weights.len() ==> (#[trigger] terms@[k]).0 == weights[k] && call_ensures(
                    *method.subtract,
                    (residuals[k], others[k]),
                    terms@[k].1,
                )
            &&& #[trigger] call_ensures(*method.weighted_mean, (&terms, total), w)
        };
    assert forall|k: int| 0 <= k < weights.len() implies a@[k] == b@[k] by {
        assert(a@[k].0 == weights[k] && b@[k].0 == weights[k]);
        assert(call_ensures(*method.subtract, (residuals[k], others[k]), a@[k].1));
        assert(call_ensures(*method.subtract, (residuals[k], others[k]), b@[k].1));
    }
    assert(a@ =~= b@);
}

/// Two states of a fit hold the same numbers.
pub open spec fn same_state(a: TwostepState, b: TwostepState) -> bool {
    &&& same_model(a.model, b.model)
    &&& same_model(a.before, b.before)
    &&& same_table(&a.residual, &b.residual)
    &&& same_table(&a.target, &b.target)
    &&& same_momentum(a.momentum, b.momentum)
}

proof fn lemma_one_residual<
    R: PairSummary,
    T: TimeDecay,
    U: Binary,
    P: Binary,
    B: Binary,
    Z: Summary,
    O: Dot,
    C: WeightedMean,
    Q: CovariateFit,
    F: TwostepProximal,
    E: CellEffect<TwostepModel>,
    S: Binary,
>(
    a: &Matrix<u64>,
    b: &Matrix<u64>,
    p: &TwostepProblem,
    q: &TwostepProblem,
    m: TwostepModel,
    n: TwostepModel,
    method: &TwostepMethod<R, T, U, P, B, Z, O, C, Q, F, E, S>,
)
    requires
        same_problem(*p, *q),
        same_model(m, n),
        method.leaves_effects(a, p, m),
        method.leaves_effects(b, q, n),
        method.steady(),
    ensures
        same_table(a, b),
{
    reveal(TwostepMethod::steady);
    assert forall|t: usize, i: usize| t < a.rows && i < a.cols implies #[trigger] a.at(
        t as int,
        i as int,
    ) == b.at(t as int, i as int) by {
        let k = offset(p.y.cols as int, t as int, i as int);
        assert(m.l.at(t as int, i as int) == n.l.at(t as int, i as int));
        lemma_one_rest(
            a.at(t as int, i as int),
            b.at(t as int, i as int),
            p.y.at(t as int, i as int),
            seq![m.l.at(t as int, i as int)],
            p.x,
            q.x,
            k,
            m.gamma,
            n.gamma,
            *method.subtract,
            *method.dot,
        );
    }
    lemma_same_data(a, b);
}

proof fn lemma_one_unexplained<
    R: PairSummary,
    T: TimeDecay,
    U: Binary,
    P: Binary,
    B: Binary,
    Z: Summary,
    O: Dot,
    C: WeightedMean,
    Q: CovariateFit,
    F: TwostepProximal,
    E: CellEffect<TwostepModel>,
    S: Binary,
>(
    a: &Matrix<u64>,
    b: &Matrix<u64>,
    p: &TwostepProblem,
    q: &TwostepProblem,
    m: TwostepModel,
    n: TwostepModel,
    method: &TwostepMethod<R, T, U, P, B, Z, O, C, Q, F, E, S>,
)
    requires
        same_problem(*p, *q),
        same_model(m, n),
        method.leaves_covariates(a, p, m),
        method.leaves_covariates(b, q, n),
        method.steady(),
    ensures
        same_table(a, b),
{
    reveal(TwostepMethod::steady);
    assert forall|t: usize, i: usize| t < a.rows && i < a.cols implies #[trigger] a.at(
        t as int,
        i as int,
    ) == b.at(t as int, i as int) by {
        assert(m.l.at(t as int, i as int) == n.l.at(t as int, i as int));
        lemma_one_remainder(
            a.at(t as int, i as int),
            b.at(t as int, i as int),
            p.y.at(t as int, i as int),
            seq![m.alpha@[i as int], m.beta@[t as int], m.l.at(t as int, i as int)],
            *method.subtract,
        );
    }
    lemma_same_data(a, b);
}

proof fn lemma_one_target<
    R: PairSummary,
    T: TimeDecay,
    U: Binary,
    P: Binary,
    B: Binary,
    Z: Summary,
    O: Dot,
    C: WeightedMean,
    Q: CovariateFit,
    F: TwostepProximal,
    E: CellEffect<TwostepModel>,
    S: Binary,
>(
    a: &Matrix<u64>,
    b: &Matrix<u64>,
    p: &TwostepProblem,
    q: &TwostepProblem,
    m: TwostepModel,
    n: TwostepModel,
    method: &TwostepMethod<R, T, U, P, B, Z, O, C, Q, F, E, S>,
)
    requires
        same_problem(*p, *q),
        same_shape(&p.y, &p.support),
        same_model(m, n),
        method.leaves_component(a, p, m),
        method.leaves_component(b, q, n),
        method.steady(),
    ensures
        same_table(a, b),
{
    reveal(TwostepMethod::steady);
    assert forall|t: usize, i: usize| t < a.rows && i < a.cols implies #[trigger] a.at(
        t as int,
        i as int,
    ) == b.at(t as int, i as int) by {
        let k = offset(p.y.cols as int, t as int, i as int);
        assert(p.support.at(t as int, i as int) == q.support.at(t as int, i as int));
        assert(m.l.at(t as int, i as int) == n.l.at(t as int, i as int));
        if p.support.at(t as int, i as int) {
            lemma_one_rest(
                a.at(t as int, i as int),
                b.at(t as int, i as int),
                p.y.at(t as int, i as int),
                seq![m.alpha@[i as int], m.beta@[t as int]],
                p.x,
                q.x,
                k,
                m.gamma,
                n.gamma,
                *method.subtract,
                *method.dot,
            );
        }
    }
    lemma_same_data(a, b);
}

proof fn lemma_one_unit_update<
    R: PairSummary,
    T: TimeDecay,
    U: Binary,
    P: Binary,
    B: Binary,
    Z: Summary,
    O: Dot,
    C: WeightedMean,
    Q: CovariateFit,
    F: TwostepProximal,
    E: CellEffect<TwostepModel>,
    S: Binary,
>(
    a: Seq<u64>,
    b: Seq<u64>,
    old: Seq<u64>,
    p: &TwostepProblem,
    q: &TwostepProblem,
    totals: Totals,
    other: Totals,
    r: &Matrix<u64>,
    s: &Matrix<u64>,
    beta: Seq<u64>,
    method: &TwostepMethod<R, T, U, P, B, Z, O, C, Q, F, E, S>,
)
    requires
        same_problem(*p, *q),
        totals.units@ == other.units@,
        same_table(r, s),
        method.updates_units(a, old, p, totals, r, beta),
        method.updates_units(b, old, q, other, s, beta),
        method.steady(),
    ensures
        a == b,
{
    assert forall|i: int| 0 <= i < old.len() implies a[i] == b[i] by {
        assert(column_of(&p.weights, i) =~= column_of(&q.weights, i));
        assert(column_of(r, i) =~= column_of(s, i));
        if bits::lt(bits::ZERO, totals.units@[i]) {
            lemma_one_average(
                a[i],
                b[i],
                column_of(&p.weights, i),
                column_of(r, i),
                beta,
                totals.units@[i],
                method,
            );
        }
    }
    assert(a =~= b);
}

proof fn lemma_one_period_update<
    R: PairSummary,
    T: TimeDecay,
    U: Binary,
    P: Binary,
    B: Binary,
    Z: Summary,
    O: Dot,
    C: WeightedMean,
    Q: CovariateFit,
    F: TwostepProximal,
    E: CellEffect<TwostepModel>,
    S: Binary,
>(
    a: Seq<u64>,
    b: Seq<u64>,
    old: Seq<u64>,
    p: &TwostepProblem,
    q: &TwostepProblem,
    totals: Totals,
    other: Totals,
    r: &Matrix<u64>,
    s: &Matrix<u64>,
    alpha: Seq<u64>,
    method: &TwostepMethod<R, T, U, P, B, Z, O, C, Q, F, E, S>,
)
    requires
        same_problem(*p, *q),
        totals.periods@ == other.periods@,
        same_table(r, s),
        method.updates_periods(a, old, p, totals, r, alpha),
        method.updates_periods(b, old, q, other, s, alpha),
        method.steady(),
    ensures
        a == b,
{
    assert forall|t: int| 0 <= t < old.len() implies a[t] == b[t] by {
        assert(row_of(&p.weights, t) =~= row_of(&q.weights, t));
        assert(row_of(r, t) =~= row_of(s, t));
        if bits::lt(bits::ZERO, totals.periods@[t]) {
            lemma_one_average(
                a[t],
                b[t],
                row_of(&p.weights, t),
                row_of(r, t),
                alpha,
                totals.periods@[t],
                method,
            );
        }
    }
    assert(a =~= b);
}

proof fn lemma_one_step<
    R: PairSummary,
    T: TimeDecay,
    U: Binary,
    P: Binary,
    B: Binary,
    Z: Summary,
    O: Dot,
    C: WeightedMean,
    Q: CovariateFit,
    F: TwostepProximal,
    E: CellEffect<TwostepModel>,
    S: Binary,
>(
    p: &TwostepProblem,
    q: &TwostepProblem,
    totals: Totals,
    other: Totals,
    f: TwostepFit,
    s: TwostepState,
    z: TwostepState,
    a: TwostepStep,
    b: TwostepStep,
    method: &TwostepMethod<R, T, U, P, B, Z, O, C, Q, F, E, S>,
)
    requires
        same_problem(*p, *q),
        same_shape(&p.y, &p.support),
        totals.units@ == other.units@,
        totals.periods@ == other.periods@,
        same_state(s, z),
        method.carries_out(p, totals, f, s, a),
        method.carries_out(q, other, f, z, b),
        method.steady(),
    ensures
        a.event == b.event,
        same_state(a.after, b.after),
{
    reveal(TwostepMethod::steady);
    match f.phase {
        TwostepPhase::Alpha => {
            lemma_one_residual(
                &a.after.residual,
                &b.after.residual,
                p,
                q,
                s.model,
                z.model,
                method,
            );
            lemma_one_unit_update(
                a.after.model.alpha@,
                b.after.model.alpha@,
                s.model.alpha@,
                p,
                q,
                totals,
                other,
                &a.after.residual,
                &b.after.residual,
                s.model.beta@,
                method,
            );
        },
        TwostepPhase::Beta => {
            lemma_one_period_update(
                a.after.model.beta@,
                b.after.model.beta@,
                s.model.beta@,
                p,
                q,
                totals,
                other,
                &s.residual,
                &z.residual,
                s.model.alpha@,
                method,
            );
            if p.x is None {
                lemma_one_target(
                    &a.after.target,
                    &b.after.target,
                    p,
                    q,
                    a.after.model,
                    b.after.model,
                    method,
                );
            }
        },
        TwostepPhase::Gamma => {
            let u = choose|unexplained: Matrix<u64>| #[trigger]
                method.leaves_covariates(&unexplained, p, s.model) && call_ensures(
                    *method.covariate_fit,
                    (p, &unexplained, &s.model.gamma),
                    a.after.model.gamma,
                );
            let v = choose|unexplained: Matrix<u64>| #[trigger]
                method.leaves_covariates(&unexplained, q, z.model) && call_ensures(
                    *method.covariate_fit,
                    (q, &unexplained, &z.model.gamma),
                    b.after.model.gamma,
                );
            lemma_one_unexplained(&u, &v, p, q, s.model, z.model, method);
            assert(a.after.model.gamma@ == b.after.model.gamma@);
            lemma_one_target(
                &a.after.target,
                &b.after.target,
                p,
                q,
                a.after.model,
                b.after.model,
                method,
            );
        },
        TwostepPhase::ClosedForm => {},
        TwostepPhase::Proximal => {
            let u = (a.after.model.l, a.after.momentum, a.event);
            let v = (b.after.model.l, b.after.momentum, b.event);
            assert(call_ensures(
                *method.proximal,
                (p, f.fresh, &s.target, &s.model.l, &s.momentum),
                u,
            ));
            assert(call_ensures(
                *method.proximal,
                (q, f.fresh, &z.target, &z.model.l, &z.momentum),
                v,
            ));
            assert(same_table(&u.0, &v.0) && same_momentum(u.1, v.1) && u.2 == v.2);
        },
        TwostepPhase::Compare => {
            let c = match a.event {
                FitEvent::Compared(c) => c,
                _ => arbitrary(),
            };
            let d = match b.event {
                FitEvent::Compared(d) => d,
                _ => arbitrary(),
            };
            lemma_one_change(c, d, s, z, method);
        },
        _ => {},
    }
}

proof fn lemma_one_change<
    R: PairSummary,
    T: TimeDecay,
    U: Binary,
    P: Binary,
    B: Binary,
    Z: Summary,
    O: Dot,
    C: WeightedMean,
    Q: CovariateFit,
    F: TwostepProximal,
    E: CellEffect<TwostepModel>,
    S: Binary,
>(
    c: Changes,
    d: Changes,
    s: TwostepState,
    z: TwostepState,
    method: &TwostepMethod<R, T, U, P, B, Z, O, C, Q, F, E, S>,
)
    requires
        same_state(s, z),
        method.changed_by(c, s),
        method.changed_by(d, z),
        method.steady(),
    ensures
        c == d,
{
    reveal(TwostepMethod::steady);
    lemma_one_difference(c.alpha, d.alpha, s.model.alpha@, s.before.alpha@, *method.subtract);
    lemma_one_difference(c.beta, d.beta, s.model.beta@, s.before.beta@, *method.subtract);
    lemma_one_difference(
        c.low_rank,
        d.low_rank,
        s.model.l.data@,
        s.before.l.data@,
        *method.subtract,
    );
    lemma_one_difference(c.gamma, d.gamma, s.model.gamma@, s.before.gamma@, *method.subtract);
}

proof fn lemma_one_trace<
    R: PairSummary,
    T: TimeDecay,
    U: Binary,
    P: Binary,
    B: Binary,
    Z: Summary,
    O: Dot,
    C: WeightedMean,
    Q: CovariateFit,
    F: TwostepProximal,
    E: CellEffect<TwostepModel>,
    S: Binary,
>(
    p: &TwostepProblem,
    q: &TwostepProblem,
    totals: Totals,
    other: Totals,
    settings: FitSettings,
    s: TwostepState,
    z: TwostepState,
    a: Seq<TwostepStep>,
    b: Seq<TwostepStep>,
    n: int,
    method: &TwostepMethod<R, T, U, P, B, Z, O, C, Q, F, E, S>,
)
    requires
        same_problem(*p, *q),
        same_shape(&p.y, &p.support),
        totals.units@ == other.units@,
        totals.periods@ == other.periods@,
        same_state(s, z),
        method.ran(p, totals, settings, s, a),
        method.ran(q, other, settings, z, b),
        method.steady(),
        0 <= n <= a.len(),
        n <= b.len(),
    ensures
        twostep_at(settings, a.take(n)) == twostep_at(settings, b.take(n)),
        same_state(twostep_state_at(s, a.take(n)), twostep_state_at(z, b.take(n))),
    decreases n,
{
    if n > 0 {
        let k = n - 1;
        lemma_one_trace(p, q, totals, other, settings, s, z, a, b, k, method);
        assert(a.take(n).drop_last() =~= a.take(k));
        assert(b.take(n).drop_last() =~= b.take(k));
        assert(method.carries_out(
            p,
            totals,
            twostep_at(settings, a.take(k)),
            twostep_state_at(s, a.take(k)),
            a[k],
        ));
        assert(method.carries_out(
            q,
            other,
            twostep_at(settings, b.take(k)),
            twostep_state_at(z, b.take(k)),
            b[k],
        ));
        lemma_one_step(
            p,
            q,
            totals,
            other,
            twostep_at(settings, a.take(k)),
            twostep_state_at(s, a.take(k)),
            twostep_state_at(z, b.take(k)),
            a[k],
            b[k],
            method,
        );
    }
}

proof fn lemma_same_problem(
    p: TwostepProblem,
    q: TwostepProblem,
    y: &Matrix<u64>,
    z: &Matrix<u64>,
    x: Option<&Matrix<u64>>,
    v: Option<&Matrix<u64>>,
    mask: &Matrix<u8>,
    other: &Matrix<u8>,
    w: &Matrix<u64>,
    u: &Matrix<u64>,
    exclude: Option<(usize, usize)>,
    lambda_nn: u64,
)
    requires
        p.poses(y, x, mask, w, exclude, lambda_nn),
        q.poses(z, v, other, u, exclude, lambda_nn),
        same_values(y, z),
        same_columns(x, v),
        x matches Some(m) ==> m.wf(),
        v matches Some(m) ==> m.wf(),
        same_values(mask, other),
        mask.rows == y.rows,
        mask.cols == y.cols,
        same_values(w, u),
        w.rows == y.rows,
        w.cols == y.cols,
    ensures
        same_problem(p, q),
{
    assert forall|t: usize, i: usize| t < y.rows && i < y.cols implies #[trigger] fitted_cell(
        y,
        mask,
        exclude,
        t,
        i,
    ) == fitted_cell(z, other, exclude, t, i) by {
        assert(y.at(t as int, i as int) == z.at(t as int, i as int));
        assert(mask.at(t as int, i as int) == other.at(t as int, i as int));
    }
    assert forall|t: usize, i: usize| t < y.rows && i < y.cols implies #[trigger] p.y.at(
        t as int,
        i as int,
    ) == q.y.at(t as int, i as int) by {
        assert(fitted_cell(y, mask, exclude, t, i) == fitted_cell(z, other, exclude, t, i));
        assert(y.at(t as int, i as int) == z.at(t as int, i as int));
        assert(q.y.at(t as int, i as int) == fitted_value(z, z, other, exclude, t, i));
    }
    lemma_same_data(&p.y, &q.y);
    assert forall|t: usize, i: usize| t < y.rows && i < y.cols implies #[trigger] p.weights.at(
        t as int,
        i as int,
    ) == q.weights.at(t as int, i as int) by {
        assert(fitted_cell(y, mask, exclude, t, i) == fitted_cell(z, other, exclude, t, i));
        assert(w.at(t as int, i as int) == u.at(t as int, i as int));
        assert(q.weights.at(t as int, i as int) == fitted_value(u, z, other, exclude, t, i));
    }
    lemma_same_data(&p.weights, &q.weights);
    assert forall|t: usize, i: usize| t < y.rows && i < y.cols implies #[trigger] p.valid.at(
        t as int,
        i as int,
    ) == q.valid.at(t as int, i as int) by {
        assert(fitted_cell(y, mask, exclude, t, i) == fitted_cell(z, other, exclude, t, i));
        assert(q.valid.at(t as int, i as int) == fitted_cell(z, other, exclude, t, i));
    }
    assert forall|t: usize, i: usize| t < y.rows && i < y.cols implies #[trigger] p.support.at(
        t as int,
        i as int,
    ) == q.support.at(t as int, i as int) by {
        assert(fitted_cell(y, mask, exclude, t, i) == fitted_cell(z, other, exclude, t, i));
        assert(w.at(t as int, i as int) == u.at(t as int, i as int));
        assert(q.support.at(t as int, i as int) == (fitted_cell(z, other, exclude, t, i)
            && bits::lt(bits::ZERO, u.at(t as int, i as int))));
    }
    if let (Some(a), Some(b)) = (x, v) {
        lemma_same_data(a, b);
    }
    lemma_one_listing(
        p.rows@,
        q.rows@,
        p.weights.data@.len() as int,
        |k: int| !bits::le(p.weights.data@[k], bits::ZERO),
    );
}

proof fn lemma_same_totals<
    R: PairSummary,
    T: TimeDecay,
    U: Binary,
    P: Binary,
    B: Binary,
    Z: Summary,
    O: Dot,
    C: WeightedMean,
    Q: CovariateFit,
    F: TwostepProximal,
    E: CellEffect<TwostepModel>,
    S: Binary,
>(
    a: Totals,
    b: Totals,
    w: &Matrix<u64>,
    u: &Matrix<u64>,
    method: &TwostepMethod<R, T, U, P, B, Z, O, C, Q, F, E, S>,
)
    requires
        method.totals(a, w),
        method.totals(b, u),
        same_table(w, u),
        method.steady(),
    ensures
        a.units@ == b.units@,
        a.periods@ == b.periods@,
{
    reveal(TwostepMethod::steady);
    assert forall|i: int| 0 <= i < w.cols implies a.units@[i] == b.units@[i] by {
        assert(column_of(w, i) =~= column_of(u, i));
        assert(sums_to(a.units@[i], column_of(w, i), *method.sum));
        assert(sums_to(b.units@[i], column_of(u, i), *method.sum));
    }
    assert(a.units@ =~= b.units@);
    assert forall|t: int| 0 <= t < w.rows implies a.periods@[t] == b.periods@[t] by {
        assert(row_of(w, t) =~= row_of(u, t));
        assert(sums_to(a.periods@[t], row_of(w, t), *method.sum));
        assert(sums_to(b.periods@[t], row_of(u, t), *method.sum));
    }
    assert(a.periods@ =~= b.periods@);
}

/// Two fits came to the same: both failed, or both gave the same model after
/// the same iterations.
pub open spec fn same_fit(
    a: Option<(TwostepModel, Iterations)>,
    b: Option<(TwostepModel, Iterations)>,
) -> bool {
    match (a, b) {
        (Some((m, i)), Some((n, j))) => same_model(m, n) && i == j,
        (None, None) => true,
        _ => false,
    }
}

/// Two models to start from are the same.
pub open spec fn same_start(a: Option<TwostepModel>, b: Option<TwostepModel>) -> bool {
    match (a, b) {
        (Some(m), Some(n)) => same_model(m, n),
        (None, None) => true,
        _ => false,
    }
}

proof fn lemma_same_start(
    a: TwostepState,
    b: TwostepState,
    from: Option<TwostepModel>,
    other: Option<TwostepModel>,
    gamma_init: Option<Seq<u64>>,
    y: &Matrix<u64>,
    z: &Matrix<u64>,
    n_cov: nat,
)
    requires
        starts_from(a, from, gamma_init, y, n_cov),
        starts_from(b, other, gamma_init, z, n_cov),
        same_start(from, other),
        y.rows == z.rows,
        y.cols == z.cols,
    ensures
        same_state(a, b),
{
    assert(same_values(&a.residual, &b.residual)) by {
        assert forall|t: usize, i: usize| t < y.rows && i < y.cols implies #[trigger] a.residual.at(
            t as int,
            i as int,
        ) == b.residual.at(t as int, i as int) by {
            assert(b.residual.at(t as int, i as int) == bits::ZERO);
        }
    }
    lemma_same_data(&a.residual, &b.residual);
    assert(same_values(&a.target, &b.target)) by {
        assert forall|t: usize, i: usize| t < y.rows && i < y.cols implies #[trigger] a.target.at(
            t as int,
            i as int,
        ) == b.target.at(t as int, i as int) by {
            assert(b.target.at(t as int, i as int) == bits::ZERO);
        }
    }
    lemma_same_data(&a.target, &b.target);
    assert(same_values(&a.momentum.previous, &b.momentum.previous)) by {
        assert forall|t: usize, i: usize|
            t < y.rows && i < y.cols implies #[trigger] a.momentum.previous.at(t as int, i as int)
            == b.momentum.previous.at(t as int, i as int) by {
            assert(b.momentum.previous.at(t as int, i as int) == bits::ZERO);
        }
    }
    lemma_same_data(&a.momentum.previous, &b.momentum.previous);
    if from is None {
        assert(same_values(&a.model.l, &b.model.l)) by {
            assert forall|t: usize, i: usize|
                t < y.rows && i < y.cols implies #[trigger] a.model.l.at(t as int, i as int)
                == b.model.l.at(t as int, i as int) by {
                assert(b.model.l.at(t as int, i as int) == bits::ZERO);
            }
        }
        lemma_same_data(&a.model.l, &b.model.l);
    }
}

proof fn lemma_one_end<
    R: PairSummary,
    T: TimeDecay,
    U: Binary,
    P: Binary,
    B: Binary,
    Z: Summary,
    O: Dot,
    C: WeightedMean,
    Q: CovariateFit,
    F: TwostepProximal,
    E: CellEffect<TwostepModel>,
    S: Binary,
>(
    p: &TwostepProblem,
    q: &TwostepProblem,
    a: Totals,
    b: Totals,
    settings: FitSettings,
    i: TwostepState,
    j: TwostepState,
    steps: Seq<TwostepStep>,
    others: Seq<TwostepStep>,
    method: &TwostepMethod<R, T, U, P, B, Z, O, C, Q, F, E, S>,
)
    requires
        same_problem(*p, *q),
        same_shape(&p.y, &p.support),
        a.units@ == b.units@,
        a.periods@ == b.periods@,
        same_state(i, j),
        method.ran(p, a, settings, i, steps),
        method.ran(q, b, settings, j, others),
        ended(twostep_at(settings, steps)),
        ended(twostep_at(settings, others)),
        method.steady(),
    ensures
        twostep_at(settings, steps) == twostep_at(settings, others),
        same_model(twostep_state_at(i, steps).model, twostep_state_at(j, others).model),
{
    let n = if steps.len() <= others.len() {
        steps.len() as int
    } else {
        others.len() as int
    };
    lemma_one_trace(p, q, a, b, settings, i, j, steps, others, n, method);
    if steps.len() <= others.len() {
        assert(steps.take(n) =~= steps);
        lemma_ended_runs_no_further(q, b, settings, j, others, n, method);
        assert(others.take(n) =~= others);
    } else {
        assert(others.take(n) =~= others);
        lemma_ended_runs_no_further(p, a, settings, i, steps, n, method);
    }
}

proof fn lemma_ended_runs_no_further<
    R: PairSummary,
    T: TimeDecay,
    U: Binary,
    P: Binary,
    B: Binary,
    Z: Summary,
    O: Dot,
    C: WeightedMean,
    Q: CovariateFit,
    F: TwostepProximal,
    E: CellEffect<TwostepModel>,
    S: Binary,
>(
    problem: &TwostepProblem,
    totals: Totals,
    settings: FitSettings,
    start: TwostepState,
    steps: Seq<TwostepStep>,
    n: int,
    method: &TwostepMethod<R, T, U, P, B, Z, O, C, Q, F, E, S>,
)
    requires
        method.ran(problem, totals, settings, start, steps),
        0 <= n <= steps.len(),
        ended(twostep_at(settings, steps.take(n))),
    ensures
        n == steps.len(),
{
    if n < steps.len() {
        let step = steps[n];
        assert(method.carries_out(
            problem,
            totals,
            twostep_at(settings, steps.take(n)),
            twostep_state_at(start, steps.take(n)),
            step,
        ));
    }
}

spec fn ended(f: TwostepFit) -> bool {
    f.phase == TwostepPhase::Done || f.phase == TwostepPhase::Failed
}

/// A fit is determined by its data: the same panel, weights, penalty and
/// starting model give the same model after the same iterations.
pub proof fn law_one_model<
    R: PairSummary,
    T: TimeDecay,
    U: Binary,
    P: Binary,
    B: Binary,
    Z: Summary,
    O: Dot,
    C: WeightedMean,
    Q: CovariateFit,
    F: TwostepProximal,
    E: CellEffect<TwostepModel>,
    S: Binary,
>(
    r: Option<(TwostepModel, Iterations)>,
    s: Option<(TwostepModel, Iterations)>,
    y: &Matrix<u64>,
    z: &Matrix<u64>,
    x: Option<&Matrix<u64>>,
    v: Option<&Matrix<u64>>,
    mask: &Matrix<u8>,
    other: &Matrix<u8>,
    w: &Matrix<u64>,
    u: &Matrix<u64>,
    exclude: Option<(usize, usize)>,
    lambda_nn: u64,
    from: Option<TwostepModel>,
    begin: Option<TwostepModel>,
    gamma_init: Option<Seq<u64>>,
    method: &TwostepMethod<R, T, U, P, B, Z, O, C, Q, F, E, S>,
)
    requires
        method.fitted(r, y, x, mask, w, exclude, lambda_nn, from, gamma_init),
        method.fitted(s, z, v, other, u, exclude, lambda_nn, begin, gamma_init),
        same_values(y, z),
        same_columns(x, v),
        x matches Some(m) ==> m.wf(),
        v matches Some(m) ==> m.wf(),
        same_values(mask, other),
        mask.rows == y.rows,
        mask.cols == y.cols,
        same_values(w, u),
        w.rows == y.rows,
        w.cols == y.cols,
        same_start(from, begin),
        method.steady(),
    ensures
        same_fit(r, s),
{
    let settings = method.settings(lambda_nn, x is Some);
    let (p, a, i, steps) = choose|
        problem: TwostepProblem,
        totals: Totals,
        start: TwostepState,
        steps: Seq<TwostepStep>,
    |
        {
            let s = method.settings(lambda_nn, x is Some);
            &&& problem.poses(y, x, mask, w, exclude, lambda_nn)
            &&& method.totals(totals, &problem.weights)
            &&& starts_from(start, from, gamma_init, y, covariate_count(x))
            &&& #[trigger] method.ran(
                &problem,
                totals,
                method.settings(lambda_nn, x is Some),
                start,
                steps,
            )
            &&& twostep_at(s, steps).phase == TwostepPhase::Done || twostep_at(s, steps).phase
                == TwostepPhase::Failed
            &&& r == fit_outcome(
                twostep_at(s, steps).phase == TwostepPhase::Failed,
                twostep_state_at(start, steps).model,
                twostep_at(s, steps).iterations,
            )
        };
    let (q, b, j, others) = choose|
        problem: TwostepProblem,
        totals: Totals,
        start: TwostepState,
        steps: Seq<TwostepStep>,
    |
        {
            let t = method.settings(lambda_nn, v is Some);
            &&& problem.poses(z, v, other, u, exclude, lambda_nn)
            &&& method.totals(totals, &problem.weights)
            &&& starts_from(start, begin, gamma_init, z, covariate_count(v))
            &&& #[trigger] method.ran(
                &problem,
                totals,
                method.settings(lambda_nn, v is Some),
                start,
                steps,
            )
            &&& twostep_at(t, steps).phase == TwostepPhase::Done || twostep_at(t, steps).phase
                == TwostepPhase::Failed
            &&& s == fit_outcome(
                twostep_at(t, steps).phase == TwostepPhase::Failed,
                twostep_state_at(start, steps).model,
                twostep_at(t, steps).iterations,
            )
        };
    lemma_same_problem(p, q, y, z, x, v, mask, other, w, u, exclude, lambda_nn);
    lemma_same_totals(a, b, &p.weights, &q.weights, method);
    lemma_same_start(i, j, from, begin, gamma_init, y, z, covariate_count(x));
    lemma_one_end(&p, &q, a, b, settings, i, j, steps, others, method);
}

/// The fit for a cell is determined by the data of the panel.
pub proof fn law_one_fit<
    R: PairSummary,
    T: TimeDecay,
    U: Binary,
    P: Binary,
    B: Binary,
    Z: Summary,
    O: Dot,
    C: WeightedMean,
    Q: CovariateFit,
    F: TwostepProximal,
    E: CellEffect<TwostepModel>,
    S: Binary,
>(
    r: Option<(TwostepModel, Iterations)>,
    s: Option<(TwostepModel, Iterations)>,
    p: &TwostepPanel,
    q: &TwostepPanel,
    lambdas: Lambdas,
    cell: (usize, usize),
    exclude: Option<(usize, usize)>,
    from: Option<TwostepModel>,
    begin: Option<TwostepModel>,
    method: &TwostepMethod<R, T, U, P, B, Z, O, C, Q, F, E, S>,
)
    requires
        same_panel(p, q),
        p.has(cell),
        method.fits(r, p, lambdas, cell, exclude, from),
        method.fits(s, q, lambdas, cell, exclude, begin),
        same_start(from, begin),
        method.steady(),
    ensures
        same_fit(r, s),
{
    reveal(TwostepMethod::steady);
    let w = choose|w: Matrix<u64>| #[trigger]
        method.weighs(&w, p, lambdas, cell) && method.fitted(
            r,
            p.y,
            p.x,
            p.control_mask,
            &w,
            exclude,
            lambdas.nn,
            from,
            None,
        );
    let u = choose|w: Matrix<u64>| #[trigger]
        method.weighs(&w, q, lambdas, cell) && method.fitted(
            s,
            q.y,
            q.x,
            q.control_mask,
            &w,
            exclude,
            lambdas.nn,
            begin,
            None,
        );
    lemma_same_cache(p, q);
    law_one_weight_table(
        &w,
        &u,
        p.cache,
        q.cache,
        p.y,
        p.d,
        cell,
        lambdas,
        p.time_dist,
        *method.rms,
        *method.time_decay,
        *method.unit_decay,
        *method.multiply,
    );
    lemma_weights_shape(&w, p, lambdas, cell, method);
    law_one_model(
        r,
        s,
        p.y,
        q.y,
        p.x,
        q.x,
        p.control_mask,
        q.control_mask,
        &w,
        &u,
        exclude,
        lambdas.nn,
        from,
        begin,
        None,
        method,
    );
}

proof fn lemma_weights_shape<
    R: PairSummary,
    T: TimeDecay,
    U: Binary,
    P: Binary,
    B: Binary,
    Z: Summary,
    O: Dot,
    C: WeightedMean,
    Q: CovariateFit,
    F: TwostepProximal,
    E: CellEffect<TwostepModel>,
    S: Binary,
>(
    w: &Matrix<u64>,
    panel: &TwostepPanel,
    lambdas: Lambdas,
    cell: (usize, usize),
    method: &TwostepMethod<R, T, U, P, B, Z, O, C, Q, F, E, S>,
)
    requires
        panel.wf(),
        method.weighs(w, panel, lambdas, cell),
    ensures
        w.rows == panel.y.rows,
        w.cols == panel.y.cols,
{
}

proof fn lemma_same_cache(p: &TwostepPanel, q: &TwostepPanel)
    requires
        same_panel(p, q),
    ensures
        q.cache.caches(p.y, p.d),
{
    assert forall|t: usize, i: usize| t < p.y.rows && i < p.y.cols implies #[trigger] q.cache.y.at(
        t as int,
        i as int,
    ) == sanitized(p.y.at(t as int, i as int)) by {
        assert(p.y.at(t as int, i as int) == q.y.at(t as int, i as int));
    }
    assert forall|t: usize, i: usize|
        t < p.y.rows && i < p.y.cols implies #[trigger] q.cache.valid.at(t as int, i as int)
        == observed_untreated(p.y, p.d, t as int, i as int) by {
        assert(p.y.at(t as int, i as int) == q.y.at(t as int, i as int));
        assert(p.d.at(t as int, i as int) == q.d.at(t as int, i as int));
    }
}

/// Two outcomes with a number are the same: both failed, or both gave the same
/// model and the same number.
pub open spec fn same_outcome(
    a: Option<(TwostepModel, u64)>,
    b: Option<(TwostepModel, u64)>,
) -> bool {
    match (a, b) {
        (Some((m, u)), Some((n, v))) => same_model(m, n) && u == v,
        (None, None) => true,
        _ => false,
    }
}

/// The effect of a cell is determined by the data of the panel.
pub proof fn law_one_estimate<
    R: PairSummary,
    T: TimeDecay,
    U: Binary,
    P: Binary,
    B: Binary,
    Z: Summary,
    O: Dot,
    C: WeightedMean,
    Q: CovariateFit,
    F: TwostepProximal,
    E: CellEffect<TwostepModel>,
    S: Binary,
>(
    r: Option<(TwostepModel, u64)>,
    s: Option<(TwostepModel, u64)>,
    p: &TwostepPanel,
    q: &TwostepPanel,
    lambdas: Lambdas,
    cell: (usize, usize),
    from: Option<TwostepModel>,
    begin: Option<TwostepModel>,
    method: &TwostepMethod<R, T, U, P, B, Z, O, C, Q, F, E, S>,
)
    requires
        same_panel(p, q),
        p.has(cell),
        method.estimates(r, p, lambdas, cell, from),
        method.estimates(s, q, lambdas, cell, begin),
        same_start(from, begin),
        method.steady(),
    ensures
        same_outcome(r, s),
{
    reveal(TwostepMethod::steady);
    let f = choose|fit: Option<(TwostepModel, Iterations)>|
        {
            &&& #[trigger] method.fits(fit, p, lambdas, cell, None, from)
            &&& match fit {
                Some((model, it)) => r matches Some((kept, tau)) && kept == model && call_ensures(
                    *method.effect,
                    (p.y, p.x, &model, cell),
                    tau,
                ),
                None => r is None,
            }
        };
    let g = choose|fit: Option<(TwostepModel, Iterations)>|
        {
            &&& #[trigger] method.fits(fit, q, lambdas, cell, None, begin)
            &&& match fit {
                Some((model, it)) => s matches Some((kept, tau)) && kept == model && call_ensures(
                    *method.effect,
                    (q.y, q.x, &model, cell),
                    tau,
                ),
                None => s is None,
            }
        };
    law_one_fit(f, g, p, q, lambdas, cell, None, from, begin, method);
    assert(same_columns(p.x, q.x));
}

/// What leaving out a cell gives is determined by the data of the panel.
pub proof fn law_one_score<
    R: PairSummary,
    T: TimeDecay,
    U: Binary,
    P: Binary,
    B: Binary,
    Z: Summary,
    O: Dot,
    C: WeightedMean,
    Q: CovariateFit,
    F: TwostepProximal,
    E: CellEffect<TwostepModel>,
    S: Binary,
>(
    r: Option<(TwostepModel, u64)>,
    s: Option<(TwostepModel, u64)>,
    p: &TwostepPanel,
    q: &TwostepPanel,
    lambdas: Lambdas,
    cell: (usize, usize),
    from: Option<TwostepModel>,
    begin: Option<TwostepModel>,
    sum: u64,
    method: &TwostepMethod<R, T, U, P, B, Z, O, C, Q, F, E, S>,
)
    requires
        same_panel(p, q),
        p.has(cell),
        method.scores(r, p, lambdas, cell, from, sum),
        method.scores(s, q, lambdas, cell, begin, sum),
        same_start(from, begin),
        method.steady(),
    ensures
        same_outcome(r, s),
{
    reveal(TwostepMethod::steady);
    let f = choose|fit: Option<(TwostepModel, Iterations)>|
        {
            &&& #[trigger] method.fits(fit, p, lambdas, cell, Some(cell), from)
            &&& match fit {
                Some((model, it)) => r matches Some((kept, total)) && kept == model && exists|
                    tau: u64,
                |
                    {
                        &&& #[trigger] call_ensures(*method.effect, (p.y, p.x, &model, cell), tau)
                        &&& call_ensures(*method.add_square, (sum, tau), total)
                    },
                None => r is None,
            }
        };
    let g = choose|fit: Option<(TwostepModel, Iterations)>|
        {
            &&& #[trigger] method.fits(fit, q, lambdas, cell, Some(cell), begin)
            &&& match fit {
                Some((model, it)) => s matches Some((kept, total)) && kept == model && exists|
                    tau: u64,
                |
                    {
                        &&& #[trigger] call_ensures(*method.effect, (q.y, q.x, &model, cell), tau)
                        &&& call_ensures(*method.add_square, (sum, tau), total)
                    },
                None => s is None,
            }
        };
    law_one_fit(f, g, p, q, lambdas, cell, Some(cell), from, begin, method);
    assert(same_columns(p.x, q.x));
    if let (Some((m, i)), Some((n, j))) = (f, g) {
        if let (Some((k, total)), Some((l, other))) = (r, s) {
            let u = choose|tau: u64|
                {
                    &&& #[trigger] call_ensures(*method.effect, (p.y, p.x, &m, cell), tau)
                    &&& call_ensures(*method.add_square, (sum, tau), total)
                };
            let v = choose|tau: u64|
                {
                    &&& #[trigger] call_ensures(*method.effect, (q.y, q.x, &n, cell), tau)
                    &&& call_ensures(*method.add_square, (sum, tau), other)
                };
            assert(u == v);
        }
    }
}

} // verus!

//! Fits of the joint method are determined by their data.
//!
//! Where every supplied function gives one result for the same arguments, the
//! same panel and parameters lead to the same weights and the same model.
use crate::arithmetic::{
    Binary, CellEffect, DoubledDecay, PairSummary, Solver, Summary, Ternary, Unary,
};
use crate::bits;
use crate::determined::{
    lemma_listed_alike, lemma_one_difference, lemma_one_listing, lemma_same_data, one_number,
    one_pair_summary, one_sum, same_columns, same_covariate_tables, same_momentum, same_values,
};
use crate::distance::sanitized;
use crate::estimation::{
    regression_values, Changes, Column, Design, Iterations, JointCoefficients, WEIGHT_SUM_TOL,
};
use crate::fit::{FitEvent, FitSettings, JointFit, JointPhase};
use crate::joint::{
    changed_by, is_difference, joint_at, joint_carries_out, joint_ran, jointly_fitted, same_table,
    solves, starts_at_zero, state_at, JointMethod, JointModel, JointProblem, JointState, JointStep,
    Momentum, ProximalStep,
};
use crate::kernels::{
    averages_period, combines, deviates, gives_kernel, is_trajectory, weighs_jointly,
};
use crate::matrix::{offset, Matrix};
use crate::model::{
    design_of, fit_outcome, is_zero_like, regressed, solution_gives, Regression,
};
use crate::panel::{ever_treated, same_shape, treated};
use crate::tuning::{without_low_rank, Lambdas};
use crate::weights::{joint_kernel, lists_overlap, lists_trajectory, pre_periods};
use vstd::arithmetic::div_mod::{lemma_div_pos_is_pos, lemma_fundamental_div_mod};
use vstd::prelude::*;

verus! {

/// The same number always gives the same number.
pub open spec fn one_image<Q: Unary>(f: Q) -> bool {
    forall|a: u64, u: u64, v: u64| #[trigger]
        call_ensures(f, (a,), u) && #[trigger] call_ensures(f, (a,), v) ==> u == v
}

/// The same three numbers always give the same number.
pub open spec fn one_combination<C: Ternary>(f: C) -> bool {
    forall|a: u64, b: u64, c: u64, u: u64, v: u64| #[trigger]
        call_ensures(f, (a, b, c), u) && #[trigger] call_ensures(f, (a, b, c), v) ==> u == v
}

/// The same distance in periods always gives the same weight.
pub open spec fn one_doubled_weight<T: DoubledDecay>(f: T) -> bool {
    forall|a: u64, b: u128, u: u64, v: u64| #[trigger]
        call_ensures(f, (a, b), u) && #[trigger] call_ensures(f, (a, b), v) ==> u == v
}

/// Two solutions, where there are any, hold the same numbers.
pub open spec fn same_solution(a: Option<Vec<u64>>, b: Option<Vec<u64>>) -> bool {
    match (a, b) {
        (Some(u), Some(v)) => u@ == v@,
        (None, None) => true,
        _ => false,
    }
}

/// The same least-squares problem always has the same solution.
pub open spec fn one_solution<L: Solver>(f: L) -> bool {
    forall|
        a: Vec<u64>,
        b: Vec<u64>,
        g: Vec<u64>,
        h: Vec<u64>,
        n: usize,
        p: usize,
        u: Option<Vec<u64>>,
        v: Option<Vec<u64>>,
    |
        a@ == b@ && g@ == h@ && #[trigger] call_ensures(f, (&a, &g, n, p), u)
            && #[trigger] call_ensures(f, (&b, &h, n, p), v) ==> same_solution(u, v)
}

/// Two joint problems hold the same data.
pub open spec fn same_joint_problem(p: JointProblem, q: JointProblem) -> bool {
    &&& same_table(&p.y, &q.y)
    &&& same_table(&p.weights, &q.weights)
    &&& same_covariate_tables(p.x, q.x)
    &&& p.largest == q.largest
    &&& p.lambda_nn == q.lambda_nn
}

/// Two sets of coefficients hold the same numbers.
pub open spec fn same_coefficients(a: JointCoefficients, b: JointCoefficients) -> bool {
    &&& a.mu == b.mu
    &&& a.alpha@ == b.alpha@
    &&& a.beta@ == b.beta@
    &&& same_solution(a.gamma, b.gamma)
}

/// Two joint models hold the same numbers.
pub open spec fn same_joint_model(a: JointModel, b: JointModel) -> bool {
    same_coefficients(a.coefficients, b.coefficients) && same_table(&a.l, &b.l)
}

/// The same problem, model and momentum always give the same step.
pub open spec fn one_joint_step<F: ProximalStep>(f: F) -> bool {
    forall|
        p: JointProblem,
        q: JointProblem,
        fresh: bool,
        a: JointCoefficients,
        b: JointCoefficients,
        g: Matrix<u64>,
        h: Matrix<u64>,
        l: Matrix<u64>,
        k: Matrix<u64>,
        m: Momentum,
        n: Momentum,
        u: (Matrix<u64>, Momentum, FitEvent),
        v: (Matrix<u64>, Momentum, FitEvent),
    |
        same_joint_problem(p, q) && same_coefficients(a, b) && same_table(&g, &h) && same_table(
            &l,
            &k,
        ) && same_momentum(m, n) && #[trigger] call_ensures(f, (&p, fresh, &a, &g, &l, &m), u)
            && #[trigger] call_ensures(f, (&q, fresh, &b, &h, &k, &n), v) ==> same_table(
            &u.0,
            &v.0,
        ) && same_momentum(u.1, v.1) && u.2 == v.2
}

/// The same panel, joint model and cell always have the same effect.
pub open spec fn one_joint_effect<E: CellEffect<JointModel>>(f: E) -> bool {
    forall|
        y: &Matrix<u64>,
        z: &Matrix<u64>,
        x: Option<&Matrix<u64>>,
        w: Option<&Matrix<u64>>,
        m: JointModel,
        n: JointModel,
        cell: (usize, usize),
        u: u64,
        v: u64,
    |
        same_values(y, z) && same_columns(x, w) && same_joint_model(m, n) && #[trigger] call_ensures(
            f,
            (y, x, &m, cell),
            u,
        ) && #[trigger] call_ensures(f, (z, w, &n, cell), v) ==> u == v
}

impl<
    'a,
    A: Summary,
    R: PairSummary,
    T: DoubledDecay,
    U: Binary,
    C: Ternary,
    S: Binary,
    Z: Summary,
    Q: Unary,
    P: Binary,
    L: Solver,
    F: ProximalStep,
    E: CellEffect<JointModel>,
    D: Binary,
> JointMethod<'a, A, R, T, U, C, S, Z, Q, P, L, F, E, D> {
    /// Every supplied function gives one result for the same arguments.
    #[verifier::opaque]
    pub open spec fn steady(&self) -> bool {
        &&& one_sum(*self.mean)
        &&& one_pair_summary(*self.rms)
        &&& one_doubled_weight(*self.time_decay)
        &&& one_number(*self.unit_decay)
        &&& one_combination(*self.combine)
        &&& one_number(*self.subtract)
        &&& one_sum(*self.sum)
        &&& one_image(*self.root)
        &&& one_number(*self.multiply)
        &&& one_solution(*self.solve)
        &&& one_joint_step(*self.proximal)
        &&& one_joint_effect(*self.effect)
        &&& one_number(*self.add_square)
    }
}

proof fn lemma_one_period_average<A: Summary>(
    u: u64,
    v: u64,
    y: &Matrix<u64>,
    z: &Matrix<u64>,
    d: &Matrix<u64>,
    e: &Matrix<u64>,
    t: usize,
    mean: A,
)
    requires
        same_table(y, z),
        same_table(d, e),
        averages_period(u, y, d, t, mean),
        averages_period(v, z, e, t, mean),
        one_sum(mean),
    ensures
        u == v,
{
    let a = choose|units: Seq<usize>|
        {
            &&& #[trigger] lists_trajectory(units, y, d, t)
            &&& if units.len() == 0 {
                u == bits::NAN
            } else {
                exists|values: Vec<u64>|
                    values@ == Seq::new(units.len(), |k: int| y.at(t as int, units[k] as int))
                        && #[trigger] call_ensures(mean, (&values,), u)
            }
        };
    let b = choose|units: Seq<usize>|
        {
            &&& #[trigger] lists_trajectory(units, z, e, t)
            &&& if units.len() == 0 {
                v == bits::NAN
            } else {
                exists|values: Vec<u64>|
                    values@ == Seq::new(units.len(), |k: int| z.at(t as int, units[k] as int))
                        && #[trigger] call_ensures(mean, (&values,), v)
            }
        };
    let p = |i: int| ever_treated(d, i) && bits::finite(y.at(t as int, i));
    let q = |i: int| ever_treated(e, i) && bits::finite(z.at(t as int, i));
    assert forall|i: int| 0 <= i < y.cols implies #[trigger] q(i) == p(i) by {
        lemma_treated_alike(d, e, i);
    }
    lemma_listed_alike(b, y.cols as int, q, p);
    lemma_one_listing(a, b, y.cols as int, p);
    assert(Seq::new(a.len(), |k: int| y.at(t as int, a[k] as int)) =~= Seq::new(
        b.len(),
        |k: int| z.at(t as int, b[k] as int),
    ));
}

proof fn lemma_treated_alike(d: &Matrix<u64>, e: &Matrix<u64>, i: int)
    requires
        same_table(d, e),
    ensures
        ever_treated(d, i) == ever_treated(e, i),
{
    if ever_treated(d, i) {
        let t = choose|t: int| 0 <= t < d.rows && #[trigger] treated(d, t, i);
        assert(treated(e, t, i));
    }
    if ever_treated(e, i) {
        let t = choose|t: int| 0 <= t < e.rows && #[trigger] treated(e, t, i);
        assert(treated(d, t, i));
    }
}

proof fn lemma_one_deviation<R: PairSummary>(
    u: u64,
    v: u64,
    y: &Matrix<u64>,
    z: &Matrix<u64>,
    average: Seq<u64>,
    other: Seq<u64>,
    n_pre: usize,
    i: usize,
    rms: R,
)
    requires
        same_table(y, z),
        forall|t: int| 0 <= t < n_pre ==> #[trigger] average[t] == other[t],
        deviates(u, y, average, n_pre, i, rms),
        deviates(v, z, other, n_pre, i, rms),
        one_pair_summary(rms),
    ensures
        u == v,
{
    let a = choose|periods: Seq<usize>|
        {
            &&& #[trigger] lists_overlap(periods, y, average, n_pre, i)
            &&& if periods.len() == 0 {
                u == bits::INFINITY
            } else {
                exists|pairs: Vec<(u64, u64)>|
                    pairs@ == Seq::new(
                        periods.len(),
                        |k: int| (average[periods[k] as int], y.at(periods[k] as int, i as int)),
                    ) && #[trigger] call_ensures(rms, (&pairs,), u)
            }
        };
    let b = choose|periods: Seq<usize>|
        {
            &&& #[trigger] lists_overlap(periods, z, other, n_pre, i)
            &&& if periods.len() == 0 {
                v == bits::INFINITY
            } else {
                exists|pairs: Vec<(u64, u64)>|
                    pairs@ == Seq::new(
                        periods.len(),
                        |k: int| (other[periods[k] as int], z.at(periods[k] as int, i as int)),
                    ) && #[trigger] call_ensures(rms, (&pairs,), v)
            }
        };
    let p = |t: int| bits::finite(y.at(t, i as int)) && bits::finite(average[t]);
    let q = |t: int| bits::finite(z.at(t, i as int)) && bits::finite(other[t]);
    assert forall|t: int| 0 <= t < n_pre implies #[trigger] q(t) == p(t) by {
        assert(average[t] == other[t]);
    }
    lemma_listed_alike(b, n_pre as int, q, p);
    lemma_one_listing(a, b, n_pre as int, p);
    assert(Seq::new(
        a.len(),
        |k: int| (average[a[k] as int], y.at(a[k] as int, i as int)),
    ) =~= Seq::new(b.len(), |k: int| (other[b[k] as int], z.at(b[k] as int, i as int)))) by {
        assert forall|k: int| 0 <= k < a.len() implies average[#[trigger] a[k] as int]
            == other[a[k] as int] by {}
    }
}

/// The period and unit weights of a panel are determined by its data.
pub proof fn law_one_pair_of_weight_vectors<
    A: Summary,
    R: PairSummary,
    T: DoubledDecay,
    U: Binary,
    C: Ternary,
    S: Binary,
    Z: Summary,
    Q: Unary,
    P: Binary,
    L: Solver,
    F: ProximalStep,
    E: CellEffect<JointModel>,
    D: Binary,
>(
    v: (Vec<u64>, Vec<u64>),
    w: (Vec<u64>, Vec<u64>),
    y: &Matrix<u64>,
    z: &Matrix<u64>,
    d: &Matrix<u64>,
    e: &Matrix<u64>,
    lambda_time: u64,
    lambda_unit: u64,
    treated_periods: usize,
    method: &JointMethod<A, R, T, U, C, S, Z, Q, P, L, F, E, D>,
)
    requires
        same_table(y, z),
        same_table(d, e),
        weighs_jointly(
            v,
            y,
            d,
            lambda_time,
            lambda_unit,
            treated_periods,
            *method.mean,
            *method.rms,
            *method.time_decay,
            *method.unit_decay,
        ),
        weighs_jointly(
            w,
            z,
            e,
            lambda_time,
            lambda_unit,
            treated_periods,
            *method.mean,
            *method.rms,
            *method.time_decay,
            *method.unit_decay,
        ),
        method.steady(),
    ensures
        v.0@ == w.0@,
        v.1@ == w.1@,
{
    reveal(JointMethod::steady);
    let n_pre = pre_periods(y.rows, treated_periods);
    assert forall|t: int| 0 <= t < y.rows implies v.0@[t] == w.0@[t] by {}
    assert(v.0@ =~= w.0@);
    let (a, p) = choose|average: Seq<u64>, distances: Seq<u64>|
        {
            &&& #[trigger] is_trajectory(average, y, d, n_pre, *method.mean)
            &&& #[trigger] distances.len() == y.cols
            &&& forall|i: usize|
                i < y.cols ==> deviates(
                    #[trigger] distances[i as int],
                    y,
                    average,
                    n_pre,
                    i,
                    *method.rms,
                ) && gives_kernel(
                    v.1@[i as int],
                    joint_kernel(n_pre, distances[i as int]),
                    lambda_unit,
                    *method.unit_decay,
                )
        };
    let (b, q) = choose|average: Seq<u64>, distances: Seq<u64>|
        {
            &&& #[trigger] is_trajectory(average, z, e, n_pre, *method.mean)
            &&& #[trigger] distances.len() == z.cols
            &&& forall|i: usize|
                i < z.cols ==> deviates(
                    #[trigger] distances[i as int],
                    z,
                    average,
                    n_pre,
                    i,
                    *method.rms,
                ) && gives_kernel(
                    w.1@[i as int],
                    joint_kernel(n_pre, distances[i as int]),
                    lambda_unit,
                    *method.unit_decay,
                )
        };
    assert forall|t: int| 0 <= t < n_pre implies #[trigger] a[t] == b[t] by {
        let s = t as usize;
        assert(averages_period(a[s as int], y, d, s, *method.mean));
        assert(averages_period(b[s as int], z, e, s, *method.mean));
        lemma_one_period_average(a[t], b[t], y, z, d, e, s, *method.mean);
    }
    assert forall|i: int| 0 <= i < y.cols implies v.1@[i] == w.1@[i] by {
        let j = i as usize;
        assert(deviates(p[j as int], y, a, n_pre, j, *method.rms));
        assert(deviates(q[j as int], z, b, n_pre, j, *method.rms));
        lemma_one_deviation(p[i], q[i], y, z, a, b, n_pre, j, *method.rms);
    }
    assert(v.1@ =~= w.1@);
}

/// The joint weights of a panel are determined by its data.
pub proof fn law_one_joint_weight_table<
    A: Summary,
    R: PairSummary,
    T: DoubledDecay,
    U: Binary,
    C: Ternary,
    S: Binary,
    Z: Summary,
    Q: Unary,
    P: Binary,
    L: Solver,
    F: ProximalStep,
    E: CellEffect<JointModel>,
    D: Binary,
>(
    v: &Matrix<u64>,
    w: &Matrix<u64>,
    y: &Matrix<u64>,
    z: &Matrix<u64>,
    d: &Matrix<u64>,
    e: &Matrix<u64>,
    lambdas: Lambdas,
    treated_periods: usize,
    method: &JointMethod<A, R, T, U, C, S, Z, Q, P, L, F, E, D>,
)
    requires
        same_table(y, z),
        same_table(d, e),
        method.weighs(v, y, d, lambdas, treated_periods),
        method.weighs(w, z, e, lambdas, treated_periods),
        method.steady(),
    ensures
        same_table(v, w),
        same_shape(v, d),
{
    reveal(JointMethod::steady);
    let a = choose|vectors: (Vec<u64>, Vec<u64>)| #[trigger]
        weighs_jointly(
            vectors,
            y,
            d,
            lambdas.time,
            lambdas.unit,
            treated_periods,
            *method.mean,
            *method.rms,
            *method.time_decay,
            *method.unit_decay,
        ) && combines(v, vectors.0@, vectors.1@, d, *method.combine);
    let b = choose|vectors: (Vec<u64>, Vec<u64>)| #[trigger]
        weighs_jointly(
            vectors,
            z,
            e,
            lambdas.time,
            lambdas.unit,
            treated_periods,
            *method.mean,
            *method.rms,
            *method.time_decay,
            *method.unit_decay,
        ) && combines(w, vectors.0@, vectors.1@, e, *method.combine);
    law_one_pair_of_weight_vectors(
        a,
        b,
        y,
        z,
        d,
        e,
        lambdas.time,
        lambdas.unit,
        treated_periods,
        method,
    );
    assert forall|t: usize, i: usize| t < v.rows && i < v.cols implies #[trigger] v.at(
        t as int,
        i as int,
    ) == w.at(t as int, i as int) by {
        assert(d.at(t as int, i as int) == e.at(t as int, i as int));
        assert(call_ensures(
            *method.combine,
            (a.0@[t as int], a.1@[i as int], d.at(t as int, i as int)),
            v.at(t as int, i as int),
        ));
        assert(call_ensures(
            *method.combine,
            (b.0@[t as int], b.1@[i as int], e.at(t as int, i as int)),
            w.at(t as int, i as int),
        ));
    }
    lemma_same_data(v, w);
}

proof fn lemma_one_design_matrix(
    a: Seq<u64>,
    b: Seq<u64>,
    design: Design,
    roots: Seq<u64>,
    p: &Matrix<u64>,
    q: &Matrix<u64>,
)
    requires
        design.fills(a, roots, p),
        design.fills(b, roots, q),
        same_table(p, q),
        a.len() <= usize::MAX,
    ensures
        a == b,
{
    let (rows, units, params) = (design.rows(), design.n_units as int, design.params());
    let periods = design.n_periods as int;
    assert forall|k: int| 0 <= k < a.len() implies a[k] == b[k] by {
        assert(rows >= 0) by (nonlinear_arith)
            requires
                rows == periods * units,
                periods >= 0,
                units >= 0,
        ;
        assert(rows > 0 && params > 0) by (nonlinear_arith)
            requires
                0 <= k < params * rows,
                rows >= 0,
        ;
        assert(units > 0 && periods > 0) by (nonlinear_arith)
            requires
                periods * units > 0,
                periods >= 0,
                units >= 0,
        ;
        lemma_fundamental_div_mod(k, rows);
        lemma_div_pos_is_pos(k, rows);
        let (c, r) = (k / rows, k % rows);
        lemma_fundamental_div_mod(r, units);
        lemma_div_pos_is_pos(r, units);
        let (t, i) = (r / units, r % units);
        assert(c < params) by (nonlinear_arith)
            requires
                k < params * rows,
                k == rows * c + r,
                0 <= r,
                rows > 0,
        ;
        assert(t < periods) by (nonlinear_arith)
            requires
                r < periods * units,
                r == units * t + i,
                0 <= i,
                units > 0,
        ;
        assert(params <= params * rows) by (nonlinear_arith)
            requires
                rows > 0,
                params > 0,
        ;
        assert(offset(units, t, i) == r) by (nonlinear_arith)
            requires
                r == units * t + i,
                offset(units, t, i) == t * units + i,
        ;
        assert(offset(rows, c, r) == k) by (nonlinear_arith)
            requires
                k == rows * c + r,
                offset(rows, c, r) == c * rows + r,
        ;
        let (tt, ii, cc) = (t as usize, i as usize, c as usize);
        assert(offset(rows, cc as int, offset(units, tt as int, ii as int)) == k);
        assert(Seq::new(design.n_cov as nat, |j: int| p.at(offset(units, t, i), j)) =~= Seq::new(
            design.n_cov as nat,
            |j: int| q.at(offset(units, t, i), j),
        ));
    }
    assert(a =~= b);
}

proof fn lemma_one_split(
    a: JointCoefficients,
    b: JointCoefficients,
    design: Design,
    solution: Seq<u64>,
)
    requires
        a.splits(design, solution),
        b.splits(design, solution),
        design.n_periods > 0,
        design.n_units > 0,
    ensures
        same_coefficients(a, b),
{
    assert forall|i: int| 0 <= i < design.n_units implies a.alpha@[i] == b.alpha@[i] by {
        if i > 0 {
            assert(design.column(i) == Column::Unit(i));
            assert(a.alpha@[i] == solution[i]);
        }
    }
    assert(a.alpha@ =~= b.alpha@);
    assert forall|t: int| 0 <= t < design.n_periods implies a.beta@[t] == b.beta@[t] by {
        if t > 0 {
            let c = design.n_units - 1 + t;
            assert(design.column(c) == Column::Period(t));
            assert(a.beta@[t] == solution[c]);
        }
    }
    assert(a.beta@ =~= b.beta@);
    if let (Some(g), Some(h)) = (a.gamma, b.gamma) {
        assert forall|p: int| 0 <= p < design.n_cov implies g@[p] == h@[p] by {
            let c = design.n_units + design.n_periods - 1 + p;
            assert(design.column(c) == Column::Covariate(p));
            assert(g@[p] == solution[c]);
        }
        assert(g@ =~= h@);
    }
}

/// Two sets of coefficients, where there are any, hold the same numbers.
pub open spec fn same_outcome(a: Option<JointCoefficients>, b: Option<JointCoefficients>) -> bool {
    match (a, b) {
        (Some(c), Some(e)) => same_coefficients(c, e),
        (None, None) => true,
        _ => false,
    }
}

/// Two tables of covariates are the same, in memory order too.
spec fn same_inputs(a: Option<&Matrix<u64>>, b: Option<&Matrix<u64>>) -> bool {
    match (a, b) {
        (Some(p), Some(q)) => same_table(p, q),
        (None, None) => true,
        _ => false,
    }
}

proof fn lemma_one_regression<Q: Unary, P: Binary>(
    a: Regression,
    b: Regression,
    y: &Matrix<u64>,
    z: &Matrix<u64>,
    delta: &Matrix<u64>,
    other: &Matrix<u64>,
    x: Option<&Matrix<u64>>,
    w: Option<&Matrix<u64>>,
    root: Q,
    multiply: P,
)
    requires
        same_table(y, z),
        same_table(delta, other),
        same_inputs(x, w),
        a.poses(y, delta, x, root, multiply),
        b.poses(z, other, w, root, multiply),
        one_image(root),
        one_number(multiply),
    ensures
        a.matrix@ == b.matrix@,
        a.response@ == b.response@,
{
    let design = design_of(y, x);
    assert(design == design_of(z, w));
    assert(regression_values(y, delta, y.data@) =~= regression_values(z, other, z.data@));
    assert(regression_values(y, delta, delta.data@) =~= regression_values(z, other, other.data@));
    assert forall|k: int| 0 <= k < design.rows() implies a.roots@[k] == b.roots@[k] by {}
    assert(a.roots@ =~= b.roots@);
    assert forall|k: int| 0 <= k < design.rows() implies a.products@[k] == b.products@[k] by {}
    assert(a.products@ =~= b.products@);
    match (x, w) {
        (Some(m), Some(n)) => {
            assert forall|k: usize, p: usize|
                k < a.weighted_x.rows && p < a.weighted_x.cols implies #[trigger] a.weighted_x.at(
                k as int,
                p as int,
            ) == b.weighted_x.at(k as int, p as int) by {
                assert(m.at(k as int, p as int) == n.at(k as int, p as int));
                assert(call_ensures(
                    multiply,
                    (b.roots@[k as int], n.at(k as int, p as int)),
                    b.weighted_x.at(k as int, p as int),
                ));
            }
        },
        _ => {},
    }
    lemma_same_data(&a.weighted_x, &b.weighted_x);
    assert(a.matrix@.len() == a.matrix.len());
    lemma_one_design_matrix(
        a.matrix@,
        b.matrix@,
        design,
        a.roots@,
        &a.weighted_x,
        &b.weighted_x,
    );
}

proof fn lemma_one_solution<T: Summary, Q: Unary, P: Binary, L: Solver>(
    r: Option<JointCoefficients>,
    s: Option<JointCoefficients>,
    y: &Matrix<u64>,
    z: &Matrix<u64>,
    delta: &Matrix<u64>,
    other: &Matrix<u64>,
    x: Option<&Matrix<u64>>,
    w: Option<&Matrix<u64>>,
    sum: T,
    root: Q,
    multiply: P,
    solve: L,
)
    requires
        same_table(y, z),
        y.rows > 0,
        y.cols > 0,
        same_table(delta, other),
        same_inputs(x, w),
        regressed(r, y, delta, x, sum, root, multiply, solve),
        regressed(s, z, other, w, sum, root, multiply, solve),
        one_sum(sum),
        one_image(root),
        one_number(multiply),
        one_solution(solve),
    ensures
        same_outcome(r, s),
{
    let design = design_of(y, x);
    assert(design == design_of(z, w));
    let (n, k) = (design.rows() as usize, design.params() as usize);
    assert(regression_values(y, delta, delta.data@) =~= regression_values(z, other, other.data@));
    let (u, total) = choose|weights: Vec<u64>, total: u64|
        {
            &&& weights@ == regression_values(y, delta, delta.data@)
            &&& #[trigger] call_ensures(sum, (&weights,), total)
            &&& bits::lt(total, WEIGHT_SUM_TOL) ==> r is None
            &&& !bits::lt(total, WEIGHT_SUM_TOL) ==> solved(r, y, delta, x, root, multiply, solve)
        };
    let (v, again) = choose|weights: Vec<u64>, total: u64|
        {
            &&& weights@ == regression_values(z, other, other.data@)
            &&& #[trigger] call_ensures(sum, (&weights,), total)
            &&& bits::lt(total, WEIGHT_SUM_TOL) ==> s is None
            &&& !bits::lt(total, WEIGHT_SUM_TOL) ==> solved(s, z, other, w, root, multiply, solve)
        };
    assert(total == again);
    if !bits::lt(total, WEIGHT_SUM_TOL) {
        let (p, g) = choose|problem: Regression, solution: Option<Vec<u64>>|
            {
                &&& #[trigger] problem.poses(y, delta, x, root, multiply)
                &&& call_ensures(solve, (&problem.matrix, &problem.response, n, k), solution)
                &&& #[trigger] solution_gives(r, design, solution)
            };
        let (q, h) = choose|problem: Regression, solution: Option<Vec<u64>>|
            {
                &&& #[trigger] problem.poses(z, other, w, root, multiply)
                &&& call_ensures(solve, (&problem.matrix, &problem.response, n, k), solution)
                &&& #[trigger] solution_gives(s, design, solution)
            };
        lemma_one_regression(p, q, y, z, delta, other, x, w, root, multiply);
        assert(same_solution(g, h));
        if let (Some(c), Some(e)) = (g, h) {
            lemma_one_split(r->0, s->0, design, c@);
        }
    }
}

spec fn solved<Q: Unary, P: Binary, L: Solver>(
    r: Option<JointCoefficients>,
    y: &Matrix<u64>,
    delta: &Matrix<u64>,
    x: Option<&Matrix<u64>>,
    root: Q,
    multiply: P,
    solve: L,
) -> bool {
    exists|problem: Regression, solution: Option<Vec<u64>>|
        {
            &&& #[trigger] problem.poses(y, delta, x, root, multiply)
            &&& call_ensures(
                solve,
                (
                    &problem.matrix,
                    &problem.response,
                    design_of(y, x).rows() as usize,
                    design_of(y, x).params() as usize,
                ),
                solution,
            )
            &&& #[trigger] solution_gives(r, design_of(y, x), solution)
        }
}

/// Two states of a joint fit hold the same numbers.
pub open spec fn same_joint_state(a: JointState, b: JointState) -> bool {
    &&& same_joint_model(a.model, b.model)
    &&& same_joint_model(a.before, b.before)
    &&& same_momentum(a.momentum, b.momentum)
}

/// The method carries out the phase that a fit is due.
spec fn carries_out<
    A: Summary,
    R: PairSummary,
    T: DoubledDecay,
    U: Binary,
    C: Ternary,
    S: Binary,
    Z: Summary,
    Q: Unary,
    P: Binary,
    L: Solver,
    F: ProximalStep,
    E: CellEffect<JointModel>,
    D: Binary,
>(
    problem: &JointProblem,
    x: Option<&Matrix<u64>>,
    f: JointFit,
    s: JointState,
    step: JointStep,
    method: &JointMethod<A, R, T, U, C, S, Z, Q, P, L, F, E, D>,
) -> bool {
    joint_carries_out(
        problem,
        x,
        f,
        s,
        step,
        *method.subtract,
        *method.sum,
        *method.root,
        *method.multiply,
        *method.solve,
        *method.proximal,
    )
}

/// The method ran the phases of a fit, one after the other.
spec fn ran<
    A: Summary,
    R: PairSummary,
    T: DoubledDecay,
    U: Binary,
    C: Ternary,
    S: Binary,
    Z: Summary,
    Q: Unary,
    P: Binary,
    L: Solver,
    F: ProximalStep,
    E: CellEffect<JointModel>,
    D: Binary,
>(
    problem: &JointProblem,
    x: Option<&Matrix<u64>>,
    settings: FitSettings,
    start: JointState,
    steps: Seq<JointStep>,
    method: &JointMethod<A, R, T, U, C, S, Z, Q, P, L, F, E, D>,
) -> bool {
    joint_ran(
        problem,
        x,
        settings,
        start,
        steps,
        *method.subtract,
        *method.sum,
        *method.root,
        *method.multiply,
        *method.solve,
        *method.proximal,
    )
}

proof fn lemma_one_least_squares<
    A: Summary,
    R: PairSummary,
    T: DoubledDecay,
    U: Binary,
    C: Ternary,
    S: Binary,
    Z: Summary,
    Q: Unary,
    P: Binary,
    L: Solver,
    F: ProximalStep,
    E: CellEffect<JointModel>,
    D: Binary,
>(
    p: &JointProblem,
    q: &JointProblem,
    x: Option<&Matrix<u64>>,
    w: Option<&Matrix<u64>>,
    s: JointState,
    z: JointState,
    a: JointStep,
    b: JointStep,
    method: &JointMethod<A, R, T, U, C, S, Z, Q, P, L, F, E, D>,
)
    requires
        same_joint_problem(*p, *q),
        p.y.rows > 0,
        p.y.cols > 0,
        same_inputs(x, w),
        same_joint_state(s, z),
        solves(
            p,
            x,
            s,
            a,
            *method.subtract,
            *method.sum,
            *method.root,
            *method.multiply,
            *method.solve,
        ),
        solves(
            q,
            w,
            z,
            b,
            *method.subtract,
            *method.sum,
            *method.root,
            *method.multiply,
            *method.solve,
        ),
        method.steady(),
    ensures
        a.event == b.event,
        same_joint_state(a.after, b.after),
{
    reveal(JointMethod::steady);
    let (g, c) = choose|response: Matrix<u64>, c: Option<JointCoefficients>|
        {
            &&& #[trigger] is_difference(&response, &p.y, &s.model.l, *method.subtract)
            &&& #[trigger] regressed(
                c,
                &response,
                &p.weights,
                x,
                *method.sum,
                *method.root,
                *method.multiply,
                *method.solve,
            )
            &&& match c {
                Some(coefficients) => {
                    &&& a.event == FitEvent::Updated
                    &&& a.after.model.coefficients == coefficients
                    &&& a.after.model.l == s.model.l
                    &&& a.after.before.coefficients == s.model.coefficients
                    &&& same_table(&a.after.before.l, &s.model.l)
                    &&& a.after.momentum == s.momentum
                },
                None => a.event == FitEvent::Failed && a.after == s,
            }
        };
    let (h, e) = choose|response: Matrix<u64>, c: Option<JointCoefficients>|
        {
            &&& #[trigger] is_difference(&response, &q.y, &z.model.l, *method.subtract)
            &&& #[trigger] regressed(
                c,
                &response,
                &q.weights,
                w,
                *method.sum,
                *method.root,
                *method.multiply,
                *method.solve,
            )
            &&& match c {
                Some(coefficients) => {
                    &&& b.event == FitEvent::Updated
                    &&& b.after.model.coefficients == coefficients
                    &&& b.after.model.l == z.model.l
                    &&& b.after.before.coefficients == z.model.coefficients
                    &&& same_table(&b.after.before.l, &z.model.l)
                    &&& b.after.momentum == z.momentum
                },
                None => b.event == FitEvent::Failed && b.after == z,
            }
        };
    assert forall|t: usize, i: usize| t < g.rows && i < g.cols implies #[trigger] g.at(
        t as int,
        i as int,
    ) == h.at(t as int, i as int) by {
        assert(call_ensures(
            *method.subtract,
            (q.y.at(t as int, i as int), z.model.l.at(t as int, i as int)),
            h.at(t as int, i as int),
        ));
        assert(p.y.at(t as int, i as int) == q.y.at(t as int, i as int));
        assert(s.model.l.at(t as int, i as int) == z.model.l.at(t as int, i as int));
    }
    lemma_same_data(&g, &h);
    lemma_one_solution(
        c,
        e,
        &g,
        &h,
        &p.weights,
        &q.weights,
        x,
        w,
        *method.sum,
        *method.root,
        *method.multiply,
        *method.solve,
    );
}

proof fn lemma_one_joint_change<S: Binary>(
    c: Changes,
    e: Changes,
    s: JointState,
    z: JointState,
    subtract: S,
)
    requires
        same_joint_state(s, z),
        changed_by(c, s, subtract),
        changed_by(e, z, subtract),
        one_number(subtract),
    ensures
        c == e,
{
    let (now, before) = (s.model.coefficients, s.before.coefficients);
    lemma_one_difference(c.alpha, e.alpha, now.alpha@, before.alpha@, subtract);
    lemma_one_difference(c.beta, e.beta, now.beta@, before.beta@, subtract);
    lemma_one_difference(c.low_rank, e.low_rank, s.model.l.data@, s.before.l.data@, subtract);
}

proof fn lemma_one_phase<
    A: Summary,
    R: PairSummary,
    T: DoubledDecay,
    U: Binary,
    C: Ternary,
    S: Binary,
    Z: Summary,
    Q: Unary,
    P: Binary,
    L: Solver,
    F: ProximalStep,
    E: CellEffect<JointModel>,
    D: Binary,
>(
    p: &JointProblem,
    q: &JointProblem,
    x: Option<&Matrix<u64>>,
    w: Option<&Matrix<u64>>,
    f: JointFit,
    s: JointState,
    z: JointState,
    a: JointStep,
    b: JointStep,
    method: &JointMethod<A, R, T, U, C, S, Z, Q, P, L, F, E, D>,
)
    requires
        same_joint_problem(*p, *q),
        p.y.rows > 0,
        p.y.cols > 0,
        same_inputs(x, w),
        same_joint_state(s, z),
        carries_out(p, x, f, s, a, method),
        carries_out(q, w, f, z, b, method),
        method.steady(),
    ensures
        a.event == b.event,
        same_joint_state(a.after, b.after),
{
    reveal(JointMethod::steady);
    match f.phase {
        JointPhase::Solve | JointPhase::FinalSolve => {
            lemma_one_least_squares(p, q, x, w, s, z, a, b, method);
        },
        JointPhase::Proximal => {
            let u = (a.after.model.l, a.after.momentum, a.event);
            let v = (b.after.model.l, b.after.momentum, b.event);
            assert(call_ensures(
                *method.proximal,
                (p, f.fresh, &s.model.coefficients, &s.before.l, &s.model.l, &s.momentum),
                u,
            ));
            assert(call_ensures(
                *method.proximal,
                (q, f.fresh, &z.model.coefficients, &z.before.l, &z.model.l, &z.momentum),
                v,
            ));
            assert(same_table(&u.0, &v.0) && same_momentum(u.1, v.1) && u.2 == v.2);
        },
        JointPhase::Compare => {
            let c = match a.event {
                FitEvent::Compared(c) => c,
                _ => arbitrary(),
            };
            let e = match b.event {
                FitEvent::Compared(e) => e,
                _ => arbitrary(),
            };
            lemma_one_joint_change(c, e, s, z, *method.subtract);
        },
        _ => {},
    }
}

proof fn lemma_one_joint_trace<
    A: Summary,
    R: PairSummary,
    T: DoubledDecay,
    U: Binary,
    C: Ternary,
    S: Binary,
    Z: Summary,
    Q: Unary,
    P: Binary,
    L: Solver,
    F: ProximalStep,
    E: CellEffect<JointModel>,
    D: Binary,
>(
    p: &JointProblem,
    q: &JointProblem,
    x: Option<&Matrix<u64>>,
    w: Option<&Matrix<u64>>,
    settings: FitSettings,
    s: JointState,
    z: JointState,
    a: Seq<JointStep>,
    b: Seq<JointStep>,
    n: int,
    method: &JointMethod<A, R, T, U, C, S, Z, Q, P, L, F, E, D>,
)
    requires
        same_joint_problem(*p, *q),
        p.y.rows > 0,
        p.y.cols > 0,
        same_inputs(x, w),
        same_joint_state(s, z),
        ran(p, x, settings, s, a, method),
        ran(q, w, settings, z, b, method),
        method.steady(),
        0 <= n <= a.len(),
        n <= b.len(),
    ensures
        joint_at(settings, a.take(n)) == joint_at(settings, b.take(n)),
        same_joint_state(state_at(s, a.take(n)), state_at(z, b.take(n))),
    decreases n,
{
    if n > 0 {
        let k = n - 1;
        lemma_one_joint_trace(p, q, x, w, settings, s, z, a, b, k, method);
        assert(a.take(n).drop_last() =~= a.take(k));
        assert(b.take(n).drop_last() =~= b.take(k));
        let f = joint_at(settings, a.take(k));
        let (i, j) = (state_at(s, a.take(k)), state_at(z, b.take(k)));
        let (g, h) = (a[k], b[k]);
        assert(carries_out(p, x, f, i, g, method));
        assert(carries_out(q, w, f, j, h, method));
        lemma_one_phase(p, q, x, w, f, i, j, g, h, method);
    }
}

spec fn ended(f: JointFit) -> bool {
    f.phase == JointPhase::Done || f.phase == JointPhase::Failed
}

proof fn lemma_ended_runs_no_further<
    A: Summary,
    R: PairSummary,
    T: DoubledDecay,
    U: Binary,
    C: Ternary,
    S: Binary,
    Z: Summary,
    Q: Unary,
    P: Binary,
    L: Solver,
    F: ProximalStep,
    E: CellEffect<JointModel>,
    D: Binary,
>(
    problem: &JointProblem,
    x: Option<&Matrix<u64>>,
    settings: FitSettings,
    start: JointState,
    steps: Seq<JointStep>,
    n: int,
    method: &JointMethod<A, R, T, U, C, S, Z, Q, P, L, F, E, D>,
)
    requires
        ran(problem, x, settings, start, steps, method),
        0 <= n <= steps.len(),
        ended(joint_at(settings, steps.take(n))),
    ensures
        n == steps.len(),
{
    if n < steps.len() {
        let step = steps[n];
        assert(carries_out(
            problem,
            x,
            joint_at(settings, steps.take(n)),
            state_at(start, steps.take(n)),
            step,
            method,
        ));
    }
}

proof fn lemma_one_joint_end<
    A: Summary,
    R: PairSummary,
    T: DoubledDecay,
    U: Binary,
    C: Ternary,
    S: Binary,
    Z: Summary,
    Q: Unary,
    P: Binary,
    L: Solver,
    F: ProximalStep,
    E: CellEffect<JointModel>,
    D: Binary,
>(
    p: &JointProblem,
    q: &JointProblem,
    x: Option<&Matrix<u64>>,
    w: Option<&Matrix<u64>>,
    settings: FitSettings,
    s: JointState,
    z: JointState,
    a: Seq<JointStep>,
    b: Seq<JointStep>,
    method: &JointMethod<A, R, T, U, C, S, Z, Q, P, L, F, E, D>,
)
    requires
        same_joint_problem(*p, *q),
        p.y.rows > 0,
        p.y.cols > 0,
        same_inputs(x, w),
        same_joint_state(s, z),
        ran(p, x, settings, s, a, method),
        ran(q, w, settings, z, b, method),
        ended(joint_at(settings, a)),
        ended(joint_at(settings, b)),
        method.steady(),
    ensures
        joint_at(settings, a) == joint_at(settings, b),
        same_joint_model(state_at(s, a).model, state_at(z, b).model),
{
    let n = if a.len() <= b.len() {
        a.len() as int
    } else {
        b.len() as int
    };
    lemma_one_joint_trace(p, q, x, w, settings, s, z, a, b, n, method);
    if a.len() <= b.len() {
        assert(a.take(n) =~= a);
        lemma_ended_runs_no_further(q, w, settings, z, b, n, method);
        assert(b.take(n) =~= b);
    } else {
        assert(b.take(n) =~= b);
        lemma_ended_runs_no_further(p, x, settings, s, a, n, method);
    }
}

proof fn lemma_same_joint_problem(
    p: JointProblem,
    q: JointProblem,
    y: &Matrix<u64>,
    z: &Matrix<u64>,
    delta: &Matrix<u64>,
    other: &Matrix<u64>,
    x: Option<&Matrix<u64>>,
    w: Option<&Matrix<u64>>,
    lambda_nn: u64,
)
    requires
        p.poses(y, delta, x, lambda_nn),
        q.poses(z, other, w, lambda_nn),
        same_table(y, z),
        same_table(delta, other),
        same_inputs(x, w),
    ensures
        same_joint_problem(p, q),
{
    assert forall|t: usize, i: usize| t < y.rows && i < y.cols implies #[trigger] p.y.at(
        t as int,
        i as int,
    ) == q.y.at(t as int, i as int) by {
        assert(q.y.at(t as int, i as int) == sanitized(z.at(t as int, i as int)));
    }
    lemma_same_data(&p.y, &q.y);
    assert forall|t: usize, i: usize| t < y.rows && i < y.cols implies #[trigger] p.weights.at(
        t as int,
        i as int,
    ) == q.weights.at(t as int, i as int) by {
        assert(delta.at(t as int, i as int) == other.at(t as int, i as int));
        assert(q.weights.at(t as int, i as int) == if bits::finite(z.at(t as int, i as int)) {
            other.at(t as int, i as int)
        } else {
            bits::ZERO
        });
    }
    lemma_same_data(&p.weights, &q.weights);
}

proof fn lemma_zeros_alike(
    a: &Matrix<u64>,
    b: &Matrix<u64>,
    y: &Matrix<u64>,
    z: &Matrix<u64>,
)
    requires
        is_zero_like(a, y),
        is_zero_like(b, z),
        same_table(y, z),
    ensures
        same_table(a, b),
{
    assert forall|t: usize, i: usize| t < a.rows && i < a.cols implies #[trigger] a.at(
        t as int,
        i as int,
    ) == b.at(t as int, i as int) by {
        assert(b.at(t as int, i as int) == bits::ZERO);
    }
    lemma_same_data(a, b);
}

/// Two joint fits came to the same: both failed, or both gave the same model
/// after the same iterations.
pub open spec fn same_joint_fit(
    a: Option<(JointModel, Iterations)>,
    b: Option<(JointModel, Iterations)>,
) -> bool {
    match (a, b) {
        (Some((m, i)), Some((n, j))) => same_joint_model(m, n) && i == j,
        (None, None) => true,
        _ => false,
    }
}

proof fn lemma_one_joint_model<
    A: Summary,
    R: PairSummary,
    T: DoubledDecay,
    U: Binary,
    C: Ternary,
    S: Binary,
    Z: Summary,
    Q: Unary,
    P: Binary,
    L: Solver,
    F: ProximalStep,
    E: CellEffect<JointModel>,
    D: Binary,
>(
    r: Option<(JointModel, Iterations)>,
    s: Option<(JointModel, Iterations)>,
    y: &Matrix<u64>,
    z: &Matrix<u64>,
    delta: &Matrix<u64>,
    other: &Matrix<u64>,
    x: Option<&Matrix<u64>>,
    w: Option<&Matrix<u64>>,
    settings: FitSettings,
    method: &JointMethod<A, R, T, U, C, S, Z, Q, P, L, F, E, D>,
)
    requires
        same_table(y, z),
        y.rows > 0,
        y.cols > 0,
        same_table(delta, other),
        same_inputs(x, w),
        jointly_fitted(
            r,
            y,
            delta,
            x,
            settings,
            *method.subtract,
            *method.sum,
            *method.root,
            *method.multiply,
            *method.solve,
            *method.proximal,
        ),
        jointly_fitted(
            s,
            z,
            other,
            w,
            settings,
            *method.subtract,
            *method.sum,
            *method.root,
            *method.multiply,
            *method.solve,
            *method.proximal,
        ),
        method.steady(),
    ensures
        same_joint_fit(r, s),
{
    let (p, i, a) = choose|problem: JointProblem, start: JointState, steps: Seq<JointStep>|
        {
            &&& problem.poses(y, delta, x, settings.lambda_nn)
            &&& starts_at_zero(start, y)
            &&& #[trigger] joint_ran(
                &problem,
                x,
                settings,
                start,
                steps,
                *method.subtract,
                *method.sum,
                *method.root,
                *method.multiply,
                *method.solve,
                *method.proximal,
            )
            &&& joint_at(settings, steps).phase == JointPhase::Done || joint_at(
                settings,
                steps,
            ).phase == JointPhase::Failed
            &&& r == fit_outcome(
                joint_at(settings, steps).phase == JointPhase::Failed,
                state_at(start, steps).model,
                joint_at(settings, steps).iterations,
            )
        };
    let (q, j, b) = choose|problem: JointProblem, start: JointState, steps: Seq<JointStep>|
        {
            &&& problem.poses(z, other, w, settings.lambda_nn)
            &&& starts_at_zero(start, z)
            &&& #[trigger] joint_ran(
                &problem,
                w,
                settings,
                start,
                steps,
                *method.subtract,
                *method.sum,
                *method.root,
                *method.multiply,
                *method.solve,
                *method.proximal,
            )
            &&& joint_at(settings, steps).phase == JointPhase::Done || joint_at(
                settings,
                steps,
            ).phase == JointPhase::Failed
            &&& s == fit_outcome(
                joint_at(settings, steps).phase == JointPhase::Failed,
                state_at(start, steps).model,
                joint_at(settings, steps).iterations,
            )
        };
    lemma_same_joint_problem(p, q, y, z, delta, other, x, w, settings.lambda_nn);
    lemma_zeros_alike(&i.model.l, &j.model.l, y, z);
    lemma_zeros_alike(&i.before.l, &j.before.l, y, z);
    lemma_zeros_alike(&i.momentum.previous, &j.momentum.previous, y, z);
    lemma_one_joint_end(&p, &q, x, w, settings, i, j, a, b, method);
}

/// A joint fit is determined by its data: the same panel, covariates and
/// parameters give the same model after the same iterations.
pub proof fn law_one_joint_fit<
    A: Summary,
    R: PairSummary,
    T: DoubledDecay,
    U: Binary,
    C: Ternary,
    S: Binary,
    Z: Summary,
    Q: Unary,
    P: Binary,
    L: Solver,
    F: ProximalStep,
    E: CellEffect<JointModel>,
    D: Binary,
>(
    r: Option<(JointModel, Iterations)>,
    s: Option<(JointModel, Iterations)>,
    y: &Matrix<u64>,
    z: &Matrix<u64>,
    d: &Matrix<u64>,
    e: &Matrix<u64>,
    x: Option<&Matrix<u64>>,
    w: Option<&Matrix<u64>>,
    lambdas: Lambdas,
    treated_periods: usize,
    method: &JointMethod<A, R, T, U, C, S, Z, Q, P, L, F, E, D>,
)
    requires
        same_values(y, z),
        y.wf(),
        z.wf(),
        y.rows > 0,
        y.cols > 0,
        same_values(d, e),
        d.wf(),
        e.wf(),
        same_columns(x, w),
        x matches Some(m) ==> m.wf(),
        w matches Some(m) ==> m.wf(),
        method.fits_panel(r, y, d, x, lambdas, treated_periods),
        method.fits_panel(s, z, e, w, lambdas, treated_periods),
        method.steady(),
    ensures
        same_joint_fit(r, s),
{
    reveal(JointMethod::steady);
    lemma_same_data(y, z);
    lemma_same_data(d, e);
    if let (Some(m), Some(n)) = (x, w) {
        lemma_same_data(m, n);
    }
    let u = choose|delta: Matrix<u64>| #[trigger]
        method.weighs(&delta, y, d, lambdas, treated_periods) && method.fits(
            r,
            y,
            &delta,
            x,
            lambdas.nn,
        );
    let v = choose|delta: Matrix<u64>| #[trigger]
        method.weighs(&delta, z, e, lambdas, treated_periods) && method.fits(
            s,
            z,
            &delta,
            w,
            lambdas.nn,
        );
    law_one_joint_weight_table(&u, &v, y, z, d, e, lambdas, treated_periods, method);
    if without_low_rank(lambdas.nn) {
        let c = choose|c: Option<JointCoefficients>| #[trigger]
            regressed(c, y, &u, x, *method.sum, *method.root, *method.multiply, *method.solve)
                && match c {
                Some(coefficients) => r matches Some((model, it)) && model.coefficients
                    == coefficients && is_zero_like(&model.l, y) && it == (Iterations {
                    done: 1,
                    converged: true,
                }),
                None => r is None,
            };
        let g = choose|c: Option<JointCoefficients>| #[trigger]
            regressed(c, z, &v, w, *method.sum, *method.root, *method.multiply, *method.solve)
                && match c {
                Some(coefficients) => s matches Some((model, it)) && model.coefficients
                    == coefficients && is_zero_like(&model.l, z) && it == (Iterations {
                    done: 1,
                    converged: true,
                }),
                None => s is None,
            };
        lemma_one_solution(
            c,
            g,
            y,
            z,
            &u,
            &v,
            x,
            w,
            *method.sum,
            *method.root,
            *method.multiply,
            *method.solve,
        );
        if let (Some((m, i)), Some((n, j))) = (r, s) {
            lemma_zeros_alike(&m.l, &n.l, y, z);
        }
    } else {
        lemma_one_joint_model(
            r,
            s,
            y,
            z,
            &u,
            &v,
            x,
            w,
            method.settings(lambdas.nn, x is Some),
            method,
        );
    }
}

} // verus!

//! The alternating fit of the twostep model, given the arithmetic.
//!
//! An iteration updates the unit effects, the period effects, the covariate
//! coefficients and the low-rank component, each from the residuals that the
//! other blocks leave.  What the blocks are updated from and which entries keep
//! their value is decided here.
use crate::arithmetic::{Binary, CellEffect, PairSummary, Summary, TimeDecay};
use crate::bits;
use crate::bootstrap::covariates_fit;
use crate::estimation::{fitted_cell, Changes, Iterations};
use crate::fit::{
    law_twostep_fit_ends, twostep_advanced, twostep_new, twostep_rank, FitEvent, FitSettings,
    TwostepFit, TwostepPhase,
};
use crate::inference::contents;
use crate::joint::{copy_table, same_table, zeros, Momentum};
use crate::matrix::{lemma_offset_in_range, offset, Matrix};
use crate::model::{
    differs_by, fit_outcome, fitted_value, is_zero_like, law_exclusion_is_masking,
    law_unfitted_cells_do_not_matter, max_abs_diff, max_abs_diff_2d, pose_twostep, zero_like,
    TwostepProblem,
};
use crate::panel::same_shape;
use crate::twostep::TwostepMethod;
use vstd::prelude::*;

verus! {

/// The product of a row of the covariates and the coefficients.
pub trait Dot: Fn(&Vec<u64>, &Vec<u64>) -> u64 {}

impl<F: Fn(&Vec<u64>, &Vec<u64>) -> u64> Dot for F {}

/// The weighted mean of some numbers, from weights and numbers and from the sum
/// of the weights.
pub trait WeightedMean: Fn(&Vec<(u64, u64)>, u64) -> u64 {}

impl<F: Fn(&Vec<(u64, u64)>, u64) -> u64> WeightedMean for F {}

/// Covariate coefficients by weighted least squares, from the problem, the
/// residuals that the other blocks leave, and the coefficients so far.
pub trait CovariateFit: Fn(&TwostepProblem, &Matrix<u64>, &Vec<u64>) -> Vec<u64> {}

impl<F: Fn(&TwostepProblem, &Matrix<u64>, &Vec<u64>) -> Vec<u64>> CovariateFit for F {}

/// One proximal step of the low-rank component.  It gets the problem, whether
/// it starts without momentum, what the component is drawn towards, the
/// component, and the momentum; it gives the component and the momentum after
/// the step, and what came of it.
pub trait TwostepProximal:
    Fn(
        &TwostepProblem,
        bool,
        &Matrix<u64>,
        &Matrix<u64>,
        &Momentum,
    ) -> (Matrix<u64>, Momentum, FitEvent)
{
}

impl<
    F: Fn(
        &TwostepProblem,
        bool,
        &Matrix<u64>,
        &Matrix<u64>,
        &Momentum,
    ) -> (Matrix<u64>, Momentum, FitEvent),
> TwostepProximal for F {}

/// A twostep model.
#[derive(Debug)]
pub struct TwostepModel {
    /// Unit effects.
    pub alpha: Vec<u64>,
    /// Period effects.
    pub beta: Vec<u64>,
    /// Low-rank component.
    pub l: Matrix<u64>,
    /// Covariate coefficients, empty without covariates.
    pub gamma: Vec<u64>,
}

/// Number of covariates.
pub open spec fn covariate_count(x: Option<&Matrix<u64>>) -> nat {
    match x {
        Some(m) => m.cols as nat,
        None => 0,
    }
}

impl TwostepModel {
    /// The model has an effect for every unit and period, and a coefficient for
    /// every covariate.
    pub open spec fn fits(&self, y: &Matrix<u64>, n_cov: nat) -> bool {
        &&& self.alpha@.len() == y.cols
        &&& self.beta@.len() == y.rows
        &&& same_shape(&self.l, y)
        &&& self.gamma@.len() == n_cov
    }
}

/// Two models hold the same numbers.
pub open spec fn same_model(a: TwostepModel, b: TwostepModel) -> bool {
    &&& a.alpha@ == b.alpha@
    &&& a.beta@ == b.beta@
    &&& same_table(&a.l, &b.l)
    &&& a.gamma@ == b.gamma@
}

fn copy_numbers(v: &Vec<u64>) -> (r: Vec<u64>)
    ensures
        r@ == v@,
{
    let r: Vec<u64> = v.clone();
    assert(r@ =~= v@);
    r
}

fn copy_model(m: &TwostepModel) -> (r: TwostepModel)
    ensures
        same_model(r, *m),
{
    TwostepModel {
        alpha: copy_numbers(&m.alpha),
        beta: copy_numbers(&m.beta),
        l: copy_table(&m.l),
        gamma: copy_numbers(&m.gamma),
    }
}

/// A fit under way.
#[derive(Debug)]
pub struct TwostepState {
    pub model: TwostepModel,
    /// Model at the start of the iteration.
    pub before: TwostepModel,
    /// Outcomes less the low-rank component and what the covariates explain.
    pub residual: Matrix<u64>,
    /// What the low-rank component is drawn towards.
    pub target: Matrix<u64>,
    pub momentum: Momentum,
}

/// Sums of the weights of the units and of the periods.
#[derive(Debug)]
pub struct Totals {
    pub units: Vec<u64>,
    pub periods: Vec<u64>,
}

/// Entries of a table in one column.
pub open spec fn column_of(m: &Matrix<u64>, i: int) -> Seq<u64> {
    Seq::new(m.rows as nat, |t: int| m.at(t, i))
}

/// Entries of a table in one row.
pub open spec fn row_of(m: &Matrix<u64>, t: int) -> Seq<u64> {
    Seq::new(m.cols as nat, |i: int| m.at(t, i))
}

fn column(m: &Matrix<u64>, i: usize) -> (r: Vec<u64>)
    requires
        m.wf(),
        i < m.cols,
    ensures
        r@ == column_of(m, i as int),
{
    let mut r: Vec<u64> = Vec::new();
    let mut t: usize = 0;
    while t < m.rows
        invariant
            m.wf(),
            i < m.cols,
            t <= m.rows,
            r@ == column_of(m, i as int).take(t as int),
        decreases m.rows - t,
    {
        r.push(m.get(t, i));
        assert(r@ =~= column_of(m, i as int).take(t + 1));
        t = t + 1;
    }
    assert(r@ =~= column_of(m, i as int));
    r
}

fn row(m: &Matrix<u64>, t: usize) -> (r: Vec<u64>)
    requires
        m.wf(),
        t < m.rows,
    ensures
        r@ == row_of(m, t as int),
{
    let mut r: Vec<u64> = Vec::new();
    let mut i: usize = 0;
    while i < m.cols
        invariant
            m.wf(),
            t < m.rows,
            i <= m.cols,
            r@ == row_of(m, t as int).take(i as int),
        decreases m.cols - i,
    {
        r.push(m.get(t, i));
        assert(r@ =~= row_of(m, t as int).take(i + 1));
        i = i + 1;
    }
    assert(r@ =~= row_of(m, t as int));
    r
}

/// `v` is the sum that a function gives of some numbers.
pub open spec fn sums_to<Z: Summary>(v: u64, numbers: Seq<u64>, sum: Z) -> bool {
    exists|given: Vec<u64>| given@ == numbers && #[trigger] call_ensures(sum, (&given,), v)
}

/// `v` is `first` with some numbers taken away, one after the other.
pub open spec fn takes_away<B: Binary>(v: u64, first: u64, rest: Seq<u64>, subtract: B) -> bool
    decreases rest.len(),
{
    if rest.len() == 0 {
        v == first
    } else {
        exists|a: u64|
            takes_away(a, first, rest.drop_last(), subtract) && #[trigger] call_ensures(
                subtract,
                (a, rest.last()),
                v,
            )
    }
}

fn take_away<B: Binary>(first: u64, rest: &Vec<u64>, subtract: &B) -> (r: u64)
    requires
        forall|a: u64, b: u64| #[trigger] call_requires(*subtract, (a, b)),
    ensures
        takes_away(r, first, rest@, *subtract),
{
    let mut r: u64 = first;
    let mut k: usize = 0;
    while k < rest.len()
        invariant
            forall|a: u64, b: u64| #[trigger] call_requires(*subtract, (a, b)),
            k <= rest@.len(),
            takes_away(r, first, rest@.take(k as int), *subtract),
        decreases rest@.len() - k,
    {
        let ghost before = r;
        r = (*subtract)(r, rest[k]);
        proof {
            assert(rest@.take(k + 1).drop_last() =~= rest@.take(k as int));
            let taken = rest@.take(k + 1);
            assert(taken.last() == rest@[k as int]);
            assert(takes_away(before, first, taken.drop_last(), *subtract));
            assert(call_ensures(*subtract, (before, taken.last()), r));
        }
        k = k + 1;
    }
    assert(rest@.take(k as int) =~= rest@);
    r
}

/// `v` is `first` with some numbers taken away, and at last what the covariates
/// of a cell explain, where there are any.
pub open spec fn leaves<B: Binary, O: Dot>(
    v: u64,
    first: u64,
    rest: Seq<u64>,
    x: Option<Matrix<u64>>,
    k: int,
    gamma: Vec<u64>,
    subtract: B,
    dot: O,
) -> bool {
    match x {
        Some(m) => exists|covariates: Vec<u64>, e: u64|
            {
                &&& covariates@ == row_of(&m, k)
                &&& #[trigger] call_ensures(dot, (&covariates, &gamma), e)
                &&& takes_away(v, first, rest.push(e), subtract)
            },
        None => takes_away(v, first, rest, subtract),
    }
}

fn leave<B: Binary, O: Dot>(
    first: u64,
    rest: Vec<u64>,
    x: &Option<Matrix<u64>>,
    k: usize,
    gamma: &Vec<u64>,
    subtract: &B,
    dot: &O,
) -> (r: u64)
    requires
        x matches Some(m) ==> m.wf() && k < m.rows,
        forall|a: u64, b: u64| #[trigger] call_requires(*subtract, (a, b)),
        forall|a: &Vec<u64>, b: &Vec<u64>| #[trigger] call_requires(*dot, (a, b)),
    ensures
        leaves(r, first, rest@, *x, k as int, *gamma, *subtract, *dot),
{
    let mut taken: Vec<u64> = rest;
    match x {
        Some(m) => {
            let covariates: Vec<u64> = row(m, k);
            let e: u64 = (*dot)(&covariates, gamma);
            assert(call_ensures(*dot, (&covariates, gamma), e));
            taken.push(e);
            take_away(first, &taken, subtract)
        },
        None => take_away(first, &taken, subtract),
    }
}

/// One phase of a fit: the state after it, and what came of it.
pub struct TwostepStep {
    pub after: TwostepState,
    pub event: FitEvent,
}

/// The fit after some phases.
pub open spec fn twostep_at(s: FitSettings, steps: Seq<TwostepStep>) -> TwostepFit
    decreases steps.len(),
{
    if steps.len() == 0 {
        twostep_new(s)
    } else {
        twostep_advanced(twostep_at(s, steps.drop_last()), s, steps.last().event)
    }
}

/// State after some phases.
pub open spec fn twostep_state_at(start: TwostepState, steps: Seq<TwostepStep>) -> TwostepState {
    if steps.len() == 0 {
        start
    } else {
        steps.last().after
    }
}

/// A fit starts from the effects and the component of an earlier model, where
/// there is one, and from zero otherwise; the coefficients start from given ones
/// or from zero.
pub open spec fn starts_from(
    s: TwostepState,
    from: Option<TwostepModel>,
    gamma_init: Option<Seq<u64>>,
    y: &Matrix<u64>,
    n_cov: nat,
) -> bool {
    &&& match from {
        Some(m) => s.model.alpha@ == m.alpha@ && s.model.beta@ == m.beta@ && same_table(
            &s.model.l,
            &m.l,
        ),
        None => s.model.alpha@ == Seq::new(y.cols as nat, |i: int| bits::ZERO) && s.model.beta@
            == Seq::new(y.rows as nat, |t: int| bits::ZERO) && is_zero_like(&s.model.l, y),
    }
    &&& s.model.gamma@ == match gamma_init {
        Some(g) => g,
        None => Seq::new(n_cov, |k: int| bits::ZERO),
    }
    &&& same_model(s.before, s.model)
    &&& is_zero_like(&s.residual, y)
    &&& is_zero_like(&s.target, y)
    &&& is_zero_like(&s.momentum.previous, y)
    &&& s.momentum.factor == bits::ONE
}

fn start_from(
    y: &Matrix<u64>,
    n_cov: usize,
    from: &Option<TwostepModel>,
    gamma_init: Option<&Vec<u64>>,
) -> (r: TwostepState)
    requires
        y.wf(),
        gamma_init matches Some(g) ==> g@.len() == n_cov,
        from matches Some(m) ==> m.fits(y, m.gamma@.len()),
    ensures
        starts_from(r, *from, contents(gamma_init), y, n_cov as nat),
        r.model.fits(y, n_cov as nat),
{
    let gamma: Vec<u64> = match gamma_init {
        Some(g) => copy_numbers(g),
        None => zeros(n_cov),
    };
    let model: TwostepModel = match from {
        Some(m) => TwostepModel {
            alpha: copy_numbers(&m.alpha),
            beta: copy_numbers(&m.beta),
            l: copy_table(&m.l),
            gamma,
        },
        None => TwostepModel {
            alpha: zeros(y.cols),
            beta: zeros(y.rows),
            l: zero_like(y),
            gamma,
        },
    };
    let before: TwostepModel = copy_model(&model);
    TwostepState {
        model,
        before,
        residual: zero_like(y),
        target: zero_like(y),
        momentum: Momentum { previous: zero_like(y), factor: bits::ONE },
    }
}

impl<
    'a,
    R: PairSummary,
    T: TimeDecay,
    U: Binary,
    P: Binary,
    B: Binary,
    Z: Summary,
    O: Dot,
    C: WeightedMean,
    Q: CovariateFit,
    F: TwostepProximal,
    E: CellEffect<TwostepModel>,
    S: Binary,
> TwostepMethod<'a, R, T, U, P, B, Z, O, C, Q, F, E, S> {
    /// `totals` are the sums of the weights of the units and of the periods.
    pub open spec fn totals(&self, totals: Totals, weights: &Matrix<u64>) -> bool {
        &&& totals.units@.len() == weights.cols
        &&& totals.periods@.len() == weights.rows
        &&& forall|i: int|
            0 <= i < weights.cols ==> sums_to(
                #[trigger] totals.units@[i],
                column_of(weights, i),
                *self.sum,
            )
        &&& forall|t: int|
            0 <= t < weights.rows ==> sums_to(
                #[trigger] totals.periods@[t],
                row_of(weights, t),
                *self.sum,
            )
    }

    fn total_weights(&self, weights: &Matrix<u64>) -> (r: Totals)
        requires
            weights.wf(),
            self.ready(),
        ensures
            self.totals(r, weights),
    {
        let mut units: Vec<u64> = Vec::new();
        let mut i: usize = 0;
        while i < weights.cols
            invariant
                weights.wf(),
                self.ready(),
                i <= weights.cols,
                units@.len() == i,
                forall|j: int|
                    0 <= j < i ==> sums_to(
                        #[trigger] units@[j],
                        column_of(weights, j),
                        *self.sum,
                    ),
            decreases weights.cols - i,
        {
            let given: Vec<u64> = column(weights, i);
            let v: u64 = (*self.sum)(&given);
            assert(call_ensures(*self.sum, (&given,), v));
            units.push(v);
            i = i + 1;
        }
        let mut periods: Vec<u64> = Vec::new();
        let mut t: usize = 0;
        while t < weights.rows
            invariant
                weights.wf(),
                self.ready(),
                t <= weights.rows,
                periods@.len() == t,
                forall|j: int|
                    0 <= j < t ==> sums_to(
                        #[trigger] periods@[j],
                        row_of(weights, j),
                        *self.sum,
                    ),
            decreases weights.rows - t,
        {
            let given: Vec<u64> = row(weights, t);
            let v: u64 = (*self.sum)(&given);
            assert(call_ensures(*self.sum, (&given,), v));
            periods.push(v);
            t = t + 1;
        }
        Totals { units, periods }
    }

    /// `r` are the outcomes less the low-rank component and what the covariates
    /// explain.
    pub open spec fn leaves_effects(
        &self,
        r: &Matrix<u64>,
        problem: &TwostepProblem,
        model: TwostepModel,
    ) -> bool {
        &&& same_shape(r, &problem.y)
        &&& forall|t: usize, i: usize|
            t < problem.y.rows && i < problem.y.cols ==> leaves(
                #[trigger] r.at(t as int, i as int),
                problem.y.at(t as int, i as int),
                seq![model.l.at(t as int, i as int)],
                problem.x,
                offset(problem.y.cols as int, t as int, i as int),
                model.gamma,
                *self.subtract,
                *self.dot,
            )
    }

    /// `r` are the outcomes less the effects and the low-rank component.
    pub open spec fn leaves_covariates(
        &self,
        r: &Matrix<u64>,
        problem: &TwostepProblem,
        model: TwostepModel,
    ) -> bool {
        &&& same_shape(r, &problem.y)
        &&& forall|t: usize, i: usize|
            t < problem.y.rows && i < problem.y.cols ==> takes_away(
                #[trigger] r.at(t as int, i as int),
                problem.y.at(t as int, i as int),
                seq![
                    model.alpha@[i as int],
                    model.beta@[t as int],
                    model.l.at(t as int, i as int),
                ],
                *self.subtract,
            )
    }

    /// `r` is what the low-rank component is drawn towards: on the cells that
    /// carry weight the outcomes less the effects and what the covariates
    /// explain, and the component itself elsewhere.
    pub open spec fn leaves_component(
        &self,
        r: &Matrix<u64>,
        problem: &TwostepProblem,
        model: TwostepModel,
    ) -> bool {
        &&& same_shape(r, &problem.y)
        &&& forall|t: usize, i: usize|
            t < problem.y.rows && i < problem.y.cols ==> if problem.support.at(
                t as int,
                i as int,
            ) {
                leaves(
                    #[trigger] r.at(t as int, i as int),
                    problem.y.at(t as int, i as int),
                    seq![model.alpha@[i as int], model.beta@[t as int]],
                    problem.x,
                    offset(problem.y.cols as int, t as int, i as int),
                    model.gamma,
                    *self.subtract,
                    *self.dot,
                )
            } else {
                r.at(t as int, i as int) == model.l.at(t as int, i as int)
            }
    }

    /// `v` is the weighted mean of some residuals less the effects of the other
    /// kind.
    pub open spec fn averages(
        &self,
        v: u64,
        weights: Seq<u64>,
        residuals: Seq<u64>,
        others: Seq<u64>,
        total: u64,
    ) -> bool {
        exists|terms: Vec<(u64, u64)>|
            {
                &&& terms@.len() == weights.len()
                &&& forall|k: int|
                    0 <= k < weights.len() ==> (#[trigger] terms@[k]).0 == weights[k]
                        && call_ensures(*self.subtract, (residuals[k], others[k]), terms@[k].1)
                &&& #[trigger] call_ensures(*self.weighted_mean, (&terms, total), v)
            }
    }

    fn average(
        &self,
        weights: &Vec<u64>,
        residuals: &Vec<u64>,
        others: &Vec<u64>,
        total: u64,
    ) -> (r: u64)
        requires
            self.ready(),
            weights@.len() == residuals@.len(),
            weights@.len() == others@.len(),
        ensures
            self.averages(r, weights@, residuals@, others@, total),
    {
        let mut terms: Vec<(u64, u64)> = Vec::new();
        let mut k: usize = 0;
        while k < weights.len()
            invariant
                self.ready(),
                weights@.len() == residuals@.len(),
                weights@.len() == others@.len(),
                k <= weights@.len(),
                terms@.len() == k,
                forall|j: int|
                    0 <= j < k ==> (#[trigger] terms@[j]).0 == weights@[j] && call_ensures(
                        *self.subtract,
                        (residuals@[j], others@[j]),
                        terms@[j].1,
                    ),
            decreases weights@.len() - k,
        {
            let rest: u64 = (*self.subtract)(residuals[k], others[k]);
            terms.push((weights[k], rest));
            k = k + 1;
        }
        let v: u64 = (*self.weighted_mean)(&terms, total);
        assert(call_ensures(*self.weighted_mean, (&terms, total), v));
        v
    }

    /// `alpha` are the unit effects that the residuals and the period effects
    /// give; a unit without weight keeps its effect.
    pub open spec fn updates_units(
        &self,
        alpha: Seq<u64>,
        old: Seq<u64>,
        problem: &TwostepProblem,
        totals: Totals,
        residual: &Matrix<u64>,
        beta: Seq<u64>,
    ) -> bool {
        &&& alpha.len() == old.len()
        &&& forall|i: int|
            0 <= i < old.len() ==> if bits::lt(bits::ZERO, totals.units@[i]) {
                self.averages(
                    #[trigger] alpha[i],
                    column_of(&problem.weights, i),
                    column_of(residual, i),
                    beta,
                    totals.units@[i],
                )
            } else {
                alpha[i] == old[i]
            }
    }

    /// `beta` are the period effects that the residuals and the unit effects
    /// give; a period without weight keeps its effect.
    pub open spec fn updates_periods(
        &self,
        beta: Seq<u64>,
        old: Seq<u64>,
        problem: &TwostepProblem,
        totals: Totals,
        residual: &Matrix<u64>,
        alpha: Seq<u64>,
    ) -> bool {
        &&& beta.len() == old.len()
        &&& forall|t: int|
            0 <= t < old.len() ==> if bits::lt(bits::ZERO, totals.periods@[t]) {
                self.averages(
                    #[trigger] beta[t],
                    row_of(&problem.weights, t),
                    row_of(residual, t),
                    alpha,
                    totals.periods@[t],
                )
            } else {
                beta[t] == old[t]
            }
    }

    fn update_units(
        &self,
        problem: &TwostepProblem,
        totals: &Totals,
        residual: &Matrix<u64>,
        alpha: &Vec<u64>,
        beta: &Vec<u64>,
    ) -> (r: Vec<u64>)
        requires
            self.ready(),
            same_shape(&problem.y, &problem.weights),
            same_shape(&problem.y, residual),
            totals.units@.len() == problem.y.cols,
            alpha@.len() == problem.y.cols,
            beta@.len() == problem.y.rows,
        ensures
            self.updates_units(r@, alpha@, problem, *totals, residual, beta@),
    {
        let mut r: Vec<u64> = Vec::new();
        let mut i: usize = 0;
        while i < alpha.len()
            invariant
                self.ready(),
                same_shape(&problem.y, &problem.weights),
                same_shape(&problem.y, residual),
                totals.units@.len() == problem.y.cols,
                alpha@.len() == problem.y.cols,
                beta@.len() == problem.y.rows,
                i <= alpha@.len(),
                r@.len() == i,
                forall|j: int|
                    0 <= j < i ==> if bits::lt(bits::ZERO, totals.units@[j]) {
                        self.averages(
                            #[trigger] r@[j],
                            column_of(&problem.weights, j),
                            column_of(residual, j),
                            beta@,
                            totals.units@[j],
                        )
                    } else {
                        r@[j] == alpha@[j]
                    },
            decreases alpha@.len() - i,
        {
            let total: u64 = totals.units[i];
            let v: u64 = if bits::less_than(bits::ZERO, total) {
                self.average(&column(&problem.weights, i), &column(residual, i), beta, total)
            } else {
                alpha[i]
            };
            r.push(v);
            i = i + 1;
        }
        r
    }

    fn update_periods(
        &self,
        problem: &TwostepProblem,
        totals: &Totals,
        residual: &Matrix<u64>,
        beta: &Vec<u64>,
        alpha: &Vec<u64>,
    ) -> (r: Vec<u64>)
        requires
            self.ready(),
            same_shape(&problem.y, &problem.weights),
            same_shape(&problem.y, residual),
            totals.periods@.len() == problem.y.rows,
            alpha@.len() == problem.y.cols,
            beta@.len() == problem.y.rows,
        ensures
            self.updates_periods(r@, beta@, problem, *totals, residual, alpha@),
    {
        let mut r: Vec<u64> = Vec::new();
        let mut t: usize = 0;
        while t < beta.len()
            invariant
                self.ready(),
                same_shape(&problem.y, &problem.weights),
                same_shape(&problem.y, residual),
                totals.periods@.len() == problem.y.rows,
                alpha@.len() == problem.y.cols,
                beta@.len() == problem.y.rows,
                t <= beta@.len(),
                r@.len() == t,
                forall|j: int|
                    0 <= j < t ==> if bits::lt(bits::ZERO, totals.periods@[j]) {
                        self.averages(
                            #[trigger] r@[j],
                            row_of(&problem.weights, j),
                            row_of(residual, j),
                            alpha@,
                            totals.periods@[j],
                        )
                    } else {
                        r@[j] == beta@[j]
                    },
            decreases beta@.len() - t,
        {
            let total: u64 = totals.periods[t];
            let v: u64 = if bits::less_than(bits::ZERO, total) {
                self.average(&row(&problem.weights, t), &row(residual, t), alpha, total)
            } else {
                beta[t]
            };
            r.push(v);
            t = t + 1;
        }
        r
    }

    fn residual_of_effects(&self, problem: &TwostepProblem, model: &TwostepModel) -> (r: Matrix<
        u64,
    >)
        requires
            self.ready(),
            problem.consistent(),
            same_shape(&model.l, &problem.y),
        ensures
            self.leaves_effects(&r, problem, *model),
    {
        assert(problem.y.data.len() == problem.y.rows * problem.y.cols);
        let f = |t: usize, i: usize| -> (v: u64)
            requires
                self.ready() && problem.consistent() && same_shape(&model.l, &problem.y)
                    && problem.y.has(t, i),
            ensures
                leaves(
                    v,
                    problem.y.at(t as int, i as int),
                    seq![model.l.at(t as int, i as int)],
                    problem.x,
                    offset(problem.y.cols as int, t as int, i as int),
                    model.gamma,
                    *self.subtract,
                    *self.dot,
                ),
        {
            proof {
                lemma_offset_in_range(
                    problem.y.rows as int,
                    problem.y.cols as int,
                    t as int,
                    i as int,
                );
                assert(problem.y.data.len() == problem.y.rows * problem.y.cols);
            }
            let rest: Vec<u64> = vec![model.l.get(t, i)];
            assert(rest@ =~= seq![model.l.at(t as int, i as int)]);
            leave(
                problem.y.get(t, i),
                rest,
                &problem.x,
                t * problem.y.cols + i,
                &model.gamma,
                self.subtract,
                self.dot,
            )
        };
        Matrix::build(problem.y.rows, problem.y.cols, f)
    }

    fn residual_of_covariates(&self, problem: &TwostepProblem, model: &TwostepModel) -> (r: Matrix<
        u64,
    >)
        requires
            self.ready(),
            problem.consistent(),
            model.fits(&problem.y, model.gamma@.len()),
        ensures
            self.leaves_covariates(&r, problem, *model),
    {
        assert(problem.y.data.len() == problem.y.rows * problem.y.cols);
        let f = |t: usize, i: usize| -> (v: u64)
            requires
                self.ready() && model.fits(&problem.y, model.gamma@.len()) && problem.y.has(t, i),
            ensures
                takes_away(
                    v,
                    problem.y.at(t as int, i as int),
                    seq![
                        model.alpha@[i as int],
                        model.beta@[t as int],
                        model.l.at(t as int, i as int),
                    ],
                    *self.subtract,
                ),
        {
            let rest: Vec<u64> = vec![model.alpha[i], model.beta[t], model.l.get(t, i)];
            assert(rest@ =~= seq![
                model.alpha@[i as int],
                model.beta@[t as int],
                model.l.at(t as int, i as int),
            ]);
            take_away(problem.y.get(t, i), &rest, self.subtract)
        };
        Matrix::build(problem.y.rows, problem.y.cols, f)
    }

    fn target_of_component(&self, problem: &TwostepProblem, model: &TwostepModel) -> (r: Matrix<
        u64,
    >)
        requires
            self.ready(),
            problem.consistent(),
            model.fits(&problem.y, model.gamma@.len()),
        ensures
            self.leaves_component(&r, problem, *model),
    {
        assert(problem.y.data.len() == problem.y.rows * problem.y.cols);
        let f = |t: usize, i: usize| -> (v: u64)
            requires
                self.ready() && problem.consistent() && model.fits(
                    &problem.y,
                    model.gamma@.len(),
                ) && problem.y.has(t, i),
            ensures
                if problem.support.at(t as int, i as int) {
                    leaves(
                        v,
                        problem.y.at(t as int, i as int),
                        seq![model.alpha@[i as int], model.beta@[t as int]],
                        problem.x,
                        offset(problem.y.cols as int, t as int, i as int),
                        model.gamma,
                        *self.subtract,
                        *self.dot,
                    )
                } else {
                    v == model.l.at(t as int, i as int)
                },
        {
            if problem.support.get(t, i) {
                proof {
                    lemma_offset_in_range(
                        problem.y.rows as int,
                        problem.y.cols as int,
                        t as int,
                        i as int,
                    );
                    assert(problem.y.data.len() == problem.y.rows * problem.y.cols);
                }
                let rest: Vec<u64> = vec![model.alpha[i], model.beta[t]];
                assert(rest@ =~= seq![model.alpha@[i as int], model.beta@[t as int]]);
                leave(
                    problem.y.get(t, i),
                    rest,
                    &problem.x,
                    t * problem.y.cols + i,
                    &model.gamma,
                    self.subtract,
                    self.dot,
                )
            } else {
                model.l.get(t, i)
            }
        };
        Matrix::build(problem.y.rows, problem.y.cols, f)
    }

    /// `changes` are the largest changes of a model over an iteration.
    pub open spec fn changed_by(&self, changes: Changes, s: TwostepState) -> bool {
        &&& differs_by(changes.alpha, s.model.alpha@, s.before.alpha@, *self.subtract)
        &&& differs_by(changes.beta, s.model.beta@, s.before.beta@, *self.subtract)
        &&& differs_by(changes.low_rank, s.model.l.data@, s.before.l.data@, *self.subtract)
        &&& differs_by(changes.gamma, s.model.gamma@, s.before.gamma@, *self.subtract)
    }

    /// `step` is the phase that the fit `f` is due, carried out in state `s`.
    pub open spec fn carries_out(
        &self,
        problem: &TwostepProblem,
        totals: Totals,
        f: TwostepFit,
        s: TwostepState,
        step: TwostepStep,
    ) -> bool {
        let (now, next) = (s.model, step.after.model);
        match f.phase {
            TwostepPhase::Alpha => {
                &&& step.event == FitEvent::Updated
                &&& self.leaves_effects(&step.after.residual, problem, now)
                &&& self.updates_units(
                    next.alpha@,
                    now.alpha@,
                    problem,
                    totals,
                    &step.after.residual,
                    now.beta@,
                )
                &&& next.beta == now.beta && next.l == now.l && next.gamma == now.gamma
                &&& same_model(step.after.before, now)
                &&& step.after.target == s.target && step.after.momentum == s.momentum
            },
            TwostepPhase::Beta => {
                &&& step.event == FitEvent::Updated
                &&& self.updates_periods(
                    next.beta@,
                    now.beta@,
                    problem,
                    totals,
                    &s.residual,
                    now.alpha@,
                )
                &&& next.alpha == now.alpha && next.l == now.l && next.gamma == now.gamma
                &&& step.after.before == s.before && step.after.residual == s.residual
                &&& problem.x is None ==> self.leaves_component(&step.after.target, problem, next)
                &&& problem.x is Some ==> step.after.target == s.target
                &&& step.after.momentum == s.momentum
            },
            TwostepPhase::Gamma => {
                &&& step.event == FitEvent::Updated
                &&& exists|unexplained: Matrix<u64>| #[trigger]
                    self.leaves_covariates(&unexplained, problem, now) && call_ensures(
                        *self.covariate_fit,
                        (problem, &unexplained, &now.gamma),
                        next.gamma,
                    )
                &&& next.alpha == now.alpha && next.beta == now.beta && next.l == now.l
                &&& step.after.before == s.before && step.after.residual == s.residual
                &&& self.leaves_component(&step.after.target, problem, next)
                &&& step.after.momentum == s.momentum
            },
            TwostepPhase::ClosedForm => {
                &&& step.event == FitEvent::Updated
                &&& same_table(&next.l, &s.target)
                &&& next.alpha == now.alpha && next.beta == now.beta && next.gamma == now.gamma
                &&& step.after.before == s.before && step.after.residual == s.residual
                &&& step.after.target == s.target && step.after.momentum == s.momentum
            },
            TwostepPhase::Proximal => {
                &&& call_ensures(
                    *self.proximal,
                    (problem, f.fresh, &s.target, &now.l, &s.momentum),
                    (next.l, step.after.momentum, step.event),
                )
                &&& next.alpha == now.alpha && next.beta == now.beta && next.gamma == now.gamma
                &&& step.after.before == s.before && step.after.residual == s.residual
                &&& step.after.target == s.target
            },
            TwostepPhase::Compare => {
                &&& step.after == s
                &&& step.event matches FitEvent::Compared(changes) && self.changed_by(changes, s)
            },
            TwostepPhase::Done | TwostepPhase::Failed => false,
        }
    }

    /// Phases of a fit, one after the other.
    pub open spec fn ran(
        &self,
        problem: &TwostepProblem,
        totals: Totals,
        settings: FitSettings,
        start: TwostepState,
        steps: Seq<TwostepStep>,
    ) -> bool {
        forall|k: int|
            0 <= k < steps.len() ==> self.carries_out(
                problem,
                totals,
                twostep_at(settings, steps.take(k)),
                twostep_state_at(start, steps.take(k)),
                #[trigger] steps[k],
            )
    }

    /// `r` is the outcome of fitting the model to the control cells of a panel,
    /// but the one left out, from an earlier model.
    pub open spec fn fitted(
        &self,
        r: Option<(TwostepModel, Iterations)>,
        y: &Matrix<u64>,
        x: Option<&Matrix<u64>>,
        control_mask: &Matrix<u8>,
        weights: &Matrix<u64>,
        exclude: Option<(usize, usize)>,
        lambda_nn: u64,
        from: Option<TwostepModel>,
        gamma_init: Option<Seq<u64>>,
    ) -> bool {
        exists|
            problem: TwostepProblem,
            totals: Totals,
            start: TwostepState,
            steps: Seq<TwostepStep>,
        |
            {
                let s = self.settings(lambda_nn, x is Some);
                &&& problem.poses(y, x, control_mask, weights, exclude, lambda_nn)
                &&& self.totals(totals, &problem.weights)
                &&& starts_from(start, from, gamma_init, y, covariate_count(x))
                &&& #[trigger] self.ran(
                    &problem,
                    totals,
                    self.settings(lambda_nn, x is Some),
                    start,
                    steps,
                )
                &&& twostep_at(s, steps).phase == TwostepPhase::Done || twostep_at(s, steps).phase
                    == TwostepPhase::Failed
                &&& r == fit_outcome(
                    twostep_at(s, steps).phase == TwostepPhase::Failed,
                    twostep_state_at(start, steps).model,
                    twostep_at(s, steps).iterations,
                )
            }
    }

    fn carry_out(
        &self,
        problem: &TwostepProblem,
        totals: &Totals,
        fit: TwostepFit,
        s: TwostepState,
    ) -> (r: (TwostepState, FitEvent))
        requires
            self.ready(),
            problem.consistent(),
            totals.units@.len() == problem.y.cols,
            totals.periods@.len() == problem.y.rows,
            s.model.fits(&problem.y, problem.covariates()),
            same_shape(&s.residual, &problem.y),
            same_shape(&s.target, &problem.y),
            fit.phase == TwostepPhase::Gamma ==> problem.x is Some,
            fit.phase != TwostepPhase::Done,
            fit.phase != TwostepPhase::Failed,
        ensures
            self.carries_out(
                problem,
                *totals,
                fit,
                s,
                (TwostepStep { after: r.0, event: r.1 }),
            ),
            r.0.model.fits(&problem.y, problem.covariates()),
            same_shape(&r.0.residual, &problem.y),
            same_shape(&r.0.target, &problem.y),
    {
        match fit.phase {
            TwostepPhase::Alpha => {
                let residual: Matrix<u64> = self.residual_of_effects(problem, &s.model);
                let before: TwostepModel = copy_model(&s.model);
                let alpha: Vec<u64> = self.update_units(
                    problem,
                    totals,
                    &residual,
                    &s.model.alpha,
                    &s.model.beta,
                );
                let model: TwostepModel = TwostepModel {
                    alpha,
                    beta: s.model.beta,
                    l: s.model.l,
                    gamma: s.model.gamma,
                };
                let after: TwostepState = TwostepState {
                    model,
                    before,
                    residual,
                    target: s.target,
                    momentum: s.momentum,
                };
                (after, FitEvent::Updated)
            },
            TwostepPhase::Beta => {
                let beta: Vec<u64> = self.update_periods(
                    problem,
                    totals,
                    &s.residual,
                    &s.model.beta,
                    &s.model.alpha,
                );
                let model: TwostepModel = TwostepModel {
                    alpha: s.model.alpha,
                    beta,
                    l: s.model.l,
                    gamma: s.model.gamma,
                };
                let target: Matrix<u64> = if problem.x.is_none() {
                    self.target_of_component(problem, &model)
                } else {
                    s.target
                };
                let after: TwostepState = TwostepState {
                    model,
                    before: s.before,
                    residual: s.residual,
                    target,
                    momentum: s.momentum,
                };
                (after, FitEvent::Updated)
            },
            TwostepPhase::Gamma => {
                let unexplained: Matrix<u64> = self.residual_of_covariates(problem, &s.model);
                let gamma: Vec<u64> = (*self.covariate_fit)(
                    problem,
                    &unexplained,
                    &s.model.gamma,
                );
                assert(self.leaves_covariates(&unexplained, problem, s.model));
                let model: TwostepModel = TwostepModel {
                    alpha: s.model.alpha,
                    beta: s.model.beta,
                    l: s.model.l,
                    gamma,
                };
                let target: Matrix<u64> = self.target_of_component(problem, &model);
                let after: TwostepState = TwostepState {
                    model,
                    before: s.before,
                    residual: s.residual,
                    target,
                    momentum: s.momentum,
                };
                (after, FitEvent::Updated)
            },
            TwostepPhase::ClosedForm => {
                let l: Matrix<u64> = copy_table(&s.target);
                let model: TwostepModel = TwostepModel {
                    alpha: s.model.alpha,
                    beta: s.model.beta,
                    l,
                    gamma: s.model.gamma,
                };
                let after: TwostepState = TwostepState {
                    model,
                    before: s.before,
                    residual: s.residual,
                    target: s.target,
                    momentum: s.momentum,
                };
                (after, FitEvent::Updated)
            },
            TwostepPhase::Proximal => {
                let (l, momentum, event) = (*self.proximal)(
                    problem,
                    fit.fresh,
                    &s.target,
                    &s.model.l,
                    &s.momentum,
                );
                let model: TwostepModel = TwostepModel {
                    alpha: s.model.alpha,
                    beta: s.model.beta,
                    l,
                    gamma: s.model.gamma,
                };
                let after: TwostepState = TwostepState {
                    model,
                    before: s.before,
                    residual: s.residual,
                    target: s.target,
                    momentum,
                };
                (after, event)
            },
            _ => {
                let changes: Changes = Changes {
                    alpha: max_abs_diff(&s.model.alpha, &s.before.alpha, self.subtract),
                    beta: max_abs_diff(&s.model.beta, &s.before.beta, self.subtract),
                    low_rank: max_abs_diff_2d(&s.model.l, &s.before.l, self.subtract),
                    gamma: max_abs_diff(&s.model.gamma, &s.before.gamma, self.subtract),
                };
                (s, FitEvent::Compared(changes))
            },
        }
    }
}

/// Alternating fit of the twostep model to the control cells of a panel, but the
/// one left out, from an earlier model and from given coefficients.
pub fn estimate_model<
    R: PairSummary,
    T: TimeDecay,
    U: Binary,
    P: Binary,
    B: Binary,
    Z: Summary,
    O: Dot,
    C: WeightedMean,
    Q: CovariateFit,
    F: TwostepProximal,
    E: CellEffect<TwostepModel>,
    S: Binary,
>(
    y: &Matrix<u64>,
    x: Option<&Matrix<u64>>,
    control_mask: &Matrix<u8>,
    weights: &Matrix<u64>,
    exclude: Option<(usize, usize)>,
    lambda_nn: u64,
    from: &Option<TwostepModel>,
    gamma_init: Option<&Vec<u64>>,
    method: &TwostepMethod<R, T, U, P, B, Z, O, C, Q, F, E, S>,
) -> (r: Option<(TwostepModel, Iterations)>)
    requires
        same_shape(y, control_mask),
        same_shape(y, weights),
        covariates_fit(y, x),
        from matches Some(m) ==> m.fits(y, m.gamma@.len()),
        gamma_init matches Some(g) ==> g@.len() == covariate_count(x),
        method.ready(),
    ensures
        method.fitted(
            r,
            y,
            x,
            control_mask,
            weights,
            exclude,
            lambda_nn,
            *from,
            contents(gamma_init),
        ),
        method.max_iter == 0 ==> (r matches Some((m, it)) && it.done == 0 && !it.converged),
        r matches Some((m, it)) ==> m.fits(y, covariate_count(x)) && it.done <= method.max_iter && (
        it.converged || it.done == method.max_iter),
{
    let problem: TwostepProblem = pose_twostep(y, x, control_mask, weights, exclude, lambda_nn);
    let totals: Totals = method.total_weights(&problem.weights);
    let settings: FitSettings = FitSettings {
        lambda_nn,
        max_iter: method.max_iter,
        tol: method.tol,
        covariates: x.is_some(),
    };
    let n_cov: usize = match x {
        Some(m) => m.cols,
        None => 0,
    };
    let mut fit: TwostepFit = TwostepFit::new(settings);
    let mut state: TwostepState = start_from(y, n_cov, from, gamma_init);
    let ghost start = state;
    let ghost mut steps: Seq<TwostepStep> = Seq::empty();
    while fit.phase != TwostepPhase::Done && fit.phase != TwostepPhase::Failed
        invariant
            method.ready(),
            problem.poses(y, x, control_mask, weights, exclude, lambda_nn),
            problem.consistent(),
            problem.covariates() == covariate_count(x),
            settings == method.settings(lambda_nn, x is Some),
            method.totals(totals, &problem.weights),
            state.model.fits(&problem.y, problem.covariates()),
            same_shape(&state.residual, &problem.y),
            same_shape(&state.target, &problem.y),
            fit.wf(settings),
            fit.phase == TwostepPhase::Gamma ==> problem.x is Some,
            fit == twostep_at(settings, steps),
            state == twostep_state_at(start, steps),
            method.ran(&problem, totals, settings, start, steps),
            fit.phase == TwostepPhase::Done ==> fit.iterations.converged || fit.iterations.done
                == settings.max_iter,
            settings.max_iter == 0 ==> steps.len() == 0,
            fit.iterations.done <= settings.max_iter,
        decreases settings.max_iter - fit.iterations.done, twostep_rank(fit, settings),
    {
        let ghost earlier = steps;
        let (next, event) = method.carry_out(&problem, &totals, fit, state);
        proof {
            let step = TwostepStep { after: next, event };
            steps = steps.push(step);
            assert(steps.drop_last() =~= earlier);
            assert forall|k: int| 0 <= k < steps.len() implies method.carries_out(
                &problem,
                totals,
                twostep_at(settings, steps.take(k)),
                twostep_state_at(start, steps.take(k)),
                #[trigger] steps[k],
            ) by {
                if k < earlier.len() {
                    assert(steps.take(k) =~= earlier.take(k));
                    assert(steps[k] == earlier[k]);
                } else {
                    assert(steps.take(k) =~= earlier);
                }
            }
            law_twostep_fit_ends(fit, settings, event);
        }
        state = next;
        fit.record(settings, event);
    }
    assert(method.ran(
        &problem,
        totals,
        method.settings(lambda_nn, x is Some),
        start,
        steps,
    ));
    if fit.phase == TwostepPhase::Failed {
        None
    } else {
        Some((state.model, fit.iterations))
    }
}

proof fn lemma_same_fit<
    R: PairSummary,
    T: TimeDecay,
    U: Binary,
    P: Binary,
    B: Binary,
    Z: Summary,
    O: Dot,
    C: WeightedMean,
    Q: CovariateFit,
    F: TwostepProximal,
    E: CellEffect<TwostepModel>,
    S: Binary,
>(
    r: Option<(TwostepModel, Iterations)>,
    y1: &Matrix<u64>,
    y2: &Matrix<u64>,
    x: Option<&Matrix<u64>>,
    mask1: &Matrix<u8>,
    mask2: &Matrix<u8>,
    w1: &Matrix<u64>,
    w2: &Matrix<u64>,
    exclude1: Option<(usize, usize)>,
    exclude2: Option<(usize, usize)>,
    lambda_nn: u64,
    from: Option<TwostepModel>,
    gamma_init: Option<Seq<u64>>,
    method: &TwostepMethod<R, T, U, P, B, Z, O, C, Q, F, E, S>,
)
    requires
        same_shape(y1, y2),
        method.fitted(r, y1, x, mask1, w1, exclude1, lambda_nn, from, gamma_init),
        forall|problem: TwostepProblem| #[trigger]
            problem.poses(y1, x, mask1, w1, exclude1, lambda_nn) ==> problem.poses(
                y2,
                x,
                mask2,
                w2,
                exclude2,
                lambda_nn,
            ),
    ensures
        method.fitted(r, y2, x, mask2, w2, exclude2, lambda_nn, from, gamma_init),
{
    let (problem, totals, start, steps) = choose|
        problem: TwostepProblem,
        totals: Totals,
        start: TwostepState,
        steps: Seq<TwostepStep>,
    |
        {
            let s = method.settings(lambda_nn, x is Some);
            &&& problem.poses(y1, x, mask1, w1, exclude1, lambda_nn)
            &&& method.totals(totals, &problem.weights)
            &&& starts_from(start, from, gamma_init, y1, covariate_count(x))
            &&& #[trigger] method.ran(
                &problem,
                totals,
                method.settings(lambda_nn, x is Some),
                start,
                steps,
            )
            &&& twostep_at(s, steps).phase == TwostepPhase::Done || twostep_at(s, steps).phase
                == TwostepPhase::Failed
            &&& r == fit_outcome(
                twostep_at(s, steps).phase == TwostepPhase::Failed,
                twostep_state_at(start, steps).model,
                twostep_at(s, steps).iterations,
            )
        };
    assert(problem.poses(y2, x, mask2, w2, exclude2, lambda_nn));
    assert(starts_from(start, from, gamma_init, y2, covariate_count(x)));
    assert(method.ran(
        &problem,
        totals,
        method.settings(lambda_nn, x is Some),
        start,
        steps,
    ));
}

/// A fit without a cell is a fit with that cell masked.
pub proof fn law_fit_without_cell_is_fit_with_mask<
    R: PairSummary,
    T: TimeDecay,
    U: Binary,
    P: Binary,
    B: Binary,
    Z: Summary,
    O: Dot,
    C: WeightedMean,
    Q: CovariateFit,
    F: TwostepProximal,
    E: CellEffect<TwostepModel>,
    S: Binary,
>(
    r: Option<(TwostepModel, Iterations)>,
    y: &Matrix<u64>,
    x: Option<&Matrix<u64>>,
    control_mask: &Matrix<u8>,
    masked: &Matrix<u8>,
    weights: &Matrix<u64>,
    cell: (usize, usize),
    lambda_nn: u64,
    from: Option<TwostepModel>,
    gamma_init: Option<Seq<u64>>,
    method: &TwostepMethod<R, T, U, P, B, Z, O, C, Q, F, E, S>,
)
    requires
        same_shape(y, control_mask),
        same_shape(y, masked),
        cell.0 < y.rows,
        cell.1 < y.cols,
        masked.at(cell.0 as int, cell.1 as int) == 0,
        forall|t: usize, i: usize|
            t < y.rows && i < y.cols && (t, i) != cell ==> #[trigger] masked.at(t as int, i as int)
                == control_mask.at(t as int, i as int),
    ensures
        method.fitted(r, y, x, control_mask, weights, Some(cell), lambda_nn, from, gamma_init) == method.fitted(r, y, x, masked, weights, None, lambda_nn, from, gamma_init),
{
    if method.fitted(r, y, x, control_mask, weights, Some(cell), lambda_nn, from, gamma_init) {
        assert forall|problem: TwostepProblem| #[trigger]
            problem.poses(y, x, control_mask, weights, Some(cell), lambda_nn) implies problem.poses(y, x, masked, weights, None, lambda_nn) by {
            law_exclusion_is_masking(
            &problem,
            y,
            x,
            control_mask,
            masked,
            weights,
            cell,
            lambda_nn,
        );
        }
        lemma_same_fit(r, y, y, x, control_mask, masked, weights, weights, Some(cell), None, lambda_nn, from, gamma_init, method);
    }
    if method.fitted(r, y, x, masked, weights, None, lambda_nn, from, gamma_init) {
        assert forall|problem: TwostepProblem| #[trigger]
            problem.poses(y, x, masked, weights, None, lambda_nn) implies problem.poses(y, x, control_mask, weights, Some(cell), lambda_nn) by {
            law_exclusion_is_masking(
            &problem,
            y,
            x,
            control_mask,
            masked,
            weights,
            cell,
            lambda_nn,
        );
        }
        lemma_same_fit(r, y, y, x, masked, control_mask, weights, weights, None, Some(cell), lambda_nn, from, gamma_init, method);
    }
}

/// A fit does not depend on the outcomes and weights of cells that take no part
/// in it, the one left out among them.
pub proof fn law_fit_ignores_unfitted_cells<
    R: PairSummary,
    T: TimeDecay,
    U: Binary,
    P: Binary,
    B: Binary,
    Z: Summary,
    O: Dot,
    C: WeightedMean,
    Q: CovariateFit,
    F: TwostepProximal,
    E: CellEffect<TwostepModel>,
    S: Binary,
>(
    r: Option<(TwostepModel, Iterations)>,
    y1: &Matrix<u64>,
    y2: &Matrix<u64>,
    x: Option<&Matrix<u64>>,
    control_mask: &Matrix<u8>,
    w1: &Matrix<u64>,
    w2: &Matrix<u64>,
    exclude: Option<(usize, usize)>,
    lambda_nn: u64,
    from: Option<TwostepModel>,
    gamma_init: Option<Seq<u64>>,
    method: &TwostepMethod<R, T, U, P, B, Z, O, C, Q, F, E, S>,
)
    requires
        same_shape(y1, y2),
        forall|t: usize, i: usize|
            t < y1.rows && i < y1.cols ==> #[trigger] fitted_cell(y1, control_mask, exclude, t, i)
                == fitted_cell(y2, control_mask, exclude, t, i),
        forall|t: usize, i: usize|
            t < y1.rows && i < y1.cols && #[trigger] fitted_cell(y1, control_mask, exclude, t, i)
                ==> y1.at(t as int, i as int) == y2.at(t as int, i as int) && w1.at(
                t as int,
                i as int,
            ) == w2.at(t as int, i as int),
    ensures
        method.fitted(r, y1, x, control_mask, w1, exclude, lambda_nn, from, gamma_init) == method.fitted(r, y2, x, control_mask, w2, exclude, lambda_nn, from, gamma_init),
{
    if method.fitted(r, y1, x, control_mask, w1, exclude, lambda_nn, from, gamma_init) {
        assert forall|problem: TwostepProblem| #[trigger]
            problem.poses(y1, x, control_mask, w1, exclude, lambda_nn) implies problem.poses(y2, x, control_mask, w2, exclude, lambda_nn) by {
            law_unfitted_cells_do_not_matter(
            &problem,
            y1,
            y2,
            x,
            control_mask,
            w1,
            w2,
            exclude,
            lambda_nn,
        );
        }
        lemma_same_fit(r, y1, y2, x, control_mask, control_mask, w1, w2, exclude, exclude, lambda_nn, from, gamma_init, method);
    }
    if method.fitted(r, y2, x, control_mask, w2, exclude, lambda_nn, from, gamma_init) {
        assert forall|problem: TwostepProblem| #[trigger]
            problem.poses(y2, x, control_mask, w2, exclude, lambda_nn) implies problem.poses(y1, x, control_mask, w1, exclude, lambda_nn) by {
            law_unfitted_cells_do_not_matter(
            &problem,
            y1,
            y2,
            x,
            control_mask,
            w1,
            w2,
            exclude,
            lambda_nn,
        );
        }
        lemma_same_fit(r, y2, y1, x, control_mask, control_mask, w2, w1, exclude, exclude, lambda_nn, from, gamma_init, method);
    }
}

proof fn lemma_weightless_keeps<
    R: PairSummary,
    T: TimeDecay,
    U: Binary,
    P: Binary,
    B: Binary,
    Z: Summary,
    O: Dot,
    C: WeightedMean,
    Q: CovariateFit,
    F: TwostepProximal,
    E: CellEffect<TwostepModel>,
    S: Binary,
>(
    problem: &TwostepProblem,
    totals: Totals,
    settings: FitSettings,
    start: TwostepState,
    steps: Seq<TwostepStep>,
    method: &TwostepMethod<R, T, U, P, B, Z, O, C, Q, F, E, S>,
)
    requires
        method.ran(problem, totals, settings, start, steps),
    ensures
        twostep_state_at(start, steps).model.alpha@.len() == start.model.alpha@.len(),
        twostep_state_at(start, steps).model.beta@.len() == start.model.beta@.len(),
        forall|i: int|
            0 <= i < start.model.alpha@.len() && !bits::lt(bits::ZERO, totals.units@[i])
                ==> #[trigger] twostep_state_at(start, steps).model.alpha@[i]
                == start.model.alpha@[i],
        forall|t: int|
            0 <= t < start.model.beta@.len() && !bits::lt(bits::ZERO, totals.periods@[t])
                ==> #[trigger] twostep_state_at(start, steps).model.beta@[t]
                == start.model.beta@[t],
    decreases steps.len(),
{
    if steps.len() > 0 {
        let rest = steps.drop_last();
        let n = rest.len() as int;
        assert forall|k: int| 0 <= k < rest.len() implies method.carries_out(
            problem,
            totals,
            twostep_at(settings, rest.take(k)),
            twostep_state_at(start, rest.take(k)),
            #[trigger] rest[k],
        ) by {
            assert(rest.take(k) =~= steps.take(k));
            assert(rest[k] == steps[k]);
        }
        lemma_weightless_keeps(problem, totals, settings, start, rest, method);
        assert(steps.take(n) =~= rest);
        assert(method.carries_out(
            problem,
            totals,
            twostep_at(settings, steps.take(n)),
            twostep_state_at(start, steps.take(n)),
            steps[n],
        ));
        let (before, after) = (twostep_state_at(start, rest).model, steps[n].after.model);
        assert forall|i: int|
            0 <= i < start.model.alpha@.len() && !bits::lt(
                bits::ZERO,
                totals.units@[i],
            ) implies #[trigger] after.alpha@[i] == start.model.alpha@[i] by {
            assert(before.alpha@[i] == start.model.alpha@[i]);
        }
        assert forall|t: int|
            0 <= t < start.model.beta@.len() && !bits::lt(
                bits::ZERO,
                totals.periods@[t],
            ) implies #[trigger] after.beta@[t] == start.model.beta@[t] by {
            assert(before.beta@[t] == start.model.beta@[t]);
        }
    }
}

/// Weights that the cells of a unit have in a fit.
pub open spec fn fitted_column(
    weights: &Matrix<u64>,
    y: &Matrix<u64>,
    control_mask: &Matrix<u8>,
    exclude: Option<(usize, usize)>,
    unit: usize,
) -> Seq<u64> {
    Seq::new(
        y.rows as nat,
        |t: int| fitted_value(weights, y, control_mask, exclude, t as usize, unit),
    )
}

/// Weights that the cells of a period have in a fit.
pub open spec fn fitted_row(
    weights: &Matrix<u64>,
    y: &Matrix<u64>,
    control_mask: &Matrix<u8>,
    exclude: Option<(usize, usize)>,
    period: usize,
) -> Seq<u64> {
    Seq::new(
        y.cols as nat,
        |i: int| fitted_value(weights, y, control_mask, exclude, period, i as usize),
    )
}

/// A unit whose fitted cells carry no weight keeps the effect that the fit
/// started with, and so does such a period.
pub proof fn law_effects_without_weight_stay<
    R: PairSummary,
    T: TimeDecay,
    U: Binary,
    P: Binary,
    B: Binary,
    Z: Summary,
    O: Dot,
    C: WeightedMean,
    Q: CovariateFit,
    F: TwostepProximal,
    E: CellEffect<TwostepModel>,
    S: Binary,
>(
    r: Option<(TwostepModel, Iterations)>,
    y: &Matrix<u64>,
    x: Option<&Matrix<u64>>,
    control_mask: &Matrix<u8>,
    weights: &Matrix<u64>,
    exclude: Option<(usize, usize)>,
    lambda_nn: u64,
    from: Option<TwostepModel>,
    gamma_init: Option<Seq<u64>>,
    method: &TwostepMethod<R, T, U, P, B, Z, O, C, Q, F, E, S>,
    unit: usize,
    period: usize,
)
    requires
        method.fitted(r, y, x, control_mask, weights, exclude, lambda_nn, from, gamma_init),
        from matches Some(m) ==> m.fits(y, m.gamma@.len()),
        unit < y.cols,
        period < y.rows,
    ensures
        r matches Some((m, it)) ==> (forall|total: u64| #[trigger]
            sums_to(
                total,
                fitted_column(weights, y, control_mask, exclude, unit),
                *method.sum,
            ) ==> !bits::lt(bits::ZERO, total)) ==> m.alpha@[unit as int] == match from {
            Some(o) => o.alpha@[unit as int],
            None => bits::ZERO,
        },
        r matches Some((m, it)) ==> (forall|total: u64| #[trigger]
            sums_to(
                total,
                fitted_row(weights, y, control_mask, exclude, period),
                *method.sum,
            ) ==> !bits::lt(bits::ZERO, total)) ==> m.beta@[period as int] == match from {
            Some(o) => o.beta@[period as int],
            None => bits::ZERO,
        },
{
    let (problem, totals, start, steps) = choose|
        problem: TwostepProblem,
        totals: Totals,
        start: TwostepState,
        steps: Seq<TwostepStep>,
    |
        {
            let s = method.settings(lambda_nn, x is Some);
            &&& problem.poses(y, x, control_mask, weights, exclude, lambda_nn)
            &&& method.totals(totals, &problem.weights)
            &&& starts_from(start, from, gamma_init, y, covariate_count(x))
            &&& #[trigger] method.ran(
                &problem,
                totals,
                method.settings(lambda_nn, x is Some),
                start,
                steps,
            )
            &&& twostep_at(s, steps).phase == TwostepPhase::Done || twostep_at(s, steps).phase
                == TwostepPhase::Failed
            &&& r == fit_outcome(
                twostep_at(s, steps).phase == TwostepPhase::Failed,
                twostep_state_at(start, steps).model,
                twostep_at(s, steps).iterations,
            )
        };
    lemma_weightless_keeps(
        &problem,
        totals,
        method.settings(lambda_nn, x is Some),
        start,
        steps,
        method,
    );
    let column = fitted_column(weights, y, control_mask, exclude, unit);
    assert(column_of(&problem.weights, unit as int) =~= column) by {
        assert forall|t: int| 0 <= t < y.rows implies problem.weights.at(t, unit as int)
            == column[t] by {
            let u = t as usize;
            assert(problem.weights.at(u as int, unit as int) == fitted_value(
                weights,
                y,
                control_mask,
                exclude,
                u,
                unit,
            ));
        }
    }
    let row = fitted_row(weights, y, control_mask, exclude, period);
    assert(row_of(&problem.weights, period as int) =~= row) by {
        assert forall|i: int| 0 <= i < y.cols implies problem.weights.at(period as int, i)
            == row[i] by {
            let u = i as usize;
            assert(problem.weights.at(period as int, u as int) == fitted_value(
                weights,
                y,
                control_mask,
                exclude,
                period,
                u,
            ));
        }
    }
    assert(sums_to(totals.units@[unit as int], column, *method.sum));
    assert(sums_to(totals.periods@[period as int], row, *method.sum));
}

/// Weights are summed over whole columns for the units and over whole rows for the
/// periods.
pub proof fn law_totals_sum_every_weight<
    R: PairSummary,
    T: TimeDecay,
    U: Binary,
    P: Binary,
    B: Binary,
    Z: Summary,
    O: Dot,
    C: WeightedMean,
    Q: CovariateFit,
    F: TwostepProximal,
    E: CellEffect<TwostepModel>,
    S: Binary,
>(
    totals: Totals,
    weights: &Matrix<u64>,
    method: &TwostepMethod<R, T, U, P, B, Z, O, C, Q, F, E, S>,
    t: int,
    i: int,
)
    requires
        method.totals(totals, weights),
        0 <= t < weights.rows,
        0 <= i < weights.cols,
    ensures
        totals.units@.len() == weights.cols,
        totals.periods@.len() == weights.rows,
        exists|given: Vec<u64>|
            {
                &&& given@.len() == weights.rows
                &&& forall|s: int|
                    0 <= s < weights.rows ==> #[trigger] given@[s] == weights.at(s, i)
                &&& #[trigger] call_ensures(*method.sum, (&given,), totals.units@[i])
            },
        exists|given: Vec<u64>|
            {
                &&& given@.len() == weights.cols
                &&& forall|j: int|
                    0 <= j < weights.cols ==> #[trigger] given@[j] == weights.at(t, j)
                &&& #[trigger] call_ensures(*method.sum, (&given,), totals.periods@[t])
            },
{
    assert(sums_to(totals.units@[i], column_of(weights, i), *method.sum));
    assert(sums_to(totals.periods@[t], row_of(weights, t), *method.sum));
}

/// Taking one more number away is one more subtraction.
pub proof fn law_numbers_are_taken_away<B: Binary>(
    v: u64,
    first: u64,
    rest: Seq<u64>,
    last: u64,
    subtract: B,
)
    requires
        takes_away(v, first, rest.push(last), subtract),
    ensures
        takes_away(first, first, Seq::<u64>::empty(), subtract),
        exists|a: u64|
            takes_away(a, first, rest, subtract) && #[trigger] call_ensures(
                subtract,
                (a, last),
                v,
            ),
{
    assert(rest.push(last).drop_last() =~= rest);
}

/// What is left of a number once another one, and then what the covariates of a
/// cell explain, are taken away: one subtraction each, over all covariates.
pub proof fn law_covariates_are_taken_away<B: Binary, O: Dot>(
    v: u64,
    first: u64,
    second: u64,
    x: Option<Matrix<u64>>,
    k: int,
    gamma: Vec<u64>,
    subtract: B,
    dot: O,
)
    requires
        leaves(v, first, seq![second], x, k, gamma, subtract, dot),
    ensures
        x is None ==> call_ensures(subtract, (first, second), v),
        x matches Some(m) ==> exists|covariates: Vec<u64>, e: u64, a: u64|
            {
                &&& covariates@.len() == m.cols
                &&& forall|p: int|
                    0 <= p < m.cols ==> #[trigger] covariates@[p] == m.at(k, p)
                &&& #[trigger] call_ensures(dot, (&covariates, &gamma), e)
                &&& call_ensures(subtract, (first, second), a)
                &&& #[trigger] call_ensures(subtract, (a, e), v)
            },
{
    let rest = seq![second];
    match x {
        Some(m) => {
            let (covariates, e) = choose|covariates: Vec<u64>, e: u64|
                {
                    &&& covariates@ == row_of(&m, k)
                    &&& #[trigger] call_ensures(dot, (&covariates, &gamma), e)
                    &&& takes_away(v, first, rest.push(e), subtract)
                };
            law_numbers_are_taken_away(v, first, rest, e, subtract);
            let a = choose|a: u64|
                takes_away(a, first, rest, subtract) && #[trigger] call_ensures(
                    subtract,
                    (a, e),
                    v,
                );
            lemma_one_taken_away(a, first, second, subtract);
            assert(call_ensures(subtract, (a, e), v));
        },
        None => {
            lemma_one_taken_away(v, first, second, subtract);
        },
    }
}

proof fn lemma_one_taken_away<B: Binary>(v: u64, first: u64, second: u64, subtract: B)
    requires
        takes_away(v, first, seq![second], subtract),
    ensures
        call_ensures(subtract, (first, second), v),
{
    assert(seq![second] =~= Seq::<u64>::empty().push(second));
    law_numbers_are_taken_away(v, first, Seq::<u64>::empty(), second, subtract);
}

/// The residual of a cell is its outcome less the low-rank component, and less what
/// its covariates explain.  The effect of a unit becomes the weighted mean, over
/// all periods, of its residuals less the period effects, under the weights of its
/// cells; where these do not sum to more than zero, it stays.
pub proof fn law_unit_effects_are_weighted_means<
    R: PairSummary,
    T: TimeDecay,
    U: Binary,
    P: Binary,
    B: Binary,
    Z: Summary,
    O: Dot,
    C: WeightedMean,
    Q: CovariateFit,
    F: TwostepProximal,
    E: CellEffect<TwostepModel>,
    S: Binary,
>(
    problem: &TwostepProblem,
    totals: Totals,
    f: TwostepFit,
    s: TwostepState,
    step: TwostepStep,
    method: &TwostepMethod<R, T, U, P, B, Z, O, C, Q, F, E, S>,
    t: usize,
    i: usize,
)
    requires
        method.carries_out(problem, totals, f, s, step),
        f.phase == TwostepPhase::Alpha,
        t < problem.y.rows,
        i < problem.y.cols,
        i < s.model.alpha@.len(),
    ensures
        step.event == FitEvent::Updated,
        problem.x is None ==> call_ensures(
            *method.subtract,
            (problem.y.at(t as int, i as int), s.model.l.at(t as int, i as int)),
            step.after.residual.at(t as int, i as int),
        ),
        leaves(
            step.after.residual.at(t as int, i as int),
            problem.y.at(t as int, i as int),
            seq![s.model.l.at(t as int, i as int)],
            problem.x,
            t * problem.y.cols + i,
            s.model.gamma,
            *method.subtract,
            *method.dot,
        ),
        !bits::lt(bits::ZERO, totals.units@[i as int]) ==> step.after.model.alpha@[i as int]
            == s.model.alpha@[i as int],
        bits::lt(bits::ZERO, totals.units@[i as int]) ==> exists|terms: Vec<(u64, u64)>|
            {
                &&& terms@.len() == problem.weights.rows
                &&& forall|r: int|
                    0 <= r < problem.weights.rows ==> (#[trigger] terms@[r]).0
                        == problem.weights.at(r, i as int)
                &&& forall|r: int|
                    0 <= r < problem.weights.rows && r < step.after.residual.rows ==> call_ensures(
                        *method.subtract,
                        (step.after.residual.at(r, i as int), s.model.beta@[r]),
                        (#[trigger] terms@[r]).1,
                    )
                &&& #[trigger] call_ensures(
                    *method.weighted_mean,
                    (&terms, totals.units@[i as int]),
                    step.after.model.alpha@[i as int],
                )
            },
        step.after.model.beta == s.model.beta,
        step.after.model.l == s.model.l,
        step.after.model.gamma == s.model.gamma,
{
    let r = step.after.residual.at(t as int, i as int);
    assert(leaves(
        r,
        problem.y.at(t as int, i as int),
        seq![s.model.l.at(t as int, i as int)],
        problem.x,
        offset(problem.y.cols as int, t as int, i as int),
        s.model.gamma,
        *method.subtract,
        *method.dot,
    ));
    law_covariates_are_taken_away(
        r,
        problem.y.at(t as int, i as int),
        s.model.l.at(t as int, i as int),
        problem.x,
        offset(problem.y.cols as int, t as int, i as int),
        s.model.gamma,
        *method.subtract,
        *method.dot,
    );
    let alpha = step.after.model.alpha@[i as int];
    if bits::lt(bits::ZERO, totals.units@[i as int]) {
        let (w, z) = (
            column_of(&problem.weights, i as int),
            column_of(&step.after.residual, i as int),
        );
        assert(method.averages(alpha, w, z, s.model.beta@, totals.units@[i as int]));
        let terms = choose|terms: Vec<(u64, u64)>|
            {
                &&& terms@.len() == w.len()
                &&& forall|k: int|
                    0 <= k < w.len() ==> (#[trigger] terms@[k]).0 == w[k] && call_ensures(
                        *method.subtract,
                        (z[k], s.model.beta@[k]),
                        terms@[k].1,
                    )
                &&& #[trigger] call_ensures(
                    *method.weighted_mean,
                    (&terms, totals.units@[i as int]),
                    alpha,
                )
            };
        assert forall|k: int|
            0 <= k < problem.weights.rows && k < step.after.residual.rows implies call_ensures(
            *method.subtract,
            (step.after.residual.at(k, i as int), s.model.beta@[k]),
            (#[trigger] terms@[k]).1,
        ) by {
            assert(z[k] == step.after.residual.at(k, i as int));
        }
    } else {
        assert(alpha == s.model.alpha@[i as int]);
    }
}

/// The effect of a period becomes the weighted mean, over all units, of its
/// residuals less the unit effects, under the weights of its cells; where these do
/// not sum to more than zero, it stays.
pub proof fn law_period_effects_are_weighted_means<
    R: PairSummary,
    T: TimeDecay,
    U: Binary,
    P: Binary,
    B: Binary,
    Z: Summary,
    O: Dot,
    C: WeightedMean,
    Q: CovariateFit,
    F: TwostepProximal,
    E: CellEffect<TwostepModel>,
    S: Binary,
>(
    problem: &TwostepProblem,
    totals: Totals,
    f: TwostepFit,
    s: TwostepState,
    step: TwostepStep,
    method: &TwostepMethod<R, T, U, P, B, Z, O, C, Q, F, E, S>,
    t: usize,
)
    requires
        method.carries_out(problem, totals, f, s, step),
        f.phase == TwostepPhase::Beta,
        t < s.model.beta@.len(),
    ensures
        step.event == FitEvent::Updated,
        !bits::lt(bits::ZERO, totals.periods@[t as int]) ==> step.after.model.beta@[t as int]
            == s.model.beta@[t as int],
        bits::lt(bits::ZERO, totals.periods@[t as int]) ==> exists|terms: Vec<(u64, u64)>|
            {
                &&& terms@.len() == problem.weights.cols
                &&& forall|i: int|
                    0 <= i < problem.weights.cols ==> (#[trigger] terms@[i]).0
                        == problem.weights.at(t as int, i)
                &&& forall|i: int|
                    0 <= i < problem.weights.cols && i < s.residual.cols ==> call_ensures(
                        *method.subtract,
                        (s.residual.at(t as int, i), s.model.alpha@[i]),
                        (#[trigger] terms@[i]).1,
                    )
                &&& #[trigger] call_ensures(
                    *method.weighted_mean,
                    (&terms, totals.periods@[t as int]),
                    step.after.model.beta@[t as int],
                )
            },
        step.after.model.alpha == s.model.alpha,
        step.after.model.l == s.model.l,
        step.after.model.gamma == s.model.gamma,
{
    let beta = step.after.model.beta@[t as int];
    if bits::lt(bits::ZERO, totals.periods@[t as int]) {
        let (w, z) = (row_of(&problem.weights, t as int), row_of(&s.residual, t as int));
        assert(method.averages(beta, w, z, s.model.alpha@, totals.periods@[t as int]));
        let terms = choose|terms: Vec<(u64, u64)>|
            {
                &&& terms@.len() == w.len()
                &&& forall|k: int|
                    0 <= k < w.len() ==> (#[trigger] terms@[k]).0 == w[k] && call_ensures(
                        *method.subtract,
                        (z[k], s.model.alpha@[k]),
                        terms@[k].1,
                    )
                &&& #[trigger] call_ensures(
                    *method.weighted_mean,
                    (&terms, totals.periods@[t as int]),
                    beta,
                )
            };
        assert forall|k: int|
            0 <= k < problem.weights.cols && k < s.residual.cols implies call_ensures(
            *method.subtract,
            (s.residual.at(t as int, k), s.model.alpha@[k]),
            (#[trigger] terms@[k]).1,
        ) by {
            assert(z[k] == s.residual.at(t as int, k));
        }
    } else {
        assert(beta == s.model.beta@[t as int]);
    }
}

/// The low-rank component is drawn, in every cell that takes part with a positive
/// weight, towards the outcome less the unit effect and the period effect, and less
/// what the covariates explain; in every other cell towards what it is.
pub proof fn law_component_is_drawn_to_residuals<
    R: PairSummary,
    T: TimeDecay,
    U: Binary,
    P: Binary,
    B: Binary,
    Z: Summary,
    O: Dot,
    C: WeightedMean,
    Q: CovariateFit,
    F: TwostepProximal,
    E: CellEffect<TwostepModel>,
    S: Binary,
>(
    target: &Matrix<u64>,
    problem: &TwostepProblem,
    model: TwostepModel,
    method: &TwostepMethod<R, T, U, P, B, Z, O, C, Q, F, E, S>,
    t: usize,
    i: usize,
)
    requires
        method.leaves_component(target, problem, model),
        t < problem.y.rows,
        i < problem.y.cols,
    ensures
        !problem.support.at(t as int, i as int) ==> target.at(t as int, i as int) == model.l.at(
            t as int,
            i as int,
        ),
        problem.support.at(t as int, i as int) ==> leaves(
            target.at(t as int, i as int),
            problem.y.at(t as int, i as int),
            seq![model.alpha@[i as int], model.beta@[t as int]],
            problem.x,
            t * problem.y.cols + i,
            model.gamma,
            *method.subtract,
            *method.dot,
        ),
        problem.support.at(t as int, i as int) && problem.x is None ==> exists|a: u64|
            call_ensures(
                *method.subtract,
                (problem.y.at(t as int, i as int), model.alpha@[i as int]),
                a,
            ) && #[trigger] call_ensures(
                *method.subtract,
                (a, model.beta@[t as int]),
                target.at(t as int, i as int),
            ),
{
    let v = target.at(t as int, i as int);
    assert(offset(problem.y.cols as int, t as int, i as int) == t * problem.y.cols + i);
    if problem.support.at(t as int, i as int) {
        let (first, alpha, beta) = (
            problem.y.at(t as int, i as int),
            model.alpha@[i as int],
            model.beta@[t as int],
        );
        assert(leaves(
            v,
            first,
            seq![alpha, beta],
            problem.x,
            offset(problem.y.cols as int, t as int, i as int),
            model.gamma,
            *method.subtract,
            *method.dot,
        ));
        if problem.x is None {
            assert(seq![alpha, beta] =~= seq![alpha].push(beta));
            law_numbers_are_taken_away(v, first, seq![alpha], beta, *method.subtract);
            let a = choose|a: u64|
                takes_away(a, first, seq![alpha], *method.subtract) && #[trigger] call_ensures(
                    *method.subtract,
                    (a, beta),
                    v,
                );
            lemma_one_taken_away(a, first, alpha, *method.subtract);
            assert(call_ensures(*method.subtract, (a, beta), v));
        }
    }
}

/// The covariate coefficients are fitted to the outcomes less the unit effects, the
/// period effects and the low-rank component, of all cells.
pub proof fn law_covariates_explain_residuals<
    R: PairSummary,
    T: TimeDecay,
    U: Binary,
    P: Binary,
    B: Binary,
    Z: Summary,
    O: Dot,
    C: WeightedMean,
    Q: CovariateFit,
    F: TwostepProximal,
    E: CellEffect<TwostepModel>,
    S: Binary,
>(
    problem: &TwostepProblem,
    totals: Totals,
    f: TwostepFit,
    s: TwostepState,
    step: TwostepStep,
    method: &TwostepMethod<R, T, U, P, B, Z, O, C, Q, F, E, S>,
)
    requires
        method.carries_out(problem, totals, f, s, step),
        f.phase == TwostepPhase::Gamma,
    ensures
        exists|unexplained: Matrix<u64>|
            {
                &&& #[trigger] call_ensures(
                    *method.covariate_fit,
                    (problem, &unexplained, &s.model.gamma),
                    step.after.model.gamma,
                )
                &&& unexplained.rows == problem.y.rows
                &&& unexplained.cols == problem.y.cols
                &&& forall|t: usize, i: usize|
                    t < problem.y.rows && i < problem.y.cols ==> takes_away(
                        #[trigger] unexplained.at(t as int, i as int),
                        problem.y.at(t as int, i as int),
                        seq![
                            s.model.alpha@[i as int],
                            s.model.beta@[t as int],
                            s.model.l.at(t as int, i as int),
                        ],
                        *method.subtract,
                    )
            },
        step.after.model.alpha == s.model.alpha,
        step.after.model.beta == s.model.beta,
        step.after.model.l == s.model.l,
        method.leaves_component(&step.after.target, problem, step.after.model),
{
    let unexplained = choose|unexplained: Matrix<u64>| #[trigger]
        method.leaves_covariates(&unexplained, problem, s.model) && call_ensures(
            *method.covariate_fit,
            (problem, &unexplained, &s.model.gamma),
            step.after.model.gamma,
        );
    assert(method.leaves_covariates(&unexplained, problem, s.model));
}

/// In closed form the low-rank component becomes its target; in a proximal step it
/// becomes what the step gives from target, component and momentum; no effect
/// changes in either, nor in a comparison.
pub proof fn law_component_phases<
    R: PairSummary,
    T: TimeDecay,
    U: Binary,
    P: Binary,
    B: Binary,
    Z: Summary,
    O: Dot,
    C: WeightedMean,
    Q: CovariateFit,
    F: TwostepProximal,
    E: CellEffect<TwostepModel>,
    S: Binary,
>(
    problem: &TwostepProblem,
    totals: Totals,
    f: TwostepFit,
    s: TwostepState,
    step: TwostepStep,
    method: &TwostepMethod<R, T, U, P, B, Z, O, C, Q, F, E, S>,
)
    requires
        method.carries_out(problem, totals, f, s, step),
        f.phase != TwostepPhase::Alpha,
        f.phase != TwostepPhase::Beta,
        f.phase != TwostepPhase::Gamma,
    ensures
        f.phase == TwostepPhase::ClosedForm || f.phase == TwostepPhase::Proximal || f.phase
            == TwostepPhase::Compare,
        f.phase == TwostepPhase::ClosedForm ==> step.after.model.l.data@ == s.target.data@
            && step.event == FitEvent::Updated,
        f.phase == TwostepPhase::Proximal ==> call_ensures(
            *method.proximal,
            (problem, f.fresh, &s.target, &s.model.l, &s.momentum),
            (step.after.model.l, step.after.momentum, step.event),
        ),
        f.phase == TwostepPhase::Compare ==> step.after == s && (
        step.event matches FitEvent::Compared(c) && differs_by(
            c.alpha,
            s.model.alpha@,
            s.before.alpha@,
            *method.subtract,
        ) && differs_by(c.beta, s.model.beta@, s.before.beta@, *method.subtract) && differs_by(
            c.low_rank,
            s.model.l.data@,
            s.before.l.data@,
            *method.subtract,
        ) && differs_by(c.gamma, s.model.gamma@, s.before.gamma@, *method.subtract)),
        step.after.model.alpha == s.model.alpha,
        step.after.model.beta == s.model.beta,
        step.after.model.gamma == s.model.gamma,
        step.after.before == s.before,
        step.after.target == s.target,
{
}

/// A fit starts from the effects and the component of an earlier model, and from
/// zeros without one; its coefficients start from those given, or from zeros.
pub proof fn law_fit_starts(
    s: TwostepState,
    from: Option<TwostepModel>,
    gamma_init: Option<Seq<u64>>,
    y: &Matrix<u64>,
    n_cov: nat,
    t: usize,
    i: usize,
)
    requires
        starts_from(s, from, gamma_init, y, n_cov),
        t < y.rows,
        i < y.cols,
    ensures
        from matches Some(m) ==> s.model.alpha@ == m.alpha@ && s.model.beta@ == m.beta@
            && s.model.l.data@ == m.l.data@,
        from is None ==> s.model.alpha@.len() == y.cols && s.model.alpha@[i as int] == bits::ZERO
            && s.model.beta@.len() == y.rows && s.model.beta@[t as int] == bits::ZERO
            && s.model.l.at(t as int, i as int) == bits::ZERO,
        gamma_init matches Some(g) ==> s.model.gamma@ == g,
        gamma_init is None ==> s.model.gamma@.len() == n_cov && forall|p: int|
            0 <= p < n_cov ==> #[trigger] s.model.gamma@[p] == bits::ZERO,
        s.momentum.previous.at(t as int, i as int) == bits::ZERO,
        s.momentum.factor == bits::ONE,
{
}

/// The outcome of a fit is that of its phases, carried out one after the other from
/// the start to the end: nothing where one of them failed, and otherwise the model
/// that the last one left.
pub proof fn law_fit_is_a_run<
    R: PairSummary,
    T: TimeDecay,
    U: Binary,
    P: Binary,
    B: Binary,
    Z: Summary,
    O: Dot,
    C: WeightedMean,
    Q: CovariateFit,
    F: TwostepProximal,
    E: CellEffect<TwostepModel>,
    S: Binary,
>(
    y: &Matrix<u64>,
    x: Option<&Matrix<u64>>,
    control_mask: &Matrix<u8>,
    weights: &Matrix<u64>,
    exclude: Option<(usize, usize)>,
    lambda_nn: u64,
    from: &Option<TwostepModel>,
    gamma_init: Option<&Vec<u64>>,
    method: &TwostepMethod<R, T, U, P, B, Z, O, C, Q, F, E, S>,
    r: Option<(TwostepModel, Iterations)>,
)
    requires
        method.fitted(
            r,
            y,
            x,
            control_mask,
            weights,
            exclude,
            lambda_nn,
            *from,
            contents(gamma_init),
        ),
    ensures
        exists|
            problem: TwostepProblem,
            totals: Totals,
            start: TwostepState,
            steps: Seq<TwostepStep>,
            s: FitSettings,
        |
            {
                &&& s.lambda_nn == lambda_nn
                &&& s.max_iter == method.max_iter
                &&& s.tol == method.tol
                &&& s.covariates == x is Some
                &&& problem.poses(y, x, control_mask, weights, exclude, lambda_nn)
                &&& method.totals(totals, &problem.weights)
                &&& starts_from(start, *from, contents(gamma_init), y, covariate_count(x))
                &&& #[trigger] method.ran(&problem, totals, s, start, steps)
                &&& r is None <==> twostep_at(s, steps).phase == TwostepPhase::Failed
                &&& r is Some <==> twostep_at(s, steps).phase == TwostepPhase::Done
                &&& r matches Some((model, it)) ==> it == twostep_at(s, steps).iterations
                    && model == if steps.len() > 0 {
                    steps.last().after.model
                } else {
                    start.model
                }
            },
{
    let (problem, totals, start, steps) = choose|
        problem: TwostepProblem,
        totals: Totals,
        start: TwostepState,
        steps: Seq<TwostepStep>,
    |
        {
            let s = method.settings(lambda_nn, x is Some);
            &&& problem.poses(y, x, control_mask, weights, exclude, lambda_nn)
            &&& method.totals(totals, &problem.weights)
            &&& starts_from(start, *from, contents(gamma_init), y, covariate_count(x))
            &&& #[trigger] method.ran(
                &problem,
                totals,
                method.settings(lambda_nn, x is Some),
                start,
                steps,
            )
            &&& twostep_at(s, steps).phase == TwostepPhase::Done || twostep_at(s, steps).phase
                == TwostepPhase::Failed
            &&& r == fit_outcome(
                twostep_at(s, steps).phase == TwostepPhase::Failed,
                twostep_state_at(start, steps).model,
                twostep_at(s, steps).iterations,
            )
        };
    let s = method.settings(lambda_nn, x is Some);
    assert(method.ran(&problem, totals, s, start, steps));
}

/// A run carries out every phase that the fit comes to, from the state that the
/// one before it left.
pub proof fn law_run_carries_out_every_phase<
    R: PairSummary,
    T: TimeDecay,
    U: Binary,
    P: Binary,
    B: Binary,
    Z: Summary,
    O: Dot,
    C: WeightedMean,
    Q: CovariateFit,
    F: TwostepProximal,
    E: CellEffect<TwostepModel>,
    S: Binary,
>(
    problem: &TwostepProblem,
    totals: Totals,
    s: FitSettings,
    start: TwostepState,
    steps: Seq<TwostepStep>,
    method: &TwostepMethod<R, T, U, P, B, Z, O, C, Q, F, E, S>,
    k: int,
)
    requires
        method.ran(problem, totals, s, start, steps),
        0 <= k < steps.len(),
    ensures
        method.carries_out(
            problem,
            totals,
            twostep_at(s, steps.take(k)),
            if k > 0 {
                steps[k - 1].after
            } else {
                start
            },
            steps[k],
        ),
        k == 0 ==> twostep_at(s, steps.take(k)) == twostep_new(s),
        k > 0 ==> twostep_at(s, steps.take(k)) == twostep_advanced(
            twostep_at(s, steps.take(k - 1)),
            s,
            steps[k - 1].event,
        ),
{
    assert(method.carries_out(
        problem,
        totals,
        twostep_at(s, steps.take(k)),
        twostep_state_at(start, steps.take(k)),
        steps[k],
    ));
    if k > 0 {
        assert(steps.take(k).drop_last() =~= steps.take(k - 1));
    }
}

/// A fit has a coefficient for every column of its covariates.
pub proof fn law_covariate_count(x: Option<&Matrix<u64>>)
    ensures
        x is None ==> covariate_count(x) == 0,
        x matches Some(m) ==> covariate_count(x) == m.cols,
{
}

/// Estimating a model is fitting it, with what it is given.
pub proof fn law_model_is_fitted<
    R: PairSummary,
    T: TimeDecay,
    U: Binary,
    P: Binary,
    B: Binary,
    Z: Summary,
    O: Dot,
    C: WeightedMean,
    Q: CovariateFit,
    F: TwostepProximal,
    E: CellEffect<TwostepModel>,
    S: Binary,
>(
    y: &Matrix<u64>,
    x: Option<&Matrix<u64>>,
    control_mask: &Matrix<u8>,
    weights: &Matrix<u64>,
    exclude: Option<(usize, usize)>,
    lambda_nn: u64,
    from: &Option<TwostepModel>,
    gamma_init: Option<&Vec<u64>>,
    method: &TwostepMethod<R, T, U, P, B, Z, O, C, Q, F, E, S>,
    r: Option<(TwostepModel, Iterations)>,
)
    requires
        call_ensures(
            estimate_model::<R, T, U, P, B, Z, O, C, Q, F, E, S>,
            (y, x, control_mask, weights, exclude, lambda_nn, from, gamma_init, method),
            r,
        ),
    ensures
        method.fitted(
            r,
            y,
            x,
            control_mask,
            weights,
            exclude,
            lambda_nn,
            *from,
            contents(gamma_init),
        ),
        r matches Some((model, it)) ==> it.done <= method.max_iter,
{
}

} // verus!

//! Twostep fits of the cells of a panel, given the arithmetic.
//!
//! Every cell has a fit of its own: the weights are centred on it, and in
//! cross-validation the cell itself is left out.
use crate::alternating::{
    covariate_count, estimate_model, CovariateFit, Dot, TwostepModel, TwostepProximal,
    WeightedMean,
};
use crate::arithmetic::{effect_ready, Binary, CellEffect, PairSummary, Summary, TimeDecay};
use crate::bootstrap::covariates_fit;
use crate::distance::UnitDistanceCache;
use crate::estimation::Iterations;
use crate::fit::{FitEvent, FitSettings};
use crate::joint::Momentum;
use crate::kernels::{compute_weight_matrix_cached, weighs_cells};
use crate::matrix::Matrix;
use crate::model::TwostepProblem;
use crate::panel::same_shape;
use crate::tuning::Lambdas;
use vstd::prelude::*;

verus! {

/// A panel that cells are fitted on.
pub struct TwostepPanel<'a> {
    pub y: &'a Matrix<u64>,
    pub d: &'a Matrix<u64>,
    /// Covariates, one row per cell, where there are any.
    pub x: Option<&'a Matrix<u64>>,
    /// Cells that may take part in a fit.
    pub control_mask: &'a Matrix<u8>,
    /// Distances between periods.
    pub time_dist: &'a Matrix<i64>,
    /// What distances between units are read off.
    pub cache: &'a UnitDistanceCache,
}

impl<'a> TwostepPanel<'a> {
    /// The tables fit together.
    pub open spec fn wf(&self) -> bool {
        &&& same_shape(self.y, self.d)
        &&& same_shape(self.y, self.control_mask)
        &&& covariates_fit(self.y, self.x)
        &&& self.time_dist.wf()
        &&& self.time_dist.rows == self.y.rows
        &&& self.time_dist.cols == self.y.rows
        &&& self.cache.caches(self.y, self.d)
    }

    /// A cell lies in the panel.
    pub open spec fn has(&self, cell: (usize, usize)) -> bool {
        cell.0 < self.y.rows && cell.1 < self.y.cols
    }
}

/// The twostep method on encodings.
pub struct TwostepMethod<'a, R, T, U, P, B, Z, O, C, Q, F, E, S> {
    /// Iterations of a fit, at most.
    pub max_iter: usize,
    /// Change below which a fit has settled.
    pub tol: u64,
    /// Root mean square of the differences of some pairs.
    pub rms: &'a R,
    /// Weight of a period, from the bandwidth and its distance.
    pub time_decay: &'a T,
    /// Weight of a unit, from the bandwidth and its distance.
    pub unit_decay: &'a U,
    /// Product of two weights.
    pub multiply: &'a P,
    /// Difference of two numbers.
    pub subtract: &'a B,
    /// Sum of some weights.
    pub sum: &'a Z,
    /// Product of the covariates of a cell and the coefficients.
    pub dot: &'a O,
    /// Weighted mean of some residuals.
    pub weighted_mean: &'a C,
    /// Covariate coefficients, given the other blocks.
    pub covariate_fit: &'a Q,
    /// Proximal step of the low-rank component.
    pub proximal: &'a F,
    /// Effect of a cell under a model.
    pub effect: &'a E,
    /// A sum with the square of an effect added.
    pub add_square: &'a S,
}

impl<
    'a,
    R: PairSummary,
    T: TimeDecay,
    U: Binary,
    P: Binary,
    B: Binary,
    Z: Summary,
    O: Dot,
    C: WeightedMean,
    Q: CovariateFit,
    F: TwostepProximal,
    E: CellEffect<TwostepModel>,
    S: Binary,
> TwostepMethod<'a, R, T, U, P, B, Z, O, C, Q, F, E, S> {
    /// The functions can be called, covariate coefficients keep their number,
    /// and a proximal step keeps the shape of the component.
    pub open spec fn ready(&self) -> bool {
        &&& forall|pairs: &Vec<(u64, u64)>| #[trigger] call_requires(*self.rms, (pairs,))
        &&& forall|a: u64, b: i64| #[trigger] call_requires(*self.time_decay, (a, b))
        &&& forall|a: u64, b: u64| #[trigger] call_requires(*self.unit_decay, (a, b))
        &&& forall|a: u64, b: u64| #[trigger] call_requires(*self.multiply, (a, b))
        &&& forall|a: u64, b: u64| #[trigger] call_requires(*self.subtract, (a, b))
        &&& forall|v: &Vec<u64>| #[trigger] call_requires(*self.sum, (v,))
        &&& forall|a: &Vec<u64>, b: &Vec<u64>| #[trigger] call_requires(*self.dot, (a, b))
        &&& forall|terms: &Vec<(u64, u64)>, total: u64| #[trigger]
            call_requires(*self.weighted_mean, (terms, total))
        &&& forall|p: &TwostepProblem, r: &Matrix<u64>, g: &Vec<u64>| #[trigger]
            call_requires(*self.covariate_fit, (p, r, g))
        &&& forall|p: &TwostepProblem, r: &Matrix<u64>, g: &Vec<u64>, out: Vec<u64>| #[trigger]
            call_ensures(*self.covariate_fit, (p, r, g), out) ==> out@.len() == g@.len()
        &&& forall|
            p: &TwostepProblem,
            fresh: bool,
            target: &Matrix<u64>,
            l: &Matrix<u64>,
            m: &Momentum,
        | #[trigger]
            call_requires(*self.proximal, (p, fresh, target, l, m))
        &&& forall|
            p: &TwostepProblem,
            fresh: bool,
            target: &Matrix<u64>,
            l: &Matrix<u64>,
            m: &Momentum,
            out: (Matrix<u64>, Momentum, FitEvent),
        | #[trigger]
            call_ensures(*self.proximal, (p, fresh, target, l, m), out) ==> same_shape(
                &out.0,
                &p.y,
            )
        &&& effect_ready::<TwostepModel, E>(*self.effect)
        &&& forall|a: u64, b: u64| #[trigger] call_requires(*self.add_square, (a, b))
    }

    /// What stays the same over a fit.
    pub open spec fn settings(&self, lambda_nn: u64, covariates: bool) -> FitSettings {
        FitSettings { lambda_nn, max_iter: self.max_iter, tol: self.tol, covariates }
    }

    /// `w` are the weights of the cells of a panel, centred on `cell`.
    pub open spec fn weighs(
        &self,
        w: &Matrix<u64>,
        panel: &TwostepPanel,
        lambdas: Lambdas,
        cell: (usize, usize),
    ) -> bool {
        weighs_cells(
            w,
            panel.cache,
            cell.1,
            cell.0,
            lambdas.time,
            lambdas.unit,
            panel.time_dist,
            *self.rms,
            *self.time_decay,
            *self.unit_decay,
            *self.multiply,
        )
    }

    /// `r` is the outcome of the fit for `cell`: under the weights centred on
    /// it, without the cell `exclude`, and started from an earlier model.
    pub open spec fn fits(
        &self,
        r: Option<(TwostepModel, Iterations)>,
        panel: &TwostepPanel,
        lambdas: Lambdas,
        cell: (usize, usize),
        exclude: Option<(usize, usize)>,
        from: Option<TwostepModel>,
    ) -> bool {
        exists|w: Matrix<u64>| #[trigger]
            self.weighs(&w, panel, lambdas, cell) && self.fitted(
                r,
                panel.y,
                panel.x,
                panel.control_mask,
                &w,
                exclude,
                lambdas.nn,
                from,
                None,
            )
    }

    /// `r` is what comes of leaving out `cell`: the model of the fit without
    /// it, and the sum with the square of the effect of the cell under that
    /// model added; nothing where the fit fails.
    pub open spec fn scores(
        &self,
        r: Option<(TwostepModel, u64)>,
        panel: &TwostepPanel,
        lambdas: Lambdas,
        cell: (usize, usize),
        from: Option<TwostepModel>,
        sum: u64,
    ) -> bool {
        exists|fit: Option<(TwostepModel, Iterations)>|
            {
                &&& #[trigger] self.fits(fit, panel, lambdas, cell, Some(cell), from)
                &&& match fit {
                    Some((model, it)) => r matches Some((kept, total)) && kept == model && exists|
                        tau: u64,
                    |
                        {
                            &&& #[trigger] call_ensures(
                                *self.effect,
                                (panel.y, panel.x, &model, cell),
                                tau,
                            )
                            &&& call_ensures(*self.add_square, (sum, tau), total)
                        },
                    None => r is None,
                }
            }
    }

    /// `r` is what comes of estimating the effect of `cell`: the model of its
    /// fit, and the effect of the cell under that model; nothing where the fit
    /// fails.
    pub open spec fn estimates(
        &self,
        r: Option<(TwostepModel, u64)>,
        panel: &TwostepPanel,
        lambdas: Lambdas,
        cell: (usize, usize),
        from: Option<TwostepModel>,
    ) -> bool {
        exists|fit: Option<(TwostepModel, Iterations)>|
            {
                &&& #[trigger] self.fits(fit, panel, lambdas, cell, None, from)
                &&& match fit {
                    Some((model, it)) => r matches Some((kept, tau)) && kept == model
                        && call_ensures(*self.effect, (panel.y, panel.x, &model, cell), tau),
                    None => r is None,
                }
            }
    }
}

/// Fit for a cell: under the weights centred on it, without the cell
/// `exclude`, and started from the model of an earlier fit.
pub fn fit_without<
    R: PairSummary,
    T: TimeDecay,
    U: Binary,
    P: Binary,
    B: Binary,
    Z: Summary,
    O: Dot,
    C: WeightedMean,
    Q: CovariateFit,
    F: TwostepProximal,
    E: CellEffect<TwostepModel>,
    S: Binary,
>(
    panel: &TwostepPanel,
    lambdas: Lambdas,
    cell: (usize, usize),
    exclude: Option<(usize, usize)>,
    from: &Option<TwostepModel>,
    method: &TwostepMethod<R, T, U, P, B, Z, O, C, Q, F, E, S>,
) -> (r: Option<(TwostepModel, Iterations)>)
    requires
        panel.wf(),
        panel.has(cell),
        from matches Some(m) ==> m.fits(panel.y, m.gamma@.len()),
        method.ready(),
    ensures
        method.fits(r, panel, lambdas, cell, exclude, *from),
        r matches Some((model, it)) ==> it.done <= method.max_iter && model.fits(
            panel.y,
            covariate_count(panel.x),
        ),
{
    let w: Matrix<u64> = compute_weight_matrix_cached(
        panel.cache,
        cell.1,
        cell.0,
        lambdas.time,
        lambdas.unit,
        panel.time_dist,
        method.rms,
        method.time_decay,
        method.unit_decay,
        method.multiply,
    );
    let r: Option<(TwostepModel, Iterations)> = estimate_model(
        panel.y,
        panel.x,
        panel.control_mask,
        &w,
        exclude,
        lambdas.nn,
        from,
        None,
        method,
    );
    assert(method.weighs(&w, panel, lambdas, cell));
    r
}

/// Leaves out a cell: the model of the fit without it, and the sum with the
/// square of its effect added.
pub fn score_without<
    R: PairSummary,
    T: TimeDecay,
    U: Binary,
    P: Binary,
    B: Binary,
    Z: Summary,
    O: Dot,
    C: WeightedMean,
    Q: CovariateFit,
    F: TwostepProximal,
    E: CellEffect<TwostepModel>,
    S: Binary,
>(
    panel: &TwostepPanel,
    lambdas: Lambdas,
    cell: (usize, usize),
    from: &Option<TwostepModel>,
    sum: u64,
    method: &TwostepMethod<R, T, U, P, B, Z, O, C, Q, F, E, S>,
) -> (r: Option<(TwostepModel, u64)>)
    requires
        panel.wf(),
        panel.has(cell),
        from matches Some(m) ==> m.fits(panel.y, m.gamma@.len()),
        method.ready(),
    ensures
        method.scores(r, panel, lambdas, cell, *from, sum),
        r matches Some((model, v)) ==> model.fits(panel.y, covariate_count(panel.x)),
{
    let fit: Option<(TwostepModel, Iterations)> = fit_without(
        panel,
        lambdas,
        cell,
        Some(cell),
        from,
        method,
    );
    assert(method.fits(fit, panel, lambdas, cell, Some(cell), *from));
    match fit {
        Some((model, _)) => {
            let tau: u64 = (*method.effect)(panel.y, panel.x, &model, cell);
            assert(call_ensures(*method.effect, (panel.y, panel.x, &model, cell), tau));
            let total: u64 = (*method.add_square)(sum, tau);
            Some((model, total))
        },
        None => None,
    }
}

/// Estimates the effect of a cell: the model of its fit, and the effect under
/// that model.
pub fn estimate_cell<
    R: PairSummary,
    T: TimeDecay,
    U: Binary,
    P: Binary,
    B: Binary,
    Z: Summary,
    O: Dot,
    C: WeightedMean,
    Q: CovariateFit,
    F: TwostepProximal,
    E: CellEffect<TwostepModel>,
    S: Binary,
>(
    panel: &TwostepPanel,
    lambdas: Lambdas,
    cell: (usize, usize),
    from: &Option<TwostepModel>,
    method: &TwostepMethod<R, T, U, P, B, Z, O, C, Q, F, E, S>,
) -> (r: Option<(TwostepModel, u64)>)
    requires
        panel.wf(),
        panel.has(cell),
        from matches Some(m) ==> m.fits(panel.y, m.gamma@.len()),
        method.ready(),
    ensures
        method.estimates(r, panel, lambdas, cell, *from),
        r matches Some((model, v)) ==> model.fits(panel.y, covariate_count(panel.x)),
{
    let fit: Option<(TwostepModel, Iterations)> = fit_without(panel, lambdas, cell, None, from, method);
    assert(method.fits(fit, panel, lambdas, cell, None, *from));
    match fit {
        Some((model, _)) => {
            let tau: u64 = (*method.effect)(panel.y, panel.x, &model, cell);
            Some((model, tau))
        },
        None => None,
    }
}

/// The fit for a cell weighs the cells of the panel as centred on it, by its unit
/// and its period.
pub proof fn law_fit_is_centred_on_its_cell<
    R: PairSummary,
    T: TimeDecay,
    U: Binary,
    P: Binary,
    B: Binary,
    Z: Summary,
    O: Dot,
    C: WeightedMean,
    Q: CovariateFit,
    F: TwostepProximal,
    E: CellEffect<TwostepModel>,
    S: Binary,
>(
    r: Option<(TwostepModel, Iterations)>,
    panel: &TwostepPanel,
    lambdas: Lambdas,
    cell: (usize, usize),
    exclude: Option<(usize, usize)>,
    from: Option<TwostepModel>,
    method: &TwostepMethod<R, T, U, P, B, Z, O, C, Q, F, E, S>,
)
    requires
        method.fits(r, panel, lambdas, cell, exclude, from),
    ensures
        exists|w: Matrix<u64>|
            {
                &&& weighs_cells(
                    &w,
                    panel.cache,
                    cell.1,
                    cell.0,
                    lambdas.time,
                    lambdas.unit,
                    panel.time_dist,
                    *method.rms,
                    *method.time_decay,
                    *method.unit_decay,
                    *method.multiply,
                )
                &&& #[trigger] method.fitted(
                    r,
                    panel.y,
                    panel.x,
                    panel.control_mask,
                    &w,
                    exclude,
                    lambdas.nn,
                    from,
                    None,
                )
            },
{
    let w = choose|w: Matrix<u64>| #[trigger]
        method.weighs(&w, panel, lambdas, cell) && method.fitted(
            r,
            panel.y,
            panel.x,
            panel.control_mask,
            &w,
            exclude,
            lambdas.nn,
            from,
            None,
        );
    assert(method.weighs(&w, panel, lambdas, cell));
}

/// A cell is scored by its own effect under the fit that leaves it out, squared and
/// added to the sum; a cell is estimated by its own effect under the fit that leaves
/// nothing out.  There is neither exactly where the fit fails.
pub proof fn law_cells_are_scored_and_estimated<
    R: PairSummary,
    T: TimeDecay,
    U: Binary,
    P: Binary,
    B: Binary,
    Z: Summary,
    O: Dot,
    C: WeightedMean,
    Q: CovariateFit,
    F: TwostepProximal,
    E: CellEffect<TwostepModel>,
    S: Binary,
>(
    panel: &TwostepPanel,
    lambdas: Lambdas,
    cell: (usize, usize),
    from: Option<TwostepModel>,
    sum: u64,
    method: &TwostepMethod<R, T, U, P, B, Z, O, C, Q, F, E, S>,
    scored: Option<(TwostepModel, u64)>,
    estimated: Option<(TwostepModel, u64)>,
)
    requires
        method.scores(scored, panel, lambdas, cell, from, sum),
        method.estimates(estimated, panel, lambdas, cell, from),
    ensures
        exists|fit: Option<(TwostepModel, Iterations)>|
            {
                &&& #[trigger] method.fits(fit, panel, lambdas, cell, Some(cell), from)
                &&& scored is None <==> fit is None
                &&& fit matches Some((model, it)) ==> exists|tau: u64, total: u64|
                    {
                        &&& #[trigger] call_ensures(
                            *method.effect,
                            (panel.y, panel.x, &model, cell),
                            tau,
                        )
                        &&& #[trigger] call_ensures(*method.add_square, (sum, tau), total)
                        &&& scored == Some((model, total))
                    }
            },
        exists|fit: Option<(TwostepModel, Iterations)>|
            {
                &&& #[trigger] method.fits(fit, panel, lambdas, cell, None, from)
                &&& estimated is None <==> fit is None
                &&& fit matches Some((model, it)) ==> exists|tau: u64|
                    #[trigger] call_ensures(
                        *method.effect,
                        (panel.y, panel.x, &model, cell),
                        tau,
                    ) && estimated == Some((model, tau))
            },
{
}

} // verus!

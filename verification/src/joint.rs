//! Joint fits of a panel, given the arithmetic.
//!
//! The fixed effects are solved for by least squares, in turn with proximal
//! steps of the low-rank component where the penalty keeps it.
use crate::arithmetic::{
    effect_ready, Binary, CellEffect, DoubledDecay, PairSummary, Solver, Summary, Ternary, Unary,
};
use crate::bits;
use crate::distance::{sanitize_table, sanitized};
use crate::estimation::{
    mask_weights, observed_mask, Changes, Iterations, JointCoefficients,
};
use crate::fit::{
    joint_advanced, joint_new, joint_rank, law_joint_fit_ends, FitEvent, FitSettings, JointFit,
    JointPhase,
};
use crate::kernels::{compute_joint_weights, weighs_cells_jointly};
use crate::matrix::Matrix;
use crate::model::{
    copy_covariates, differs_by, fit_outcome, is_zero_like, max_abs_diff, max_abs_diff_2d,
    regressable, regressed, regression_ready, same_covariates, solve_joint_no_lowrank, zero_like,
};
use crate::panel::same_shape;
use crate::tuning::{drops_low_rank, without_low_rank, Lambdas};
use crate::weights::{largest_or_zero, max_or_zero};
use vstd::prelude::*;

verus! {

/// What a joint fit with a low-rank component works on.
#[derive(Debug)]
pub struct JointProblem {
    /// Outcomes, zero where they are not finite.
    pub y: Matrix<u64>,
    /// Weights, zero where the outcome is not finite.
    pub weights: Matrix<u64>,
    /// Covariates, one row per cell, where there are any.
    pub x: Option<Matrix<u64>>,
    /// Largest weight, zero where none is positive.
    pub largest: u64,
    /// Penalty on the low-rank component.
    pub lambda_nn: u64,
}

impl JointProblem {
    /// This is the problem of fitting the observed cells of a panel.
    pub open spec fn poses(
        &self,
        y: &Matrix<u64>,
        delta: &Matrix<u64>,
        x: Option<&Matrix<u64>>,
        lambda_nn: u64,
    ) -> bool {
        &&& same_shape(&self.y, y)
        &&& same_shape(&self.weights, y)
        &&& forall|t: usize, i: usize|
            t < y.rows && i < y.cols ==> #[trigger] self.y.at(t as int, i as int) == sanitized(
                y.at(t as int, i as int),
            )
        &&& forall|t: usize, i: usize|
            t < y.rows && i < y.cols ==> #[trigger] self.weights.at(t as int, i as int)
                == if bits::finite(y.at(t as int, i as int)) {
                delta.at(t as int, i as int)
            } else {
                bits::ZERO
            }
        &&& same_covariates(self.x, x)
        &&& self.largest == largest_or_zero(self.weights.data@)
        &&& self.lambda_nn == lambda_nn
    }
}

fn pose_joint(
    y: &Matrix<u64>,
    delta: &Matrix<u64>,
    x: Option<&Matrix<u64>>,
    lambda_nn: u64,
) -> (r: JointProblem)
    requires
        same_shape(y, delta),
    ensures
        r.poses(y, delta, x, lambda_nn),
{
    let observed: Matrix<bool> = observed_mask(y);
    let masked: Matrix<u64> = mask_weights(&observed, delta);
    let largest: u64 = max_or_zero(&masked.data);
    let r: JointProblem = JointProblem {
        y: sanitize_table(y),
        weights: masked,
        x: copy_covariates(x),
        largest,
        lambda_nn,
    };
    proof {
        assert forall|t: usize, i: usize|
            t < y.rows && i < y.cols implies #[trigger] r.weights.at(t as int, i as int)
            == if bits::finite(y.at(t as int, i as int)) {
            delta.at(t as int, i as int)
        } else {
            bits::ZERO
        } by {
            assert(observed.at(t as int, i as int) == bits::finite(y.at(t as int, i as int)));
        }
    }
    r
}

/// A joint model: fixed effects and covariate coefficients, and the low-rank
/// component.
#[derive(Debug)]
pub struct JointModel {
    pub coefficients: JointCoefficients,
    pub l: Matrix<u64>,
}

/// What a proximal step keeps for the next one: the component before it, and
/// the factor that its extrapolation grows by.
#[derive(Debug)]
pub struct Momentum {
    pub previous: Matrix<u64>,
    pub factor: u64,
}

/// One proximal step of the low-rank component.  It gets the problem, whether
/// it starts without momentum, the fixed effects, the component at the start of
/// the iteration, the component, and the momentum; it gives the component and
/// the momentum after the step, and what came of it.
pub trait ProximalStep:
    Fn(
        &JointProblem,
        bool,
        &JointCoefficients,
        &Matrix<u64>,
        &Matrix<u64>,
        &Momentum,
    ) -> (Matrix<u64>, Momentum, FitEvent)
{
}

impl<
    F: Fn(
        &JointProblem,
        bool,
        &JointCoefficients,
        &Matrix<u64>,
        &Matrix<u64>,
        &Momentum,
    ) -> (Matrix<u64>, Momentum, FitEvent),
> ProximalStep for F {}

/// Two tables hold the same values.
pub open spec fn same_table(a: &Matrix<u64>, b: &Matrix<u64>) -> bool {
    &&& a.rows == b.rows
    &&& a.cols == b.cols
    &&& a.data@ == b.data@
}

pub(crate) fn copy_table(m: &Matrix<u64>) -> (r: Matrix<u64>)
    ensures
        same_table(&r, m),
{
    let data: Vec<u64> = m.data.clone();
    assert(data@ =~= m.data@);
    Matrix { rows: m.rows, cols: m.cols, data }
}

/// `r` is `a` less `b`, cell by cell.
pub open spec fn is_difference<S: Binary>(
    r: &Matrix<u64>,
    a: &Matrix<u64>,
    b: &Matrix<u64>,
    subtract: S,
) -> bool {
    &&& same_shape(r, a)
    &&& forall|t: usize, i: usize|
        t < a.rows && i < a.cols ==> call_ensures(
            subtract,
            (a.at(t as int, i as int), b.at(t as int, i as int)),
            #[trigger] r.at(t as int, i as int),
        )
}

fn difference<S: Binary>(a: &Matrix<u64>, b: &Matrix<u64>, subtract: &S) -> (r: Matrix<u64>)
    requires
        same_shape(a, b),
        forall|p: u64, q: u64| #[trigger] call_requires(*subtract, (p, q)),
    ensures
        is_difference(&r, a, b, *subtract),
{
    assert(a.data.len() == a.rows * a.cols);
    let f = |t: usize, i: usize| -> (v: u64)
        requires
            same_shape(a, b) && a.has(t, i) && (forall|p: u64, q: u64| #[trigger]
                call_requires(*subtract, (p, q))),
        ensures
            call_ensures(*subtract, (a.at(t as int, i as int), b.at(t as int, i as int)), v),
    { (*subtract)(a.get(t, i), b.get(t, i)) };
    Matrix::build(a.rows, a.cols, f)
}

/// A joint fit under way: the model, the model at the start of the iteration,
/// and the momentum.
#[derive(Debug)]
pub struct JointState {
    pub model: JointModel,
    pub before: JointModel,
    pub momentum: Momentum,
}

/// Every effect and the low-rank component are zero, and there is no momentum.
pub open spec fn starts_at_zero(s: JointState, y: &Matrix<u64>) -> bool {
    &&& no_effects(s.model.coefficients, y)
    &&& is_zero_like(&s.model.l, y)
    &&& no_effects(s.before.coefficients, y)
    &&& is_zero_like(&s.before.l, y)
    &&& is_zero_like(&s.momentum.previous, y)
    &&& s.momentum.factor == bits::ONE
}

/// The coefficients are zero.
pub open spec fn no_effects(c: JointCoefficients, y: &Matrix<u64>) -> bool {
    &&& c.mu == bits::ZERO
    &&& c.alpha@ == Seq::new(y.cols as nat, |i: int| bits::ZERO)
    &&& c.beta@ == Seq::new(y.rows as nat, |t: int| bits::ZERO)
    &&& c.gamma is None
}

pub(crate) fn zeros(n: usize) -> (r: Vec<u64>)
    ensures
        r@ == Seq::new(n as nat, |k: int| bits::ZERO),
{
    let mut r: Vec<u64> = Vec::new();
    let mut k: usize = 0;
    while k < n
        invariant
            k <= n,
            r@ == Seq::new(k as nat, |k: int| bits::ZERO),
        decreases n - k,
    {
        r.push(bits::ZERO);
        assert(r@ =~= Seq::new((k + 1) as nat, |k: int| bits::ZERO));
        k = k + 1;
    }
    r
}

fn zero_model(y: &Matrix<u64>) -> (r: JointModel)
    requires
        y.wf(),
    ensures
        no_effects(r.coefficients, y),
        is_zero_like(&r.l, y),
{
    let coefficients: JointCoefficients = JointCoefficients {
        mu: bits::ZERO,
        alpha: zeros(y.cols),
        beta: zeros(y.rows),
        gamma: None,
    };
    JointModel { coefficients, l: zero_like(y) }
}

/// One phase of a joint fit: the state after it, and what came of it.
pub struct JointStep {
    pub after: JointState,
    pub event: FitEvent,
}

/// `step` is the least-squares phase of a fit in state `s`: the fixed effects
/// become those of the outcomes less the low-rank component.
pub open spec fn solves<S: Binary, T: Summary, R: Unary, P: Binary, L: Solver>(
    problem: &JointProblem,
    x: Option<&Matrix<u64>>,
    s: JointState,
    step: JointStep,
    subtract: S,
    sum: T,
    root: R,
    multiply: P,
    solve: L,
) -> bool {
    exists|response: Matrix<u64>, c: Option<JointCoefficients>|
        {
            &&& #[trigger] is_difference(&response, &problem.y, &s.model.l, subtract)
            &&& #[trigger] regressed(
                c,
                &response,
                &problem.weights,
                x,
                sum,
                root,
                multiply,
                solve,
            )
            &&& match c {
                Some(coefficients) => {
                    &&& step.event == FitEvent::Updated
                    &&& step.after.model.coefficients == coefficients
                    &&& step.after.model.l == s.model.l
                    &&& step.after.before.coefficients == s.model.coefficients
                    &&& same_table(&step.after.before.l, &s.model.l)
                    &&& step.after.momentum == s.momentum
                },
                None => step.event == FitEvent::Failed && step.after == s,
            }
        }
}

/// `changes` are the largest changes of a model over an iteration.
pub open spec fn changed_by<S: Binary>(changes: Changes, s: JointState, subtract: S) -> bool {
    let (now, then) = (s.model.coefficients, s.before.coefficients);
    &&& differs_by(changes.alpha, now.alpha@, then.alpha@, subtract)
    &&& differs_by(changes.beta, now.beta@, then.beta@, subtract)
    &&& differs_by(changes.low_rank, s.model.l.data@, s.before.l.data@, subtract)
    &&& changes.gamma == bits::ZERO
}

/// `step` is the phase that the fit `f` is due, carried out in state `s`.
pub open spec fn joint_carries_out<
    S: Binary,
    T: Summary,
    R: Unary,
    P: Binary,
    L: Solver,
    F: ProximalStep,
>(
    problem: &JointProblem,
    x: Option<&Matrix<u64>>,
    f: JointFit,
    s: JointState,
    step: JointStep,
    subtract: S,
    sum: T,
    root: R,
    multiply: P,
    solve: L,
    proximal: F,
) -> bool {
    match f.phase {
        JointPhase::Solve | JointPhase::FinalSolve => solves(
            problem,
            x,
            s,
            step,
            subtract,
            sum,
            root,
            multiply,
            solve,
        ),
        JointPhase::Proximal => {
            &&& step.after.model.coefficients == s.model.coefficients
            &&& step.after.before == s.before
            &&& call_ensures(
                proximal,
                (
                    problem,
                    f.fresh,
                    &s.model.coefficients,
                    &s.before.l,
                    &s.model.l,
                    &s.momentum,
                ),
                (step.after.model.l, step.after.momentum, step.event),
            )
        },
        JointPhase::Compare => {
            &&& step.after == s
            &&& step.event matches FitEvent::Compared(changes) && changed_by(changes, s, subtract)
        },
        JointPhase::Done | JointPhase::Failed => false,
    }
}

/// The joint fit after some phases.
pub open spec fn joint_at(s: FitSettings, steps: Seq<JointStep>) -> JointFit
    decreases steps.len(),
{
    if steps.len() == 0 {
        joint_new(s)
    } else {
        joint_advanced(joint_at(s, steps.drop_last()), s, steps.last().event)
    }
}

/// State after some phases.
pub open spec fn state_at(start: JointState, steps: Seq<JointStep>) -> JointState {
    if steps.len() == 0 {
        start
    } else {
        steps.last().after
    }
}

/// Phases of a joint fit, one after the other.
pub open spec fn joint_ran<
    S: Binary,
    T: Summary,
    R: Unary,
    P: Binary,
    L: Solver,
    F: ProximalStep,
>(
    problem: &JointProblem,
    x: Option<&Matrix<u64>>,
    settings: FitSettings,
    start: JointState,
    steps: Seq<JointStep>,
    subtract: S,
    sum: T,
    root: R,
    multiply: P,
    solve: L,
    proximal: F,
) -> bool {
    forall|k: int|
        0 <= k < steps.len() ==> joint_carries_out(
            problem,
            x,
            joint_at(settings, steps.take(k)),
            state_at(start, steps.take(k)),
            #[trigger] steps[k],
            subtract,
            sum,
            root,
            multiply,
            solve,
            proximal,
        )
}

/// `r` is the outcome of the alternating fit of the joint model with a low-rank
/// component.
pub open spec fn jointly_fitted<
    S: Binary,
    T: Summary,
    R: Unary,
    P: Binary,
    L: Solver,
    F: ProximalStep,
>(
    r: Option<(JointModel, Iterations)>,
    y: &Matrix<u64>,
    delta: &Matrix<u64>,
    x: Option<&Matrix<u64>>,
    settings: FitSettings,
    subtract: S,
    sum: T,
    root: R,
    multiply: P,
    solve: L,
    proximal: F,
) -> bool {
    exists|problem: JointProblem, start: JointState, steps: Seq<JointStep>|
        {
            &&& problem.poses(y, delta, x, settings.lambda_nn)
            &&& starts_at_zero(start, y)
            &&& #[trigger] joint_ran(
                &problem,
                x,
                settings,
                start,
                steps,
                subtract,
                sum,
                root,
                multiply,
                solve,
                proximal,
            )
            &&& joint_at(settings, steps).phase == JointPhase::Done || joint_at(
                settings,
                steps,
            ).phase == JointPhase::Failed
            &&& r == fit_outcome(
                joint_at(settings, steps).phase == JointPhase::Failed,
                state_at(start, steps).model,
                joint_at(settings, steps).iterations,
            )
        }
}

/// The fixed effects of a model are those of the outcomes less its low-rank
/// component.
pub open spec fn effects_belong<S: Binary, T: Summary, R: Unary, P: Binary, L: Solver>(
    model: JointModel,
    y: &Matrix<u64>,
    delta: &Matrix<u64>,
    x: Option<&Matrix<u64>>,
    lambda_nn: u64,
    subtract: S,
    sum: T,
    root: R,
    multiply: P,
    solve: L,
) -> bool {
    exists|problem: JointProblem, response: Matrix<u64>|
        {
            &&& #[trigger] problem.poses(y, delta, x, lambda_nn)
            &&& #[trigger] is_difference(&response, &problem.y, &model.l, subtract)
            &&& regressed(
                Some(model.coefficients),
                &response,
                &problem.weights,
                x,
                sum,
                root,
                multiply,
                solve,
            )
        }
}

/// The functions of a joint fit with a low-rank component can be called, and a
/// proximal step keeps the shape of the component.
pub open spec fn proximal_ready<S: Binary, F: ProximalStep>(subtract: S, proximal: F) -> bool {
    &&& forall|p: u64, q: u64| #[trigger] call_requires(subtract, (p, q))
    &&& forall|
        problem: &JointProblem,
        fresh: bool,
        c: &JointCoefficients,
        from: &Matrix<u64>,
        l: &Matrix<u64>,
        m: &Momentum,
    | #[trigger]
        call_requires(proximal, (problem, fresh, c, from, l, m))
    &&& forall|
        problem: &JointProblem,
        fresh: bool,
        c: &JointCoefficients,
        from: &Matrix<u64>,
        l: &Matrix<u64>,
        m: &Momentum,
        out: (Matrix<u64>, Momentum, FitEvent),
    | #[trigger]
        call_ensures(proximal, (problem, fresh, c, from, l, m), out) ==> same_shape(
            &out.0,
            &problem.y,
        )
}

/// The phase that a joint fit is due, carried out.
fn carry_out<S: Binary, T: Summary, R: Unary, P: Binary, L: Solver, F: ProximalStep>(
    problem: &JointProblem,
    x: Option<&Matrix<u64>>,
    fit: JointFit,
    state: JointState,
    subtract: &S,
    sum: &T,
    root: &R,
    multiply: &P,
    solve: &L,
    proximal: &F,
) -> (r: (JointState, FitEvent))
    requires
        fit.phase != JointPhase::Done,
        fit.phase != JointPhase::Failed,
        regressable(&problem.y, x),
        same_shape(&problem.y, &problem.weights),
        same_shape(&problem.y, &state.model.l),
        regression_ready(*sum, *root, *multiply, *solve),
        proximal_ready(*subtract, *proximal),
    ensures
        joint_carries_out(
            problem,
            x,
            fit,
            state,
            (JointStep { after: r.0, event: r.1 }),
            *subtract,
            *sum,
            *root,
            *multiply,
            *solve,
            *proximal,
        ),
        same_shape(&problem.y, &r.0.model.l),
{
    match fit.phase {
        JointPhase::Proximal => {
            let (l, momentum, event) = (*proximal)(
                problem,
                fit.fresh,
                &state.model.coefficients,
                &state.before.l,
                &state.model.l,
                &state.momentum,
            );
            let model: JointModel = JointModel { coefficients: state.model.coefficients, l };
            (JointState { model, before: state.before, momentum }, event)
        },
        JointPhase::Compare => {
            let (now, before) = (&state.model.coefficients, &state.before.coefficients);
            let changes: Changes = Changes {
                alpha: max_abs_diff(&now.alpha, &before.alpha, subtract),
                beta: max_abs_diff(&now.beta, &before.beta, subtract),
                low_rank: max_abs_diff_2d(&state.model.l, &state.before.l, subtract),
                gamma: bits::ZERO,
            };
            (state, FitEvent::Compared(changes))
        },
        _ => {
            let response: Matrix<u64> = difference(&problem.y, &state.model.l, subtract);
            let ghost from = state;
            let solution: Option<JointCoefficients> = solve_joint_no_lowrank(
                &response,
                &problem.weights,
                x,
                sum,
                root,
                multiply,
                solve,
            );
            let ghost c = solution;
            let r: (JointState, FitEvent) = match solution {
                Some(coefficients) => {
                    let l: Matrix<u64> = copy_table(&state.model.l);
                    let before: JointModel = JointModel {
                        coefficients: state.model.coefficients,
                        l,
                    };
                    let model: JointModel = JointModel { coefficients, l: state.model.l };
                    (JointState { model, before, momentum: state.momentum }, FitEvent::Updated)
                },
                None => (state, FitEvent::Failed),
            };
            assert(is_difference(&response, &problem.y, &from.model.l, *subtract));
            assert(regressed(
                c,
                &response,
                &problem.weights,
                x,
                *sum,
                *root,
                *multiply,
                *solve,
            ));
            r
        },
    }
}

/// Alternating fit of the joint model with a low-rank component, from zero.
/// The fixed effects that it gives belong to the component that it gives.
pub fn solve_joint_with_lowrank<
    S: Binary,
    T: Summary,
    R: Unary,
    P: Binary,
    L: Solver,
    F: ProximalStep,
>(
    y: &Matrix<u64>,
    delta: &Matrix<u64>,
    x: Option<&Matrix<u64>>,
    settings: FitSettings,
    subtract: &S,
    sum: &T,
    root: &R,
    multiply: &P,
    solve: &L,
    proximal: &F,
) -> (r: Option<(JointModel, Iterations)>)
    requires
        same_shape(y, delta),
        regressable(y, x),
        regression_ready(*sum, *root, *multiply, *solve),
        proximal_ready(*subtract, *proximal),
    ensures
        jointly_fitted(
            r,
            y,
            delta,
            x,
            settings,
            *subtract,
            *sum,
            *root,
            *multiply,
            *solve,
            *proximal,
        ),
        r matches Some((model, it)) ==> same_shape(y, &model.l) && effects_belong(
            model,
            y,
            delta,
            x,
            settings.lambda_nn,
            *subtract,
            *sum,
            *root,
            *multiply,
            *solve,
        ),
        r matches Some((model, it)) ==> it.done <= settings.max_iter && (it.converged || it.done
            == settings.max_iter),
{
    let problem: JointProblem = pose_joint(y, delta, x, settings.lambda_nn);
    let mut fit: JointFit = JointFit::new(settings);
    let mut state: JointState = JointState {
        model: zero_model(y),
        before: zero_model(y),
        momentum: Momentum { previous: zero_like(y), factor: bits::ONE },
    };
    let ghost start = state;
    let ghost mut steps: Seq<JointStep> = Seq::empty();
    while fit.phase != JointPhase::Done && fit.phase != JointPhase::Failed
        invariant
            problem.poses(y, delta, x, settings.lambda_nn),
            same_shape(y, delta),
            regressable(y, x),
            regression_ready(*sum, *root, *multiply, *solve),
            proximal_ready(*subtract, *proximal),
            same_shape(&problem.y, &state.model.l),
            fit.wf(settings),
            fit == joint_at(settings, steps),
            state == state_at(start, steps),
            joint_ran(
                &problem,
                x,
                settings,
                start,
                steps,
                *subtract,
                *sum,
                *root,
                *multiply,
                *solve,
                *proximal,
            ),
            fit.iterations.done <= settings.max_iter,
            fit.phase == JointPhase::Done ==> effects_belong(
                state.model,
                y,
                delta,
                x,
                settings.lambda_nn,
                *subtract,
                *sum,
                *root,
                *multiply,
                *solve,
            ),
        decreases settings.max_iter - fit.iterations.done, joint_rank(fit, settings),
    {
        let ghost earlier = steps;
        let ghost from = state;
        let (next, event) = carry_out(
            &problem,
            x,
            fit,
            state,
            subtract,
            sum,
            root,
            multiply,
            solve,
            proximal,
        );
        proof {
            let step = JointStep { after: next, event };
            steps = steps.push(step);
            assert(steps.drop_last() =~= earlier);
            assert forall|k: int| 0 <= k < steps.len() implies joint_carries_out(
                &problem,
                x,
                joint_at(settings, steps.take(k)),
                state_at(start, steps.take(k)),
                #[trigger] steps[k],
                *subtract,
                *sum,
                *root,
                *multiply,
                *solve,
                *proximal,
            ) by {
                if k < earlier.len() {
                    assert(steps.take(k) =~= earlier.take(k));
                    assert(steps[k] == earlier[k]);
                } else {
                    assert(steps.take(k) =~= earlier);
                }
            }
            law_joint_fit_ends(fit, settings, event);
            if joint_advanced(fit, settings, event).phase == JointPhase::Done {
                assert(fit.phase == JointPhase::FinalSolve);
                let (response, c) = choose|response: Matrix<u64>, c: Option<JointCoefficients>|
                    {
                        &&& #[trigger] is_difference(
                            &response,
                            &problem.y,
                            &from.model.l,
                            *subtract,
                        )
                        &&& #[trigger] regressed(
                            c,
                            &response,
                            &problem.weights,
                            x,
                            *sum,
                            *root,
                            *multiply,
                            *solve,
                        )
                        &&& match c {
                            Some(coefficients) => {
                                &&& step.event == FitEvent::Updated
                                &&& step.after.model.coefficients == coefficients
                                &&& step.after.model.l == from.model.l
                                &&& step.after.before.coefficients == from.model.coefficients
                                &&& same_table(&step.after.before.l, &from.model.l)
                                &&& step.after.momentum == from.momentum
                            },
                            None => step.event == FitEvent::Failed && step.after == from,
                        }
                    };
                assert(is_difference(&response, &problem.y, &next.model.l, *subtract));
                assert(c == Some(next.model.coefficients));
            }
        }
        state = next;
        fit.record(settings, event);
    }
    assert(starts_at_zero(start, y));
    assert(joint_ran(
        &problem,
        x,
        settings,
        start,
        steps,
        *subtract,
        *sum,
        *root,
        *multiply,
        *solve,
        *proximal,
    ));
    if fit.phase == JointPhase::Failed {
        None
    } else {
        Some((state.model, fit.iterations))
    }
}

/// The joint method on encodings.
pub struct JointMethod<'a, A, R, T, U, C, S, Z, Q, P, L, F, E, D> {
    /// Iterations of a fit, at most.
    pub max_iter: usize,
    /// Change below which a fit has settled.
    pub tol: u64,
    /// Mean of some outcomes.
    pub mean: &'a A,
    /// Root mean square of the differences of some pairs.
    pub rms: &'a R,
    /// Weight of a period, from the bandwidth and twice its distance.
    pub time_decay: &'a T,
    /// Weight of a unit, from the bandwidth and its distance.
    pub unit_decay: &'a U,
    /// Weight of a cell, from those of its period and unit and its treatment.
    pub combine: &'a C,
    /// Difference of two numbers.
    pub subtract: &'a S,
    /// Sum of some weights.
    pub sum: &'a Z,
    /// Square root of a weight.
    pub root: &'a Q,
    /// Product of two numbers.
    pub multiply: &'a P,
    /// Least-squares solver.
    pub solve: &'a L,
    /// Proximal step of the low-rank component.
    pub proximal: &'a F,
    /// Effect of a cell under a model.
    pub effect: &'a E,
    /// A sum with the square of an effect added.
    pub add_square: &'a D,
}

impl<
    'a,
    A: Summary,
    R: PairSummary,
    T: DoubledDecay,
    U: Binary,
    C: Ternary,
    S: Binary,
    Z: Summary,
    Q: Unary,
    P: Binary,
    L: Solver,
    F: ProximalStep,
    E: CellEffect<JointModel>,
    D: Binary,
> JointMethod<'a, A, R, T, U, C, S, Z, Q, P, L, F, E, D> {
    /// The functions can be called, the solver gives a value for each column,
    /// and a proximal step keeps the shape of the component.
    pub open spec fn ready(&self) -> bool {
        &&& forall|v: &Vec<u64>| #[trigger] call_requires(*self.mean, (v,))
        &&& forall|pairs: &Vec<(u64, u64)>| #[trigger] call_requires(*self.rms, (pairs,))
        &&& forall|a: u64, b: u128| #[trigger] call_requires(*self.time_decay, (a, b))
        &&& forall|a: u64, b: u64| #[trigger] call_requires(*self.unit_decay, (a, b))
        &&& forall|a: u64, b: u64, c: u64| #[trigger] call_requires(*self.combine, (a, b, c))
        &&& regression_ready(*self.sum, *self.root, *self.multiply, *self.solve)
        &&& proximal_ready(*self.subtract, *self.proximal)
        &&& effect_ready::<JointModel, E>(*self.effect)
        &&& forall|a: u64, b: u64| #[trigger] call_requires(*self.add_square, (a, b))
    }

    /// What stays the same over a fit.
    pub open spec fn settings(&self, lambda_nn: u64, covariates: bool) -> FitSettings {
        FitSettings { lambda_nn, max_iter: self.max_iter, tol: self.tol, covariates }
    }

    /// `w` are the joint weights of the cells of a panel.
    pub open spec fn weighs(
        &self,
        w: &Matrix<u64>,
        y: &Matrix<u64>,
        d: &Matrix<u64>,
        lambdas: Lambdas,
        treated_periods: usize,
    ) -> bool {
        weighs_cells_jointly(
            w,
            y,
            d,
            lambdas.time,
            lambdas.unit,
            treated_periods,
            *self.mean,
            *self.rms,
            *self.time_decay,
            *self.unit_decay,
            *self.combine,
        )
    }

    /// `r` is the outcome of the fit under some weights: least squares alone
    /// where the penalty drops the low-rank component, the alternating fit
    /// otherwise.
    pub open spec fn fits(
        &self,
        r: Option<(JointModel, Iterations)>,
        y: &Matrix<u64>,
        delta: &Matrix<u64>,
        x: Option<&Matrix<u64>>,
        lambda_nn: u64,
    ) -> bool {
        if without_low_rank(lambda_nn) {
            exists|c: Option<JointCoefficients>| #[trigger]
                regressed(c, y, delta, x, *self.sum, *self.root, *self.multiply, *self.solve)
                    && match c {
                    Some(coefficients) => r matches Some((model, it)) && model.coefficients
                        == coefficients && is_zero_like(&model.l, y) && it == (Iterations {
                        done: 1,
                        converged: true,
                    }),
                    None => r is None,
                }
        } else {
            jointly_fitted(
                r,
                y,
                delta,
                x,
                self.settings(lambda_nn, x is Some),
                *self.subtract,
                *self.sum,
                *self.root,
                *self.multiply,
                *self.solve,
                *self.proximal,
            )
        }
    }

    /// `r` is the outcome of the fit of a panel under its joint weights.
    pub open spec fn fits_panel(
        &self,
        r: Option<(JointModel, Iterations)>,
        y: &Matrix<u64>,
        d: &Matrix<u64>,
        x: Option<&Matrix<u64>>,
        lambdas: Lambdas,
        treated_periods: usize,
    ) -> bool {
        exists|delta: Matrix<u64>| #[trigger]
            self.weighs(&delta, y, d, lambdas, treated_periods) && self.fits(
                r,
                y,
                &delta,
                x,
                lambdas.nn,
            )
    }
}

/// Joint fit under some weights, without a low-rank component where the penalty
/// drops it.
pub fn fit_joint<
    A: Summary,
    R: PairSummary,
    T: DoubledDecay,
    U: Binary,
    C: Ternary,
    S: Binary,
    Z: Summary,
    Q: Unary,
    P: Binary,
    L: Solver,
    F: ProximalStep,
    E: CellEffect<JointModel>,
    D: Binary,
>(
    y: &Matrix<u64>,
    delta: &Matrix<u64>,
    x: Option<&Matrix<u64>>,
    lambda_nn: u64,
    method: &JointMethod<A, R, T, U, C, S, Z, Q, P, L, F, E, D>,
) -> (r: Option<(JointModel, Iterations)>)
    requires
        same_shape(y, delta),
        regressable(y, x),
        method.ready(),
    ensures
        method.fits(r, y, delta, x, lambda_nn),
{
    if drops_low_rank(lambda_nn) {
        let solution: Option<JointCoefficients> = solve_joint_no_lowrank(
            y,
            delta,
            x,
            method.sum,
            method.root,
            method.multiply,
            method.solve,
        );
        assert(regressed(
            solution,
            y,
            delta,
            x,
            *method.sum,
            *method.root,
            *method.multiply,
            *method.solve,
        ));
        match solution {
            Some(coefficients) => {
                let model: JointModel = JointModel { coefficients, l: zero_like(y) };
                Some((model, Iterations { done: 1, converged: true }))
            },
            None => None,
        }
    } else {
        let settings: FitSettings = FitSettings {
            lambda_nn,
            max_iter: method.max_iter,
            tol: method.tol,
            covariates: x.is_some(),
        };
        solve_joint_with_lowrank(
            y,
            delta,
            x,
            settings,
            method.subtract,
            method.sum,
            method.root,
            method.multiply,
            method.solve,
            method.proximal,
        )
    }
}

/// Joint weights of the cells of a panel.
pub fn weigh_panel<
    A: Summary,
    R: PairSummary,
    T: DoubledDecay,
    U: Binary,
    C: Ternary,
    S: Binary,
    Z: Summary,
    Q: Unary,
    P: Binary,
    L: Solver,
    F: ProximalStep,
    E: CellEffect<JointModel>,
    D: Binary,
>(
    y: &Matrix<u64>,
    d: &Matrix<u64>,
    lambdas: Lambdas,
    treated_periods: usize,
    method: &JointMethod<A, R, T, U, C, S, Z, Q, P, L, F, E, D>,
) -> (r: Matrix<u64>)
    requires
        same_shape(y, d),
        method.ready(),
    ensures
        method.weighs(&r, y, d, lambdas, treated_periods),
        same_shape(&r, y),
{
    compute_joint_weights(
        y,
        d,
        lambdas.time,
        lambdas.unit,
        treated_periods,
        method.mean,
        method.rms,
        method.time_decay,
        method.unit_decay,
        method.combine,
    )
}

/// Joint fit of a panel under its joint weights.
pub fn fit_panel<
    A: Summary,
    R: PairSummary,
    T: DoubledDecay,
    U: Binary,
    C: Ternary,
    S: Binary,
    Z: Summary,
    Q: Unary,
    P: Binary,
    L: Solver,
    F: ProximalStep,
    E: CellEffect<JointModel>,
    D: Binary,
>(
    y: &Matrix<u64>,
    d: &Matrix<u64>,
    x: Option<&Matrix<u64>>,
    lambdas: Lambdas,
    treated_periods: usize,
    method: &JointMethod<A, R, T, U, C, S, Z, Q, P, L, F, E, D>,
) -> (r: Option<(JointModel, Iterations)>)
    requires
        same_shape(y, d),
        regressable(y, x),
        method.ready(),
    ensures
        method.fits_panel(r, y, d, x, lambdas, treated_periods),
{
    let delta: Matrix<u64> = weigh_panel(y, d, lambdas, treated_periods, method);
    fit_joint(y, &delta, x, lambdas.nn, method)
}

/// A joint fit works on every cell: with its outcome and its weight where the
/// outcome is finite, and with zeros otherwise.
pub proof fn law_joint_fit_works_on_every_cell(
    problem: &JointProblem,
    y: &Matrix<u64>,
    delta: &Matrix<u64>,
    x: Option<&Matrix<u64>>,
    lambda_nn: u64,
    t: usize,
    i: usize,
)
    requires
        problem.poses(y, delta, x, lambda_nn),
        t < y.rows,
        i < y.cols,
    ensures
        problem.y.rows == y.rows && problem.y.cols == y.cols,
        bits::finite(y.at(t as int, i as int)) ==> problem.y.at(t as int, i as int) == y.at(
            t as int,
            i as int,
        ) && problem.weights.at(t as int, i as int) == delta.at(t as int, i as int),
        !bits::finite(y.at(t as int, i as int)) ==> problem.y.at(t as int, i as int) == bits::ZERO
            && problem.weights.at(t as int, i as int) == bits::ZERO,
        forall|k: int|
            0 <= k < problem.weights.data@.len() ==> !bits::lt(
                problem.largest,
                #[trigger] problem.weights.data@[k],
            ),
        problem.largest == bits::ZERO || problem.weights.data@.contains(problem.largest),
        problem.lambda_nn == lambda_nn,
        x matches Some(m) ==> problem.x is Some && problem.x->0.data@ == m.data@
            && problem.x->0.cols == m.cols,
        x is None ==> problem.x is None,
{
    assert forall|k: int| 0 <= k < problem.weights.data@.len() implies !bits::lt(
        problem.largest,
        #[trigger] problem.weights.data@[k],
    ) by {
        crate::weights::law_largest_or_zero(problem.weights.data@, k);
    }
    crate::weights::law_largest_or_zero(problem.weights.data@, 0);
}

/// The least-squares phase of a joint fit solves for the outcomes less the low-rank
/// component in every cell, keeps the component, and remembers the model before.
pub proof fn law_joint_least_squares<S: Binary, T: Summary, R: Unary, P: Binary, L: Solver>(
    problem: &JointProblem,
    x: Option<&Matrix<u64>>,
    s: JointState,
    step: JointStep,
    subtract: S,
    sum: T,
    root: R,
    multiply: P,
    solve: L,
)
    requires
        solves(problem, x, s, step, subtract, sum, root, multiply, solve),
    ensures
        step.event == FitEvent::Updated || step.event == FitEvent::Failed,
        step.event == FitEvent::Failed ==> step.after == s,
        exists|response: Matrix<u64>, c: Option<JointCoefficients>|
            {
                &&& #[trigger] regressed(
                    c,
                    &response,
                    &problem.weights,
                    x,
                    sum,
                    root,
                    multiply,
                    solve,
                )
                &&& response.rows == problem.y.rows && response.cols == problem.y.cols
                &&& forall|t: usize, i: usize|
                    t < problem.y.rows && i < problem.y.cols ==> call_ensures(
                        subtract,
                        (problem.y.at(t as int, i as int), s.model.l.at(t as int, i as int)),
                        #[trigger] response.at(t as int, i as int),
                    )
                &&& c is None <==> step.event == FitEvent::Failed
                &&& c matches Some(found) ==> step.after.model.coefficients == found
                    && step.after.model.l == s.model.l && step.after.before.coefficients
                    == s.model.coefficients && step.after.before.l.data@ == s.model.l.data@
            },
{
    let (response, c) = choose|response: Matrix<u64>, c: Option<JointCoefficients>|
        {
            &&& #[trigger] is_difference(&response, &problem.y, &s.model.l, subtract)
            &&& #[trigger] regressed(
                c,
                &response,
                &problem.weights,
                x,
                sum,
                root,
                multiply,
                solve,
            )
            &&& match c {
                Some(coefficients) => {
                    &&& step.event == FitEvent::Updated
                    &&& step.after.model.coefficients == coefficients
                    &&& step.after.model.l == s.model.l
                    &&& step.after.before.coefficients == s.model.coefficients
                    &&& same_table(&step.after.before.l, &s.model.l)
                    &&& step.after.momentum == s.momentum
                },
                None => step.event == FitEvent::Failed && step.after == s,
            }
        };
    assert(regressed(c, &response, &problem.weights, x, sum, root, multiply, solve));
}

/// The other phases of a joint fit: a proximal step from effects, component and
/// momentum, and a comparison of the effects and of the component with those at the
/// start of the iteration.
pub proof fn law_joint_component_phases<
    S: Binary,
    T: Summary,
    R: Unary,
    P: Binary,
    L: Solver,
    F: ProximalStep,
>(
    problem: &JointProblem,
    x: Option<&Matrix<u64>>,
    f: JointFit,
    s: JointState,
    step: JointStep,
    subtract: S,
    sum: T,
    root: R,
    multiply: P,
    solve: L,
    proximal: F,
)
    requires
        joint_carries_out(
            problem,
            x,
            f,
            s,
            step,
            subtract,
            sum,
            root,
            multiply,
            solve,
            proximal,
        ),
    ensures
        f.phase == JointPhase::Solve || f.phase == JointPhase::FinalSolve ==> solves(
            problem,
            x,
            s,
            step,
            subtract,
            sum,
            root,
            multiply,
            solve,
        ),
        f.phase == JointPhase::Proximal ==> call_ensures(
            proximal,
            (problem, f.fresh, &s.model.coefficients, &s.before.l, &s.model.l, &s.momentum),
            (step.after.model.l, step.after.momentum, step.event),
        ) && step.after.model.coefficients == s.model.coefficients && step.after.before
            == s.before,
        f.phase == JointPhase::Compare ==> step.after == s && (
        step.event matches FitEvent::Compared(c) && differs_by(
            c.alpha,
            s.model.coefficients.alpha@,
            s.before.coefficients.alpha@,
            subtract,
        ) && differs_by(
            c.beta,
            s.model.coefficients.beta@,
            s.before.coefficients.beta@,
            subtract,
        ) && differs_by(c.low_rank, s.model.l.data@, s.before.l.data@, subtract) && c.gamma
            == bits::ZERO),
        f.phase != JointPhase::Done && f.phase != JointPhase::Failed,
{
}

/// A joint fit with a low-rank component starts from zeros, carries out every phase
/// that it comes to, and gives the model that the last one left, or nothing where
/// one failed.
pub proof fn law_joint_fit_is_a_run<
    S: Binary,
    T: Summary,
    R: Unary,
    P: Binary,
    L: Solver,
    F: ProximalStep,
>(
    r: Option<(JointModel, Iterations)>,
    y: &Matrix<u64>,
    delta: &Matrix<u64>,
    x: Option<&Matrix<u64>>,
    settings: FitSettings,
    subtract: S,
    sum: T,
    root: R,
    multiply: P,
    solve: L,
    proximal: F,
)
    requires
        jointly_fitted(
            r,
            y,
            delta,
            x,
            settings,
            subtract,
            sum,
            root,
            multiply,
            solve,
            proximal,
        ),
    ensures
        exists|problem: JointProblem, start: JointState, steps: Seq<JointStep>|
            {
                &&& problem.poses(y, delta, x, settings.lambda_nn)
                &&& start.model.coefficients.mu == bits::ZERO
                &&& start.model.coefficients.alpha@.len() == y.cols
                &&& start.model.coefficients.beta@.len() == y.rows
                &&& forall|i: int|
                    0 <= i < y.cols ==> #[trigger] start.model.coefficients.alpha@[i]
                        == bits::ZERO
                &&& forall|t: int|
                    0 <= t < y.rows ==> #[trigger] start.model.coefficients.beta@[t]
                        == bits::ZERO
                &&& forall|t: usize, i: usize|
                    t < y.rows && i < y.cols ==> #[trigger] start.model.l.at(t as int, i as int)
                        == bits::ZERO
                &&& start.momentum.factor == bits::ONE
                &&& #[trigger] joint_ran(
                    &problem,
                    x,
                    settings,
                    start,
                    steps,
                    subtract,
                    sum,
                    root,
                    multiply,
                    solve,
                    proximal,
                )
                &&& r is None <==> joint_at(settings, steps).phase == JointPhase::Failed
                &&& r is Some <==> joint_at(settings, steps).phase == JointPhase::Done
                &&& r matches Some((model, it)) ==> it == joint_at(settings, steps).iterations
                    && model == if steps.len() > 0 {
                    steps.last().after.model
                } else {
                    start.model
                }
            },
{
}

/// A run of a joint fit carries out every phase that the fit comes to, from the
/// state that the one before it left.
pub proof fn law_joint_run_carries_out_every_phase<
    S: Binary,
    T: Summary,
    R: Unary,
    P: Binary,
    L: Solver,
    F: ProximalStep,
>(
    problem: &JointProblem,
    x: Option<&Matrix<u64>>,
    settings: FitSettings,
    start: JointState,
    steps: Seq<JointStep>,
    subtract: S,
    sum: T,
    root: R,
    multiply: P,
    solve: L,
    proximal: F,
    k: int,
)
    requires
        joint_ran(
            problem,
            x,
            settings,
            start,
            steps,
            subtract,
            sum,
            root,
            multiply,
            solve,
            proximal,
        ),
        0 <= k < steps.len(),
    ensures
        joint_carries_out(
            problem,
            x,
            joint_at(settings, steps.take(k)),
            if k > 0 {
                steps[k - 1].after
            } else {
                start
            },
            steps[k],
            subtract,
            sum,
            root,
            multiply,
            solve,
            proximal,
        ),
        k == 0 ==> joint_at(settings, steps.take(k)) == joint_new(settings),
        k > 0 ==> joint_at(settings, steps.take(k)) == joint_advanced(
            joint_at(settings, steps.take(k - 1)),
            settings,
            steps[k - 1].event,
        ),
{
    assert(joint_carries_out(
        problem,
        x,
        joint_at(settings, steps.take(k)),
        state_at(start, steps.take(k)),
        steps[k],
        subtract,
        sum,
        root,
        multiply,
        solve,
        proximal,
    ));
    if k > 0 {
        assert(steps.take(k).drop_last() =~= steps.take(k - 1));
    }
}

/// A joint fit is a least-squares fit alone, in one iteration and without a
/// low-rank component, exactly from a penalty of `1e10` on; the alternating fit
/// otherwise, under the joint weights of the panel.
pub proof fn law_joint_fit_of_a_panel<
    A: Summary,
    R: PairSummary,
    T: DoubledDecay,
    U: Binary,
    C: Ternary,
    S: Binary,
    Z: Summary,
    Q: Unary,
    P: Binary,
    L: Solver,
    F: ProximalStep,
    E: CellEffect<JointModel>,
    D: Binary,
>(
    y: &Matrix<u64>,
    d: &Matrix<u64>,
    x: Option<&Matrix<u64>>,
    lambdas: Lambdas,
    treated_periods: usize,
    method: &JointMethod<A, R, T, U, C, S, Z, Q, P, L, F, E, D>,
    r: Option<(JointModel, Iterations)>,
)
    requires
        method.fits_panel(r, y, d, x, lambdas, treated_periods),
    ensures
        exists|delta: Matrix<u64>|
            {
                &&& #[trigger] weighs_cells_jointly(
                    &delta,
                    y,
                    d,
                    lambdas.time,
                    lambdas.unit,
                    treated_periods,
                    *method.mean,
                    *method.rms,
                    *method.time_decay,
                    *method.unit_decay,
                    *method.combine,
                )
                &&& !bits::le(0x4202_A05F_2000_0000, lambdas.nn) ==> jointly_fitted(
                    r,
                    y,
                    &delta,
                    x,
                    FitSettings {
                        lambda_nn: lambdas.nn,
                        max_iter: method.max_iter,
                        tol: method.tol,
                        covariates: x is Some,
                    },
                    *method.subtract,
                    *method.sum,
                    *method.root,
                    *method.multiply,
                    *method.solve,
                    *method.proximal,
                )
                &&& bits::le(0x4202_A05F_2000_0000, lambdas.nn) ==> exists|
                    c: Option<JointCoefficients>,
                |
                    {
                        &&& #[trigger] regressed(
                            c,
                            y,
                            &delta,
                            x,
                            *method.sum,
                            *method.root,
                            *method.multiply,
                            *method.solve,
                        )
                        &&& c is None <==> r is None
                        &&& r matches Some((model, it)) ==> c == Some(model.coefficients)
                            && it.done == 1 && it.converged && forall|t: usize, i: usize|
                            t < y.rows && i < y.cols ==> #[trigger] model.l.at(
                                t as int,
                                i as int,
                            ) == bits::ZERO
                    }
            },
{
    let delta = choose|delta: Matrix<u64>| #[trigger]
        method.weighs(&delta, y, d, lambdas, treated_periods) && method.fits(
            r,
            y,
            &delta,
            x,
            lambdas.nn,
        );
    assert(weighs_cells_jointly(
        &delta,
        y,
        d,
        lambdas.time,
        lambdas.unit,
        treated_periods,
        *method.mean,
        *method.rms,
        *method.time_decay,
        *method.unit_decay,
        *method.combine,
    ));
}

} // verus!

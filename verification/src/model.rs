//! Problems that the fits work on, and what their phases share.
use crate::arithmetic::{Binary, Solver, Summary, Unary};
use crate::bits;
use crate::estimation::{
    components_survive, covariate_rows, fitted_cell, has_weight, lists_components, mask_weights,
    pad_response, padded, regression_cells, regression_values, retained_components, shrinkage,
    shrinkage_of, valid_mask, Design, Iterations, JointCoefficients, Shrinkage, WEIGHT_SUM_TOL,
};
use crate::matrix::{lists_units, Matrix};
use crate::panel::same_shape;
use crate::weights::{largest_or_zero, max_or_zero};
use vstd::prelude::*;

verus! {

/// What a twostep fit works on.
#[derive(Debug)]
pub struct TwostepProblem {
    /// Outcomes, zero outside the cells that take part.
    pub y: Matrix<u64>,
    /// Cells that take part.
    pub valid: Matrix<bool>,
    /// Cells that take part and carry a positive weight.
    pub support: Matrix<bool>,
    /// Weights, zero outside the cells that take part.
    pub weights: Matrix<u64>,
    /// Covariates, one row per cell, where there are any.
    pub x: Option<Matrix<u64>>,
    /// Cells, as row numbers of the covariates, that enter the covariate sums.
    pub rows: Vec<usize>,
    /// Largest weight, zero where none is positive.
    pub largest: u64,
    /// Penalty on the low-rank component.
    pub lambda_nn: u64,
}

/// `copy` holds the same covariates as `x`.
pub open spec fn same_covariates(copy: Option<Matrix<u64>>, x: Option<&Matrix<u64>>) -> bool {
    match x {
        Some(m) => copy matches Some(c) && c.rows == m.rows && c.cols == m.cols && c.data@
            == m.data@,
        None => copy is None,
    }
}

pub(crate) fn copy_covariates(x: Option<&Matrix<u64>>) -> (r: Option<Matrix<u64>>)
    ensures
        same_covariates(r, x),
{
    match x {
        Some(m) => {
            let data: Vec<u64> = m.data.clone();
            assert(data@ =~= m.data@);
            Some(Matrix { rows: m.rows, cols: m.cols, data })
        },
        None => None,
    }
}

/// Value of cell `(t, i)` in a fit: that of the panel where the cell takes part,
/// zero elsewhere.
pub open spec fn fitted_value(
    values: &Matrix<u64>,
    y: &Matrix<u64>,
    control_mask: &Matrix<u8>,
    exclude: Option<(usize, usize)>,
    t: usize,
    i: usize,
) -> u64 {
    if fitted_cell(y, control_mask, exclude, t, i) {
        values.at(t as int, i as int)
    } else {
        bits::ZERO
    }
}

impl TwostepProblem {
    /// This is the problem of fitting the control cells of a panel, but the one
    /// left out.
    pub open spec fn poses(
        &self,
        y: &Matrix<u64>,
        x: Option<&Matrix<u64>>,
        control_mask: &Matrix<u8>,
        weights: &Matrix<u64>,
        exclude: Option<(usize, usize)>,
        lambda_nn: u64,
    ) -> bool {
        &&& same_shape(&self.y, y)
        &&& same_shape(&self.valid, y)
        &&& same_shape(&self.support, y)
        &&& same_shape(&self.weights, y)
        &&& forall|t: usize, i: usize|
            t < y.rows && i < y.cols ==> #[trigger] self.y.at(t as int, i as int) == fitted_value(
                y,
                y,
                control_mask,
                exclude,
                t,
                i,
            )
        &&& forall|t: usize, i: usize|
            t < y.rows && i < y.cols ==> #[trigger] self.valid.at(t as int, i as int)
                == fitted_cell(y, control_mask, exclude, t, i)
        &&& forall|t: usize, i: usize|
            t < y.rows && i < y.cols ==> #[trigger] self.support.at(t as int, i as int) == (
            fitted_cell(y, control_mask, exclude, t, i) && bits::lt(
                bits::ZERO,
                weights.at(t as int, i as int),
            ))
        &&& forall|t: usize, i: usize|
            t < y.rows && i < y.cols ==> #[trigger] self.weights.at(t as int, i as int)
                == fitted_value(weights, y, control_mask, exclude, t, i)
        &&& same_covariates(self.x, x)
        &&& lists_units(
            self.rows@,
            self.weights.data@.len() as int,
            |k: int| !bits::le(self.weights.data@[k], bits::ZERO),
        )
        &&& self.largest == largest_or_zero(self.weights.data@)
        &&& self.lambda_nn == lambda_nn
    }
}

impl TwostepProblem {
    /// The tables fit together.
    pub open spec fn consistent(&self) -> bool {
        &&& same_shape(&self.y, &self.weights)
        &&& same_shape(&self.y, &self.support)
        &&& self.x matches Some(m) ==> m.wf() && m.rows == self.y.rows * self.y.cols
    }

    /// Number of covariates.
    pub open spec fn covariates(&self) -> nat {
        match self.x {
            Some(m) => m.cols as nat,
            None => 0,
        }
    }
}

/// Leaving a cell out of a fit is the same as masking it: the two fits work on
/// the same problem.
pub proof fn law_exclusion_is_masking(
    problem: &TwostepProblem,
    y: &Matrix<u64>,
    x: Option<&Matrix<u64>>,
    control_mask: &Matrix<u8>,
    masked: &Matrix<u8>,
    weights: &Matrix<u64>,
    cell: (usize, usize),
    lambda_nn: u64,
)
    requires
        same_shape(y, control_mask),
        same_shape(y, masked),
        cell.0 < y.rows,
        cell.1 < y.cols,
        masked.at(cell.0 as int, cell.1 as int) == 0,
        forall|t: usize, i: usize|
            t < y.rows && i < y.cols && (t, i) != cell ==> #[trigger] masked.at(t as int, i as int)
                == control_mask.at(t as int, i as int),
    ensures
        problem.poses(y, x, control_mask, weights, Some(cell), lambda_nn) == problem.poses(
            y,
            x,
            masked,
            weights,
            None,
            lambda_nn,
        ),
{
    assert forall|t: usize, i: usize| t < y.rows && i < y.cols implies #[trigger] fitted_cell(
        y,
        control_mask,
        Some(cell),
        t,
        i,
    ) == fitted_cell(y, masked, None, t, i) by {
        if (t, i) != cell {
            assert(masked.at(t as int, i as int) == control_mask.at(t as int, i as int));
        }
    }
    lemma_same_problem(
        problem,
        y,
        y,
        x,
        control_mask,
        masked,
        weights,
        weights,
        Some(cell),
        None,
        lambda_nn,
    );
}

/// Outcomes and weights of cells that take no part in a fit have no influence
/// on it: panels that agree on the cells that do give the same problem.
pub proof fn law_unfitted_cells_do_not_matter(
    problem: &TwostepProblem,
    y1: &Matrix<u64>,
    y2: &Matrix<u64>,
    x: Option<&Matrix<u64>>,
    control_mask: &Matrix<u8>,
    w1: &Matrix<u64>,
    w2: &Matrix<u64>,
    exclude: Option<(usize, usize)>,
    lambda_nn: u64,
)
    requires
        same_shape(y1, y2),
        forall|t: usize, i: usize|
            t < y1.rows && i < y1.cols ==> #[trigger] fitted_cell(y1, control_mask, exclude, t, i)
                == fitted_cell(y2, control_mask, exclude, t, i),
        forall|t: usize, i: usize|
            t < y1.rows && i < y1.cols && #[trigger] fitted_cell(y1, control_mask, exclude, t, i)
                ==> y1.at(t as int, i as int) == y2.at(t as int, i as int) && w1.at(
                t as int,
                i as int,
            ) == w2.at(t as int, i as int),
    ensures
        problem.poses(y1, x, control_mask, w1, exclude, lambda_nn) == problem.poses(
            y2,
            x,
            control_mask,
            w2,
            exclude,
            lambda_nn,
        ),
{
    lemma_same_problem(
        problem,
        y1,
        y2,
        x,
        control_mask,
        control_mask,
        w1,
        w2,
        exclude,
        exclude,
        lambda_nn,
    );
}

proof fn lemma_same_problem(
    problem: &TwostepProblem,
    y1: &Matrix<u64>,
    y2: &Matrix<u64>,
    x: Option<&Matrix<u64>>,
    mask1: &Matrix<u8>,
    mask2: &Matrix<u8>,
    w1: &Matrix<u64>,
    w2: &Matrix<u64>,
    exclude1: Option<(usize, usize)>,
    exclude2: Option<(usize, usize)>,
    lambda_nn: u64,
)
    requires
        same_shape(y1, y2),
        forall|t: usize, i: usize|
            t < y1.rows && i < y1.cols ==> #[trigger] fitted_cell(y1, mask1, exclude1, t, i)
                == fitted_cell(y2, mask2, exclude2, t, i),
        forall|t: usize, i: usize|
            t < y1.rows && i < y1.cols && #[trigger] fitted_cell(y1, mask1, exclude1, t, i)
                ==> y1.at(t as int, i as int) == y2.at(t as int, i as int) && w1.at(
                t as int,
                i as int,
            ) == w2.at(t as int, i as int),
    ensures
        problem.poses(y1, x, mask1, w1, exclude1, lambda_nn) == problem.poses(
            y2,
            x,
            mask2,
            w2,
            exclude2,
            lambda_nn,
        ),
{
    assert forall|t: usize, i: usize| t < y1.rows && i < y1.cols implies #[trigger] fitted_cell(
        y2,
        mask2,
        exclude2,
        t,
        i,
    ) == fitted_cell(y1, mask1, exclude1, t, i) by {
        assert(fitted_cell(y1, mask1, exclude1, t, i) == fitted_cell(y2, mask2, exclude2, t, i));
    }
}

fn supporting(valid: &Matrix<bool>, weights: &Matrix<u64>) -> (r: Matrix<bool>)
    requires
        same_shape(valid, weights),
    ensures
        same_shape(&r, valid),
        forall|t: usize, i: usize|
            t < valid.rows && i < valid.cols ==> #[trigger] r.at(t as int, i as int) == (valid.at(
                t as int,
                i as int,
            ) && bits::lt(bits::ZERO, weights.at(t as int, i as int))),
{
    assert(valid.data.len() == valid.rows * valid.cols);
    let f = |t: usize, i: usize| -> (b: bool)
        requires
            same_shape(valid, weights),
            valid.has(t, i),
        ensures
            b == (valid.at(t as int, i as int) && bits::lt(
                bits::ZERO,
                weights.at(t as int, i as int),
            )),
    { valid.get(t, i) && bits::less_than(bits::ZERO, weights.get(t, i)) };
    Matrix::build(valid.rows, valid.cols, f)
}

pub(crate) fn pose_twostep(
    y: &Matrix<u64>,
    x: Option<&Matrix<u64>>,
    control_mask: &Matrix<u8>,
    weights: &Matrix<u64>,
    exclude: Option<(usize, usize)>,
    lambda_nn: u64,
) -> (r: TwostepProblem)
    requires
        same_shape(y, control_mask),
        same_shape(y, weights),
    ensures
        r.poses(y, x, control_mask, weights, exclude, lambda_nn),
{
    let valid: Matrix<bool> = valid_mask(y, control_mask, exclude);
    let masked: Matrix<u64> = mask_weights(&valid, weights);
    let rows: Vec<usize> = covariate_rows(&masked);
    let largest: u64 = max_or_zero(&masked.data);
    let r: TwostepProblem = TwostepProblem {
        y: mask_weights(&valid, y),
        support: supporting(&valid, weights),
        valid,
        weights: masked,
        x: copy_covariates(x),
        rows,
        largest,
        lambda_nn,
    };
    proof {
        assert forall|t: usize, i: usize|
            t < y.rows && i < y.cols implies fitted_cell(y, control_mask, exclude, t, i)
            == #[trigger] r.valid.at(t as int, i as int) by {}
        assert forall|t: usize, i: usize|
            t < y.rows && i < y.cols implies #[trigger] r.weights.at(t as int, i as int)
            == fitted_value(weights, y, control_mask, exclude, t, i) by {
            assert(r.valid.at(t as int, i as int) == fitted_cell(y, control_mask, exclude, t, i));
        }
        assert forall|t: usize, i: usize|
            t < y.rows && i < y.cols implies #[trigger] r.y.at(t as int, i as int)
            == fitted_value(y, y, control_mask, exclude, t, i) by {
            assert(r.valid.at(t as int, i as int) == fitted_cell(y, control_mask, exclude, t, i));
        }
        assert forall|t: usize, i: usize|
            t < y.rows && i < y.cols implies #[trigger] r.support.at(t as int, i as int) == (
        fitted_cell(y, control_mask, exclude, t, i) && bits::lt(
            bits::ZERO,
            weights.at(t as int, i as int),
        )) by {
            assert(r.valid.at(t as int, i as int) == fitted_cell(y, control_mask, exclude, t, i));
        }
    }
    r
}

/// Outcome of a fit that is over: nothing where it failed.
pub open spec fn fit_outcome<M>(failed: bool, model: M, iterations: Iterations) -> Option<
    (M, Iterations),
> {
    if failed {
        None
    } else {
        Some((model, iterations))
    }
}

/// Layout of the least-squares problem of a panel.
pub open spec fn design_of(y: &Matrix<u64>, x: Option<&Matrix<u64>>) -> Design {
    Design {
        n_periods: y.rows,
        n_units: y.cols,
        n_cov: match x {
            Some(m) => m.cols,
            None => 0,
        },
    }
}

/// Weighted least-squares problem of the joint fit.
#[derive(Debug)]
pub struct Regression {
    /// Square roots of the weights of the cells.
    pub roots: Vec<u64>,
    /// Covariates times the roots.
    pub weighted_x: Matrix<u64>,
    /// Outcomes times the roots.
    pub products: Vec<u64>,
    /// Design matrix, stored column by column.
    pub matrix: Vec<u64>,
    /// Response, padded to the larger of the numbers of rows and of columns.
    pub response: Vec<u64>,
}

impl Regression {
    /// This is the problem of a panel, with `root` for the square root of a
    /// weight and `multiply` for the product of floating-point numbers.
    pub open spec fn poses<R: Fn(u64) -> u64, P: Fn(u64, u64) -> u64>(
        &self,
        y: &Matrix<u64>,
        delta: &Matrix<u64>,
        x: Option<&Matrix<u64>>,
        root: R,
        multiply: P,
    ) -> bool {
        let design = design_of(y, x);
        let outcomes = regression_values(y, delta, y.data@);
        let weights = regression_values(y, delta, delta.data@);
        &&& self.roots@.len() == design.rows()
        &&& self.products@.len() == design.rows()
        &&& self.weighted_x.wf()
        &&& self.weighted_x.rows == design.rows()
        &&& self.weighted_x.cols == design.n_cov
        &&& forall|k: int|
            0 <= k < design.rows() ==> call_ensures(root, (weights[k],), #[trigger] self.roots@[k])
        &&& forall|k: int|
            0 <= k < design.rows() ==> call_ensures(
                multiply,
                (outcomes[k], self.roots@[k]),
                #[trigger] self.products@[k],
            )
        &&& x matches Some(m) ==> forall|k: usize, p: usize|
            k < design.rows() && p < design.n_cov ==> call_ensures(
                multiply,
                (self.roots@[k as int], m.at(k as int, p as int)),
                #[trigger] self.weighted_x.at(k as int, p as int),
            )
        &&& design.fills(self.matrix@, self.roots@, &self.weighted_x)
        &&& self.response@ == padded(
            self.products@,
            if design.rows() >= design.params() {
                design.rows() as nat
            } else {
                design.params() as nat
            },
        )
    }
}

fn pose_regression<R: Fn(u64) -> u64, P: Fn(u64, u64) -> u64>(
    y: &Matrix<u64>,
    delta: &Matrix<u64>,
    x: Option<&Matrix<u64>>,
    outcomes: &Vec<u64>,
    weights: &Vec<u64>,
    root: &R,
    multiply: &P,
) -> (r: Regression)
    requires
        y.wf(),
        design_of(y, x).wf(),
        outcomes@ == regression_values(y, delta, y.data@),
        weights@ == regression_values(y, delta, delta.data@),
        x matches Some(m) ==> m.wf() && m.rows == y.rows * y.cols,
        forall|w: u64| #[trigger] call_requires(*root, (w,)),
        forall|a: u64, b: u64| #[trigger] call_requires(*multiply, (a, b)),
    ensures
        r.poses(y, delta, x, *root, *multiply),
{
    let design: Design = Design {
        n_periods: y.rows,
        n_units: y.cols,
        n_cov: match x {
            Some(m) => m.cols,
            None => 0,
        },
    };
    let n_params: usize = design.n_params();
    let n_obs: usize = y.data.len();
    let mut roots: Vec<u64> = Vec::new();
    let mut products: Vec<u64> = Vec::new();
    let mut k: usize = 0;
    while k < n_obs
        invariant
            k <= n_obs,
            n_obs == outcomes@.len(),
            n_obs == weights@.len(),
            roots@.len() == k,
            products@.len() == k,
            forall|w: u64| #[trigger] call_requires(*root, (w,)),
            forall|a: u64, b: u64| #[trigger] call_requires(*multiply, (a, b)),
            forall|j: int|
                0 <= j < k ==> call_ensures(*root, (weights@[j],), #[trigger] roots@[j]),
            forall|j: int|
                0 <= j < k ==> call_ensures(
                    *multiply,
                    (outcomes@[j], roots@[j]),
                    #[trigger] products@[j],
                ),
        decreases n_obs - k,
    {
        let s: u64 = (*root)(weights[k]);
        let p: u64 = (*multiply)(outcomes[k], s);
        roots.push(s);
        products.push(p);
        k = k + 1;
    }
    let weighted_x: Matrix<u64> = match x {
        Some(m) => {
            assert(m.data.len() == m.rows * m.cols);
            let f = |k: usize, p: usize| -> (v: u64)
                requires
                    m.wf() && k < m.rows && p < m.cols && roots@.len() == m.rows && (forall|
                        a: u64,
                        b: u64,
                    | #[trigger]
                        call_requires(*multiply, (a, b))),
                ensures
                    call_ensures(*multiply, (roots@[k as int], m.at(k as int, p as int)), v),
            { (*multiply)(roots[k], m.get(k, p)) };
            Matrix::build(m.rows, m.cols, f)
        },
        None => {
            assert(n_obs * 0 == 0) by (nonlinear_arith);
            Matrix { rows: n_obs, cols: 0, data: Vec::new() }
        },
    };
    let matrix: Vec<u64> = design.matrix(&roots, &weighted_x);
    let len: usize = if n_obs >= n_params {
        n_obs
    } else {
        n_params
    };
    let response: Vec<u64> = pad_response(&products, len);
    Regression { roots, weighted_x, products, matrix, response }
}

/// `r` is what a least-squares solution gives: nothing where there is none.
pub open spec fn solution_gives(
    r: Option<JointCoefficients>,
    design: Design,
    solution: Option<Vec<u64>>,
) -> bool {
    match solution {
        Some(v) => r is Some && r->0.splits(design, v@),
        None => r is None,
    }
}

/// `r` is the outcome of the weighted least-squares problem of a panel: nothing
/// where the weights vanish or the solver fails.
pub open spec fn regressed<T: Summary, R: Unary, P: Binary, L: Solver>(
    r: Option<JointCoefficients>,
    y: &Matrix<u64>,
    delta: &Matrix<u64>,
    x: Option<&Matrix<u64>>,
    sum: T,
    root: R,
    multiply: P,
    solve: L,
) -> bool {
    exists|weights: Vec<u64>, total: u64|
        {
            &&& weights@ == regression_values(y, delta, delta.data@)
            &&& #[trigger] call_ensures(sum, (&weights,), total)
            &&& bits::lt(total, WEIGHT_SUM_TOL) ==> r is None
            &&& !bits::lt(total, WEIGHT_SUM_TOL) ==> exists|
                problem: Regression,
                solution: Option<Vec<u64>>,
            |
                {
                    &&& #[trigger] problem.poses(y, delta, x, root, multiply)
                    &&& call_ensures(
                        solve,
                        (
                            &problem.matrix,
                            &problem.response,
                            design_of(y, x).rows() as usize,
                            design_of(y, x).params() as usize,
                        ),
                        solution,
                    )
                    &&& #[trigger] solution_gives(r, design_of(y, x), solution)
                }
        }
}

/// The functions of the least-squares problem can be called, and the solver
/// gives a value for each column.
pub open spec fn regression_ready<T: Summary, R: Unary, P: Binary, L: Solver>(
    sum: T,
    root: R,
    multiply: P,
    solve: L,
) -> bool {
    &&& forall|v: &Vec<u64>| #[trigger] call_requires(sum, (v,))
    &&& forall|w: u64| #[trigger] call_requires(root, (w,))
    &&& forall|a: u64, b: u64| #[trigger] call_requires(multiply, (a, b))
    &&& forall|a: &Vec<u64>, b: &Vec<u64>, n: usize, p: usize| #[trigger]
        call_requires(solve, (a, b, n, p))
    &&& forall|a: &Vec<u64>, b: &Vec<u64>, n: usize, p: usize, out: Option<Vec<u64>>| #[trigger]
        call_ensures(solve, (a, b, n, p), out) ==> (out matches Some(v) ==> v@.len() >= p)
}

/// A panel and its covariates make up a least-squares problem that fits in
/// memory.
pub open spec fn regressable(y: &Matrix<u64>, x: Option<&Matrix<u64>>) -> bool {
    &&& design_of(y, x).wf()
    &&& x matches Some(m) ==> m.wf() && m.rows == y.rows * y.cols
}

/// Fixed effects and covariate coefficients by weighted least squares; nothing
/// where the weights vanish or the solver fails.  The caller supplies the sum
/// of some numbers, the square root of a weight, the product of two numbers,
/// and the solver, which gets the design matrix, the response and the numbers
/// of rows and of columns.
pub fn solve_joint_no_lowrank<T: Summary, R: Unary, P: Binary, L: Solver>(
    y: &Matrix<u64>,
    delta: &Matrix<u64>,
    x: Option<&Matrix<u64>>,
    sum: &T,
    root: &R,
    multiply: &P,
    solve: &L,
) -> (r: Option<JointCoefficients>)
    requires
        same_shape(y, delta),
        regressable(y, x),
        regression_ready(*sum, *root, *multiply, *solve),
    ensures
        regressed(r, y, delta, x, *sum, *root, *multiply, *solve),
        r matches Some(c) ==> c.alpha@.len() == y.cols && c.beta@.len() == y.rows,
{
    let (outcomes, weights) = regression_cells(y, delta);
    let total: u64 = (*sum)(&weights);
    assert(call_ensures(*sum, (&weights,), total));
    if !has_weight(total) {
        return None;
    }
    let problem: Regression = pose_regression(y, delta, x, &outcomes, &weights, root, multiply);
    let design: Design = Design {
        n_periods: y.rows,
        n_units: y.cols,
        n_cov: match x {
            Some(m) => m.cols,
            None => 0,
        },
    };
    let n_params: usize = design.n_params();
    let n_obs: usize = y.data.len();
    let solution: Option<Vec<u64>> = (*solve)(
        &problem.matrix,
        &problem.response,
        n_obs,
        n_params,
    );
    let r: Option<JointCoefficients> = match &solution {
        Some(v) => Some(design.split(v)),
        None => None,
    };
    assert(solution_gives(r, design_of(y, x), solution));
    r
}

/// Every entry of a matrix of the shape of `m` is zero.
pub open spec fn is_zero_like(r: &Matrix<u64>, m: &Matrix<u64>) -> bool {
    &&& same_shape(r, m)
    &&& forall|t: usize, i: usize|
        t < m.rows && i < m.cols ==> #[trigger] r.at(t as int, i as int) == bits::ZERO
}

pub(crate) fn zero_like(m: &Matrix<u64>) -> (r: Matrix<u64>)
    requires
        m.wf(),
    ensures
        is_zero_like(&r, m),
{
    assert(m.data.len() == m.rows * m.cols);
    let f = |t: usize, i: usize| -> (v: u64)
        ensures
            v == bits::ZERO,
    { bits::ZERO };
    Matrix::build(m.rows, m.cols, f)
}

/// `r` is `m` put together again from the shrunk singular values that survive,
/// zero where none does.
pub open spec fn recomposes<
    V,
    H: Fn(u64, u64) -> u64,
    C: Fn(&V, &Vec<u64>, &Vec<usize>) -> Matrix<u64>,
>(
    r: Matrix<u64>,
    m: &Matrix<u64>,
    threshold: u64,
    vectors: &V,
    singular: Seq<u64>,
    shrink: H,
    compose: C,
) -> bool {
    exists|shrunk: Vec<u64>|
        {
            &&& #[trigger] shrunk@.len() == singular.len()
            &&& forall|k: int|
                0 <= k < singular.len() ==> call_ensures(
                    shrink,
                    (singular[k], threshold),
                    #[trigger] shrunk@[k],
                )
            &&& if components_survive(singular, shrunk@) {
                exists|kept: Vec<usize>|
                    lists_components(kept@, shrunk@) && #[trigger] call_ensures(
                        compose,
                        (vectors, &shrunk, &kept),
                        r,
                    )
            } else {
                is_zero_like(&r, m)
            }
        }
}

/// Soft-thresholds the singular values of a matrix; nothing where the
/// decomposition fails.  `decompose` gives the singular vectors and values,
/// `shrink` reduces a value by the threshold, and `compose` puts the matrix
/// together from the components that survive.
pub fn soft_threshold_svd<
    V,
    D: Fn(&Matrix<u64>) -> Option<(V, Vec<u64>)>,
    H: Fn(u64, u64) -> u64,
    C: Fn(&V, &Vec<u64>, &Vec<usize>) -> Matrix<u64>,
>(m: &Matrix<u64>, threshold: u64, decompose: &D, shrink: &H, compose: &C) -> (r: Option<
    Matrix<u64>,
>)
    requires
        m.wf(),
        forall|a: &Matrix<u64>| #[trigger] call_requires(*decompose, (a,)),
        forall|a: u64, b: u64| #[trigger] call_requires(*shrink, (a, b)),
        forall|v: &V, s: &Vec<u64>, k: &Vec<usize>| #[trigger] call_requires(*compose, (v, s, k)),
    ensures
        match shrinkage_of(m.data@, threshold) {
            Shrinkage::Identity => r matches Some(out) && same_shape(&out, m) && out.data@
                == m.data@,
            Shrinkage::Zero => r matches Some(out) && is_zero_like(&out, m),
            Shrinkage::Decompose => exists|factors: Option<(V, Vec<u64>)>|
                {
                    &&& #[trigger] call_ensures(*decompose, (m,), factors)
                    &&& match factors {
                        Some((vectors, singular)) => r matches Some(out) && recomposes(
                            out,
                            m,
                            threshold,
                            &vectors,
                            singular@,
                            *shrink,
                            *compose,
                        ),
                        None => r is None,
                    }
                },
        },
{
    match shrinkage(&m.data, threshold) {
        Shrinkage::Identity => {
            let out: Matrix<u64> = Matrix { rows: m.rows, cols: m.cols, data: m.data.clone() };
            assert(out.data@ =~= m.data@);
            Some(out)
        },
        Shrinkage::Zero => Some(zero_like(m)),
        Shrinkage::Decompose => {
            let factors: Option<(V, Vec<u64>)> = (*decompose)(m);
            assert(call_ensures(*decompose, (m,), factors));
            match &factors {
                Some((vectors, singular)) => Some(
                    recompose(m, threshold, vectors, singular, shrink, compose),
                ),
                None => None,
            }
        },
    }
}

fn recompose<V, H: Fn(u64, u64) -> u64, C: Fn(&V, &Vec<u64>, &Vec<usize>) -> Matrix<u64>>(
    m: &Matrix<u64>,
    threshold: u64,
    vectors: &V,
    singular: &Vec<u64>,
    shrink: &H,
    compose: &C,
) -> (r: Matrix<u64>)
    requires
        m.wf(),
        forall|a: u64, b: u64| #[trigger] call_requires(*shrink, (a, b)),
        forall|v: &V, s: &Vec<u64>, k: &Vec<usize>| #[trigger] call_requires(*compose, (v, s, k)),
    ensures
        recomposes(r, m, threshold, vectors, singular@, *shrink, *compose),
{
    let mut shrunk: Vec<u64> = Vec::new();
    let mut k: usize = 0;
    while k < singular.len()
        invariant
            k <= singular@.len(),
            forall|a: u64, b: u64| #[trigger] call_requires(*shrink, (a, b)),
            shrunk@.len() == k,
            forall|j: int|
                0 <= j < k ==> call_ensures(
                    *shrink,
                    (singular@[j], threshold),
                    #[trigger] shrunk@[j],
                ),
        decreases singular@.len() - k,
    {
        let v: u64 = (*shrink)(singular[k], threshold);
        shrunk.push(v);
        k = k + 1;
    }
    assert(shrunk@.len() == singular@.len());
    match retained_components(singular, &shrunk) {
        Some(kept) => {
            let r: Matrix<u64> = (*compose)(vectors, &shrunk, &kept);
            assert(call_ensures(*compose, (vectors, &shrunk, &kept), r));
            r
        },
        None => zero_like(m),
    }
}

/// Absolute values of some numbers.
pub open spec fn magnitudes(values: Seq<u64>) -> Seq<u64> {
    Seq::new(values.len(), |k: int| bits::magnitude(values[k]) as u64)
}

/// `r` is the largest absolute difference of numbers at the same place of two
/// sequences, as far as both go; differences that are NaN are passed over.
pub open spec fn differs_by<S: Fn(u64, u64) -> u64>(
    r: u64,
    a: Seq<u64>,
    b: Seq<u64>,
    subtract: S,
) -> bool {
    exists|diffs: Seq<u64>|
        {
            &&& diffs.len() == if a.len() <= b.len() {
                a.len()
            } else {
                b.len()
            }
            &&& forall|k: int|
                0 <= k < diffs.len() ==> call_ensures(subtract, (a[k], b[k]), #[trigger] diffs[k])
            &&& r == #[trigger] largest_or_zero(magnitudes(diffs))
        }
}

/// Largest absolute difference of two vectors.
pub fn max_abs_diff<S: Fn(u64, u64) -> u64>(a: &Vec<u64>, b: &Vec<u64>, subtract: &S) -> (r: u64)
    requires
        forall|p: u64, q: u64| #[trigger] call_requires(*subtract, (p, q)),
    ensures
        differs_by(r, a@, b@, *subtract),
{
    let mut sizes: Vec<u64> = Vec::new();
    let ghost mut diffs: Seq<u64> = Seq::empty();
    let mut k: usize = 0;
    while k < a.len() && k < b.len()
        invariant
            forall|p: u64, q: u64| #[trigger] call_requires(*subtract, (p, q)),
            k <= a@.len(),
            k <= b@.len(),
            k == diffs.len(),
            sizes@ == magnitudes(diffs),
            forall|j: int|
                0 <= j < k ==> call_ensures(*subtract, (a@[j], b@[j]), #[trigger] diffs[j]),
        decreases a@.len() - k,
    {
        let diff: u64 = (*subtract)(a[k], b[k]);
        sizes.push(bits::abs(diff));
        proof {
            diffs = diffs.push(diff);
            assert(sizes@ =~= magnitudes(diffs));
        }
        k = k + 1;
    }
    max_or_zero(&sizes)
}

/// Largest absolute difference of two tables.
pub fn max_abs_diff_2d<S: Fn(u64, u64) -> u64>(
    a: &Matrix<u64>,
    b: &Matrix<u64>,
    subtract: &S,
) -> (r: u64)
    requires
        forall|p: u64, q: u64| #[trigger] call_requires(*subtract, (p, q)),
    ensures
        differs_by(r, a.data@, b.data@, *subtract),
{
    max_abs_diff(&a.data, &b.data, subtract)
}

/// A matrix is soft-thresholded over all of its components: it is composed of
/// exactly those, at any index, whose shrunk singular value exceeds `1e-10`, with
/// the shrunk values; it becomes zero only where a singular value is not finite or
/// no shrunk one, at any index, exceeds that.
pub proof fn law_every_large_component_is_composed<
    V,
    D: Fn(&Matrix<u64>) -> Option<(V, Vec<u64>)>,
    H: Fn(u64, u64) -> u64,
    C: Fn(&V, &Vec<u64>, &Vec<usize>) -> Matrix<u64>,
>(
    m: &Matrix<u64>,
    threshold: u64,
    decompose: &D,
    shrink: &H,
    compose: &C,
    r: Option<Matrix<u64>>,
)
    requires
        call_ensures(
            soft_threshold_svd::<V, D, H, C>,
            (m, threshold, decompose, shrink, compose),
            r,
        ),
    ensures
        bits::le(threshold, bits::ZERO) ==> (r matches Some(out) && out.rows == m.rows && out.cols
            == m.cols && out.data@ == m.data@),
        !bits::le(threshold, bits::ZERO) && (exists|k: int|
            0 <= k < m.data@.len() && !bits::finite(#[trigger] m.data@[k])) ==> (r matches Some(out)
            && is_zero_like(&out, m)),
        !bits::le(threshold, bits::ZERO) && (forall|k: int|
            0 <= k < m.data@.len() ==> bits::finite(#[trigger] m.data@[k])) ==> exists|
            factors: Option<(V, Vec<u64>)>,
        |
            {
                &&& #[trigger] call_ensures(*decompose, (m,), factors)
                &&& factors is None ==> r is None
                &&& factors matches Some((vectors, singular)) ==> r is Some && recomposes(
                    r->0,
                    m,
                    threshold,
                    &vectors,
                    singular@,
                    *shrink,
                    *compose,
                )
            },
{
}

/// What is put together from singular values takes in all of them: each is shrunk
/// by the threshold, and exactly those components, at any index, whose shrunk value
/// exceeds `1e-10` are composed; the result is zero only where a singular value is
/// not finite or no shrunk one exceeds that.
pub proof fn law_composition_takes_every_large_component<
    V,
    H: Fn(u64, u64) -> u64,
    C: Fn(&V, &Vec<u64>, &Vec<usize>) -> Matrix<u64>,
>(
    r: Matrix<u64>,
    m: &Matrix<u64>,
    threshold: u64,
    vectors: &V,
    singular: Seq<u64>,
    shrink: H,
    compose: C,
)
    requires
        recomposes(r, m, threshold, vectors, singular, shrink, compose),
    ensures
        exists|shrunk: Vec<u64>|
            {
                &&& #[trigger] shrunk@.len() == singular.len()
                &&& forall|k: int|
                    0 <= k < singular.len() ==> call_ensures(
                        shrink,
                        (singular[k], threshold),
                        #[trigger] shrunk@[k],
                    )
                &&& (forall|k: int| 0 <= k < singular.len() ==> bits::finite(#[trigger] singular[k]))
                    && (exists|k: int|
                    0 <= k < singular.len() && bits::lt(
                        0x3DDB_7CDF_D9D7_BDBB,
                        #[trigger] shrunk@[k],
                    )) ==> exists|kept: Vec<usize>|
                    {
                        &&& forall|k: usize|
                            #![trigger kept@.contains(k)]
                            kept@.contains(k) <==> k < singular.len() && bits::lt(
                                0x3DDB_7CDF_D9D7_BDBB,
                                shrunk@[k as int],
                            )
                        &&& forall|i: int, j: int|
                            0 <= i < j < kept@.len() ==> #[trigger] kept@[i] < #[trigger] kept@[j]
                        &&& #[trigger] call_ensures(compose, (vectors, &shrunk, &kept), r)
                    }
                &&& !((forall|k: int|
                    0 <= k < singular.len() ==> bits::finite(#[trigger] singular[k])) && (exists|
                    k: int,
                |
                    0 <= k < singular.len() && bits::lt(
                        0x3DDB_7CDF_D9D7_BDBB,
                        #[trigger] shrunk@[k],
                    ))) ==> r.rows == m.rows && r.cols == m.cols && forall|t: usize, i: usize|
                    t < m.rows && i < m.cols ==> #[trigger] r.at(t as int, i as int) == bits::ZERO
            },
{
    let shrunk = choose|shrunk: Vec<u64>|
        {
            &&& #[trigger] shrunk@.len() == singular.len()
            &&& forall|k: int|
                0 <= k < singular.len() ==> call_ensures(
                    shrink,
                    (singular[k], threshold),
                    #[trigger] shrunk@[k],
                )
            &&& if components_survive(singular, shrunk@) {
                exists|kept: Vec<usize>|
                    lists_components(kept@, shrunk@) && #[trigger] call_ensures(
                        compose,
                        (vectors, &shrunk, &kept),
                        r,
                    )
            } else {
                is_zero_like(&r, m)
            }
        };
    if components_survive(singular, shrunk@) {
        let kept = choose|kept: Vec<usize>|
            lists_components(kept@, shrunk@) && #[trigger] call_ensures(
                compose,
                (vectors, &shrunk, &kept),
                r,
            );
        assert forall|k: usize|
            #![trigger kept@.contains(k)]
            kept@.contains(k) <==> k < singular.len() && bits::lt(
                0x3DDB_7CDF_D9D7_BDBB,
                shrunk@[k as int],
            ) by {
            if kept@.contains(k) {
                let j = choose|j: int| 0 <= j < kept@.len() && kept@[j] == k;
                assert(kept@[j] < shrunk@.len());
            }
        }
    }
}

/// The largest absolute difference of two vectors is not below that at any place
/// that both have, and is that at one of them, or zero.
pub proof fn law_largest_difference<S: Fn(u64, u64) -> u64>(
    a: &Vec<u64>,
    b: &Vec<u64>,
    subtract: &S,
    r: u64,
)
    requires
        call_ensures(max_abs_diff::<S>, (a, b, subtract), r),
    ensures
        exists|diffs: Seq<u64>|
            {
                &&& #[trigger] diffs.len() <= a@.len()
                &&& diffs.len() <= b@.len()
                &&& diffs.len() == a@.len() || diffs.len() == b@.len()
                &&& forall|k: int|
                    0 <= k < diffs.len() ==> call_ensures(
                        *subtract,
                        (a@[k], b@[k]),
                        #[trigger] diffs[k],
                    )
                &&& forall|k: int|
                    0 <= k < diffs.len() ==> !bits::lt(
                        r,
                        bits::magnitude(#[trigger] diffs[k]) as u64,
                    )
                &&& r == bits::ZERO || exists|k: int|
                    0 <= k < diffs.len() && r == bits::magnitude(#[trigger] diffs[k])
            },
{
    let diffs = choose|diffs: Seq<u64>|
        {
            &&& diffs.len() == if a@.len() <= b@.len() {
                a@.len()
            } else {
                b@.len()
            }
            &&& forall|k: int|
                0 <= k < diffs.len() ==> call_ensures(
                    *subtract,
                    (a@[k], b@[k]),
                    #[trigger] diffs[k],
                )
            &&& r == #[trigger] largest_or_zero(magnitudes(diffs))
        };
    assert(diffs.len() <= a@.len());
    assert forall|k: int| 0 <= k < diffs.len() implies !bits::lt(
        r,
        bits::magnitude(#[trigger] diffs[k]) as u64,
    ) by {
        crate::weights::law_largest_or_zero(magnitudes(diffs), k);
        assert(magnitudes(diffs)[k] == bits::magnitude(diffs[k]) as u64);
    }
    crate::weights::law_largest_or_zero(magnitudes(diffs), 0);
    if r != bits::ZERO {
        let k = choose|k: int| 0 <= k < magnitudes(diffs).len() && magnitudes(diffs)[k] == r;
        assert(r == bits::magnitude(diffs[k]));
    }
}

/// A fit works on exactly the cells that are marked as control, have a finite
/// outcome and are not left out: with their outcomes and weights there and zeros
/// elsewhere.
pub proof fn law_fit_works_on_every_control_cell(
    problem: &TwostepProblem,
    y: &Matrix<u64>,
    x: Option<&Matrix<u64>>,
    control_mask: &Matrix<u8>,
    weights: &Matrix<u64>,
    exclude: Option<(usize, usize)>,
    lambda_nn: u64,
    t: usize,
    i: usize,
)
    requires
        problem.poses(y, x, control_mask, weights, exclude, lambda_nn),
        t < y.rows,
        i < y.cols,
    ensures
        ({
            let (outcome, w) = (y.at(t as int, i as int), weights.at(t as int, i as int));
            let fitted = bits::finite(outcome) && control_mask.at(t as int, i as int) != 0
                && exclude != Some((t, i));
            &&& problem.y.rows == y.rows && problem.y.cols == y.cols
            &&& problem.valid.at(t as int, i as int) <==> fitted
            &&& problem.support.at(t as int, i as int) <==> fitted && bits::lt(bits::ZERO, w)
            &&& fitted ==> problem.y.at(t as int, i as int) == outcome && problem.weights.at(
                t as int,
                i as int,
            ) == w
            &&& !fitted ==> problem.y.at(t as int, i as int) == bits::ZERO && problem.weights.at(
                t as int,
                i as int,
            ) == bits::ZERO
            &&& problem.lambda_nn == lambda_nn
            &&& problem.x is Some <==> x is Some
        }),
        forall|k: usize|
            #![trigger problem.rows@.contains(k)]
            problem.rows@.contains(k) <==> k < problem.weights.data@.len() && !bits::le(
                problem.weights.data@[k as int],
                bits::ZERO,
            ),
        forall|k: int|
            0 <= k < problem.weights.data@.len() ==> !bits::lt(
                problem.largest,
                #[trigger] problem.weights.data@[k],
            ),
        problem.largest == bits::ZERO || problem.weights.data@.contains(problem.largest),
        x matches Some(m) ==> problem.x->0.data@ == m.data@ && problem.x->0.cols == m.cols,
{
    assert(problem.y.at(t as int, i as int) == fitted_value(y, y, control_mask, exclude, t, i));
    assert(problem.weights.at(t as int, i as int) == fitted_value(
        weights,
        y,
        control_mask,
        exclude,
        t,
        i,
    ));
    assert(problem.valid.at(t as int, i as int) == fitted_cell(y, control_mask, exclude, t, i));
    assert(problem.support.at(t as int, i as int) == (fitted_cell(y, control_mask, exclude, t, i)
        && bits::lt(bits::ZERO, weights.at(t as int, i as int))));
    assert forall|k: usize|
        #![trigger problem.rows@.contains(k)]
        problem.rows@.contains(k) <==> k < problem.weights.data@.len() && !bits::le(
            problem.weights.data@[k as int],
            bits::ZERO,
        ) by {
        if problem.rows@.contains(k) {
            let j = choose|j: int| 0 <= j < problem.rows@.len() && problem.rows@[j] == k;
            assert(problem.rows@[j] < problem.weights.data@.len());
        }
    }
    assert forall|k: int| 0 <= k < problem.weights.data@.len() implies !bits::lt(
        problem.largest,
        #[trigger] problem.weights.data@[k],
    ) by {
        crate::weights::law_largest_or_zero(problem.weights.data@, k);
    }
    crate::weights::law_largest_or_zero(problem.weights.data@, 0);
}

/// A least-squares problem has a solution only where the weights of the cells sum
/// to `1e-10` or more and the solver gives one, and then its coefficients are read
/// off that; each row is the root of the weight of its cell times the row of the
/// design, and its response the outcome times that root.
pub proof fn law_regression_of_a_panel<T: Summary, R: Unary, P: Binary, L: Solver>(
    y: &Matrix<u64>,
    delta: &Matrix<u64>,
    x: Option<&Matrix<u64>>,
    sum: &T,
    root: &R,
    multiply: &P,
    solve: &L,
    r: Option<JointCoefficients>,
    cells: (Vec<u64>, Vec<u64>),
)
    requires
        call_ensures(
            solve_joint_no_lowrank::<T, R, P, L>,
            (y, delta, x, sum, root, multiply, solve),
            r,
        ),
        call_ensures(regression_cells, (y, delta), cells),
    ensures
        exists|weights: Vec<u64>, total: u64|
            {
                &&& weights@ == cells.1@
                &&& #[trigger] call_ensures(*sum, (&weights,), total)
                &&& bits::lt(total, 0x3DDB_7CDF_D9D7_BDBB) ==> r is None
                &&& !bits::lt(total, 0x3DDB_7CDF_D9D7_BDBB) ==> exists|
                    problem: Regression,
                    solution: Option<Vec<u64>>,
                |
                    {
                        &&& #[trigger] problem.poses(y, delta, x, *root, *multiply)
                        &&& call_ensures(
                            *solve,
                            (
                                &problem.matrix,
                                &problem.response,
                                design_of(y, x).rows() as usize,
                                design_of(y, x).params() as usize,
                            ),
                            solution,
                        )
                        &&& #[trigger] solution_gives(r, design_of(y, x), solution)
                    }
            },
{
}

/// The least-squares problem of a panel: the root of the weight of every cell, its
/// outcome times that, padded with zeros, and its covariates times that.
pub proof fn law_regression_problem<R: Fn(u64) -> u64, P: Fn(u64, u64) -> u64>(
    problem: Regression,
    y: &Matrix<u64>,
    delta: &Matrix<u64>,
    x: Option<&Matrix<u64>>,
    root: R,
    multiply: P,
    cells: (Vec<u64>, Vec<u64>),
    k: usize,
)
    requires
        y.wf(),
        problem.poses(y, delta, x, root, multiply),
        call_ensures(regression_cells, (y, delta), cells),
        k < y.rows * y.cols,
    ensures
        problem.roots@.len() == y.rows * y.cols,
        call_ensures(root, (cells.1@[k as int],), problem.roots@[k as int]),
        problem.response@.len() >= y.rows * y.cols,
        call_ensures(
            multiply,
            (cells.0@[k as int], problem.roots@[k as int]),
            problem.response@[k as int],
        ),
        forall|j: int|
            y.rows * y.cols <= j < problem.response@.len() ==> #[trigger] problem.response@[j]
                == bits::ZERO,
        x matches Some(m) ==> problem.weighted_x.cols == m.cols && forall|p: usize|
            p < m.cols ==> call_ensures(
                multiply,
                (problem.roots@[k as int], m.at(k as int, p as int)),
                #[trigger] problem.weighted_x.at(k as int, p as int),
            ),
{
    assert(problem.roots@[k as int] == problem.roots@[k as int]);
    assert(problem.products@[k as int] == problem.products@[k as int]);
}

/// Nothing is read off where there is no solution, and the coefficients of the
/// solution where there is one.
pub proof fn law_solution_is_read_off(
    r: Option<JointCoefficients>,
    design: Design,
    solution: Option<Vec<u64>>,
)
    requires
        solution_gives(r, design, solution),
    ensures
        r is Some <==> solution is Some,
        solution matches Some(v) ==> r->0.splits(design, v@),
{
}

/// The design of a panel has its periods, its units and its covariates.
pub proof fn law_design_of_a_panel(y: &Matrix<u64>, x: Option<&Matrix<u64>>)
    ensures
        design_of(y, x).n_periods == y.rows,
        design_of(y, x).n_units == y.cols,
        design_of(y, x).n_cov == match x {
            Some(m) => m.cols,
            None => 0,
        },
        design_of(y, x).rows() == y.rows * y.cols,
        design_of(y, x).params() == y.rows + y.cols - 1 + design_of(y, x).n_cov,
{
}

} // verus!
